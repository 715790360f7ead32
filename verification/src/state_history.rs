//! State history entries as the external script parser hands them over:
//! each state's name, its sub-states with their owner tags and province
//! keys, and its homeland and claim tags. The engine reads these to build
//! the province-to-parent color tables for aggregation recoloring.

use vstd::prelude::*;

use crate::buildings::str_list_view;

verus! {

/// One sub-state of a state history entry: its owner tag and the region
/// keys of its provinces.
#[derive(Debug)]
pub struct SubState {
    pub provinces: Vec<String>,
    pub owner: String,
}

/// The mathematical image of a sub-state.
pub struct SubStateV {
    pub provinces: Seq<Seq<char>>,
    pub owner: Seq<char>,
}

impl View for SubState {
    type V = SubStateV;

    open spec fn view(&self) -> SubStateV {
        SubStateV { provinces: str_list_view(self.provinces@), owner: self.owner@ }
    }
}

/// A state history entry: name, sub-states, homelands and claims.
#[derive(Debug)]
pub struct State {
    pub name: String,
    pub sub_states: Vec<SubState>,
    pub homelands: Vec<String>,
    pub claims: Vec<String>,
}

/// The mathematical image of a state history entry.
pub struct StateV {
    pub name: Seq<char>,
    pub sub_states: Seq<SubStateV>,
    pub homelands: Seq<Seq<char>>,
    pub claims: Seq<Seq<char>>,
}

impl View for State {
    type V = StateV;

    open spec fn view(&self) -> StateV {
        StateV {
            name: self.name@,
            sub_states: self.sub_states@.map(|i: int, s: SubState| s@),
            homelands: str_list_view(self.homelands@),
            claims: str_list_view(self.claims@),
        }
    }
}

/// The view of a whole history list.
pub open spec fn histories_view(s: Seq<State>) -> Seq<StateV> {
    s.map(|i: int, st: State| st@)
}

} // verus!
