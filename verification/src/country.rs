//! Territories: states with their provinces, population and building
//! records, and countries owning states plus a flat ring-list geometry.
//! Every mutation is a pure function from old snapshot to new snapshot, so
//! that one transfer commits in a single step.

use vstd::prelude::*;

use crate::buildings::StateBuilding;
use crate::buildings::StateBuildingV;
use crate::buildings::buildings_view;
use crate::buildings::clone_state_building;
use crate::buildings::clone_string_vec;
use crate::buildings::str_list_view;
use crate::buildings::merge_buildings_spec;
use crate::buildings::merge_state_buildings;
use crate::buildings::sum_abs_levels;
use crate::geometry::RingList;
use crate::geometry::clone_ring_list;
use crate::geometry::lemma_on_grid_view;
use crate::geometry::lemma_same_views_same_shape;
use crate::geometry::lemma_view_closed_to_rings_closed;
use crate::geometry::rings_closed;
use crate::geometry::rings_on_grid;
use crate::geometry::rings_view;
use crate::geometry::rings_union;
use crate::geometry::rings_difference;
use crate::geometry::union_of;
use crate::geometry::difference_of;
use crate::geometry::view_rings_closed;
use crate::geometry::view_rings_on_grid;
use crate::pops::Pop;
use crate::pops::PopV;
use crate::pops::pops_view;
use crate::pops::clone_pop;
use crate::pops::merge_pops;
use crate::pops::merge_pops_spec;
use crate::pops::sum_abs_sizes;
use crate::setup::CountrySetup;
use crate::setup::CountrySetupV;
use crate::setup::CountryDefinition;

verus! {

/// A state: its name, the region keys of its member provinces, its own
/// border geometry as a flat ring list on the doubled grid, and its
/// population and building records.
#[derive(Debug)]
pub struct State {
    pub name: String,
    pub provinces: Vec<String>,
    pub coordinates: RingList,
    pub pops: Vec<Pop>,
    pub state_buildings: Vec<StateBuilding>,
}

/// The mathematical image of a state.
pub struct StateV {
    pub name: Seq<char>,
    pub provinces: Seq<Seq<char>>,
    pub coordinates: Seq<Seq<(int, int)>>,
    pub pops: Seq<PopV>,
    pub state_buildings: Seq<StateBuildingV>,
}

impl View for State {
    type V = StateV;

    open spec fn view(&self) -> StateV {
        StateV {
            name: self.name@,
            provinces: str_list_view(self.provinces@),
            coordinates: rings_view(self.coordinates@),
            pops: pops_view(self.pops@),
            state_buildings: buildings_view(self.state_buildings@),
        }
    }
}

/// The view of a state list.
pub open spec fn states_view(s: Seq<State>) -> Seq<StateV> {
    s.map(|i: int, st: State| st@)
}

/// A country: its tag, map color, member states, geometry as a flat ring
/// list on the doubled grid, and setup record.
#[derive(Debug)]
pub struct Country {
    pub name: String,
    pub color: (u8, u8, u8),
    pub states: Vec<State>,
    pub coordinates: RingList,
    pub setup: CountrySetup,
}

/// The mathematical image of a country.
pub struct CountryV {
    pub name: Seq<char>,
    pub color: (u8, u8, u8),
    pub states: Seq<StateV>,
    pub coordinates: Seq<Seq<(int, int)>>,
    pub setup: CountrySetupV,
}

impl View for Country {
    type V = CountryV;

    open spec fn view(&self) -> CountryV {
        CountryV {
            name: self.name@,
            color: self.color,
            states: states_view(self.states@),
            coordinates: rings_view(self.coordinates@),
            setup: self.setup@,
        }
    }
}

/// Whether some state of the list bears this name.
pub open spec fn has_state(states: Seq<StateV>, name: Seq<char>) -> bool {
    exists|i: int| 0 <= i < states.len() && (#[trigger] states[i]).name == name
}

/// The index of the first state bearing this name, or -1.
pub open spec fn state_index(states: Seq<StateV>, name: Seq<char>) -> int
    decreases states.len(),
{
    if states.len() == 0 {
        -1
    } else if states[0].name == name {
        0
    } else {
        let r = state_index(states.drop_first(), name);
        if r < 0 {
            -1
        } else {
            r + 1
        }
    }
}

/// The list without any state of this name, in order.
pub open spec fn keep_other_states(ss: Seq<StateV>, name: Seq<char>) -> Seq<StateV> {
    ss.filter(|st: StateV| st.name != name)
}

/// The province list without any occurrence of this key, in order.
pub open spec fn provinces_without(ps: Seq<Seq<char>>, p: Seq<char>) -> Seq<Seq<char>> {
    ps.filter(|q: Seq<char>| q != p)
}

/// The merge of two same-named states: province lists concatenated, border
/// geometry unioned, population groups summed by identity, building
/// records merged by name.
pub open spec fn merged_state(to: StateV, from: StateV) -> StateV {
    StateV {
        name: to.name,
        provinces: to.provinces + from.provinces,
        coordinates: union_of(to.coordinates, from.coordinates),
        pops: merge_pops_spec(to.pops, from.pops),
        state_buildings: merge_buildings_spec(to.state_buildings, from.state_buildings),
    }
}

/// The first match found at `j`, with no earlier match, is the state that
/// `state_index` names.
pub proof fn lemma_state_index_at(ss: Seq<StateV>, name: Seq<char>, j: int)
    requires
        0 <= j < ss.len(),
        ss[j].name == name,
        forall|m: int| 0 <= m < j ==> (#[trigger] ss[m]).name != name,
    ensures
        state_index(ss, name) == j,
    decreases ss.len(),
{
    if j > 0 {
        lemma_state_index_at(ss.drop_first(), name, j - 1);
    }
}

/// A list with no match has no state index.
pub proof fn lemma_state_index_none(ss: Seq<StateV>, name: Seq<char>)
    requires
        forall|m: int| 0 <= m < ss.len() ==> (#[trigger] ss[m]).name != name,
    ensures
        state_index(ss, name) == -1,
        !has_state(ss, name),
    decreases ss.len(),
{
    if ss.len() > 0 {
        lemma_state_index_none(ss.drop_first(), name);
    }
}

/// A valid state index names a matching state and implies `has_state`.
pub proof fn lemma_state_index_valid(ss: Seq<StateV>, name: Seq<char>)
    requires
        has_state(ss, name),
    ensures
        0 <= state_index(ss, name) < ss.len(),
        ss[state_index(ss, name)].name == name,
        forall|m: int| 0 <= m < state_index(ss, name) ==> (#[trigger] ss[m]).name != name,
    decreases ss.len(),
{
    if ss[0].name != name {
        assert(has_state(ss.drop_first(), name)) by {
            let i = choose|i: int| 0 <= i < ss.len() && (#[trigger] ss[i]).name == name;
            assert(ss.drop_first()[i - 1].name == name);
        }
        lemma_state_index_valid(ss.drop_first(), name);
        assert forall|m: int|
            0 <= m < state_index(ss, name) implies (#[trigger] ss[m]).name != name by {
            if m > 0 {
                assert(ss.drop_first()[m - 1].name != name);
            }
        }
    }
}

/// Relies on str's equality: two string slices are equal exactly when their
/// character sequences are.
#[verifier::external_body]
fn str_eq(a: &str, b: &str) -> (r: bool)
    ensures
        r == (a@ == b@),
{
    a == b
}

/// A deep copy of a population list.
pub fn clone_pops_vec(v: &Vec<Pop>) -> (r: Vec<Pop>)
    ensures
        pops_view(r@) == pops_view(v@),
{
    let mut out: Vec<Pop> = Vec::new();
    let n = v.len();
    let mut i: usize = 0;
    while i < n
        invariant
            n == v@.len(),
            i <= n,
            out@.len() == i,
            forall|j: int| 0 <= j < i ==> (#[trigger] out@[j])@ == v@[j]@,
        decreases n - i,
    {
        out.push(clone_pop(&v[i]));
        i = i + 1;
    }
    proof {
        assert(pops_view(out@) =~= pops_view(v@));
    }
    out
}

/// A deep copy of a building list.
pub fn clone_buildings_vec(v: &Vec<StateBuilding>) -> (r: Vec<StateBuilding>)
    ensures
        buildings_view(r@) == buildings_view(v@),
{
    let mut out: Vec<StateBuilding> = Vec::new();
    let n = v.len();
    let mut i: usize = 0;
    while i < n
        invariant
            n == v@.len(),
            i <= n,
            out@.len() == i,
            forall|j: int| 0 <= j < i ==> (#[trigger] out@[j])@ == v@[j]@,
        decreases n - i,
    {
        out.push(clone_state_building(&v[i]));
        i = i + 1;
    }
    proof {
        assert(buildings_view(out@) =~= buildings_view(v@));
    }
    out
}

/// A deep copy of a state.
pub fn clone_state(s: &State) -> (r: State)
    ensures
        r@ == s@,
{
    State {
        name: s.name.clone(),
        provinces: clone_string_vec(&s.provinces),
        coordinates: clone_ring_list(&s.coordinates),
        pops: clone_pops_vec(&s.pops),
        state_buildings: clone_buildings_vec(&s.state_buildings),
    }
}

/// Split a state list into the states of other names, kept in order, and
/// the first state of the given name; later states of that name are
/// discarded, as the in-place removal discarded them.
fn split_states(states: Vec<State>, name: &str) -> (r: (Vec<State>, Option<State>))
    ensures
        states_view(r.0@) == keep_other_states(states_view(states@), name@),
        state_index(states_view(states@), name@) < 0 <==> r.1 is None,
        r.1 is Some ==> r.1->0@ == states_view(states@)[state_index(states_view(states@), name@)],
{
    let ghost orig = states_view(states@);
    let mut kept: Vec<State> = Vec::new();
    let mut found: Option<State> = None;
    let mut rest = states;
    let total: usize = rest.len();
    proof {
        reveal(Seq::filter);
        assert(keep_other_states(orig.take(0), name@) =~= Seq::<StateV>::empty());
    }
    let mut i: usize = 0;
    while rest.len() > 0
        invariant
            total as int == orig.len(),
            i <= total,
            states_view(rest@) =~= orig.skip(i as int),
            rest@.len() == total - i,
            states_view(kept@) == keep_other_states(orig.take(i as int), name@),
            match found {
                None => forall|m: int| 0 <= m < i ==> (#[trigger] orig[m]).name != name@,
                Some(st) => {
                    &&& has_state(orig.take(i as int), name@)
                    &&& st@ == orig[state_index(orig, name@)]
                    &&& 0 <= state_index(orig, name@) < i
                },
            },
        decreases rest@.len(),
    {
        let ghost rest_before = rest@;
        let st = rest.remove(0);
        proof {
            assert(states_view(rest_before)[0] == st@);
            assert(states_view(rest_before) =~= orig.skip(i as int));
            assert(st@ == orig.skip(i as int)[0]);
            assert(st@ == orig[i as int]);
            assert(rest@ == rest_before.remove(0));
            assert forall|j: int|
                0 <= j < rest@.len() implies states_view(rest@)[j] == orig.skip(i + 1)[j] by {
                assert(rest@[j] == rest_before[j + 1]);
                assert(states_view(rest_before)[j + 1] == orig.skip(i as int)[j + 1]);
            }
            assert(states_view(rest@) =~= orig.skip(i + 1));
            assert(orig.take(i + 1).drop_last() =~= orig.take(i as int));
            assert(orig.take(i + 1).last() == orig[i as int]);
            reveal(Seq::filter);
        }
        if !str_eq(st.name.as_str(), name) {
            kept.push(st);
            proof {
                reveal(Seq::filter);
                assert(states_view(kept@) =~= keep_other_states(orig.take(i as int), name@).push(
                    orig[i as int],
                ));
                assert(states_view(kept@) =~= keep_other_states(orig.take(i + 1), name@));
            }
        } else {
            match found {
                None => {
                    proof {
                        lemma_state_index_at(orig, name@, i as int);
                        assert(orig.take(i + 1)[i as int].name == name@);
                    }
                    found = Some(st);
                },
                Some(_) => {},
            }
            proof {
                reveal(Seq::filter);
                assert(states_view(kept@) =~= keep_other_states(orig.take(i + 1), name@));
            }
        }
        i = i + 1;
    }
    proof {
        assert(orig.take(total as int) =~= orig);
        assert(states_view(kept@) == keep_other_states(orig, name@));
        match found {
            None => {
                lemma_state_index_none(orig, name@);
            },
            Some(ref st) => {},
        }
    }
    (kept, found)
}

/// A valid state index names a matching state.
pub proof fn lemma_state_index_found(ss: Seq<StateV>, name: Seq<char>)
    requires
        state_index(ss, name) >= 0,
    ensures
        0 <= state_index(ss, name) < ss.len(),
        ss[state_index(ss, name)].name == name,
        has_state(ss, name),
    decreases ss.len(),
{
    if ss.len() > 0 && ss[0].name != name {
        lemma_state_index_found(ss.drop_first(), name);
        assert(ss[state_index(ss, name)] == ss.drop_first()[state_index(ss.drop_first(), name)]);
    }
}

/// The index of the first state of this name, if any.
pub fn find_state_index(states: &Vec<State>, name: &str) -> (r: Option<usize>)
    ensures
        r is Some <==> has_state(states_view(states@), name@),
        r is Some ==> r->0 < states@.len() && r->0 == state_index(states_view(states@), name@),
{
    let ghost ss = states_view(states@);
    let n = states.len();
    let mut j: usize = 0;
    while j < n
        invariant
            n == states@.len(),
            ss == states_view(states@),
            j <= n,
            forall|m: int| 0 <= m < j ==> (#[trigger] ss[m]).name != name@,
        decreases n - j,
    {
        if str_eq(states[j].name.as_str(), name) {
            proof {
                assert(ss[j as int].name == name@);
                lemma_state_index_at(ss, name@, j as int);
            }
            return Some(j);
        }
        j = j + 1;
    }
    proof {
        lemma_state_index_none(ss, name@);
    }
    None
}

/// Whether the country owns a state of this name.
pub fn country_has_state(c: &Country, name: &str) -> (r: bool)
    ensures
        r == has_state(c@.states, name@),
{
    match find_state_index(&c.states, name) {
        Some(_) => true,
        None => false,
    }
}

/// Whether the first state of the given name holds this province key.
pub fn country_state_has_province(c: &Country, state: &str, province: &str) -> (r: bool)
    requires
        has_state(c@.states, state@),
    ensures
        r == c@.states[state_index(c@.states, state@)].provinces.contains(province@),
{
    proof {
        lemma_state_index_valid(c@.states, state@);
    }
    let idx = match find_state_index(&c.states, state) {
        Some(j) => j,
        None => {
            proof {
                assert(false);
            }
            0
        },
    };
    let ghost provs = c@.states[state_index(c@.states, state@)].provinces;
    let st_provinces = &c.states[idx].provinces;
    let n = st_provinces.len();
    let mut i: usize = 0;
    while i < n
        invariant
            n == st_provinces@.len(),
            provs == str_list_view(st_provinces@),
            0 <= state_index(c@.states, state@) < c@.states.len(),
            provs == c@.states[state_index(c@.states, state@)].provinces,
            i <= n,
            forall|m: int| 0 <= m < i ==> provs[m] != province@,
        decreases n - i,
    {
        if str_eq(st_provinces[i].as_str(), province) {
            proof {
                assert(provs[i as int] == province@);
                assert(provs.contains(province@));
            }
            return true;
        }
        i = i + 1;
    }
    proof {
        if provs.contains(province@) {
            let m = choose|m: int| 0 <= m < provs.len() && provs[m] == province@;
            assert(provs[m] != province@);
        }
    }
    false
}

/// The views of two concatenated string lists concatenate.
proof fn lemma_str_list_view_concat(a: Seq<String>, b: Seq<String>)
    ensures
        str_list_view(a + b) == str_list_view(a) + str_list_view(b),
{
    assert(str_list_view(a + b) =~= str_list_view(a) + str_list_view(b));
}

/// The provinces of a state without one key: every occurrence of that key
/// is dropped, as the in-place removal dropped them.
fn remove_province_keys(provinces: Vec<String>, province: &str) -> (r: Vec<String>)
    ensures
        str_list_view(r@) == provinces_without(str_list_view(provinces@), province@),
{
    let ghost orig = str_list_view(provinces@);
    let mut kept: Vec<String> = Vec::new();
    let mut rest = provinces;
    let total: usize = rest.len();
    proof {
        reveal(Seq::filter);
        assert(provinces_without(orig.take(0), province@) =~= Seq::<Seq<char>>::empty());
    }
    let mut i: usize = 0;
    while rest.len() > 0
        invariant
            total as int == orig.len(),
            i <= total,
            rest@.len() == total - i,
            forall|j: int|
                0 <= j < rest@.len() ==> (#[trigger] rest@[j])@ == orig[i + j],
            str_list_view(kept@) == provinces_without(orig.take(i as int), province@),
        decreases rest@.len(),
    {
        let ghost rest_before = rest@;
        let p = rest.remove(0);
        proof {
            assert(p@ == orig[i as int]);
            assert forall|j: int|
                0 <= j < rest@.len() implies (#[trigger] rest@[j])@ == orig[i + 1 + j] by {
                assert(rest@[j] == rest_before[j + 1]);
            }
            assert(orig.take(i + 1).drop_last() =~= orig.take(i as int));
            assert(orig.take(i + 1).last() == orig[i as int]);
        }
        if !str_eq(p.as_str(), province) {
            kept.push(p);
            proof {
                reveal(Seq::filter);
                assert(str_list_view(kept@) =~= provinces_without(orig.take(i as int), province@)
                    .push(orig[i as int]));
                assert(str_list_view(kept@) =~= provinces_without(orig.take(i + 1), province@));
            }
        } else {
            proof {
                reveal(Seq::filter);
                assert(str_list_view(kept@) =~= provinces_without(orig.take(i + 1), province@));
            }
        }
        i = i + 1;
    }
    proof {
        assert(orig.take(total as int) =~= orig);
    }
    kept
}

impl Country {
    /// A fresh country from its definition: no states, no geometry, a
    /// default setup record.
    pub fn new(country_definition: CountryDefinition) -> (r: Country)
        ensures
            r@.name == country_definition.tag@,
            r@.color == country_definition.color,
            r@.states.len() == 0,
            r@.coordinates.len() == 0,
            rings_closed(r.coordinates@),
            rings_on_grid(r.coordinates@),
            r@.setup.base_tech == Some("tier_7"@),
            r@.setup.technologies_researched.len() == 0,
    {
        Country {
            name: country_definition.tag,
            color: country_definition.color,
            states: Vec::new(),
            coordinates: Vec::new(),
            setup: CountrySetup::new(),
        }
    }

    /// Remove every state of this name and subtract the given geometry from
    /// the country's own.
    pub fn remove_state(self, state: &str, coords: &RingList) -> (r: Country)
        requires
            rings_closed(self.coordinates@),
            rings_closed(coords@),
            rings_on_grid(self.coordinates@),
            rings_on_grid(coords@),
        ensures
            r@.name == self@.name,
            r@.color == self@.color,
            r@.setup == self@.setup,
            r@.states == keep_other_states(self@.states, state@),
            r@.coordinates == difference_of(self@.coordinates, rings_view(coords@)),
            rings_closed(r.coordinates@),
            rings_on_grid(r.coordinates@),
    {
        let new_coordinates = rings_difference(&self.coordinates, coords);
        let (kept, _found) = split_states(self.states, state);
        Country {
            name: self.name,
            color: self.color,
            states: kept,
            coordinates: new_coordinates,
            setup: self.setup,
        }
    }

    /// Attach a state taken from another country: the geometry is unioned
    /// in; a state of the same name is merged with it, any other same-named
    /// leftovers being dropped, and otherwise the state is copied over
    /// unchanged.
    pub fn add_state(self, from_country: &Country, state: &str, to_coords: &RingList) -> (r:
        Country)
        requires
            rings_closed(self.coordinates@),
            rings_closed(to_coords@),
            rings_on_grid(self.coordinates@),
            rings_on_grid(to_coords@),
            has_state(from_country@.states, state@),
            has_state(self@.states, state@) ==> ({
                let to_st = self@.states[state_index(self@.states, state@)];
                let from_st = from_country@.states[state_index(from_country@.states, state@)];
                &&& sum_abs_sizes(to_st.pops) + sum_abs_sizes(from_st.pops) <= i64::MAX
                &&& sum_abs_levels(to_st.state_buildings) + sum_abs_levels(from_st.state_buildings)
                    <= i64::MAX
                &&& view_rings_closed(to_st.coordinates)
                &&& view_rings_on_grid(to_st.coordinates)
                &&& view_rings_closed(from_st.coordinates)
                &&& view_rings_on_grid(from_st.coordinates)
            }),
        ensures
            r@.name == self@.name,
            r@.color == self@.color,
            r@.setup == self@.setup,
            r@.coordinates == union_of(self@.coordinates, rings_view(to_coords@)),
            rings_closed(r.coordinates@),
            rings_on_grid(r.coordinates@),
            ({
                let from_st = from_country@.states[state_index(from_country@.states, state@)];
                if has_state(self@.states, state@) {
                    let to_st = self@.states[state_index(self@.states, state@)];
                    r@.states == keep_other_states(self@.states, state@).push(
                        merged_state(to_st, from_st),
                    )
                } else {
                    r@.states == self@.states.push(from_st)
                }
            }),
    {
        proof {
            lemma_state_index_valid(from_country@.states, state@);
        }
        let new_coordinates = rings_union(&self.coordinates, to_coords);
        let from_idx = match find_state_index(&from_country.states, state) {
            Some(j) => j,
            None => {
                proof {
                    assert(false);
                }
                0
            },
        };
        let from_state = clone_state(&from_country.states[from_idx]);
        let ghost self_states = self@.states;
        let (kept, found) = split_states(self.states, state);
        let mut new_states = kept;
        match found {
            Some(to_state) => {
                proof {
                    lemma_state_index_found(self_states, state@);
                    let to_st = self_states[state_index(self_states, state@)];
                    let from_st = from_country@.states[state_index(from_country@.states, state@)];
                    assert(rings_view(to_state.coordinates@) == to_st.coordinates);
                    assert(rings_view(from_state.coordinates@) == from_st.coordinates);
                    lemma_view_closed_to_rings_closed(to_state.coordinates@);
                    lemma_view_closed_to_rings_closed(from_state.coordinates@);
                    lemma_on_grid_view(to_state.coordinates@);
                    lemma_on_grid_view(from_state.coordinates@);
                }
                let State { name, provinces, coordinates, pops, state_buildings } = to_state;
                let mut provinces = provinces;
                let mut from_provinces = from_state.provinces;
                proof {
                    lemma_str_list_view_concat(provinces@, from_provinces@);
                }
                provinces.append(&mut from_provinces);
                let merged = State {
                    name,
                    provinces,
                    coordinates: rings_union(&coordinates, &from_state.coordinates),
                    pops: merge_pops(pops, from_state.pops),
                    state_buildings: merge_state_buildings(
                        state_buildings,
                        from_state.state_buildings,
                    ),
                };
                new_states.push(merged);
                proof {
                    let to_st = self_states[state_index(self_states, state@)];
                    let from_st = from_country@.states[state_index(from_country@.states, state@)];
                    assert(states_view(new_states@) =~= keep_other_states(
                        self_states,
                        state@,
                    ).push(merged_state(to_st, from_st)));
                }
            },
            None => {
                new_states.push(from_state);
                proof {
                    lemma_state_index_none_of_has(self_states, state@);
                    let from_st = from_country@.states[state_index(from_country@.states, state@)];
                    assert(states_view(new_states@) =~= self_states.push(from_st));
                }
            },
        }
        Country {
            name: self.name,
            color: self.color,
            states: new_states,
            coordinates: new_coordinates,
            setup: self.setup,
        }
    }

    /// Attach one province to the named state, merging the population and
    /// building payload that travels with it; without such a state a new
    /// state owning only this province is created. The province's geometry
    /// is unioned into both the state's border and the country's.
    pub fn add_province(
        self,
        state: &str,
        province: &str,
        province_coords: &RingList,
        pops: Vec<Pop>,
        state_buildings: Vec<StateBuilding>,
    ) -> (r: Country)
        requires
            rings_closed(self.coordinates@),
            rings_closed(province_coords@),
            rings_on_grid(self.coordinates@),
            rings_on_grid(province_coords@),
            has_state(self@.states, state@) ==> ({
                let to_st = self@.states[state_index(self@.states, state@)];
                &&& sum_abs_sizes(to_st.pops) + sum_abs_sizes(pops_view(pops@)) <= i64::MAX
                &&& sum_abs_levels(to_st.state_buildings) + sum_abs_levels(
                    buildings_view(state_buildings@),
                ) <= i64::MAX
                &&& view_rings_closed(to_st.coordinates)
                &&& view_rings_on_grid(to_st.coordinates)
            }),
        ensures
            r@.name == self@.name,
            r@.color == self@.color,
            r@.setup == self@.setup,
            r@.coordinates == union_of(self@.coordinates, rings_view(province_coords@)),
            rings_closed(r.coordinates@),
            rings_on_grid(r.coordinates@),
            ({
                if has_state(self@.states, state@) {
                    let to_st = self@.states[state_index(self@.states, state@)];
                    r@.states == keep_other_states(self@.states, state@).push(
                        StateV {
                            provinces: to_st.provinces.push(province@),
                            coordinates: union_of(
                                to_st.coordinates,
                                rings_view(province_coords@),
                            ),
                            pops: merge_pops_spec(to_st.pops, pops_view(pops@)),
                            state_buildings: merge_buildings_spec(
                                to_st.state_buildings,
                                buildings_view(state_buildings@),
                            ),
                            ..to_st
                        },
                    )
                } else {
                    r@.states == self@.states.push(
                        StateV {
                            name: state@,
                            provinces: seq![province@],
                            coordinates: union_of(
                                Seq::<Seq<(int, int)>>::empty(),
                                rings_view(province_coords@),
                            ),
                            pops: pops_view(pops@),
                            state_buildings: buildings_view(state_buildings@),
                        },
                    )
                }
            }),
    {
        let new_coordinates = rings_union(&self.coordinates, province_coords);
        let ghost self_states = self@.states;
        let (kept, found) = split_states(self.states, state);
        let mut new_states = kept;
        match found {
            Some(to_state) => {
                proof {
                    lemma_state_index_found(self_states, state@);
                    let to_st = self_states[state_index(self_states, state@)];
                    assert(rings_view(to_state.coordinates@) == to_st.coordinates);
                    lemma_view_closed_to_rings_closed(to_state.coordinates@);
                    lemma_on_grid_view(to_state.coordinates@);
                }
                let State {
                    name,
                    provinces,
                    coordinates: to_coordinates,
                    pops: to_pops,
                    state_buildings: to_buildings,
                } = to_state;
                let mut provinces = provinces;
                provinces.push(String::from_str(province));
                let merged = State {
                    name,
                    provinces,
                    coordinates: rings_union(&to_coordinates, province_coords),
                    pops: merge_pops(to_pops, pops),
                    state_buildings: merge_state_buildings(to_buildings, state_buildings),
                };
                new_states.push(merged);
                proof {
                    let to_st = self_states[state_index(self_states, state@)];
                    assert(str_list_view(merged.provinces@) =~= to_st.provinces.push(province@));
                    assert(states_view(new_states@) =~= keep_other_states(
                        self_states,
                        state@,
                    ).push(
                        StateV {
                            provinces: to_st.provinces.push(province@),
                            coordinates: union_of(
                                to_st.coordinates,
                                rings_view(province_coords@),
                            ),
                            pops: merge_pops_spec(to_st.pops, pops_view(pops@)),
                            state_buildings: merge_buildings_spec(
                                to_st.state_buildings,
                                buildings_view(state_buildings@),
                            ),
                            ..to_st
                        },
                    ));
                }
            },
            None => {
                let mut provinces: Vec<String> = Vec::new();
                provinces.push(String::from_str(province));
                let empty_rings: RingList = Vec::new();
                proof {
                    assert(rings_view(empty_rings@) =~= Seq::<Seq<(int, int)>>::empty());
                }
                let new_state = State {
                    name: String::from_str(state),
                    provinces,
                    coordinates: rings_union(&empty_rings, province_coords),
                    pops,
                    state_buildings,
                };
                new_states.push(new_state);
                proof {
                    lemma_state_index_none_of_has(self_states, state@);
                    assert(str_list_view(new_states@.last().provinces@) =~= seq![province@]);
                    assert(states_view(new_states@) =~= self_states.push(
                        StateV {
                            name: state@,
                            provinces: seq![province@],
                            coordinates: union_of(
                                Seq::<Seq<(int, int)>>::empty(),
                                rings_view(province_coords@),
                            ),
                            pops: pops_view(pops@),
                            state_buildings: buildings_view(state_buildings@),
                        },
                    ));
                }
            },
        }
        Country {
            name: self.name,
            color: self.color,
            states: new_states,
            coordinates: new_coordinates,
            setup: self.setup,
        }
    }

    /// Detach one province from the named state and subtract its geometry
    /// from both the state's border and the country's. When the state keeps
    /// other provinces, its population and building payload stays with it
    /// and nothing is handed back; when the state empties, the state is
    /// dropped and its whole payload is handed back to travel with the
    /// province.
    pub fn remove_province(self, state: &str, province: &str, province_coords: &RingList) -> (r: (
        Country,
        Vec<Pop>,
        Vec<StateBuilding>,
    ))
        requires
            rings_closed(self.coordinates@),
            rings_closed(province_coords@),
            rings_on_grid(self.coordinates@),
            rings_on_grid(province_coords@),
            has_state(self@.states, state@),
            view_rings_closed(
                self@.states[state_index(self@.states, state@)].coordinates,
            ),
            view_rings_on_grid(
                self@.states[state_index(self@.states, state@)].coordinates,
            ),
        ensures
            r.0@.name == self@.name,
            r.0@.color == self@.color,
            r.0@.setup == self@.setup,
            r.0@.coordinates == difference_of(self@.coordinates, rings_view(province_coords@)),
            rings_closed(r.0.coordinates@),
            rings_on_grid(r.0.coordinates@),
            ({
                let st = self@.states[state_index(self@.states, state@)];
                let remaining = provinces_without(st.provinces, province@);
                if remaining.len() > 0 {
                    &&& r.0@.states == keep_other_states(self@.states, state@).push(
                        (StateV {
                            provinces: remaining,
                            coordinates: difference_of(
                                st.coordinates,
                                rings_view(province_coords@),
                            ),
                            ..st
                        }),
                    )
                    &&& r.1@.len() == 0
                    &&& r.2@.len() == 0
                } else {
                    &&& r.0@.states == keep_other_states(self@.states, state@)
                    &&& pops_view(r.1@) == st.pops
                    &&& buildings_view(r.2@) == st.state_buildings
                }
            }),
    {
        let new_coordinates = rings_difference(&self.coordinates, province_coords);
        let ghost self_states = self@.states;
        proof {
            lemma_state_index_valid(self_states, state@);
        }
        let (kept, found) = split_states(self.states, state);
        let mut new_states = kept;
        let existing = match found {
            Some(st) => st,
            None => {
                proof {
                    assert(false);
                }
                State {
                    name: String::new(),
                    provinces: Vec::new(),
                    coordinates: Vec::new(),
                    pops: Vec::new(),
                    state_buildings: Vec::new(),
                }
            },
        };
        proof {
            let st = self_states[state_index(self_states, state@)];
            assert(rings_view(existing.coordinates@) == st.coordinates);
            lemma_view_closed_to_rings_closed(existing.coordinates@);
            lemma_on_grid_view(existing.coordinates@);
        }
        let State { name, provinces, coordinates, pops, state_buildings } = existing;
        let new_provinces = remove_province_keys(provinces, province);
        let (pops_given, state_buildings_given): (Vec<Pop>, Vec<StateBuilding>) =
            if new_provinces.len() > 0 {
            let remaining_state = State {
                name,
                provinces: new_provinces,
                coordinates: rings_difference(&coordinates, province_coords),
                pops,
                state_buildings,
            };
            new_states.push(remaining_state);
            proof {
                let st = self_states[state_index(self_states, state@)];
                let remaining = provinces_without(st.provinces, province@);
                assert(states_view(new_states@) =~= keep_other_states(self_states, state@).push(
                    (StateV {
                        provinces: remaining,
                        coordinates: difference_of(st.coordinates, rings_view(province_coords@)),
                        ..st
                    }),
                ));
            }
            (Vec::new(), Vec::new())
        } else {
            (pops, state_buildings)
        };
        let country = Country {
            name: self.name,
            color: self.color,
            states: new_states,
            coordinates: new_coordinates,
            setup: self.setup,
        };
        (country, pops_given, state_buildings_given)
    }
}

/// Merges one state into a same-named state of another country.
pub struct MergeStates;

impl MergeStates {
    /// The merged state: province lists concatenated, border geometry
    /// unioned, population groups summed by identity, building records
    /// merged by name; the receiving state's name stands.
    pub fn call(&self, from_state: State, to_state: State) -> (r: State)
        requires
            sum_abs_sizes(to_state@.pops) + sum_abs_sizes(from_state@.pops) <= i64::MAX,
            sum_abs_levels(to_state@.state_buildings) + sum_abs_levels(from_state@.state_buildings)
                <= i64::MAX,
            rings_closed(to_state.coordinates@),
            rings_closed(from_state.coordinates@),
            rings_on_grid(to_state.coordinates@),
            rings_on_grid(from_state.coordinates@),
        ensures
            r@ == merged_state(to_state@, from_state@),
            rings_closed(r.coordinates@),
            rings_on_grid(r.coordinates@),
    {
        let ghost to_v = to_state@;
        let ghost from_v = from_state@;
        let State { name, provinces, coordinates, pops, state_buildings } = to_state;
        let mut provinces = provinces;
        let mut from_provinces = from_state.provinces;
        proof {
            lemma_str_list_view_concat(provinces@, from_provinces@);
        }
        provinces.append(&mut from_provinces);
        let r = State {
            name,
            provinces,
            coordinates: rings_union(&coordinates, &from_state.coordinates),
            pops: merge_pops(pops, from_state.pops),
            state_buildings: merge_state_buildings(state_buildings, from_state.state_buildings),
        };
        proof {
            assert(r@ == merged_state(to_v, from_v));
        }
        r
    }
}

/// Without a state index there is no state of the name, and filtering the
/// name away keeps the whole list.
pub proof fn lemma_state_index_none_of_has(ss: Seq<StateV>, name: Seq<char>)
    requires
        state_index(ss, name) < 0,
    ensures
        !has_state(ss, name),
        keep_other_states(ss, name) == ss,
{
    if has_state(ss, name) {
        lemma_state_index_valid(ss, name);
    }
    assert forall|m: int| 0 <= m < ss.len() implies (#[trigger] ss[m]).name != name by {
        if ss[m].name == name {
            assert(has_state(ss, name));
        }
    }
    lemma_keep_all_public(ss, name);
}

/// Filtering away a name that no state bears keeps the list unchanged.
pub proof fn lemma_keep_all_public(ss: Seq<StateV>, name: Seq<char>)
    requires
        forall|m: int| 0 <= m < ss.len() ==> (#[trigger] ss[m]).name != name,
    ensures
        keep_other_states(ss, name) == ss,
    decreases ss.len(),
{
    reveal(Seq::filter);
    if ss.len() > 0 {
        lemma_keep_all_public(ss.drop_last(), name);
        assert(keep_other_states(ss, name) =~= ss);
    }
}

} // verus!
