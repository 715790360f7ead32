//! The ownership transfer engine: move one state, or one province of a
//! state, from one country to another. Each operation is a pure function
//! from the two country snapshots to two new snapshots, so a caller commits
//! the whole transfer in one step or not at all.

use vstd::prelude::*;
use vstd::multiset::Multiset;

use crate::buildings::sum_abs_levels;
use crate::country::Country;
use crate::country::CountryV;
use crate::country::StateV;
use crate::country::has_state;
use crate::country::keep_other_states;
use crate::country::lemma_state_index_valid;
use crate::country::merged_state;
use crate::country::provinces_without;
use crate::geometry::view_rings_closed;
use crate::geometry::view_rings_on_grid;
use crate::country::state_index;
use crate::geometry::RingList;
use crate::geometry::difference_of;
use crate::geometry::rings_closed;
use crate::geometry::rings_on_grid;
use crate::geometry::rings_view;
use crate::geometry::union_of;
use crate::pops::sum_abs_sizes;

verus! {

broadcast use vstd::seq_lib::group_to_multiset_ensures;

/// Why a transfer was refused: the named entity is missing from the source
/// it was expected in. Such a request is an invariant breach on the
/// caller's side, and the operation aborts without touching anything.
#[derive(Debug, PartialEq, Eq, Structural)]
pub enum TransferError {
    StateNotFound,
    ProvinceNotFound,
}

/// The two updated countries a state transfer returns.
#[derive(Debug)]
pub struct TransferStateResponse {
    pub from_country: Country,
    pub to_country: Country,
}

/// The two updated countries a province transfer returns.
#[derive(Debug)]
pub struct TransferProvinceResponse {
    pub from_country: Country,
    pub to_country: Country,
}

/// All provinces of a state list, as a multiset.
pub open spec fn states_provinces_ms(ss: Seq<StateV>) -> Multiset<Seq<char>>
    decreases ss.len(),
{
    if ss.len() == 0 {
        Multiset::empty()
    } else {
        ss[0].provinces.to_multiset().add(states_provinces_ms(ss.drop_first()))
    }
}

/// All provinces a country claims, as a multiset.
pub open spec fn country_provinces_ms(c: CountryV) -> Multiset<Seq<char>> {
    states_provinces_ms(c.states)
}

/// At most one state of the list bears this name.
pub open spec fn state_name_unique(ss: Seq<StateV>, name: Seq<char>) -> bool {
    forall|m: int, k: int|
        0 <= m < k < ss.len() ==> !((#[trigger] ss[m]).name == name && (#[trigger] ss[k]).name
            == name)
}

/// At most one entry of the province list is this key.
pub open spec fn province_unique(ps: Seq<Seq<char>>, p: Seq<char>) -> bool {
    forall|m: int, k: int| 0 <= m < k < ps.len() ==> !(ps[m] == p && ps[k] == p)
}

proof fn lemma_states_ms_push(ss: Seq<StateV>, st: StateV)
    ensures
        states_provinces_ms(ss.push(st)) =~= states_provinces_ms(ss).add(
            st.provinces.to_multiset(),
        ),
    decreases ss.len(),
{
    broadcast use vstd::multiset::group_multiset_axioms;

    if ss.len() == 0 {
        assert(ss.push(st)[0] == st);
        assert(ss.push(st).drop_first() =~= Seq::<StateV>::empty());
        assert(states_provinces_ms(ss.push(st)) == ss.push(st)[0].provinces.to_multiset().add(
            states_provinces_ms(ss.push(st).drop_first()),
        ));
    } else {
        assert(ss.push(st)[0] == ss[0]);
        assert(ss.push(st).drop_first() =~= ss.drop_first().push(st));
        lemma_states_ms_push(ss.drop_first(), st);
        assert(states_provinces_ms(ss.push(st)) == ss[0].provinces.to_multiset().add(
            states_provinces_ms(ss.drop_first().push(st)),
        ));
    }
}

proof fn lemma_states_ms_remove(ss: Seq<StateV>, idx: int)
    requires
        0 <= idx < ss.len(),
    ensures
        states_provinces_ms(ss.remove(idx)).add(ss[idx].provinces.to_multiset())
            =~= states_provinces_ms(ss),
    decreases ss.len(),
{
    broadcast use vstd::multiset::group_multiset_axioms;

    if idx == 0 {
        assert(ss.remove(0) =~= ss.drop_first());
    } else {
        assert(ss.remove(idx)[0] == ss[0]);
        assert(ss.remove(idx).drop_first() =~= ss.drop_first().remove(idx - 1));
        lemma_states_ms_remove(ss.drop_first(), idx - 1);
        assert(states_provinces_ms(ss.remove(idx)) == ss[0].provinces.to_multiset().add(
            states_provinces_ms(ss.drop_first().remove(idx - 1)),
        ));
    }
}

/// When the name occurs at one index only, filtering it away is the same as
/// removing that index.
proof fn lemma_keep_other_is_remove(ss: Seq<StateV>, name: Seq<char>, idx: int)
    requires
        0 <= idx < ss.len(),
        ss[idx].name == name,
        forall|m: int| 0 <= m < ss.len() && m != idx ==> (#[trigger] ss[m]).name != name,
    ensures
        keep_other_states(ss, name) == ss.remove(idx),
    decreases ss.len(),
{
    reveal(Seq::filter);
    if idx == ss.len() - 1 {
        assert forall|m: int|
            0 <= m < ss.drop_last().len() implies (#[trigger] ss.drop_last()[m]).name != name by {
            assert(ss[m].name != name);
        }
        crate::country::lemma_keep_all_public(ss.drop_last(), name);
        assert(keep_other_states(ss, name) =~= ss.remove(idx));
    } else {
        lemma_keep_other_is_remove(ss.drop_last(), name, idx);
        assert(ss.drop_last()[idx] == ss[idx]);
        assert(keep_other_states(ss, name) =~= keep_other_states(ss.drop_last(), name).push(
            ss.last(),
        ));
        assert(keep_other_states(ss, name) =~= ss.remove(idx));
    }
}

/// When the key occurs at one index only, filtering it away is the same as
/// removing that index.
proof fn lemma_filter_key_is_remove(ps: Seq<Seq<char>>, p: Seq<char>, idx: int)
    requires
        0 <= idx < ps.len(),
        ps[idx] == p,
        forall|m: int| 0 <= m < ps.len() && m != idx ==> ps[m] != p,
    ensures
        provinces_without(ps, p) == ps.remove(idx),
    decreases ps.len(),
{
    reveal(Seq::filter);
    if idx == ps.len() - 1 {
        lemma_filter_no_key(ps.drop_last(), p);
        assert(provinces_without(ps, p) =~= ps.remove(idx));
    } else {
        lemma_filter_key_is_remove(ps.drop_last(), p, idx);
        assert(provinces_without(ps, p) =~= ps.remove(idx));
    }
}

proof fn lemma_filter_no_key(ps: Seq<Seq<char>>, p: Seq<char>)
    requires
        forall|m: int| 0 <= m < ps.len() ==> ps[m] != p,
    ensures
        provinces_without(ps, p) == ps,
    decreases ps.len(),
{
    reveal(Seq::filter);
    if ps.len() > 0 {
        lemma_filter_no_key(ps.drop_last(), p);
        assert(provinces_without(ps, p) =~= ps);
    }
}

/// Transfer a whole state to another country. The state's own geometry is
/// unioned into the target and subtracted from the source; a same-named
/// state already owned by the target absorbs it by the merge rules, and
/// otherwise the state attaches unchanged — including the ownership claims
/// riding inside its building records, which name whichever countries they
/// named before. Whatever came back, the union of provinces claimed by the
/// two countries together is preserved: none is gained, lost, or claimed
/// twice anew.
pub fn transfer_state(
    from_country: Country,
    to_country: Country,
    state: &str,
) -> (r: Result<TransferStateResponse, TransferError>)
    requires
        rings_closed(from_country.coordinates@),
        rings_closed(to_country.coordinates@),
        rings_on_grid(from_country.coordinates@),
        rings_on_grid(to_country.coordinates@),
        has_state(from_country@.states, state@) ==> ({
            let from_st = from_country@.states[state_index(from_country@.states, state@)];
            &&& view_rings_closed(from_st.coordinates)
            &&& view_rings_on_grid(from_st.coordinates)
        }),
        has_state(from_country@.states, state@) && has_state(to_country@.states, state@) ==> ({
            let from_st = from_country@.states[state_index(from_country@.states, state@)];
            let to_st = to_country@.states[state_index(to_country@.states, state@)];
            &&& sum_abs_sizes(to_st.pops) + sum_abs_sizes(from_st.pops) <= i64::MAX
            &&& sum_abs_levels(to_st.state_buildings) + sum_abs_levels(from_st.state_buildings)
                <= i64::MAX
            &&& view_rings_closed(to_st.coordinates)
            &&& view_rings_on_grid(to_st.coordinates)
        }),
    ensures
        r is Ok <==> has_state(from_country@.states, state@),
        r is Err ==> r->Err_0 == TransferError::StateNotFound,
        r is Ok ==> ({
            let from_new = r->Ok_0.from_country@;
            let to_new = r->Ok_0.to_country@;
            let from_st = from_country@.states[state_index(from_country@.states, state@)];
            &&& from_new.name == from_country@.name
            &&& to_new.name == to_country@.name
            &&& from_new.color == from_country@.color
            &&& to_new.color == to_country@.color
            &&& from_new.setup == from_country@.setup
            &&& to_new.setup == to_country@.setup
            &&& from_new.coordinates == difference_of(
                from_country@.coordinates,
                from_st.coordinates,
            )
            &&& to_new.coordinates == union_of(to_country@.coordinates, from_st.coordinates)
            &&& rings_closed(r->Ok_0.from_country.coordinates@)
            &&& rings_closed(r->Ok_0.to_country.coordinates@)
            &&& rings_on_grid(r->Ok_0.from_country.coordinates@)
            &&& rings_on_grid(r->Ok_0.to_country.coordinates@)
            &&& from_new.states == keep_other_states(from_country@.states, state@)
            &&& (if has_state(to_country@.states, state@) {
                let to_st = to_country@.states[state_index(to_country@.states, state@)];
                to_new.states == keep_other_states(to_country@.states, state@).push(
                    merged_state(to_st, from_st),
                )
            } else {
                to_new.states == to_country@.states.push(from_st)
            })
            &&& ((state_name_unique(from_country@.states, state@) && state_name_unique(
                to_country@.states,
                state@,
            )) ==> country_provinces_ms(from_new).add(country_provinces_ms(to_new))
                =~= country_provinces_ms(from_country@).add(country_provinces_ms(to_country@)))
        }),
{
    let ghost from0 = from_country@;
    let ghost to0 = to_country@;
    if !crate::country::country_has_state(&from_country, state) {
        proof {
            assert(!has_state(from0.states, state@));
        }
        return Err(TransferError::StateNotFound);
    }
    proof {
        lemma_state_index_valid(from0.states, state@);
    }
    let from_idx = match crate::country::find_state_index(&from_country.states, state) {
        Some(j) => j,
        None => {
            proof {
                assert(false);
            }
            0
        },
    };
    let state_coords = crate::geometry::clone_ring_list(
        &from_country.states[from_idx].coordinates,
    );
    proof {
        let from_st = from0.states[state_index(from0.states, state@)];
        assert(rings_view(state_coords@) == from_st.coordinates);
        crate::geometry::lemma_view_closed_to_rings_closed(state_coords@);
        crate::geometry::lemma_on_grid_view(state_coords@);
    }
    let to_new = to_country.add_state(&from_country, state, &state_coords);
    let from_new = from_country.remove_state(state, &state_coords);
    proof {
        broadcast use vstd::multiset::group_multiset_axioms;

        if state_name_unique(from0.states, state@) && state_name_unique(to0.states, state@) {
            let fi = state_index(from0.states, state@);
            let from_st = from0.states[fi];
            assert forall|m: int|
                0 <= m < from0.states.len() && m != fi implies (#[trigger] from0.states[m]).name
                != state@ by {
                if from0.states[m].name == state@ {
                    if m < fi {
                        assert(!(from0.states[m].name == state@ && from0.states[fi].name
                            == state@));
                    } else {
                        assert(!(from0.states[fi].name == state@ && from0.states[m].name
                            == state@));
                    }
                }
            }
            lemma_keep_other_is_remove(from0.states, state@, fi);
            lemma_states_ms_remove(from0.states, fi);
            if has_state(to0.states, state@) {
                lemma_state_index_valid(to0.states, state@);
                let ti = state_index(to0.states, state@);
                let to_st = to0.states[ti];
                assert forall|m: int|
                    0 <= m < to0.states.len() && m != ti implies (#[trigger] to0.states[m]).name
                    != state@ by {
                    if to0.states[m].name == state@ {
                        if m < ti {
                            assert(!(to0.states[m].name == state@ && to0.states[ti].name
                                == state@));
                        } else {
                            assert(!(to0.states[ti].name == state@ && to0.states[m].name
                                == state@));
                        }
                    }
                }
                lemma_keep_other_is_remove(to0.states, state@, ti);
                lemma_states_ms_remove(to0.states, ti);
                lemma_states_ms_push(to0.states.remove(ti), merged_state(to_st, from_st));
                vstd::seq_lib::lemma_multiset_commutative(to_st.provinces, from_st.provinces);
            } else {
                lemma_states_ms_push(to0.states, from_st);
            }
        }
    }
    Ok(TransferStateResponse { from_country: from_new, to_country: to_new })
}

/// The multiset of a one-key sequence holds that key once.
proof fn lemma_singleton_ms(p: Seq<char>)
    ensures
        seq![p].to_multiset() =~= Multiset::empty().insert(p),
{
    broadcast use vstd::multiset::group_multiset_axioms;

    assert(seq![p] =~= Seq::<Seq<char>>::empty().push(p));
    assert forall|x: Seq<char>| !(Seq::<Seq<char>>::empty().to_multiset().contains(x)) by {}
    assert(Seq::<Seq<char>>::empty().to_multiset() =~= Multiset::<Seq<char>>::empty());
}

/// Transfer one province of the named state to another country. The
/// province's geometry is unioned into the target and subtracted from the
/// source; the target's same-named state gains the province key, or a new
/// state is created with it. When the source state empties, its whole
/// population and building payload travels with the province. Whatever came
/// back, the union of provinces claimed by the two countries together is
/// preserved: none is gained, lost, or claimed twice anew.
pub fn transfer_province(
    from_country: Country,
    to_country: Country,
    state: &str,
    province: &str,
    province_coords: &RingList,
) -> (r: Result<TransferProvinceResponse, TransferError>)
    requires
        rings_closed(from_country.coordinates@),
        rings_closed(to_country.coordinates@),
        rings_closed(province_coords@),
        rings_on_grid(from_country.coordinates@),
        rings_on_grid(to_country.coordinates@),
        rings_on_grid(province_coords@),
        has_state(from_country@.states, state@) ==> ({
            let from_st = from_country@.states[state_index(from_country@.states, state@)];
            &&& view_rings_closed(from_st.coordinates)
            &&& view_rings_on_grid(from_st.coordinates)
        }),
        has_state(to_country@.states, state@) ==> ({
            let to_st = to_country@.states[state_index(to_country@.states, state@)];
            &&& view_rings_closed(to_st.coordinates)
            &&& view_rings_on_grid(to_st.coordinates)
        }),
        has_state(from_country@.states, state@) && has_state(to_country@.states, state@) ==> ({
            let from_st = from_country@.states[state_index(from_country@.states, state@)];
            let to_st = to_country@.states[state_index(to_country@.states, state@)];
            &&& sum_abs_sizes(to_st.pops) + sum_abs_sizes(from_st.pops) <= i64::MAX
            &&& sum_abs_levels(to_st.state_buildings) + sum_abs_levels(from_st.state_buildings)
                <= i64::MAX
        }),
    ensures
        r is Ok <==> (has_state(from_country@.states, state@) && from_country@.states[state_index(
            from_country@.states,
            state@,
        )].provinces.contains(province@)),
        r is Err && r->Err_0 == TransferError::StateNotFound <==> !has_state(
            from_country@.states,
            state@,
        ),
        r is Ok ==> ({
            let from_new = r->Ok_0.from_country@;
            let to_new = r->Ok_0.to_country@;
            let from_st = from_country@.states[state_index(from_country@.states, state@)];
            let remaining = provinces_without(from_st.provinces, province@);
            let moved_pops: Seq<crate::pops::PopV> = if remaining.len() == 0 {
                from_st.pops
            } else {
                Seq::empty()
            };
            let moved_buildings: Seq<crate::buildings::StateBuildingV> = if remaining.len() == 0 {
                from_st.state_buildings
            } else {
                Seq::empty()
            };
            &&& from_new.name == from_country@.name
            &&& to_new.name == to_country@.name
            &&& from_new.color == from_country@.color
            &&& to_new.color == to_country@.color
            &&& from_new.setup == from_country@.setup
            &&& to_new.setup == to_country@.setup
            &&& from_new.coordinates == difference_of(
                from_country@.coordinates,
                rings_view(province_coords@),
            )
            &&& to_new.coordinates == union_of(
                to_country@.coordinates,
                rings_view(province_coords@),
            )
            &&& rings_closed(r->Ok_0.from_country.coordinates@)
            &&& rings_closed(r->Ok_0.to_country.coordinates@)
            &&& rings_on_grid(r->Ok_0.from_country.coordinates@)
            &&& rings_on_grid(r->Ok_0.to_country.coordinates@)
            &&& (if remaining.len() > 0 {
                from_new.states == keep_other_states(from_country@.states, state@).push(
                    (StateV {
                        provinces: remaining,
                        coordinates: difference_of(
                            from_st.coordinates,
                            rings_view(province_coords@),
                        ),
                        ..from_st
                    }),
                )
            } else {
                from_new.states == keep_other_states(from_country@.states, state@)
            })
            &&& (if has_state(to_country@.states, state@) {
                let to_st = to_country@.states[state_index(to_country@.states, state@)];
                to_new.states == keep_other_states(to_country@.states, state@).push(
                    (StateV {
                        provinces: to_st.provinces.push(province@),
                        coordinates: union_of(to_st.coordinates, rings_view(province_coords@)),
                        pops: crate::pops::merge_pops_spec(to_st.pops, moved_pops),
                        state_buildings: crate::buildings::merge_buildings_spec(
                            to_st.state_buildings,
                            moved_buildings,
                        ),
                        ..to_st
                    }),
                )
            } else {
                to_new.states == to_country@.states.push(
                    (StateV {
                        name: state@,
                        provinces: seq![province@],
                        coordinates: union_of(
                            Seq::<Seq<(int, int)>>::empty(),
                            rings_view(province_coords@),
                        ),
                        pops: moved_pops,
                        state_buildings: moved_buildings,
                    }),
                )
            })
            &&& ((state_name_unique(from_country@.states, state@) && state_name_unique(
                to_country@.states,
                state@,
            ) && province_unique(from_st.provinces, province@)) ==> country_provinces_ms(
                from_new,
            ).add(country_provinces_ms(to_new)) =~= country_provinces_ms(from_country@).add(
                country_provinces_ms(to_country@),
            ))
        }),
{
    let ghost from0 = from_country@;
    let ghost to0 = to_country@;
    if !crate::country::country_has_state(&from_country, state) {
        return Err(TransferError::StateNotFound);
    }
    proof {
        lemma_state_index_valid(from0.states, state@);
    }
    if !crate::country::country_state_has_province(&from_country, state, province) {
        return Err(TransferError::ProvinceNotFound);
    }
    let ghost fi = state_index(from0.states, state@);
    let ghost from_st = from0.states[fi];
    let (from_new, moved_pops, moved_buildings) = from_country.remove_province(
        state,
        province,
        province_coords,
    );
    proof {
        let remaining = provinces_without(from_st.provinces, province@);
        if remaining.len() > 0 {
            assert(crate::pops::pops_view(moved_pops@) =~= Seq::<crate::pops::PopV>::empty());
            assert(crate::buildings::buildings_view(moved_buildings@) =~= Seq::<
                crate::buildings::StateBuildingV,
            >::empty());
        }
        crate::pops::lemma_sum_abs_nonneg(from_st.pops);
        crate::pops::lemma_sum_abs_nonneg(Seq::empty());
        crate::buildings::lemma_level_sum_nonneg(from_st.state_buildings);
        crate::buildings::lemma_level_sum_nonneg(Seq::empty());
        if has_state(to0.states, state@) {
            lemma_state_index_valid(to0.states, state@);
        }
    }
    let to_new = to_country.add_province(
        state,
        province,
        province_coords,
        moved_pops,
        moved_buildings,
    );
    proof {
        broadcast use vstd::multiset::group_multiset_axioms;

        let remaining = provinces_without(from_st.provinces, province@);
        if state_name_unique(from0.states, state@) && state_name_unique(to0.states, state@)
            && province_unique(from_st.provinces, province@) {
            assert forall|m: int|
                0 <= m < from0.states.len() && m != fi implies (#[trigger] from0.states[m]).name
                != state@ by {
                if from0.states[m].name == state@ {
                    if m < fi {
                        assert(!(from0.states[m].name == state@ && from0.states[fi].name
                            == state@));
                    } else {
                        assert(!(from0.states[fi].name == state@ && from0.states[m].name
                            == state@));
                    }
                }
            }
            lemma_keep_other_is_remove(from0.states, state@, fi);
            lemma_states_ms_remove(from0.states, fi);
            let pi = choose|pi: int|
                0 <= pi < from_st.provinces.len() && from_st.provinces[pi] == province@;
            assert forall|m: int|
                0 <= m < from_st.provinces.len() && m != pi implies from_st.provinces[m]
                != province@ by {
                if from_st.provinces[m] == province@ {
                    if m < pi {
                        assert(!(from_st.provinces[m] == province@ && from_st.provinces[pi]
                            == province@));
                    } else {
                        assert(!(from_st.provinces[pi] == province@ && from_st.provinces[m]
                            == province@));
                    }
                }
            }
            lemma_filter_key_is_remove(from_st.provinces, province@, pi);
            assert(from_st.provinces.remove(pi).to_multiset() =~= from_st.provinces.to_multiset()
                .remove(from_st.provinces[pi]));
            assert(remaining == from_st.provinces.remove(pi));
            assert(remaining.to_multiset() =~= from_st.provinces.to_multiset().remove(province@));
            if remaining.len() > 0 {
                lemma_states_ms_push(
                    from0.states.remove(fi),
                    StateV {
                        provinces: remaining,
                        coordinates: difference_of(
                            from_st.coordinates,
                            rings_view(province_coords@),
                        ),
                        ..from_st
                    },
                );
            } else {
                assert(from_st.provinces.to_multiset().len() == from_st.provinces.len());
                assert(remaining.to_multiset().len() == 0);
                assert(from_st.provinces.len() == 1);
                assert(pi == 0);
                assert(from_st.provinces =~= seq![province@]);
                lemma_singleton_ms(province@);
            }
            if has_state(to0.states, state@) {
                let ti = state_index(to0.states, state@);
                let to_st = to0.states[ti];
                assert forall|m: int|
                    0 <= m < to0.states.len() && m != ti implies (#[trigger] to0.states[m]).name
                    != state@ by {
                    if to0.states[m].name == state@ {
                        if m < ti {
                            assert(!(to0.states[m].name == state@ && to0.states[ti].name
                                == state@));
                        } else {
                            assert(!(to0.states[ti].name == state@ && to0.states[m].name
                                == state@));
                        }
                    }
                }
                lemma_keep_other_is_remove(to0.states, state@, ti);
                lemma_states_ms_remove(to0.states, ti);
                lemma_states_ms_push(
                    to0.states.remove(ti),
                    StateV {
                        provinces: to_st.provinces.push(province@),
                        coordinates: union_of(to_st.coordinates, rings_view(province_coords@)),
                        pops: crate::pops::merge_pops_spec(
                            to_st.pops,
                            if remaining.len() == 0 {
                                from_st.pops
                            } else {
                                Seq::empty()
                            },
                        ),
                        state_buildings: crate::buildings::merge_buildings_spec(
                            to_st.state_buildings,
                            if remaining.len() == 0 {
                                from_st.state_buildings
                            } else {
                                Seq::empty()
                            },
                        ),
                        ..to_st
                    },
                );
            } else {
                lemma_singleton_ms(province@);
                lemma_states_ms_push(
                    to0.states,
                    StateV {
                        name: state@,
                        provinces: seq![province@],
                        coordinates: union_of(
                            Seq::<Seq<(int, int)>>::empty(),
                            rings_view(province_coords@),
                        ),
                        pops: if remaining.len() == 0 {
                            from_st.pops
                        } else {
                            Seq::empty()
                        },
                        state_buildings: if remaining.len() == 0 {
                            from_st.state_buildings
                        } else {
                            Seq::empty()
                        },
                    },
                );
            }
        }
    }
    Ok(TransferProvinceResponse { from_country: from_new, to_country: to_new })
}

} // verus!
