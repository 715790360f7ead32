//! Building records: the static building catalog parsed from game data,
//! the per-state building records with their ownership claims, and the merge
//! rule that combines two building lists by name.

use vstd::prelude::*;

use crate::border_trace::abs_int;
use crate::pops::opt_str_view;

verus! {

/// One production method of the building catalog.
#[derive(Debug)]
pub struct ProductionMethod {
    pub name: String,
}

/// A named group of production methods.
#[derive(Debug)]
pub struct ProductionMethodGroup {
    pub name: String,
    pub production_methods: Vec<ProductionMethod>,
}

/// One entry of the static building catalog.
#[derive(Debug)]
pub struct Building {
    pub name: String,
    pub production_method_groups: Vec<ProductionMethodGroup>,
    pub buildable: bool,
    pub unique: bool,
}

/// A country-level ownership claim on a building.
#[derive(Debug)]
pub struct CountryOwnership {
    pub country: String,
    pub levels: i64,
}

/// A building-level ownership claim on a building.
#[derive(Debug)]
pub struct BuildingOwnership {
    pub type_: String,
    pub country: String,
    pub levels: i64,
    pub region: String,
}

/// The ownership record attached to a building: country claims and
/// building claims.
#[derive(Debug)]
pub struct Ownership {
    pub countries: Vec<CountryOwnership>,
    pub buildings: Vec<BuildingOwnership>,
}

/// One building record of a state. The activation condition is a list of
/// key/value pairs taken from the surrounding conditional block.
#[derive(Debug)]
pub struct StateBuilding {
    pub name: String,
    pub level: Option<i64>,
    pub reserves: Option<i64>,
    pub activate_production_methods: Option<Vec<String>>,
    pub condition: Option<Vec<Vec<String>>>,
    pub ownership: Option<Ownership>,
}

/// The mathematical image of a country-level claim.
pub struct CountryOwnershipV {
    pub country: Seq<char>,
    pub levels: int,
}

/// The mathematical image of a building-level claim.
pub struct BuildingOwnershipV {
    pub type_: Seq<char>,
    pub country: Seq<char>,
    pub levels: int,
    pub region: Seq<char>,
}

/// The mathematical image of an ownership record.
pub struct OwnershipV {
    pub countries: Seq<CountryOwnershipV>,
    pub buildings: Seq<BuildingOwnershipV>,
}

/// The mathematical image of a state building record.
pub struct StateBuildingV {
    pub name: Seq<char>,
    pub level: Option<int>,
    pub reserves: Option<int>,
    pub activate_production_methods: Option<Seq<Seq<char>>>,
    pub condition: Option<Seq<Seq<Seq<char>>>>,
    pub ownership: Option<OwnershipV>,
}

/// The view of an optional integer.
pub open spec fn opt_i64_view(o: Option<i64>) -> Option<int> {
    match o {
        Some(x) => Some(x as int),
        None => None,
    }
}

/// The view of a string list.
pub open spec fn str_list_view(s: Seq<String>) -> Seq<Seq<char>> {
    s.map(|i: int, x: String| x@)
}

/// The view of a list of string lists.
pub open spec fn str_table_view(s: Seq<Vec<String>>) -> Seq<Seq<Seq<char>>> {
    s.map(|i: int, x: Vec<String>| str_list_view(x@))
}

impl View for CountryOwnership {
    type V = CountryOwnershipV;

    open spec fn view(&self) -> CountryOwnershipV {
        CountryOwnershipV { country: self.country@, levels: self.levels as int }
    }
}

impl View for BuildingOwnership {
    type V = BuildingOwnershipV;

    open spec fn view(&self) -> BuildingOwnershipV {
        BuildingOwnershipV {
            type_: self.type_@,
            country: self.country@,
            levels: self.levels as int,
            region: self.region@,
        }
    }
}

impl View for Ownership {
    type V = OwnershipV;

    open spec fn view(&self) -> OwnershipV {
        OwnershipV {
            countries: self.countries@.map(|i: int, c: CountryOwnership| c@),
            buildings: self.buildings@.map(|i: int, b: BuildingOwnership| b@),
        }
    }
}

impl View for StateBuilding {
    type V = StateBuildingV;

    open spec fn view(&self) -> StateBuildingV {
        StateBuildingV {
            name: self.name@,
            level: opt_i64_view(self.level),
            reserves: opt_i64_view(self.reserves),
            activate_production_methods: match self.activate_production_methods {
                Some(ref v) => Some(str_list_view(v@)),
                None => None,
            },
            condition: match self.condition {
                Some(ref v) => Some(str_table_view(v@)),
                None => None,
            },
            ownership: match self.ownership {
                Some(ref o) => Some(o@),
                None => None,
            },
        }
    }
}

/// The view of a whole building list.
pub open spec fn buildings_view(s: Seq<StateBuilding>) -> Seq<StateBuildingV> {
    s.map(|i: int, b: StateBuilding| b@)
}

/// What merging an incoming record into an existing one of the same name
/// yields: the existing record, with the levels summed when both sides
/// define one, and whichever side's defined level standing when only one
/// does — no level is ever silently dropped.
pub open spec fn merged_building(e: StateBuildingV, inc: StateBuildingV) -> StateBuildingV {
    StateBuildingV {
        level: match (e.level, inc.level) {
            (Some(x), Some(y)) => Some(x + y),
            (None, Some(y)) => Some(y),
            _ => e.level,
        },
        ..e
    }
}

/// One building record folded into a list: it combines with the first
/// record of the same name, or is appended.
pub open spec fn merge_building_into(acc: Seq<StateBuildingV>, b: StateBuildingV) -> Seq<
    StateBuildingV,
>
    decreases acc.len(),
{
    if acc.len() == 0 {
        seq![b]
    } else if acc[0].name == b.name {
        seq![merged_building(acc[0], b)] + acc.drop_first()
    } else {
        seq![acc[0]] + merge_building_into(acc.drop_first(), b)
    }
}

/// The merge of two building lists: the first list, with each record of the
/// second folded in, in order.
pub open spec fn merge_buildings_spec(a: Seq<StateBuildingV>, b: Seq<StateBuildingV>) -> Seq<
    StateBuildingV,
>
    decreases b.len(),
{
    if b.len() == 0 {
        a
    } else {
        merge_building_into(merge_buildings_spec(a, b.drop_last()), b.last())
    }
}

/// Whether some record of the list bears this name.
pub open spec fn has_building_name(s: Seq<StateBuildingV>, name: Seq<char>) -> bool {
    exists|i: int| 0 <= i < s.len() && (#[trigger] s[i]).name == name
}

proof fn lemma_merge_into_names(acc: Seq<StateBuildingV>, x: StateBuildingV)
    ensures
        forall|n: Seq<char>|
            #[trigger] has_building_name(merge_building_into(acc, x), n) <==> (has_building_name(
                acc,
                n,
            ) || n == x.name),
    decreases acc.len(),
{
    let merged = merge_building_into(acc, x);
    if acc.len() == 0 {
        assert forall|n: Seq<char>|
            #[trigger] has_building_name(merged, n) <==> (has_building_name(acc, n) || n
                == x.name) by {
            if n == x.name {
                assert(merged[0].name == n);
            }
            if has_building_name(merged, n) {
                let i = choose|i: int| 0 <= i < merged.len() && (#[trigger] merged[i]).name == n;
                assert(i == 0);
            }
        }
    } else if acc[0].name == x.name {
        assert forall|n: Seq<char>|
            #[trigger] has_building_name(merged, n) <==> (has_building_name(acc, n) || n
                == x.name) by {
            assert(merged[0].name == acc[0].name);
            assert(merged.drop_first() =~= acc.drop_first());
            if has_building_name(merged, n) {
                let i = choose|i: int| 0 <= i < merged.len() && (#[trigger] merged[i]).name == n;
                if i > 0 {
                    assert(acc[i] == merged[i]);
                }
            }
            if has_building_name(acc, n) {
                let i = choose|i: int| 0 <= i < acc.len() && (#[trigger] acc[i]).name == n;
                if i > 0 {
                    assert(merged[i] == acc[i]);
                } else {
                    assert(merged[0].name == n);
                }
            }
        }
    } else {
        lemma_merge_into_names(acc.drop_first(), x);
        let rest = merge_building_into(acc.drop_first(), x);
        assert(merged[0] == acc[0]);
        assert(merged.drop_first() =~= rest);
        assert forall|n: Seq<char>|
            #[trigger] has_building_name(merged, n) <==> (has_building_name(acc, n) || n
                == x.name) by {
            if has_building_name(merged, n) {
                let i = choose|i: int| 0 <= i < merged.len() && (#[trigger] merged[i]).name == n;
                if i > 0 {
                    assert(rest[i - 1].name == n);
                    assert(has_building_name(rest, n));
                    if has_building_name(acc.drop_first(), n) {
                        let m = choose|m: int|
                            0 <= m < acc.drop_first().len() && (#[trigger] acc.drop_first()[m]).name
                                == n;
                        assert(acc[m + 1].name == n);
                    }
                }
            }
            if has_building_name(acc, n) {
                let i = choose|i: int| 0 <= i < acc.len() && (#[trigger] acc[i]).name == n;
                if i > 0 {
                    assert(acc.drop_first()[i - 1].name == n);
                    assert(has_building_name(rest, n));
                    let m = choose|m: int| 0 <= m < rest.len() && (#[trigger] rest[m]).name == n;
                    assert(merged[m + 1].name == n);
                }
            }
            if n == x.name {
                assert(has_building_name(rest, n));
                let m = choose|m: int| 0 <= m < rest.len() && (#[trigger] rest[m]).name == n;
                assert(merged[m + 1].name == n);
            }
        }
    }
}

proof fn lemma_names_drop_last(s: Seq<StateBuildingV>)
    requires
        s.len() > 0,
    ensures
        forall|n: Seq<char>|
            #[trigger] has_building_name(s, n) <==> (has_building_name(s.drop_last(), n) || n
                == s.last().name),
{
    assert forall|n: Seq<char>|
        #[trigger] has_building_name(s, n) <==> (has_building_name(s.drop_last(), n) || n
            == s.last().name) by {
        if has_building_name(s, n) {
            let i = choose|i: int| 0 <= i < s.len() && (#[trigger] s[i]).name == n;
            if i < s.len() - 1 {
                assert(s.drop_last()[i].name == n);
            }
        }
        if has_building_name(s.drop_last(), n) {
            let i = choose|i: int|
                0 <= i < s.drop_last().len() && (#[trigger] s.drop_last()[i]).name == n;
            assert(s[i].name == n);
        }
        if n == s.last().name {
            assert(s[s.len() - 1].name == n);
        }
    }
}

/// Merging never drops or invents a building: a name stands in the merged
/// list exactly when it stands in one of the two input lists.
pub proof fn lemma_merge_buildings_preserves_names(a: Seq<StateBuildingV>, b: Seq<StateBuildingV>)
    ensures
        forall|n: Seq<char>|
            #[trigger] has_building_name(merge_buildings_spec(a, b), n) <==> (has_building_name(
                a,
                n,
            ) || has_building_name(b, n)),
    decreases b.len(),
{
    if b.len() == 0 {
        assert forall|n: Seq<char>| !has_building_name(b, n) by {
            if has_building_name(b, n) {
                let i = choose|i: int| 0 <= i < b.len() && (#[trigger] b[i]).name == n;
            }
        }
    } else {
        lemma_merge_buildings_preserves_names(a, b.drop_last());
        lemma_merge_into_names(merge_buildings_spec(a, b.drop_last()), b.last());
        lemma_names_drop_last(b);
    }
}

/// The absolute level of a record, counting an undefined level as zero.
pub open spec fn abs_level(b: StateBuildingV) -> int {
    match b.level {
        Some(x) => abs_int(x),
        None => 0,
    }
}

/// The sum of absolute levels of a building list; merged levels can never
/// leave this budget.
pub open spec fn sum_abs_levels(s: Seq<StateBuildingV>) -> int
    decreases s.len(),
{
    if s.len() == 0 {
        0
    } else {
        abs_level(s[0]) + sum_abs_levels(s.drop_first())
    }
}

pub proof fn lemma_level_sum_nonneg(s: Seq<StateBuildingV>)
    ensures
        sum_abs_levels(s) >= 0,
    decreases s.len(),
{
    if s.len() > 0 {
        lemma_level_sum_nonneg(s.drop_first());
    }
}

proof fn lemma_level_sum_push(s: Seq<StateBuildingV>, b: StateBuildingV)
    ensures
        sum_abs_levels(s.push(b)) == sum_abs_levels(s) + abs_level(b),
    decreases s.len(),
{
    if s.len() == 0 {
        assert(s.push(b)[0] == b);
        assert(s.push(b).drop_first() =~= Seq::<StateBuildingV>::empty());
        assert(sum_abs_levels(s.push(b)) == abs_level(b) + sum_abs_levels(s.push(b).drop_first()));
    } else {
        assert(s.push(b)[0] == s[0]);
        assert(s.push(b).drop_first() =~= s.drop_first().push(b));
        lemma_level_sum_push(s.drop_first(), b);
        assert(sum_abs_levels(s.push(b)) == abs_level(s[0]) + sum_abs_levels(
            s.drop_first().push(b),
        ));
    }
}

proof fn lemma_level_sum_update(s: Seq<StateBuildingV>, j: int, b: StateBuildingV)
    requires
        0 <= j < s.len(),
    ensures
        sum_abs_levels(s.update(j, b)) == sum_abs_levels(s) - abs_level(s[j]) + abs_level(b),
    decreases s.len(),
{
    if j == 0 {
        assert(s.update(0, b).drop_first() =~= s.drop_first());
    } else {
        assert(s.update(j, b).drop_first() =~= s.drop_first().update(j - 1, b));
        lemma_level_sum_update(s.drop_first(), j - 1, b);
    }
}

proof fn lemma_level_sum_element(s: Seq<StateBuildingV>, j: int)
    requires
        0 <= j < s.len(),
    ensures
        abs_level(s[j]) <= sum_abs_levels(s),
        sum_abs_levels(s) >= 0,
    decreases s.len(),
{
    if j == 0 {
        lemma_level_sum_nonneg(s.drop_first());
    } else {
        lemma_level_sum_element(s.drop_first(), j - 1);
    }
}

proof fn lemma_level_sum_skip(s: Seq<StateBuildingV>, i: int)
    requires
        0 <= i < s.len(),
    ensures
        sum_abs_levels(s.skip(i)) == abs_level(s[i]) + sum_abs_levels(s.skip(i + 1)),
{
    assert(s.skip(i).drop_first() =~= s.skip(i + 1));
    assert(s.skip(i)[0] == s[i]);
}

/// Folding into a list whose first name match stands at `j` rewrites
/// exactly that entry.
proof fn lemma_merge_building_into_found(s: Seq<StateBuildingV>, b: StateBuildingV, j: int)
    requires
        0 <= j < s.len(),
        s[j].name == b.name,
        forall|m: int| 0 <= m < j ==> (#[trigger] s[m]).name != b.name,
    ensures
        merge_building_into(s, b) == s.update(j, merged_building(s[j], b)),
    decreases s.len(),
{
    if j == 0 {
        assert(merge_building_into(s, b) =~= s.update(0, merged_building(s[0], b)));
    } else {
        lemma_merge_building_into_found(s.drop_first(), b, j - 1);
        assert(merge_building_into(s, b) =~= s.update(j, merged_building(s[j], b)));
    }
}

/// Folding into a list with no matching name appends the record.
proof fn lemma_merge_building_into_none(s: Seq<StateBuildingV>, b: StateBuildingV)
    requires
        forall|m: int| 0 <= m < s.len() ==> (#[trigger] s[m]).name != b.name,
    ensures
        merge_building_into(s, b) == s.push(b),
    decreases s.len(),
{
    if s.len() == 0 {
        assert(merge_building_into(s, b) =~= s.push(b));
    } else {
        lemma_merge_building_into_none(s.drop_first(), b);
        assert(merge_building_into(s, b) =~= s.push(b));
    }
}

/// A deep copy of a string list.
pub fn clone_string_vec(v: &Vec<String>) -> (r: Vec<String>)
    ensures
        str_list_view(r@) == str_list_view(v@),
        r@.len() == v@.len(),
{
    let mut out: Vec<String> = Vec::new();
    let n = v.len();
    let mut i: usize = 0;
    while i < n
        invariant
            n == v@.len(),
            i <= n,
            out@.len() == i,
            forall|j: int| 0 <= j < i ==> (#[trigger] out@[j])@ == v@[j]@,
        decreases n - i,
    {
        out.push(v[i].clone());
        i = i + 1;
    }
    proof {
        assert(str_list_view(out@) =~= str_list_view(v@));
    }
    out
}

/// A deep copy of a key/value pair table.
fn clone_string_table(v: &Vec<Vec<String>>) -> (r: Vec<Vec<String>>)
    ensures
        str_table_view(r@) == str_table_view(v@),
{
    let mut out: Vec<Vec<String>> = Vec::new();
    let n = v.len();
    let mut i: usize = 0;
    while i < n
        invariant
            n == v@.len(),
            i <= n,
            out@.len() == i,
            forall|j: int| 0 <= j < i ==> str_list_view((#[trigger] out@[j])@) == str_list_view(
                v@[j]@,
            ),
        decreases n - i,
    {
        out.push(clone_string_vec(&v[i]));
        i = i + 1;
    }
    proof {
        assert(str_table_view(out@) =~= str_table_view(v@));
    }
    out
}

/// A deep copy of an ownership record.
pub fn clone_ownership(o: &Ownership) -> (r: Ownership)
    ensures
        r@ == o@,
{
    let mut countries: Vec<CountryOwnership> = Vec::new();
    let nc = o.countries.len();
    let mut i: usize = 0;
    while i < nc
        invariant
            nc == o.countries@.len(),
            i <= nc,
            countries@.len() == i,
            forall|j: int| 0 <= j < i ==> (#[trigger] countries@[j])@ == o.countries@[j]@,
        decreases nc - i,
    {
        countries.push(
            CountryOwnership {
                country: o.countries[i].country.clone(),
                levels: o.countries[i].levels,
            },
        );
        i = i + 1;
    }
    let mut buildings: Vec<BuildingOwnership> = Vec::new();
    let nb = o.buildings.len();
    let mut i: usize = 0;
    while i < nb
        invariant
            nb == o.buildings@.len(),
            i <= nb,
            buildings@.len() == i,
            forall|j: int| 0 <= j < i ==> (#[trigger] buildings@[j])@ == o.buildings@[j]@,
        decreases nb - i,
    {
        buildings.push(
            BuildingOwnership {
                type_: o.buildings[i].type_.clone(),
                country: o.buildings[i].country.clone(),
                levels: o.buildings[i].levels,
                region: o.buildings[i].region.clone(),
            },
        );
        i = i + 1;
    }
    let r = Ownership { countries, buildings };
    proof {
        assert(r@.countries =~= o@.countries);
        assert(r@.buildings =~= o@.buildings);
    }
    r
}

/// A deep copy of a state building record.
pub fn clone_state_building(b: &StateBuilding) -> (r: StateBuilding)
    ensures
        r@ == b@,
{
    StateBuilding {
        name: b.name.clone(),
        level: b.level,
        reserves: b.reserves,
        activate_production_methods: match &b.activate_production_methods {
            Some(v) => Some(clone_string_vec(v)),
            None => None,
        },
        condition: match &b.condition {
            Some(v) => Some(clone_string_table(v)),
            None => None,
        },
        ownership: match &b.ownership {
            Some(o) => Some(clone_ownership(o)),
            None => None,
        },
    }
}

/// Merge two building lists by name: a record of the second list combines
/// with the first record of the same name in the first list — levels
/// summed when both sides define one, the one defined level kept when only
/// one side has one — or is appended; no record or level is ever dropped.
pub fn merge_state_buildings(buildings1: Vec<StateBuilding>, buildings2: Vec<StateBuilding>) -> (r:
    Vec<StateBuilding>)
    requires
        sum_abs_levels(buildings_view(buildings1@)) + sum_abs_levels(buildings_view(buildings2@))
            <= i64::MAX,
    ensures
        buildings_view(r@) == merge_buildings_spec(
            buildings_view(buildings1@),
            buildings_view(buildings2@),
        ),
{
    let ghost a0 = buildings_view(buildings1@);
    let ghost b0 = buildings_view(buildings2@);
    let mut new_buildings = buildings1;
    proof {
        assert(b0.take(0) =~= Seq::<StateBuildingV>::empty());
        assert(b0.skip(0) =~= b0);
    }
    let n2 = buildings2.len();
    let mut i: usize = 0;
    while i < n2
        invariant
            n2 == buildings2@.len(),
            buildings_view(buildings2@) == b0,
            i <= n2,
            buildings_view(new_buildings@) == merge_buildings_spec(a0, b0.take(i as int)),
            sum_abs_levels(buildings_view(new_buildings@)) + sum_abs_levels(b0.skip(i as int))
                <= i64::MAX,
        decreases n2 - i,
    {
        let ghost cur = buildings_view(new_buildings@);
        let building = clone_state_building(&buildings2[i]);
        proof {
            assert(building@ == b0[i as int]);
            lemma_level_sum_skip(b0, i as int);
            lemma_level_sum_nonneg(b0.skip(i + 1));
        }

        let n1 = new_buildings.len();
        let mut j: usize = 0;
        let mut found: bool = false;
        while j < n1 && !found
            invariant
                n1 == new_buildings@.len(),
                j <= n1,
                !found ==> forall|m: int| 0 <= m < j ==> (#[trigger] buildings_view(
                    new_buildings@,
                )[m]).name != building@.name,
                found ==> j < n1 && buildings_view(new_buildings@)[j as int].name
                    == building@.name && forall|m: int| 0 <= m < j ==> (#[trigger] buildings_view(
                    new_buildings@,
                )[m]).name != building@.name,
            decreases n1 - j, (if found { 0int } else { 1int }),
    {
            if new_buildings[j].name == building.name {
                found = true;
            } else {
                j = j + 1;
            }
        }

        if found {
            proof {
                lemma_level_sum_element(cur, j as int);
                lemma_level_sum_nonneg(b0.skip(i + 1));
            }
            let existing_level = new_buildings[j].level;
            match (existing_level, building.level) {
                (Some(x), Some(y)) => {
                    let added = x + y;
                    new_buildings[j].level = Some(added);
                },
                (None, Some(y)) => {
                    new_buildings[j].level = Some(y);
                },
                _ => {},
            }
            proof {
                let updated = merged_building(cur[j as int], building@);
                assert(buildings_view(new_buildings@) =~= cur.update(j as int, updated));
                lemma_merge_building_into_found(cur, building@, j as int);
                lemma_level_sum_update(cur, j as int, updated);
            }
        } else {
            new_buildings.push(building);
            proof {
                assert(buildings_view(new_buildings@.drop_last()) =~= cur);
                assert(buildings_view(new_buildings@) =~= cur.push(
                    buildings_view(new_buildings@).last(),
                ));
                lemma_merge_building_into_none(cur, buildings_view(new_buildings@).last());
                lemma_level_sum_push(cur, buildings_view(new_buildings@).last());
            }
        }
        proof {
            assert(b0.take(i + 1).drop_last() =~= b0.take(i as int));
            assert(b0.take(i + 1).last() == b0[i as int]);
        }
        i = i + 1;
    }
    proof {
        assert(b0.take(n2 as int) =~= b0);
    }
    new_buildings
}

} // verus!
