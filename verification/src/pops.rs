//! Population groups and their merge rule: two groups are the same when
//! culture, religion and type all agree, and merging sums the sizes of same
//! groups instead of duplicating them.

use vstd::prelude::*;

use crate::border_trace::abs_int;

verus! {

/// A population group of one state.
#[derive(Debug)]
pub struct Pop {
    pub culture: String,
    pub religion: Option<String>,
    pub size: i64,
    pub pop_type: Option<String>,
}

/// The population list of one state, as read from the game's history.
#[derive(Debug)]
pub struct StatePopulation {
    pub pops: Vec<Pop>,
}

/// The mathematical image of a population group.
pub struct PopV {
    pub culture: Seq<char>,
    pub religion: Option<Seq<char>>,
    pub size: int,
    pub pop_type: Option<Seq<char>>,
}

/// The view of an optional string.
pub open spec fn opt_str_view(o: Option<String>) -> Option<Seq<char>> {
    match o {
        Some(s) => Some(s@),
        None => None,
    }
}

impl View for Pop {
    type V = PopV;

    open spec fn view(&self) -> PopV {
        PopV {
            culture: self.culture@,
            religion: opt_str_view(self.religion),
            size: self.size as int,
            pop_type: opt_str_view(self.pop_type),
        }
    }
}

/// The view of a whole population list.
pub open spec fn pops_view(s: Seq<Pop>) -> Seq<PopV> {
    s.map(|i: int, p: Pop| p@)
}

/// Merge identity of population groups: the (culture, religion, type) tuple.
pub open spec fn same_pop_identity(a: PopV, b: PopV) -> bool {
    a.culture == b.culture && a.religion == b.religion && a.pop_type == b.pop_type
}

/// One group added into a list: its size joins the first group of the same
/// identity, or the group is appended.
pub open spec fn merge_pop_into(acc: Seq<PopV>, p: PopV) -> Seq<PopV>
    decreases acc.len(),
{
    if acc.len() == 0 {
        seq![p]
    } else if same_pop_identity(acc[0], p) {
        seq![PopV { size: acc[0].size + p.size, ..acc[0] }] + acc.drop_first()
    } else {
        seq![acc[0]] + merge_pop_into(acc.drop_first(), p)
    }
}

/// The merge of two population lists: the first list, with each group of
/// the second folded in, in order.
pub open spec fn merge_pops_spec(a: Seq<PopV>, b: Seq<PopV>) -> Seq<PopV>
    decreases b.len(),
{
    if b.len() == 0 {
        a
    } else {
        merge_pop_into(merge_pops_spec(a, b.drop_last()), b.last())
    }
}

/// The total population of a list: the sum of its groups' sizes.
pub open spec fn sum_sizes(s: Seq<PopV>) -> int
    decreases s.len(),
{
    if s.len() == 0 {
        0
    } else {
        s[0].size + sum_sizes(s.drop_first())
    }
}

proof fn lemma_sum_sizes_push(s: Seq<PopV>, p: PopV)
    ensures
        sum_sizes(s.push(p)) == sum_sizes(s) + p.size,
    decreases s.len(),
{
    if s.len() == 0 {
        assert(s.push(p)[0] == p);
        assert(s.push(p).drop_first() =~= Seq::<PopV>::empty());
        assert(sum_sizes(s.push(p)) == p.size + sum_sizes(s.push(p).drop_first()));
    } else {
        assert(s.push(p)[0] == s[0]);
        assert(s.push(p).drop_first() =~= s.drop_first().push(p));
        lemma_sum_sizes_push(s.drop_first(), p);
        assert(sum_sizes(s.push(p)) == s[0].size + sum_sizes(s.drop_first().push(p)));
    }
}

proof fn lemma_merge_pop_into_total(acc: Seq<PopV>, p: PopV)
    ensures
        sum_sizes(merge_pop_into(acc, p)) == sum_sizes(acc) + p.size,
    decreases acc.len(),
{
    if acc.len() == 0 {
        assert(merge_pop_into(acc, p) =~= Seq::<PopV>::empty().push(p));
        lemma_sum_sizes_push(Seq::<PopV>::empty(), p);
    } else if same_pop_identity(acc[0], p) {
        let merged = merge_pop_into(acc, p);
        assert(merged[0] == PopV { size: acc[0].size + p.size, ..acc[0] });
        assert(merged.drop_first() =~= acc.drop_first());
        assert(sum_sizes(merged) == merged[0].size + sum_sizes(merged.drop_first()));
    } else {
        let merged = merge_pop_into(acc, p);
        assert(merged[0] == acc[0]);
        assert(merged.drop_first() =~= merge_pop_into(acc.drop_first(), p));
        lemma_merge_pop_into_total(acc.drop_first(), p);
        assert(sum_sizes(merged) == merged[0].size + sum_sizes(merged.drop_first()));
    }
}

/// Merging never loses population: the merged list's total size is the sum
/// of the two lists' totals, so no group's count is silently dropped.
pub proof fn lemma_merge_pops_preserves_total_size(a: Seq<PopV>, b: Seq<PopV>)
    ensures
        sum_sizes(merge_pops_spec(a, b)) == sum_sizes(a) + sum_sizes(b),
    decreases b.len(),
{
    if b.len() > 0 {
        lemma_merge_pops_preserves_total_size(a, b.drop_last());
        lemma_merge_pop_into_total(merge_pops_spec(a, b.drop_last()), b.last());
        lemma_sum_sizes_drop_last(b);
    }
}

proof fn lemma_sum_sizes_drop_last(s: Seq<PopV>)
    requires
        s.len() > 0,
    ensures
        sum_sizes(s) == sum_sizes(s.drop_last()) + s.last().size,
    decreases s.len(),
{
    if s.len() == 1 {
        assert(s.drop_last() =~= Seq::<PopV>::empty());
        assert(s.drop_first() =~= Seq::<PopV>::empty());
    } else {
        assert(s.drop_last()[0] == s[0]);
        assert(s.drop_last().drop_first() =~= s.drop_first().drop_last());
        lemma_sum_sizes_drop_last(s.drop_first());
        assert(sum_sizes(s.drop_last()) == s[0].size + sum_sizes(s.drop_first().drop_last()));
    }
}

/// The sum of the absolute sizes of a population list; merged sizes can
/// never leave this budget.
pub open spec fn sum_abs_sizes(s: Seq<PopV>) -> int
    decreases s.len(),
{
    if s.len() == 0 {
        0
    } else {
        abs_int(s[0].size) + sum_abs_sizes(s.drop_first())
    }
}

proof fn lemma_sum_abs_push(s: Seq<PopV>, p: PopV)
    ensures
        sum_abs_sizes(s.push(p)) == sum_abs_sizes(s) + abs_int(p.size),
    decreases s.len(),
{
    if s.len() == 0 {
        assert(s.push(p)[0] == p);
        assert(s.push(p).drop_first() =~= Seq::<PopV>::empty());
        assert(sum_abs_sizes(s.push(p)) == abs_int(p.size) + sum_abs_sizes(
            s.push(p).drop_first(),
        ));
    } else {
        assert(s.push(p)[0] == s[0]);
        assert(s.push(p).drop_first() =~= s.drop_first().push(p));
        lemma_sum_abs_push(s.drop_first(), p);
        assert(sum_abs_sizes(s.push(p)) == abs_int(s[0].size) + sum_abs_sizes(
            s.drop_first().push(p),
        ));
    }
}

proof fn lemma_sum_abs_update(s: Seq<PopV>, j: int, p: PopV)
    requires
        0 <= j < s.len(),
    ensures
        sum_abs_sizes(s.update(j, p)) == sum_abs_sizes(s) - abs_int(s[j].size) + abs_int(p.size),
    decreases s.len(),
{
    if j == 0 {
        assert(s.update(0, p).drop_first() =~= s.drop_first());
    } else {
        assert(s.update(j, p).drop_first() =~= s.drop_first().update(j - 1, p));
        lemma_sum_abs_update(s.drop_first(), j - 1, p);
    }
}

proof fn lemma_sum_abs_element(s: Seq<PopV>, j: int)
    requires
        0 <= j < s.len(),
    ensures
        abs_int(s[j].size) <= sum_abs_sizes(s),
        sum_abs_sizes(s) >= 0,
    decreases s.len(),
{
    if s.len() > 0 {
        if j == 0 {
            lemma_sum_abs_nonneg(s.drop_first());
        } else {
            lemma_sum_abs_element(s.drop_first(), j - 1);
        }
    }
}

pub proof fn lemma_sum_abs_nonneg(s: Seq<PopV>)
    ensures
        sum_abs_sizes(s) >= 0,
    decreases s.len(),
{
    if s.len() > 0 {
        lemma_sum_abs_nonneg(s.drop_first());
    }
}

proof fn lemma_sum_abs_skip(s: Seq<PopV>, i: int)
    requires
        0 <= i < s.len(),
    ensures
        sum_abs_sizes(s.skip(i)) == abs_int(s[i].size) + sum_abs_sizes(s.skip(i + 1)),
{
    assert(s.skip(i).drop_first() =~= s.skip(i + 1));
    assert(s.skip(i)[0] == s[i]);
}

/// Merging into a list where the first match stands at `j` updates exactly
/// that entry's size.
proof fn lemma_merge_pop_into_found(s: Seq<PopV>, p: PopV, j: int)
    requires
        0 <= j < s.len(),
        same_pop_identity(s[j], p),
        forall|m: int| 0 <= m < j ==> !same_pop_identity(s[m], p),
    ensures
        merge_pop_into(s, p) == s.update(j, PopV { size: s[j].size + p.size, ..s[j] }),
    decreases s.len(),
{
    if j == 0 {
        assert(merge_pop_into(s, p) =~= s.update(0, PopV { size: s[0].size + p.size, ..s[0] }));
    } else {
        lemma_merge_pop_into_found(s.drop_first(), p, j - 1);
        assert(merge_pop_into(s, p) =~= s.update(j, PopV { size: s[j].size + p.size, ..s[j] }));
    }
}

/// Merging into a list with no matching identity appends the group.
proof fn lemma_merge_pop_into_none(s: Seq<PopV>, p: PopV)
    requires
        forall|m: int| 0 <= m < s.len() ==> !same_pop_identity(s[m], p),
    ensures
        merge_pop_into(s, p) == s.push(p),
    decreases s.len(),
{
    if s.len() == 0 {
        assert(merge_pop_into(s, p) =~= s.push(p));
    } else {
        lemma_merge_pop_into_none(s.drop_first(), p);
        assert(merge_pop_into(s, p) =~= s.push(p));
    }
}

/// Whether two optional strings hold the same text.
pub fn opt_str_eq(a: &Option<String>, b: &Option<String>) -> (r: bool)
    ensures
        r == (opt_str_view(*a) == opt_str_view(*b)),
{
    match (a, b) {
        (None, None) => true,
        (Some(x), Some(y)) => *x == *y,
        _ => false,
    }
}

/// A field-for-field copy of a population group.
pub fn clone_pop(p: &Pop) -> (r: Pop)
    ensures
        r@ == p@,
{
    Pop {
        culture: p.culture.clone(),
        religion: match &p.religion {
            Some(s) => Some(s.clone()),
            None => None,
        },
        size: p.size,
        pop_type: match &p.pop_type {
            Some(s) => Some(s.clone()),
            None => None,
        },
    }
}

/// Whether two groups have the same merge identity.
fn same_identity(a: &Pop, b: &Pop) -> (r: bool)
    ensures
        r == same_pop_identity(a@, b@),
{
    a.culture == b.culture && opt_str_eq(&a.religion, &b.religion) && opt_str_eq(
        &a.pop_type,
        &b.pop_type,
    )
}

/// Merge two population lists: every group of the second list has its size
/// added to the first group of the same identity, or is appended; no group
/// is ever dropped.
pub fn merge_pops(pops1: Vec<Pop>, pops2: Vec<Pop>) -> (r: Vec<Pop>)
    requires
        sum_abs_sizes(pops_view(pops1@)) + sum_abs_sizes(pops_view(pops2@)) <= i64::MAX,
    ensures
        pops_view(r@) == merge_pops_spec(pops_view(pops1@), pops_view(pops2@)),
{
    let ghost a0 = pops_view(pops1@);
    let ghost b0 = pops_view(pops2@);
    let mut new_pops = pops1;
    proof {
        assert(b0.take(0) =~= Seq::<PopV>::empty());
        assert(b0.skip(0) =~= b0);
    }
    let n2 = pops2.len();
    let mut i: usize = 0;
    while i < n2
        invariant
            n2 == pops2@.len(),
            pops_view(pops2@) == b0,
            i <= n2,
            pops_view(new_pops@) == merge_pops_spec(a0, b0.take(i as int)),
            sum_abs_sizes(pops_view(new_pops@)) + sum_abs_sizes(b0.skip(i as int)) <= i64::MAX,
        decreases n2 - i,
    {
        let ghost cur = pops_view(new_pops@);
        let pop = clone_pop(&pops2[i]);
        proof {
            assert(pop@ == b0[i as int]);
            lemma_sum_abs_skip(b0, i as int);
            lemma_sum_abs_nonneg(b0.skip(i + 1));
        }

        let n1 = new_pops.len();
        let mut j: usize = 0;
        let mut found: bool = false;
        while j < n1 && !found
            invariant
                n1 == new_pops@.len(),
                j <= n1,
                !found ==> forall|m: int| 0 <= m < j ==> !same_pop_identity(
                    #[trigger] pops_view(new_pops@)[m],
                    pop@,
                ),
                found ==> j < n1 && same_pop_identity(pops_view(new_pops@)[j as int], pop@)
                    && forall|m: int| 0 <= m < j ==> !same_pop_identity(
                    #[trigger] pops_view(new_pops@)[m],
                    pop@,
                ),
            decreases n1 - j, (if found { 0int } else { 1int }),
    {
            if same_identity(&new_pops[j], &pop) {
                found = true;
            } else {
                j = j + 1;
            }
        }

        if found {
            proof {
                lemma_sum_abs_element(cur, j as int);
                lemma_sum_abs_nonneg(b0.skip(i + 1));
            }
            let added = new_pops[j].size + pop.size;
            new_pops[j].size = added;
            proof {
                let updated = PopV { size: cur[j as int].size + pop@.size, ..cur[j as int] };
                assert(pops_view(new_pops@) =~= cur.update(j as int, updated));
                lemma_merge_pop_into_found(cur, pop@, j as int);
                lemma_sum_abs_update(cur, j as int, updated);
            }
        } else {
            new_pops.push(pop);
            proof {
                assert(pops_view(new_pops@.drop_last()) =~= cur);
                assert(pops_view(new_pops@) =~= cur.push(pops_view(new_pops@).last()));
                lemma_merge_pop_into_none(cur, pops_view(new_pops@).last());
                lemma_sum_abs_push(cur, pops_view(new_pops@).last());
            }
        }
        proof {
            assert(b0.take(i + 1).drop_last() =~= b0.take(i as int));
            assert(b0.take(i + 1).last() == b0[i as int]);
        }
        i = i + 1;
    }
    proof {
        assert(b0.take(n2 as int) =~= b0);
    }
    new_pops
}

} // verus!
