//! Country setup records: the starting-technology tier and the researched
//! technology list of one country, with an equality that ignores the order
//! of the researched list.

use vstd::prelude::*;
use vstd::multiset::Multiset;

use crate::buildings::str_list_view;
use crate::buildings::clone_string_vec;
use crate::pops::opt_str_view;
use crate::pops::opt_str_eq;

verus! {

broadcast use vstd::seq_lib::group_to_multiset_ensures;

/// The setup record of one country.
#[derive(Debug)]
pub struct CountrySetup {
    pub base_tech: Option<String>,
    pub technologies_researched: Vec<String>,
}

/// A technology of the game's catalog.
#[derive(Debug)]
pub struct Technology {
    pub name: String,
    pub era: String,
    pub category: String,
}

/// A country definition: its tag and its map color.
#[derive(Debug)]
pub struct CountryDefinition {
    pub tag: String,
    pub color: (u8, u8, u8),
}

/// The mathematical image of a setup record.
pub struct CountrySetupV {
    pub base_tech: Option<Seq<char>>,
    pub technologies_researched: Seq<Seq<char>>,
}

impl View for CountrySetup {
    type V = CountrySetupV;

    open spec fn view(&self) -> CountrySetupV {
        CountrySetupV {
            base_tech: opt_str_view(self.base_tech),
            technologies_researched: str_list_view(self.technologies_researched@),
        }
    }
}

/// The researched technologies of a setup record, as a multiset: their
/// order never matters.
pub open spec fn techs_multiset(v: Seq<String>) -> Multiset<Seq<char>> {
    str_list_view(v).to_multiset()
}

/// How many entries of `v` hold the text of `x`.
fn count_str(v: &Vec<String>, x: &String) -> (c: usize)
    ensures
        c == str_list_view(v@).to_multiset().count(x@),
{
    let n = v.len();
    let mut c: usize = 0;
    let mut i: usize = 0;
    proof {
        assert(str_list_view(v@).take(0) =~= Seq::<Seq<char>>::empty());
    }
    while i < n
        invariant
            n == v@.len(),
            i <= n,
            c <= i,
            c == str_list_view(v@).take(i as int).to_multiset().count(x@),
        decreases n - i,
    {
        proof {
            assert(str_list_view(v@).take(i + 1) =~= str_list_view(v@).take(i as int).push(
                str_list_view(v@)[i as int],
            ));
        }
        if v[i] == *x {
            c = c + 1;
            proof {
                assert(str_list_view(v@)[i as int] == x@);
            }
        } else {
            proof {
                assert(str_list_view(v@)[i as int] != x@);
            }
        }
        i = i + 1;
    }
    proof {
        assert(str_list_view(v@).take(n as int) =~= str_list_view(v@));
    }
    c
}

/// Whether two technology lists hold the same texts, as multisets.
fn tech_multisets_equal(a: &Vec<String>, b: &Vec<String>) -> (r: bool)
    ensures
        r == (techs_multiset(a@) == techs_multiset(b@)),
{
    let na = a.len();
    let mut i: usize = 0;
    while i < na
        invariant
            na == a@.len(),
            i <= na,
            forall|j: int|
                0 <= j < i ==> techs_multiset(a@).count(#[trigger] str_list_view(a@)[j])
                    == techs_multiset(b@).count(str_list_view(a@)[j]),
        decreases na - i,
    {
        if count_str(a, &a[i]) != count_str(b, &a[i]) {
            proof {
                assert(techs_multiset(a@).count(str_list_view(a@)[i as int]) != techs_multiset(
                    b@,
                ).count(str_list_view(a@)[i as int]));
            }
            return false;
        }
        i = i + 1;
    }
    let nb = b.len();
    let mut i: usize = 0;
    while i < nb
        invariant
            nb == b@.len(),
            na == a@.len(),
            i <= nb,
            forall|j: int|
                0 <= j < na ==> techs_multiset(a@).count(#[trigger] str_list_view(a@)[j])
                    == techs_multiset(b@).count(str_list_view(a@)[j]),
            forall|j: int|
                0 <= j < i ==> techs_multiset(a@).count(#[trigger] str_list_view(b@)[j])
                    == techs_multiset(b@).count(str_list_view(b@)[j]),
        decreases nb - i,
    {
        if count_str(a, &b[i]) != count_str(b, &b[i]) {
            proof {
                assert(techs_multiset(a@).count(str_list_view(b@)[i as int]) != techs_multiset(
                    b@,
                ).count(str_list_view(b@)[i as int]));
            }
            return false;
        }
        i = i + 1;
    }
    proof {
        assert forall|x: Seq<char>|
            techs_multiset(a@).count(x) == techs_multiset(b@).count(x) by {
            if techs_multiset(a@).count(x) > 0 {
                assert(str_list_view(a@).contains(x));
                let j = choose|j: int|
                    0 <= j < str_list_view(a@).len() && str_list_view(a@)[j] == x;
            } else if techs_multiset(b@).count(x) > 0 {
                assert(str_list_view(b@).contains(x));
                let j = choose|j: int|
                    0 <= j < str_list_view(b@).len() && str_list_view(b@)[j] == x;
            }
        }
        assert(techs_multiset(a@) =~= techs_multiset(b@));
    }
    true
}

impl PartialEq for CountrySetup {
    /// Setup records are equal when their base tiers agree and their
    /// researched lists hold the same technologies in any order.
    fn eq(&self, other: &CountrySetup) -> (r: bool) {
        opt_str_eq(&self.base_tech, &other.base_tech) && tech_multisets_equal(
            &self.technologies_researched,
            &other.technologies_researched,
        )
    }
}

impl vstd::std_specs::cmp::PartialEqSpecImpl for CountrySetup {
    open spec fn obeys_eq_spec() -> bool {
        true
    }

    open spec fn eq_spec(&self, other: &CountrySetup) -> bool {
        opt_str_view(self.base_tech) == opt_str_view(other.base_tech) && techs_multiset(
            self.technologies_researched@,
        ) == techs_multiset(other.technologies_researched@)
    }
}

impl CountrySetup {
    /// A fresh setup record: the highest starting tier, nothing researched.
    pub fn new() -> (r: CountrySetup)
        ensures
            opt_str_view(r.base_tech) == Some("tier_7"@),
            r.technologies_researched@.len() == 0,
    {
        CountrySetup {
            base_tech: Some(String::from_str("tier_7")),
            technologies_researched: Vec::new(),
        }
    }

    /// A field-for-field copy of the record.
    pub fn clone_setup(&self) -> (r: CountrySetup)
        ensures
            r@ == self@,
    {
        CountrySetup {
            base_tech: match &self.base_tech {
                Some(s) => Some(s.clone()),
                None => None,
            },
            technologies_researched: clone_string_vec(&self.technologies_researched),
        }
    }

    /// The starting tier named by the lowest tier flag that is set, as the
    /// setup parser reads the per-tier effect switches; no flag set means no
    /// base tier.
    pub fn base_tech_from_tier_flags(flags: [bool; 7]) -> (r: Option<String>)
        ensures
            ({
                let chosen = choose|t: int| 0 <= t < 7 && flags@[t] && (forall|u: int| 0 <= u < t ==> !flags@[u]);
                if exists|t: int| 0 <= t < 7 && #[trigger] flags@[t] {
                    r is Some && opt_str_view(r) == Some(tier_name(chosen))
                } else {
                    r is None
                }
            }),
    {
        if flags[0] {
            Some(String::from_str("tier_1"))
        } else if flags[1] {
            Some(String::from_str("tier_2"))
        } else if flags[2] {
            Some(String::from_str("tier_3"))
        } else if flags[3] {
            Some(String::from_str("tier_4"))
        } else if flags[4] {
            Some(String::from_str("tier_5"))
        } else if flags[5] {
            Some(String::from_str("tier_6"))
        } else if flags[6] {
            Some(String::from_str("tier_7"))
        } else {
            None
        }
    }
}

/// The name of the tier with the given zero-based index.
pub open spec fn tier_name(t: int) -> Seq<char> {
    if t == 0 {
        "tier_1"@
    } else if t == 1 {
        "tier_2"@
    } else if t == 2 {
        "tier_3"@
    } else if t == 3 {
        "tier_4"@
    } else if t == 4 {
        "tier_5"@
    } else if t == 5 {
        "tier_6"@
    } else {
        "tier_7"@
    }
}

} // verus!
