//! The order of maps: that of their entries, compared one by one in the
//! order of insertion. Two maps that are equal as maps can differ in it.

use vstd::prelude::*;
use vstd::std_specs::cmp::{PartialOrdSpec, PartialOrdSpecImpl};
use core::cmp::Ordering;
use crate::collections::entries::KeyModel;
use crate::collections::small_map::SmallMap;
use crate::text::{lemma_text_before_one_way, text_before};

verus! {

/// `<str as Ord>::cmp`: strings are ordered by their bytes, which orders
/// them by the code points of their characters, first difference first. So
/// of the two texts the one that the result names as the lesser comes
/// before the other, and they are the same where it names neither.
#[verifier::external_body]
fn text_order(a: &str, b: &str) -> (r: Ordering)
    ensures
        r == Ordering::Less ==> text_before(a@, b@),
        r == Ordering::Equal ==> a@ == b@,
        r == Ordering::Greater ==> text_before(b@, a@),
{
    a.cmp(b)
}

/// How the entry `x` stands to the entry `y`: by their names, and where
/// those are the same, by their values.
pub open spec fn entry_order<V: PartialOrd>(x: (KeyModel, V), y: (KeyModel, V)) -> Option<
    Ordering,
> {
    if text_before(x.0.1, y.0.1) {
        Some(Ordering::Less)
    } else if text_before(y.0.1, x.0.1) {
        Some(Ordering::Greater)
    } else {
        x.1.partial_cmp_spec(&y.1)
    }
}

/// How the entries `a` stand to the entries `b`: as the first pair of
/// entries, one of each at the same place, that are not equal; where there
/// is none, the shorter run is the lesser.
pub open spec fn entries_order<V: PartialOrd>(
    a: Seq<(KeyModel, V)>,
    b: Seq<(KeyModel, V)>,
) -> Option<Ordering>
    decreases a.len(),
{
    if a.len() == 0 {
        if b.len() == 0 {
            Some(Ordering::Equal)
        } else {
            Some(Ordering::Less)
        }
    } else if b.len() == 0 {
        Some(Ordering::Greater)
    } else {
        match entry_order(a.first(), b.first()) {
            Some(Ordering::Equal) => entries_order(a.drop_first(), b.drop_first()),
            other => other,
        }
    }
}

impl<V: PartialOrd> PartialOrdSpecImpl for SmallMap<V> {
    open spec fn obeys_partial_cmp_spec() -> bool {
        V::obeys_partial_cmp_spec()
    }

    open spec fn partial_cmp_spec(&self, other: &Self) -> Option<Ordering> {
        entries_order(self@, other@)
    }
}

impl<V: PartialOrd> PartialOrd for SmallMap<V> {
    /// Compares the entries of the two maps, one by one in the order of
    /// their insertion.
    fn partial_cmp(&self, other: &Self) -> (r: Option<Ordering>) {
        let xs = self.iter();
        let ys = other.iter();
        let mut i: usize = 0;
        let ghost mut k: int = 0;
        proof {
            assert(self@.skip(0) =~= self@);
            assert(other@.skip(0) =~= other@);
        }
        while i < xs.len() && i < ys.len()
            invariant
                k == i,
                i <= xs@.len(),
                i <= ys@.len(),
                xs@.len() == self@.len(),
                ys@.len() == other@.len(),
                forall|j: int|
                    0 <= j < xs@.len() ==> (#[trigger] xs@[j]).0@ == self@[j].0.1 && *xs@[j].1
                        == self@[j].1,
                forall|j: int|
                    0 <= j < ys@.len() ==> (#[trigger] ys@[j]).0@ == other@[j].0.1 && *ys@[j].1
                        == other@[j].1,
                V::obeys_partial_cmp_spec() ==> entries_order(self@, other@) == entries_order(
                    self@.skip(k),
                    other@.skip(k),
                ),
            decreases xs@.len() - i,
        {
            let ghost a = self@.skip(k);
            let ghost b = other@.skip(k);
            proof {
                assert(a.first() == self@[k]);
                assert(b.first() == other@[k]);
                assert(a.drop_first() =~= self@.skip(k + 1));
                assert(b.drop_first() =~= other@.skip(k + 1));
                assert(xs@[k].0@ == self@[k].0.1);
                assert(ys@[k].0@ == other@[k].0.1);
            }
            let names = text_order(xs[i].0.as_str(), ys[i].0.as_str());
            match names {
                Ordering::Less => {
                    return Some(Ordering::Less);
                },
                Ordering::Greater => {
                    proof {
                        lemma_text_before_one_way(b.first().0.1, a.first().0.1);
                    }
                    return Some(Ordering::Greater);
                },
                Ordering::Equal => {
                    proof {
                        let name = a.first().0.1;
                        assert(b.first().0.1 == name);
                        if text_before(name, name) {
                            lemma_text_before_one_way(name, name);
                        }
                        assert(entry_order(a.first(), b.first()) == a.first().1.partial_cmp_spec(
                            &b.first().1,
                        ));
                    }
                },
            }
            let values = xs[i].1.partial_cmp(ys[i].1);
            match values {
                Some(Ordering::Equal) => {},
                _ => {
                    return values;
                },
            }
            i += 1;
            proof {
                k = k + 1;
            }
        }
        if i < ys.len() {
            Some(Ordering::Less)
        } else if i < xs.len() {
            Some(Ordering::Greater)
        } else {
            Some(Ordering::Equal)
        }
    }
}

} // verus!
