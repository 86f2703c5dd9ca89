//! Laws of the array operations, stated over the models that the public
//! contracts use and proved once and for all.

use vstd::prelude::*;
use vstd::relations::total_ordering;
use vstd::relations::sorted_by;
use vstd::seq_lib::lemma_sorted_unique;
use vstd::seq_lib::group_to_multiset_ensures;

use crate::value::SpecValue;
use crate::order::le_sv;
use crate::order::sorted_asc;
use crate::order::sorted_desc;
use crate::order::lemma_le_sv_total;
use crate::order::lemma_le_sv_trans;
use crate::seqops::uniq;
use crate::seqops::restrict;

verus! {

/// No value occurs twice.
pub open spec fn pairwise_distinct(s: Seq<SpecValue>) -> bool {
    forall|i: int, j: int| 0 <= i < j < s.len() ==> s[i] != s[j]
}

proof fn lemma_uniq_len(s: Seq<SpecValue>)
    ensures
        uniq(s).len() <= s.len(),
    decreases s.len(),
{
    if s.len() > 0 {
        lemma_uniq_len(s.drop_last());
    }
}

proof fn lemma_uniq_contains(s: Seq<SpecValue>)
    ensures
        forall|x: SpecValue| #[trigger] uniq(s).contains(x) <==> s.contains(x),
    decreases s.len(),
{
    if s.len() > 0 {
        let rest = s.drop_last();
        lemma_uniq_contains(rest);
        assert(s =~= rest.push(s.last()));
        assert forall|x: SpecValue| s.contains(x) implies #[trigger] uniq(s).contains(x) by {
            if x == s.last() {
                if !uniq(rest).contains(x) {
                    assert(uniq(s) == uniq(rest).push(s.last()));
                    assert(uniq(s)[uniq(s).len() - 1] == x);
                }
            } else {
                let i = choose|i: int| 0 <= i < s.len() && s[i] == x;
                assert(rest[i] == x);
                assert(rest.contains(x));
                assert(uniq(rest).contains(x));
                let k = choose|k: int| 0 <= k < uniq(rest).len() && uniq(rest)[k] == x;
                assert(uniq(s)[k] == x);
            }
        }
        assert forall|x: SpecValue| #[trigger] uniq(s).contains(x) implies s.contains(x) by {
            if uniq(rest).contains(x) {
                let i = choose|i: int| 0 <= i < rest.len() && rest[i] == x;
                assert(s[i] == x);
            } else {
                assert(x == s.last());
                assert(s[s.len() - 1] == x);
            }
        }
    }
}

proof fn lemma_uniq_distinct(s: Seq<SpecValue>)
    ensures
        pairwise_distinct(uniq(s)),
    decreases s.len(),
{
    if s.len() > 0 {
        let rest = s.drop_last();
        lemma_uniq_distinct(rest);
        if !uniq(rest).contains(s.last()) {
            assert forall|i: int, j: int| 0 <= i < j < uniq(s).len() implies uniq(s)[i] != uniq(
                s,
            )[j] by {
                if j == uniq(s).len() - 1 {
                    assert(uniq(rest)[i] == uniq(s)[i]);
                }
            }
        }
    }
}

proof fn lemma_uniq_of_distinct(s: Seq<SpecValue>)
    requires
        pairwise_distinct(s),
    ensures
        uniq(s) == s,
    decreases s.len(),
{
    if s.len() == 0 {
        assert(uniq(s) =~= s);
    } else {
        let rest = s.drop_last();
        lemma_uniq_of_distinct(rest);
        if uniq(rest).contains(s.last()) {
            let i = choose|i: int| 0 <= i < rest.len() && rest[i] == s.last();
            assert(s[i] == s[s.len() - 1]);
            assert(false);
        }
        assert(uniq(s) =~= s);
    }
}

/// Law: deduplication is idempotent, and never lengthens an array.
pub proof fn lemma_distinct_idempotent(s: Seq<SpecValue>)
    ensures
        uniq(uniq(s)) == uniq(s),
        uniq(s).len() <= s.len(),
{
    lemma_uniq_distinct(s);
    lemma_uniq_of_distinct(uniq(s));
    lemma_uniq_len(s);
}

/// Law: the union of two arrays is no longer than the two together, and
/// holds exactly the values that occur in one of them.
pub proof fn lemma_union_bounds(a: Seq<SpecValue>, b: Seq<SpecValue>)
    ensures
        uniq(a + b).len() <= a.len() + b.len(),
        forall|x: SpecValue| #[trigger] uniq(a + b).contains(x) <==> a.contains(x) || b.contains(
            x,
        ),
{
    lemma_uniq_len(a + b);
    lemma_uniq_contains(a + b);
    assert forall|x: SpecValue| (a + b).contains(x) <==> a.contains(x) || b.contains(x) by {
        if (a + b).contains(x) {
            let i = choose|i: int| 0 <= i < (a + b).len() && (a + b)[i] == x;
            if i < a.len() {
                assert(a[i] == x);
            } else {
                assert(b[i - a.len()] == x);
            }
        }
        if a.contains(x) {
            let i = choose|i: int| 0 <= i < a.len() && a[i] == x;
            assert((a + b)[i] == x);
        }
        if b.contains(x) {
            let i = choose|i: int| 0 <= i < b.len() && b[i] == x;
            assert((a + b)[i + a.len()] == x);
        }
    }
}

proof fn lemma_restrict_contains(s: Seq<SpecValue>, b: Seq<SpecValue>, keep: bool)
    ensures
        forall|x: SpecValue| #[trigger] restrict(s, b, keep).contains(x) <==> (s.contains(x)
            && b.contains(x) == keep),
    decreases s.len(),
{
    if s.len() > 0 {
        let rest = s.drop_last();
        lemma_restrict_contains(rest, b, keep);
        assert(s =~= rest.push(s.last()));
        assert forall|x: SpecValue| (s.contains(x) && b.contains(x) == keep)
            implies #[trigger] restrict(s, b, keep).contains(x) by {
            if x == s.last() {
                assert(restrict(s, b, keep) == restrict(rest, b, keep).push(s.last()));
                assert(restrict(s, b, keep)[restrict(s, b, keep).len() - 1] == x);
            } else {
                let i = choose|i: int| 0 <= i < s.len() && s[i] == x;
                assert(rest[i] == x);
                assert(rest.contains(x));
                assert(restrict(rest, b, keep).contains(x));
                let k = choose|k: int|
                    0 <= k < restrict(rest, b, keep).len() && restrict(rest, b, keep)[k] == x;
                assert(restrict(s, b, keep)[k] == x);
            }
        }
        assert forall|x: SpecValue| #[trigger] restrict(s, b, keep).contains(x) implies (s.contains(
            x,
        ) && b.contains(x) == keep) by {
            if restrict(rest, b, keep).contains(x) {
                let i = choose|i: int| 0 <= i < rest.len() && rest[i] == x;
                assert(s[i] == x);
            } else {
                assert(x == s.last());
                assert(s[s.len() - 1] == x);
            }
        }
    }
}

proof fn lemma_restrict_multiset(s: Seq<SpecValue>, b: Seq<SpecValue>)
    ensures
        restrict(s, b, false).to_multiset().add(restrict(s, b, true).to_multiset())
            == s.to_multiset(),
    decreases s.len(),
{
    broadcast use group_to_multiset_ensures;

    if s.len() == 0 {
        assert(restrict(s, b, false) =~= Seq::<SpecValue>::empty());
        assert(restrict(s, b, true) =~= Seq::<SpecValue>::empty());
        assert(restrict(s, b, false).to_multiset().add(restrict(s, b, true).to_multiset())
            =~= s.to_multiset());
    } else {
        let rest = s.drop_last();
        lemma_restrict_multiset(rest, b);
        assert(rest.push(s.last()).to_multiset() =~= rest.to_multiset().insert(s.last()));
        assert(s =~= rest.push(s.last()));
        assert(restrict(s, b, false).to_multiset().add(restrict(s, b, true).to_multiset())
            =~= s.to_multiset());
    }
}

/// Law: complement and intersection split an array without loss or overlap:
/// together they hold exactly the array's occurrences, and a value of the
/// array lies in the complement precisely when it is no member of the other
/// array, in the intersection precisely when it is.
pub proof fn lemma_complement_intersect_partition(a: Seq<SpecValue>, b: Seq<SpecValue>)
    ensures
        restrict(a, b, false).to_multiset().add(restrict(a, b, true).to_multiset())
            == a.to_multiset(),
        forall|x: SpecValue| a.contains(x) ==> (#[trigger] restrict(a, b, false).contains(x)
            <==> !b.contains(x)),
        forall|x: SpecValue| a.contains(x) ==> (#[trigger] restrict(a, b, true).contains(x)
            <==> b.contains(x)),
{
    lemma_restrict_multiset(a, b);
    lemma_restrict_contains(a, b, false);
    lemma_restrict_contains(a, b, true);
}

/// Law: when an array's values are pairwise distinct, its ascending sort is
/// its descending sort reversed, element by element.
pub proof fn lemma_sort_directions(
    s: Seq<SpecValue>,
    a: Seq<SpecValue>,
    d: Seq<SpecValue>,
)
    requires
        pairwise_distinct(s),
        a.to_multiset() == s.to_multiset(),
        sorted_asc(a),
        d.to_multiset() == s.to_multiset(),
        sorted_desc(d),
    ensures
        a == d.reverse(),
{
    let leq = |x: SpecValue, y: SpecValue| le_sv(x, y);
    assert forall|x: SpecValue, y: SpecValue| #[trigger] leq(x, y) || #[trigger] leq(y, x) by {
        lemma_le_sv_total(x, y);
    }
    assert forall|x: SpecValue, y: SpecValue| #[trigger] leq(x, y) && #[trigger] leq(y, x)
        implies x == y by {
        lemma_le_sv_total(x, y);
    }
    assert forall|x: SpecValue, y: SpecValue, z: SpecValue|
        #[trigger] leq(x, y) && #[trigger] leq(y, z) implies leq(x, z) by {
        lemma_le_sv_trans(x, y, z);
    }
    assert forall|x: SpecValue| #[trigger] leq(x, x) by {
        lemma_le_sv_total(x, x);
    }
    assert(total_ordering(leq));
    let r = d.reverse();
    d.lemma_reverse_to_multiset();
    assert(sorted_by(a, leq));
    assert forall|i: int, j: int| 0 <= i < j < r.len() implies #[trigger] leq(r[i], r[j]) by {
        let n = d.len() as int;
        assert(r[i] == d[n - 1 - i]);
        assert(r[j] == d[n - 1 - j]);
        assert(le_sv(d[n - 1 - i], d[n - 1 - j]));
    }
    assert(sorted_by(r, leq));
    lemma_sorted_unique(a, r, leq);
    assert(a =~= r);
}

} // verus!
