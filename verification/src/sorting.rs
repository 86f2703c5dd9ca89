//! Sorting by the total order, ascending or descending.
//!
//! The sort is a comparison sort over the value order; it promises a sorted
//! rearrangement of the input but fixes no order among elements that compare
//! as equal.

use vstd::prelude::*;
use vstd::seq_lib::group_to_multiset_ensures;
use vstd::seq_lib::to_multiset_insert;

use crate::value::Value;
use crate::value::SpecValue;
use crate::value::seq_sval;
use crate::value::lemma_seq_sval_index;
use crate::value::lemma_seq_sval_len;
use crate::value::lemma_seq_sval_insert;
use crate::value::lemma_seq_sval_subrange;
use crate::order::le_sv;
use crate::order::sorted_asc;
use crate::order::sorted_desc;
use crate::order::cmp_value;
use crate::order::lemma_cmp_sv_flip;
use crate::order::lemma_le_sv_trans;
use crate::order::lemma_le_sv_total;

verus! {

/// `x` comes no later than `y` in the requested direction.
pub open spec fn le_dir(x: SpecValue, y: SpecValue, asc: bool) -> bool {
    if asc {
        le_sv(x, y)
    } else {
        le_sv(y, x)
    }
}

/// Sorted in the requested direction.
pub open spec fn sorted_dir(s: Seq<SpecValue>, asc: bool) -> bool {
    if asc {
        sorted_asc(s)
    } else {
        sorted_desc(s)
    }
}

/// The first position of `out` whose element must come after `x` in the
/// requested direction; inserting `x` there keeps `out` sorted.
fn find_pos(out: &Vec<Value>, x: &Value, asc: bool) -> (p: usize)
    ensures
        p <= out@.len(),
        forall|k: int| 0 <= k < p ==> le_dir(#[trigger] seq_sval(out@)[k], x@, asc),
        p < out@.len() ==> !le_dir(seq_sval(out@)[p as int], x@, asc),
{
    broadcast use lemma_seq_sval_len, lemma_seq_sval_index;

    let mut p: usize = 0;
    while p < out.len()
        invariant
            p <= out@.len(),
            forall|k: int| 0 <= k < p ==> le_dir(#[trigger] seq_sval(out@)[k], x@, asc),
        decreases out@.len() - p,
    {
        let c = cmp_value(&out[p], x);
        proof {
            lemma_seq_sval_index(out@, p as int);
            lemma_cmp_sv_flip(seq_sval(out@)[p as int], x@);
            lemma_cmp_sv_flip(x@, seq_sval(out@)[p as int]);
        }
        let go = if asc {
            c <= 0
        } else {
            c >= 0
        };
        if !go {
            return p;
        }
        p = p + 1;
    }
    p
}

proof fn lemma_insert_pair(s: Seq<SpecValue>, p: int, x: SpecValue, asc: bool, i: int, j: int)
    requires
        sorted_dir(s, asc),
        0 <= p <= s.len(),
        forall|k: int| 0 <= k < p ==> le_dir(#[trigger] s[k], x, asc),
        p < s.len() ==> !le_dir(s[p], x, asc),
        0 <= i < j < s.len() + 1,
    ensures
        le_dir(s.insert(p, x)[i], s.insert(p, x)[j], asc),
{
    let t = s.insert(p, x);
    if p < s.len() {
        lemma_le_sv_total(s[p], x);
    }
    if j < p {
        assert(t[i] == s[i] && t[j] == s[j]);
    } else if i < p && j == p {
        assert(t[i] == s[i] && t[j] == x);
    } else if i == p && j > p {
        assert(t[i] == x && t[j] == s[j - 1]);
        if j - 1 > p {
            if asc {
                lemma_le_sv_trans(x, s[p], s[j - 1]);
            } else {
                lemma_le_sv_trans(s[j - 1], s[p], x);
            }
        }
    } else if i < p && j > p {
        assert(t[i] == s[i] && t[j] == s[j - 1]);
    } else {
        assert(t[i] == s[i - 1] && t[j] == s[j - 1]);
    }
}

/// Inserting at the position `find_pos` picks keeps the sequence sorted.
proof fn lemma_sorted_insert(s: Seq<SpecValue>, p: int, x: SpecValue, asc: bool)
    requires
        sorted_dir(s, asc),
        0 <= p <= s.len(),
        forall|k: int| 0 <= k < p ==> le_dir(#[trigger] s[k], x, asc),
        p < s.len() ==> !le_dir(s[p], x, asc),
    ensures
        sorted_dir(s.insert(p, x), asc),
{
    let t = s.insert(p, x);
    if asc {
        assert forall|i: int, j: int| 0 <= i < j < t.len() implies #[trigger] le_sv(
            t[i],
            t[j],
        ) by {
            lemma_insert_pair(s, p, x, asc, i, j);
        }
    } else {
        assert forall|i: int, j: int| 0 <= i < j < t.len() implies #[trigger] le_sv(
            t[j],
            t[i],
        ) by {
            lemma_insert_pair(s, p, x, asc, i, j);
        }
    }
}

/// Sorts the values by the total order, ascending or descending: the result
/// holds the same elements with the same multiplicities, in sorted order.
pub fn sort_vec(v: Vec<Value>, asc: bool) -> (r: Vec<Value>)
    ensures
        seq_sval(r@).to_multiset() == seq_sval(v@).to_multiset(),
        sorted_dir(seq_sval(r@), asc),
{
    broadcast use lemma_seq_sval_len, lemma_seq_sval_index, lemma_seq_sval_subrange,
        lemma_seq_sval_insert, group_to_multiset_ensures, to_multiset_insert;

    let ghost orig: Seq<SpecValue> = seq_sval(v@);
    let mut v = v;
    let mut out: Vec<Value> = Vec::new();
    proof {
        assert(seq_sval(out@) =~= Seq::<SpecValue>::empty());
        assert(seq_sval(out@).to_multiset().add(seq_sval(v@).to_multiset()) =~= orig.to_multiset());
    }
    while v.len() > 0
        invariant
            seq_sval(out@).to_multiset().add(seq_sval(v@).to_multiset()) == orig.to_multiset(),
            sorted_dir(seq_sval(out@), asc),
        decreases v@.len(),
    {
        let ghost vprev = v@;
        let x = v.remove(0);
        let p = find_pos(&out, &x, asc);
        let ghost outprev = out@;
        out.insert(p, x);
        proof {
            assert(v@ =~= vprev.subrange(1, vprev.len() as int));
            lemma_seq_sval_subrange(vprev, 1, vprev.len() as int);
            lemma_seq_sval_index(vprev, 0);
            lemma_seq_sval_len(vprev);
            lemma_seq_sval_len(v@);
            lemma_seq_sval_len(outprev);
            assert(seq_sval(vprev) =~= seq_sval(v@).insert(0, x@));
            lemma_seq_sval_insert(outprev, p as int, x);
            lemma_sorted_insert(seq_sval(outprev), p as int, x@, asc);
            to_multiset_insert(seq_sval(outprev), p as int, x@);
            to_multiset_insert(seq_sval(v@), 0, x@);
            assert(seq_sval(out@).to_multiset() =~= seq_sval(outprev).to_multiset().insert(x@));
            assert(seq_sval(vprev).to_multiset() =~= seq_sval(v@).to_multiset().insert(x@));
            assert(seq_sval(out@).to_multiset().add(seq_sval(v@).to_multiset())
                =~= seq_sval(outprev).to_multiset().add(seq_sval(vprev).to_multiset()));
        }
    }
    proof {
        assert(seq_sval(v@) =~= Seq::<SpecValue>::empty());
        assert(seq_sval(out@).to_multiset().add(seq_sval(v@).to_multiset())
            =~= seq_sval(out@).to_multiset());
    }
    out
}

} // verus!
