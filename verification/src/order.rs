//! The total order over values.
//!
//! Values of different variants are ranked by variant; values of the same
//! variant compare by content, strings and arrays lexicographically.  The
//! comparison underlies sorting, deduplication and set membership.

use vstd::prelude::*;

use crate::value::Value;
use crate::value::SpecValue;
use crate::value::seq_sval;
use crate::value::lemma_seq_sval_index;
use crate::value::lemma_seq_sval_len;

verus! {

/// The rank of a variant in the cross-variant ordering: the null sentinel
/// first, then booleans, numbers, strings, arrays.
pub open spec fn rank(v: SpecValue) -> int {
    match v {
        SpecValue::Null => 0,
        SpecValue::Bool(_) => 1,
        SpecValue::Number(_) => 2,
        SpecValue::Strand(_) => 3,
        SpecValue::Array(_) => 4,
    }
}

/// Lexicographic comparison of character sequences from position `i` on;
/// a proper prefix precedes the longer sequence.
pub open spec fn cmp_chars(a: Seq<char>, b: Seq<char>, i: nat) -> int
    decreases a.len() - i,
{
    if i >= a.len() && i >= b.len() {
        0
    } else if i >= a.len() {
        -1
    } else if i >= b.len() {
        1
    } else if (a[i as int] as int) < (b[i as int] as int) {
        -1
    } else if (b[i as int] as int) < (a[i as int] as int) {
        1
    } else {
        cmp_chars(a, b, i + 1)
    }
}

/// The total order over value models: `-1`, `0` or `1` as `x` comes before,
/// together with, or after `y`.
pub open spec fn cmp_sv(x: SpecValue, y: SpecValue) -> int
    decreases x, y, 0int,
{
    if rank(x) != rank(y) {
        if rank(x) < rank(y) {
            -1
        } else {
            1
        }
    } else {
        match (x, y) {
            (SpecValue::Bool(p), SpecValue::Bool(q)) => if p == q {
                0
            } else if !p {
                -1
            } else {
                1
            },
            (SpecValue::Number(m), SpecValue::Number(n)) => if m < n {
                -1
            } else if n < m {
                1
            } else {
                0
            },
            (SpecValue::Strand(s), SpecValue::Strand(t)) => cmp_chars(s, t, 0),
            (SpecValue::Array(a), SpecValue::Array(b)) => cmp_seq(a, b, 0),
            _ => 0,
        }
    }
}

/// Lexicographic comparison of model sequences from position `i` on.
pub open spec fn cmp_seq(a: Seq<SpecValue>, b: Seq<SpecValue>, i: nat) -> int
    decreases a, b, a.len() - i,
{
    if i >= a.len() && i >= b.len() {
        0
    } else if i >= a.len() {
        -1
    } else if i >= b.len() {
        1
    } else {
        proof {
            assert(decreases_to!(a => a[i as int]));
        }
        let c = cmp_sv(a[i as int], b[i as int]);
        if c != 0 {
            c
        } else {
            cmp_seq(a, b, i + 1)
        }
    }
}

/// `x` comes no later than `y` in the total order.
pub open spec fn le_sv(x: SpecValue, y: SpecValue) -> bool {
    cmp_sv(x, y) <= 0
}

/// Ascending order: every earlier element comes no later than every later one.
pub open spec fn sorted_asc(s: Seq<SpecValue>) -> bool {
    forall|i: int, j: int| 0 <= i < j < s.len() ==> #[trigger] le_sv(s[i], s[j])
}

/// Descending order: every later element comes no later than every earlier one.
pub open spec fn sorted_desc(s: Seq<SpecValue>) -> bool {
    forall|i: int, j: int| 0 <= i < j < s.len() ==> #[trigger] le_sv(s[j], s[i])
}

proof fn lemma_cmp_chars_eq(a: Seq<char>, b: Seq<char>, i: nat)
    ensures
        (cmp_chars(a, b, i) == 0) <==> (((a.len() <= i && b.len() <= i) || a.len() == b.len())
            && (forall|j: int| i <= j < a.len() && j < b.len() ==> a[j] == b[j])),
    decreases a.len() - i,
{
    if i < a.len() && i < b.len() {
        lemma_cmp_chars_eq(a, b, i + 1);
        assert((a[i as int] as int == b[i as int] as int) ==> a[i as int] == b[i as int]);
    }
}

/// Comparing as equal is the same as being equal.
pub proof fn lemma_cmp_sv_eq(x: SpecValue, y: SpecValue)
    ensures
        (cmp_sv(x, y) == 0) <==> (x == y),
    decreases x, y, 0int,
{
    match (x, y) {
        (SpecValue::Strand(s), SpecValue::Strand(t)) => {
            lemma_cmp_chars_eq(s, t, 0);
            if cmp_chars(s, t, 0) == 0 {
                assert(s =~= t);
            }
        },
        (SpecValue::Array(a), SpecValue::Array(b)) => {
            lemma_cmp_seq_eq(a, b, 0);
            if cmp_seq(a, b, 0) == 0 {
                assert(a =~= b);
            }
        },
        _ => {},
    }
}

proof fn lemma_cmp_seq_eq(a: Seq<SpecValue>, b: Seq<SpecValue>, i: nat)
    ensures
        (cmp_seq(a, b, i) == 0) <==> (((a.len() <= i && b.len() <= i) || a.len() == b.len())
            && (forall|j: int| i <= j < a.len() && j < b.len() ==> a[j] == b[j])),
    decreases a, b, a.len() - i,
{
    if i < a.len() && i < b.len() {
        assert(decreases_to!(a => a[i as int]));
        lemma_cmp_sv_eq(a[i as int], b[i as int]);
        lemma_cmp_seq_eq(a, b, i + 1);
    }
}

proof fn lemma_cmp_chars_flip(a: Seq<char>, b: Seq<char>, i: nat)
    ensures
        cmp_chars(a, b, i) == -cmp_chars(b, a, i),
    decreases a.len() - i,
{
    if i < a.len() && i < b.len() {
        lemma_cmp_chars_flip(a, b, i + 1);
    }
}

/// Swapping the arguments negates the comparison.
pub proof fn lemma_cmp_sv_flip(x: SpecValue, y: SpecValue)
    ensures
        cmp_sv(x, y) == -cmp_sv(y, x),
    decreases x, y, 0int,
{
    match (x, y) {
        (SpecValue::Strand(s), SpecValue::Strand(t)) => {
            lemma_cmp_chars_flip(s, t, 0);
        },
        (SpecValue::Array(a), SpecValue::Array(b)) => {
            lemma_cmp_seq_flip(a, b, 0);
        },
        _ => {},
    }
}

proof fn lemma_cmp_seq_flip(a: Seq<SpecValue>, b: Seq<SpecValue>, i: nat)
    ensures
        cmp_seq(a, b, i) == -cmp_seq(b, a, i),
    decreases a, b, a.len() - i,
{
    if i < a.len() && i < b.len() {
        assert(decreases_to!(a => a[i as int]));
        lemma_cmp_sv_flip(a[i as int], b[i as int]);
        lemma_cmp_sv_eq(a[i as int], b[i as int]);
        lemma_cmp_sv_eq(b[i as int], a[i as int]);
        lemma_cmp_seq_flip(a, b, i + 1);
    }
}

proof fn lemma_cmp_chars_lt_trans(a: Seq<char>, b: Seq<char>, c: Seq<char>, i: nat)
    ensures
        cmp_chars(a, b, i) < 0 && cmp_chars(b, c, i) < 0 ==> cmp_chars(a, c, i) < 0,
    decreases a.len() - i,
{
    if i < a.len() {
        lemma_cmp_chars_lt_trans(a, b, c, i + 1);
    }
}

/// Coming strictly before is transitive.
pub proof fn lemma_cmp_sv_lt_trans(x: SpecValue, y: SpecValue, z: SpecValue)
    ensures
        cmp_sv(x, y) < 0 && cmp_sv(y, z) < 0 ==> cmp_sv(x, z) < 0,
    decreases x, y, z, 0int,
{
    match (x, y, z) {
        (SpecValue::Strand(s), SpecValue::Strand(t), SpecValue::Strand(u)) => {
            lemma_cmp_chars_lt_trans(s, t, u, 0);
        },
        (SpecValue::Array(a), SpecValue::Array(b), SpecValue::Array(c)) => {
            lemma_cmp_seq_lt_trans(a, b, c, 0);
        },
        _ => {},
    }
}

proof fn lemma_cmp_seq_lt_trans(a: Seq<SpecValue>, b: Seq<SpecValue>, c: Seq<SpecValue>, i: nat)
    ensures
        cmp_seq(a, b, i) < 0 && cmp_seq(b, c, i) < 0 ==> cmp_seq(a, c, i) < 0,
    decreases a, b, c, a.len() - i,
{
    if cmp_seq(a, b, i) < 0 && cmp_seq(b, c, i) < 0 {
        if i < a.len() && i < b.len() && i < c.len() {
            assert(decreases_to!(a => a[i as int]));
            lemma_cmp_sv_eq(a[i as int], b[i as int]);
            lemma_cmp_sv_eq(b[i as int], c[i as int]);
            lemma_cmp_sv_lt_trans(a[i as int], b[i as int], c[i as int]);
            lemma_cmp_seq_lt_trans(a, b, c, i + 1);
        }
    }
}

/// The order `le_sv` is transitive.
pub proof fn lemma_le_sv_trans(x: SpecValue, y: SpecValue, z: SpecValue)
    requires
        le_sv(x, y),
        le_sv(y, z),
    ensures
        le_sv(x, z),
{
    lemma_cmp_sv_eq(x, y);
    lemma_cmp_sv_eq(y, z);
    lemma_cmp_sv_lt_trans(x, y, z);
}

/// The order `le_sv` is total: of any two values one comes no later than
/// the other, and mutual `le_sv` means equality.
pub proof fn lemma_le_sv_total(x: SpecValue, y: SpecValue)
    ensures
        le_sv(x, y) || le_sv(y, x),
        le_sv(x, y) && le_sv(y, x) ==> x == y,
        le_sv(x, x),
{
    lemma_cmp_sv_flip(x, y);
    lemma_cmp_sv_eq(x, y);
    lemma_cmp_sv_eq(x, x);
}

fn rank_value(x: &Value) -> (r: i32)
    ensures
        r as int == rank(x@),
{
    match x {
        Value::Null => 0,
        Value::Bool(_) => 1,
        Value::Number(_) => 2,
        Value::Strand(_) => 3,
        Value::Array(_) => 4,
    }
}

fn cmp_str(a: &str, b: &str) -> (r: i32)
    ensures
        r as int == cmp_chars(a@, b@, 0),
{
    let alen = a.unicode_len();
    let blen = b.unicode_len();
    let mut i: usize = 0;
    while i < alen && i < blen
        invariant
            alen == a@.len(),
            blen == b@.len(),
            i <= alen,
            i <= blen,
            cmp_chars(a@, b@, 0) == cmp_chars(a@, b@, i as nat),
        decreases alen - i,
    {
        let ca = a.get_char(i);
        let cb = b.get_char(i);
        let x = ca as u32;
        let y = cb as u32;
        if x < y {
            return -1;
        }
        if y < x {
            return 1;
        }
        assert(cmp_chars(a@, b@, i as nat) == cmp_chars(a@, b@, (i + 1) as nat));
        i = i + 1;
    }
    if alen == blen {
        0
    } else if alen < blen {
        -1
    } else {
        1
    }
}

fn cmp_vecs(a: &Vec<Value>, b: &Vec<Value>, i: usize) -> (r: i32)
    ensures
        r as int == cmp_seq(seq_sval(a@), seq_sval(b@), i as nat),
    decreases a@, b@, a@.len() - i,
{
    broadcast use lemma_seq_sval_len, lemma_seq_sval_index;

    let alen = a.len();
    let blen = b.len();
    if i < alen && i < blen {
        proof {
            assert(decreases_to!(a@ => a@[i as int]));
        }
        let c = cmp_value(&a[i], &b[i]);
        if c != 0 {
            c
        } else {
            cmp_vecs(a, b, i + 1)
        }
    } else if i >= alen && i >= blen {
        0
    } else if i >= alen {
        -1
    } else {
        1
    }
}

/// Compares two values in the total order: negative, zero or positive as
/// `x` comes before, together with, or after `y`.
pub fn cmp_value(x: &Value, y: &Value) -> (r: i32)
    ensures
        r as int == cmp_sv(x@, y@),
    decreases x, y, 0int,
{
    match (x, y) {
        (Value::Null, Value::Null) => 0,
        (Value::Bool(p), Value::Bool(q)) => {
            if p == q {
                0
            } else if !*p {
                -1
            } else {
                1
            }
        },
        (Value::Number(m), Value::Number(n)) => {
            if m < n {
                -1
            } else if n < m {
                1
            } else {
                0
            }
        },
        (Value::Strand(s), Value::Strand(t)) => cmp_str(s.as_str(), t.as_str()),
        (Value::Array(a), Value::Array(b)) => {
            proof {
                assert(decreases_to!(x => a));
            }
            cmp_vecs(a, b, 0)
        },
        _ => {
            let rx = rank_value(x);
            let ry = rank_value(y);
            if rx < ry {
                -1
            } else {
                1
            }
        },
    }
}

/// Tests two values for equality of content.
pub fn eq_value(x: &Value, y: &Value) -> (r: bool)
    ensures
        r == (x@ == y@),
{
    let c = cmp_value(x, y);
    proof {
        lemma_cmp_sv_eq(x@, y@);
    }
    c == 0
}

} // verus!
