//! The set and sequence algorithms behind the array operations:
//! deduplication, membership-based filtering, one-level flattening,
//! pairwise combination, and deep copying of values.

use vstd::prelude::*;

use crate::value::Value;
use crate::value::SpecValue;
use crate::value::seq_sval;
use crate::value::lemma_seq_sval_index;
use crate::value::lemma_seq_sval_len;
use crate::value::lemma_seq_sval_push;
use crate::value::lemma_seq_sval_add;
use crate::value::lemma_seq_sval_subrange;
use crate::order::eq_value;

verus! {

/// Removes duplicates, keeping the first occurrence of each element and the
/// first-seen order.
pub open spec fn uniq(s: Seq<SpecValue>) -> Seq<SpecValue>
    decreases s.len(),
{
    if s.len() == 0 {
        Seq::empty()
    } else {
        let rest = uniq(s.drop_last());
        if rest.contains(s.last()) {
            rest
        } else {
            rest.push(s.last())
        }
    }
}

/// The elements of `s` whose membership in `b` equals `keep`, in the order
/// and with the multiplicity they have in `s`.
pub open spec fn restrict(s: Seq<SpecValue>, b: Seq<SpecValue>, keep: bool) -> Seq<SpecValue>
    decreases s.len(),
{
    if s.len() == 0 {
        Seq::empty()
    } else {
        let rest = restrict(s.drop_last(), b, keep);
        if b.contains(s.last()) == keep {
            rest.push(s.last())
        } else {
            rest
        }
    }
}

/// Splices the elements of each directly nested array in place and passes
/// every other element through: one level of nesting removed.
pub open spec fn flatten_one(s: Seq<SpecValue>) -> Seq<SpecValue>
    decreases s.len(),
{
    if s.len() == 0 {
        Seq::empty()
    } else {
        let rest = flatten_one(s.drop_last());
        match s.last() {
            SpecValue::Array(inner) => rest + inner,
            x => rest.push(x),
        }
    }
}

/// The row of two-element arrays pairing `x` with each element of `b`.
pub open spec fn combine_row(x: SpecValue, b: Seq<SpecValue>) -> Seq<SpecValue> {
    Seq::new(b.len(), |j: int| SpecValue::Array(seq![x, b[j]]))
}

/// All pairings of an element of `a` with an element of `b`, each as a
/// two-element array, in `a`-major, `b`-minor order.
pub open spec fn combine(a: Seq<SpecValue>, b: Seq<SpecValue>) -> Seq<SpecValue>
    decreases a.len(),
{
    if a.len() == 0 {
        Seq::empty()
    } else {
        combine(a.drop_last(), b) + combine_row(a.last(), b)
    }
}

/// Whether the model of `x` occurs among the models of the elements of `s`.
pub fn vec_contains(s: &Vec<Value>, x: &Value) -> (r: bool)
    ensures
        r == seq_sval(s@).contains(x@),
{
    broadcast use lemma_seq_sval_len, lemma_seq_sval_index;

    let mut i: usize = 0;
    while i < s.len()
        invariant
            i <= s@.len(),
            forall|j: int| 0 <= j < i ==> seq_sval(s@)[j] != x@,
        decreases s@.len() - i,
    {
        proof {
            lemma_seq_sval_index(s@, i as int);
        }
        if eq_value(&s[i], x) {
            proof {
                lemma_seq_sval_len(s@);
                assert(seq_sval(s@)[i as int] == x@);
                assert(seq_sval(s@).contains(x@));
            }
            return true;
        }
        i = i + 1;
    }
    false
}

/// Removes duplicate elements, keeping first-seen order.
pub fn vec_uniq(v: Vec<Value>) -> (r: Vec<Value>)
    ensures
        seq_sval(r@) == uniq(seq_sval(v@)),
{
    broadcast use lemma_seq_sval_len, lemma_seq_sval_index, lemma_seq_sval_push,
        lemma_seq_sval_subrange;

    let ghost orig: Seq<SpecValue> = seq_sval(v@);
    let mut v = v;
    let mut out: Vec<Value> = Vec::new();
    let ghost mut done: Seq<SpecValue> = Seq::empty();
    proof {
        assert(orig =~= done + seq_sval(v@));
        assert(seq_sval(out@) =~= uniq(done));
    }
    while v.len() > 0
        invariant
            orig == done + seq_sval(v@),
            seq_sval(out@) == uniq(done),
        decreases v@.len(),
    {
        let ghost vprev = v@;
        let x = v.remove(0);
        let keep = !vec_contains(&out, &x);
        proof {
            assert(v@ =~= vprev.subrange(1, vprev.len() as int));
            lemma_seq_sval_subrange(vprev, 1, vprev.len() as int);
            lemma_seq_sval_index(vprev, 0);
            lemma_seq_sval_len(vprev);
            assert(seq_sval(v@) == seq_sval(vprev).subrange(1, seq_sval(vprev).len() as int));
            let done2 = done.push(x@);
            assert(orig =~= done2 + seq_sval(v@));
            assert(done2.drop_last() =~= done);
            done = done2;
        }
        let ghost outprev = out@;
        if keep {
            out.push(x);
            proof {
                lemma_seq_sval_push(outprev, x);
            }
        }
    }
    proof {
        assert(orig =~= done);
    }
    out
}

/// Keeps the elements of `v` whose membership in `b` equals `keep`,
/// preserving order and duplicates.
pub fn vec_restrict(v: Vec<Value>, b: &Vec<Value>, keep: bool) -> (r: Vec<Value>)
    ensures
        seq_sval(r@) == restrict(seq_sval(v@), seq_sval(b@), keep),
{
    broadcast use lemma_seq_sval_len, lemma_seq_sval_index, lemma_seq_sval_push,
        lemma_seq_sval_subrange;

    let ghost orig: Seq<SpecValue> = seq_sval(v@);
    let mut v = v;
    let mut out: Vec<Value> = Vec::new();
    let ghost mut done: Seq<SpecValue> = Seq::empty();
    proof {
        assert(orig =~= done + seq_sval(v@));
        assert(seq_sval(out@) =~= restrict(done, seq_sval(b@), keep));
    }
    while v.len() > 0
        invariant
            orig == done + seq_sval(v@),
            seq_sval(out@) == restrict(done, seq_sval(b@), keep),
        decreases v@.len(),
    {
        let ghost vprev = v@;
        let x = v.remove(0);
        let hit = vec_contains(b, &x);
        proof {
            assert(v@ =~= vprev.subrange(1, vprev.len() as int));
            lemma_seq_sval_subrange(vprev, 1, vprev.len() as int);
            lemma_seq_sval_index(vprev, 0);
            lemma_seq_sval_len(vprev);
            assert(seq_sval(v@) == seq_sval(vprev).subrange(1, seq_sval(vprev).len() as int));
            let done2 = done.push(x@);
            assert(orig =~= done2 + seq_sval(v@));
            assert(done2.drop_last() =~= done);
            done = done2;
        }
        let ghost outprev = out@;
        if hit == keep {
            out.push(x);
            proof {
                lemma_seq_sval_push(outprev, x);
            }
        }
    }
    proof {
        assert(orig =~= done);
    }
    out
}

/// Splices each directly nested array's elements in place; other elements
/// pass through unchanged.
pub fn vec_flatten(v: Vec<Value>) -> (r: Vec<Value>)
    ensures
        seq_sval(r@) == flatten_one(seq_sval(v@)),
{
    broadcast use lemma_seq_sval_len, lemma_seq_sval_index, lemma_seq_sval_push,
        lemma_seq_sval_subrange, lemma_seq_sval_add;

    let ghost orig: Seq<SpecValue> = seq_sval(v@);
    let mut v = v;
    let mut out: Vec<Value> = Vec::new();
    let ghost mut done: Seq<SpecValue> = Seq::empty();
    proof {
        assert(orig =~= done + seq_sval(v@));
        assert(seq_sval(out@) =~= flatten_one(done));
    }
    while v.len() > 0
        invariant
            orig == done + seq_sval(v@),
            seq_sval(out@) == flatten_one(done),
        decreases v@.len(),
    {
        let ghost vprev = v@;
        let x = v.remove(0);
        proof {
            assert(v@ =~= vprev.subrange(1, vprev.len() as int));
            lemma_seq_sval_subrange(vprev, 1, vprev.len() as int);
            lemma_seq_sval_index(vprev, 0);
            lemma_seq_sval_len(vprev);
            assert(seq_sval(v@) == seq_sval(vprev).subrange(1, seq_sval(vprev).len() as int));
            let done2 = done.push(x@);
            assert(orig =~= done2 + seq_sval(v@));
            assert(done2.drop_last() =~= done);
            done = done2;
        }
        let ghost outprev = out@;
        match x {
            Value::Array(mut inner) => {
                let ghost innerseq = inner@;
                out.append(&mut inner);
                proof {
                    lemma_seq_sval_add(outprev, innerseq);
                }
            },
            other => {
                out.push(other);
                proof {
                    lemma_seq_sval_push(outprev, other);
                }
            },
        }
    }
    proof {
        assert(orig =~= done);
    }
    out
}

/// Copies a value; the copy has the same model.
pub fn clone_value(v: &Value) -> (r: Value)
    ensures
        r@ == v@,
    decreases v, 0int,
{
    match v {
        Value::Null => Value::Null,
        Value::Bool(b) => Value::Bool(*b),
        Value::Number(n) => Value::Number(*n),
        Value::Strand(s) => Value::Strand(s.clone()),
        Value::Array(vs) => {
            proof {
                assert(decreases_to!(v => vs));
            }
            Value::Array(clone_vec(vs))
        },
    }
}

/// Copies every element of a vector of values; the copies have the same
/// models in the same order.
pub fn clone_vec(vs: &Vec<Value>) -> (r: Vec<Value>)
    ensures
        seq_sval(r@) == seq_sval(vs@),
    decreases vs@, vs@.len(),
{
    broadcast use lemma_seq_sval_len, lemma_seq_sval_index, lemma_seq_sval_push;

    let mut out: Vec<Value> = Vec::new();
    let mut i: usize = 0;
    while i < vs.len()
        invariant
            i <= vs@.len(),
            seq_sval(out@) == seq_sval(vs@).subrange(0, i as int),
        decreases vs@.len() - i,
    {
        proof {
            assert(decreases_to!(vs@ => vs@[i as int]));
        }
        let ghost outprev = out@;
        let x = clone_value(&vs[i]);
        out.push(x);
        proof {
            lemma_seq_sval_push(outprev, x);
            lemma_seq_sval_index(vs@, i as int);
            lemma_seq_sval_len(vs@);
            assert(seq_sval(out@) =~= seq_sval(vs@).subrange(0, i + 1));
        }
        i = i + 1;
    }
    proof {
        assert(seq_sval(out@).subrange(0, seq_sval(out@).len() as int) =~= seq_sval(out@));
        assert(seq_sval(out@) =~= seq_sval(vs@));
    }
    out
}

/// Pairs every element of `a` with every element of `b`, each pair a fresh
/// two-element array, in `a`-major order.
pub fn vec_combine(a: &Vec<Value>, b: &Vec<Value>) -> (r: Vec<Value>)
    ensures
        seq_sval(r@) == combine(seq_sval(a@), seq_sval(b@)),
{
    broadcast use lemma_seq_sval_len, lemma_seq_sval_index, lemma_seq_sval_push,
        lemma_seq_sval_subrange;

    let ghost am = seq_sval(a@);
    let ghost bm = seq_sval(b@);
    let mut out: Vec<Value> = Vec::new();
    let mut i: usize = 0;
    proof {
        assert(seq_sval(out@) =~= combine(am.subrange(0, 0), bm));
    }
    while i < a.len()
        invariant
            i <= a@.len(),
            am == seq_sval(a@),
            bm == seq_sval(b@),
            seq_sval(out@) == combine(am.subrange(0, i as int), bm),
        decreases a@.len() - i,
    {
        let mut j: usize = 0;
        proof {
            assert(combine_row(am[i as int], bm).subrange(0, 0) =~= Seq::<SpecValue>::empty());
            assert(seq_sval(out@) =~= combine(am.subrange(0, i as int), bm) + combine_row(
                am[i as int],
                bm,
            ).subrange(0, 0));
        }
        while j < b.len()
            invariant
                i < a@.len(),
                j <= b@.len(),
                am == seq_sval(a@),
                bm == seq_sval(b@),
                seq_sval(out@) == combine(am.subrange(0, i as int), bm) + combine_row(
                    am[i as int],
                    bm,
                ).subrange(0, j as int),
            decreases b@.len() - j,
        {
            let mut pair: Vec<Value> = Vec::new();
            let ghost pair0 = pair@;
            pair.push(clone_value(&a[i]));
            let ghost pair1 = pair@;
            pair.push(clone_value(&b[j]));
            proof {
                lemma_seq_sval_push(pair0, pair@[0]);
                lemma_seq_sval_push(pair1, pair@[1]);
                lemma_seq_sval_index(a@, i as int);
                lemma_seq_sval_index(b@, j as int);
                assert(seq_sval(pair@) =~= seq![am[i as int], bm[j as int]]);
            }
            let ghost outprev = out@;
            let element = Value::Array(pair);
            out.push(element);
            proof {
                lemma_seq_sval_push(outprev, element);
                lemma_seq_sval_len(a@);
                lemma_seq_sval_len(b@);
                assert(element@ == combine_row(am[i as int], bm)[j as int]);
                assert(seq_sval(out@) =~= combine(am.subrange(0, i as int), bm) + combine_row(
                    am[i as int],
                    bm,
                ).subrange(0, j + 1));
            }
            j = j + 1;
        }
        proof {
            lemma_seq_sval_len(a@);
            lemma_seq_sval_len(b@);
            let pre = am.subrange(0, i as int);
            let ext = am.subrange(0, i + 1);
            assert(ext.drop_last() =~= pre);
            assert(combine_row(am[i as int], bm).subrange(0, b@.len() as int) =~= combine_row(
                am[i as int],
                bm,
            ));
            assert(seq_sval(out@) =~= combine(ext, bm));
        }
        i = i + 1;
    }
    proof {
        assert(am.subrange(0, a@.len() as int) =~= am);
    }
    out
}

} // verus!
