//! The dynamically tagged value type and its mathematical model.

use vstd::prelude::*;

verus! {

/// The mathematical content of a [`Value`]: numbers are unbounded integers,
/// strings are character sequences, arrays are sequences of models.  All
/// contracts of this library speak about values through this model.
pub enum SpecValue {
    Null,
    Bool(bool),
    Number(int),
    Strand(Seq<char>),
    Array(Seq<SpecValue>),
}

/// A dynamically tagged value as the evaluator hands it in: the null-like
/// sentinel, a boolean, an integer number, a string, or an array of values.
#[derive(Debug, PartialEq)]
pub enum Value {
    Null,
    Bool(bool),
    Number(i64),
    Strand(String),
    Array(Vec<Value>),
}

/// The failure signal of this library: an argument-arity violation, carrying
/// the fully qualified operation name and a fixed message.
#[derive(Debug, PartialEq)]
pub enum Error {
    InvalidArguments { name: String, message: String },
}

/// The model of a single value.
pub open spec fn sval(v: Value) -> SpecValue
    decreases v, 0int,
{
    match v {
        Value::Null => SpecValue::Null,
        Value::Bool(b) => SpecValue::Bool(b),
        Value::Number(n) => SpecValue::Number(n as int),
        Value::Strand(s) => SpecValue::Strand(s@),
        Value::Array(vs) => SpecValue::Array(seq_sval(vs@)),
    }
}

/// The models of a sequence of values, element by element.
pub open spec fn seq_sval(s: Seq<Value>) -> Seq<SpecValue>
    decreases s, s.len(),
{
    if s.len() == 0 {
        Seq::empty()
    } else {
        seq_sval(s.subrange(0, s.len() - 1)).push(sval(s[s.len() - 1]))
    }
}

impl View for Value {
    type V = SpecValue;

    open spec fn view(&self) -> SpecValue {
        sval(*self)
    }
}

pub broadcast proof fn lemma_seq_sval_len(s: Seq<Value>)
    ensures
        #[trigger] seq_sval(s).len() == s.len(),
    decreases s.len(),
{
    if s.len() > 0 {
        lemma_seq_sval_len(s.subrange(0, s.len() - 1));
    }
}

pub broadcast proof fn lemma_seq_sval_index(s: Seq<Value>, i: int)
    requires
        0 <= i < s.len(),
    ensures
        #[trigger] seq_sval(s)[i] == sval(s[i]),
    decreases s.len(),
{
    lemma_seq_sval_len(s);
    if s.len() > 0 && i < s.len() - 1 {
        lemma_seq_sval_index(s.subrange(0, s.len() - 1), i);
    }
}

pub broadcast proof fn lemma_seq_sval_push(s: Seq<Value>, v: Value)
    ensures
        #[trigger] seq_sval(s.push(v)) == seq_sval(s).push(sval(v)),
{
    let t = s.push(v);
    assert(t.subrange(0, t.len() - 1) =~= s);
    assert(seq_sval(s.push(v)) =~= seq_sval(s).push(sval(v)));
}

pub broadcast proof fn lemma_seq_sval_add(a: Seq<Value>, b: Seq<Value>)
    ensures
        #[trigger] seq_sval(a + b) == seq_sval(a) + seq_sval(b),
    decreases b.len(),
{
    lemma_seq_sval_len(a);
    lemma_seq_sval_len(b);
    if b.len() == 0 {
        assert(a + b =~= a);
        assert(seq_sval(a) + seq_sval(b) =~= seq_sval(a));
    } else {
        let b0 = b.subrange(0, b.len() - 1);
        lemma_seq_sval_add(a, b0);
        lemma_seq_sval_push(a + b0, b[b.len() - 1]);
        lemma_seq_sval_push(b0, b[b.len() - 1]);
        assert(a + b =~= (a + b0).push(b[b.len() - 1]));
        assert(b =~= b0.push(b[b.len() - 1]));
        assert(seq_sval(a) + seq_sval(b) =~= (seq_sval(a) + seq_sval(b0)).push(
            sval(b[b.len() - 1]),
        ));
    }
}

pub broadcast proof fn lemma_seq_sval_subrange(s: Seq<Value>, i: int, j: int)
    requires
        0 <= i <= j <= s.len(),
    ensures
        #[trigger] seq_sval(s.subrange(i, j)) == seq_sval(s).subrange(i, j),
{
    broadcast use lemma_seq_sval_len, lemma_seq_sval_index;

    assert(seq_sval(s.subrange(i, j)) =~= seq_sval(s).subrange(i, j));
}

pub broadcast proof fn lemma_seq_sval_insert(s: Seq<Value>, i: int, v: Value)
    requires
        0 <= i <= s.len(),
    ensures
        #[trigger] seq_sval(s.insert(i, v)) == seq_sval(s).insert(i, sval(v)),
{
    broadcast use lemma_seq_sval_len, lemma_seq_sval_index;

    assert(seq_sval(s.insert(i, v)) =~= seq_sval(s).insert(i, sval(v)));
}

} // verus!
