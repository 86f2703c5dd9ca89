//! The array function library: argument-shape validation, dispatch to the
//! set and sequence algorithms, and result packaging.
//!
//! Every operation that needs an array accepts any value: a wrongly typed
//! argument yields the null sentinel (or, for `sort`, the value unchanged)
//! instead of an error.  Only `insert` reports an error, and only for too
//! few arguments.

pub mod sort;

use vstd::prelude::*;

use crate::value::Value;
use crate::value::SpecValue;
use crate::value::Error;
use crate::value::sval;
use crate::value::seq_sval;
use crate::value::lemma_seq_sval_len;
use crate::value::lemma_seq_sval_add;
use crate::value::lemma_seq_sval_insert;
use crate::value::lemma_seq_sval_push;
use crate::seqops::uniq;
use crate::seqops::restrict;
use crate::seqops::flatten_one;
use crate::seqops::vec_uniq;
use crate::seqops::vec_restrict;
use crate::seqops::vec_flatten;
use crate::seqops::vec_combine;
use crate::seqops::clone_vec;

verus! {

/// What `combine` returns: every pairing as a two-element array, or the
/// null sentinel when either argument is no array.
pub open spec fn combine_result(x: SpecValue, y: SpecValue) -> SpecValue {
    match (x, y) {
        (SpecValue::Array(a), SpecValue::Array(b)) => SpecValue::Array(crate::seqops::combine(a, b)),
        _ => SpecValue::Null,
    }
}

/// What `complement` returns: the elements of the first array not found in
/// the second, in order, duplicates kept.
pub open spec fn complement_result(x: SpecValue, y: SpecValue) -> SpecValue {
    match (x, y) {
        (SpecValue::Array(a), SpecValue::Array(b)) => SpecValue::Array(restrict(a, b, false)),
        _ => SpecValue::Null,
    }
}

/// What `concat` returns: the first array followed by the second.
pub open spec fn concat_result(x: SpecValue, y: SpecValue) -> SpecValue {
    match (x, y) {
        (SpecValue::Array(a), SpecValue::Array(b)) => SpecValue::Array(a + b),
        _ => SpecValue::Null,
    }
}

/// What `difference` returns: the elements in exactly one of the two
/// arrays, the first array's strangers first.
pub open spec fn difference_result(x: SpecValue, y: SpecValue) -> SpecValue {
    match (x, y) {
        (SpecValue::Array(a), SpecValue::Array(b)) => SpecValue::Array(
            restrict(a, b, false) + restrict(b, a, false),
        ),
        _ => SpecValue::Null,
    }
}

/// What `distinct` returns: the array without duplicates, first-seen order.
pub open spec fn distinct_result(x: SpecValue) -> SpecValue {
    match x {
        SpecValue::Array(a) => SpecValue::Array(uniq(a)),
        _ => SpecValue::Null,
    }
}

/// What `flatten` returns: one level of nesting removed.
pub open spec fn flatten_result(x: SpecValue) -> SpecValue {
    match x {
        SpecValue::Array(a) => SpecValue::Array(flatten_one(a)),
        _ => SpecValue::Null,
    }
}

/// What `intersect` returns: the elements of the first array found in the
/// second, in the first array's order.
pub open spec fn intersect_result(x: SpecValue, y: SpecValue) -> SpecValue {
    match (x, y) {
        (SpecValue::Array(a), SpecValue::Array(b)) => SpecValue::Array(restrict(a, b, true)),
        _ => SpecValue::Null,
    }
}

/// What `len` returns: the element count as a number.
pub open spec fn len_result(x: SpecValue) -> SpecValue {
    match x {
        SpecValue::Array(a) => SpecValue::Number(a.len() as int),
        _ => SpecValue::Null,
    }
}

/// What `union` returns: the distinct elements of both arrays, the first
/// array's elements first.
pub open spec fn union_result(x: SpecValue, y: SpecValue) -> SpecValue {
    match (x, y) {
        (SpecValue::Array(a), SpecValue::Array(b)) => SpecValue::Array(uniq(a + b)),
        _ => SpecValue::Null,
    }
}

/// What `insert` returns once at least two arguments arrived: the array
/// with the datum inserted at the (possibly end-relative) index, the array
/// unchanged for an out-of-range index, an append without an index, and
/// the null sentinel for wrongly typed arguments.
pub open spec fn insert_result(args: Seq<Value>) -> SpecValue {
    let data = sval(args[1]);
    let index = if args.len() >= 3 {
        sval(args[2])
    } else {
        SpecValue::Null
    };
    match (sval(args[0]), index) {
        (SpecValue::Array(a), SpecValue::Number(n)) => {
            let pos = if n < 0 {
                n + a.len()
            } else {
                n
            };
            if 0 <= pos <= a.len() {
                SpecValue::Array(a.insert(pos, data))
            } else {
                SpecValue::Array(a)
            }
        },
        (SpecValue::Array(a), SpecValue::Null) => SpecValue::Array(a.push(data)),
        _ => SpecValue::Null,
    }
}

/// Pairs every element of the first array with every element of the second.
pub fn combine(arrays: (Value, Value)) -> (r: Result<Value, Error>)
    ensures
        r matches Ok(out) && out@ == combine_result(arrays.0@, arrays.1@),
{
    match arrays {
        (Value::Array(v), Value::Array(w)) => {
            let c = vec_combine(&v, &w);
            Ok(Value::Array(c))
        },
        _ => Ok(Value::Null),
    }
}

/// Keeps the elements of the first array that the second lacks.
pub fn complement(arrays: (Value, Value)) -> (r: Result<Value, Error>)
    ensures
        r matches Ok(out) && out@ == complement_result(arrays.0@, arrays.1@),
{
    match arrays {
        (Value::Array(v), Value::Array(w)) => Ok(Value::Array(vec_restrict(v, &w, false))),
        _ => Ok(Value::Null),
    }
}

/// Concatenates two arrays, order and duplicates preserved.
pub fn concat(arrays: (Value, Value)) -> (r: Result<Value, Error>)
    ensures
        r matches Ok(out) && out@ == concat_result(arrays.0@, arrays.1@),
{
    match arrays {
        (Value::Array(mut v), Value::Array(mut w)) => {
            let ghost vs = v@;
            let ghost ws = w@;
            v.append(&mut w);
            proof {
                lemma_seq_sval_add(vs, ws);
            }
            Ok(Value::Array(v))
        },
        _ => Ok(Value::Null),
    }
}

/// The symmetric difference of two arrays: elements in exactly one of them.
pub fn difference(arrays: (Value, Value)) -> (r: Result<Value, Error>)
    ensures
        r matches Ok(out) && out@ == difference_result(arrays.0@, arrays.1@),
{
    match arrays {
        (Value::Array(v), Value::Array(w)) => {
            let vcopy = clone_vec(&v);
            let mut left = vec_restrict(vcopy, &w, false);
            let ghost ls = left@;
            let mut right = vec_restrict(w, &v, false);
            let ghost rs = right@;
            left.append(&mut right);
            proof {
                lemma_seq_sval_add(ls, rs);
            }
            Ok(Value::Array(left))
        },
        _ => Ok(Value::Null),
    }
}

/// Removes duplicate elements, keeping first-seen order.
pub fn distinct(args: (Value,)) -> (r: Result<Value, Error>)
    ensures
        r matches Ok(out) && out@ == distinct_result(args.0@),
{
    match args.0 {
        Value::Array(v) => Ok(Value::Array(vec_uniq(v))),
        _ => Ok(Value::Null),
    }
}

/// Removes one level of array nesting.
pub fn flatten(args: (Value,)) -> (r: Result<Value, Error>)
    ensures
        r matches Ok(out) && out@ == flatten_result(args.0@),
{
    match args.0 {
        Value::Array(v) => Ok(Value::Array(vec_flatten(v))),
        _ => Ok(Value::Null),
    }
}

/// Keeps the elements of the first array that the second also holds.
pub fn intersect(arrays: (Value, Value)) -> (r: Result<Value, Error>)
    ensures
        r matches Ok(out) && out@ == intersect_result(arrays.0@, arrays.1@),
{
    match arrays {
        (Value::Array(v), Value::Array(w)) => Ok(Value::Array(vec_restrict(v, &w, true))),
        _ => Ok(Value::Null),
    }
}

/// The element count of an array, as a number value.
pub fn len(args: (Value,)) -> (r: Result<Value, Error>)
    requires
        args.0 matches Value::Array(v) ==> v@.len() <= i64::MAX,
    ensures
        r matches Ok(out) && out@ == len_result(args.0@),
{
    match args.0 {
        Value::Array(v) => {
            proof {
                lemma_seq_sval_len(v@);
            }
            Ok(Value::Number(v.len() as i64))
        },
        _ => Ok(Value::Null),
    }
}

/// The distinct elements present in either array, the first array's
/// elements first.
pub fn union(arrays: (Value, Value)) -> (r: Result<Value, Error>)
    ensures
        r matches Ok(out) && out@ == union_result(arrays.0@, arrays.1@),
{
    match arrays {
        (Value::Array(mut v), Value::Array(mut w)) => {
            let ghost vs = v@;
            let ghost ws = w@;
            v.append(&mut w);
            proof {
                lemma_seq_sval_add(vs, ws);
            }
            Ok(Value::Array(vec_uniq(v)))
        },
        _ => Ok(Value::Null),
    }
}

/// Inserts a datum into an array at an optional index: a negative index
/// counts from the end, an out-of-range index leaves the array unchanged,
/// and a missing index appends.  Fewer than two arguments is an arity
/// error naming `array::insert`.
pub fn insert(args: Vec<Value>) -> (r: Result<Value, Error>)
    requires
        args@.len() >= 1 ==> (args@[0] matches Value::Array(v) ==> v@.len() <= i64::MAX),
    ensures
        args@.len() < 2 ==> (r matches Err(e) && e matches Error::InvalidArguments {
            name,
            message,
        } && name@ == "array::insert"@ && message@ == "Expected at least two argument"@),
        args@.len() >= 2 ==> (r matches Ok(out) && out@ == insert_result(args@)),
{
    broadcast use lemma_seq_sval_len;

    if args.len() < 2 {
        return Err(
            Error::InvalidArguments {
                name: "array::insert".to_owned(),
                message: "Expected at least two argument".to_owned(),
            },
        );
    }
    let ghost args0 = args@;
    let mut args = args;
    let array = args.remove(0);
    let data = args.remove(0);
    let index = if args.len() > 0 {
        args.remove(0)
    } else {
        Value::Null
    };
    proof {
        assert(array == args0[0]);
        assert(data == args0[1]);
        assert(args0.len() >= 3 ==> index == args0[2]);
    }
    match (array, index) {
        (Value::Array(mut v), Value::Number(n)) => {
            let ghost a = seq_sval(v@);
            let mut pos: i64 = n;
            if pos < 0 {
                pos = pos + v.len() as i64;
            }
            if pos > v.len() as i64 || pos < 0 {
                Ok(Value::Array(v))
            } else {
                let ghost vs = v@;
                v.insert(pos as usize, data);
                proof {
                    lemma_seq_sval_insert(vs, pos as int, data);
                }
                Ok(Value::Array(v))
            }
        },
        (Value::Array(mut v), Value::Null) => {
            let ghost vs = v@;
            v.push(data);
            proof {
                lemma_seq_sval_push(vs, data);
            }
            Ok(Value::Array(v))
        },
        (_, _) => Ok(Value::Null),
    }
}

/// Whether the optional order directive asks for descending order: the
/// string "desc" or the boolean false do; everything else, the string
/// "asc" and an absent directive included, falls back to ascending.
pub open spec fn desc_directive(order: Option<Value>) -> bool {
    match order {
        Option::Some(v) => match sval(v) {
            SpecValue::Strand(s) => s == "desc"@,
            SpecValue::Bool(b) => !b,
            _ => false,
        },
        Option::None => false,
    }
}

fn is_desc(order: &Option<Value>) -> (r: bool)
    ensures
        r == desc_directive(*order),
{
    match order {
        Option::Some(Value::Strand(s)) => {
            let d: String = "desc".to_owned();
            s.eq(&d)
        },
        Option::Some(Value::Bool(b)) => !*b,
        _ => false,
    }
}

/// Sorts an array by the total order; the optional directive picks the
/// direction, anything unrecognized meaning ascending.  A non-array value
/// passes through unchanged.
pub fn sort(args: (Value, Option<Value>)) -> (r: Result<Value, Error>)
    ensures
        args.0 matches Value::Array(v) ==> (r matches Ok(out) && out@ matches SpecValue::Array(w)
            && w.to_multiset() == seq_sval(v@).to_multiset() && crate::sorting::sorted_dir(
            w,
            !desc_directive(args.1),
        )),
        !(args.0 is Array) ==> r == Ok::<Value, Error>(args.0),
{
    match args {
        (Value::Array(v), order) => {
            let desc = is_desc(&order);
            Ok(Value::Array(crate::sorting::sort_vec(v, !desc)))
        },
        (other, _) => Ok(other),
    }
}

} // verus!
