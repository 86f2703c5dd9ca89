//! Standalone entry points fixing the sort direction.

use vstd::prelude::*;

use crate::value::Value;
use crate::value::SpecValue;
use crate::value::Error;
use crate::value::seq_sval;
use crate::order::sorted_asc;
use crate::order::sorted_desc;
use crate::sorting::sort_vec;

verus! {

/// Sorts an array ascending; a non-array value passes through unchanged.
pub fn asc(args: (Value,)) -> (r: Result<Value, Error>)
    ensures
        args.0 matches Value::Array(v) ==> (r matches Ok(out) && out@ matches SpecValue::Array(w)
            && w.to_multiset() == seq_sval(v@).to_multiset() && sorted_asc(w)),
        !(args.0 is Array) ==> r == Ok::<Value, Error>(args.0),
{
    match args.0 {
        Value::Array(v) => Ok(Value::Array(sort_vec(v, true))),
        other => Ok(other),
    }
}

/// Sorts an array descending; a non-array value passes through unchanged.
pub fn desc(args: (Value,)) -> (r: Result<Value, Error>)
    ensures
        args.0 matches Value::Array(v) ==> (r matches Ok(out) && out@ matches SpecValue::Array(w)
            && w.to_multiset() == seq_sval(v@).to_multiset() && sorted_desc(w)),
        !(args.0 is Array) ==> r == Ok::<Value, Error>(args.0),
{
    match args.0 {
        Value::Array(v) => Ok(Value::Array(sort_vec(v, false))),
        other => Ok(other),
    }
}

} // verus!
