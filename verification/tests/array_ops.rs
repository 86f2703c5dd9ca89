use array_fnc::value::Error;
use array_fnc::value::Value;

fn num(n: i64) -> Value {
    Value::Number(n)
}

fn text(s: &str) -> Value {
    Value::Strand(s.to_string())
}

fn arr(items: Vec<Value>) -> Value {
    Value::Array(items)
}

fn nums(ns: &[i64]) -> Value {
    arr(ns.iter().map(|n| num(*n)).collect())
}

#[test]
fn combine_pairs_in_major_minor_order() {
    let r = array_fnc::array::combine((nums(&[1, 2]), arr(vec![text("a"), text("b")]))).unwrap();
    let expected = arr(vec![
        arr(vec![num(1), text("a")]),
        arr(vec![num(1), text("b")]),
        arr(vec![num(2), text("a")]),
        arr(vec![num(2), text("b")]),
    ]);
    assert_eq!(r, expected);
}

#[test]
fn combine_with_empty_side_is_empty() {
    let r = array_fnc::array::combine((nums(&[]), nums(&[1, 2]))).unwrap();
    assert_eq!(r, nums(&[]));
    let r = array_fnc::array::combine((nums(&[1, 2]), nums(&[]))).unwrap();
    assert_eq!(r, nums(&[]));
}

#[test]
fn combine_rejects_non_arrays() {
    let r = array_fnc::array::combine((num(1), nums(&[1]))).unwrap();
    assert_eq!(r, Value::Null);
}

#[test]
fn complement_keeps_order_and_duplicates() {
    let r = array_fnc::array::complement((nums(&[1, 2, 2, 3]), nums(&[2]))).unwrap();
    assert_eq!(r, nums(&[1, 3]));
}

#[test]
fn complement_of_empty_second_is_identity() {
    let r = array_fnc::array::complement((nums(&[3, 1, 3]), nums(&[]))).unwrap();
    assert_eq!(r, nums(&[3, 1, 3]));
}

#[test]
fn concat_joins_in_order() {
    let r = array_fnc::array::concat((nums(&[1, 2]), nums(&[2, 3]))).unwrap();
    assert_eq!(r, nums(&[1, 2, 2, 3]));
}

#[test]
fn concat_with_empty_is_other() {
    let r = array_fnc::array::concat((nums(&[]), nums(&[4, 5]))).unwrap();
    assert_eq!(r, nums(&[4, 5]));
    let r = array_fnc::array::concat((nums(&[4, 5]), nums(&[]))).unwrap();
    assert_eq!(r, nums(&[4, 5]));
}

#[test]
fn difference_is_symmetric_strangers() {
    let r = array_fnc::array::difference((nums(&[1, 2, 3]), nums(&[2, 3, 4]))).unwrap();
    assert_eq!(r, nums(&[1, 4]));
}

#[test]
fn difference_without_overlap_equals_concat() {
    let r = array_fnc::array::difference((nums(&[1, 2]), nums(&[3, 4]))).unwrap();
    assert_eq!(r, nums(&[1, 2, 3, 4]));
}

#[test]
fn intersect_keeps_first_array_order() {
    let r = array_fnc::array::intersect((nums(&[1, 2, 3, 2]), nums(&[2, 3, 5]))).unwrap();
    assert_eq!(r, nums(&[2, 3, 2]));
}

#[test]
fn intersect_without_overlap_is_empty() {
    let r = array_fnc::array::intersect((nums(&[1, 2]), nums(&[3]))).unwrap();
    assert_eq!(r, nums(&[]));
}

#[test]
fn union_collapses_duplicates_first_seen_order() {
    let r = array_fnc::array::union((nums(&[1, 2, 2]), nums(&[2, 3, 1]))).unwrap();
    assert_eq!(r, nums(&[1, 2, 3]));
}

#[test]
fn union_of_identical_arrays_keeps_one_copy() {
    let r = array_fnc::array::union((nums(&[4, 4, 5]), nums(&[4, 4, 5]))).unwrap();
    assert_eq!(r, nums(&[4, 5]));
}

#[test]
fn union_length_bounded_and_elements_covered() {
    let r = array_fnc::array::union((nums(&[1, 2, 2]), nums(&[3, 2]))).unwrap();
    match r {
        Value::Array(items) => {
            assert!(items.len() <= 5);
            for item in &items {
                assert!(matches!(item, Value::Number(1 | 2 | 3)));
            }
        }
        _ => panic!("union of arrays must be an array"),
    }
}

#[test]
fn distinct_removes_later_duplicates() {
    let r = array_fnc::array::distinct((nums(&[3, 1, 3, 2, 1]),)).unwrap();
    assert_eq!(r, nums(&[3, 1, 2]));
}

#[test]
fn distinct_is_idempotent_on_samples() {
    let once = array_fnc::array::distinct((nums(&[5, 5, 6, 5]),)).unwrap();
    assert_eq!(once, nums(&[5, 6]));
    let again = array_fnc::array::distinct((nums(&[5, 5, 6, 5]),)).unwrap();
    let twice = array_fnc::array::distinct((again,)).unwrap();
    assert_eq!(once, twice);
}

#[test]
fn distinct_of_empty_and_singleton_is_noop() {
    assert_eq!(array_fnc::array::distinct((nums(&[]),)).unwrap(), nums(&[]));
    assert_eq!(array_fnc::array::distinct((nums(&[7]),)).unwrap(), nums(&[7]));
}

#[test]
fn distinct_of_non_array_is_null() {
    let r = array_fnc::array::distinct((text("x"),)).unwrap();
    assert_eq!(r, Value::Null);
}

#[test]
fn complement_and_intersect_partition_the_first_array() {
    let a = [1, 2, 2, 3, 5];
    let b = [2, 5, 9];
    let comp = array_fnc::array::complement((nums(&a), nums(&b))).unwrap();
    let inter = array_fnc::array::intersect((nums(&a), nums(&b))).unwrap();
    assert_eq!(comp, nums(&[1, 3]));
    assert_eq!(inter, nums(&[2, 2, 5]));
    // every occurrence of the first array lands in exactly one of the two
    match (comp, inter) {
        (Value::Array(c), Value::Array(i)) => assert_eq!(c.len() + i.len(), a.len()),
        _ => panic!("both results must be arrays"),
    }
}

#[test]
fn flatten_removes_one_level() {
    let input = arr(vec![num(1), nums(&[2, 3]), num(4)]);
    let r = array_fnc::array::flatten((input,)).unwrap();
    assert_eq!(r, nums(&[1, 2, 3, 4]));
}

#[test]
fn flatten_keeps_deeper_nesting() {
    let input = arr(vec![num(1), arr(vec![num(2), nums(&[3])]), num(4)]);
    let r = array_fnc::array::flatten((input,)).unwrap();
    assert_eq!(r, arr(vec![num(1), num(2), nums(&[3]), num(4)]));
}

#[test]
fn flatten_without_nesting_is_identity() {
    let r = array_fnc::array::flatten((nums(&[1, 2]),)).unwrap();
    assert_eq!(r, nums(&[1, 2]));
}

#[test]
fn len_counts_elements() {
    let r = array_fnc::array::len((nums(&[4, 5, 6]),)).unwrap();
    assert_eq!(r, num(3));
    let r = array_fnc::array::len((nums(&[]),)).unwrap();
    assert_eq!(r, num(0));
}

#[test]
fn len_of_non_array_is_null() {
    let r = array_fnc::array::len((Value::Bool(true),)).unwrap();
    assert_eq!(r, Value::Null);
}

#[test]
fn insert_at_index_shifts_right() {
    let r = array_fnc::array::insert(vec![nums(&[1, 2, 3]), num(9), num(1)]).unwrap();
    assert_eq!(r, nums(&[1, 9, 2, 3]));
}

#[test]
fn insert_negative_index_counts_from_end() {
    let r = array_fnc::array::insert(vec![nums(&[1, 2, 3]), num(9), num(-1)]).unwrap();
    assert_eq!(r, nums(&[1, 2, 9, 3]));
}

#[test]
fn insert_out_of_range_is_noop() {
    let r = array_fnc::array::insert(vec![nums(&[1, 2, 3]), num(9), num(10)]).unwrap();
    assert_eq!(r, nums(&[1, 2, 3]));
    let r = array_fnc::array::insert(vec![nums(&[1, 2, 3]), num(9), num(-7)]).unwrap();
    assert_eq!(r, nums(&[1, 2, 3]));
}

#[test]
fn insert_without_index_appends() {
    let r = array_fnc::array::insert(vec![nums(&[1, 2, 3]), num(9)]).unwrap();
    assert_eq!(r, nums(&[1, 2, 3, 9]));
}

#[test]
fn insert_at_length_appends() {
    let r = array_fnc::array::insert(vec![nums(&[1, 2]), num(9), num(2)]).unwrap();
    assert_eq!(r, nums(&[1, 2, 9]));
}

#[test]
fn insert_with_one_argument_is_arity_error() {
    let r = array_fnc::array::insert(vec![nums(&[1, 2, 3])]);
    match r {
        Err(Error::InvalidArguments { name, message }) => {
            assert_eq!(name, "array::insert");
            assert_eq!(message, "Expected at least two argument");
        }
        _ => panic!("one argument must be an arity error"),
    }
}

#[test]
fn insert_into_non_array_is_null() {
    let r = array_fnc::array::insert(vec![num(1), num(9), num(0)]).unwrap();
    assert_eq!(r, Value::Null);
}

#[test]
fn insert_with_strange_index_is_null() {
    let r = array_fnc::array::insert(vec![nums(&[1]), num(9), text("here")]).unwrap();
    assert_eq!(r, Value::Null);
}
