use array_fnc::value::Value;

fn num(n: i64) -> Value {
    Value::Number(n)
}

fn text(s: &str) -> Value {
    Value::Strand(s.to_string())
}

fn arr(items: Vec<Value>) -> Value {
    Value::Array(items)
}

fn nums(ns: &[i64]) -> Value {
    arr(ns.iter().map(|n| num(*n)).collect())
}

#[test]
fn sort_defaults_to_ascending() {
    let r = array_fnc::array::sort((nums(&[3, 1, 2]), None)).unwrap();
    assert_eq!(r, nums(&[1, 2, 3]));
}

#[test]
fn sort_asc_keyword() {
    let r = array_fnc::array::sort((nums(&[3, 1, 2]), Some(text("asc")))).unwrap();
    assert_eq!(r, nums(&[1, 2, 3]));
}

#[test]
fn sort_desc_keyword() {
    let r = array_fnc::array::sort((nums(&[3, 1, 2]), Some(text("desc")))).unwrap();
    assert_eq!(r, nums(&[3, 2, 1]));
}

#[test]
fn sort_boolean_directives() {
    let r = array_fnc::array::sort((nums(&[2, 1]), Some(Value::Bool(true)))).unwrap();
    assert_eq!(r, nums(&[1, 2]));
    let r = array_fnc::array::sort((nums(&[1, 2]), Some(Value::Bool(false)))).unwrap();
    assert_eq!(r, nums(&[2, 1]));
}

#[test]
fn sort_unrecognized_directive_falls_back_to_ascending() {
    let r = array_fnc::array::sort((nums(&[2, 3, 1]), Some(text("sideways")))).unwrap();
    assert_eq!(r, nums(&[1, 2, 3]));
    let r = array_fnc::array::sort((nums(&[2, 3, 1]), Some(num(7)))).unwrap();
    assert_eq!(r, nums(&[1, 2, 3]));
}

#[test]
fn sort_of_non_array_passes_through() {
    let r = array_fnc::array::sort((text("not an array"), None)).unwrap();
    assert_eq!(r, text("not an array"));
}

#[test]
fn sort_keeps_duplicates() {
    let r = array_fnc::array::sort((nums(&[2, 1, 2, 1]), None)).unwrap();
    assert_eq!(r, nums(&[1, 1, 2, 2]));
}

#[test]
fn sort_ranks_variants_null_bool_number_string_array() {
    let input = arr(vec![text("b"), num(3), Value::Null, Value::Bool(true), nums(&[1])]);
    let r = array_fnc::array::sort((input, None)).unwrap();
    let expected = arr(vec![Value::Null, Value::Bool(true), num(3), text("b"), nums(&[1])]);
    assert_eq!(r, expected);
}

#[test]
fn sort_strings_lexicographically() {
    let input = arr(vec![text("pear"), text("apple"), text("app")]);
    let r = array_fnc::array::sort((input, None)).unwrap();
    assert_eq!(r, arr(vec![text("app"), text("apple"), text("pear")]));
}

#[test]
fn sort_nested_arrays_lexicographically() {
    let input = arr(vec![nums(&[2]), nums(&[1, 5]), nums(&[1])]);
    let r = array_fnc::array::sort((input, None)).unwrap();
    assert_eq!(r, arr(vec![nums(&[1]), nums(&[1, 5]), nums(&[2])]));
}

#[test]
fn asc_entry_point_sorts_ascending() {
    let r = array_fnc::array::sort::asc((nums(&[2, 3, 1]),)).unwrap();
    assert_eq!(r, nums(&[1, 2, 3]));
}

#[test]
fn desc_entry_point_sorts_descending() {
    let r = array_fnc::array::sort::desc((nums(&[2, 3, 1]),)).unwrap();
    assert_eq!(r, nums(&[3, 2, 1]));
}

#[test]
fn asc_and_desc_pass_non_arrays_through() {
    assert_eq!(array_fnc::array::sort::asc((num(4),)).unwrap(), num(4));
    assert_eq!(array_fnc::array::sort::desc((text("x"),)).unwrap(), text("x"));
}

#[test]
fn sorting_distinct_values_both_ways_reverses() {
    let asc = array_fnc::array::sort((nums(&[4, 1, 3]), Some(text("asc")))).unwrap();
    let desc = array_fnc::array::sort((nums(&[4, 1, 3]), Some(text("desc")))).unwrap();
    match (asc, desc) {
        (Value::Array(a), Value::Array(d)) => {
            let reversed: Vec<Value> = d.into_iter().rev().collect();
            assert_eq!(a, reversed);
        }
        _ => panic!("sorting arrays must give arrays"),
    }
}
