use velra::ast::BinaryOp;
use velra::runtime::{
    cursor_advance, cursor_peek_index, int_range, list_pattern_shape, longest_match, eval_ints, is_binding_pattern_name, negate_int, normalize_index, normalize_slice_bound,
    normalize_slice_bounds, require_arity, require_type, safe_index, usize_to_int, IntValue,
    RuntimeError,
};

#[test]
fn integer_arithmetic_is_checked() {
    assert_eq!(eval_ints(40, BinaryOp::Add, 2).unwrap(), IntValue::Int(42));
    assert_eq!(eval_ints(-7, BinaryOp::Divide, 2).unwrap(), IntValue::Int(-3));
    assert_eq!(eval_ints(-7, BinaryOp::Remainder, 2).unwrap(), IntValue::Int(-1));
    assert_eq!(eval_ints(3, BinaryOp::LessEqual, 3).unwrap(), IntValue::Bool(true));
    assert_eq!(eval_ints(3, BinaryOp::Greater, 4).unwrap(), IntValue::Bool(false));
    assert_eq!(eval_ints(i64::MAX, BinaryOp::Add, 1).unwrap_err().message, "integer overflow");
    assert_eq!(eval_ints(i64::MIN, BinaryOp::Divide, -1).unwrap_err().message, "integer overflow");
    assert_eq!(eval_ints(1, BinaryOp::Remainder, 0).unwrap_err().message, "division by zero");
    assert_eq!(negate_int(5).unwrap(), -5);
    assert_eq!(negate_int(i64::MIN).unwrap_err().message, "integer overflow");
}

#[test]
fn indexes_count_from_the_end_when_negative() {
    assert_eq!(safe_index(1, 4), Some(1));
    assert_eq!(safe_index(-2, 4), Some(2));
    assert_eq!(safe_index(-999999, 3), None);
    assert_eq!(safe_index(4, 4), None);
    assert_eq!(normalize_index(-1, 3).unwrap(), 2);
    assert_eq!(
        normalize_index(3, 3).unwrap_err().message,
        "index 3 is out of bounds for length 3"
    );
}

#[test]
fn slices_check_both_bounds() {
    assert_eq!(normalize_slice_bounds(1, 3, 4, false).unwrap(), (1, 3));
    assert_eq!(normalize_slice_bounds(-3, -2, 4, true).unwrap(), (1, 3));
    assert_eq!(
        normalize_slice_bounds(0, 4, 3, false).unwrap_err().message,
        "slice bound 4 is out of bounds for length 3"
    );
    assert_eq!(
        normalize_slice_bounds(2, 1, 3, false).unwrap_err().message,
        "slice start must not exceed slice end"
    );
    assert_eq!(normalize_slice_bound(3, 3, true).unwrap(), 3);
    assert!(normalize_slice_bound(3, 3, false).is_err());
}

#[test]
fn arity_and_type_contracts_report_what_they_expected() {
    assert!(require_arity("len", 1, 1).is_ok());
    assert_eq!(
        require_arity("len", 1, 2).unwrap_err().message,
        "len expects 1 argument, got 2"
    );
    assert_eq!(
        require_arity("push", 2, 0).unwrap_err().message,
        "push expects 2 arguments, got 0"
    );
    assert!(require_type("value", "Number", "Int", false).is_ok());
    assert!(require_type("value", "Int?", "Null", false).is_ok());
    assert!(require_type("value", "Any", "List", false).is_ok());
    assert_eq!(
        require_type("value", "Int", "String", false).unwrap_err().message,
        "'value' expects Int, got String"
    );
}

#[test]
fn binding_names_start_lowercase_or_with_underscore() {
    assert!(is_binding_pattern_name("x"));
    assert!(is_binding_pattern_name("_"));
    assert!(is_binding_pattern_name("δ"));
    assert!(!is_binding_pattern_name("Some"));
    assert!(!is_binding_pattern_name(""));
}

#[test]
fn counts_convert_to_ints() {
    assert_eq!(usize_to_int(7).unwrap(), 7);
    assert_eq!(RuntimeError::new("boom").describe(), "boom");
}

#[test]
fn records_named_like_builtins_do_not_pass_as_builtins() {
    assert!(require_type("value", "Number", "Int", true).is_err());
    assert!(require_type("value", "Int?", "Null", true).is_err());
    assert!(require_type("value", "Int", "Int", true).is_ok());
    assert!(require_type("value", "Any", "Point", true).is_ok());
}

#[test]
fn slice_bounds_stay_in_range() {
    assert_eq!(
        normalize_slice_bounds(20, 25, 10, false).unwrap_err().message,
        "slice bound 20 is out of bounds for length 10"
    );
    // An inclusive end of an empty collection is taken as position 0.
    assert_eq!(normalize_slice_bounds(0, 0, 0, true).unwrap(), (0, 1));
    assert_eq!(
        normalize_slice_bounds(0, 1, 0, true).unwrap_err().message,
        "slice bound 1 is out of bounds for length 0"
    );
    assert_eq!(normalize_slice_bounds(0, 0, 0, false).unwrap(), (0, 0));
    assert_eq!(normalize_slice_bounds(0, -1, 3, true).unwrap(), (0, 3));
}

#[test]
fn list_patterns_count_fixed_items() {
    assert_eq!(list_pattern_shape(3, false, 3).unwrap(), 3);
    assert_eq!(list_pattern_shape(3, true, 5).unwrap(), 2);
    assert_eq!(
        list_pattern_shape(2, false, 3).unwrap_err().message,
        "list destructuring expects 2 values, got 3"
    );
    assert_eq!(
        list_pattern_shape(3, true, 1).unwrap_err().message,
        "list destructuring expects 2 values or more, got 1"
    );
}

#[test]
fn ranges_and_cursor_positions() {
    assert_eq!(int_range(2, 5, false), vec![2, 3, 4]);
    assert_eq!(int_range(2, 5, true), vec![2, 3, 4, 5]);
    assert!(int_range(5, 2, true).is_empty());
    assert_eq!(int_range(i64::MAX - 1, i64::MAX, true), vec![i64::MAX - 1, i64::MAX]);
    assert_eq!(cursor_peek_index(1, 2, 4), Some(3));
    assert_eq!(cursor_peek_index(1, 3, 4), None);
    assert_eq!(cursor_peek_index(1, usize::MAX, 4), None);
    assert_eq!(cursor_advance(1, 2, 4), 3);
    assert_eq!(cursor_advance(3, usize::MAX, 4), 4);
    assert_eq!(longest_match(&vec![None, Some(2), Some(3), Some(3)]), Some(2));
    assert_eq!(longest_match(&vec![None, None]), None);
}
