//! The interpreter's behaviour on whole source lines.

use woflang_runtime::error::WofError;
use woflang_runtime::interp::Interpreter;
use woflang_runtime::registry::Op;
use woflang_runtime::value::{Value, DOUBLE_SCALE};

fn make_interp() -> Interpreter {
    let mut interp = Interpreter::new();
    interp.register("+", Op::Add);
    interp.register("-", Op::Sub);
    interp.register("dup", Op::Dup);
    interp.register("drop", Op::Drop);
    interp.register("swap", Op::Swap);
    interp
}

fn pop_integer(interp: &mut Interpreter) -> i64 {
    interp.stack_mut().pop_integer().unwrap()
}

#[test]
fn exec_arithmetic() {
    let mut interp = make_interp();
    interp.exec_line("5 3 +").unwrap();

    let result = interp.stack_mut().pop_numeric().unwrap();
    assert_eq!(result, 8 * DOUBLE_SCALE);
}

#[test]
fn exec_stack_ops() {
    let mut interp = make_interp();
    interp.exec_line("42 dup").unwrap();

    assert_eq!(interp.stack().len(), 2);
    assert_eq!(pop_integer(&mut interp), 42);
    assert_eq!(pop_integer(&mut interp), 42);
}

#[test]
fn exec_swap() {
    let mut interp = make_interp();
    interp.exec_line("1 2 swap").unwrap();

    assert_eq!(pop_integer(&mut interp), 1);
    assert_eq!(pop_integer(&mut interp), 2);
}

#[test]
fn unknown_symbol_pushed() {
    let mut interp = make_interp();
    interp.exec_line("undefined_op").unwrap();

    let val = interp.pop().unwrap();
    assert_eq!(val.as_str().unwrap(), "undefined_op");
}

#[test]
fn parse_string_literal() {
    let mut interp = make_interp();
    interp.exec_line(r#""hello world""#).unwrap();

    let val = interp.pop().unwrap();
    assert_eq!(val.as_str().unwrap(), "hello world");
}

#[test]
fn empty_line_noop() {
    let mut interp = make_interp();
    interp.exec_line("").unwrap();
    interp.exec_line("   ").unwrap();

    assert!(interp.stack().is_empty());
}

#[test]
fn subtraction_gives_double() {
    let mut interp = make_interp();
    interp.exec_line("10 4 -").unwrap();

    assert_eq!(interp.pop().unwrap().as_double().unwrap(), 6 * DOUBLE_SCALE);
}

#[test]
fn float_literal_parses_to_billionths() {
    let mut interp = make_interp();
    interp.exec_line("2.5").unwrap();

    assert_eq!(interp.pop().unwrap().as_double().unwrap(), 2_500_000_000);
}

#[test]
fn negative_integer_literal() {
    let mut interp = make_interp();
    interp.exec_line("-7").unwrap();

    assert_eq!(pop_integer(&mut interp), -7);
}

#[test]
fn oversized_integer_is_parse_error() {
    let mut interp = make_interp();
    let err = interp.exec_line("99999999999999999999").unwrap_err();
    assert_eq!(err, WofError::Parse);
}

#[test]
fn mixed_numeric_addition() {
    let mut interp = make_interp();
    interp.exec_line("1.5 2 +").unwrap();

    assert_eq!(interp.pop().unwrap().as_double().unwrap(), 3_500_000_000);
}

#[test]
fn add_on_empty_stack_underflows() {
    let mut interp = make_interp();
    let err = interp.exec_line("+").unwrap_err();
    assert_eq!(err, WofError::StackUnderflow);
}

#[test]
fn swap_needs_two_values() {
    let mut interp = make_interp();
    let err = interp.exec_line("1 swap").unwrap_err();
    assert_eq!(err, WofError::StackUnderflow);
}

#[test]
fn add_on_text_is_type_mismatch() {
    let mut interp = make_interp();
    let err = interp.exec_line(r#"5 "hi" +"#).unwrap_err();
    assert_eq!(err, WofError::TypeMismatch);
}

#[test]
fn string_escapes_decode() {
    let mut interp = make_interp();
    interp.exec_line(r#""a\nb\t\"c\"""#).unwrap();

    assert_eq!(interp.pop().unwrap().as_str().unwrap(), "a\nb\t\"c\"");
}

#[test]
fn label_definition_is_noop() {
    let mut interp = make_interp();
    interp.exec_line(":target").unwrap();
    assert!(interp.stack().is_empty());
}

#[test]
fn label_reference_pushes_tagged_symbol() {
    let mut interp = make_interp();
    interp.exec_line("@target").unwrap();
    assert_eq!(interp.pop().unwrap().as_str().unwrap(), "@target");
}

#[test]
fn reregistering_a_name_replaces_it() {
    let mut interp = make_interp();
    interp.register("+", Op::Sub);
    interp.exec_line("5 3 +").unwrap();

    assert_eq!(interp.pop().unwrap().as_double().unwrap(), 2 * DOUBLE_SCALE);
}

#[test]
fn drop_discards_top() {
    let mut interp = make_interp();
    interp.exec_line("1 2 drop").unwrap();

    assert_eq!(interp.stack().len(), 1);
    assert_eq!(pop_integer(&mut interp), 1);
}

#[test]
fn quoted_string_keeps_inner_spaces() {
    let mut interp = make_interp();
    interp.exec_line(r#""one  two" 3"#).unwrap();

    assert_eq!(pop_integer(&mut interp), 3);
    assert_eq!(interp.pop().unwrap().as_str().unwrap(), "one  two");
}

#[test]
fn push_and_peek_values() {
    let mut interp = make_interp();
    interp.push(Value::Integer(11));
    assert!(interp.has(1));
    assert_eq!(interp.peek().unwrap().as_integer().unwrap(), 11);
    interp.clear();
    assert!(interp.stack().is_empty());
}

#[test]
fn mutable_accessors_reach_the_parts() {
    let mut interp = Interpreter::new();
    interp.registry_mut().register("twice", Op::Dup);
    interp.stack_mut().push(Value::Integer(4));
    interp.exec_line("twice").unwrap();
    assert_eq!(interp.stack().len(), 2);
    interp
        .scopes_mut()
        .define("n".to_string(), Value::Integer(1));
    assert!(interp.has_var("n"));
}

#[test]
fn return_stack_round_trip() {
    let mut interp = make_interp();
    interp.push_return(5);
    interp.push_return(9);
    assert_eq!(interp.pop_return(), Some(9));
    assert_eq!(interp.pop_return(), Some(5));
    assert_eq!(interp.pop_return(), None);
}
