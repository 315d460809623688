//! Variables, scopes and structured control flow.

use woflang_runtime::block::BlockType;
use woflang_runtime::error::WofError;
use woflang_runtime::interp::Interpreter;
use woflang_runtime::registry::Op;
use woflang_runtime::value::Value;

fn make_interp() -> Interpreter {
    let mut interp = Interpreter::new();
    interp.register("+", Op::Add);
    interp.register("dup", Op::Dup);
    interp
}

fn pop_integer(interp: &mut Interpreter) -> i64 {
    interp.stack_mut().pop_integer().unwrap()
}

#[test]
fn define_then_load_round_trip() {
    let mut interp = make_interp();
    interp.exec_line("7 define x").unwrap();
    interp.exec_line("load x").unwrap();

    assert_eq!(pop_integer(&mut interp), 7);
}

#[test]
fn define_and_load_alias_keywords() {
    let mut interp = make_interp();
    interp.exec_line("3 字 y").unwrap();
    interp.exec_line("読 y").unwrap();

    assert_eq!(pop_integer(&mut interp), 3);
}

#[test]
fn auto_load_pushes_bound_value() {
    let mut interp = make_interp();
    interp.exec_line("9 define z").unwrap();
    interp.exec_line("z").unwrap();

    assert_eq!(pop_integer(&mut interp), 9);
}

#[test]
fn binding_dies_when_block_closes() {
    let mut interp = make_interp();
    interp.exec_line("⺆ 5 define inner ⺘").unwrap();

    let err = interp.exec_line("load inner").unwrap_err();
    assert_eq!(err, WofError::UndefinedVariable);
}

#[test]
fn set_overwrites_existing_binding() {
    let mut interp = make_interp();
    interp.exec_line("5 define x").unwrap();
    interp.exec_line("9 set x").unwrap();
    interp.exec_line("x").unwrap();

    assert_eq!(pop_integer(&mut interp), 9);
}

#[test]
fn set_unbound_is_undefined_variable() {
    let mut interp = make_interp();
    let err = interp.exec_line("5 set nowhere").unwrap_err();
    assert_eq!(err, WofError::UndefinedVariable);
}

#[test]
fn load_without_name_is_usage_error() {
    let mut interp = make_interp();
    let err = interp.exec_line("load").unwrap_err();
    assert_eq!(err, WofError::Usage);
}

#[test]
fn load_before_non_symbol_is_usage_error() {
    let mut interp = make_interp();
    let err = interp.exec_line("load 5").unwrap_err();
    assert_eq!(err, WofError::Usage);
}

#[test]
fn define_pops_the_stack_value() {
    let mut interp = make_interp();
    let err = interp.exec_line("define x").unwrap_err();
    assert_eq!(err, WofError::StackUnderflow);
}

#[test]
fn true_branch_runs_then_body_only() {
    let mut interp = make_interp();
    interp.exec_line("1 if 10 else 20 ⺘").unwrap();

    assert_eq!(interp.stack().len(), 1);
    assert_eq!(pop_integer(&mut interp), 10);
}

#[test]
fn false_branch_runs_else_body_only() {
    let mut interp = make_interp();
    interp.exec_line("0 if 10 else 20 ⺘").unwrap();

    assert_eq!(interp.stack().len(), 1);
    assert_eq!(pop_integer(&mut interp), 20);
}

#[test]
fn cjk_conditional_keywords() {
    let mut interp = make_interp();
    interp.exec_line("1 若 10 或 20 ⺘").unwrap();

    assert_eq!(pop_integer(&mut interp), 10);
}

#[test]
fn nested_conditionals_in_skipped_branch_have_no_effect() {
    let mut interp = make_interp();
    interp
        .exec_line("0 if 1 if 100 else 200 ⺘ 0 if 300 else 400 ⺘ else ⺘")
        .unwrap();

    assert!(interp.stack().is_empty());
    assert_eq!(interp.block_depth(), 0);
    assert_eq!(interp.scopes().depth(), 1);
}

#[test]
fn empty_string_is_falsy() {
    let mut interp = make_interp();
    interp.exec_line(r#""" if 1 else 2 ⺘"#).unwrap();

    assert_eq!(pop_integer(&mut interp), 2);
}

#[test]
fn nonempty_symbol_is_truthy() {
    let mut interp = make_interp();
    interp.exec_line("something if 1 else 2 ⺘").unwrap();

    assert_eq!(pop_integer(&mut interp), 1);
}

#[test]
fn if_on_empty_stack_underflows() {
    let mut interp = make_interp();
    let err = interp.exec_line("if 1 ⺘").unwrap_err();
    assert_eq!(err, WofError::StackUnderflow);
}

#[test]
fn balanced_blocks_restore_scope_depth() {
    let mut interp = make_interp();
    assert_eq!(interp.scopes().depth(), 1);
    interp.exec_line("⺆ 1 define a ⺆ 2 define b ⺘ ⺘").unwrap();

    assert_eq!(interp.scopes().depth(), 1);
    assert_eq!(interp.block_depth(), 0);
}

#[test]
fn generated_balanced_nestings_keep_scope_depth() {
    // a small linear-congruential generator drives random well-formed
    // nestings of block-open, if/else and close constructs
    let mut seed: u64 = 0x2545F4914F6CDD1D;
    for _ in 0..25 {
        let mut program = String::new();
        let mut depth = 0;
        let mut steps = 0;
        while steps < 40 {
            seed = seed.wrapping_mul(6364136223846793005).wrapping_add(1442695040888963407);
            let roll = (seed >> 33) % 6;
            match roll {
                0 => program.push_str("⺆ "),
                1 => {
                    let cond = (seed >> 7) % 2;
                    program.push_str(if cond == 0 { "0 if " } else { "1 if " });
                }
                2 | 3 if depth > 0 => {
                    program.push_str("⺘ ");
                    depth -= 1;
                    steps += 1;
                    continue;
                }
                _ => {
                    program.push_str("7 drop ");
                    steps += 1;
                    continue;
                }
            }
            depth += 1;
            steps += 1;
        }
        for _ in 0..depth {
            program.push_str("⺘ ");
        }
        let mut interp = Interpreter::new();
        interp.register("drop", Op::Drop);
        interp.exec_line(&program).unwrap();
        assert_eq!(interp.scopes().depth(), 1, "program: {program}");
        assert_eq!(interp.block_depth(), 0, "program: {program}");
    }
}

#[test]
fn close_without_open_is_noop() {
    let mut interp = make_interp();
    interp.exec_line("⺘").unwrap();
    assert_eq!(interp.scopes().depth(), 1);
}

#[test]
fn shadowing_uses_innermost_binding() {
    let mut interp = make_interp();
    interp.exec_line("1 define x ⺆ 2 define x x ⺘").unwrap();

    assert_eq!(pop_integer(&mut interp), 2);
    interp.exec_line("x").unwrap();
    assert_eq!(pop_integer(&mut interp), 1);
}

#[test]
fn direct_variable_api() {
    let mut interp = make_interp();
    interp.define_var("k", Value::Integer(4));
    assert!(interp.has_var("k"));
    assert_eq!(interp.get_var("k").unwrap().as_integer().unwrap(), 4);
    interp.set_var("k", Value::Integer(6)).unwrap();
    assert_eq!(interp.get_var("k").unwrap().as_integer().unwrap(), 6);
    assert!(!interp.has_var("missing"));
}

#[test]
fn push_and_pop_scope_api() {
    let mut interp = make_interp();
    let id = interp.push_scope(BlockType::Generic);
    assert_eq!(id, 0);
    assert_eq!(interp.block_depth(), 1);
    interp.define_var("t", Value::Integer(1));
    interp.pop_scope();
    assert_eq!(interp.block_depth(), 0);
    assert!(!interp.has_var("t"));
}

#[test]
fn visible_names_lists_bindings() {
    let mut interp = make_interp();
    interp.define_var("a", Value::Integer(1));
    interp.define_var("b", Value::Integer(2));
    let names = interp.scopes().all_visible_names();
    assert_eq!(names, vec!["a".to_string(), "b".to_string()]);
}
