use stack_vm::instruction::{OutputItem, VmError};
use stack_vm::machine::{get_variable_value, interpret, run_source, Stack, Variables};

fn run(text: &str) -> Result<Vec<OutputItem>, VmError> {
    run_source(text)
}

#[test]
fn load_val_alone_leaves_that_value_on_the_stack() {
    let out = run("LOAD_VAL 7\nPRINT_STACK").unwrap();
    assert_eq!(out, vec![OutputItem::StackPrinted(vec![7])]);
    let out = run("LOAD_VAL -3\nPRINT_STACK").unwrap();
    assert_eq!(out, vec![OutputItem::StackPrinted(vec![-3])]);
}

#[test]
fn write_then_read_round_trips_the_value() {
    let out = run("LOAD_VAL 42\nWRITE_VAR x\nREAD_VAR x\nRETURN_VALUE").unwrap();
    assert_eq!(out, vec![OutputItem::Returned(42)]);
    let out = run("LOAD_VAL -2147483648\nWRITE_VAR x\nREAD_VAR x\nRETURN_VALUE").unwrap();
    assert_eq!(out, vec![OutputItem::Returned(i32::MIN)]);
}

#[test]
fn add_after_two_pushes_prints_five() {
    let out = run("LOAD_VAL 2\nLOAD_VAL 3\nADD\nRETURN_VALUE").unwrap();
    assert_eq!(out, vec![OutputItem::Returned(5)]);
}

#[test]
fn multiply_after_two_pushes_prints_six() {
    let out = run("LOAD_VAL 2\nLOAD_VAL 3\nMULTIPLY\nRETURN_VALUE").unwrap();
    assert_eq!(out, vec![OutputItem::Returned(6)]);
}

#[test]
fn return_value_on_empty_stack_is_a_stack_underflow() {
    assert_eq!(run("RETURN_VALUE"), Err(VmError::StackUnderflow));
}

#[test]
fn reading_a_variable_never_written_is_undefined_variable() {
    assert_eq!(run("READ_VAR x"), Err(VmError::UndefinedVariable));
}

#[test]
fn add_with_one_value_on_the_stack_underflows() {
    assert_eq!(run("LOAD_VAL 1\nADD"), Err(VmError::StackUnderflow));
    assert_eq!(run("MULTIPLY"), Err(VmError::StackUnderflow));
}

#[test]
fn write_var_on_empty_stack_underflows() {
    assert_eq!(run("WRITE_VAR x"), Err(VmError::StackUnderflow));
}

#[test]
fn end_to_end_two_variables_added_prints_three() {
    let text = "LOAD_VAL 1\nWRITE_VAR a\nLOAD_VAL 2\nWRITE_VAR b\nREAD_VAR a\nREAD_VAR b\nADD\nRETURN_VALUE";
    assert_eq!(run(text), Ok(vec![OutputItem::Returned(3)]));
}

#[test]
fn addition_wraps_around_like_the_host() {
    let out = run("LOAD_VAL 2147483647\nLOAD_VAL 1\nADD\nRETURN_VALUE").unwrap();
    assert_eq!(out, vec![OutputItem::Returned(i32::MIN)]);
}

#[test]
fn multiplication_wraps_around_like_the_host() {
    let out = run("LOAD_VAL 65536\nLOAD_VAL 65536\nMULTIPLY\nRETURN_VALUE").unwrap();
    assert_eq!(out, vec![OutputItem::Returned(0)]);
}

#[test]
fn print_stack_lists_values_bottom_to_top_and_removes_nothing() {
    let out = run("LOAD_VAL 1\nLOAD_VAL 2\nPRINT_STACK\nADD\nRETURN_VALUE").unwrap();
    assert_eq!(
        out,
        vec![OutputItem::StackPrinted(vec![1, 2]), OutputItem::Returned(3)]
    );
}

#[test]
fn write_var_pops_the_written_value() {
    let out = run("LOAD_VAL 1\nWRITE_VAR a\nPRINT_STACK").unwrap();
    assert_eq!(out, vec![OutputItem::StackPrinted(vec![])]);
}

#[test]
fn later_writes_overwrite_earlier_ones() {
    let out = run("LOAD_VAL 1\nWRITE_VAR a\nLOAD_VAL 2\nWRITE_VAR a\nREAD_VAR a\nRETURN_VALUE")
        .unwrap();
    assert_eq!(out, vec![OutputItem::Returned(2)]);
}

#[test]
fn loop_performs_no_action() {
    let out = run("LOOP 5\nLOAD_VAL 1\nRETURN_VALUE").unwrap();
    assert_eq!(out, vec![OutputItem::Returned(1)]);
}

#[test]
fn empty_program_produces_no_output() {
    assert_eq!(run(""), Ok(vec![]));
}

#[test]
fn interpret_matches_run_source_on_a_decoded_program() {
    let text = "LOAD_VAL 4\nLOAD_VAL 5\nMULTIPLY\nRETURN_VALUE";
    let program = stack_vm::decode::decode_program(text).unwrap();
    assert_eq!(interpret(&program), run(text));
}

#[test]
fn stack_pushes_and_pops_in_lifo_order() {
    let mut stack = Stack::new();
    stack.push(1);
    stack.push(2);
    assert_eq!(stack.pop(), Some(2));
    assert_eq!(stack.pop(), Some(1));
    assert_eq!(stack.pop(), None);
}

#[test]
fn stack_snapshot_copies_bottom_to_top() {
    let mut stack = Stack::new();
    stack.push(10);
    stack.push(20);
    assert_eq!(stack.snapshot(), vec![10, 20]);
    assert_eq!(stack.pop(), Some(20));
}

#[test]
fn variable_store_returns_the_most_recent_write() {
    let mut variables = Variables::new();
    assert_eq!(get_variable_value("a", &variables), None);
    variables.write("a", 1);
    variables.write("b", 7);
    variables.write("a", 2);
    assert_eq!(get_variable_value("a", &variables), Some(2));
    assert_eq!(get_variable_value("b", &variables), Some(7));
    assert_eq!(get_variable_value("c", &variables), None);
}
