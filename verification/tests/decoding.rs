use stack_vm::decode::{decode_program, parse_instruction};
use stack_vm::instruction::{Instruction, OutputItem, VmError};
use stack_vm::machine::run_source;
use stack_vm::numerals::{parse_i32, parse_u32};
use stack_vm::scan::{split_lines, tokenize};

fn tokens(words: &[&str]) -> Vec<String> {
    words.iter().map(|w| w.to_string()).collect()
}

#[test]
fn every_opcode_decodes_to_its_instruction() {
    assert_eq!(
        parse_instruction(&tokens(&["LOAD_VAL", "-5"])),
        Ok(Instruction::LoadValue(-5))
    );
    assert_eq!(
        parse_instruction(&tokens(&["WRITE_VAR", "x"])),
        Ok(Instruction::WriteVariable("x".to_string()))
    );
    assert_eq!(
        parse_instruction(&tokens(&["READ_VAR", "yz"])),
        Ok(Instruction::ReadVariable("yz".to_string()))
    );
    assert_eq!(parse_instruction(&tokens(&["ADD"])), Ok(Instruction::Add));
    assert_eq!(
        parse_instruction(&tokens(&["MULTIPLY"])),
        Ok(Instruction::Multiply)
    );
    assert_eq!(
        parse_instruction(&tokens(&["RETURN_VALUE"])),
        Ok(Instruction::ReturnValue)
    );
    assert_eq!(
        parse_instruction(&tokens(&["PRINT_STACK"])),
        Ok(Instruction::PrintStack)
    );
    assert_eq!(
        parse_instruction(&tokens(&["LOOP", "3"])),
        Ok(Instruction::Loop(3))
    );
}

#[test]
fn unknown_opcodes_and_wrong_arity_fail_to_decode() {
    assert_eq!(parse_instruction(&tokens(&["FOO"])), Err(VmError::DecodeError));
    assert_eq!(parse_instruction(&tokens(&[])), Err(VmError::DecodeError));
    assert_eq!(
        parse_instruction(&tokens(&["LOAD_VAL"])),
        Err(VmError::DecodeError)
    );
    assert_eq!(
        parse_instruction(&tokens(&["LOAD_VAL", "1", "2"])),
        Err(VmError::DecodeError)
    );
    assert_eq!(
        parse_instruction(&tokens(&["ADD", "1"])),
        Err(VmError::DecodeError)
    );
    assert_eq!(
        parse_instruction(&tokens(&["WRITE_VAR", "a", "b"])),
        Err(VmError::DecodeError)
    );
    assert_eq!(parse_instruction(&tokens(&["add"])), Err(VmError::DecodeError));
}

#[test]
fn numeric_operands_follow_the_host_integer_ranges() {
    assert_eq!(
        parse_instruction(&tokens(&["LOAD_VAL", "2147483647"])),
        Ok(Instruction::LoadValue(i32::MAX))
    );
    assert_eq!(
        parse_instruction(&tokens(&["LOAD_VAL", "2147483648"])),
        Err(VmError::DecodeError)
    );
    assert_eq!(
        parse_instruction(&tokens(&["LOAD_VAL", "-2147483648"])),
        Ok(Instruction::LoadValue(i32::MIN))
    );
    assert_eq!(
        parse_instruction(&tokens(&["LOAD_VAL", "-2147483649"])),
        Err(VmError::DecodeError)
    );
    assert_eq!(
        parse_instruction(&tokens(&["LOAD_VAL", "+5"])),
        Ok(Instruction::LoadValue(5))
    );
    assert_eq!(
        parse_instruction(&tokens(&["LOAD_VAL", "1x"])),
        Err(VmError::DecodeError)
    );
    assert_eq!(
        parse_instruction(&tokens(&["LOOP", "4294967295"])),
        Ok(Instruction::Loop(u32::MAX))
    );
    assert_eq!(
        parse_instruction(&tokens(&["LOOP", "4294967296"])),
        Err(VmError::DecodeError)
    );
    assert_eq!(
        parse_instruction(&tokens(&["LOOP", "-1"])),
        Err(VmError::DecodeError)
    );
    assert_eq!(
        parse_instruction(&tokens(&["LOOP", "+2"])),
        Ok(Instruction::Loop(2))
    );
}

#[test]
fn bare_signs_and_empty_numerals_fail_to_parse() {
    assert_eq!(parse_i32("-"), None);
    assert_eq!(parse_i32("+"), None);
    assert_eq!(parse_i32(""), None);
    assert_eq!(parse_i32("007"), Some(7));
    assert_eq!(parse_u32("+"), None);
    assert_eq!(parse_u32("010"), Some(10));
}

#[test]
fn a_bad_opcode_anywhere_aborts_before_any_instruction_executes() {
    let text = "LOAD_VAL 1\nRETURN_VALUE\nFOO 2";
    assert_eq!(run_source(text), Err(VmError::DecodeError));
}

#[test]
fn comments_and_blank_lines_are_skipped() {
    let plain = "LOAD_VAL 2\nLOAD_VAL 3\nADD\nRETURN_VALUE";
    let sprinkled =
        "-- a comment\n\nLOAD_VAL 2\n   \nLOAD_VAL 3\n--another comment\nADD\n\nRETURN_VALUE\n";
    assert_eq!(run_source(plain), run_source(sprinkled));
    assert_eq!(
        run_source(sprinkled),
        Ok(vec![OutputItem::Returned(5)])
    );
}

#[test]
fn decode_is_eager_over_the_whole_listing() {
    let program = decode_program("LOAD_VAL 1\n-- note\nRETURN_VALUE").unwrap();
    assert_eq!(
        program,
        vec![Instruction::LoadValue(1), Instruction::ReturnValue]
    );
    assert_eq!(
        decode_program("LOAD_VAL 1\nNOPE\nRETURN_VALUE"),
        Err(VmError::DecodeError)
    );
}

#[test]
fn tokenize_splits_on_runs_of_blanks() {
    assert_eq!(tokenize("  LOAD_VAL\t\t5\r"), tokens(&["LOAD_VAL", "5"]));
    assert_eq!(tokenize(""), tokens(&[]));
    assert_eq!(tokenize(" \t "), tokens(&[]));
    assert_eq!(tokenize("one"), tokens(&["one"]));
}

#[test]
fn split_lines_keeps_empty_segments() {
    assert_eq!(split_lines("a\n\nb\n"), tokens(&["a", "", "b", ""]));
    assert_eq!(split_lines(""), tokens(&[""]));
    assert_eq!(split_lines("no newline"), tokens(&["no newline"]));
}
