//! Decoding: from source text to a typed program.
//!
//! One line of tokens decodes to exactly one [`Instruction`], or fails.  A
//! whole program is decoded eagerly, before any instruction executes, so a
//! bad opcode anywhere in the file aborts the run before the first
//! instruction runs.  Blank lines and comment lines (first token starting
//! with `--`) are skipped and produce no instruction.

use vstd::prelude::*;

use crate::instruction::{Instruction, InstructionModel, VmError};
use crate::numerals::{parse_i32, parse_i32_spec, parse_u32, parse_u32_spec};
use crate::scan::{lines_of, split_lines, tokenize, tokens_of};

verus! {

/// Whether a token opens a comment: its first two characters are `--`.
pub open spec fn starts_comment(token: Seq<char>) -> bool {
    token.len() >= 2 && token[0] == '-' && token[1] == '-'
}

/// Whether a tokenized line is skipped: it is blank (no tokens) or its
/// first token opens a comment.
pub open spec fn is_skipped_line(tokens: Seq<Seq<char>>) -> bool {
    tokens.len() == 0 || starts_comment(tokens[0])
}

/// What one tokenized line decodes to: exactly one instruction, or nothing
/// when the opcode is unrecognized, the arity is wrong, or a numeric operand
/// does not parse.  The opcode is the first token, matched exactly and
/// case-sensitively.
pub open spec fn decode_tokens(tokens: Seq<Seq<char>>) -> Option<InstructionModel> {
    if tokens.len() == 2 && tokens[0] == "LOAD_VAL"@ {
        match parse_i32_spec(tokens[1]) {
            Some(v) => Some(InstructionModel::LoadValue(v)),
            None => None,
        }
    } else if tokens.len() == 2 && tokens[0] == "WRITE_VAR"@ {
        Some(InstructionModel::WriteVariable(tokens[1]))
    } else if tokens.len() == 2 && tokens[0] == "READ_VAR"@ {
        Some(InstructionModel::ReadVariable(tokens[1]))
    } else if tokens.len() == 1 && tokens[0] == "ADD"@ {
        Some(InstructionModel::Add)
    } else if tokens.len() == 1 && tokens[0] == "MULTIPLY"@ {
        Some(InstructionModel::Multiply)
    } else if tokens.len() == 1 && tokens[0] == "RETURN_VALUE"@ {
        Some(InstructionModel::ReturnValue)
    } else if tokens.len() == 1 && tokens[0] == "PRINT_STACK"@ {
        Some(InstructionModel::PrintStack)
    } else if tokens.len() == 2 && tokens[0] == "LOOP"@ {
        match parse_u32_spec(tokens[1]) {
            Some(count) => Some(InstructionModel::Loop(count)),
            None => None,
        }
    } else {
        None
    }
}

/// What a sequence of lines decodes to: the instructions of the non-skipped
/// lines in order, or nothing as soon as any line fails to decode.
pub open spec fn decode_lines_spec(lines: Seq<Seq<char>>) -> Option<Seq<InstructionModel>>
    decreases lines.len(),
{
    if lines.len() == 0 {
        Some(Seq::<InstructionModel>::empty())
    } else {
        let init = decode_lines_spec(lines.drop_last());
        let tokens = tokens_of(lines.last());
        if is_skipped_line(tokens) {
            init
        } else {
            match (init, decode_tokens(tokens)) {
                (Some(program), Some(inst)) => Some(program.push(inst)),
                _ => None,
            }
        }
    }
}

/// What a whole source text decodes to.
pub open spec fn decode_source(text: Seq<char>) -> Option<Seq<InstructionModel>> {
    decode_lines_spec(lines_of(text))
}

/// Once a prefix of the lines fails to decode, the whole listing fails.
pub proof fn lemma_decode_prefix_none(lines: Seq<Seq<char>>, j: int)
    requires
        0 <= j <= lines.len(),
        decode_lines_spec(lines.take(j)) is None,
    ensures
        decode_lines_spec(lines) is None,
    decreases lines.len() - j,
{
    if j == lines.len() {
        assert(lines.take(j) =~= lines);
    } else {
        assert(lines.take(j + 1).drop_last() =~= lines.take(j));
        assert(lines.take(j + 1).last() == lines[j]);
        assert(decode_lines_spec(lines.take(j + 1)) is None);
        lemma_decode_prefix_none(lines, j + 1);
    }
}

/// Whether two strings are equal.
fn text_eq(a: &String, b: &str) -> (r: bool)
    ensures
        r == (a@ == b@),
{
    *a == b.to_owned()
}

/// Whether a token opens a comment, as [`starts_comment`] describes.
fn opens_comment(token: &String) -> (r: bool)
    ensures
        r == starts_comment(token@),
{
    let s = token.as_str();
    s.unicode_len() >= 2 && s.get_char(0) == '-' && s.get_char(1) == '-'
}

/// Decodes one tokenized line into its instruction.
///
/// Returns `Ok` with the decoded instruction exactly when [`decode_tokens`]
/// accepts the tokens, and `Err(VmError::DecodeError)` exactly when it does
/// not.
pub fn parse_instruction(tokens: &Vec<String>) -> (r: Result<Instruction, VmError>)
    ensures
        match r {
            Ok(inst) => decode_tokens(tokens.deep_view()) == Some(inst@),
            Err(e) => decode_tokens(tokens.deep_view()) is None && e == VmError::DecodeError,
        },
{
    if tokens.len() == 2 && text_eq(&tokens[0], "LOAD_VAL") {
        match parse_i32(tokens[1].as_str()) {
            Some(v) => Ok(Instruction::LoadValue(v)),
            None => Err(VmError::DecodeError),
        }
    } else if tokens.len() == 2 && text_eq(&tokens[0], "WRITE_VAR") {
        Ok(Instruction::WriteVariable(tokens[1].clone()))
    } else if tokens.len() == 2 && text_eq(&tokens[0], "READ_VAR") {
        Ok(Instruction::ReadVariable(tokens[1].clone()))
    } else if tokens.len() == 1 && text_eq(&tokens[0], "ADD") {
        Ok(Instruction::Add)
    } else if tokens.len() == 1 && text_eq(&tokens[0], "MULTIPLY") {
        Ok(Instruction::Multiply)
    } else if tokens.len() == 1 && text_eq(&tokens[0], "RETURN_VALUE") {
        Ok(Instruction::ReturnValue)
    } else if tokens.len() == 1 && text_eq(&tokens[0], "PRINT_STACK") {
        Ok(Instruction::PrintStack)
    } else if tokens.len() == 2 && text_eq(&tokens[0], "LOOP") {
        match parse_u32(tokens[1].as_str()) {
            Some(count) => Ok(Instruction::Loop(count)),
            None => Err(VmError::DecodeError),
        }
    } else {
        Err(VmError::DecodeError)
    }
}

/// Decodes a whole source text into a program, eagerly.
///
/// Returns `Ok` with the instructions of the non-skipped lines in order
/// exactly when every such line decodes, and `Err(VmError::DecodeError)`
/// exactly when some line fails, as [`decode_source`] describes.
pub fn decode_program(text: &str) -> (r: Result<Vec<Instruction>, VmError>)
    ensures
        match r {
            Ok(program) => decode_source(text@) == Some(program.deep_view()),
            Err(e) => decode_source(text@) is None && e == VmError::DecodeError,
        },
{
    let lines = split_lines(text);
    let ghost lines_view = lines.deep_view();
    let mut program: Vec<Instruction> = Vec::new();
    let n = lines.len();
    proof {
        assert(lines_view.take(0) =~= Seq::<Seq<char>>::empty());
        assert(program.deep_view() =~= Seq::<InstructionModel>::empty());
    }
    let mut li: usize = 0;
    while li < n
        invariant
            li <= n,
            n == lines@.len(),
            lines_view == lines.deep_view(),
            lines_view == lines_of(text@),
            decode_lines_spec(lines_view.take(li as int)) == Some(program.deep_view()),
        decreases n - li,
    {
        let tokens = tokenize(lines[li].as_str());
        proof {
            assert(lines_view[li as int] == lines@[li as int]@);
            assert(lines_view.take(li + 1).drop_last() =~= lines_view.take(li as int));
            assert(lines_view.take(li + 1).last() == lines_view[li as int]);
        }
        let skipped = tokens.len() == 0 || opens_comment(&tokens[0]);
        proof {
            assert(tokens.len() > 0 ==> tokens.deep_view()[0] == tokens@[0]@);
            assert(skipped == is_skipped_line(tokens_of(lines_view[li as int])));
        }
        if !skipped {
            match parse_instruction(&tokens) {
                Ok(inst) => {
                    let ghost old_program = program.deep_view();
                    program.push(inst);
                    proof {
                        assert(program.deep_view() =~= old_program.push(inst@));
                    }
                },
                Err(e) => {
                    proof {
                        assert(decode_lines_spec(lines_view.take(li + 1)) is None);
                        lemma_decode_prefix_none(lines_view, li + 1);
                    }
                    return Err(e);
                },
            }
        }
        li += 1;
    }
    proof {
        assert(lines_view.take(n as int) =~= lines_view);
    }
    Ok(program)
}

} // verus!
