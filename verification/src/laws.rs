//! Laws of the machine and of the decoder: properties that hold of every
//! program, proved once and for all over the spec-level semantics.

use vstd::prelude::*;

use crate::decode::{
    decode_lines_spec, decode_tokens, is_skipped_line, lemma_decode_prefix_none,
};
use crate::instruction::{InstructionModel, OutputModel, VmError};
use crate::machine::{exec_from, init_state, MachineState};
use crate::scan::tokens_of;

verus! {

/// Executing a lone `LoadValue(v)` from a fresh state halts with the
/// one-element stack `[v]`, no bindings, and no output, whatever `v` is.
pub proof fn lemma_load_value_alone(v: i32)
    ensures
        exec_from(seq![InstructionModel::LoadValue(v)], 0, init_state()) == Ok::<
            (MachineState, Seq<OutputModel>),
            VmError,
        >(
            (
                MachineState { stack: seq![v], vars: Map::<Seq<char>, i32>::empty() },
                Seq::<OutputModel>::empty(),
            ),
        ),
{
    reveal_with_fuel(exec_from, 3);
    let after = MachineState { stack: Seq::<i32>::empty().push(v), vars: Map::<Seq<char>, i32>::empty() };
    assert(after.stack =~= seq![v]);
    assert(after =~= MachineState { stack: seq![v], vars: Map::<Seq<char>, i32>::empty() });
    assert(Seq::<OutputModel>::empty() + Seq::<OutputModel>::empty() =~= Seq::<
        OutputModel,
    >::empty());
}

/// Writing a variable and immediately reading it back round-trips the
/// written value: from any state with a value `x` on top of the stack,
/// `WriteVariable(name)` then `ReadVariable(name)` halts with the stack as
/// it was (the `x` popped by the write is pushed back by the read), the
/// binding `name -> x` added, and no output.
pub proof fn lemma_write_then_read_round_trips(name: Seq<char>, s: MachineState)
    requires
        s.stack.len() > 0,
    ensures
        exec_from(
            seq![InstructionModel::WriteVariable(name), InstructionModel::ReadVariable(name)],
            0,
            s,
        ) == Ok::<(MachineState, Seq<OutputModel>), VmError>(
            (
                MachineState { stack: s.stack, vars: s.vars.insert(name, s.stack.last()) },
                Seq::<OutputModel>::empty(),
            ),
        ),
{
    reveal_with_fuel(exec_from, 4);
    let bound = s.vars.insert(name, s.stack.last());
    let written = MachineState { stack: s.stack.drop_last(), vars: bound };
    assert(bound.contains_key(name) && bound[name] == s.stack.last());
    let read = MachineState { stack: written.stack.push(s.stack.last()), vars: bound };
    assert(read.stack =~= s.stack);
    assert(read =~= MachineState { stack: s.stack, vars: bound });
    assert(Seq::<OutputModel>::empty() + Seq::<OutputModel>::empty() =~= Seq::<
        OutputModel,
    >::empty());
    assert(Seq::<OutputModel>::empty() + (Seq::<OutputModel>::empty() + Seq::<
        OutputModel,
    >::empty()) =~= Seq::<OutputModel>::empty());
}

/// One undecodable line anywhere in a listing makes the whole listing fail
/// to decode — and decoding is eager, so no instruction of such a listing
/// ever executes (a run returns the decode error with no output).
pub proof fn lemma_bad_line_stops_run(lines: Seq<Seq<char>>, j: int)
    requires
        0 <= j < lines.len(),
        !is_skipped_line(tokens_of(lines[j])),
        decode_tokens(tokens_of(lines[j])) is None,
    ensures
        decode_lines_spec(lines) is None,
{
    assert(lines.take(j + 1).drop_last() =~= lines.take(j));
    assert(lines.take(j + 1).last() == lines[j]);
    assert(decode_lines_spec(lines.take(j + 1)) is None);
    lemma_decode_prefix_none(lines, j + 1);
}

/// Blank lines and comment lines are transparent: inserting a skipped line
/// anywhere in a listing leaves the decoded program — and with it the
/// instruction indexing of the real instructions — unchanged.
pub proof fn lemma_skipped_line_ignored(lines: Seq<Seq<char>>, j: int, extra: Seq<char>)
    requires
        0 <= j <= lines.len(),
        is_skipped_line(tokens_of(extra)),
    ensures
        decode_lines_spec(lines.insert(j, extra)) == decode_lines_spec(lines),
    decreases lines.len(),
{
    let grown = lines.insert(j, extra);
    if j == lines.len() {
        assert(grown.drop_last() =~= lines);
        assert(grown.last() == extra);
    } else {
        assert(grown.drop_last() =~= lines.drop_last().insert(j, extra));
        assert(grown.last() == lines.last());
        lemma_skipped_line_ignored(lines.drop_last(), j, extra);
    }
}

} // verus!
