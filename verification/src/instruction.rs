//! The instruction set, the error taxonomy, and the output events of the
//! interpreter, together with their mathematical models.

use vstd::prelude::*;

verus! {

/// One decoded bytecode instruction.
///
/// Every constructed `Instruction` is well-typed: a numeric operand that
/// fails to parse is a decode-time failure and never becomes a value here.
#[derive(Debug, PartialEq, Eq)]
pub enum Instruction {
    /// Push the operand onto the stack.
    LoadValue(i32),
    /// Pop the stack and bind the name to the popped value.
    WriteVariable(String),
    /// Push the value bound to the name, if any.
    ReadVariable(String),
    /// Pop two values and push their (wrapping) sum.
    Add,
    /// Pop two values and push their (wrapping) product.
    Multiply,
    /// Pop the stack and emit the popped value as output.
    ReturnValue,
    /// Emit the whole stack, bottom to top, without removing anything.
    PrintStack,
    /// Carries a repetition count but performs no action.
    ///
    /// The instruction set reserves `LOOP` without giving it a repetition
    /// target or scope, so it is kept as a documented no-op.
    Loop(u32),
}

/// The mathematical model of an [`Instruction`]: variable names become
/// sequences of characters.
pub ghost enum InstructionModel {
    LoadValue(i32),
    WriteVariable(Seq<char>),
    ReadVariable(Seq<char>),
    Add,
    Multiply,
    ReturnValue,
    PrintStack,
    Loop(u32),
}

impl View for Instruction {
    type V = InstructionModel;

    open spec fn view(&self) -> InstructionModel {
        match self {
            Instruction::LoadValue(v) => InstructionModel::LoadValue(*v),
            Instruction::WriteVariable(name) => InstructionModel::WriteVariable(name@),
            Instruction::ReadVariable(name) => InstructionModel::ReadVariable(name@),
            Instruction::Add => InstructionModel::Add,
            Instruction::Multiply => InstructionModel::Multiply,
            Instruction::ReturnValue => InstructionModel::ReturnValue,
            Instruction::PrintStack => InstructionModel::PrintStack,
            Instruction::Loop(count) => InstructionModel::Loop(*count),
        }
    }
}

impl DeepView for Instruction {
    type V = InstructionModel;

    open spec fn deep_view(&self) -> InstructionModel {
        self.view()
    }
}

/// The kinds of failure an interpretation run can end in.
///
/// Each kind is unrecoverable at the point of detection: the run aborts and
/// the error is returned to the caller, which may recover, log, and go on.
#[derive(Debug, Clone, Copy, PartialEq, Eq, Structural)]
pub enum VmError {
    /// Unrecognized opcode, wrong operand arity, or an operand that does not
    /// parse as the expected numeric type.  Detected during the up-front
    /// decode pass, before execution starts.
    DecodeError,
    /// A pop was attempted on an empty stack.
    StackUnderflow,
    /// A read of a variable that was never written.
    UndefinedVariable,
    /// The program file was missing or unreadable.  Produced only by callers
    /// that do I/O; the library itself never returns it.
    IOError,
}

/// One output event of a run: what an embedding caller would print.
#[derive(Debug, PartialEq, Eq)]
pub enum OutputItem {
    /// A value popped by `ReturnValue`, to be printed on a line of its own.
    Returned(i32),
    /// The whole stack at a `PrintStack`, bottom of the stack first.
    StackPrinted(Vec<i32>),
}

/// The mathematical model of an [`OutputItem`].
pub ghost enum OutputModel {
    Returned(i32),
    StackPrinted(Seq<i32>),
}

impl View for OutputItem {
    type V = OutputModel;

    open spec fn view(&self) -> OutputModel {
        match self {
            OutputItem::Returned(v) => OutputModel::Returned(*v),
            OutputItem::StackPrinted(values) => OutputModel::StackPrinted(values@),
        }
    }
}

impl DeepView for OutputItem {
    type V = OutputModel;

    open spec fn deep_view(&self) -> OutputModel {
        self.view()
    }
}

} // verus!
