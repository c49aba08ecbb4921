//! The stack machine: the value stack, the variable store, the spec-level
//! execution semantics, and the verified interpreter.
//!
//! Execution is single-threaded and self-contained: one run owns a fresh
//! [`Stack`] and a fresh [`Variables`], walks the program from index 0 with
//! the instruction pointer advanced before each instruction's effect, and
//! ends when the pointer runs off the end or a fatal condition is met.  The
//! run's only observable result is its sequence of output events.

use vstd::prelude::*;

use crate::decode::{decode_program, decode_source};
use crate::instruction::{Instruction, InstructionModel, OutputItem, OutputModel, VmError};

verus! {

/// The value stack: a last-in-first-out sequence of 32-bit values, owned by
/// one interpretation run.  The view lists the values bottom to top.
pub struct Stack {
    values: Vec<i32>,
}

impl View for Stack {
    type V = Seq<i32>;

    closed spec fn view(&self) -> Seq<i32> {
        self.values@
    }
}

impl Stack {
    /// A fresh, empty stack.
    pub fn new() -> (r: Stack)
        ensures
            r@ == Seq::<i32>::empty(),
    {
        Stack { values: Vec::new() }
    }

    /// Pushes `v` on top of the stack.
    pub fn push(&mut self, v: i32)
        ensures
            final(self)@ == old(self)@.push(v),
    {
        self.values.push(v);
    }

    /// Pops the top value.  Returns `None`, and leaves the stack unchanged,
    /// exactly when the stack is empty; the interpreter turns that into a
    /// [`VmError::StackUnderflow`].
    pub fn pop(&mut self) -> (r: Option<i32>)
        ensures
            old(self)@.len() == 0 ==> r is None && final(self)@ == old(self)@,
            old(self)@.len() > 0 ==> r == Some(old(self)@.last()) && final(self)@ == old(
                self,
            )@.drop_last(),
    {
        self.values.pop()
    }

    /// A copy of the stack's contents, bottom to top, leaving the stack
    /// unchanged.
    pub fn snapshot(&self) -> (r: Vec<i32>)
        ensures
            r@ == self@,
    {
        let mut copy: Vec<i32> = Vec::new();
        let n = self.values.len();
        let mut i: usize = 0;
        while i < n
            invariant
                i <= n,
                n == self.values@.len(),
                copy@ == self.values@.take(i as int),
            decreases n - i,
        {
            copy.push(self.values[i]);
            proof {
                assert(copy@ =~= self.values@.take(i + 1));
            }
            i += 1;
        }
        proof {
            assert(self.values@.take(n as int) =~= self.values@);
        }
        copy
    }
}

/// The variable store of a run, seen as a mapping from variable name to the
/// most recently written value for that name.
pub struct Variables {
    entries: Vec<(String, i32)>,
}

/// The mapping that a journal of writes denotes: later writes overwrite
/// earlier ones.
pub open spec fn store_map(entries: Seq<(String, i32)>) -> Map<Seq<char>, i32>
    decreases entries.len(),
{
    if entries.len() == 0 {
        Map::<Seq<char>, i32>::empty()
    } else {
        store_map(entries.drop_last()).insert(entries.last().0@, entries.last().1)
    }
}

impl View for Variables {
    type V = Map<Seq<char>, i32>;

    closed spec fn view(&self) -> Map<Seq<char>, i32> {
        store_map(self.entries@)
    }
}

impl Variables {
    /// A fresh store with no bindings.
    pub fn new() -> (r: Variables)
        ensures
            r@ == Map::<Seq<char>, i32>::empty(),
    {
        let entries: Vec<(String, i32)> = Vec::new();
        proof {
            assert(store_map(entries@) =~= Map::<Seq<char>, i32>::empty());
        }
        Variables { entries }
    }

    /// Binds `name` to `value`, overwriting any earlier binding.
    pub fn write(&mut self, name: &str, value: i32)
        ensures
            final(self)@ == old(self)@.insert(name@, value),
    {
        let ghost old_entries = self.entries@;
        self.entries.push((name.to_owned(), value));
        proof {
            assert(self.entries@.drop_last() =~= old_entries);
        }
    }
}

/// The outcome of a lookup in a mapping.
spec fn looked_up(vars: Map<Seq<char>, i32>, name: Seq<char>) -> Option<i32> {
    if vars.contains_key(name) {
        Some(vars[name])
    } else {
        None
    }
}

/// Looks `name` up in the store: the most recently written value for that
/// name, or `None` if the name was never written.
pub fn get_variable_value(name: &str, variables: &Variables) -> (r: Option<i32>)
    ensures
        r == (if variables@.contains_key(name@) {
            Some(variables@[name@])
        } else {
            None::<i32>
        }),
{
    let mut i: usize = variables.entries.len();
    proof {
        assert(variables.entries@.take(i as int) =~= variables.entries@);
    }
    while i > 0
        invariant
            i <= variables.entries@.len(),
            looked_up(store_map(variables.entries@), name@) == looked_up(
                store_map(variables.entries@.take(i as int)),
                name@,
            ),
        decreases i,
    {
        proof {
            assert(variables.entries@.take(i as int).drop_last() =~= variables.entries@.take(
                i - 1,
            ));
            assert(variables.entries@.take(i as int).last() == variables.entries@[i - 1]);
        }
        let entry = &variables.entries[i - 1];
        if entry.0 == name.to_owned() {
            proof {
                assert(store_map(variables.entries@.take(i as int)) == store_map(
                    variables.entries@.take(i - 1),
                ).insert(variables.entries@[i - 1].0@, variables.entries@[i - 1].1));
                assert(looked_up(store_map(variables.entries@.take(i as int)), name@) == Some(
                    variables.entries@[i - 1].1,
                ));
            }
            return Some(entry.1);
        }
        i -= 1;
    }
    proof {
        assert(store_map(variables.entries@.take(0)) =~= Map::<Seq<char>, i32>::empty());
    }
    None
}

/// The state of one run between two instructions: the stack and the
/// variable bindings.  The instruction pointer lives beside it in
/// [`exec_from`].
#[verifier::ext_equal]
pub ghost struct MachineState {
    pub stack: Seq<i32>,
    pub vars: Map<Seq<char>, i32>,
}

/// The state a run starts in: empty stack, no bindings.
pub open spec fn init_state() -> MachineState {
    MachineState { stack: Seq::<i32>::empty(), vars: Map::<Seq<char>, i32>::empty() }
}

/// The effect of one instruction on a state: the next state and the output
/// it emits, or the fatal condition it runs into.
///
/// `Add` and `Multiply` pop the top value `a`, then the value `b` under it,
/// and push the wrapping sum or product, matching the host's native 32-bit
/// two's-complement arithmetic.  `Loop` performs no action.
pub open spec fn step_spec(inst: InstructionModel, s: MachineState) -> Result<
    (MachineState, Seq<OutputModel>),
    VmError,
> {
    match inst {
        InstructionModel::LoadValue(v) => Ok(
            (MachineState { stack: s.stack.push(v), vars: s.vars }, Seq::<OutputModel>::empty()),
        ),
        InstructionModel::WriteVariable(name) => if s.stack.len() == 0 {
            Err(VmError::StackUnderflow)
        } else {
            Ok(
                (
                    MachineState {
                        stack: s.stack.drop_last(),
                        vars: s.vars.insert(name, s.stack.last()),
                    },
                    Seq::<OutputModel>::empty(),
                ),
            )
        },
        InstructionModel::ReadVariable(name) => if s.vars.contains_key(name) {
            Ok(
                (
                    MachineState { stack: s.stack.push(s.vars[name]), vars: s.vars },
                    Seq::<OutputModel>::empty(),
                ),
            )
        } else {
            Err(VmError::UndefinedVariable)
        },
        InstructionModel::Add => if s.stack.len() < 2 {
            Err(VmError::StackUnderflow)
        } else {
            Ok(
                (
                    MachineState {
                        stack: s.stack.drop_last().drop_last().push(
                            s.stack.last().wrapping_add(s.stack[s.stack.len() - 2]),
                        ),
                        vars: s.vars,
                    },
                    Seq::<OutputModel>::empty(),
                ),
            )
        },
        InstructionModel::Multiply => if s.stack.len() < 2 {
            Err(VmError::StackUnderflow)
        } else {
            Ok(
                (
                    MachineState {
                        stack: s.stack.drop_last().drop_last().push(
                            s.stack.last().wrapping_mul(s.stack[s.stack.len() - 2]),
                        ),
                        vars: s.vars,
                    },
                    Seq::<OutputModel>::empty(),
                ),
            )
        },
        InstructionModel::ReturnValue => if s.stack.len() == 0 {
            Err(VmError::StackUnderflow)
        } else {
            Ok(
                (
                    MachineState { stack: s.stack.drop_last(), vars: s.vars },
                    seq![OutputModel::Returned(s.stack.last())],
                ),
            )
        },
        InstructionModel::PrintStack => Ok((s, seq![OutputModel::StackPrinted(s.stack)])),
        InstructionModel::Loop(_) => Ok((s, Seq::<OutputModel>::empty())),
    }
}

/// Running the program from instruction `i` in state `s` to the end: the
/// final state and the concatenated output, or the first fatal condition.
pub open spec fn exec_from(p: Seq<InstructionModel>, i: nat, s: MachineState) -> Result<
    (MachineState, Seq<OutputModel>),
    VmError,
>
    decreases p.len() - i,
{
    if i >= p.len() {
        Ok((s, Seq::<OutputModel>::empty()))
    } else {
        match step_spec(p[i as int], s) {
            Err(e) => Err(e),
            Ok(next) => match exec_from(p, i + 1, next.0) {
                Err(e) => Err(e),
                Ok(done) => Ok((done.0, next.1 + done.1)),
            },
        }
    }
}

/// `r` with `prefix` prepended to its output, when it has one.
pub open spec fn with_output_prefix(
    prefix: Seq<OutputModel>,
    r: Result<(MachineState, Seq<OutputModel>), VmError>,
) -> Result<(MachineState, Seq<OutputModel>), VmError> {
    match r {
        Ok(done) => Ok((done.0, prefix + done.1)),
        Err(e) => Err(e),
    }
}

proof fn lemma_prefix_empty(r: Result<(MachineState, Seq<OutputModel>), VmError>)
    ensures
        with_output_prefix(Seq::<OutputModel>::empty(), r) == r,
{
    match r {
        Ok(done) => {
            assert(Seq::<OutputModel>::empty() + done.1 =~= done.1);
        },
        Err(_) => {},
    }
}

proof fn lemma_prefix_concat(
    a: Seq<OutputModel>,
    b: Seq<OutputModel>,
    r: Result<(MachineState, Seq<OutputModel>), VmError>,
)
    ensures
        with_output_prefix(a, with_output_prefix(b, r)) == with_output_prefix(a + b, r),
{
    match r {
        Ok(done) => {
            assert(a + (b + done.1) =~= (a + b) + done.1);
        },
        Err(_) => {},
    }
}

proof fn lemma_exec_from_step(
    p: Seq<InstructionModel>,
    i: nat,
    s: MachineState,
    s2: MachineState,
    out: Seq<OutputModel>,
)
    requires
        i < p.len(),
        step_spec(p[i as int], s) == Ok::<(MachineState, Seq<OutputModel>), VmError>((s2, out)),
    ensures
        exec_from(p, i, s) == with_output_prefix(out, exec_from(p, i + 1, s2)),
{
    match exec_from(p, i + 1, s2) {
        Ok(_) => {},
        Err(_) => {},
    }
}

proof fn lemma_exec_from_fatal(p: Seq<InstructionModel>, i: nat, s: MachineState, e: VmError)
    requires
        i < p.len(),
        step_spec(p[i as int], s) == Err::<(MachineState, Seq<OutputModel>), VmError>(e),
    ensures
        exec_from(p, i, s) == Err::<(MachineState, Seq<OutputModel>), VmError>(e),
{
}

/// Executes a decoded program from a fresh state to completion.
///
/// Returns the run's output events exactly when [`exec_from`] succeeds on
/// the program's model from [`init_state`], and the first fatal condition
/// ([`VmError::StackUnderflow`] or [`VmError::UndefinedVariable`]) exactly
/// when it fails.
pub fn interpret(program: &Vec<Instruction>) -> (r: Result<Vec<OutputItem>, VmError>)
    ensures
        match r {
            Ok(output) => exec_from(program.deep_view(), 0, init_state()) is Ok && exec_from(
                program.deep_view(),
                0,
                init_state(),
            )->Ok_0.1 == output.deep_view(),
            Err(e) => exec_from(program.deep_view(), 0, init_state()) == Err::<
                (MachineState, Seq<OutputModel>),
                VmError,
            >(e),
        },
{
    let ghost pv = program.deep_view();
    let mut stack = Stack::new();
    let mut variables = Variables::new();
    let mut output: Vec<OutputItem> = Vec::new();
    let n = program.len();
    let mut ip: usize = 0;
    proof {
        assert(MachineState { stack: stack@, vars: variables@ } =~= init_state());
        lemma_prefix_empty(exec_from(pv, 0, init_state()));
        assert(output.deep_view() =~= Seq::<OutputModel>::empty());
    }
    while ip < n
        invariant
            ip <= n,
            n == program@.len(),
            pv == program.deep_view(),
            with_output_prefix(
                output.deep_view(),
                exec_from(pv, ip as nat, MachineState { stack: stack@, vars: variables@ }),
            ) == exec_from(pv, 0, init_state()),
        decreases n - ip,
    {
        let ghost cur = MachineState { stack: stack@, vars: variables@ };
        let ghost out_before = output.deep_view();
        proof {
            assert(pv[ip as int] == program@[ip as int]@);
        }
        let inst = &program[ip];
        ip += 1;
        let ghost at = (ip - 1) as nat;
        match inst {
            Instruction::LoadValue(v) => {
                stack.push(*v);
                proof {
                    let next = MachineState { stack: stack@, vars: variables@ };
                    lemma_exec_from_step(pv, at, cur, next, Seq::<OutputModel>::empty());
                    lemma_prefix_empty(exec_from(pv, at + 1, next));
                }
            },
            Instruction::WriteVariable(name) => {
                match stack.pop() {
                    None => {
                        proof {
                            lemma_exec_from_fatal(pv, at, cur, VmError::StackUnderflow);
                        }
                        return Err(VmError::StackUnderflow);
                    },
                    Some(value) => {
                        variables.write(name.as_str(), value);
                        proof {
                            let next = MachineState { stack: stack@, vars: variables@ };
                            lemma_exec_from_step(pv, at, cur, next, Seq::<OutputModel>::empty());
                            lemma_prefix_empty(exec_from(pv, at + 1, next));
                        }
                    },
                }
            },
            Instruction::ReadVariable(name) => {
                match get_variable_value(name.as_str(), &variables) {
                    None => {
                        proof {
                            lemma_exec_from_fatal(pv, at, cur, VmError::UndefinedVariable);
                        }
                        return Err(VmError::UndefinedVariable);
                    },
                    Some(value) => {
                        stack.push(value);
                        proof {
                            let next = MachineState { stack: stack@, vars: variables@ };
                            lemma_exec_from_step(pv, at, cur, next, Seq::<OutputModel>::empty());
                            lemma_prefix_empty(exec_from(pv, at + 1, next));
                        }
                    },
                }
            },
            Instruction::Add => {
                let first = match stack.pop() {
                    None => {
                        proof {
                            lemma_exec_from_fatal(pv, at, cur, VmError::StackUnderflow);
                        }
                        return Err(VmError::StackUnderflow);
                    },
                    Some(a) => a,
                };
                let second = match stack.pop() {
                    None => {
                        proof {
                            lemma_exec_from_fatal(pv, at, cur, VmError::StackUnderflow);
                        }
                        return Err(VmError::StackUnderflow);
                    },
                    Some(b) => b,
                };
                proof {
                    assert(second == cur.stack[cur.stack.len() - 2]);
                }
                stack.push(first.wrapping_add(second));
                proof {
                    let next = MachineState { stack: stack@, vars: variables@ };
                    lemma_exec_from_step(pv, at, cur, next, Seq::<OutputModel>::empty());
                    lemma_prefix_empty(exec_from(pv, at + 1, next));
                }
            },
            Instruction::Multiply => {
                let first = match stack.pop() {
                    None => {
                        proof {
                            lemma_exec_from_fatal(pv, at, cur, VmError::StackUnderflow);
                        }
                        return Err(VmError::StackUnderflow);
                    },
                    Some(a) => a,
                };
                let second = match stack.pop() {
                    None => {
                        proof {
                            lemma_exec_from_fatal(pv, at, cur, VmError::StackUnderflow);
                        }
                        return Err(VmError::StackUnderflow);
                    },
                    Some(b) => b,
                };
                proof {
                    assert(second == cur.stack[cur.stack.len() - 2]);
                }
                stack.push(first.wrapping_mul(second));
                proof {
                    let next = MachineState { stack: stack@, vars: variables@ };
                    lemma_exec_from_step(pv, at, cur, next, Seq::<OutputModel>::empty());
                    lemma_prefix_empty(exec_from(pv, at + 1, next));
                }
            },
            Instruction::ReturnValue => {
                match stack.pop() {
                    None => {
                        proof {
                            lemma_exec_from_fatal(pv, at, cur, VmError::StackUnderflow);
                        }
                        return Err(VmError::StackUnderflow);
                    },
                    Some(value) => {
                        output.push(OutputItem::Returned(value));
                        proof {
                            let emitted = seq![OutputModel::Returned(value)];
                            let next = MachineState { stack: stack@, vars: variables@ };
                            lemma_exec_from_step(pv, at, cur, next, emitted);
                            lemma_prefix_concat(out_before, emitted, exec_from(pv, at + 1, next));
                            assert(output.deep_view() =~= out_before + emitted);
                        }
                    },
                }
            },
            Instruction::PrintStack => {
                let snapshot = stack.snapshot();
                output.push(OutputItem::StackPrinted(snapshot));
                proof {
                    let emitted = seq![OutputModel::StackPrinted(cur.stack)];
                    let next = MachineState { stack: stack@, vars: variables@ };
                    lemma_exec_from_step(pv, at, cur, next, emitted);
                    lemma_prefix_concat(out_before, emitted, exec_from(pv, at + 1, next));
                    assert(output.deep_view() =~= out_before + emitted);
                }
            },
            Instruction::Loop(_) => {
                proof {
                    lemma_exec_from_step(pv, at, cur, cur, Seq::<OutputModel>::empty());
                    lemma_prefix_empty(exec_from(pv, at + 1, cur));
                }
            },
        }
    }
    proof {
        let done = MachineState { stack: stack@, vars: variables@ };
        assert(exec_from(pv, ip as nat, done) == Ok::<(MachineState, Seq<OutputModel>), VmError>(
            (done, Seq::<OutputModel>::empty()),
        ));
        assert(output.deep_view() + Seq::<OutputModel>::empty() =~= output.deep_view());
    }
    Ok(output)
}

/// Decodes `text` eagerly and, when the whole listing decodes, executes it
/// from a fresh state.
///
/// A decode failure anywhere in the listing returns
/// `Err(VmError::DecodeError)` with no output: no instruction executes.
/// Otherwise the result is exactly what [`interpret`] returns on the decoded
/// program.
pub fn run_source(text: &str) -> (r: Result<Vec<OutputItem>, VmError>)
    ensures
        match decode_source(text@) {
            None => r == Err::<Vec<OutputItem>, VmError>(VmError::DecodeError),
            Some(p) => match exec_from(p, 0, init_state()) {
                Ok(done) => r is Ok && r->Ok_0.deep_view() == done.1,
                Err(e) => r == Err::<Vec<OutputItem>, VmError>(e),
            },
        },
{
    match decode_program(text) {
        Err(e) => Err(e),
        Ok(program) => interpret(&program),
    }
}

} // verus!
