//! The machine: a frame of operand stack, return stack, memory and program
//! counter, and the rules by which each instruction changes it.
use vstd::prelude::*;
use crate::instruction::{Instruction, InstructionType};
use crate::labels::LabelTable;

verus! {

/// Size of the byte-addressed memory.
pub const MEMORY_SIZE: usize = 256;

/// The ways in which running a program can fail.
#[derive(Clone, Copy, Debug, PartialEq, Eq, Structural)]
pub enum RuntimeError {
    /// The operand stack holds fewer values than the instruction takes.
    StackUnderflow,
    /// `ret` with an empty return stack.
    ReturnUnderflow,
    /// A `pick` or `poke` depth that reaches below the bottom of the stack.
    DepthOutOfRange,
    /// The program counter would pass 255.
    PcOverflow,
}

/// Whether a step lets the program go on.
#[derive(Clone, Copy, Debug, PartialEq, Eq, Structural)]
pub enum Control {
    Continue,
    Halt,
}

/// How a run that did not fail came to an end.
#[derive(Clone, Copy, Debug, PartialEq, Eq, Structural)]
pub enum Exit {
    /// A `halt` instruction ran.
    Halted,
    /// The program counter reached the end of the program.
    Finished,
    /// The step budget ran out first.
    OutOfSteps,
}

/// What a frame holds, as mathematical values.
pub struct FrameView {
    pub stack: Seq<u8>,
    pub retstack: Seq<u8>,
    pub memory: Seq<u8>,
    pub pc: u8,
    pub program: Seq<Instruction>,
    pub labels: Map<Seq<char>, u8>,
}

/// What one instruction does to a frame.
pub enum Step {
    Continue(FrameView),
    Halt,
    Fault(RuntimeError),
}

/// The machine state of one program.
pub struct Frame {
    pub(crate) stack: Vec<u8>,
    pub(crate) instructions: Vec<Instruction>,
    pub(crate) pc: u8,
    pub(crate) retstack: Vec<u8>,
    pub(crate) labels: LabelTable,
    pub(crate) memory: Vec<u8>,
}

impl View for Frame {
    type V = FrameView;

    open(crate) spec fn view(&self) -> FrameView {
        FrameView {
            stack: self.stack@,
            retstack: self.retstack@,
            memory: self.memory@,
            pc: self.pc,
            program: self.instructions@,
            labels: self.labels@,
        }
    }
}

/// The frame with the given stack and memory, and the program counter one further.
pub open spec fn advance(v: FrameView, stack: Seq<u8>, memory: Seq<u8>) -> Step {
    if v.pc == 255 {
        Step::Fault(RuntimeError::PcOverflow)
    } else {
        Step::Continue(FrameView { stack, memory, pc: (v.pc + 1) as u8, ..v })
    }
}

/// The frame with the program counter set to `target`.
pub open spec fn jump(v: FrameView, target: u8) -> Step {
    Step::Continue(FrameView { pc: target, ..v })
}

/// The value `d` places below the top of `s`.
pub open spec fn at_depth(s: Seq<u8>, d: int) -> u8 {
    s[s.len() - 1 - d]
}

/// The effect of running `ins` on `v`.
pub open spec fn step(v: FrameView, ins: Instruction) -> Step {
    let n = ins.operand;
    let s = v.stack;
    match ins.instruction {
        InstructionType::Push => advance(v, s.push(n), v.memory),
        InstructionType::Pop => if s.len() == 0 {
            Step::Fault(RuntimeError::StackUnderflow)
        } else {
            advance(v, s.drop_last(), v.memory)
        },
        InstructionType::Inc => if s.len() == 0 {
            Step::Fault(RuntimeError::StackUnderflow)
        } else {
            advance(v, s.update(s.len() - 1, ((s.last() + 1) % 256) as u8), v.memory)
        },
        InstructionType::Dec => if s.len() == 0 {
            Step::Fault(RuntimeError::StackUnderflow)
        } else {
            advance(v, s.update(s.len() - 1, ((s.last() + 255) % 256) as u8), v.memory)
        },
        InstructionType::Jmp => jump(v, n),
        InstructionType::Jz => if s.len() == 0 {
            Step::Fault(RuntimeError::StackUnderflow)
        } else if s.last() == 0 {
            jump(v, n)
        } else {
            advance(v, s, v.memory)
        },
        InstructionType::Jnz => if s.len() == 0 {
            Step::Fault(RuntimeError::StackUnderflow)
        } else if s.last() != 0 {
            jump(v, n)
        } else {
            advance(v, s, v.memory)
        },
        InstructionType::Call => if v.pc == 255 {
            Step::Fault(RuntimeError::PcOverflow)
        } else {
            Step::Continue(
                FrameView { retstack: v.retstack.push((v.pc + 1) as u8), pc: n, ..v },
            )
        },
        InstructionType::Ret => if v.retstack.len() == 0 {
            Step::Fault(RuntimeError::ReturnUnderflow)
        } else {
            Step::Continue(
                FrameView { retstack: v.retstack.drop_last(), pc: v.retstack.last(), ..v },
            )
        },
        InstructionType::Nand => if s.len() < 2 {
            Step::Fault(RuntimeError::StackUnderflow)
        } else {
            advance(v, s.drop_last().drop_last().push(!(at_depth(s, 0) & at_depth(s, 1))), v.memory)
        },
        InstructionType::Halt => Step::Halt,
        InstructionType::Pick => if n >= s.len() {
            Step::Fault(RuntimeError::DepthOutOfRange)
        } else {
            advance(v, s.push(at_depth(s, n as int)), v.memory)
        },
        InstructionType::Poke => if s.len() == 0 {
            Step::Fault(RuntimeError::StackUnderflow)
        } else if n >= s.len() - 1 {
            Step::Fault(RuntimeError::DepthOutOfRange)
        } else {
            advance(v, s.drop_last().update(s.len() - 2 - n, s.last()), v.memory)
        },
        InstructionType::Swap => if s.len() < 2 {
            Step::Fault(RuntimeError::StackUnderflow)
        } else {
            advance(v, s.drop_last().drop_last().push(at_depth(s, 0)).push(at_depth(s, 1)), v.memory)
        },
        InstructionType::Load => advance(v, s.push(v.memory[n as int]), v.memory),
        InstructionType::Store => if s.len() == 0 {
            Step::Fault(RuntimeError::StackUnderflow)
        } else {
            advance(v, s.drop_last(), v.memory.update(n as int, s.last()))
        },
    }
}

/// Runs the program of `v` from its program counter for at most `fuel` steps:
/// the frame at the end and how the run ended.
pub open spec fn run(v: FrameView, fuel: nat) -> (FrameView, Result<Exit, RuntimeError>)
    decreases fuel,
{
    if v.pc >= v.program.len() {
        (v, Ok(Exit::Finished))
    } else if fuel == 0 {
        (v, Ok(Exit::OutOfSteps))
    } else {
        match step(v, v.program[v.pc as int]) {
            Step::Continue(w) => run(w, (fuel - 1) as nat),
            Step::Halt => (v, Ok(Exit::Halted)),
            Step::Fault(e) => (v, Err(e)),
        }
    }
}

impl Frame {
    /// Memory has its fixed size and the label table is well formed.
    pub open(crate) spec fn wf(&self) -> bool {
        &&& self.memory@.len() == MEMORY_SIZE
        &&& self.labels.wf()
    }

    /// A frame with empty stacks, no program, no labels and zeroed memory.
    pub fn new() -> (r: Self)
        ensures
            r.wf(),
            r@.stack == Seq::<u8>::empty(),
            r@.retstack == Seq::<u8>::empty(),
            r@.memory == Seq::new(MEMORY_SIZE as nat, |i: int| 0u8),
            r@.pc == 0,
            r@.program == Seq::<Instruction>::empty(),
            r@.labels == Map::<Seq<char>, u8>::empty(),
    {
        let memory: Vec<u8> = vec![0u8; MEMORY_SIZE];
        assert(memory@ =~= Seq::new(MEMORY_SIZE as nat, |i: int| 0u8));
        Frame {
            stack: Vec::new(),
            instructions: Vec::new(),
            pc: 0,
            retstack: Vec::new(),
            labels: LabelTable::new(),
            memory,
        }
    }

    /// Moves the program counter one instruction on.
    fn advance_pc(&mut self) -> (r: Result<Control, RuntimeError>)
        ensures
            final(self).stack == old(self).stack,
            final(self).retstack == old(self).retstack,
            final(self).memory == old(self).memory,
            final(self).instructions == old(self).instructions,
            final(self).labels == old(self).labels,
            old(self).pc == 255 ==> r == Err::<Control, RuntimeError>(RuntimeError::PcOverflow)
                && final(self).pc == old(self).pc,
            old(self).pc < 255 ==> r == Ok::<Control, RuntimeError>(Control::Continue)
                && final(self).pc == old(self).pc + 1,
    {
        if self.pc == 255 {
            Err(RuntimeError::PcOverflow)
        } else {
            self.pc = self.pc + 1;
            Ok(Control::Continue)
        }
    }

    /// Runs one instruction against this frame. On a fault the frame is left as it was.
    pub fn execute_single(&mut self, instruction: Instruction) -> (r: Result<Control, RuntimeError>)
        requires
            old(self).wf(),
        ensures
            final(self).wf(),
            match step(old(self)@, instruction) {
                Step::Continue(w) => r == Ok::<Control, RuntimeError>(Control::Continue)
                    && final(self)@ == w,
                Step::Halt => r == Ok::<Control, RuntimeError>(Control::Halt) && final(self)@
                    == old(self)@,
                Step::Fault(e) => r == Err::<Control, RuntimeError>(e) && final(self)@ == old(
                    self,
                )@,
            },
    {
        let n = instruction.operand;
        let len = self.stack.len();
        match instruction.instruction {
            InstructionType::Push => {
                if self.pc == 255 {
                    return Err(RuntimeError::PcOverflow);
                }
                self.stack.push(n);
                self.advance_pc()
            },
            InstructionType::Pop => {
                if len == 0 {
                    return Err(RuntimeError::StackUnderflow);
                }
                if self.pc == 255 {
                    return Err(RuntimeError::PcOverflow);
                }
                self.stack.pop();
                self.advance_pc()
            },
            InstructionType::Inc => {
                if len == 0 {
                    return Err(RuntimeError::StackUnderflow);
                }
                if self.pc == 255 {
                    return Err(RuntimeError::PcOverflow);
                }
                let top = self.stack[len - 1];
                let value: u8 = if top == 255 {
                    0
                } else {
                    top + 1
                };
                self.stack.set(len - 1, value);
                self.advance_pc()
            },
            InstructionType::Dec => {
                if len == 0 {
                    return Err(RuntimeError::StackUnderflow);
                }
                if self.pc == 255 {
                    return Err(RuntimeError::PcOverflow);
                }
                let top = self.stack[len - 1];
                let value: u8 = if top == 0 {
                    255
                } else {
                    top - 1
                };
                self.stack.set(len - 1, value);
                self.advance_pc()
            },
            InstructionType::Jmp => {
                self.pc = n;
                Ok(Control::Continue)
            },
            InstructionType::Jz => {
                if len == 0 {
                    return Err(RuntimeError::StackUnderflow);
                }
                if self.stack[len - 1] == 0 {
                    self.pc = n;
                    Ok(Control::Continue)
                } else {
                    self.advance_pc()
                }
            },
            InstructionType::Jnz => {
                if len == 0 {
                    return Err(RuntimeError::StackUnderflow);
                }
                if self.stack[len - 1] != 0 {
                    self.pc = n;
                    Ok(Control::Continue)
                } else {
                    self.advance_pc()
                }
            },
            InstructionType::Call => {
                if self.pc == 255 {
                    return Err(RuntimeError::PcOverflow);
                }
                self.retstack.push(self.pc + 1);
                self.pc = n;
                Ok(Control::Continue)
            },
            InstructionType::Ret => {
                match self.retstack.pop() {
                    Some(target) => {
                        self.pc = target;
                        Ok(Control::Continue)
                    },
                    None => Err(RuntimeError::ReturnUnderflow),
                }
            },
            InstructionType::Nand => {
                if len < 2 {
                    return Err(RuntimeError::StackUnderflow);
                }
                if self.pc == 255 {
                    return Err(RuntimeError::PcOverflow);
                }
                let a = self.stack[len - 1];
                let b = self.stack[len - 2];
                self.stack.pop();
                self.stack.set(len - 2, !(a & b));
                assert(self.stack@ =~= old(self).stack@.drop_last().drop_last().push(!(a & b)));
                self.advance_pc()
            },
            InstructionType::Halt => Ok(Control::Halt),
            InstructionType::Pick => {
                if n as usize >= len {
                    return Err(RuntimeError::DepthOutOfRange);
                }
                if self.pc == 255 {
                    return Err(RuntimeError::PcOverflow);
                }
                let value = self.stack[len - 1 - n as usize];
                self.stack.push(value);
                self.advance_pc()
            },
            InstructionType::Poke => {
                if len == 0 {
                    return Err(RuntimeError::StackUnderflow);
                }
                if n as usize >= len - 1 {
                    return Err(RuntimeError::DepthOutOfRange);
                }
                if self.pc == 255 {
                    return Err(RuntimeError::PcOverflow);
                }
                let value = self.stack[len - 1];
                self.stack.pop();
                self.stack.set(len - 2 - n as usize, value);
                self.advance_pc()
            },
            InstructionType::Swap => {
                if len < 2 {
                    return Err(RuntimeError::StackUnderflow);
                }
                if self.pc == 255 {
                    return Err(RuntimeError::PcOverflow);
                }
                let a = self.stack[len - 1];
                let b = self.stack[len - 2];
                self.stack.set(len - 2, a);
                self.stack.set(len - 1, b);
                assert(self.stack@ =~= old(self).stack@.drop_last().drop_last().push(a).push(b));
                self.advance_pc()
            },
            InstructionType::Load => {
                if self.pc == 255 {
                    return Err(RuntimeError::PcOverflow);
                }
                let value = self.memory[n as usize];
                self.stack.push(value);
                self.advance_pc()
            },
            InstructionType::Store => {
                if len == 0 {
                    return Err(RuntimeError::StackUnderflow);
                }
                if self.pc == 255 {
                    return Err(RuntimeError::PcOverflow);
                }
                let value = self.stack[len - 1];
                self.stack.pop();
                self.memory.set(n as usize, value);
                self.advance_pc()
            },
        }
    }

    /// Runs the program from its first instruction until it halts, falls off
    /// its end, fails, or has taken `max_steps` steps.
    pub fn execute(&mut self, max_steps: u64) -> (r: Result<Exit, RuntimeError>)
        requires
            old(self).wf(),
        ensures
            final(self).wf(),
            final(self)@ == run(FrameView { pc: 0, ..old(self)@ }, max_steps as nat).0,
            r == run(FrameView { pc: 0, ..old(self)@ }, max_steps as nat).1,
    {
        self.pc = 0;
        let ghost start = self@;
        assert(start == FrameView { pc: 0, ..old(self)@ });
        let mut fuel: u64 = max_steps;
        loop
            invariant
                self.wf(),
                start == (FrameView { pc: 0, ..old(self)@ }),
                run(start, max_steps as nat) == run(self@, fuel as nat),
            decreases fuel,
        {
            if self.pc as usize >= self.instructions.len() {
                return Ok(Exit::Finished);
            }
            if fuel == 0 {
                return Ok(Exit::OutOfSteps);
            }
            let instruction = self.instructions[self.pc as usize];
            match self.execute_single(instruction) {
                Ok(Control::Continue) => {},
                Ok(Control::Halt) => {
                    return Ok(Exit::Halted);
                },
                Err(e) => {
                    return Err(e);
                },
            }
            fuel = fuel - 1;
        }
    }

    /// The operand stack, bottom first.
    pub fn stack(&self) -> (r: &Vec<u8>)
        ensures
            r@ == self@.stack,
    {
        &self.stack
    }

    /// The return stack, bottom first.
    pub fn retstack(&self) -> (r: &Vec<u8>)
        ensures
            r@ == self@.retstack,
    {
        &self.retstack
    }

    /// The memory, from address zero.
    pub fn memory(&self) -> (r: &Vec<u8>)
        ensures
            r@ == self@.memory,
    {
        &self.memory
    }

    /// The program counter.
    pub fn pc(&self) -> (r: u8)
        ensures
            r == self@.pc,
    {
        self.pc
    }

    /// The assembled program.
    pub fn instructions(&self) -> (r: &Vec<Instruction>)
        ensures
            r@ == self@.program,
    {
        &self.instructions
    }
}

} // verus!
