//! What running a program means: the states of the machine, its single
//! transitions, and runs of many transitions against an input and an output.

use crate::error::Error;
use crate::operator::Op;
use vstd::prelude::*;

verus! {

/// An enclosing body that waits for the loop inside it to finish.
pub struct Frame {
    /// The instructions of the enclosing body.
    pub body: Seq<Op>,
    /// Where the enclosing body goes on: the position after the loop.
    pub next: int,
}

/// A state of the machine: where it stands in the program, and its memory.
pub struct State {
    /// The body that is being run: the program itself or the body of a loop.
    pub body: Seq<Op>,
    /// The position in `body` of the instruction that comes next.
    pub next: int,
    /// The enclosing bodies, outermost first. It is empty while the program
    /// itself is being run.
    pub outer: Seq<Frame>,
    /// The cells of the tape.
    pub tape: Seq<u8>,
    /// The index of the current cell.
    pub pointer: int,
}

/// The result of one transition.
pub enum Transition {
    /// The machine went to another state without reading or writing.
    Moved(State),
    /// The machine wrote a byte and went to another state.
    Wrote(State, u8),
    /// The machine stands at an input instruction and needs a byte.
    Waiting,
    /// The program has come to its end.
    Halted,
    /// The machine cannot go on.
    Failed(Error),
}

impl State {
    /// The positions lie inside their bodies and the pointer inside the tape.
    pub open spec fn wf(self) -> bool {
        &&& 0 <= self.next <= self.body.len()
        &&& 0 <= self.pointer < self.tape.len()
        &&& forall|k: int|
            0 <= k < self.outer.len() ==> 0 <= (#[trigger] self.outer[k]).next
                <= self.outer[k].body.len()
    }

    /// The value of the current cell.
    pub open spec fn cell(self) -> u8 {
        self.tape[self.pointer]
    }

    /// Whether the program itself, not a loop body, has been run to its end.
    pub open spec fn halted(self) -> bool {
        self.next >= self.body.len() && self.outer.len() == 0
    }

    /// Whether the next instruction is an input instruction.
    pub open spec fn waiting(self) -> bool {
        0 <= self.next < self.body.len() && self.body[self.next] is Get
    }

    /// The state with the position moved to the next instruction of the body.
    pub open spec fn forward(self) -> State {
        State { next: self.next + 1, ..self }
    }

    /// The state with `value` in the current cell.
    pub open spec fn store(self, value: u8) -> State {
        State { tape: self.tape.update(self.pointer, value), ..self }
    }

    /// The state after the input instruction at which the machine waits has
    /// stored `byte`.
    pub open spec fn supplied(self, byte: u8) -> State {
        self.store(byte).forward()
    }

    /// One transition.
    ///
    /// At the end of a loop body the current cell decides: the body starts
    /// again if the cell is not zero, and the enclosing body goes on
    /// otherwise. At a loop the cell decides in the same way between entering
    /// the body and passing over the loop, so a loop whose cell is zero is
    /// never entered. Moving the pointer off either end of the tape fails and
    /// adding to or subtracting from a cell wraps around.
    pub open spec fn transition(self) -> Transition {
        if self.next >= self.body.len() {
            if self.outer.len() == 0 {
                Transition::Halted
            } else if self.cell() != 0 {
                Transition::Moved(State { next: 0, ..self })
            } else {
                Transition::Moved(
                    State {
                        body: self.outer.last().body,
                        next: self.outer.last().next,
                        outer: self.outer.drop_last(),
                        ..self
                    },
                )
            }
        } else {
            match self.body[self.next] {
                Op::Right => if self.pointer + 1 < self.tape.len() {
                    Transition::Moved(State { pointer: self.pointer + 1, ..self }.forward())
                } else {
                    Transition::Failed(Error::TapeBoundsExceeded)
                },
                Op::Left => if self.pointer > 0 {
                    Transition::Moved(State { pointer: self.pointer - 1, ..self }.forward())
                } else {
                    Transition::Failed(Error::TapeBoundsExceeded)
                },
                Op::Inc => Transition::Moved(self.store(increment(self.cell())).forward()),
                Op::Dec => Transition::Moved(self.store(decrement(self.cell())).forward()),
                Op::Put => Transition::Wrote(self.forward(), self.cell()),
                Op::Get => Transition::Waiting,
                Op::Loop(inner) => if self.cell() == 0 {
                    Transition::Moved(self.forward())
                } else {
                    Transition::Moved(
                        State {
                            body: inner,
                            next: 0,
                            outer: self.outer.push(Frame { body: self.body, next: self.next + 1 }),
                            ..self
                        },
                    )
                },
            }
        }
    }
}

/// One more than `value`, and 0 after 255.
pub open spec fn increment(value: u8) -> u8 {
    ((value + 1) % 256) as u8
}

/// One less than `value`, and 255 before 0.
pub open spec fn decrement(value: u8) -> u8 {
    ((value - 1) % 256) as u8
}

/// The state in which `program` starts on the given tape.
pub open spec fn start(program: Seq<Op>, tape: Seq<u8>, pointer: int) -> State {
    State { body: program, next: 0, outer: Seq::empty(), tape, pointer }
}

/// A tape of `len` cells that hold zero.
pub open spec fn blank_tape(len: nat) -> Seq<u8> {
    Seq::new(len, |i: int| 0u8)
}

/// A machine together with what it reads and writes.
pub struct World {
    /// The state of the machine.
    pub machine: State,
    /// All the bytes there are to read.
    pub input: Seq<u8>,
    /// How many bytes of `input` have been read.
    pub consumed: int,
    /// The bytes written so far.
    pub output: Seq<u8>,
}

/// The world of `machine` with `consumed` bytes of `input` read and `output`
/// written.
pub open spec fn world(machine: State, input: Seq<u8>, consumed: int, output: Seq<u8>) -> World {
    World { machine, input, consumed, output }
}

/// How a run ended.
pub enum Ending {
    /// The program came to its end.
    Halted,
    /// The run used up its transitions before the program came to its end.
    Paused,
    /// The machine could not go on.
    Failed(Error),
}

impl World {
    /// One transition of the machine, with its reading or writing done.
    /// An input instruction takes the next unread byte and fails when there
    /// is none. Defined for a machine that has not halted.
    pub open spec fn advance(self) -> Result<World, Error> {
        match self.machine.transition() {
            Transition::Moved(next) => Ok(World { machine: next, ..self }),
            Transition::Wrote(next, byte) => Ok(
                World { machine: next, output: self.output.push(byte), ..self },
            ),
            Transition::Waiting => if 0 <= self.consumed < self.input.len() {
                Ok(
                    World {
                        machine: self.machine.supplied(self.input[self.consumed]),
                        consumed: self.consumed + 1,
                        ..self
                    },
                )
            } else {
                Err(Error::InputExhausted)
            },
            Transition::Halted => Ok(self),
            Transition::Failed(error) => Err(error),
        }
    }

    /// Where a run of at most `steps` transitions leaves the world, and how
    /// it ends. A failure leaves the world as it was before the transition
    /// that failed.
    pub open spec fn run(self, steps: nat) -> (World, Ending)
        decreases steps,
    {
        if self.machine.halted() {
            (self, Ending::Halted)
        } else if steps == 0 {
            (self, Ending::Paused)
        } else {
            match self.advance() {
                Ok(next) => next.run((steps - 1) as nat),
                Err(error) => (self, Ending::Failed(error)),
            }
        }
    }
}

} // verus!
