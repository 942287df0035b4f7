//! The machine that runs a program one transition at a time.

use crate::error::Error;
use crate::operator::{ops_model, Operator};
use crate::semantics::{blank_tape, start, Frame, State, Transition};
use vstd::prelude::*;

verus! {

/// What a transition asks of the caller.
#[derive(Debug, Clone, Copy, PartialEq, Eq, Structural)]
pub enum Signal {
    /// Nothing: the machine went on by itself.
    Continue,
    /// The machine wrote this byte; it is to be sent out.
    Output(u8),
    /// The machine needs a byte; it stands still until
    /// [`Machine::supply`] hands it one.
    NeedsInput,
    /// The program has come to its end.
    Halted,
}

/// An enclosing body and the position at which it goes on.
struct Suspended<'a> {
    body: &'a Vec<Operator>,
    next: usize,
}

/// A program in execution: a position in the program, a tape of byte cells
/// and a pointer to the current cell.
///
/// The machine borrows the program and never copies a loop body. The tape
/// has the length it was made with and the pointer stays inside it.
pub struct Machine<'a> {
    body: &'a Vec<Operator>,
    next: usize,
    outer: Vec<Suspended<'a>>,
    tape: Vec<u8>,
    pointer: usize,
}

impl<'a> Suspended<'a> {
    spec fn model(self) -> Frame {
        Frame { body: ops_model(self.body@), next: self.next as int }
    }
}

impl<'a> View for Machine<'a> {
    type V = State;

    closed spec fn view(&self) -> State {
        State {
            body: ops_model(self.body@),
            next: self.next as int,
            outer: Seq::new(self.outer@.len(), |k: int| self.outer@[k].model()),
            tape: self.tape@,
            pointer: self.pointer as int,
        }
    }
}

impl<'a> Machine<'a> {
    /// The invariant of a machine: its state is well formed.
    pub open spec fn wf(&self) -> bool {
        self@.wf()
    }

    /// A machine at the start of `program`, with a tape of `tape_len` cells
    /// that hold zero and the pointer on the first cell. A tape without cells
    /// has no first cell: that is a tape bounds failure.
    pub fn new(program: &'a Vec<Operator>, tape_len: usize) -> (result: Result<Machine<'a>, Error>)
        ensures
            result is Ok <==> tape_len > 0,
            result matches Ok(machine) ==> machine.wf() && machine@ == start(
                ops_model(program@),
                blank_tape(tape_len as nat),
                0,
            ),
            result matches Err(error) ==> error == Error::TapeBoundsExceeded,
    {
        let mut tape: Vec<u8> = Vec::new();
        while tape.len() < tape_len
            invariant
                tape@.len() <= tape_len,
                forall|i: int| 0 <= i < tape@.len() ==> tape@[i] == 0u8,
            decreases tape_len - tape@.len(),
        {
            tape.push(0u8);
        }
        proof {
            assert(tape@ =~= blank_tape(tape_len as nat));
        }
        Machine::with_tape(program, tape, 0)
    }

    /// A machine at the start of `program` on the given tape, with the
    /// pointer on the cell `pointer`. A pointer outside the tape is a tape
    /// bounds failure.
    pub fn with_tape(program: &'a Vec<Operator>, tape: Vec<u8>, pointer: usize) -> (result: Result<
        Machine<'a>,
        Error,
    >)
        ensures
            result is Ok <==> pointer < tape@.len(),
            result matches Ok(machine) ==> machine.wf() && machine@ == start(
                ops_model(program@),
                tape@,
                pointer as int,
            ),
            result matches Err(error) ==> error == Error::TapeBoundsExceeded,
    {
        if pointer >= tape.len() {
            return Err(Error::TapeBoundsExceeded);
        }
        let machine = Machine { body: program, next: 0, outer: Vec::new(), tape, pointer };
        proof {
            assert(machine@.outer =~= Seq::<Frame>::empty());
        }
        Ok(machine)
    }

    /// The index of the current cell.
    pub fn pointer(&self) -> (index: usize)
        ensures
            index == self@.pointer,
    {
        self.pointer
    }

    /// The cells of the tape.
    pub fn tape(&self) -> (cells: &Vec<u8>)
        ensures
            cells@ == self@.tape,
    {
        &self.tape
    }

    /// Gives up the machine and keeps its tape.
    pub fn into_tape(self) -> (cells: Vec<u8>)
        ensures
            cells@ == self@.tape,
    {
        self.tape
    }

    /// Whether the program has come to its end.
    pub fn halted(&self) -> (done: bool)
        ensures
            done == self@.halted(),
    {
        self.next >= self.body.len() && self.outer.len() == 0
    }

    /// Makes one transition and says what it asks of the caller.
    ///
    /// A machine that has halted, that needs input or that fails stays as it
    /// is.
    pub fn step(&mut self) -> (result: Result<Signal, Error>)
        requires
            old(self).wf(),
        ensures
            final(self).wf(),
            match old(self)@.transition() {
                Transition::Moved(state) => result == Ok::<Signal, Error>(Signal::Continue)
                    && final(self)@ == state,
                Transition::Wrote(state, byte) => result == Ok::<Signal, Error>(
                    Signal::Output(byte),
                ) && final(self)@ == state,
                Transition::Waiting => result == Ok::<Signal, Error>(Signal::NeedsInput)
                    && final(self)@ == old(self)@,
                Transition::Halted => result == Ok::<Signal, Error>(Signal::Halted) && final(self)@
                    == old(self)@,
                Transition::Failed(error) => result == Err::<Signal, Error>(error) && final(self)@
                    == old(self)@,
            },
    {
        let body: &'a Vec<Operator> = self.body;
        if self.next >= body.len() {
            if self.outer.len() == 0 {
                return Ok(Signal::Halted);
            }
            if self.tape[self.pointer] != 0 {
                self.next = 0;
                proof {
                    assert(self@.outer =~= old(self)@.outer);
                }
                return Ok(Signal::Continue);
            }
            let frame = self.outer.pop().unwrap();
            self.body = frame.body;
            self.next = frame.next;
            proof {
                assert(frame.model() == old(self)@.outer.last());
                assert(self@.outer =~= old(self)@.outer.drop_last());
            }
            return Ok(Signal::Continue);
        }
        let op: &'a Operator = &body[self.next];
        proof {
            assert(ops_model(body@)[self.next as int] == op@);
        }
        match op {
            Operator::IncDataPointer => {
                if self.pointer >= self.tape.len() - 1 {
                    return Err(Error::TapeBoundsExceeded);
                }
                self.pointer = self.pointer + 1;
                self.next = self.next + 1;
                proof {
                    assert(self@.outer =~= old(self)@.outer);
                }
                Ok(Signal::Continue)
            },
            Operator::DecDataPointer => {
                if self.pointer == 0 {
                    return Err(Error::TapeBoundsExceeded);
                }
                self.pointer = self.pointer - 1;
                self.next = self.next + 1;
                proof {
                    assert(self@.outer =~= old(self)@.outer);
                }
                Ok(Signal::Continue)
            },
            Operator::IncValue => {
                let value = self.tape[self.pointer];
                self.tape.set(self.pointer, value.wrapping_add(1));
                self.next = self.next + 1;
                proof {
                    assert(self@.outer =~= old(self)@.outer);
                }
                Ok(Signal::Continue)
            },
            Operator::DecValue => {
                let value = self.tape[self.pointer];
                self.tape.set(self.pointer, value.wrapping_sub(1));
                self.next = self.next + 1;
                proof {
                    assert(self@.outer =~= old(self)@.outer);
                }
                Ok(Signal::Continue)
            },
            Operator::Output => {
                let value = self.tape[self.pointer];
                self.next = self.next + 1;
                proof {
                    assert(self@.outer =~= old(self)@.outer);
                }
                Ok(Signal::Output(value))
            },
            Operator::Input => Ok(Signal::NeedsInput),
            Operator::Loop(inner) => {
                if self.tape[self.pointer] == 0 {
                    self.next = self.next + 1;
                    proof {
                        assert(self@.outer =~= old(self)@.outer);
                    }
                } else {
                    let frame = Suspended { body, next: self.next + 1 };
                    self.outer.push(frame);
                    self.body = inner;
                    self.next = 0;
                    proof {
                        assert(self@.outer =~= old(self)@.outer.push(frame.model()));
                    }
                }
                Ok(Signal::Continue)
            },
        }
    }

    /// Hands the machine the byte it needs. A machine that stands at an input
    /// instruction stores the byte in the current cell, goes on to the next
    /// instruction and returns `true`. Any other machine stays as it is and
    /// returns `false`.
    pub fn supply(&mut self, byte: u8) -> (taken: bool)
        requires
            old(self).wf(),
        ensures
            final(self).wf(),
            taken == old(self)@.waiting(),
            taken ==> final(self)@ == old(self)@.supplied(byte),
            !taken ==> final(self)@ == old(self)@,
    {
        let body: &'a Vec<Operator> = self.body;
        if self.next >= body.len() {
            return false;
        }
        proof {
            assert(ops_model(body@)[self.next as int] == body@[self.next as int]@);
        }
        match &body[self.next] {
            Operator::Input => {
                self.tape.set(self.pointer, byte);
                self.next = self.next + 1;
                proof {
                    assert(self@.outer =~= old(self)@.outer);
                }
                true
            },
            _ => false,
        }
    }
}

} // verus!
