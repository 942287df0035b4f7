//! Runs of a machine against an input and an output held in memory.

use crate::error::Error;
use crate::machine::{Machine, Signal};
use crate::operator::{ops_model, Operator};
use crate::semantics::{blank_tape, start, world, Ending};
use crate::syntax::{balanced, parse};
use crate::translate::interpret;
use vstd::prelude::*;

verus! {

/// How far a run got.
#[derive(Debug, Clone, Copy, PartialEq, Eq, Structural)]
pub struct Progress {
    /// The number of input bytes that the run read.
    pub consumed: usize,
    /// Whether the program came to its end. If not, the run used up its
    /// transitions and the machine can be run on.
    pub halted: bool,
}

/// What a run that ended in `ending` with `consumed` bytes read returns.
pub open spec fn report(ending: Ending, consumed: int) -> Result<Progress, Error> {
    match ending {
        Ending::Halted => Ok(Progress { consumed: consumed as usize, halted: true }),
        Ending::Paused => Ok(Progress { consumed: consumed as usize, halted: false }),
        Ending::Failed(error) => Err(error),
    }
}

impl<'a> Machine<'a> {
    /// Runs the machine for at most `max_steps` transitions, or until the
    /// program ends or fails. Input instructions read `input` from its
    /// start, one byte each, and output instructions append to `output`.
    ///
    /// A program need not end, so the bound is what makes the call return;
    /// a machine that was paused can be run on with the input that is left.
    /// Reading past the end of `input` fails with
    /// [`Error::InputExhausted`]. After a failure the machine stands before
    /// the instruction that failed and `output` holds what was written until
    /// then.
    pub fn run(&mut self, input: &[u8], output: &mut Vec<u8>, max_steps: u64) -> (result: Result<
        Progress,
        Error,
    >)
        requires
            old(self).wf(),
        ensures
            final(self).wf(),
            ({
                let begin = world(old(self)@, input@, 0, old(output)@);
                let (end, ending) = begin.run(max_steps as nat);
                &&& final(self)@ == end.machine
                &&& final(output)@ == end.output
                &&& 0 <= end.consumed <= input@.len()
                &&& result == report(ending, end.consumed)
            }),
    {
        let mut steps: u64 = 0;
        let mut consumed: usize = 0;
        let ghost begin = world(self@, input@, 0, output@);
        loop
            invariant
                self.wf(),
                begin == world(old(self)@, input@, 0, old(output)@),
                steps <= max_steps,
                consumed <= input@.len(),
                world(self@, input@, consumed as int, output@).run((max_steps - steps) as nat)
                    == begin.run(max_steps as nat),
            decreases max_steps - steps,
        {
            if self.halted() {
                return Ok(Progress { consumed, halted: true });
            }
            if steps == max_steps {
                return Ok(Progress { consumed, halted: false });
            }
            match self.step() {
                Err(error) => {
                    return Err(error);
                },
                Ok(Signal::Halted) => {
                    return Ok(Progress { consumed, halted: true });
                },
                Ok(Signal::Continue) => {},
                Ok(Signal::Output(byte)) => {
                    output.push(byte);
                },
                Ok(Signal::NeedsInput) => {
                    if consumed >= input.len() {
                        return Err(Error::InputExhausted);
                    }
                    self.supply(input[consumed]);
                    consumed = consumed + 1;
                },
            }
            steps = steps + 1;
        }
    }
}

/// Runs `operators` from their start on `tape`, with `data_pointer` as the
/// current cell, for at most `max_steps` transitions. Input instructions
/// read `input` from its start and output instructions append to `output`.
///
/// The tape, the pointer and the output are left as the run left them, also
/// when it fails or is paused. A pointer outside the tape fails at once with
/// [`Error::TapeBoundsExceeded`] and changes nothing.
pub fn execute(
    tape: &mut Vec<u8>,
    data_pointer: &mut usize,
    operators: &Vec<Operator>,
    input: &[u8],
    output: &mut Vec<u8>,
    max_steps: u64,
) -> (result: Result<Progress, Error>)
    ensures
        *old(data_pointer) >= old(tape)@.len() ==> {
            &&& result == Err::<Progress, Error>(Error::TapeBoundsExceeded)
            &&& final(tape)@ == old(tape)@
            &&& *final(data_pointer) == *old(data_pointer)
            &&& final(output)@ == old(output)@
        },
        *old(data_pointer) < old(tape)@.len() ==> ({
            let begin = world(
                start(ops_model(operators@), old(tape)@, *old(data_pointer) as int),
                input@,
                0,
                old(output)@,
            );
            let (end, ending) = begin.run(max_steps as nat);
            &&& final(tape)@ == end.machine.tape
            &&& *final(data_pointer) == end.machine.pointer
            &&& final(output)@ == end.output
            &&& 0 <= end.consumed <= input@.len()
            &&& result == report(ending, end.consumed)
        }),
{
    if *data_pointer >= tape.len() {
        return Err(Error::TapeBoundsExceeded);
    }
    let mut cells: Vec<u8> = Vec::new();
    core::mem::swap(tape, &mut cells);
    match Machine::with_tape(operators, cells, *data_pointer) {
        Err(error) => Err(error),
        Ok(machine) => {
            let mut machine = machine;
            let result = machine.run(input, output, max_steps);
            *data_pointer = machine.pointer();
            *tape = machine.into_tape();
            result
        },
    }
}

/// Translates `source` and runs the program on a fresh tape of `tape_len`
/// cells that hold zero, with the pointer on the first cell, for at most
/// `max_steps` transitions.
///
/// Text that is not balanced fails with [`Error::MalformedProgram`] before
/// anything is run: nothing is read and nothing is written.
pub fn run(source: String, tape_len: usize, input: &[u8], output: &mut Vec<u8>, max_steps: u64) -> (result:
    Result<Progress, Error>)
    ensures
        !balanced(source@) ==> result == Err::<Progress, Error>(Error::MalformedProgram)
            && final(output)@ == old(output)@,
        balanced(source@) && tape_len == 0 ==> result == Err::<Progress, Error>(
            Error::TapeBoundsExceeded,
        ) && final(output)@ == old(output)@,
        balanced(source@) && tape_len > 0 ==> ({
            let begin = world(
                start(parse(source@), blank_tape(tape_len as nat), 0),
                input@,
                0,
                old(output)@,
            );
            let (end, ending) = begin.run(max_steps as nat);
            &&& final(output)@ == end.output
            &&& 0 <= end.consumed <= input@.len()
            &&& result == report(ending, end.consumed)
        }),
{
    let program = match interpret(source) {
        Ok(program) => program,
        Err(error) => {
            return Err(error);
        },
    };
    let mut machine = match Machine::new(&program, tape_len) {
        Ok(machine) => machine,
        Err(error) => {
            return Err(error);
        },
    };
    machine.run(input, output, max_steps)
}

} // verus!
