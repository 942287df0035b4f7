//! Facts about runs: what some small programs do on every tape.

use crate::error::Error;
use crate::operator::Op;
use crate::semantics::{
    decrement, increment, start, world, Ending, Frame, State, Transition, World,
};
use vstd::prelude::*;

verus! {

/// A transition leaves a well-formed state well formed and the tape at its
/// length: the pointer never leaves the tape.
pub proof fn lemma_transition_wf(state: State)
    requires
        state.wf(),
    ensures
        match state.transition() {
            Transition::Moved(next) => next.wf() && next.tape.len() == state.tape.len(),
            Transition::Wrote(next, byte) => next.wf() && next.tape == state.tape && byte
                == state.cell(),
            Transition::Waiting => state.waiting(),
            Transition::Halted => state.halted(),
            Transition::Failed(error) => error == Error::TapeBoundsExceeded,
        },
        forall|byte: u8|
            state.waiting() ==> (#[trigger] state.supplied(byte)).wf() && state.supplied(
                byte,
            ).tape.len() == state.tape.len(),
{
}

/// At the first cell `<` fails and at the last cell `>` fails; everywhere
/// else they move the pointer by one cell.
pub proof fn lemma_tape_edges(tape: Seq<u8>, pointer: int)
    requires
        0 <= pointer < tape.len(),
    ensures
        start(seq![Op::Left], tape, pointer).transition() is Failed <==> pointer == 0,
        start(seq![Op::Right], tape, pointer).transition() is Failed <==> pointer == tape.len() - 1,
        pointer > 0 ==> start(seq![Op::Left], tape, pointer).transition() == Transition::Moved(
            State { next: 1, ..start(seq![Op::Left], tape, pointer - 1) },
        ),
        pointer < tape.len() - 1 ==> start(seq![Op::Right], tape, pointer).transition()
            == Transition::Moved(State { next: 1, ..start(seq![Op::Right], tape, pointer + 1) }),
{
}

/// Whether the world is well formed: the machine is, and the number of bytes
/// read lies inside the input.
pub open spec fn world_wf(w: World) -> bool {
    w.machine.wf() && 0 <= w.consumed <= w.input.len()
}

/// A run leaves a well-formed world well formed. It keeps the input and the
/// length of the tape, it only appends to the output, and what it has read
/// only grows.
pub proof fn lemma_run_keeps(w: World, steps: nat)
    requires
        world_wf(w),
    ensures
        ({
            let (end, ending) = w.run(steps);
            &&& world_wf(end)
            &&& end.input == w.input
            &&& end.machine.tape.len() == w.machine.tape.len()
            &&& w.consumed <= end.consumed
            &&& w.output.len() <= end.output.len()
            &&& end.output.take(w.output.len() as int) == w.output
            &&& ending is Halted <==> end.machine.halted()
        }),
    decreases steps,
{
    lemma_transition_wf(w.machine);
    if w.machine.halted() || steps == 0 {
        assert(w.output.take(w.output.len() as int) =~= w.output);
    } else {
        match w.advance() {
            Ok(next) => {
                lemma_run_keeps(next, (steps - 1) as nat);
                let end = next.run((steps - 1) as nat).0;
                assert(end.output.take(w.output.len() as int) =~= end.output.take(
                    next.output.len() as int,
                ).take(w.output.len() as int));
                assert(next.output.take(w.output.len() as int) =~= w.output);
            },
            Err(_) => {
                assert(w.output.take(w.output.len() as int) =~= w.output);
            },
        }
    }
}

/// A run that is paused and then run on does what one run with all the
/// transitions does; a run that ended or failed is not changed by more
/// transitions.
pub proof fn lemma_run_resume(w: World, first: nat, more: nat)
    ensures
        w.run(first + more) == if w.run(first).1 is Paused {
            w.run(first).0.run(more)
        } else {
            w.run(first)
        },
    decreases first,
{
    if w.machine.halted() {
    } else if first == 0 {
    } else {
        match w.advance() {
            Ok(next) => {
                lemma_run_resume(next, (first - 1) as nat, more);
                assert(w.run(first + more) == next.run((first + more - 1) as nat));
            },
            Err(_) => {},
        }
    }
}

/// The world as seen by a run that starts where `w` stands: with the bytes
/// that `w` has not read as its input, none of them read.
pub open spec fn rest(w: World) -> World {
    world(w.machine, w.input.skip(w.consumed), 0, w.output)
}

/// A run reads only what is left of the input: it does what a run on the
/// unread bytes alone does, and reads as many bytes.
pub proof fn lemma_run_rest(w: World, steps: nat)
    requires
        0 <= w.consumed <= w.input.len(),
    ensures
        ({
            let (end, ending) = w.run(steps);
            let (rest_end, rest_ending) = rest(w).run(steps);
            &&& ending == rest_ending
            &&& end.machine == rest_end.machine
            &&& end.output == rest_end.output
            &&& end.consumed == w.consumed + rest_end.consumed
            &&& end.input == w.input
        }),
    decreases steps,
{
    let r = rest(w);
    if w.machine.halted() || steps == 0 {
    } else {
        match w.advance() {
            Ok(next) => {
                let r_next = r.advance().unwrap();
                lemma_run_rest(next, (steps - 1) as nat);
                lemma_run_rest(r_next, (steps - 1) as nat);
                assert(rest(next).input =~= rest(r_next).input);
                assert(rest(next) == rest(r_next));
            },
            Err(_) => {},
        }
    }
}

/// The program `>+<-`.
pub open spec fn shuttle() -> Seq<Op> {
    seq![Op::Right, Op::Inc, Op::Left, Op::Dec]
}

/// `>+<-`, started on the first cell, adds one to the second cell, takes one
/// from the first, and ends with the pointer back on the first cell, in four
/// transitions and without reading or writing.
pub proof fn lemma_shuttle(tape: Seq<u8>, input: Seq<u8>, output: Seq<u8>, steps: nat)
    requires
        tape.len() >= 2,
        steps >= 4,
    ensures
        ({
            let (end, ending) = world(start(shuttle(), tape, 0), input, 0, output).run(steps);
            &&& ending == Ending::Halted
            &&& end.machine.pointer == 0
            &&& end.machine.tape == tape.update(1, increment(tape[1])).update(
                0,
                decrement(tape[0]),
            )
            &&& end.consumed == 0
            &&& end.output == output
        }),
{
    let w0 = world(start(shuttle(), tape, 0), input, 0, output);
    let w1 = w0.advance().unwrap();
    let w2 = w1.advance().unwrap();
    let w3 = w2.advance().unwrap();
    let w4 = w3.advance().unwrap();
    assert(w0.run(steps) == w1.run((steps - 1) as nat));
    assert(w1.run((steps - 1) as nat) == w2.run((steps - 2) as nat));
    assert(w2.run((steps - 2) as nat) == w3.run((steps - 3) as nat));
    assert(w3.run((steps - 3) as nat) == w4.run((steps - 4) as nat));
    assert(w4.machine.halted());
}

/// The program `,.`.
pub open spec fn echo() -> Seq<Op> {
    seq![Op::Get, Op::Put]
}

/// `,.` reads one byte and writes that byte, in two transitions, and leaves
/// the byte in the current cell.
pub proof fn lemma_echo(tape: Seq<u8>, pointer: int, input: Seq<u8>, output: Seq<u8>, steps: nat)
    requires
        0 <= pointer < tape.len(),
        input.len() >= 1,
        steps >= 2,
    ensures
        ({
            let (end, ending) = world(start(echo(), tape, pointer), input, 0, output).run(steps);
            &&& ending == Ending::Halted
            &&& end.consumed == 1
            &&& end.output == output.push(input[0])
            &&& end.machine.pointer == pointer
            &&& end.machine.tape == tape.update(pointer, input[0])
        }),
{
    let w0 = world(start(echo(), tape, pointer), input, 0, output);
    let w1 = w0.advance().unwrap();
    let w2 = w1.advance().unwrap();
    assert(w0.run(steps) == w1.run((steps - 1) as nat));
    assert(w1.run((steps - 1) as nat) == w2.run((steps - 2) as nat));
    assert(w2.machine.halted());
}

/// `,` with nothing left to read fails, and nothing is changed.
pub proof fn lemma_input_exhausted(tape: Seq<u8>, pointer: int, output: Seq<u8>, steps: nat)
    requires
        0 <= pointer < tape.len(),
        steps >= 1,
    ensures
        ({
            let begin = world(start(echo(), tape, pointer), Seq::empty(), 0, output);
            begin.run(steps) == (begin, Ending::Failed(Error::InputExhausted))
        }),
{
}

/// The program of `count` times `+`.
pub open spec fn increments(count: nat) -> Seq<Op> {
    Seq::new(count, |i: int| Op::Inc)
}

/// The value of a cell after `count` additions of one.
pub open spec fn added(value: u8, count: nat) -> u8 {
    ((value + count) % 256) as u8
}

/// A run of `+` from position `done` on adds what is left of the program to
/// the current cell.
proof fn lemma_increments_from(
    count: nat,
    done: nat,
    tape: Seq<u8>,
    pointer: int,
    input: Seq<u8>,
    output: Seq<u8>,
    steps: nat,
)
    requires
        0 <= pointer < tape.len(),
        done <= count,
        steps >= count - done,
    ensures
        ({
            let from = State { next: done as int, ..start(increments(count), tape, pointer) };
            let (end, ending) = world(from, input, 0, output).run(steps);
            &&& ending == Ending::Halted
            &&& end.machine.pointer == pointer
            &&& end.machine.tape == tape.update(
                pointer,
                added(tape[pointer], (count - done) as nat),
            )
            &&& end.consumed == 0
            &&& end.output == output
        }),
    decreases count - done,
{
    let from = State { next: done as int, ..start(increments(count), tape, pointer) };
    let w = world(from, input, 0, output);
    if done == count {
        assert(from.halted());
        assert(tape.update(pointer, added(tape[pointer], 0)) =~= tape);
    } else {
        let after = tape.update(pointer, increment(tape[pointer]));
        let next = State { next: (done + 1) as int, ..start(increments(count), after, pointer) };
        assert(w.advance() == Ok::<World, Error>(world(next, input, 0, output)));
        lemma_increments_from(count, done + 1, after, pointer, input, output, (steps - 1) as nat);
        assert(added(after[pointer], (count - done - 1) as nat) == added(
            tape[pointer],
            (count - done) as nat,
        ));
        assert(after.update(pointer, added(after[pointer], (count - done - 1) as nat))
            =~= tape.update(pointer, added(tape[pointer], (count - done) as nat)));
    }
}

/// `count` times `+` adds `count` to the current cell, modulo 256, and
/// touches nothing else.
pub proof fn lemma_increments(
    count: nat,
    tape: Seq<u8>,
    pointer: int,
    input: Seq<u8>,
    output: Seq<u8>,
    steps: nat,
)
    requires
        0 <= pointer < tape.len(),
        steps >= count,
    ensures
        ({
            let (end, ending) = world(start(increments(count), tape, pointer), input, 0, output).run(
                steps,
            );
            &&& ending == Ending::Halted
            &&& end.machine.pointer == pointer
            &&& end.machine.tape == tape.update(pointer, added(tape[pointer], count))
            &&& end.consumed == 0
            &&& end.output == output
        }),
{
    lemma_increments_from(count, 0, tape, pointer, input, output, steps);
}

/// 256 times `+` brings every cell back to the value it had: a cell wraps
/// around from 255 to 0.
pub proof fn lemma_increments_wrap(
    tape: Seq<u8>,
    pointer: int,
    input: Seq<u8>,
    output: Seq<u8>,
    steps: nat,
)
    requires
        0 <= pointer < tape.len(),
        steps >= 256,
    ensures
        ({
            let (end, ending) = world(start(increments(256), tape, pointer), input, 0, output).run(
                steps,
            );
            &&& ending == Ending::Halted
            &&& end.machine.tape == tape
            &&& end.machine.pointer == pointer
        }),
{
    lemma_increments(256, tape, pointer, input, output, steps);
    assert(tape.update(pointer, added(tape[pointer], 256)) =~= tape);
}

/// The program `[-]`.
pub open spec fn clear() -> Seq<Op> {
    seq![Op::Loop(seq![Op::Dec])]
}

/// The machine inside the body of `[-]`, at position `next` of the body.
pub open spec fn clearing(tape: Seq<u8>, pointer: int, next: int) -> State {
    State {
        body: seq![Op::Dec],
        next,
        outer: seq![Frame { body: clear(), next: 1 }],
        tape,
        pointer,
    }
}

/// The machine at the end of `[-]`.
pub open spec fn cleared(tape: Seq<u8>, pointer: int) -> State {
    State { next: 1, ..start(clear(), tape.update(pointer, 0), pointer) }
}

/// From the start of the body of `[-]` with a cell that is not zero, the run
/// ends after two transitions for each unit of the cell, and not before.
proof fn lemma_clearing(tape: Seq<u8>, pointer: int, input: Seq<u8>, output: Seq<u8>, steps: nat)
    requires
        0 <= pointer < tape.len(),
        tape[pointer] > 0,
    ensures
        ({
            let (end, ending) = world(clearing(tape, pointer, 0), input, 0, output).run(steps);
            if steps >= 2 * tape[pointer] {
                &&& ending == Ending::Halted
                &&& end == world(cleared(tape, pointer), input, 0, output)
            } else {
                ending == Ending::Paused
            }
        }),
    decreases tape[pointer],
{
    let w0 = world(clearing(tape, pointer, 0), input, 0, output);
    let after = tape.update(pointer, decrement(tape[pointer]));
    let w1 = world(clearing(after, pointer, 1), input, 0, output);
    assert(!w0.machine.halted());
    assert(!w1.machine.halted());
    assert(after[pointer] == tape[pointer] - 1);
    if steps == 0 {
        assert(w0.run(steps) == (w0, Ending::Paused));
    } else {
        assert(w0.advance() == Ok::<World, Error>(w1));
        assert(w0.run(steps) == w1.run((steps - 1) as nat));
        if steps == 1 {
            assert(w1.run(0) == (w1, Ending::Paused));
        } else if after[pointer] != 0 {
            let w2 = world(clearing(after, pointer, 0), input, 0, output);
            assert(w1.advance() == Ok::<World, Error>(w2));
            assert(w1.run((steps - 1) as nat) == w2.run((steps - 2) as nat));
            lemma_clearing(after, pointer, input, output, (steps - 2) as nat);
            assert(after.update(pointer, 0) =~= tape.update(pointer, 0));
        } else {
            let w2 = world(cleared(tape, pointer), input, 0, output);
            assert(w1.machine.outer.drop_last() =~= Seq::<Frame>::empty());
            assert(after =~= tape.update(pointer, 0));
            assert(w1.advance() == Ok::<World, Error>(w2));
            assert(w1.run((steps - 1) as nat) == w2.run((steps - 2) as nat));
            assert(w2.machine.halted());
            assert(w2.run((steps - 2) as nat) == (w2, Ending::Halted));
        }
    }
}

/// `[-]` sets the current cell to zero and touches nothing else. On a cell
/// that holds zero the body is never entered and the run is one transition.
/// On a cell that holds `n` the body is run `n` times, once for each
/// subtraction, and the run ends after `2 * n + 1` transitions and not
/// before.
pub proof fn lemma_clear(tape: Seq<u8>, pointer: int, input: Seq<u8>, output: Seq<u8>, steps: nat)
    requires
        0 <= pointer < tape.len(),
    ensures
        ({
            let (end, ending) = world(start(clear(), tape, pointer), input, 0, output).run(steps);
            if steps >= 2 * tape[pointer] + 1 {
                &&& ending == Ending::Halted
                &&& end.machine.tape == tape.update(pointer, 0)
                &&& end.machine.pointer == pointer
                &&& end.consumed == 0
                &&& end.output == output
            } else {
                ending == Ending::Paused
            }
        }),
{
    let w0 = world(start(clear(), tape, pointer), input, 0, output);
    assert(!w0.machine.halted());
    if steps == 0 {
        assert(w0.run(steps) == (w0, Ending::Paused));
    } else if tape[pointer] == 0 {
        let w1 = world(cleared(tape, pointer), input, 0, output);
        assert(tape.update(pointer, 0) =~= tape);
        assert(w0.advance() == Ok::<World, Error>(w1));
        assert(w0.run(steps) == w1.run((steps - 1) as nat));
        assert(w1.machine.halted());
        assert(w1.run((steps - 1) as nat) == (w1, Ending::Halted));
    } else {
        let w1 = world(clearing(tape, pointer, 0), input, 0, output);
        assert(w0.machine.outer.push(Frame { body: clear(), next: 1 }) =~= seq![
            Frame { body: clear(), next: 1 },
        ]);
        assert(w0.advance() == Ok::<World, Error>(w1));
        assert(w0.run(steps) == w1.run((steps - 1) as nat));
        lemma_clearing(tape, pointer, input, output, (steps - 1) as nat);
    }
}

} // verus!
