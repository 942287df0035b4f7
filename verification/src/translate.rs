//! Translation of source text into an instruction tree.

use crate::error::Error;
use crate::operator::{lemma_model_empty, lemma_model_push, ops_model, Op, Operator};
use crate::syntax::{
    balanced, closes_matched, commands, depth, is_command, lemma_commands_concat,
    lemma_parse_unique, lemma_render_balanced, lemma_render_injective, nesting, parse, render,
    render_op,
};
use vstd::prelude::*;

verus! {

/// The models of the loop bodies that are still open, outermost first.
pub open spec fn bodies_model(bodies: Seq<Vec<Operator>>) -> Seq<Seq<Op>> {
    Seq::new(bodies.len(), |k: int| ops_model(bodies[k]@))
}

/// The text that has been read for the open bodies: each body written out
/// and followed by the `[` that opened the next one.
pub open spec fn render_open(bodies: Seq<Seq<Op>>) -> Seq<char>
    decreases bodies.len(),
{
    if bodies.len() == 0 {
        Seq::empty()
    } else {
        render_open(bodies.drop_last()) + render(bodies.last()) + seq!['[']
    }
}

/// Reading one more character extends the commands and the depth by that
/// character alone.
proof fn lemma_take_next(text: Seq<char>, n: int)
    requires
        0 <= n < text.len(),
    ensures
        commands(text.take(n + 1)) == if is_command(text[n]) {
            commands(text.take(n)).push(text[n])
        } else {
            commands(text.take(n))
        },
        depth(text.take(n + 1)) == depth(text.take(n)) + nesting(text[n]),
{
    assert(text.take(n + 1).drop_last() =~= text.take(n));
}

/// Writing out a program with one more instruction appends that instruction.
pub proof fn lemma_render_push(ops: Seq<Op>, op: Op)
    ensures
        render(ops.push(op)) == render(ops) + render_op(op),
{
    assert(ops.push(op).drop_last() =~= ops);
}

/// The instruction that a command character other than a loop marker
/// stands for.
pub open spec fn plain_op(c: char) -> Op {
    if c == '>' {
        Op::Right
    } else if c == '<' {
        Op::Left
    } else if c == '+' {
        Op::Inc
    } else if c == '-' {
        Op::Dec
    } else if c == '.' {
        Op::Put
    } else {
        Op::Get
    }
}

/// The bodies that reading `text` from left to right leaves open, outermost
/// first, and the body that is being read. A `]` that closes nothing is
/// passed over.
pub open spec fn scan(text: Seq<char>) -> (Seq<Seq<Op>>, Seq<Op>)
    decreases text.len(),
{
    if text.len() == 0 {
        (Seq::empty(), Seq::empty())
    } else {
        let (open, current) = scan(text.drop_last());
        let c = text.last();
        if c == '[' {
            (open.push(current), Seq::empty())
        } else if c == ']' {
            if open.len() > 0 {
                (open.drop_last(), open.last().push(Op::Loop(current)))
            } else {
                (open, current)
            }
        } else if is_command(c) {
            (open, current.push(plain_op(c)))
        } else {
            (open, current)
        }
    }
}

/// While no `]` comes before its `[`, the bodies read so far, written out
/// with a `[` after each open one, are the commands read so far, and there
/// are as many open bodies as the text is deep.
pub proof fn lemma_scan(text: Seq<char>)
    requires
        closes_matched(text),
    ensures
        scan(text).0.len() == depth(text),
        render_open(scan(text).0) + render(scan(text).1) == commands(text),
    decreases text.len(),
{
    if text.len() == 0 {
        assert(render_open(scan(text).0) + render(scan(text).1) =~= commands(text));
    } else {
        let front = text.drop_last();
        let c = text.last();
        assert forall|n: int| 0 <= n <= front.len() implies depth(#[trigger] front.take(n))
            >= 0 by {
            assert(front.take(n) =~= text.take(n));
        }
        lemma_scan(front);
        assert(text.take(text.len() as int) =~= text);
        let (open, current) = scan(front);
        let sofar = render_open(open) + render(current);
        if c == '[' {
            assert(open.push(current).drop_last() =~= open);
            assert(render_open(open.push(current)) + render(Seq::<Op>::empty()) =~= sofar.push(
                c,
            ));
        } else if c == ']' {
            let outer = open.drop_last();
            let shell = open.last();
            lemma_render_push(shell, Op::Loop(current));
            assert(render_open(outer) + render(shell.push(Op::Loop(current))) =~= sofar.push(c));
        } else if is_command(c) {
            lemma_render_push(current, plain_op(c));
            assert(render_open(open) + render(current.push(plain_op(c))) =~= sofar.push(c));
        }
    }
}

/// Commentary does not count for the depth.
pub proof fn lemma_commands_depth(text: Seq<char>)
    ensures
        depth(commands(text)) == depth(text),
    decreases text.len(),
{
    if text.len() > 0 {
        lemma_commands_depth(text.drop_last());
        if is_command(text.last()) {
            assert(commands(text).drop_last() =~= commands(text.drop_last()));
        }
    }
}

/// A balanced text stands for a program: [`parse`] gives one that, written
/// out, is the commands of the text.
pub proof fn lemma_balanced_has_program(text: Seq<char>)
    requires
        balanced(text),
    ensures
        render(parse(text)) == commands(text),
{
    lemma_scan(text);
    let (open, current) = scan(text);
    assert(render_open(open) + render(current) =~= render(current));
    assert(render(current) == commands(text));
}

/// Only a balanced text stands for a program.
pub proof fn lemma_program_text_balanced(text: Seq<char>, ops: Seq<Op>)
    requires
        render(ops) == commands(text),
    ensures
        balanced(text),
{
    lemma_render_balanced(ops);
    lemma_commands_depth(text);
    assert forall|n: int| 0 <= n <= text.len() implies depth(#[trigger] text.take(n)) >= 0 by {
        let front = text.take(n);
        assert(text =~= front + text.skip(n));
        lemma_commands_concat(front, text.skip(n));
        lemma_commands_depth(front);
        let m = commands(front).len() as int;
        assert(commands(text).take(m) =~= commands(front));
    }
}

/// Translation has one result: two programs that both are what
/// [`interpret`] promises for `text` are the same tree.
pub proof fn lemma_interpret_deterministic(
    text: Seq<char>,
    first: Seq<Operator>,
    second: Seq<Operator>,
)
    requires
        render(ops_model(first)) == commands(text),
        render(ops_model(second)) == commands(text),
    ensures
        ops_model(first) == ops_model(second),
{
    lemma_render_injective(ops_model(first), ops_model(second));
}

/// Translates source text into a program.
///
/// Each of `> < + - . ,` becomes one instruction, `[` opens a loop body and
/// `]` closes the innermost open one; every other character is commentary
/// and is skipped. The translation succeeds exactly on balanced text, and the
/// program it returns, written out again, is the text without its commentary.
pub fn interpret(input: String) -> (result: Result<Vec<Operator>, Error>)
    ensures
        result is Ok <==> balanced(input@),
        result matches Ok(program) ==> render(ops_model(program@)) == commands(input@),
        result matches Ok(program) ==> ops_model(program@) == parse(input@),
        result matches Err(e) ==> e == Error::MalformedProgram,
{
    let mut current: Vec<Operator> = Vec::new();
    let mut open: Vec<Vec<Operator>> = Vec::new();
    proof {
        lemma_model_empty(current@);
        assert(input@.take(0) =~= Seq::<char>::empty());
        assert(bodies_model(open@) =~= Seq::<Seq<Op>>::empty());
    }
    for c in it: input.as_str().chars()
        invariant
            it.seq() == input@,
            depth(input@.take(it.index())) == open@.len(),
            forall|n: int| 0 <= n <= it.index() ==> depth(#[trigger] input@.take(n)) >= 0,
            render_open(bodies_model(open@)) + render(ops_model(current@)) == commands(
                input@.take(it.index()),
            ),
    {
        let ghost n = it.index();
        let ghost before = current@;
        let ghost outer = bodies_model(open@);
        proof {
            lemma_take_next(input@, n);
        }
        if c == '>' {
            current.push(Operator::IncDataPointer);
        } else if c == '<' {
            current.push(Operator::DecDataPointer);
        } else if c == '+' {
            current.push(Operator::IncValue);
        } else if c == '-' {
            current.push(Operator::DecValue);
        } else if c == '.' {
            current.push(Operator::Output);
        } else if c == ',' {
            current.push(Operator::Input);
        } else if c == '[' {
            open.push(current);
            current = Vec::new();
            proof {
                lemma_model_empty(current@);
                assert(bodies_model(open@).drop_last() =~= outer);
                assert(bodies_model(open@).last() == ops_model(before));
                assert(render_open(bodies_model(open@)) + render(ops_model(current@))
                    =~= (render_open(outer) + render(ops_model(before))).push('['));
            }
        } else if c == ']' {
            match open.pop() {
                None => {
                    assert(depth(input@.take(n + 1)) < 0);
                    return Err(Error::MalformedProgram);
                },
                Some(mut enclosing) => {
                    let ghost shell = enclosing@;
                    let inner = Operator::Loop(current);
                    enclosing.push(inner);
                    current = enclosing;
                    proof {
                        lemma_model_push(shell, inner);
                        lemma_render_push(ops_model(shell), inner@);
                        assert(outer.drop_last() =~= bodies_model(open@));
                        assert(outer.last() == ops_model(shell));
                        assert(render_open(bodies_model(open@)) + render(ops_model(current@))
                            =~= (render_open(outer) + render(ops_model(before))).push(']'));
                    }
                },
            }
        }
        proof {
            if c == '>' || c == '<' || c == '+' || c == '-' || c == '.' || c == ',' {
                let op = current@.last();
                assert(current@ =~= before.push(op));
                lemma_model_push(before, op);
                lemma_render_push(ops_model(before), op@);
                assert(render_open(outer) + render(ops_model(current@)) =~= (render_open(outer)
                    + render(ops_model(before))).push(c));
            }
        }
    }
    proof {
        assert(input@.take(input@.len() as int) =~= input@);
    }
    if open.len() > 0 {
        return Err(Error::MalformedProgram);
    }
    proof {
        assert(bodies_model(open@) =~= Seq::<Seq<Op>>::empty());
        assert(render_open(bodies_model(open@)) + render(ops_model(current@)) =~= render(
            ops_model(current@),
        ));
        lemma_parse_unique(input@, ops_model(current@));
    }
    Ok(current)
}

} // verus!
