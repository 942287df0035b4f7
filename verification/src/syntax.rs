//! Source text as a sequence of characters: which characters are commands,
//! how deep a position is nested, and how a program is written out.

use crate::operator::Op;
use vstd::prelude::*;

verus! {

/// Whether `c` is one of the eight command characters. Every other character
/// is commentary.
pub open spec fn is_command(c: char) -> bool {
    c == '>' || c == '<' || c == '+' || c == '-' || c == '.' || c == ',' || c == '[' || c == ']'
}

/// The command characters of `text`, in order, with the commentary removed.
pub open spec fn commands(text: Seq<char>) -> Seq<char>
    decreases text.len(),
{
    if text.len() == 0 {
        Seq::empty()
    } else if is_command(text.last()) {
        commands(text.drop_last()).push(text.last())
    } else {
        commands(text.drop_last())
    }
}

/// What a character adds to the nesting depth.
pub open spec fn nesting(c: char) -> int {
    if c == '[' {
        1
    } else if c == ']' {
        -1
    } else {
        0
    }
}

/// The number of `[` in `text` minus the number of `]`.
pub open spec fn depth(text: Seq<char>) -> int
    decreases text.len(),
{
    if text.len() == 0 {
        0
    } else {
        depth(text.drop_last()) + nesting(text.last())
    }
}

/// No `]` comes before its `[`: no prefix of `text` has more `]` than `[`.
pub open spec fn closes_matched(text: Seq<char>) -> bool {
    forall|n: int| 0 <= n <= text.len() ==> depth(#[trigger] text.take(n)) >= 0
}

/// Every `]` closes an earlier `[` and every `[` is closed.
pub open spec fn balanced(text: Seq<char>) -> bool {
    closes_matched(text) && depth(text) == 0
}

/// The source text of one instruction.
pub open spec fn render_op(op: Op) -> Seq<char>
    decreases op,
{
    match op {
        Op::Right => seq!['>'],
        Op::Left => seq!['<'],
        Op::Inc => seq!['+'],
        Op::Dec => seq!['-'],
        Op::Put => seq!['.'],
        Op::Get => seq![','],
        Op::Loop(body) => seq!['['] + render(body) + seq![']'],
    }
}

/// The source text of a program: its instructions written out one after
/// another, without commentary.
pub open spec fn render(ops: Seq<Op>) -> Seq<char>
    decreases ops,
{
    if ops.len() == 0 {
        Seq::empty()
    } else {
        render(ops.drop_last()) + render_op(ops.last())
    }
}

/// The program that `text` stands for: the one that, written out, gives the
/// commands of `text`. There is at most one ([`lemma_parse_unique`]), and
/// there is one exactly when `text` is balanced
/// ([`crate::translate::lemma_balanced_has_program`],
/// [`crate::translate::lemma_program_text_balanced`]).
pub open spec fn parse(text: Seq<char>) -> Seq<Op> {
    choose|ops: Seq<Op>| render(ops) == commands(text)
}

/// The depth of a text in two parts is the sum of the depths of the parts.
pub proof fn lemma_depth_concat(front: Seq<char>, back: Seq<char>)
    ensures
        depth(front + back) == depth(front) + depth(back),
    decreases back.len(),
{
    if back.len() == 0 {
        assert(front + back =~= front);
    } else {
        lemma_depth_concat(front, back.drop_last());
        assert((front + back).drop_last() =~= front + back.drop_last());
    }
}

/// The commands of a text in two parts are the commands of the parts.
pub proof fn lemma_commands_concat(front: Seq<char>, back: Seq<char>)
    ensures
        commands(front + back) == commands(front) + commands(back),
    decreases back.len(),
{
    if back.len() == 0 {
        assert(front + back =~= front);
        assert(commands(front) + commands(back) =~= commands(front));
    } else {
        lemma_commands_concat(front, back.drop_last());
        assert((front + back).drop_last() =~= front + back.drop_last());
        if is_command(back.last()) {
            assert(commands(front + back) =~= commands(front) + commands(back));
        }
    }
}

/// The text of one instruction is not empty, has depth zero, and no part of
/// it from some position to the end has more `[` than `]`. From inside a
/// loop's text to its end there is a `]` too many.
pub proof fn lemma_render_op_closed(op: Op)
    ensures
        render_op(op).len() >= 1,
        depth(render_op(op)) == 0,
        forall|k: int| 0 <= k <= render_op(op).len() ==> depth(#[trigger] render_op(op).skip(k)) <= 0,
        op is Loop ==> forall|k: int|
            1 <= k < render_op(op).len() ==> depth(#[trigger] render_op(op).skip(k)) <= -1,
        op is Loop ==> render_op(op).last() == ']',
        !(op is Loop) ==> render_op(op).len() == 1 && render_op(op).last() != ']',
    decreases op, 0nat,
{
    let text = render_op(op);
    match op {
        Op::Loop(body) => {
            let inner = render(body);
            lemma_render_closed(body);
            assert(text.len() == inner.len() + 2);
            lemma_depth_concat(seq!['['], inner);
            lemma_depth_concat(seq!['['] + inner, seq![']']);
            lemma_depth_single('[');
            lemma_depth_single(']');
            assert(depth(text) == 0);
            assert forall|k: int| 0 <= k <= text.len() implies depth(#[trigger] text.skip(k))
                <= if 1 <= k < text.len() {
                -1int
            } else {
                0int
            } by {
                if k == 0 {
                    assert(text.skip(0) =~= text);
                    lemma_depth_concat(seq!['['], inner);
                    lemma_depth_concat(seq!['['] + inner, seq![']']);
                    lemma_depth_single('[');
                    lemma_depth_single(']');
                } else if k < text.len() {
                    assert(text.skip(k) =~= inner.skip(k - 1) + seq![']']);
                    lemma_depth_concat(inner.skip(k - 1), seq![']']);
                    lemma_depth_single(']');
                } else {
                    assert(text.skip(k) =~= Seq::<char>::empty());
                }
            }
            assert(text.skip(0) =~= text);
        },
        _ => {
            assert(text.len() == 1);
            lemma_depth_single(text[0]);
            assert(text =~= seq![text[0]]);
            assert forall|k: int| 0 <= k <= text.len() implies depth(#[trigger] text.skip(k))
                <= 0 by {
                if k == 0 {
                    assert(text.skip(0) =~= text);
                } else {
                    assert(text.skip(k) =~= Seq::<char>::empty());
                }
            }
        },
    }
}

/// The depth of a text of one character.
pub proof fn lemma_depth_single(c: char)
    ensures
        depth(seq![c]) == nesting(c),
{
    assert(seq![c].drop_last() =~= Seq::<char>::empty());
    assert(depth(seq![c].drop_last()) == 0);
}

/// The text of a program has depth zero, and no part of it from some
/// position to the end has more `[` than `]`.
pub proof fn lemma_render_closed(ops: Seq<Op>)
    ensures
        depth(render(ops)) == 0,
        forall|k: int| 0 <= k <= render(ops).len() ==> depth(#[trigger] render(ops).skip(k)) <= 0,
    decreases ops, 1nat,
{
    let text = render(ops);
    if ops.len() == 0 {
        assert forall|k: int| 0 <= k <= text.len() implies depth(#[trigger] text.skip(k))
            <= 0 by {
            assert(text.skip(k) =~= Seq::<char>::empty());
        }
    } else {
        let front = render(ops.drop_last());
        let back = render_op(ops.last());
        lemma_render_closed(ops.drop_last());
        lemma_render_op_closed(ops.last());
        lemma_depth_concat(front, back);
        assert forall|k: int| 0 <= k <= text.len() implies depth(#[trigger] text.skip(k))
            <= 0 by {
            if k <= front.len() {
                assert(text.skip(k) =~= front.skip(k) + back);
                lemma_depth_concat(front.skip(k), back);
            } else {
                assert(text.skip(k) =~= back.skip(k - front.len()));
            }
        }
    }
}

/// The text of a program is balanced.
pub proof fn lemma_render_balanced(ops: Seq<Op>)
    ensures
        balanced(render(ops)),
{
    let text = render(ops);
    lemma_render_closed(ops);
    assert forall|n: int| 0 <= n <= text.len() implies depth(#[trigger] text.take(n)) >= 0 by {
        assert(text =~= text.take(n) + text.skip(n));
        lemma_depth_concat(text.take(n), text.skip(n));
    }
}

/// The text of a program holds no commentary.
pub proof fn lemma_render_all_commands(ops: Seq<Op>)
    ensures
        commands(render(ops)) == render(ops),
    decreases ops, 1nat,
{
    if ops.len() == 0 {
    } else {
        lemma_render_all_commands(ops.drop_last());
        lemma_render_op_all_commands(ops.last());
        lemma_commands_concat(render(ops.drop_last()), render_op(ops.last()));
    }
}

/// The text of one instruction holds no commentary.
pub proof fn lemma_render_op_all_commands(op: Op)
    ensures
        commands(render_op(op)) == render_op(op),
    decreases op, 0nat,
{
    match op {
        Op::Loop(body) => {
            lemma_render_all_commands(body);
            lemma_commands_single('[');
            lemma_commands_single(']');
            lemma_commands_concat(seq!['['], render(body));
            lemma_commands_concat(seq!['['] + render(body), seq![']']);
        },
        _ => {
            let text = render_op(op);
            assert(text =~= seq![text[0]]);
            lemma_commands_single(text[0]);
        },
    }
}

/// A text of one command character is its own commands.
pub proof fn lemma_commands_single(c: char)
    requires
        is_command(c),
    ensures
        commands(seq![c]) == seq![c],
{
    assert(seq![c].drop_last() =~= Seq::<char>::empty());
    assert(commands(seq![c].drop_last()) =~= Seq::<char>::empty());
    assert(commands(seq![c]) =~= seq![c]);
}

/// Two texts that are equal and end in parts of one length agree part by
/// part.
proof fn lemma_split_same(
    front_a: Seq<char>,
    back_a: Seq<char>,
    front_b: Seq<char>,
    back_b: Seq<char>,
)
    requires
        front_a + back_a == front_b + back_b,
        back_a.len() == back_b.len(),
    ensures
        front_a == front_b,
        back_a == back_b,
{
    let text = front_a + back_a;
    assert(front_a.len() + back_a.len() == text.len());
    assert(front_b.len() + back_b.len() == text.len());
    assert(front_a =~= text.take(front_a.len() as int));
    assert(front_b =~= text.take(front_b.len() as int));
    assert(back_a =~= text.skip(front_a.len() as int));
    assert(back_b =~= text.skip(front_b.len() as int));
}

/// Where two texts are equal and each ends in the text of an instruction,
/// the two instructions have texts of one length.
proof fn lemma_last_op_len(front_a: Seq<char>, a: Op, front_b: Seq<char>, b: Op)
    requires
        front_a + render_op(a) == front_b + render_op(b),
    ensures
        render_op(a).len() == render_op(b).len(),
{
    let text = front_a + render_op(a);
    let back_a = render_op(a);
    let back_b = render_op(b);
    lemma_render_op_closed(a);
    lemma_render_op_closed(b);
    assert(front_a.len() + back_a.len() == text.len());
    assert(front_b.len() + back_b.len() == text.len());
    if back_a.len() < back_b.len() {
        let k = back_b.len() - back_a.len();
        assert(back_a =~= text.skip(front_a.len() as int));
        assert(back_b =~= text.skip(front_b.len() as int));
        assert(back_b.skip(k) =~= back_a);
        assert(depth(back_b.skip(k)) <= -1);
    } else if back_b.len() < back_a.len() {
        let k = back_a.len() - back_b.len();
        assert(back_a =~= text.skip(front_a.len() as int));
        assert(back_b =~= text.skip(front_b.len() as int));
        assert(back_a.skip(k) =~= back_b);
        assert(depth(back_a.skip(k)) <= -1);
    }
}

/// Two programs with the same text are the same program.
pub proof fn lemma_render_injective(first: Seq<Op>, second: Seq<Op>)
    requires
        render(first) == render(second),
    ensures
        first == second,
    decreases render(first).len(), 1nat,
{
    if first.len() == 0 || second.len() == 0 {
        if first.len() > 0 {
            lemma_render_op_closed(first.last());
        }
        if second.len() > 0 {
            lemma_render_op_closed(second.last());
        }
        assert(first =~= second);
    } else {
        let a = first.last();
        let b = second.last();
        let front_a = render(first.drop_last());
        let front_b = render(second.drop_last());
        lemma_render_op_closed(a);
        lemma_render_op_closed(b);
        lemma_last_op_len(front_a, a, front_b, b);
        lemma_split_same(front_a, render_op(a), front_b, render_op(b));
        lemma_render_injective(first.drop_last(), second.drop_last());
        lemma_render_op_injective(a, b, render(first).len());
        assert(first =~= first.drop_last().push(a));
        assert(second =~= second.drop_last().push(b));
    }
}

/// Two instructions with the same text are the same instruction.
proof fn lemma_render_op_injective(a: Op, b: Op, bound: nat)
    requires
        render_op(a) == render_op(b),
        render_op(a).len() <= bound,
    ensures
        a == b,
    decreases bound, 0nat,
{
    let text = render_op(a);
    lemma_render_op_closed(a);
    lemma_render_op_closed(b);
    match (a, b) {
        (Op::Loop(body_a), Op::Loop(body_b)) => {
            assert(render(body_a) =~= text.subrange(1, text.len() - 1));
            assert(render(body_b) =~= text.subrange(1, text.len() - 1));
            lemma_render_injective(body_a, body_b);
        },
        _ => {
            assert(render_op(a)[0] == render_op(b)[0]);
        },
    }
}

/// A text stands for at most one program: whatever writes out to the
/// commands of `text` is `parse(text)`.
pub proof fn lemma_parse_unique(text: Seq<char>, ops: Seq<Op>)
    requires
        render(ops) == commands(text),
    ensures
        parse(text) == ops,
{
    lemma_render_injective(parse(text), ops);
}

/// Writing a program out and reading it back gives the program again.
pub proof fn lemma_parse_render(ops: Seq<Op>)
    ensures
        balanced(render(ops)),
        parse(render(ops)) == ops,
{
    lemma_render_balanced(ops);
    lemma_render_all_commands(ops);
    lemma_parse_unique(render(ops), ops);
}

} // verus!
