//! The instruction tree of a translated program and its mathematical model.

use vstd::prelude::*;

verus! {

/// One instruction of a translated program.
///
/// A loop owns its body, so a program is a tree and every loop is closed by
/// construction.
#[derive(Debug)]
pub enum Operator {
    /// `>`: move the data pointer one cell to the right.
    IncDataPointer,
    /// `<`: move the data pointer one cell to the left.
    DecDataPointer,
    /// `+`: add one to the current cell, wrapping from 255 to 0.
    IncValue,
    /// `-`: subtract one from the current cell, wrapping from 0 to 255.
    DecValue,
    /// `.`: write the current cell as one byte.
    Output,
    /// `,`: read one byte into the current cell.
    Input,
    /// `[` body `]`: repeat the body while the current cell is not zero.
    Loop(Vec<Operator>),
}

/// The mathematical value of an [`Operator`]: the same tree, with a sequence
/// for each loop body.
pub enum Op {
    Right,
    Left,
    Inc,
    Dec,
    Put,
    Get,
    Loop(Seq<Op>),
}

/// The model of one instruction.
pub open spec fn op_model(op: Operator) -> Op
    decreases op,
{
    match op {
        Operator::IncDataPointer => Op::Right,
        Operator::DecDataPointer => Op::Left,
        Operator::IncValue => Op::Inc,
        Operator::DecValue => Op::Dec,
        Operator::Output => Op::Put,
        Operator::Input => Op::Get,
        Operator::Loop(body) => Op::Loop(ops_model(body@)),
    }
}

/// The model of an instruction sequence, element by element.
pub open spec fn ops_model(ops: Seq<Operator>) -> Seq<Op>
    decreases ops,
{
    Seq::new(
        ops.len(),
        |i: int|
            if 0 <= i < ops.len() {
                op_model(ops[i])
            } else {
                Op::Right
            },
    )
}

impl View for Operator {
    type V = Op;

    open spec fn view(&self) -> Op {
        op_model(*self)
    }
}

/// The model of an empty sequence is empty.
pub proof fn lemma_model_empty(ops: Seq<Operator>)
    requires
        ops.len() == 0,
    ensures
        ops_model(ops) == Seq::<Op>::empty(),
{
    assert(ops_model(ops) =~= Seq::<Op>::empty());
}

/// Appending an instruction appends its model.
pub proof fn lemma_model_push(ops: Seq<Operator>, op: Operator)
    ensures
        ops_model(ops.push(op)) == ops_model(ops).push(op@),
{
    assert(ops_model(ops.push(op)) =~= ops_model(ops).push(op@));
}

impl Clone for Operator {
    /// A deep copy: the clone has the same model.
    fn clone(&self) -> (copy: Self)
        ensures
            copy@ == self@,
        decreases self,
    {
        match self {
            Operator::IncDataPointer => Operator::IncDataPointer,
            Operator::DecDataPointer => Operator::DecDataPointer,
            Operator::IncValue => Operator::IncValue,
            Operator::DecValue => Operator::DecValue,
            Operator::Output => Operator::Output,
            Operator::Input => Operator::Input,
            Operator::Loop(body) => {
                let mut items: Vec<Operator> = Vec::new();
                let mut i: usize = 0;
                while i < body.len()
                    invariant
                        self->Loop_0 == *body,
                        self is Loop,
                        i <= body.len(),
                        items@.len() == i,
                        forall|j: int| 0 <= j < i ==> items@[j]@ == body@[j]@,
                    decreases body.len() - i,
                {
                    proof {
                        vstd::std_specs::vec::axiom_vec_index_decreases(*body, i as int);
                        assert(decreases_to!(*self => self->Loop_0));
                    }
                    items.push(body[i].clone());
                    i += 1;
                }
                let copy = Operator::Loop(items);
                assert(copy@->Loop_0 =~= self@->Loop_0);
                copy
            },
        }
    }
}

impl PartialEq for Operator {
    /// Whether the two instructions are the same tree.
    fn eq(&self, other: &Self) -> (same: bool)
        decreases self,
    {
        match (self, other) {
            (Operator::IncDataPointer, Operator::IncDataPointer) => true,
            (Operator::DecDataPointer, Operator::DecDataPointer) => true,
            (Operator::IncValue, Operator::IncValue) => true,
            (Operator::DecValue, Operator::DecValue) => true,
            (Operator::Output, Operator::Output) => true,
            (Operator::Input, Operator::Input) => true,
            (Operator::Loop(mine), Operator::Loop(theirs)) => {
                if mine.len() != theirs.len() {
                    assert(self@->Loop_0.len() != other@->Loop_0.len());
                    return false;
                }
                let mut i: usize = 0;
                while i < mine.len()
                    invariant
                        self->Loop_0 == *mine,
                        self is Loop,
                        other->Loop_0 == *theirs,
                        other is Loop,
                        mine.len() == theirs.len(),
                        i <= mine.len(),
                        forall|j: int| 0 <= j < i ==> mine@[j]@ == theirs@[j]@,
                    decreases mine.len() - i,
                {
                    proof {
                        vstd::std_specs::vec::axiom_vec_index_decreases(*mine, i as int);
                        assert(decreases_to!(*self => self->Loop_0));
                    }
                    if !mine[i].eq(&theirs[i]) {
                        assert(self@->Loop_0[i as int] != other@->Loop_0[i as int]);
                        return false;
                    }
                    i += 1;
                }
                assert(self@->Loop_0 =~= other@->Loop_0);
                true
            },
            _ => false,
        }
    }
}

impl Eq for Operator {}

impl vstd::std_specs::cmp::PartialEqSpecImpl for Operator {
    open spec fn obeys_eq_spec() -> bool {
        true
    }

    open spec fn eq_spec(&self, other: &Self) -> bool {
        self@ == other@
    }
}

} // verus!
