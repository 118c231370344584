//! The instructions of the stack machine and their mathematical model.

use vstd::prelude::*;

verus! {

/// One instruction of the stack machine. No instruction names where its
/// operands are: they are the topmost values of the stack.
#[derive(Debug, PartialEq, Eq)]
pub enum Instruction {
    /// Pushes a constant.
    Push(i64),
    /// Pops two values and pushes their sum.
    Add,
    /// Pops two values and pushes their difference.
    Sub,
    /// Pops two values and pushes their product.
    Mul,
    /// Pops two values and pushes 1 if they are equal, 0 otherwise.
    Equal,
    /// Marks a place that jumps can name.
    Label(String),
    /// Continues at the named label.
    Jump(String),
    /// Pops one value and continues at the named label if it is 1.
    BrIf(String),
}

/// The model of an [`Instruction`]: the same variants, with each name as the
/// sequence of its characters.
pub enum Op {
    Push(i64),
    Add,
    Sub,
    Mul,
    Equal,
    Label(Seq<char>),
    Jump(Seq<char>),
    BrIf(Seq<char>),
}

impl View for Instruction {
    type V = Op;

    open spec fn view(&self) -> Op {
        match self {
            Instruction::Push(value) => Op::Push(*value),
            Instruction::Add => Op::Add,
            Instruction::Sub => Op::Sub,
            Instruction::Mul => Op::Mul,
            Instruction::Equal => Op::Equal,
            Instruction::Label(name) => Op::Label(name@),
            Instruction::Jump(name) => Op::Jump(name@),
            Instruction::BrIf(name) => Op::BrIf(name@),
        }
    }
}

impl Clone for Instruction {
    fn clone(&self) -> (copy: Instruction)
        ensures
            copy@ == self@,
    {
        match self {
            Instruction::Push(value) => Instruction::Push(*value),
            Instruction::Add => Instruction::Add,
            Instruction::Sub => Instruction::Sub,
            Instruction::Mul => Instruction::Mul,
            Instruction::Equal => Instruction::Equal,
            Instruction::Label(name) => Instruction::Label(name.clone()),
            Instruction::Jump(name) => Instruction::Jump(name.clone()),
            Instruction::BrIf(name) => Instruction::BrIf(name.clone()),
        }
    }
}

/// The model of a sequence of instructions, one `Op` for each, in order.
pub open spec fn program(instructions: Seq<Instruction>) -> Seq<Op> {
    instructions.map_values(|instruction: Instruction| instruction@)
}

} // verus!
