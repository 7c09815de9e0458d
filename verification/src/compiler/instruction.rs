//! The instruction set of the stack machine.

use vstd::prelude::*;

use crate::text::{decimal, push_char, push_decimal, push_str};

verus! {

/// One instruction. Operands are slots, constant-pool indices or absolute
/// instruction addresses; everything else acts on the operand stack.
#[derive(Debug, Clone, Copy, PartialEq, Eq, Structural)]
pub enum Instruction {
    StoreSymbol(u16),
    LoadSymbol(u16),
    LoadValue(u16),
    Pop,
    Display,
    Jump(u16),
    JumpIfTrue(u16),
    JumpIfFalse(u16),
    BinaryAdd,
    BinarySubtract,
    BinaryMultiply,
    BinaryDivide,
    BinaryReminder,
    BinaryPower,
    BinaryLessThan,
    BinaryLessThanEqual,
    BinaryGreaterThan,
    BinaryGreaterThanEqual,
    BinaryEqual,
    BinaryNotEqual,
    BinaryLogicalAnd,
    BinaryLogicalOr,
    BinaryLogicalXor,
    UnaryMinus,
    UnaryNot,
}

impl Instruction {
    /// Whether the instruction transfers control.
    pub open spec fn is_jump(self) -> bool {
        self is Jump || self is JumpIfTrue || self is JumpIfFalse
    }

    /// The address a control transfer goes to.
    pub open spec fn jump_target(self) -> int
        recommends
            self.is_jump(),
    {
        match self {
            Instruction::Jump(t) => t as int,
            Instruction::JumpIfTrue(t) => t as int,
            Instruction::JumpIfFalse(t) => t as int,
            _ => 0,
        }
    }

    /// The same control transfer with another target; any other
    /// instruction unchanged.
    pub open spec fn retargeted(self, target: u16) -> Instruction {
        match self {
            Instruction::Jump(_) => Instruction::Jump(target),
            Instruction::JumpIfTrue(_) => Instruction::JumpIfTrue(target),
            Instruction::JumpIfFalse(_) => Instruction::JumpIfFalse(target),
            other => other,
        }
    }

    /// The slot an instruction reads or writes, if it names one.
    pub open spec fn symbol_operand(self) -> Option<int> {
        match self {
            Instruction::StoreSymbol(slot) => Some(slot as int),
            Instruction::LoadSymbol(slot) => Some(slot as int),
            _ => None,
        }
    }

    /// The constant-pool index an instruction loads, if it names one.
    pub open spec fn value_operand(self) -> Option<int> {
        match self {
            Instruction::LoadValue(index) => Some(index as int),
            _ => None,
        }
    }

    /// The operand of an instruction that has one.
    pub open spec fn operand(self) -> Option<int> {
        match self {
            Instruction::StoreSymbol(x) => Some(x as int),
            Instruction::LoadSymbol(x) => Some(x as int),
            Instruction::LoadValue(x) => Some(x as int),
            Instruction::Jump(x) => Some(x as int),
            Instruction::JumpIfTrue(x) => Some(x as int),
            Instruction::JumpIfFalse(x) => Some(x as int),
            _ => None,
        }
    }

    /// The name of the operation.
    pub open spec fn name(self) -> Seq<char> {
        match self {
            Instruction::StoreSymbol(_) => "StoreSymbol"@,
            Instruction::LoadSymbol(_) => "LoadSymbol"@,
            Instruction::LoadValue(_) => "LoadValue"@,
            Instruction::Pop => "Pop"@,
            Instruction::Display => "Display"@,
            Instruction::Jump(_) => "Jump"@,
            Instruction::JumpIfTrue(_) => "JumpIfTrue"@,
            Instruction::JumpIfFalse(_) => "JumpIfFalse"@,
            Instruction::BinaryAdd => "BinaryAdd"@,
            Instruction::BinarySubtract => "BinarySubtract"@,
            Instruction::BinaryMultiply => "BinaryMultiply"@,
            Instruction::BinaryDivide => "BinaryDivide"@,
            Instruction::BinaryReminder => "BinaryReminder"@,
            Instruction::BinaryPower => "BinaryPower"@,
            Instruction::BinaryLessThan => "BinaryLessThan"@,
            Instruction::BinaryLessThanEqual => "BinaryLessThanEqual"@,
            Instruction::BinaryGreaterThan => "BinaryGreaterThan"@,
            Instruction::BinaryGreaterThanEqual => "BinaryGreaterThanEqual"@,
            Instruction::BinaryEqual => "BinaryEqual"@,
            Instruction::BinaryNotEqual => "BinaryNotEqual"@,
            Instruction::BinaryLogicalAnd => "BinaryLogicalAnd"@,
            Instruction::BinaryLogicalOr => "BinaryLogicalOr"@,
            Instruction::BinaryLogicalXor => "BinaryLogicalXor"@,
            Instruction::UnaryMinus => "UnaryMinus"@,
            Instruction::UnaryNot => "UnaryNot"@,
        }
    }

    /// The mnemonic: the name, followed by the operand in parentheses
    /// where there is one.
    pub open spec fn mnemonic(self) -> Seq<char> {
        match self.operand() {
            Some(x) => self.name() + seq!['('] + decimal(x as nat) + seq![')'],
            None => self.name(),
        }
    }

    /// A jump that has not been given its target yet.
    pub fn unplaced_jump() -> (r: Instruction)
        ensures
            r == Instruction::Jump(0),
    {
        Instruction::Jump(0)
    }

    /// A jump-if-true that has not been given its target yet.
    pub fn unplaced_jump_if_true() -> (r: Instruction)
        ensures
            r == Instruction::JumpIfTrue(0),
    {
        Instruction::JumpIfTrue(0)
    }

    /// A jump-if-false that has not been given its target yet.
    pub fn unplaced_jump_if_false() -> (r: Instruction)
        ensures
            r == Instruction::JumpIfFalse(0),
    {
        Instruction::JumpIfFalse(0)
    }

    /// Whether the instruction transfers control.
    pub fn transfers_control(&self) -> (r: bool)
        ensures
            r == self.is_jump(),
    {
        match self {
            Instruction::Jump(_) | Instruction::JumpIfTrue(_) | Instruction::JumpIfFalse(_) => true,
            _ => false,
        }
    }

    /// The same control transfer aimed at `target`.
    pub fn with_target(&self, target: u16) -> (r: Instruction)
        ensures
            r == self.retargeted(target),
    {
        match self {
            Instruction::Jump(_) => Instruction::Jump(target),
            Instruction::JumpIfTrue(_) => Instruction::JumpIfTrue(target),
            Instruction::JumpIfFalse(_) => Instruction::JumpIfFalse(target),
            other => *other,
        }
    }

    fn name_str(&self) -> (r: &'static str)
        ensures
            r@ == self.name(),
    {
        match self {
            Instruction::StoreSymbol(_) => "StoreSymbol",
            Instruction::LoadSymbol(_) => "LoadSymbol",
            Instruction::LoadValue(_) => "LoadValue",
            Instruction::Pop => "Pop",
            Instruction::Display => "Display",
            Instruction::Jump(_) => "Jump",
            Instruction::JumpIfTrue(_) => "JumpIfTrue",
            Instruction::JumpIfFalse(_) => "JumpIfFalse",
            Instruction::BinaryAdd => "BinaryAdd",
            Instruction::BinarySubtract => "BinarySubtract",
            Instruction::BinaryMultiply => "BinaryMultiply",
            Instruction::BinaryDivide => "BinaryDivide",
            Instruction::BinaryReminder => "BinaryReminder",
            Instruction::BinaryPower => "BinaryPower",
            Instruction::BinaryLessThan => "BinaryLessThan",
            Instruction::BinaryLessThanEqual => "BinaryLessThanEqual",
            Instruction::BinaryGreaterThan => "BinaryGreaterThan",
            Instruction::BinaryGreaterThanEqual => "BinaryGreaterThanEqual",
            Instruction::BinaryEqual => "BinaryEqual",
            Instruction::BinaryNotEqual => "BinaryNotEqual",
            Instruction::BinaryLogicalAnd => "BinaryLogicalAnd",
            Instruction::BinaryLogicalOr => "BinaryLogicalOr",
            Instruction::BinaryLogicalXor => "BinaryLogicalXor",
            Instruction::UnaryMinus => "UnaryMinus",
            Instruction::UnaryNot => "UnaryNot",
        }
    }

    fn operand_of(&self) -> (r: Option<u16>)
        ensures
            match r {
                Some(x) => self.operand() == Some(x as int),
                None => self.operand() is None,
            },
    {
        match self {
            Instruction::StoreSymbol(x) => Some(*x),
            Instruction::LoadSymbol(x) => Some(*x),
            Instruction::LoadValue(x) => Some(*x),
            Instruction::Jump(x) => Some(*x),
            Instruction::JumpIfTrue(x) => Some(*x),
            Instruction::JumpIfFalse(x) => Some(*x),
            _ => None,
        }
    }

    /// Appends the mnemonic to `out`.
    pub fn push_mnemonic(&self, out: &mut String)
        ensures
            final(out)@ == old(out)@ + self.mnemonic(),
    {
        push_str(out, self.name_str());
        match self.operand_of() {
            Some(x) => {
                push_char(out, '(');
                push_decimal(out, x as u64);
                push_char(out, ')');
                assert(out@ =~= old(out)@ + (self.name() + seq!['('] + decimal(x as nat) + seq![
                    ')',
                ]));
            },
            None => {},
        }
    }

    /// The mnemonic of the instruction.
    pub fn to_string(&self) -> (r: String)
        ensures
            r@ == self.mnemonic(),
    {
        let mut out = String::new();
        self.push_mnemonic(&mut out);
        assert(out@ =~= self.mnemonic());
        out
    }
}

} // verus!
