//! The finished code and its listing.

use vstd::prelude::*;

use crate::ast::value::{Value, ValueView};
use crate::compiler::instruction::Instruction;
use crate::compiler::symbol_table::{names_view, values_view};
use crate::text::{decimal, push_char, push_right_aligned, push_str, right_aligned};

verus! {

/// An instruction together with what its operand refers to.
#[derive(Debug)]
pub enum PrettyInstruction<'a> {
    Plain(Instruction),
    Symbol { instruction: Instruction, identifier: &'a str },
    Value { instruction: Instruction, value: &'a Value },
}

/// The instructions of one unit with the constant pool they refer to.
#[derive(Debug, PartialEq, Eq)]
pub struct CodeBlock {
    pub instructions: Vec<Instruction>,
    pub values: Vec<Value>,
}

/// What the operand of an instruction refers to: the name in its slot, or
/// the constant at its index, as it is written in a listing.
pub open spec fn annotation(
    instruction: Instruction,
    names: Seq<Seq<char>>,
    values: Seq<ValueView>,
) -> Option<Seq<char>> {
    match instruction {
        Instruction::StoreSymbol(slot) => Some(names[slot as int]),
        Instruction::LoadSymbol(slot) => Some(names[slot as int]),
        Instruction::LoadValue(index) => Some(values[index as int].rendering()),
        _ => None,
    }
}

/// An instruction as it is written in a listing: the mnemonic, then, after
/// a tab, what the operand refers to.
pub open spec fn annotated(
    instruction: Instruction,
    names: Seq<Seq<char>>,
    values: Seq<ValueView>,
) -> Seq<char> {
    match annotation(instruction, names, values) {
        Some(text) => instruction.mnemonic() + seq!['\t'] + text,
        None => instruction.mnemonic(),
    }
}

/// One line of a listing: the address, right-aligned in four columns, a
/// tab, the annotated instruction, and a line feed.
pub open spec fn listing_line(
    address: nat,
    instruction: Instruction,
    names: Seq<Seq<char>>,
    values: Seq<ValueView>,
) -> Seq<char> {
    right_aligned(decimal(address), 4) + seq!['\t'] + annotated(instruction, names, values)
        + seq!['\n']
}

/// The lines of the first `upto` instructions.
pub open spec fn listing(
    instructions: Seq<Instruction>,
    names: Seq<Seq<char>>,
    values: Seq<ValueView>,
    upto: int,
) -> Seq<char>
    decreases upto,
{
    if upto <= 0 {
        Seq::empty()
    } else {
        listing(instructions, names, values, upto - 1) + listing_line(
            (upto - 1) as nat,
            instructions[upto - 1],
            names,
            values,
        )
    }
}

/// The first `upto` instructions, each as its address, right-aligned in
/// four columns, a tab, and its mnemonic, with nothing between them.
pub open spec fn summary(instructions: Seq<Instruction>, upto: int) -> Seq<char>
    decreases upto,
{
    if upto <= 0 {
        Seq::empty()
    } else {
        summary(instructions, upto - 1) + right_aligned(decimal((upto - 1) as nat), 4) + seq![
            '\t',
        ] + instructions[upto - 1].mnemonic()
    }
}

/// Whether the operand of `instruction` refers to a declared slot or to a
/// constant of the pool.
pub open spec fn resolves(instruction: Instruction, slots: nat, constants: nat) -> bool {
    &&& instruction.symbol_operand() matches Some(slot) ==> slot < slots
    &&& instruction.value_operand() matches Some(index) ==> index < constants
}

/// Whether every operand refers to a declared slot or to a constant of
/// the pool.
pub open spec fn all_resolve(instructions: Seq<Instruction>, slots: nat, constants: nat) -> bool {
    forall|at: int|
        0 <= at < instructions.len() ==> resolves(#[trigger] instructions[at], slots, constants)
}

impl<'a> PrettyInstruction<'a> {
    /// The instruction as it is written in a listing.
    pub open spec fn rendering(self) -> Seq<char> {
        match self {
            PrettyInstruction::Plain(instruction) => instruction.mnemonic(),
            PrettyInstruction::Symbol { instruction, identifier } => instruction.mnemonic() + seq![
                '\t',
            ] + identifier@,
            PrettyInstruction::Value { instruction, value } => instruction.mnemonic() + seq!['\t']
                + value@.rendering(),
        }
    }

    /// The instruction as it is written in a listing.
    pub fn to_string(&self) -> (r: String)
        ensures
            r@ == self.rendering(),
    {
        let mut out = String::new();
        match self {
            PrettyInstruction::Plain(instruction) => {
                instruction.push_mnemonic(&mut out);
                assert(out@ =~= self.rendering());
            },
            PrettyInstruction::Symbol { instruction, identifier } => {
                instruction.push_mnemonic(&mut out);
                push_char(&mut out, '\t');
                push_str(&mut out, identifier);
                assert(out@ =~= self.rendering());
            },
            PrettyInstruction::Value { instruction, value } => {
                instruction.push_mnemonic(&mut out);
                push_char(&mut out, '\t');
                let text = value.to_string();
                push_str(&mut out, text.as_str());
                assert(out@ =~= self.rendering());
            },
        }
        out
    }
}

impl CodeBlock {
    /// Whether every operand of the code refers to one of `debug_symbols`
    /// or to a constant of the pool.
    pub fn is_resolved(&self, debug_symbols: &Vec<String>) -> (r: bool)
        ensures
            r == all_resolve(
                self.instructions@,
                debug_symbols@.len() as nat,
                self.values@.len() as nat,
            ),
    {
        let mut at: usize = 0;
        while at < self.instructions.len()
            invariant
                0 <= at <= self.instructions@.len(),
                forall|i: int|
                    0 <= i < at ==> resolves(
                        #[trigger] self.instructions@[i],
                        debug_symbols@.len() as nat,
                        self.values@.len() as nat,
                    ),
            decreases self.instructions@.len() - at,
        {
            let fine = match self.instructions[at] {
                Instruction::StoreSymbol(slot) => (slot as usize) < debug_symbols.len(),
                Instruction::LoadSymbol(slot) => (slot as usize) < debug_symbols.len(),
                Instruction::LoadValue(index) => (index as usize) < self.values.len(),
                _ => true,
            };
            if !fine {
                return false;
            }
            at += 1;
        }
        true
    }

    /// The instruction at `at` together with the name or the constant its
    /// operand refers to.
    pub fn pretty<'a>(&'a self, at: usize, debug_symbols: &'a Vec<String>) -> (r: PrettyInstruction<
        'a,
    >)
        requires
            at < self.instructions@.len(),
            resolves(
                self.instructions@[at as int],
                debug_symbols@.len() as nat,
                self.values@.len() as nat,
            ),
        ensures
            r.rendering() == annotated(
                self.instructions@[at as int],
                names_view(debug_symbols@),
                values_view(self.values@),
            ),
            match self.instructions@[at as int] {
                Instruction::StoreSymbol(slot) => r matches PrettyInstruction::Symbol {
                    instruction,
                    identifier,
                } && instruction == self.instructions@[at as int] && identifier@
                    == debug_symbols@[slot as int]@,
                Instruction::LoadSymbol(slot) => r matches PrettyInstruction::Symbol {
                    instruction,
                    identifier,
                } && instruction == self.instructions@[at as int] && identifier@
                    == debug_symbols@[slot as int]@,
                Instruction::LoadValue(index) => r matches PrettyInstruction::Value {
                    instruction,
                    value,
                } && instruction == self.instructions@[at as int] && value@
                    == self.values@[index as int]@,
                other => r == PrettyInstruction::Plain(other),
            },
    {
        let instruction = self.instructions[at];
        match instruction {
            Instruction::StoreSymbol(slot) => PrettyInstruction::Symbol {
                instruction,
                identifier: debug_symbols[slot as usize].as_str(),
            },
            Instruction::LoadSymbol(slot) => PrettyInstruction::Symbol {
                instruction,
                identifier: debug_symbols[slot as usize].as_str(),
            },
            Instruction::LoadValue(index) => PrettyInstruction::Value {
                instruction,
                value: &self.values[index as usize],
            },
            _ => PrettyInstruction::Plain(instruction),
        }
    }

    /// The listing of the code: one line for each instruction, with its
    /// address, its mnemonic, and the name or constant it refers to.
    pub fn disassemble(&self, debug_symbols: &Vec<String>) -> (r: String)
        requires
            all_resolve(
                self.instructions@,
                debug_symbols@.len() as nat,
                self.values@.len() as nat,
            ),
        ensures
            r@ == listing(
                self.instructions@,
                names_view(debug_symbols@),
                values_view(self.values@),
                self.instructions@.len() as int,
            ),
    {
        let mut out = String::new();
        let mut at: usize = 0;
        let ghost names = names_view(debug_symbols@);
        let ghost values = values_view(self.values@);
        assert(out@ =~= listing(self.instructions@, names, values, 0));
        while at < self.instructions.len()
            invariant
                0 <= at <= self.instructions@.len(),
                names == names_view(debug_symbols@),
                values == values_view(self.values@),
                all_resolve(
                    self.instructions@,
                    debug_symbols@.len() as nat,
                    self.values@.len() as nat,
                ),
                out@ == listing(self.instructions@, names, values, at as int),
            decreases self.instructions@.len() - at,
        {
            let ghost before = out@;
            push_right_aligned(&mut out, at as u64, 4);
            push_char(&mut out, '\t');
            let pretty = self.pretty(at, debug_symbols);
            let text = pretty.to_string();
            push_str(&mut out, text.as_str());
            push_char(&mut out, '\n');
            assert(out@ =~= before + listing_line(
                at as nat,
                self.instructions@[at as int],
                names,
                values,
            ));
            at += 1;
        }
        out
    }

    /// The instructions, each as its address and its mnemonic.
    pub fn to_string(&self) -> (r: String)
        ensures
            r@ == summary(self.instructions@, self.instructions@.len() as int),
    {
        let mut out = String::new();
        let mut at: usize = 0;
        assert(out@ =~= summary(self.instructions@, 0));
        while at < self.instructions.len()
            invariant
                0 <= at <= self.instructions@.len(),
                out@ == summary(self.instructions@, at as int),
            decreases self.instructions@.len() - at,
        {
            let ghost before = out@;
            push_right_aligned(&mut out, at as u64, 4);
            push_char(&mut out, '\t');
            self.instructions[at].push_mnemonic(&mut out);
            assert(out@ =~= before + right_aligned(decimal(at as nat), 4) + seq!['\t']
                + self.instructions@[at as int].mnemonic());
            at += 1;
        }
        out
    }
}

} // verus!
