//! The mathematical model of the compiler's state and of its primitives.
//!
//! Every executable operation of the compiler is specified as a function
//! on [`CompilerView`]; the lowering rules and the laws about them are
//! stated over these functions.

use vstd::prelude::*;

use crate::ast::IdentifierKind;
use crate::ast::value::ValueView;
use crate::compiler::instruction::Instruction;

verus! {

/// The largest number of entries a table addressed by a 16-bit operand
/// can hold.
pub open spec fn table_limit() -> int {
    0x1_0000
}

/// The tag of a structured construct that is being lowered.
#[derive(Debug, PartialEq, Eq, Hash, Clone, Copy, Structural)]
pub enum BlockType {
    Block,
    If,
    For,
    While,
}

impl BlockType {
    pub open spec fn is_loop(self) -> bool {
        self == BlockType::While || self == BlockType::For
    }
}

/// A declared name and its kind; its slot is its position in the table.
pub struct SymbolView {
    pub name: Seq<char>,
    pub kind: IdentifierKind,
}

/// One entry of the block stack.
pub struct FrameView {
    pub kind: BlockType,
    /// The address of the first instruction emitted inside the block.
    pub head: int,
    /// The jumps that are to land right behind the block.
    pub pending: Seq<int>,
}

/// Why a compilation failed.
pub enum Fault {
    VariableLimitReached,
    Redefinition(Seq<char>),
    UndefinedIdentifier(Seq<char>),
    AssignmentToConst,
    InstructionLimitReached,
    BreakOutsideLoop,
    ContinueOutsideLoop,
}

/// The state of a compiler.
pub struct CompilerView {
    pub symbols: Seq<SymbolView>,
    pub values: Seq<ValueView>,
    pub instructions: Seq<Instruction>,
    pub blocks: Seq<FrameView>,
    /// The addresses of the jumps that were emitted without a target and
    /// have not been given one since.
    pub unplaced: Set<int>,
    /// The addresses at which a loop was entered: each is the address of
    /// the first instruction of a loop's condition.
    pub heads: Set<int>,
}

/// A state together with the failure that stopped the work, if any.
pub struct Lowering {
    pub state: CompilerView,
    pub fault: Option<Fault>,
}

/// The position of `name` in `symbols`, if it is declared.
pub open spec fn slot_of(symbols: Seq<SymbolView>, name: Seq<char>) -> Option<int> {
    if exists|i: int| 0 <= i < symbols.len() && (#[trigger] symbols[i]).name == name {
        Some(choose|i: int| 0 <= i < symbols.len() && (#[trigger] symbols[i]).name == name)
    } else {
        None
    }
}

/// No name is declared twice.
pub open spec fn distinct_names(symbols: Seq<SymbolView>) -> bool {
    forall|i: int, j: int|
        0 <= i < j < symbols.len() ==> (#[trigger] symbols[i]).name != (#[trigger] symbols[j]).name
}

/// The innermost frame of the given kind.
pub open spec fn nearest_of(blocks: Seq<FrameView>, kind: BlockType) -> Option<int>
    decreases blocks.len(),
{
    if blocks.len() == 0 {
        None
    } else if blocks.last().kind == kind {
        Some(blocks.len() - 1)
    } else {
        nearest_of(blocks.drop_last(), kind)
    }
}

/// The innermost frame of a loop.
pub open spec fn nearest_loop(blocks: Seq<FrameView>) -> Option<int>
    decreases blocks.len(),
{
    if blocks.len() == 0 {
        None
    } else if blocks.last().kind.is_loop() {
        Some(blocks.len() - 1)
    } else {
        nearest_loop(blocks.drop_last())
    }
}

/// The frames with `jump` added to the pending jumps of frame `at`.
pub open spec fn with_pending(blocks: Seq<FrameView>, at: int, jump: int) -> Seq<FrameView>
    recommends
        0 <= at < blocks.len(),
{
    blocks.update(
        at,
        FrameView { kind: blocks[at].kind, head: blocks[at].head, pending: blocks[at].pending.push(jump) },
    )
}

impl CompilerView {
    /// The state of a fresh compiler.
    pub open spec fn empty() -> CompilerView {
        CompilerView {
            symbols: Seq::empty(),
            values: Seq::empty(),
            instructions: Seq::empty(),
            blocks: Seq::empty(),
            unplaced: Set::empty(),
            heads: Set::empty(),
        }
    }

    /// What every operation relies on and keeps: both tables are within
    /// reach of a 16-bit operand, no name is declared twice, and every
    /// pending jump is the address of a jump instruction.
    pub open spec fn wf(self) -> bool {
        &&& self.symbols.len() <= table_limit()
        &&& self.values.len() <= table_limit()
        &&& distinct_names(self.symbols)
        &&& forall|b: int|
            0 <= b < self.blocks.len() ==> 0 <= (#[trigger] self.blocks[b]).head
                <= self.instructions.len()
        &&& forall|b: int, k: int|
            0 <= b < self.blocks.len() && 0 <= k < self.blocks[b].pending.len() ==> self.holds_jump(
                #[trigger] self.blocks[b].pending[k],
            )
    }

    /// Whether `at` is the address of a jump instruction.
    pub open spec fn holds_jump(self, at: int) -> bool {
        0 <= at < self.instructions.len() && self.instructions[at].is_jump()
    }

    /// The address the next instruction will get.
    pub open spec fn here(self) -> int {
        self.instructions.len() as int
    }

    pub open spec fn ok(self) -> Lowering {
        Lowering { state: self, fault: None }
    }

    pub open spec fn failed(self, fault: Fault) -> Lowering {
        Lowering { state: self, fault: Some(fault) }
    }

    /// Appends an instruction.
    pub open spec fn emit(self, instruction: Instruction) -> CompilerView {
        CompilerView { instructions: self.instructions.push(instruction), ..self }
    }

    /// Appends a jump whose target is still to come; its handle is the
    /// address it was appended at.
    pub open spec fn emit_jump(self, jump: Instruction) -> CompilerView {
        CompilerView {
            instructions: self.instructions.push(jump),
            unplaced: self.unplaced.insert(self.here()),
            ..self
        }
    }

    /// Gives the jump at `at` the target `target`.
    pub open spec fn patch(self, at: int, target: u16) -> CompilerView
        recommends
            self.holds_jump(at),
    {
        CompilerView {
            instructions: self.instructions.update(at, self.instructions[at].retargeted(target)),
            unplaced: self.unplaced.remove(at),
            ..self
        }
    }

    /// Gives each of the jumps `at` the target `target`.
    pub open spec fn patch_all(self, at: Seq<int>, target: u16) -> CompilerView {
        CompilerView {
            instructions: Seq::new(
                self.instructions.len(),
                |i: int|
                    if at.contains(i) {
                        self.instructions[i].retargeted(target)
                    } else {
                        self.instructions[i]
                    },
            ),
            unplaced: Set::new(|i: int| self.unplaced.contains(i) && !at.contains(i)),
            ..self
        }
    }

    /// Aims the jump at `at` at the address the next instruction will get.
    pub open spec fn target_jump(self, at: int) -> Lowering
        recommends
            self.holds_jump(at),
    {
        if self.here() > u16::MAX {
            self.failed(Fault::InstructionLimitReached)
        } else {
            self.patch(at, self.here() as u16).ok()
        }
    }

    /// Pushes a frame of the given kind. The frame of a loop makes the
    /// address of the next instruction the head of a loop.
    pub open spec fn enter_block(self, kind: BlockType) -> CompilerView {
        CompilerView {
            blocks: self.blocks.push(FrameView { kind, head: self.here(), pending: Seq::empty() }),
            heads: if kind.is_loop() {
                self.heads.insert(self.here())
            } else {
                self.heads
            },
            ..self
        }
    }

    /// Pops the innermost frame and aims its pending jumps at the address
    /// the next instruction will get.
    pub open spec fn exit_block(self) -> Lowering
        recommends
            self.blocks.len() > 0,
    {
        let pending = self.blocks.last().pending;
        let popped = CompilerView { blocks: self.blocks.drop_last(), ..self };
        if pending.len() == 0 {
            popped.ok()
        } else if self.here() > u16::MAX {
            popped.failed(Fault::InstructionLimitReached)
        } else {
            popped.patch_all(pending, self.here() as u16).ok()
        }
    }

    /// Leaves the jump at `at` to the exit of the innermost frame of the
    /// given kind; without such a frame nothing changes.
    pub open spec fn defer_to(self, kind: BlockType, at: int) -> CompilerView {
        match nearest_of(self.blocks, kind) {
            Some(frame) => CompilerView { blocks: with_pending(self.blocks, frame, at), ..self },
            None => self,
        }
    }

    /// Leaves the jump at `at` to the exit of the innermost loop.
    pub open spec fn defer_to_loop(self, at: int) -> Option<CompilerView> {
        match nearest_loop(self.blocks) {
            Some(frame) => Some(
                CompilerView { blocks: with_pending(self.blocks, frame, at), ..self },
            ),
            None => None,
        }
    }

    /// The kind and slot of a declared name.
    pub open spec fn lookup(self, name: Seq<char>) -> Option<(IdentifierKind, int)> {
        match slot_of(self.symbols, name) {
            Some(slot) => Some((self.symbols[slot].kind, slot)),
            None => None,
        }
    }

    /// Declares a name; its slot is the number of names declared before.
    pub open spec fn register(self, name: Seq<char>, kind: IdentifierKind) -> Lowering {
        if slot_of(self.symbols, name) is Some {
            self.failed(Fault::Redefinition(name))
        } else if self.symbols.len() > u16::MAX {
            self.failed(Fault::VariableLimitReached)
        } else {
            CompilerView { symbols: self.symbols.push(SymbolView { name, kind }), ..self }.ok()
        }
    }

    /// Adds a constant to the pool; its index is the number of constants
    /// added before.
    pub open spec fn register_value(self, value: ValueView) -> Lowering {
        if self.values.len() > u16::MAX {
            self.failed(Fault::VariableLimitReached)
        } else {
            CompilerView { values: self.values.push(value), ..self }.ok()
        }
    }
}

} // verus!
