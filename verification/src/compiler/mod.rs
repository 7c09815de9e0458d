//! The bytecode compiler.
//!
//! A [`Compiler`] holds the instructions emitted so far, the symbol
//! table, and the stack of structured constructs that are being lowered.
//! Forward jumps are emitted without a target and given one later, either
//! directly or when the block they leave is exited.

use vstd::prelude::*;
use vstd::std_specs::convert::FromSpecImpl;

use crate::ast::{Identifier, IdentifierKind};
use crate::ast::value::Value;
use crate::compiler::code_block::{resolves, CodeBlock};
use crate::compiler::error::fault_of;
use crate::compiler::laws::names::{lemma_slot_of, references_resolve};
use crate::compiler::model::{
    nearest_loop, nearest_of, with_pending, CompilerView, FrameView, Lowering,
};
use crate::compiler::symbol_table::{values_view, SymbolTable};

pub mod code_block;
pub mod compile;
pub mod error;
pub mod instruction;
pub mod laws;
pub mod lowering;
pub mod model;
pub mod program;
pub mod symbol_table;

pub use crate::compiler::compile::Compile;
pub use crate::compiler::error::{CompilerError, CompilerResult};
pub use crate::compiler::instruction::Instruction;
pub use crate::compiler::model::BlockType;
pub use crate::compiler::program::compile;

verus! {

/// An instruction address that later jumps go back to.
#[derive(Debug, PartialEq, Eq, Hash, Clone, Copy, Structural)]
pub struct Label(pub usize);

impl Label {
    /// The address as the operand of a jump.
    ///
    /// Fails with `InstructionLimitReached` when the address does not fit
    /// the operand.
    pub fn target(self) -> (r: CompilerResult<u16>)
        ensures
            self.0 <= u16::MAX ==> r == Ok::<u16, CompilerError>(self.0 as u16),
            self.0 > u16::MAX ==> r == Err::<u16, CompilerError>(
                CompilerError::InstructionLimitReached,
            ),
    {
        if self.0 <= u16::MAX as usize {
            Ok(self.0 as u16)
        } else {
            Err(CompilerError::InstructionLimitReached)
        }
    }
}

/// The handle of a jump that was emitted without its target.
#[derive(Debug, PartialEq, Eq, Hash, Clone, Copy, Structural)]
pub struct JumpRef {
    idx: usize,
}

impl JumpRef {
    /// The address of the jump.
    pub closed spec fn address(self) -> int {
        self.idx as int
    }

    /// The address of the jump.
    pub fn index(self) -> (r: usize)
        ensures
            r == self.address(),
    {
        self.idx
    }
}

/// One entry of the block stack.
#[derive(Debug)]
struct Frame {
    kind: BlockType,
    head: usize,
    pending: Vec<JumpRef>,
}

impl Frame {
    spec fn view(&self) -> FrameView {
        FrameView {
            kind: self.kind,
            head: self.head as int,
            pending: Seq::new(self.pending@.len(), |k: int| self.pending@[k].idx as int),
        }
    }
}

/// Compiles the statements of one unit, one after the other.
pub struct Compiler {
    symbol_table: SymbolTable,
    instructions: Vec<Instruction>,
    blocks: Vec<Frame>,
    unplaced: Ghost<Set<int>>,
    heads: Ghost<Set<int>>,
}

impl View for Compiler {
    type V = CompilerView;

    closed spec fn view(&self) -> CompilerView {
        CompilerView {
            symbols: self.symbol_table.symbols(),
            values: self.symbol_table.values(),
            instructions: self.instructions@,
            blocks: Seq::new(self.blocks@.len(), |b: int| self.blocks@[b].view()),
            unplaced: self.unplaced@,
            heads: self.heads@,
        }
    }
}

impl Default for Compiler {
    /// A compiler that has seen nothing yet.
    fn default() -> (r: Self)
        ensures
            r.wf(),
            r@ == CompilerView::empty(),
    {
        Compiler::new()
    }
}

impl Compiler {
    /// The state is one that the operations can work on: see
    /// [`CompilerView::wf`].
    pub closed spec fn wf(&self) -> bool {
        &&& self.symbol_table.wf()
        &&& self@.wf()
    }

    /// Keeps the facts about the frames when only the tables or the
    /// instructions behind the last jump have changed.
    proof fn lemma_frames_kept(&self, before: &Compiler)
        requires
            before.wf(),
            self.blocks@ == before.blocks@,
            self.instructions@.len() >= before.instructions@.len(),
            forall|i: int|
                0 <= i < before.instructions@.len() ==> (#[trigger] self.instructions@[i]).is_jump()
                    == before.instructions@[i].is_jump(),
        ensures
            self@.blocks == before@.blocks,
            forall|b: int|
                0 <= b < self@.blocks.len() ==> 0 <= (#[trigger] self@.blocks[b]).head
                    <= self@.instructions.len(),
            forall|b: int, k: int|
                0 <= b < self@.blocks.len() && 0 <= k < self@.blocks[b].pending.len()
                    ==> self@.holds_jump(#[trigger] self@.blocks[b].pending[k]),
    {
        assert(self@.blocks =~= before@.blocks);
        assert forall|b: int, k: int|
            0 <= b < self@.blocks.len() && 0 <= k < self@.blocks[b].pending.len()
                implies self@.holds_jump(#[trigger] self@.blocks[b].pending[k]) by {
            assert(before@.holds_jump(before@.blocks[b].pending[k]));
        }
    }

    /// A well-formed compiler has a well-formed state.
    pub proof fn lemma_wf(&self)
        requires
            self.wf(),
        ensures
            self@.wf(),
    {
    }

    /// A compiler that has seen nothing yet.
    pub fn new() -> (r: Self)
        ensures
            r.wf(),
            r@ == CompilerView::empty(),
    {
        let r = Compiler {
            symbol_table: SymbolTable::new(),
            instructions: Vec::new(),
            blocks: Vec::new(),
            unplaced: Ghost(Set::empty()),
            heads: Ghost(Set::empty()),
        };
        proof {
            r.symbol_table.lemma_wf();
            assert(r@.blocks =~= Seq::<FrameView>::empty());
            assert(r@.instructions =~= Seq::<Instruction>::empty());
        }
        r
    }

    /// Appends an instruction.
    pub fn emit(&mut self, instruction: Instruction)
        requires
            old(self).wf(),
        ensures
            final(self).wf(),
            final(self)@ == old(self)@.emit(instruction),
    {
        self.instructions.push(instruction);
        proof {
            assert(self@.blocks =~= old(self)@.blocks);
            assert forall|b: int, k: int|
                0 <= b < self@.blocks.len() && 0 <= k < self@.blocks[b].pending.len()
                    implies self@.holds_jump(#[trigger] self@.blocks[b].pending[k]) by {
                assert(old(self)@.holds_jump(old(self)@.blocks[b].pending[k]));
            }
        }
    }

    /// Declares `identifier` and returns its slot.
    ///
    /// Fails with `Redefinition` when the name is declared already, and
    /// with `VariableLimitReached` when the slot would not fit the operand
    /// of an instruction. A failed call changes nothing.
    pub fn register(&mut self, identifier: Identifier) -> (r: CompilerResult<u16>)
        requires
            old(self).wf(),
        ensures
            final(self).wf(),
            (Lowering { state: final(self)@, fault: fault_of(r) }) == old(self)@.register(
                identifier.ident@,
                identifier.kind,
            ),
            r matches Ok(slot) ==> slot == old(self)@.symbols.len(),
    {
        if self.symbol_table.contains(identifier.ident.as_str()) {
            return Err(CompilerError::Redefinition(identifier.ident));
        }
        if self.symbol_table.next_identifier() > u16::MAX as usize {
            return Err(CompilerError::VariableLimitReached);
        }
        let r = self.symbol_table.register(identifier);
        proof {
            self.symbol_table.lemma_wf();
            self.lemma_frames_kept(old(self));
        }
        match r {
            Ok(slot) => Ok(slot as u16),
            Err(error) => Err(error),
        }
    }

    /// Declares the variable `ident` and returns its slot.
    pub fn register_var(&mut self, ident: &str) -> (r: CompilerResult<u16>)
        requires
            old(self).wf(),
        ensures
            final(self).wf(),
            (Lowering { state: final(self)@, fault: fault_of(r) }) == old(self)@.register(
                ident@,
                IdentifierKind::Variable,
            ),
            r matches Ok(slot) ==> slot == old(self)@.symbols.len(),
    {
        self.register(Identifier { ident: String::from_str(ident), kind: IdentifierKind::Variable })
    }

    /// Declares the constant `ident` and returns its slot.
    pub fn register_const(&mut self, ident: &str) -> (r: CompilerResult<u16>)
        requires
            old(self).wf(),
        ensures
            final(self).wf(),
            (Lowering { state: final(self)@, fault: fault_of(r) }) == old(self)@.register(
                ident@,
                IdentifierKind::Constant,
            ),
            r matches Ok(slot) ==> slot == old(self)@.symbols.len(),
    {
        self.register(Identifier { ident: String::from_str(ident), kind: IdentifierKind::Constant })
    }

    /// The kind and slot of a declared name.
    pub fn get_identifier(&self, ident: &str) -> (r: Option<(IdentifierKind, u16)>)
        requires
            self.wf(),
        ensures
            match r {
                Some((kind, slot)) => self@.lookup(ident@) == Some((kind, slot as int)),
                None => self@.lookup(ident@) is None,
            },
    {
        match self.symbol_table.get(ident) {
            Some((kind, slot)) => {
                proof {
                    lemma_slot_of(self@.symbols, ident@);
                }
                Some((kind, slot as u16))
            },
            None => None,
        }
    }

    /// Adds a constant to the pool and returns its index.
    ///
    /// Fails with `VariableLimitReached`, changing nothing, when the index
    /// would not fit the operand of an instruction.
    pub fn register_value(&mut self, value: Value) -> (r: CompilerResult<u16>)
        requires
            old(self).wf(),
        ensures
            final(self).wf(),
            (Lowering { state: final(self)@, fault: fault_of(r) }) == old(self)@.register_value(
                value@,
            ),
            r matches Ok(index) ==> index == old(self)@.values.len(),
    {
        if self.symbol_table.next_constant() > u16::MAX as usize {
            return Err(CompilerError::VariableLimitReached);
        }
        let index = self.symbol_table.register_value(value);
        proof {
            self.symbol_table.lemma_wf();
            self.lemma_frames_kept(old(self));
        }
        Ok(index as u16)
    }

    /// Hands out the finished code with its constant pool, and the declared
    /// names in slot order, and leaves the compiler as new.
    pub fn finish(&mut self) -> (r: (CodeBlock, Vec<String>))
        requires
            old(self).wf(),
        ensures
            final(self).wf(),
            final(self)@ == CompilerView::empty(),
            r.0.instructions@ == old(self)@.instructions,
            values_view(r.0.values@) == old(self)@.values,
            r.1@.len() == old(self)@.symbols.len(),
            forall|slot: int|
                0 <= slot < r.1@.len() ==> (#[trigger] r.1@[slot])@ == old(self)@.symbols[slot].name,
    {
        let mut instructions: Vec<Instruction> = Vec::new();
        core::mem::swap(&mut self.instructions, &mut instructions);
        let (values, debug_symbols) = self.symbol_table.finish();
        self.blocks = Vec::new();
        self.unplaced = Ghost(Set::empty());
        self.heads = Ghost(Set::empty());
        proof {
            self.symbol_table.lemma_wf();
            assert(self@.blocks =~= Seq::<FrameView>::empty());
            assert(self@.instructions =~= Seq::<Instruction>::empty());
        }
        (CodeBlock { instructions, values }, debug_symbols)
    }

    /// Pushes a frame for a construct of the given kind.
    pub fn enter_block(&mut self, block_type: BlockType)
        requires
            old(self).wf(),
        ensures
            final(self).wf(),
            final(self)@ == old(self)@.enter_block(block_type),
    {
        let head: usize = self.instructions.len();
        self.blocks.push(Frame { kind: block_type, head, pending: Vec::new() });
        proof {
            if block_type.is_loop() {
                self.heads@ = self.heads@.insert(head as int);
            }
            let frame = FrameView { kind: block_type, head: head as int, pending: Seq::empty() };
            assert(self.blocks@.last().view() =~= frame) by {
                assert(self.blocks@.last().view().pending =~= Seq::<int>::empty());
            }
            assert(self@.blocks =~= old(self)@.blocks.push(frame));
            assert forall|b: int, k: int|
                0 <= b < self@.blocks.len() && 0 <= k < self@.blocks[b].pending.len()
                    implies self@.holds_jump(#[trigger] self@.blocks[b].pending[k]) by {
                assert(old(self)@.holds_jump(old(self)@.blocks[b].pending[k]));
            }
        }
    }

    /// Pops the innermost frame, which is of the kind `expected`, and aims
    /// the jumps that were left to its exit at the next instruction.
    ///
    /// Fails with `InstructionLimitReached` when there are such jumps and
    /// the address of the next instruction does not fit their operand.
    pub fn exit_block(&mut self, expected: BlockType) -> (r: CompilerResult<()>)
        requires
            old(self).wf(),
            old(self)@.blocks.len() > 0,
            old(self)@.blocks.last().kind == expected,
        ensures
            final(self).wf(),
            (Lowering { state: final(self)@, fault: fault_of(r) }) == old(self)@.exit_block(),
    {
        let ghost before = self@;
        assert(self.blocks@.len() == before.blocks.len());
        let frame = self.blocks.pop().unwrap();
        let ghost pending = frame.view().pending;
        let ghost popped = CompilerView { blocks: before.blocks.drop_last(), ..before };
        proof {
            assert(frame.view() == before.blocks.last());
            assert(self@.blocks =~= before.blocks.drop_last());
            assert(self@ == popped);
            assert forall|b: int, k: int|
                0 <= b < self@.blocks.len() && 0 <= k < self@.blocks[b].pending.len()
                    implies self@.holds_jump(#[trigger] self@.blocks[b].pending[k]) by {
                assert(before.holds_jump(before.blocks[b].pending[k]));
            }
        }
        if frame.pending.len() == 0 {
            return Ok(());
        }
        let here: usize = self.instructions.len();
        if here > u16::MAX as usize {
            return Err(CompilerError::InstructionLimitReached);
        }
        let target: u16 = here as u16;
        let mut k: usize = 0;
        proof {
            assert forall|j: int| 0 <= j < frame.pending@.len() implies before.holds_jump(
                (#[trigger] frame.pending@[j]).idx as int,
            ) by {
                assert(before.holds_jump(before.blocks[before.blocks.len() - 1].pending[j]));
            }
        }
        while k < frame.pending.len()
            invariant
                0 <= k <= frame.pending@.len(),
                pending == frame.view().pending,
                self.symbol_table == old(self).symbol_table,
                self.unplaced == old(self).unplaced,
                self.heads == old(self).heads,
                old(self).blocks@.len() > 0,
                self.blocks@ == old(self).blocks@.drop_last(),
                self.instructions@.len() == before.instructions.len(),
                forall|j: int|
                    0 <= j < frame.pending@.len() ==> before.holds_jump(
                        (#[trigger] frame.pending@[j]).idx as int,
                    ),
                forall|i: int|
                    0 <= i < before.instructions.len() ==> #[trigger] self.instructions@[i] == (
                    if pending.take(k as int).contains(i) {
                        before.instructions[i].retargeted(target)
                    } else {
                        before.instructions[i]
                    }),
            decreases frame.pending@.len() - k,
        {
            let at: usize = frame.pending[k].idx;
            assert(before.holds_jump(frame.pending@[k as int].idx as int));
            let patched = self.instructions[at].with_target(target);
            let ghost prior = self.instructions@;
            self.instructions[at] = patched;
            proof {
                assert(pending[k as int] == at as int);
                assert(pending.take(k as int + 1) =~= pending.take(k as int).push(at as int));
                assert forall|i: int| 0 <= i < before.instructions.len() implies (
                #[trigger] self.instructions@[i]) == (if pending.take(k as int + 1).contains(i) {
                    before.instructions[i].retargeted(target)
                } else {
                    before.instructions[i]
                }) by {
                    vstd::seq_lib::lemma_seq_contains_after_push(
                        pending.take(k as int),
                        at as int,
                        i,
                    );
                    if i != at as int {
                        assert(self.instructions@[i] == prior[i]);
                    }
                }
            }
            k += 1;
        }
        proof {
            assert(pending.take(k as int) =~= pending);
            self.unplaced@ = Set::new(|i: int| before.unplaced.contains(i) && !pending.contains(i));
            let goal = popped.patch_all(pending, target);
            assert(self@.instructions =~= goal.instructions);
            assert(self@.blocks =~= goal.blocks);
            assert(self@ == goal);
            assert forall|b: int, j: int|
                0 <= b < self@.blocks.len() && 0 <= j < self@.blocks[b].pending.len()
                    implies self@.holds_jump(#[trigger] self@.blocks[b].pending[j]) by {
                assert(before.holds_jump(before.blocks[b].pending[j]));
            }
        }
        Ok(())
    }

    /// Enters an `if` with all its branches.
    pub fn enter_if(&mut self)
        requires
            old(self).wf(),
        ensures
            final(self).wf(),
            final(self)@ == old(self)@.enter_block(BlockType::If),
    {
        self.enter_block(BlockType::If);
    }

    /// Leaves an `if`; see [`Compiler::exit_block`].
    pub fn exit_if(&mut self) -> (r: CompilerResult<()>)
        requires
            old(self).wf(),
            old(self)@.blocks.len() > 0,
            old(self)@.blocks.last().kind == BlockType::If,
        ensures
            final(self).wf(),
            (Lowering { state: final(self)@, fault: fault_of(r) }) == old(self)@.exit_block(),
    {
        self.exit_block(BlockType::If)
    }

    /// Enters a `while` loop.
    pub fn enter_while(&mut self)
        requires
            old(self).wf(),
        ensures
            final(self).wf(),
            final(self)@ == old(self)@.enter_block(BlockType::While),
    {
        self.enter_block(BlockType::While);
    }

    /// Leaves a `while` loop; see [`Compiler::exit_block`].
    pub fn exit_while(&mut self) -> (r: CompilerResult<()>)
        requires
            old(self).wf(),
            old(self)@.blocks.len() > 0,
            old(self)@.blocks.last().kind == BlockType::While,
        ensures
            final(self).wf(),
            (Lowering { state: final(self)@, fault: fault_of(r) }) == old(self)@.exit_block(),
    {
        self.exit_block(BlockType::While)
    }

    /// Appends a jump whose target is given later, and returns its handle.
    pub fn emit_jump(&mut self, jump: Instruction) -> (r: JumpRef)
        requires
            old(self).wf(),
            jump.is_jump(),
        ensures
            final(self).wf(),
            final(self)@ == old(self)@.emit_jump(jump),
            r.address() == old(self)@.here(),
            final(self)@.holds_jump(r.address()),
    {
        let idx: usize = self.instructions.len();
        self.instructions.push(jump);
        proof {
            self.unplaced@ = self.unplaced@.insert(idx as int);
            assert(self@.blocks =~= old(self)@.blocks);
            assert forall|b: int, k: int|
                0 <= b < self@.blocks.len() && 0 <= k < self@.blocks[b].pending.len()
                    implies self@.holds_jump(#[trigger] self@.blocks[b].pending[k]) by {
                assert(old(self)@.holds_jump(old(self)@.blocks[b].pending[k]));
            }
        }
        JumpRef { idx }
    }

    /// Appends an unconditional jump without its target.
    pub fn emit_untargeted_jump(&mut self) -> (r: JumpRef)
        requires
            old(self).wf(),
        ensures
            final(self).wf(),
            final(self)@ == old(self)@.emit_jump(Instruction::Jump(0)),
            r.address() == old(self)@.here(),
            final(self)@.holds_jump(r.address()),
    {
        self.emit_jump(Instruction::unplaced_jump())
    }

    /// Appends a jump-if-false without its target.
    pub fn emit_untargeted_jump_if_false(&mut self) -> (r: JumpRef)
        requires
            old(self).wf(),
        ensures
            final(self).wf(),
            final(self)@ == old(self)@.emit_jump(Instruction::JumpIfFalse(0)),
            r.address() == old(self)@.here(),
            final(self)@.holds_jump(r.address()),
    {
        self.emit_jump(Instruction::unplaced_jump_if_false())
    }

    /// Appends a jump-if-true without its target.
    pub fn emit_untargeted_jump_if_true(&mut self) -> (r: JumpRef)
        requires
            old(self).wf(),
        ensures
            final(self).wf(),
            final(self)@ == old(self)@.emit_jump(Instruction::JumpIfTrue(0)),
            r.address() == old(self)@.here(),
            final(self)@.holds_jump(r.address()),
    {
        self.emit_jump(Instruction::unplaced_jump_if_true())
    }

    /// The address the next instruction will get, for later jumps back to
    /// it.
    pub fn place_label(&mut self) -> (r: Label)
        requires
            old(self).wf(),
        ensures
            final(self).wf(),
            final(self)@ == old(self)@,
            r.0 == old(self)@.here(),
    {
        Label(self.instructions.len())
    }

    /// Whether every operand that names a slot names a declared one, and
    /// every operand that names a constant names one of the pool.
    pub fn is_resolved(&self) -> (r: bool)
        requires
            self.wf(),
        ensures
            r == references_resolve(self@),
    {
        let slots: usize = self.symbol_table.next_identifier();
        let constants: usize = self.symbol_table.next_constant();
        let mut at: usize = 0;
        while at < self.instructions.len()
            invariant
                0 <= at <= self.instructions@.len(),
                slots == self@.symbols.len(),
                constants == self@.values.len(),
                forall|i: int|
                    0 <= i < at ==> resolves(
                        #[trigger] self.instructions@[i],
                        slots as nat,
                        constants as nat,
                    ),
            decreases self.instructions@.len() - at,
        {
            let fine = match self.instructions[at] {
                Instruction::StoreSymbol(slot) => (slot as usize) < slots,
                Instruction::LoadSymbol(slot) => (slot as usize) < slots,
                Instruction::LoadValue(index) => (index as usize) < constants,
                _ => true,
            };
            if !fine {
                return false;
            }
            at += 1;
        }
        true
    }

    /// Whether `jump` is the handle of a jump instruction of this compiler.
    pub fn holds_jump(&self, jump: JumpRef) -> (r: bool)
        requires
            self.wf(),
        ensures
            r == self@.holds_jump(jump.address()),
    {
        jump.idx < self.instructions.len() && self.instructions[jump.idx].transfers_control()
    }

    /// Aims `jump` at the address the next instruction will get.
    ///
    /// Fails with `InstructionLimitReached`, changing nothing, when that
    /// address does not fit the operand.
    pub fn target_jump(&mut self, jump: JumpRef) -> (r: CompilerResult<()>)
        requires
            old(self).wf(),
            old(self)@.holds_jump(jump.address()),
        ensures
            final(self).wf(),
            (Lowering { state: final(self)@, fault: fault_of(r) }) == old(self)@.target_jump(
                jump.address(),
            ),
    {
        let here: usize = self.instructions.len();
        if here > u16::MAX as usize {
            return Err(CompilerError::InstructionLimitReached);
        }
        let idx: usize = jump.idx;
        let patched = self.instructions[idx].with_target(here as u16);
        self.instructions[idx] = patched;
        proof {
            self.unplaced@ = self.unplaced@.remove(idx as int);
            assert(self@.blocks =~= old(self)@.blocks);
            assert(self@.instructions =~= old(self)@.patch(idx as int, here as u16).instructions);
            assert forall|b: int, k: int|
                0 <= b < self@.blocks.len() && 0 <= k < self@.blocks[b].pending.len()
                    implies self@.holds_jump(#[trigger] self@.blocks[b].pending[k]) by {
                assert(old(self)@.holds_jump(old(self)@.blocks[b].pending[k]));
            }
        }
        Ok(())
    }

    /// Adds `jump` to the pending jumps of frame `at`.
    fn defer_at(&mut self, at: usize, jump: JumpRef)
        requires
            old(self).wf(),
            at < old(self)@.blocks.len(),
            old(self)@.holds_jump(jump.address()),
        ensures
            final(self).wf(),
            final(self)@ == (CompilerView {
                blocks: with_pending(old(self)@.blocks, at as int, jump.address()),
                ..old(self)@
            }),
    {
        let ghost before = self@;
        self.blocks[at].pending.push(jump);
        proof {
            let goal = with_pending(before.blocks, at as int, jump.address());
            assert(self@.blocks.len() == goal.len());
            assert forall|b: int| 0 <= b < goal.len() implies #[trigger] self@.blocks[b]
                == goal[b] by {
                if b == at as int {
                    assert(self@.blocks[b].pending =~= before.blocks[b].pending.push(
                        jump.address(),
                    ));
                } else {
                    assert(self.blocks@[b] == old(self).blocks@[b]);
                }
            }
            assert(self@.blocks =~= goal);
            assert forall|b: int, k: int|
                0 <= b < self@.blocks.len() && 0 <= k < self@.blocks[b].pending.len()
                    implies self@.holds_jump(#[trigger] self@.blocks[b].pending[k]) by {
                if b == at as int && k == before.blocks[b].pending.len() {
                } else {
                    assert(before.holds_jump(before.blocks[b].pending[k]));
                }
            }
        }
    }

    /// The innermost frame of the given kind.
    fn find_block(&self, block_type: BlockType) -> (r: Option<usize>)
        ensures
            match r {
                Some(at) => nearest_of(self@.blocks, block_type) == Some(at as int) && at
                    < self@.blocks.len(),
                None => nearest_of(self@.blocks, block_type) is None,
            },
    {
        let mut i: usize = self.blocks.len();
        assert(self@.blocks.take(i as int) =~= self@.blocks);
        while i > 0
            invariant
                0 <= i <= self.blocks@.len(),
                nearest_of(self@.blocks, block_type) == nearest_of(
                    self@.blocks.take(i as int),
                    block_type,
                ),
            decreases i,
        {
            i -= 1;
            proof {
                assert(self@.blocks.take(i as int + 1).last() == self@.blocks[i as int]);
                assert(self@.blocks.take(i as int + 1).drop_last() =~= self@.blocks.take(i as int));
            }
            if self.blocks[i].kind == block_type {
                return Some(i);
            }
        }
        None
    }

    /// The innermost frame of a loop.
    fn find_loop(&self) -> (r: Option<usize>)
        ensures
            match r {
                Some(at) => nearest_loop(self@.blocks) == Some(at as int) && at
                    < self@.blocks.len(),
                None => nearest_loop(self@.blocks) is None,
            },
    {
        let mut i: usize = self.blocks.len();
        assert(self@.blocks.take(i as int) =~= self@.blocks);
        while i > 0
            invariant
                0 <= i <= self.blocks@.len(),
                nearest_loop(self@.blocks) == nearest_loop(self@.blocks.take(i as int)),
            decreases i,
        {
            i -= 1;
            proof {
                assert(self@.blocks.take(i as int + 1).last() == self@.blocks[i as int]);
                assert(self@.blocks.take(i as int + 1).drop_last() =~= self@.blocks.take(i as int));
            }
            if self.blocks[i].kind == BlockType::While || self.blocks[i].kind == BlockType::For {
                return Some(i);
            }
        }
        None
    }

    /// Leaves `jump` to the exit of the innermost block of the given kind:
    /// it will be aimed at the instruction that follows the block. Without
    /// such a block nothing happens.
    pub fn target_jump_on_exit(&mut self, block_type: BlockType, jump: JumpRef)
        requires
            old(self).wf(),
            old(self)@.holds_jump(jump.address()),
        ensures
            final(self).wf(),
            final(self)@ == old(self)@.defer_to(block_type, jump.address()),
    {
        match self.find_block(block_type) {
            Some(at) => self.defer_at(at, jump),
            None => {},
        }
    }

    /// Leaves `jump` to the exit of the innermost loop, if there is one;
    /// otherwise returns `None` and changes nothing.
    pub fn target_jump_on_loop_exit(&mut self, jump: JumpRef) -> (r: Option<()>)
        requires
            old(self).wf(),
            old(self)@.holds_jump(jump.address()),
        ensures
            final(self).wf(),
            match r {
                Some(_) => old(self)@.defer_to_loop(jump.address()) == Some(final(self)@),
                None => old(self)@.defer_to_loop(jump.address()) is None && final(self)@ == old(
                    self,
                )@,
            },
    {
        match self.find_loop() {
            Some(at) => {
                self.defer_at(at, jump);
                Some(())
            },
            None => None,
        }
    }

    /// The address at which the innermost loop begins.
    pub fn loop_head(&self) -> (r: Option<Label>)
        requires
            self.wf(),
        ensures
            match r {
                Some(label) => nearest_loop(self@.blocks) matches Some(at) && label.0
                    == self@.blocks[at].head,
                None => nearest_loop(self@.blocks) is None,
            },
    {
        match self.find_loop() {
            Some(at) => Some(Label(self.blocks[at].head)),
            None => None,
        }
    }
}


impl From<usize> for Label {
    fn from(v: usize) -> (r: Self) {
        Label(v)
    }
}

impl FromSpecImpl<usize> for Label {
    open spec fn obeys_from_spec() -> bool {
        true
    }

    open spec fn from_spec(v: usize) -> Self {
        Label(v)
    }
}

impl From<Label> for usize {
    fn from(v: Label) -> (r: Self) {
        v.0
    }
}

impl FromSpecImpl<Label> for usize {
    open spec fn obeys_from_spec() -> bool {
        true
    }

    open spec fn from_spec(v: Label) -> Self {
        v.0
    }
}

impl From<JumpRef> for usize {
    fn from(v: JumpRef) -> (r: Self) {
        v.idx
    }
}

impl FromSpecImpl<JumpRef> for usize {
    open spec fn obeys_from_spec() -> bool {
        true
    }

    open spec fn from_spec(v: JumpRef) -> Self {
        v.address() as usize
    }
}

} // verus!
