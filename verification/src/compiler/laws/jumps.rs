//! Jumps get their targets: once, inside the code, and behind themselves
//! unless they go back to the head of a loop.

use vstd::prelude::*;

use crate::ast::IdentifierKind;
use crate::ast::expression::Expression;
use crate::ast::statement::Statement;
use crate::ast::statement::declare_assign_statement::DeclarationStatement;
use crate::ast::statement::if_statement::{ConditionalStatement, ElseIfStatement};
use crate::ast::statement::while_statement::WhileStatement;
use crate::ast::value::ValueView;
use crate::compiler::instruction::Instruction;
use crate::compiler::laws::frames::{
    lemma_exit_restores_shape, lemma_expression_keeps_blocks, lemma_nearest_by_shape,
    lemma_nearest_in_range, lemma_statements_keep_shape, same_but_target, shape,
};
use crate::compiler::lowering::{
    all_lowerable, binary_instruction, close_branch, else_ifs_lowerable, lower_branch, lower_break,
    lower_consumed, lower_continue, lower_else_ifs, lower_expression, lower_statement,
    lower_statements, lowerable,
};
use crate::compiler::model::{
    distinct_names, nearest_loop, nearest_of, table_limit, with_pending, BlockType, CompilerView,
    FrameView, Lowering,
};

verus! {

/// Whether `b` is a frame and `k` a place among its pending jumps.
pub open spec fn is_place(blocks: Seq<FrameView>, b: int, k: int) -> bool {
    0 <= b < blocks.len() && 0 <= k < blocks[b].pending.len()
}

/// Whether the jump at `at` is left to the exit of some frame.
pub open spec fn is_pending(blocks: Seq<FrameView>, at: int) -> bool {
    exists|b: int, k: int| is_place(blocks, b, k) && (#[trigger] blocks[b].pending[k]) == at
}

/// Whether the jump at `at` lands where a jump with its target may: behind
/// itself, or, if it is an unconditional jump, at the head of a loop.
pub open spec fn lands_right(c: CompilerView, at: int) -> bool {
    let jump = c.instructions[at];
    at < jump.jump_target() || (jump is Jump && c.heads.contains(jump.jump_target()))
}

/// Whether `head` is the head of a loop that is open.
pub open spec fn is_open_loop(blocks: Seq<FrameView>, head: int) -> bool {
    exists|b: int| 0 <= b < blocks.len() && (#[trigger] blocks[b]).kind.is_loop() && blocks[b].head == head
}

/// Whether the jump at `at`, if it does not land behind itself, lands at
/// an address from `from` on or at the head of one of the loops that are
/// open in `blocks`.
pub open spec fn stays_inside(c: CompilerView, at: int, from: int, blocks: Seq<FrameView>) -> bool {
    let target = c.instructions[at].jump_target();
    at < target || from <= target || is_open_loop(blocks, target)
}

/// Every jump of the buffer is accounted for.
///
/// A jump that has no target yet is left to the exit of a frame or is
/// one of `loose`, the jumps that the construct being lowered still
/// holds in its hands. Every other jump lands inside the buffer or right
/// behind it. No jump is left to an exit twice, or left to an exit while
/// it is held, and none that is held or left to an exit has its target
/// already. The head of every loop that is open is known as one.
pub open spec fn accounted(c: CompilerView, loose: Set<int>) -> bool {
    &&& forall|b: int|
        0 <= b < c.blocks.len() && (#[trigger] c.blocks[b]).kind.is_loop() ==> c.heads.contains(
            c.blocks[b].head,
        )
    &&& forall|i: int| #[trigger]
        c.unplaced.contains(i) ==> c.holds_jump(i) && (loose.contains(i) || is_pending(c.blocks, i))
    &&& forall|i: int|
        c.holds_jump(i) && !c.unplaced.contains(i) ==> 0 <= (#[trigger] c.instructions[i]).jump_target()
            <= c.here()
    &&& forall|i: int| #[trigger]
        loose.contains(i) ==> c.unplaced.contains(i) && !is_pending(c.blocks, i)
    &&& forall|b: int, k: int|
        is_place(c.blocks, b, k) ==> c.unplaced.contains(#[trigger] c.blocks[b].pending[k])
    &&& forall|b: int, k: int, b2: int, k2: int|
        is_place(c.blocks, b, k) && is_place(c.blocks, b2, k2) && (b != b2 || k != k2) ==> (
        #[trigger] c.blocks[b].pending[k]) != (#[trigger] c.blocks[b2].pending[k2])
}

/// The state is well formed and its jumps are accounted for.
pub open spec fn sound(c: CompilerView, loose: Set<int>) -> bool {
    c.wf() && accounted(c, loose)
}

/// No jump is without its target unless the exit of a frame will give it
/// one, exactly once, and every jump that has its target lands inside the
/// buffer or right behind it.
pub open spec fn settled(c: CompilerView) -> bool {
    sound(c, Set::empty())
}

/// Whether `after` holds the instructions of `before`, each as it was if
/// it was no jump still without its target, and whether the jumps that
/// had their targets have them still. The heads of loops are heads still,
/// and every jump that has its target in `after` and was not there, or
/// had none, in `before` lands where it may.
pub open spec fn kept(before: CompilerView, after: CompilerView) -> bool {
    &&& before.here() <= after.here()
    &&& before.heads.subset_of(after.heads)
    &&& forall|i: int|
        after.holds_jump(i) && !after.unplaced.contains(i) && (i >= before.here()
            || before.unplaced.contains(i)) ==> #[trigger] lands_right(after, i)
    &&& forall|i: int|
        after.holds_jump(i) && !after.unplaced.contains(i) && (i >= before.here()
            || before.unplaced.contains(i)) ==> #[trigger] stays_inside(
            after,
            i,
            before.here(),
            before.blocks,
        )
    &&& forall|b: int|
        0 <= b < after.blocks.len() && (#[trigger] after.blocks[b]).kind.is_loop()
            ==> after.blocks[b].head >= before.here() || is_open_loop(
            before.blocks,
            after.blocks[b].head,
        )
    &&& forall|i: int|
        0 <= i < before.here() && !before.unplaced.contains(i) ==> (#[trigger] after.instructions[i])
            == before.instructions[i]
    &&& forall|i: int|
        0 <= i < before.here() && #[trigger] after.unplaced.contains(i) ==> before.unplaced.contains(
            i,
        )
}

proof fn lemma_kept_trans(a: CompilerView, b: CompilerView, c: CompilerView)
    requires
        kept(a, b),
        kept(b, c),
    ensures
        kept(a, c),
{
    assert forall|i: int| 0 <= i < a.here() && !a.unplaced.contains(i) implies (
    #[trigger] c.instructions[i]) == a.instructions[i] by {
        assert(b.instructions[i] == a.instructions[i]);
        assert(!b.unplaced.contains(i));
    }
    assert forall|i: int|
        c.holds_jump(i) && !c.unplaced.contains(i) && (i >= a.here() || a.unplaced.contains(
            i,
        )) implies #[trigger] lands_right(c, i) by {
        if i < b.here() && !b.unplaced.contains(i) {
            assert(c.instructions[i] == b.instructions[i]);
            assert(lands_right(b, i));
        }
    }
    assert forall|f: int|
        0 <= f < c.blocks.len() && (#[trigger] c.blocks[f]).kind.is_loop() implies c.blocks[f].head
        >= a.here() || is_open_loop(a.blocks, c.blocks[f].head) by {
        lemma_open_loop_kept(a, b, c.blocks[f].head);
    }
    assert forall|i: int|
        c.holds_jump(i) && !c.unplaced.contains(i) && (i >= a.here() || a.unplaced.contains(
            i,
        )) implies #[trigger] stays_inside(c, i, a.here(), a.blocks) by {
        if i < b.here() && !b.unplaced.contains(i) {
            assert(c.instructions[i] == b.instructions[i]);
            assert(stays_inside(b, i, a.here(), a.blocks));
        } else {
            assert(stays_inside(c, i, b.here(), b.blocks));
            lemma_open_loop_kept(a, b, c.instructions[i].jump_target());
        }
    }
}

/// A loop that is open in `b` was open in `a` or begins no earlier than
/// the code that `a` had ends.
proof fn lemma_open_loop_kept(a: CompilerView, b: CompilerView, head: int)
    requires
        kept(a, b),
    ensures
        is_open_loop(b.blocks, head) ==> head >= a.here() || is_open_loop(a.blocks, head),
{
    if is_open_loop(b.blocks, head) {
        let f = choose|f: int|
            0 <= f < b.blocks.len() && (#[trigger] b.blocks[f]).kind.is_loop() && b.blocks[f].head
                == head;
        assert(b.blocks[f].head >= a.here() || is_open_loop(a.blocks, b.blocks[f].head));
    }
}

/// The frames of `after` are those of `before`, each with the pending
/// jumps it had and possibly more.
pub open spec fn grown(before: Seq<FrameView>, after: Seq<FrameView>) -> bool {
    &&& shape(before) == shape(after)
    &&& forall|b: int|
        0 <= b < before.len() ==> before[b].pending.is_prefix_of((#[trigger] after[b]).pending)
}

proof fn lemma_shape_len(a: Seq<FrameView>, b: Seq<FrameView>)
    requires
        shape(a) == shape(b),
    ensures
        a.len() == b.len(),
        forall|i: int| 0 <= i < a.len() ==> a[i].kind == b[i].kind && a[i].head == b[i].head,
{
    assert(shape(a).len() == a.len());
    assert(shape(b).len() == b.len());
    assert forall|i: int| 0 <= i < a.len() implies a[i].kind == b[i].kind && a[i].head
        == b[i].head by {
        assert(shape(a)[i] == shape(b)[i]);
    }
}

proof fn lemma_grown_pending(before: Seq<FrameView>, after: Seq<FrameView>, at: int)
    requires
        grown(before, after),
        is_pending(before, at),
    ensures
        is_pending(after, at),
{
    lemma_shape_len(before, after);
    let (b, k) = choose|b: int, k: int|
        is_place(before, b, k) && (#[trigger] before[b].pending[k]) == at;
    assert(before[b].pending.is_prefix_of(after[b].pending));
    assert(after[b].pending.subrange(0, before[b].pending.len() as int)[k] == at);
    assert(is_place(after, b, k) && after[b].pending[k] == at);
}

proof fn lemma_grown_trans(a: Seq<FrameView>, b: Seq<FrameView>, c: Seq<FrameView>)
    requires
        grown(a, b),
        grown(b, c),
    ensures
        grown(a, c),
{
    lemma_shape_len(a, b);
    lemma_shape_len(b, c);
    assert forall|f: int| 0 <= f < a.len() implies a[f].pending.is_prefix_of(
        (#[trigger] c[f]).pending,
    ) by {
        assert(a[f].pending.is_prefix_of(b[f].pending));
        assert(b[f].pending.is_prefix_of(c[f].pending));
        assert(a[f].pending =~= c[f].pending.subrange(0, a[f].pending.len() as int));
    }
}

/// A state that differs from a sound one in nothing that the jumps
/// depend on, or only in instructions added that are no jumps without a
/// target, is sound.
proof fn lemma_same_jumps_sound(c: CompilerView, d: CompilerView, loose: Set<int>)
    requires
        sound(c, loose),
        d.blocks == c.blocks,
        d.unplaced == c.unplaced,
        d.heads == c.heads,
        c.here() <= d.here(),
        forall|i: int| 0 <= i < c.here() ==> #[trigger] d.instructions[i] == c.instructions[i],
        forall|i: int|
            c.here() <= i < d.here() && (#[trigger] d.instructions[i]).is_jump() ==> 0
                <= d.instructions[i].jump_target() <= d.here() && lands_right(d, i)
                && stays_inside(d, i, c.here(), c.blocks),
        d.symbols.len() <= table_limit(),
        d.values.len() <= table_limit(),
        distinct_names(d.symbols),
    ensures
        sound(d, loose),
        kept(c, d),
        grown(c.blocks, d.blocks),
{
    assert forall|b: int, k: int| is_place(d.blocks, b, k) implies d.holds_jump(
        #[trigger] d.blocks[b].pending[k],
    ) by {
        let at = c.blocks[b].pending[k];
        assert(c.holds_jump(at));
        assert(d.instructions[at] == c.instructions[at]);
    }
    assert forall|i: int| #[trigger] d.unplaced.contains(i) implies d.holds_jump(i) && (
    loose.contains(i) || is_pending(d.blocks, i)) by {
        assert(c.holds_jump(i));
        assert(d.instructions[i] == c.instructions[i]);
    }
    assert forall|i: int| d.holds_jump(i) && !d.unplaced.contains(i) implies 0 <= (
    #[trigger] d.instructions[i]).jump_target() <= d.here() by {
        if i < c.here() {
            assert(d.instructions[i] == c.instructions[i]);
            assert(c.holds_jump(i));
        }
    }
}

proof fn lemma_emit_sound(c: CompilerView, instruction: Instruction, loose: Set<int>)
    requires
        sound(c, loose),
        instruction.is_jump() ==> 0 <= instruction.jump_target() <= c.here() + 1,
        instruction.is_jump() ==> c.here() < instruction.jump_target() || (instruction is Jump
            && is_open_loop(c.blocks, instruction.jump_target())),
    ensures
        sound(c.emit(instruction), loose),
        kept(c, c.emit(instruction)),
        grown(c.blocks, c.emit(instruction).blocks),
{
    lemma_same_jumps_sound(c, c.emit(instruction), loose);
}

proof fn lemma_emit_jump_sound(c: CompilerView, jump: Instruction, loose: Set<int>)
    requires
        sound(c, loose),
        jump.is_jump(),
    ensures
        sound(c.emit_jump(jump), loose.insert(c.here())),
        !loose.contains(c.here()),
        c.emit_jump(jump).holds_jump(c.here()),
        kept(c, c.emit_jump(jump)),
        grown(c.blocks, c.emit_jump(jump).blocks),
{
    let d = c.emit_jump(jump);
    let held = loose.insert(c.here());
    assert forall|b: int, k: int| is_place(d.blocks, b, k) implies d.holds_jump(
        #[trigger] d.blocks[b].pending[k],
    ) && d.unplaced.contains(d.blocks[b].pending[k]) by {
        assert(c.holds_jump(c.blocks[b].pending[k]));
        assert(c.unplaced.contains(c.blocks[b].pending[k]));
    }
    assert(!is_pending(d.blocks, c.here())) by {
        if is_pending(d.blocks, c.here()) {
            let (b, k) = choose|b: int, k: int|
                is_place(d.blocks, b, k) && (#[trigger] d.blocks[b].pending[k]) == c.here();
            assert(c.holds_jump(c.blocks[b].pending[k]));
        }
    }
    assert(!loose.contains(c.here())) by {
        if loose.contains(c.here()) {
            assert(c.unplaced.contains(c.here()));
            assert(c.holds_jump(c.here()));
        }
    }
    assert forall|i: int| #[trigger] d.unplaced.contains(i) implies d.holds_jump(i) && (
    held.contains(i) || is_pending(d.blocks, i)) by {
        if i != c.here() {
            assert(c.unplaced.contains(i));
            assert(c.holds_jump(i));
        }
    }
    assert forall|i: int| d.holds_jump(i) && !d.unplaced.contains(i) implies 0 <= (
    #[trigger] d.instructions[i]).jump_target() <= d.here() by {
        assert(i != c.here());
        assert(c.holds_jump(i));
        assert(d.instructions[i] == c.instructions[i]);
    }
    assert forall|i: int| #[trigger] held.contains(i) implies d.unplaced.contains(i)
        && !is_pending(d.blocks, i) by {
        if i != c.here() {
            assert(loose.contains(i));
        }
    }
}

proof fn lemma_with_pending_sound(c: CompilerView, frame: int, at: int, loose: Set<int>)
    requires
        sound(c, loose),
        loose.contains(at),
        0 <= frame < c.blocks.len(),
    ensures
        sound(CompilerView { blocks: with_pending(c.blocks, frame, at), ..c }, loose.remove(at)),
        kept(c, CompilerView { blocks: with_pending(c.blocks, frame, at), ..c }),
        grown(c.blocks, with_pending(c.blocks, frame, at)),
{
    let d = CompilerView { blocks: with_pending(c.blocks, frame, at), ..c };
    let rest = loose.remove(at);
    let last = c.blocks[frame].pending.len() as int;
    assert(c.unplaced.contains(at) && !is_pending(c.blocks, at));
    assert(c.holds_jump(at));
    assert(shape(d.blocks) =~= shape(c.blocks));
    assert(d.blocks[frame].pending[last] == at);
    assert forall|b: int| 0 <= b < c.blocks.len() implies c.blocks[b].pending.is_prefix_of(
        (#[trigger] d.blocks[b]).pending,
    ) by {
        if b == frame {
            assert(c.blocks[b].pending =~= d.blocks[b].pending.subrange(0, last));
        }
    }
    assert(grown(c.blocks, d.blocks));
    // every place of `d` but the new one is a place of `c` with the same jump
    assert forall|b: int, k: int| is_place(d.blocks, b, k) && !(b == frame && k == last)
        implies is_place(c.blocks, b, k) && (#[trigger] d.blocks[b].pending[k])
        == c.blocks[b].pending[k] by {}
    assert forall|b: int, k: int| is_place(d.blocks, b, k) implies d.holds_jump(
        #[trigger] d.blocks[b].pending[k],
    ) && d.unplaced.contains(d.blocks[b].pending[k]) by {
        if !(b == frame && k == last) {
            assert(c.holds_jump(c.blocks[b].pending[k]));
            assert(c.unplaced.contains(c.blocks[b].pending[k]));
        }
    }
    assert forall|i: int| #[trigger] d.unplaced.contains(i) implies d.holds_jump(i) && (
    rest.contains(i) || is_pending(d.blocks, i)) by {
        assert(c.holds_jump(i));
        if i == at {
            assert(is_place(d.blocks, frame, last));
            assert(is_pending(d.blocks, i));
        } else if !loose.contains(i) {
            lemma_grown_pending(c.blocks, d.blocks, i);
        }
    }
    assert forall|i: int| #[trigger] rest.contains(i) implies d.unplaced.contains(i)
        && !is_pending(d.blocks, i) by {
        assert(loose.contains(i));
        if is_pending(d.blocks, i) {
            let (b, k) = choose|b: int, k: int|
                is_place(d.blocks, b, k) && (#[trigger] d.blocks[b].pending[k]) == i;
            assert(!(b == frame && k == last));
            assert(is_place(c.blocks, b, k) && c.blocks[b].pending[k] == i);
            assert(is_pending(c.blocks, i));
        }
    }
    assert forall|b: int, k: int, b2: int, k2: int|
        is_place(d.blocks, b, k) && is_place(d.blocks, b2, k2) && (b != b2 || k != k2) implies (
    #[trigger] d.blocks[b].pending[k]) != (#[trigger] d.blocks[b2].pending[k2]) by {
        if b == frame && k == last {
            assert(is_place(c.blocks, b2, k2) && c.blocks[b2].pending[k2]
                == d.blocks[b2].pending[k2]);
        } else if b2 == frame && k2 == last {
            assert(is_place(c.blocks, b, k) && c.blocks[b].pending[k] == d.blocks[b].pending[k]);
        } else {
            assert(c.blocks[b].pending[k] != c.blocks[b2].pending[k2]);
        }
    }
}

proof fn lemma_defer_sound(c: CompilerView, kind: BlockType, at: int, loose: Set<int>)
    requires
        sound(c, loose),
        loose.contains(at),
        nearest_of(c.blocks, kind) is Some,
    ensures
        sound(c.defer_to(kind, at), loose.remove(at)),
        kept(c, c.defer_to(kind, at)),
        grown(c.blocks, c.defer_to(kind, at).blocks),
{
    lemma_nearest_in_range(c.blocks, kind);
    lemma_with_pending_sound(c, nearest_of(c.blocks, kind)->0, at, loose);
}

proof fn lemma_defer_loop_sound(c: CompilerView, at: int, loose: Set<int>)
    requires
        sound(c, loose),
        loose.contains(at),
        nearest_loop(c.blocks) is Some,
    ensures
        c.defer_to_loop(at) is Some,
        sound(c.defer_to_loop(at)->0, loose.remove(at)),
        kept(c, c.defer_to_loop(at)->0),
        grown(c.blocks, c.defer_to_loop(at)->0.blocks),
{
    lemma_nearest_in_range(c.blocks, BlockType::If);
    lemma_with_pending_sound(c, nearest_loop(c.blocks)->0, at, loose);
}

proof fn lemma_target_sound(c: CompilerView, at: int, loose: Set<int>)
    requires
        sound(c, loose),
        loose.contains(at),
        c.target_jump(at).fault is None,
    ensures
        sound(c.target_jump(at).state, loose.remove(at)),
        kept(c, c.target_jump(at).state),
        grown(c.blocks, c.target_jump(at).state.blocks),
{
    let d = c.target_jump(at).state;
    let rest = loose.remove(at);
    assert(c.unplaced.contains(at) && !is_pending(c.blocks, at));
    assert(c.holds_jump(at));
    assert forall|b: int, k: int| is_place(d.blocks, b, k) implies d.holds_jump(
        #[trigger] d.blocks[b].pending[k],
    ) && d.unplaced.contains(d.blocks[b].pending[k]) by {
        let p = c.blocks[b].pending[k];
        assert(c.holds_jump(p));
        assert(c.unplaced.contains(p));
        assert(is_place(c.blocks, b, k));
        assert(p != at);
    }
    assert forall|i: int| #[trigger] d.unplaced.contains(i) implies d.holds_jump(i) && (
    rest.contains(i) || is_pending(d.blocks, i)) by {
        assert(c.unplaced.contains(i));
        assert(c.holds_jump(i));
        assert(i != at);
    }
    assert forall|i: int| d.holds_jump(i) && !d.unplaced.contains(i) implies 0 <= (
    #[trigger] d.instructions[i]).jump_target() <= d.here() by {
        if i != at {
            assert(c.holds_jump(i));
            assert(d.instructions[i] == c.instructions[i]);
        }
    }
    assert forall|i: int| #[trigger] rest.contains(i) implies d.unplaced.contains(i)
        && !is_pending(d.blocks, i) by {
        assert(loose.contains(i));
    }
}

proof fn lemma_enter_sound(c: CompilerView, kind: BlockType, loose: Set<int>)
    requires
        sound(c, loose),
    ensures
        sound(c.enter_block(kind), loose),
        kept(c, c.enter_block(kind)),
        c.enter_block(kind).blocks.last().kind == kind,
        nearest_of(c.enter_block(kind).blocks, kind) is Some,
        kind.is_loop() ==> nearest_loop(c.enter_block(kind).blocks) is Some,
{
    let d = c.enter_block(kind);
    assert forall|b: int, k: int| is_place(d.blocks, b, k) implies is_place(c.blocks, b, k) && (
    #[trigger] d.blocks[b].pending[k]) == c.blocks[b].pending[k] by {}
    assert forall|b: int, k: int| is_place(d.blocks, b, k) implies d.holds_jump(
        #[trigger] d.blocks[b].pending[k],
    ) && d.unplaced.contains(d.blocks[b].pending[k]) by {
        assert(c.holds_jump(c.blocks[b].pending[k]));
        assert(c.unplaced.contains(c.blocks[b].pending[k]));
    }
    assert forall|i: int| is_pending(d.blocks, i) == is_pending(c.blocks, i) by {
        if is_pending(c.blocks, i) {
            let (b, k) = choose|b: int, k: int|
                is_place(c.blocks, b, k) && (#[trigger] c.blocks[b].pending[k]) == i;
            assert(is_place(d.blocks, b, k) && d.blocks[b].pending[k] == i);
        }
        if is_pending(d.blocks, i) {
            let (b, k) = choose|b: int, k: int|
                is_place(d.blocks, b, k) && (#[trigger] d.blocks[b].pending[k]) == i;
            assert(is_place(c.blocks, b, k) && c.blocks[b].pending[k] == i);
        }
    }
    assert forall|i: int| #[trigger] d.unplaced.contains(i) implies d.holds_jump(i) && (
    loose.contains(i) || is_pending(d.blocks, i)) by {
        assert(c.holds_jump(i));
        assert(is_pending(d.blocks, i) == is_pending(c.blocks, i));
    }
    assert forall|i: int| #[trigger] loose.contains(i) implies d.unplaced.contains(i)
        && !is_pending(d.blocks, i) by {
        assert(is_pending(d.blocks, i) == is_pending(c.blocks, i));
    }
    assert forall|b: int, k: int, b2: int, k2: int|
        is_place(d.blocks, b, k) && is_place(d.blocks, b2, k2) && (b != b2 || k != k2) implies (
    #[trigger] d.blocks[b].pending[k]) != (#[trigger] d.blocks[b2].pending[k2]) by {
        assert(c.blocks[b].pending[k] != c.blocks[b2].pending[k2]);
    }
}

proof fn lemma_exit_sound(c: CompilerView, loose: Set<int>)
    requires
        sound(c, loose),
        c.blocks.len() > 0,
        c.exit_block().fault is None,
    ensures
        sound(c.exit_block().state, loose),
        kept(c, c.exit_block().state),
{
    let d = c.exit_block().state;
    let top = c.blocks.len() - 1;
    let pending = c.blocks.last().pending;
    assert forall|b: int, k: int| is_place(d.blocks, b, k) implies is_place(c.blocks, b, k) && b
        < top && (#[trigger] d.blocks[b].pending[k]) == c.blocks[b].pending[k] by {}
    assert forall|i: int| pending.contains(i) implies c.unplaced.contains(i) by {
        let k = choose|k: int| 0 <= k < pending.len() && pending[k] == i;
        assert(is_place(c.blocks, top, k));
        assert(c.unplaced.contains(c.blocks[top].pending[k]));
    }
    assert forall|b: int, k: int| is_place(d.blocks, b, k) implies d.holds_jump(
        #[trigger] d.blocks[b].pending[k],
    ) && d.unplaced.contains(d.blocks[b].pending[k]) by {
        let p = c.blocks[b].pending[k];
        assert(c.holds_jump(p));
        assert(c.unplaced.contains(p));
        if pending.contains(p) {
            let k2 = choose|k2: int| 0 <= k2 < pending.len() && pending[k2] == p;
            assert(is_place(c.blocks, top, k2));
            assert(c.blocks[b].pending[k] != c.blocks[top].pending[k2]);
        }
    }
    assert forall|i: int| #[trigger] d.unplaced.contains(i) implies d.holds_jump(i) && (
    loose.contains(i) || is_pending(d.blocks, i)) by {
        assert(c.unplaced.contains(i));
        assert(c.holds_jump(i));
        if !loose.contains(i) {
            let (b, k) = choose|b: int, k: int|
                is_place(c.blocks, b, k) && (#[trigger] c.blocks[b].pending[k]) == i;
            if b == top {
                assert(pending[k] == i);
                assert(pending.contains(i));
                assert(pending.len() > 0);
                assert(!d.unplaced.contains(i));
            } else {
                assert(is_place(d.blocks, b, k) && d.blocks[b].pending[k] == i);
            }
        }
    }
    assert forall|i: int| d.holds_jump(i) && !d.unplaced.contains(i) implies 0 <= (
    #[trigger] d.instructions[i]).jump_target() <= d.here() by {
        assert(c.holds_jump(i));
        if pending.len() > 0 && pending.contains(i) {
        } else {
            assert(d.instructions[i] == c.instructions[i]);
            assert(!c.unplaced.contains(i));
        }
    }
    assert forall|i: int| #[trigger] loose.contains(i) implies d.unplaced.contains(i)
        && !is_pending(d.blocks, i) by {
        assert(c.unplaced.contains(i) && !is_pending(c.blocks, i));
        if pending.contains(i) {
            let k = choose|k: int| 0 <= k < pending.len() && pending[k] == i;
            assert(is_place(c.blocks, top, k) && c.blocks[top].pending[k] == i);
        }
        if is_pending(d.blocks, i) {
            let (b, k) = choose|b: int, k: int|
                is_place(d.blocks, b, k) && (#[trigger] d.blocks[b].pending[k]) == i;
            assert(is_place(c.blocks, b, k) && c.blocks[b].pending[k] == i);
        }
    }
    assert forall|b: int, k: int, b2: int, k2: int|
        is_place(d.blocks, b, k) && is_place(d.blocks, b2, k2) && (b != b2 || k != k2) implies (
    #[trigger] d.blocks[b].pending[k]) != (#[trigger] d.blocks[b2].pending[k2]) by {
        assert(c.blocks[b].pending[k] != c.blocks[b2].pending[k2]);
    }
    assert forall|i: int| 0 <= i < c.here() && !c.unplaced.contains(i) implies (
    #[trigger] d.instructions[i]) == c.instructions[i] by {
        if pending.contains(i) {
            assert(c.unplaced.contains(i));
        }
    }
}

proof fn lemma_register_sound(c: CompilerView, name: Seq<char>, kind: IdentifierKind, loose: Set<int>)
    requires
        sound(c, loose),
    ensures
        sound(c.register(name, kind).state, loose),
        kept(c, c.register(name, kind).state),
{
    let d = c.register(name, kind).state;
    if c.register(name, kind).fault is None {
        assert forall|i: int, j: int| 0 <= i < j < d.symbols.len() implies (
        #[trigger] d.symbols[i]).name != (#[trigger] d.symbols[j]).name by {
            if j < c.symbols.len() {
                assert(c.symbols[i].name != c.symbols[j].name);
            } else {
                assert(c.symbols[i].name != name);
            }
        }
        lemma_same_jumps_sound(c, d, loose);
    }
}

proof fn lemma_register_value_sound(c: CompilerView, value: ValueView, loose: Set<int>)
    requires
        sound(c, loose),
    ensures
        sound(c.register_value(value).state, loose),
        kept(c, c.register_value(value).state),
{
    let d = c.register_value(value).state;
    if c.register_value(value).fault is None {
        lemma_same_jumps_sound(c, d, loose);
    }
}

/// Lowering an expression keeps a sound state sound, whether it fails or
/// not, and leaves the instructions that were there as they were.
pub proof fn lemma_expression_sound(c: CompilerView, e: Expression, loose: Set<int>)
    requires
        sound(c, loose),
    ensures
        sound(lower_expression(c, e).state, loose),
        kept(c, lower_expression(c, e).state),
    decreases e,
{
    match e {
        Expression::Value(value) => {
            lemma_register_value_sound(c, value@, loose);
            let added = c.register_value(value@);
            if added.fault is None {
                let load = Instruction::LoadValue(c.values.len() as u16);
                lemma_emit_sound(added.state, load, loose);
                lemma_kept_trans(c, added.state, added.state.emit(load));
            }
        },
        Expression::Identifier(identifier) => {
            match c.lookup(identifier.ident@) {
                Some((_, slot)) => {
                    lemma_emit_sound(c, Instruction::LoadSymbol(slot as u16), loose);
                },
                None => {},
            }
        },
        Expression::Unary(unary) => {
            lemma_expression_sound(c, *unary.expression, loose);
            let operand = lower_expression(c, *unary.expression);
            if operand.fault is None {
                lemma_emit_sound(operand.state, Instruction::UnaryMinus, loose);
                lemma_emit_sound(operand.state, Instruction::UnaryNot, loose);
                lemma_kept_trans(c, operand.state, operand.state.emit(Instruction::UnaryMinus));
                lemma_kept_trans(c, operand.state, operand.state.emit(Instruction::UnaryNot));
            }
        },
        Expression::Binary(binary) => {
            lemma_expression_sound(c, *binary.left, loose);
            let left = lower_expression(c, *binary.left);
            if left.fault is None {
                lemma_expression_sound(left.state, *binary.right, loose);
                let right = lower_expression(left.state, *binary.right);
                lemma_kept_trans(c, left.state, right.state);
                if right.fault is None {
                    let operator = binary_instruction(binary.operator);
                    lemma_emit_sound(right.state, operator, loose);
                    lemma_kept_trans(c, right.state, right.state.emit(operator));
                }
            }
        },
    }
}

/// An expression followed by an instruction that is no jump keeps a
/// sound state sound.
proof fn lemma_consumed_sound(c: CompilerView, e: Expression, consumer: Instruction, loose: Set<int>)
    requires
        sound(c, loose),
        !consumer.is_jump(),
    ensures
        sound(lower_consumed(c, e, consumer).state, loose),
        kept(c, lower_consumed(c, e, consumer).state),
        grown(c.blocks, lower_consumed(c, e, consumer).state.blocks),
{
    lemma_expression_sound(c, e, loose);
    lemma_expression_keeps_blocks(c, e);
    let value = lower_expression(c, e);
    if value.fault is None {
        lemma_emit_sound(value.state, consumer, loose);
        lemma_kept_trans(c, value.state, value.state.emit(consumer));
    }
}

/// Whether a lowering that did not fail kept a sound state sound, left
/// every frame in place with the pending jumps it had, and left every
/// instruction as it was that was no jump still without its target.
pub open spec fn orderly(c: CompilerView, out: Lowering, loose: Set<int>) -> bool {
    out.fault is None ==> sound(out.state, loose) && grown(c.blocks, out.state.blocks) && kept(
        c,
        out.state,
    )
}

/// From `c` to `d` orderly, and from `d` on orderly, is orderly from
/// `c`.
proof fn lemma_orderly_then(c: CompilerView, d: CompilerView, out: Lowering, loose: Set<int>)
    requires
        sound(d, loose),
        grown(c.blocks, d.blocks),
        kept(c, d),
        orderly(d, out, loose),
    ensures
        orderly(c, out, loose),
{
    if out.fault is None {
        lemma_grown_trans(c.blocks, d.blocks, out.state.blocks);
        lemma_kept_trans(c, d, out.state);
    }
}

/// A statement that is lowered without failure keeps a sound state
/// sound, leaves every frame in place, with the pending jumps it had, and
/// touches no instruction that was there but jumps that wait for their
/// target.
pub proof fn lemma_statement_sound(c: CompilerView, s: Statement, loose: Set<int>)
    requires
        sound(c, loose),
        lowerable(s),
    ensures
        orderly(c, lower_statement(c, s), loose),
    decreases s, 0nat,
{
    let out = lower_statement(c, s);
    match s {
        Statement::Print(print) => {
            lemma_consumed_sound(c, print.expression, Instruction::Display, loose);
        },
        Statement::Expression(statement) => {
            lemma_consumed_sound(c, statement.expression, Instruction::Pop, loose);
        },
        Statement::Declaration(declaration) => {
            lemma_declaration_sound(c, declaration, loose);
        },
        Statement::Assignment(assignment) => {
            match c.lookup(assignment.identifier@) {
                Some((IdentifierKind::Variable, slot)) => {
                    lemma_consumed_sound(
                        c,
                        assignment.value,
                        Instruction::StoreSymbol(slot as u16),
                        loose,
                    );
                },
                _ => {},
            }
        },
        Statement::Break(_) => {
            lemma_break_sound(c, loose);
        },
        Statement::Continue(_) => {
            lemma_nearest_in_range(c.blocks, BlockType::If);
            match nearest_loop(c.blocks) {
                Some(frame) => {
                    if c.blocks[frame].head <= u16::MAX {
                        lemma_emit_sound(
                            c,
                            Instruction::Jump(c.blocks[frame].head as u16),
                            loose,
                        );
                    }
                },
                None => {},
            }
        },
        Statement::Block(block) => {
            let entered = c.enter_block(BlockType::Block);
            lemma_enter_sound(c, BlockType::Block, loose);
            lemma_statements_sound(entered, block.body@, 0, loose);
            let inner = lower_statements(entered, block.body@, 0);
            if inner.fault is None {
                lemma_close_sound(c, BlockType::Block, inner.state, loose);
            }
        },
        Statement::While(w) => {
            lemma_while_sound(c, w, loose);
        },
        Statement::If(i) => {
            let entered = c.enter_block(BlockType::If);
            lemma_enter_sound(c, BlockType::If, loose);
            lemma_branch_sound(entered, i.if_statement, loose);
            let first = lower_branch(entered, i.if_statement);
            if first.fault is None {
                lemma_nearest_by_shape(entered.blocks, first.state.blocks, BlockType::If);
                lemma_else_ifs_sound(first.state, i.else_if_statements@, 0, loose);
                let others = lower_else_ifs(first.state, i.else_if_statements@, 0);
                lemma_orderly_then(entered, first.state, others, loose);
                if others.fault is None {
                    let last = match i.else_statement {
                        Some(e) => {
                            lemma_statements_sound(others.state, e.statements@, 0, loose);
                            lower_statements(others.state, e.statements@, 0)
                        },
                        None => others,
                    };
                    lemma_orderly_then(entered, others.state, last, loose);
                    if last.fault is None {
                        lemma_close_sound(c, BlockType::If, last.state, loose);
                    }
                }
            }
        },
        Statement::For(_) => {},
    }
}

/// The end of a block: leaving the frame that was entered on top of `c`
/// gives back the frames that `c` had, in a sound state.
proof fn lemma_close_sound(c: CompilerView, kind: BlockType, inner: CompilerView, loose: Set<int>)
    requires
        sound(c, loose),
        sound(inner, loose),
        grown(c.enter_block(kind).blocks, inner.blocks),
        kept(c.enter_block(kind), inner),
    ensures
        inner.blocks.len() > 0,
        orderly(c, inner.exit_block(), loose),
{
    lemma_exit_restores_frames(c, kind, inner);
    if inner.exit_block().fault is None {
        lemma_exit_sound(inner, loose);
        lemma_enter_sound(c, kind, loose);
        lemma_kept_trans(c, c.enter_block(kind), inner);
        lemma_kept_trans(c, inner, inner.exit_block().state);
    }
}

proof fn lemma_declaration_sound(c: CompilerView, declaration: DeclarationStatement, loose: Set<int>)
    requires
        sound(c, loose),
    ensures
        orderly(c, lower_statement(c, Statement::Declaration(declaration)), loose),
{
    let initial = match declaration.initial_value {
        Some(e) => {
            lemma_expression_sound(c, e, loose);
            lemma_expression_keeps_blocks(c, e);
            lower_expression(c, e)
        },
        None => c.ok(),
    };
    if initial.fault is None {
        let name = declaration.identifier.ident@;
        lemma_register_sound(initial.state, name, declaration.identifier.kind, loose);
        let declared = initial.state.register(name, declaration.identifier.kind);
        lemma_kept_trans(c, initial.state, declared.state);
        if declared.fault is None {
            let store = Instruction::StoreSymbol(initial.state.symbols.len() as u16);
            lemma_emit_sound(declared.state, store, loose);
            lemma_kept_trans(c, declared.state, declared.state.emit(store));
        }
    }
}

proof fn lemma_break_sound(c: CompilerView, loose: Set<int>)
    requires
        sound(c, loose),
    ensures
        orderly(c, lower_break(c), loose),
{
    lemma_emit_jump_sound(c, Instruction::Jump(0), loose);
    let emitted = c.emit_jump(Instruction::Jump(0));
    if nearest_loop(emitted.blocks) is Some {
        lemma_defer_loop_sound(emitted, c.here(), loose.insert(c.here()));
        assert(loose.insert(c.here()).remove(c.here()) =~= loose);
        let deferred = emitted.defer_to_loop(c.here())->0;
        lemma_kept_trans(c, emitted, deferred);
        lemma_grown_trans(c.blocks, emitted.blocks, deferred.blocks);
    }
}

proof fn lemma_while_sound(c: CompilerView, w: WhileStatement, loose: Set<int>)
    requires
        sound(c, loose),
        lowerable(Statement::While(w)),
    ensures
        orderly(c, lower_statement(c, Statement::While(w)), loose),
    decreases w, 0nat,
{
    let entered = c.enter_block(BlockType::While);
    lemma_enter_sound(c, BlockType::While, loose);
    lemma_expression_sound(entered, w.condition, loose);
    lemma_expression_keeps_blocks(entered, w.condition);
    let condition = lower_expression(entered, w.condition);
    if condition.fault is None {
        let at = condition.state.here();
        lemma_emit_jump_sound(condition.state, Instruction::JumpIfFalse(0), loose);
        let emitted = condition.state.emit_jump(Instruction::JumpIfFalse(0));
        lemma_defer_sound(emitted, BlockType::While, at, loose.insert(at));
        assert(loose.insert(at).remove(at) =~= loose);
        let guarded = emitted.defer_to(BlockType::While, at);
        lemma_kept_trans(entered, condition.state, emitted);
        lemma_kept_trans(entered, emitted, guarded);
        lemma_grown_trans(entered.blocks, emitted.blocks, guarded.blocks);
        lemma_statements_sound(guarded, w.body@, 0, loose);
        let body = lower_statements(guarded, w.body@, 0);
        lemma_orderly_then(entered, guarded, body, loose);
        if body.fault is None && c.here() <= u16::MAX {
            let back = Instruction::Jump(c.here() as u16);
            let jumped = body.state.emit(back);
            let top = c.blocks.len() as int;
            lemma_shape_len(entered.blocks, body.state.blocks);
            assert(entered.blocks[top].kind == BlockType::While && entered.blocks[top].head
                == c.here());
            assert(body.state.blocks[top].kind.is_loop() && body.state.blocks[top].head
                == c.here());
            lemma_emit_sound(body.state, back, loose);
            lemma_grown_trans(entered.blocks, body.state.blocks, jumped.blocks);
            lemma_kept_trans(entered, body.state, jumped);
            lemma_close_sound(c, BlockType::While, jumped, loose);
        }
    }
}

/// Leaving the frame that was entered on top of `c` gives back the frames
/// that `c` had.
proof fn lemma_exit_restores_frames(c: CompilerView, kind: BlockType, inner: CompilerView)
    requires
        grown(c.enter_block(kind).blocks, inner.blocks),
    ensures
        inner.blocks.len() > 0,
        grown(c.blocks, inner.exit_block().state.blocks),
{
    let entered = c.enter_block(kind).blocks;
    lemma_shape_len(entered, inner.blocks);
    lemma_exit_restores_shape(c, kind, inner);
    let after = inner.exit_block().state.blocks;
    assert(after =~= inner.blocks.drop_last());
    assert forall|b: int| 0 <= b < c.blocks.len() implies c.blocks[b].pending.is_prefix_of(
        (#[trigger] after[b]).pending,
    ) by {
        assert(entered[b] == c.blocks[b]);
        assert(entered[b].pending.is_prefix_of(inner.blocks[b].pending));
    }
}

/// See [`lemma_statement_sound`].
pub proof fn lemma_statements_sound(
    c: CompilerView,
    body: Seq<Statement>,
    from: int,
    loose: Set<int>,
)
    requires
        sound(c, loose),
        all_lowerable(body, from),
    ensures
        orderly(c, lower_statements(c, body, from), loose),
    decreases body, body.len() - from,
{
    if 0 <= from < body.len() {
        lemma_statement_sound(c, body[from], loose);
        let first = lower_statement(c, body[from]);
        if first.fault is None {
            lemma_statements_sound(first.state, body, from + 1, loose);
            lemma_orderly_then(c, first.state, lower_statements(first.state, body, from + 1), loose);
        }
    } else {
        lemma_same_jumps_sound(c, c, loose);
    }
}

/// See [`lemma_statement_sound`]. A branch is lowered inside the frame of
/// its `if`.
pub proof fn lemma_branch_sound(c: CompilerView, branch: ConditionalStatement, loose: Set<int>)
    requires
        sound(c, loose),
        all_lowerable(branch.statements@, 0),
        nearest_of(c.blocks, BlockType::If) is Some,
    ensures
        orderly(c, lower_branch(c, branch), loose),
    decreases branch, 0nat,
{
    lemma_expression_sound(c, branch.condition, loose);
    lemma_expression_keeps_blocks(c, branch.condition);
    let condition = lower_expression(c, branch.condition);
    if condition.fault is None {
        let failed_at = condition.state.here();
        lemma_emit_jump_sound(condition.state, Instruction::JumpIfFalse(0), loose);
        let emitted = condition.state.emit_jump(Instruction::JumpIfFalse(0));
        let held = loose.insert(failed_at);
        lemma_kept_trans(c, condition.state, emitted);
        lemma_statements_sound(emitted, branch.statements@, 0, held);
        lemma_statements_keep_shape(emitted, branch.statements@, 0);
        let body = lower_statements(emitted, branch.statements@, 0);
        if body.fault is None {
            lemma_kept_trans(c, emitted, body.state);
            lemma_close_branch_sound(c, body.state, failed_at, loose);
        }
    }
}

/// The end of a branch keeps a sound state sound: the jump to the exit
/// is left to the frame of the `if`, and the jump over the branch, which
/// was held until now, gets its target.
proof fn lemma_close_branch_sound(c: CompilerView, body: CompilerView, failed_at: int, loose: Set<int>)
    requires
        sound(body, loose.insert(failed_at)),
        !loose.contains(failed_at),
        grown(c.blocks, body.blocks),
        kept(c, body),
        nearest_of(c.blocks, BlockType::If) is Some,
    ensures
        orderly(c, close_branch(body, failed_at), loose),
{
    let held = loose.insert(failed_at);
    let exit_at = body.here();
    lemma_emit_jump_sound(body, Instruction::Jump(0), held);
    let left = body.emit_jump(Instruction::Jump(0));
    lemma_nearest_by_shape(c.blocks, left.blocks, BlockType::If);
    lemma_defer_sound(left, BlockType::If, exit_at, held.insert(exit_at));
    assert(held.insert(exit_at).remove(exit_at) =~= held);
    let deferred = left.defer_to(BlockType::If, exit_at);
    if deferred.target_jump(failed_at).fault is None {
        lemma_target_sound(deferred, failed_at, held);
        assert(held.remove(failed_at) =~= loose);
        let done = deferred.target_jump(failed_at).state;
        lemma_grown_trans(c.blocks, body.blocks, left.blocks);
        lemma_grown_trans(c.blocks, left.blocks, deferred.blocks);
        lemma_grown_trans(c.blocks, deferred.blocks, done.blocks);
        lemma_kept_trans(c, body, left);
        lemma_kept_trans(c, left, deferred);
        lemma_kept_trans(c, deferred, done);
    }
}

/// See [`lemma_statement_sound`].
pub proof fn lemma_else_ifs_sound(
    c: CompilerView,
    branches: Seq<ElseIfStatement>,
    from: int,
    loose: Set<int>,
)
    requires
        sound(c, loose),
        else_ifs_lowerable(branches, from),
        nearest_of(c.blocks, BlockType::If) is Some,
    ensures
        orderly(c, lower_else_ifs(c, branches, from), loose),
    decreases branches, branches.len() - from,
{
    if 0 <= from < branches.len() {
        lemma_branch_sound(c, branches[from].0, loose);
        let first = lower_branch(c, branches[from].0);
        if first.fault is None {
            lemma_nearest_by_shape(c.blocks, first.state.blocks, BlockType::If);
            lemma_else_ifs_sound(first.state, branches, from + 1, loose);
            lemma_orderly_then(c, first.state, lower_else_ifs(first.state, branches, from + 1), loose);
        }
    } else {
        lemma_same_jumps_sound(c, c, loose);
    }
}

/// In the code of a statement that was compiled outside of any block,
/// every jump has its target, and the target is an address of the code or
/// the address right behind it. The code that was there before is as it
/// was. The state is then settled again, so the same holds after the next
/// statement.
pub proof fn law_jumps_land_inside(c: CompilerView, s: Statement)
    requires
        settled(c),
        c.blocks.len() == 0,
        lowerable(s),
        lower_statement(c, s).fault is None,
    ensures
        settled(lower_statement(c, s).state),
        lower_statement(c, s).state.blocks.len() == 0,
        lower_statement(c, s).state.unplaced == Set::<int>::empty(),
        forall|at: int|
            lower_statement(c, s).state.holds_jump(at) ==> 0 <= (#[trigger] lower_statement(
                c,
                s,
            ).state.instructions[at]).jump_target() <= lower_statement(c, s).state.instructions.len(),
        c.instructions.is_prefix_of(lower_statement(c, s).state.instructions),
{
    let d = lower_statement(c, s).state;
    lemma_statement_sound(c, s, Set::empty());
    lemma_shape_len(c.blocks, d.blocks);
    lemma_no_frames_no_waiting(c);
    lemma_no_frames_no_waiting(d);
    assert(c.instructions =~= d.instructions.subrange(0, c.instructions.len() as int));
}

/// Where no frame is open and no jump is held, no jump waits for its
/// target.
proof fn lemma_no_frames_no_waiting(c: CompilerView)
    requires
        settled(c),
        c.blocks.len() == 0,
    ensures
        c.unplaced == Set::<int>::empty(),
{
    assert forall|i: int| !c.unplaced.contains(i) by {
        if c.unplaced.contains(i) {
            assert(is_pending(c.blocks, i));
        }
    }
    assert(c.unplaced =~= Set::<int>::empty());
}

/// A jump gets its target once: a statement that is compiled changes no
/// instruction that was there, but for jumps that waited for their
/// target, and a jump that had its target waits for none.
pub proof fn law_targets_are_final(c: CompilerView, s: Statement)
    requires
        settled(c),
        lowerable(s),
        lower_statement(c, s).fault is None,
    ensures
        settled(lower_statement(c, s).state),
        kept(c, lower_statement(c, s).state),
{
    lemma_statement_sound(c, s, Set::empty());
}

/// Whether the jump at `at` goes where a jump may go: to an address
/// behind itself, or, if it is an unconditional jump, back to the head of
/// a loop that begins at `from` or later and no later than the jump.
pub open spec fn goes_right(c: CompilerView, at: int, from: int) -> bool {
    let jump = c.instructions[at];
    ||| at < jump.jump_target() <= c.here()
    ||| jump is Jump && c.heads.contains(jump.jump_target()) && from <= jump.jump_target() <= at
}

/// Jumps go forward, but for the jumps back to the head of a loop.
///
/// Of the jumps in the code of a statement that was compiled outside of
/// any block, every conditional jump lands behind itself. So does every
/// unconditional jump, unless it lands at the head of a loop; that loop
/// begins in the code of the statement, no later than the jump.
pub proof fn law_jumps_go_forward_or_to_a_head(c: CompilerView, s: Statement)
    requires
        settled(c),
        c.blocks.len() == 0,
        lowerable(s),
        lower_statement(c, s).fault is None,
    ensures
        forall|at: int|
            c.here() <= at && #[trigger] lower_statement(c, s).state.holds_jump(at) ==> goes_right(
                lower_statement(c, s).state,
                at,
                c.here(),
            ),
{
    let d = lower_statement(c, s).state;
    law_jumps_land_inside(c, s);
    lemma_statement_sound(c, s, Set::empty());
    assert forall|at: int| c.here() <= at && #[trigger] d.holds_jump(at) implies goes_right(
        d,
        at,
        c.here(),
    ) by {
        assert(!d.unplaced.contains(at));
        assert(lands_right(d, at));
        assert(stays_inside(d, at, c.here(), c.blocks));
        assert(0 <= d.instructions[at].jump_target() <= d.here());
    }
}

/// How the code of a loop is laid out. It begins with the code of the
/// condition, whose first instruction is the head of the loop. Behind
/// the condition stands the test that leaves the loop: a conditional
/// jump to the address right behind the loop. The loop ends with the
/// jump back to its head.
pub proof fn law_loop_layout(c: CompilerView, w: WhileStatement)
    requires
        settled(c),
        lowerable(Statement::While(w)),
        lower_statement(c, Statement::While(w)).fault is None,
    ensures
        ({
            let code = lower_statement(c, Statement::While(w)).state;
            let test = lower_expression(c.enter_block(BlockType::While), w.condition).state.here();
            &&& c.here() <= test < code.here() - 1
            &&& code.here() <= u16::MAX
            &&& code.instructions[test] == Instruction::JumpIfFalse(code.here() as u16)
            &&& code.instructions[code.here() - 1] == Instruction::Jump(c.here() as u16)
            &&& code.heads.contains(c.here())
        }),
{
    let loose = Set::<int>::empty();
    let entered = c.enter_block(BlockType::While);
    lemma_enter_sound(c, BlockType::While, loose);
    lemma_expression_sound(entered, w.condition, loose);
    let condition = lower_expression(entered, w.condition);
    let at = condition.state.here();
    lemma_emit_jump_sound(condition.state, Instruction::JumpIfFalse(0), loose);
    let emitted = condition.state.emit_jump(Instruction::JumpIfFalse(0));
    lemma_expression_keeps_blocks(entered, w.condition);
    lemma_defer_sound(emitted, BlockType::While, at, loose.insert(at));
    assert(loose.insert(at).remove(at) =~= loose);
    let guarded = emitted.defer_to(BlockType::While, at);
    lemma_statements_sound(guarded, w.body@, 0, loose);
    lemma_statements_keep_shape(guarded, w.body@, 0);
    let body = lower_statements(guarded, w.body@, 0).state;
    lemma_shape_len(emitted.blocks, guarded.blocks);
    lemma_shape_len(guarded.blocks, body.blocks);
    let top = c.blocks.len() as int;
    let jumped = body.emit(Instruction::Jump(c.here() as u16));
    let code = jumped.exit_block().state;
    let pending = jumped.blocks.last().pending;
    // the jump back is no jump that waits for the exit
    assert(!pending.contains(body.here())) by {
        if pending.contains(body.here()) {
            let k = choose|k: int| 0 <= k < pending.len() && pending[k] == body.here();
            assert(body.holds_jump(body.blocks[top].pending[k]));
        }
    }
    assert(code.instructions[body.here()] == jumped.instructions[body.here()]);
    // the test waits for the exit, first of all
    assert(nearest_of(emitted.blocks, BlockType::While) == Some(top));
    assert(guarded.blocks[top].pending =~= seq![at]);
    assert(guarded.blocks[top].pending.is_prefix_of(body.blocks[top].pending));
    assert(body.blocks[top].pending.subrange(0, 1)[0] == at);
    assert(pending[0] == at);
    assert(pending.contains(at));
    assert(same_but_target(guarded.instructions[at], body.instructions[at]));
    assert(body.instructions[at] is JumpIfFalse);
    lemma_kept_trans(entered, condition.state, emitted);
    lemma_kept_trans(entered, emitted, guarded);
    lemma_kept_trans(entered, guarded, body);
}

/// How the code of one branch of an `if` is laid out. Behind the
/// condition stands the test that skips the branch: a conditional jump
/// to the address right behind the branch. The branch ends with a jump
/// that waits for the exit of the whole `if`.
pub proof fn law_branch_layout(c: CompilerView, branch: ConditionalStatement)
    requires
        settled(c),
        all_lowerable(branch.statements@, 0),
        nearest_of(c.blocks, BlockType::If) is Some,
        lower_branch(c, branch).fault is None,
    ensures
        ({
            let code = lower_branch(c, branch).state;
            let test = lower_expression(c, branch.condition).state.here();
            let frame = nearest_of(c.blocks, BlockType::If)->0;
            &&& c.here() <= test < code.here() - 1
            &&& code.here() <= u16::MAX
            &&& code.instructions[test] == Instruction::JumpIfFalse(code.here() as u16)
            &&& code.instructions[code.here() - 1] == Instruction::Jump(0)
            &&& 0 <= frame < code.blocks.len()
            &&& code.blocks[frame].pending.len() > 0
            &&& code.blocks[frame].pending.last() == code.here() - 1
        }),
{
    let loose = Set::<int>::empty();
    lemma_expression_sound(c, branch.condition, loose);
    lemma_expression_keeps_blocks(c, branch.condition);
    let condition = lower_expression(c, branch.condition);
    let test = condition.state.here();
    lemma_emit_jump_sound(condition.state, Instruction::JumpIfFalse(0), loose);
    let emitted = condition.state.emit_jump(Instruction::JumpIfFalse(0));
    let held = loose.insert(test);
    lemma_statements_sound(emitted, branch.statements@, 0, held);
    lemma_statements_keep_shape(emitted, branch.statements@, 0);
    let body = lower_statements(emitted, branch.statements@, 0).state;
    assert(same_but_target(emitted.instructions[test], body.instructions[test]));
    assert(body.instructions[test] is JumpIfFalse);
    let left = body.emit_jump(Instruction::Jump(0));
    lemma_nearest_by_shape(c.blocks, left.blocks, BlockType::If);
    lemma_nearest_in_range(left.blocks, BlockType::If);
    lemma_shape_len(emitted.blocks, body.blocks);
}

/// `break` is a jump that waits for the exit of the innermost loop.
pub proof fn law_break_waits_for_its_loop(c: CompilerView)
    requires
        lower_break(c).fault is None,
    ensures
        lower_break(c).state.instructions == c.instructions.push(Instruction::Jump(0)),
        nearest_loop(c.blocks) matches Some(frame) && 0 <= frame < c.blocks.len() && lower_break(
            c,
        ).state.blocks[frame].pending == c.blocks[frame].pending.push(c.here()),
{
    lemma_nearest_in_range(c.blocks, BlockType::If);
}

/// The jumps that wait for the exit of a frame land right behind the
/// code that is there when the frame is left.
pub proof fn law_exit_aims_what_waits(c: CompilerView)
    requires
        c.wf(),
        c.blocks.len() > 0,
        c.exit_block().fault is None,
    ensures
        forall|k: int|
            0 <= k < c.blocks.last().pending.len() ==> c.exit_block().state.holds_jump(
                #[trigger] c.blocks.last().pending[k],
            ) && c.exit_block().state.instructions[c.blocks.last().pending[k]].jump_target()
                == c.here(),
{
    let pending = c.blocks.last().pending;
    let top = c.blocks.len() - 1;
    assert forall|k: int| 0 <= k < pending.len() implies c.exit_block().state.holds_jump(
        #[trigger] pending[k],
    ) && c.exit_block().state.instructions[pending[k]].jump_target() == c.here() by {
        assert(c.holds_jump(c.blocks[top].pending[k]));
        assert(pending.contains(pending[k]));
    }
}

/// `continue` is the jump to the head of the innermost loop.
pub proof fn law_continue_jumps_to_the_head(c: CompilerView)
    requires
        lower_continue(c).fault is None,
    ensures
        nearest_loop(c.blocks) matches Some(frame) && lower_continue(c).state.instructions
            == c.instructions.push(Instruction::Jump(c.blocks[frame].head as u16))
            && c.blocks[frame].head <= u16::MAX,
{
}

/// A fresh compiler is settled.
pub proof fn law_fresh_is_settled()
    ensures
        settled(CompilerView::empty()),
        CompilerView::empty().blocks.len() == 0,
{
}

/// In the code of a program that was compiled from scratch, every jump has
/// its target, and the target is an address of the code or the address
/// right behind it.
pub proof fn law_program_jumps_land_inside(program: Seq<Statement>)
    requires
        all_lowerable(program, 0),
        lower_statements(CompilerView::empty(), program, 0).fault is None,
    ensures
        ({
            let code = lower_statements(CompilerView::empty(), program, 0).state;
            &&& code.blocks.len() == 0
            &&& code.unplaced == Set::<int>::empty()
            &&& forall|at: int|
                code.holds_jump(at) ==> 0 <= (#[trigger] code.instructions[at]).jump_target()
                    <= code.instructions.len()
        }),
{
    let c = CompilerView::empty();
    let d = lower_statements(c, program, 0).state;
    lemma_statements_sound(c, program, 0, Set::empty());
    lemma_shape_len(c.blocks, d.blocks);
    lemma_no_frames_no_waiting(d);
}

/// In the code of a program that was compiled from scratch, every
/// conditional jump lands behind itself, and so does every unconditional
/// jump, unless it lands at the head of a loop that begins no later than
/// the jump.
pub proof fn law_program_jumps_go_forward_or_to_a_head(program: Seq<Statement>)
    requires
        all_lowerable(program, 0),
        lower_statements(CompilerView::empty(), program, 0).fault is None,
    ensures
        forall|at: int| #[trigger]
            lower_statements(CompilerView::empty(), program, 0).state.holds_jump(at) ==> goes_right(
                lower_statements(CompilerView::empty(), program, 0).state,
                at,
                0,
            ),
{
    let c = CompilerView::empty();
    let d = lower_statements(c, program, 0).state;
    law_program_jumps_land_inside(program);
    lemma_statements_sound(c, program, 0, Set::empty());
    assert forall|at: int| #[trigger] d.holds_jump(at) implies goes_right(d, at, 0) by {
        assert(!d.unplaced.contains(at));
        assert(lands_right(d, at));
        assert(stays_inside(d, at, 0, c.blocks));
        assert(0 <= d.instructions[at].jump_target() <= d.here());
    }
}

} // verus!
