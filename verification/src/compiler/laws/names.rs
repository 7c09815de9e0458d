//! Names and constants: what is registered is what the code refers to.

use vstd::prelude::*;

use crate::ast::IdentifierKind;
use crate::ast::expression::Expression;
use crate::ast::statement::Statement;
use crate::ast::statement::declare_assign_statement::{AssignmentStatement, DeclarationStatement};
use crate::ast::statement::if_statement::{ConditionalStatement, ElseIfStatement};
use crate::ast::value::ValueView;
use crate::compiler::code_block::{all_resolve, resolves};
use crate::compiler::instruction::Instruction;
use crate::compiler::laws::frames::{lemma_statements_keep_shape, same_but_target};
use crate::compiler::lowering::{
    binary_instruction, lower_branch, lower_else_ifs, lower_expression, lower_identifier,
    lower_statement, lower_statements, lower_value,
};
use crate::compiler::model::{
    distinct_names, nearest_loop, slot_of, table_limit, BlockType, CompilerView, Fault, Lowering,
    SymbolView,
};

verus! {

/// Every operand that names a slot names a declared one, and every operand
/// that names a constant names one of the pool.
pub open spec fn references_resolve(c: CompilerView) -> bool {
    all_resolve(c.instructions, c.symbols.len(), c.values.len())
}

/// The names are distinct and the references resolve.
pub open spec fn tidy(c: CompilerView) -> bool {
    distinct_names(c.symbols) && references_resolve(c)
}

/// The tables of `after` begin with those of `before`.
pub open spec fn tables_grown(before: CompilerView, after: CompilerView) -> bool {
    before.symbols.is_prefix_of(after.symbols) && before.values.is_prefix_of(after.values)
}

/// The slot of a declared name is a position of the table that holds the
/// name; with distinct names it is the only one.
pub proof fn lemma_slot_of(symbols: Seq<SymbolView>, name: Seq<char>)
    ensures
        slot_of(symbols, name) matches Some(slot) ==> 0 <= slot < symbols.len()
            && symbols[slot].name == name,
        slot_of(symbols, name) is None ==> forall|i: int|
            0 <= i < symbols.len() ==> (#[trigger] symbols[i]).name != name,
        forall|i: int|
            distinct_names(symbols) && 0 <= i < symbols.len() && (#[trigger] symbols[i]).name
                == name ==> slot_of(symbols, name) == Some(i),
{
    assert forall|i: int|
        distinct_names(symbols) && 0 <= i < symbols.len() && (#[trigger] symbols[i]).name
            == name implies slot_of(symbols, name) == Some(i) by {
        let slot = slot_of(symbols, name)->0;
        assert(symbols[slot].name == name);
        if slot < i {
            assert(symbols[slot].name != symbols[i].name);
        }
        if i < slot {
            assert(symbols[i].name != symbols[slot].name);
        }
    }
}

proof fn lemma_tables_trans(a: CompilerView, b: CompilerView, c: CompilerView)
    requires
        tables_grown(a, b),
        tables_grown(b, c),
    ensures
        tables_grown(a, c),
{
    assert(a.symbols =~= c.symbols.subrange(0, a.symbols.len() as int));
    assert(a.values =~= c.values.subrange(0, a.values.len() as int));
}

proof fn lemma_emit_tidy(c: CompilerView, instruction: Instruction)
    requires
        tidy(c),
        resolves(instruction, c.symbols.len(), c.values.len()),
    ensures
        tidy(c.emit(instruction)),
        tidy(c.emit_jump(instruction)),
{
}

proof fn lemma_retarget_tidy(c: CompilerView, d: CompilerView)
    requires
        tidy(c),
        d.symbols == c.symbols,
        d.values == c.values,
        d.instructions.len() == c.instructions.len(),
        forall|i: int|
            0 <= i < c.instructions.len() ==> same_but_target(
                c.instructions[i],
                #[trigger] d.instructions[i],
            ),
    ensures
        tidy(d),
{
    assert forall|at: int| 0 <= at < d.instructions.len() implies resolves(
        #[trigger] d.instructions[at],
        d.symbols.len(),
        d.values.len(),
    ) by {
        assert(same_but_target(c.instructions[at], d.instructions[at]));
        assert(resolves(c.instructions[at], c.symbols.len(), c.values.len()));
    }
}

proof fn lemma_exit_tidy(c: CompilerView)
    requires
        tidy(c),
    ensures
        tidy(c.exit_block().state),
        tables_grown(c, c.exit_block().state),
{
    lemma_retarget_tidy(c, c.exit_block().state);
}

proof fn lemma_register_tidy(c: CompilerView, name: Seq<char>, kind: IdentifierKind)
    requires
        tidy(c),
    ensures
        tidy(c.register(name, kind).state),
        tables_grown(c, c.register(name, kind).state),
        c.register(name, kind).fault is None ==> c.register(name, kind).state.lookup(name) == Some(
            (kind, c.symbols.len() as int),
        ),
{
    let d = c.register(name, kind).state;
    lemma_slot_of(c.symbols, name);
    if c.register(name, kind).fault is None {
        assert forall|i: int, j: int| 0 <= i < j < d.symbols.len() implies (
        #[trigger] d.symbols[i]).name != (#[trigger] d.symbols[j]).name by {
            if j < c.symbols.len() {
                assert(c.symbols[i].name != c.symbols[j].name);
            } else {
                assert(c.symbols[i].name != name);
            }
        }
        assert forall|at: int| 0 <= at < d.instructions.len() implies resolves(
            #[trigger] d.instructions[at],
            d.symbols.len(),
            d.values.len(),
        ) by {
            assert(resolves(c.instructions[at], c.symbols.len(), c.values.len()));
        }
        assert(c.symbols =~= d.symbols.subrange(0, c.symbols.len() as int));
        assert(d.symbols[c.symbols.len() as int].name == name);
        lemma_slot_of(d.symbols, name);
    }
}

/// Lowering an expression keeps the names distinct and the references
/// resolved, and only adds to the tables.
pub proof fn lemma_expression_tidy(c: CompilerView, e: Expression)
    requires
        tidy(c),
    ensures
        tidy(lower_expression(c, e).state),
        tables_grown(c, lower_expression(c, e).state),
    decreases e,
{
    match e {
        Expression::Value(value) => {
            let added = c.register_value(value@);
            if added.fault is None {
                assert forall|at: int| 0 <= at < added.state.instructions.len() implies resolves(
                    #[trigger] added.state.instructions[at],
                    added.state.symbols.len(),
                    added.state.values.len(),
                ) by {
                    assert(resolves(c.instructions[at], c.symbols.len(), c.values.len()));
                }
                lemma_emit_tidy(added.state, Instruction::LoadValue(c.values.len() as u16));
                assert(c.values =~= added.state.values.subrange(0, c.values.len() as int));
            }
        },
        Expression::Identifier(identifier) => {
            lemma_slot_of(c.symbols, identifier.ident@);
            match c.lookup(identifier.ident@) {
                Some((_, slot)) => {
                    lemma_emit_tidy(c, Instruction::LoadSymbol(slot as u16));
                },
                None => {},
            }
        },
        Expression::Unary(unary) => {
            lemma_expression_tidy(c, *unary.expression);
            let operand = lower_expression(c, *unary.expression);
            if operand.fault is None {
                lemma_emit_tidy(operand.state, Instruction::UnaryMinus);
                lemma_emit_tidy(operand.state, Instruction::UnaryNot);
            }
        },
        Expression::Binary(binary) => {
            lemma_expression_tidy(c, *binary.left);
            let left = lower_expression(c, *binary.left);
            if left.fault is None {
                lemma_expression_tidy(left.state, *binary.right);
                let right = lower_expression(left.state, *binary.right);
                lemma_tables_trans(c, left.state, right.state);
                if right.fault is None {
                    lemma_emit_tidy(right.state, binary_instruction(binary.operator));
                }
            }
        },
    }
}

/// Lowering a statement keeps the names distinct and the references
/// resolved, and only adds to the tables, whether it fails or not.
pub proof fn lemma_statement_tidy(c: CompilerView, s: Statement)
    requires
        tidy(c),
    ensures
        tidy(lower_statement(c, s).state),
        tables_grown(c, lower_statement(c, s).state),
    decreases s, 0nat,
{
    match s {
        Statement::Print(print) => {
            lemma_expression_tidy(c, print.expression);
            let value = lower_expression(c, print.expression);
            if value.fault is None {
                lemma_emit_tidy(value.state, Instruction::Display);
            }
        },
        Statement::Expression(statement) => {
            lemma_expression_tidy(c, statement.expression);
            let value = lower_expression(c, statement.expression);
            if value.fault is None {
                lemma_emit_tidy(value.state, Instruction::Pop);
            }
        },
        Statement::Declaration(declaration) => {
            let initial = match declaration.initial_value {
                Some(e) => {
                    lemma_expression_tidy(c, e);
                    lower_expression(c, e)
                },
                None => c.ok(),
            };
            if initial.fault is None {
                let name = declaration.identifier.ident@;
                lemma_register_tidy(initial.state, name, declaration.identifier.kind);
                let declared = initial.state.register(name, declaration.identifier.kind);
                lemma_tables_trans(c, initial.state, declared.state);
                if declared.fault is None {
                    lemma_emit_tidy(
                        declared.state,
                        Instruction::StoreSymbol(initial.state.symbols.len() as u16),
                    );
                }
            }
        },
        Statement::Assignment(assignment) => {
            lemma_slot_of(c.symbols, assignment.identifier@);
            lemma_expression_tidy(c, assignment.value);
            let value = lower_expression(c, assignment.value);
            match c.lookup(assignment.identifier@) {
                Some((IdentifierKind::Variable, slot)) => {
                    if value.fault is None {
                        assert(c.symbols.is_prefix_of(value.state.symbols));
                        lemma_emit_tidy(value.state, Instruction::StoreSymbol(slot as u16));
                    }
                },
                _ => {},
            }
        },
        Statement::Break(_) => {
            lemma_emit_tidy(c, Instruction::Jump(0));
            let emitted = c.emit_jump(Instruction::Jump(0));
            match emitted.defer_to_loop(c.here()) {
                Some(deferred) => {
                    lemma_retarget_tidy(emitted, deferred);
                },
                None => {},
            }
        },
        Statement::Continue(_) => {
            match nearest_loop(c.blocks) {
                Some(frame) => {
                    if c.blocks[frame].head <= u16::MAX {
                        lemma_emit_tidy(c, Instruction::Jump(c.blocks[frame].head as u16));
                    }
                },
                None => {},
            }
        },
        Statement::Block(block) => {
            let entered = c.enter_block(BlockType::Block);
            lemma_retarget_tidy(c, entered);
            lemma_statements_tidy(entered, block.body@, 0);
            let inner = lower_statements(entered, block.body@, 0);
            if inner.fault is None {
                lemma_exit_tidy(inner.state);
                lemma_tables_trans(c, inner.state, inner.state.exit_block().state);
            }
        },
        Statement::While(w) => {
            let entered = c.enter_block(BlockType::While);
            lemma_retarget_tidy(c, entered);
            lemma_expression_tidy(entered, w.condition);
            let condition = lower_expression(entered, w.condition);
            if condition.fault is None {
                lemma_emit_tidy(condition.state, Instruction::JumpIfFalse(0));
                let emitted = condition.state.emit_jump(Instruction::JumpIfFalse(0));
                let guarded = emitted.defer_to(BlockType::While, condition.state.here());
                lemma_retarget_tidy(emitted, guarded);
                lemma_statements_tidy(guarded, w.body@, 0);
                let body = lower_statements(guarded, w.body@, 0);
                lemma_tables_trans(c, condition.state, body.state);
                if body.fault is None && c.here() <= u16::MAX {
                    let jumped = body.state.emit(Instruction::Jump(c.here() as u16));
                    lemma_emit_tidy(body.state, Instruction::Jump(c.here() as u16));
                    lemma_exit_tidy(jumped);
                    lemma_tables_trans(c, jumped, jumped.exit_block().state);
                }
            }
        },
        Statement::If(i) => {
            let entered = c.enter_block(BlockType::If);
            lemma_retarget_tidy(c, entered);
            lemma_branch_tidy(entered, i.if_statement);
            let first = lower_branch(entered, i.if_statement);
            if first.fault is None {
                lemma_else_ifs_tidy(first.state, i.else_if_statements@, 0);
                let others = lower_else_ifs(first.state, i.else_if_statements@, 0);
                lemma_tables_trans(c, first.state, others.state);
                if others.fault is None {
                    let last = match i.else_statement {
                        Some(e) => {
                            lemma_statements_tidy(others.state, e.statements@, 0);
                            lower_statements(others.state, e.statements@, 0)
                        },
                        None => others,
                    };
                    lemma_tables_trans(c, others.state, last.state);
                    if last.fault is None {
                        lemma_exit_tidy(last.state);
                        lemma_tables_trans(c, last.state, last.state.exit_block().state);
                    }
                }
            }
        },
        Statement::For(_) => {},
    }
}

/// See [`lemma_statement_tidy`].
pub proof fn lemma_statements_tidy(c: CompilerView, body: Seq<Statement>, from: int)
    requires
        tidy(c),
    ensures
        tidy(lower_statements(c, body, from).state),
        tables_grown(c, lower_statements(c, body, from).state),
    decreases body, body.len() - from,
{
    if 0 <= from < body.len() {
        lemma_statement_tidy(c, body[from]);
        let first = lower_statement(c, body[from]);
        if first.fault is None {
            lemma_statements_tidy(first.state, body, from + 1);
            lemma_tables_trans(c, first.state, lower_statements(first.state, body, from + 1).state);
        }
    }
}

/// See [`lemma_statement_tidy`].
pub proof fn lemma_branch_tidy(c: CompilerView, branch: ConditionalStatement)
    requires
        tidy(c),
    ensures
        tidy(lower_branch(c, branch).state),
        tables_grown(c, lower_branch(c, branch).state),
    decreases branch, 0nat,
{
    lemma_expression_tidy(c, branch.condition);
    let condition = lower_expression(c, branch.condition);
    if condition.fault is None {
        lemma_emit_tidy(condition.state, Instruction::JumpIfFalse(0));
        let emitted = condition.state.emit_jump(Instruction::JumpIfFalse(0));
        lemma_statements_tidy(emitted, branch.statements@, 0);
        let body = lower_statements(emitted, branch.statements@, 0);
        lemma_tables_trans(c, condition.state, body.state);
        if body.fault is None {
            lemma_emit_tidy(body.state, Instruction::Jump(0));
            let left = body.state.emit_jump(Instruction::Jump(0));
            let deferred = left.defer_to(BlockType::If, body.state.here());
            lemma_retarget_tidy(left, deferred);
            lemma_statements_keep_shape(emitted, branch.statements@, 0);
            lemma_retarget_tidy(deferred, deferred.target_jump(condition.state.here()).state);
        }
    }
}

/// See [`lemma_statement_tidy`].
pub proof fn lemma_else_ifs_tidy(c: CompilerView, branches: Seq<ElseIfStatement>, from: int)
    requires
        tidy(c),
    ensures
        tidy(lower_else_ifs(c, branches, from).state),
        tables_grown(c, lower_else_ifs(c, branches, from).state),
    decreases branches, branches.len() - from,
{
    if 0 <= from < branches.len() {
        lemma_branch_tidy(c, branches[from].0);
        let first = lower_branch(c, branches[from].0);
        if first.fault is None {
            lemma_else_ifs_tidy(first.state, branches, from + 1);
            lemma_tables_trans(c, first.state, lower_else_ifs(first.state, branches, from + 1).state);
        }
    }
}

/// A name that is declared stays declared, with its kind and its slot,
/// whatever is added to the table.
pub proof fn lemma_lookup_stable(c: CompilerView, d: CompilerView, name: Seq<char>)
    requires
        tables_grown(c, d),
        distinct_names(d.symbols),
        c.lookup(name) is Some,
    ensures
        d.lookup(name) == c.lookup(name),
{
    lemma_slot_of(c.symbols, name);
    let slot = slot_of(c.symbols, name)->0;
    assert(d.symbols.subrange(0, c.symbols.len() as int)[slot] == c.symbols[slot]);
    lemma_slot_of(d.symbols, name);
}

/// The references of a program's code resolve: every slot it names is
/// declared and every constant it names is in the pool. A listing of the
/// code can therefore be made, and shows for each reference the name or
/// the constant that was registered under it.
pub proof fn law_references_resolve(c: CompilerView, s: Statement)
    requires
        distinct_names(c.symbols),
        references_resolve(c),
    ensures
        references_resolve(lower_statement(c, s).state),
        distinct_names(lower_statement(c, s).state.symbols),
        c.symbols.is_prefix_of(lower_statement(c, s).state.symbols),
        c.values.is_prefix_of(lower_statement(c, s).state.values),
{
    lemma_statement_tidy(c, s);
}

/// A constant is loaded from the index it was registered under.
pub proof fn law_constant_reads_back(c: CompilerView, value: ValueView)
    requires
        lower_value(c, value).fault is None,
    ensures
        ({
            let code = lower_value(c, value).state;
            &&& code.instructions.last() == Instruction::LoadValue(c.values.len() as u16)
            &&& c.values.len() as u16 == c.values.len()
            &&& code.values[c.values.len() as int] == value
        }),
{
}

/// A name is loaded from the slot it was registered under.
pub proof fn law_name_reads_back(c: CompilerView, name: Seq<char>)
    requires
        c.symbols.len() <= table_limit(),
        lower_identifier(c, name).fault is None,
    ensures
        ({
            let code = lower_identifier(c, name).state;
            &&& code.instructions.last().symbol_operand() matches Some(slot)
            &&& 0 <= slot < code.symbols.len()
            &&& code.symbols[slot].name == name
        }),
{
    lemma_slot_of(c.symbols, name);
}

/// Declaring a name that is declared already fails with `Redefinition`
/// and leaves the first declaration as it was: same kind, same slot.
pub proof fn law_redefinition(
    c: CompilerView,
    name: Seq<char>,
    first: IdentifierKind,
    second: IdentifierKind,
)
    requires
        distinct_names(c.symbols),
        c.register(name, first).fault is None,
    ensures
        ({
            let declared = c.register(name, first).state;
            &&& declared.lookup(name) == Some((first, c.symbols.len() as int))
            &&& declared.register(name, second) == declared.failed(Fault::Redefinition(name))
        }),
{
    let declared = c.register(name, first).state;
    lemma_slot_of(c.symbols, name);
    assert(declared.symbols[c.symbols.len() as int].name == name);
    assert forall|i: int, j: int| 0 <= i < j < declared.symbols.len() implies (
    #[trigger] declared.symbols[i]).name != (#[trigger] declared.symbols[j]).name by {
        if j < c.symbols.len() {
            assert(c.symbols[i].name != c.symbols[j].name);
        } else {
            assert(c.symbols[i].name != name);
        }
    }
    lemma_slot_of(declared.symbols, name);
}

/// A declaration that is compiled declares its name with its kind.
pub proof fn law_declaration_declares(c: CompilerView, declaration: DeclarationStatement)
    requires
        distinct_names(c.symbols),
        references_resolve(c),
        lower_statement(c, Statement::Declaration(declaration)).fault is None,
    ensures
        lower_statement(c, Statement::Declaration(declaration)).state.lookup(
            declaration.identifier.ident@,
        ) matches Some((kind, _)) && kind == declaration.identifier.kind,
{
    let initial = match declaration.initial_value {
        Some(e) => {
            lemma_expression_tidy(c, e);
            lower_expression(c, e)
        },
        None => c.ok(),
    };
    lemma_register_tidy(
        initial.state,
        declaration.identifier.ident@,
        declaration.identifier.kind,
    );
}

/// Whatever is compiled, a declared name keeps its kind and its slot.
pub proof fn law_declarations_persist(c: CompilerView, s: Statement, name: Seq<char>)
    requires
        distinct_names(c.symbols),
        references_resolve(c),
        c.lookup(name) is Some,
    ensures
        lower_statement(c, s).state.lookup(name) == c.lookup(name),
{
    lemma_statement_tidy(c, s);
    lemma_lookup_stable(c, lower_statement(c, s).state, name);
}

/// An assignment to a name that is declared as a constant fails with
/// `AssignmentToConst` and emits nothing.
pub proof fn law_assignment_to_const(c: CompilerView, assignment: AssignmentStatement)
    requires
        c.lookup(assignment.identifier@) matches Some((kind, _)) && kind
            == IdentifierKind::Constant,
    ensures
        lower_statement(c, Statement::Assignment(assignment)) == c.failed(Fault::AssignmentToConst),
{
}

} // verus!
