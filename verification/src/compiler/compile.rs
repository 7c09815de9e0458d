//! What can be compiled.

use vstd::prelude::*;

use crate::ast::expression::Expression;
use crate::ast::expression::binary::BinaryExpression;
use crate::ast::expression::identifier::IdentifierExpression;
use crate::ast::expression::unary::UnaryExpression;
use crate::ast::statement::{
    BlockStatement, BreakStatement, ContinueStatement, ExpressionStatement, PrintStatement,
    Statement,
};
use crate::ast::statement::declare_assign_statement::{AssignmentStatement, DeclarationStatement};
use crate::ast::statement::if_statement::{
    ConditionalStatement, ElseIfStatement, ElseStatement, IfStatement,
};
use crate::ast::statement::while_statement::WhileStatement;
use crate::ast::value::Value;
use crate::compiler::Compiler;
use crate::compiler::error::{fault_of, CompilerResult};
use crate::compiler::lowering::{
    all_lowerable, lower_branch, lower_expression, lower_identifier, lower_statement,
    lower_statements, lower_value, lowerable,
};
use crate::compiler::model::{CompilerView, Lowering};

verus! {

/// A part of a program that a compiler can turn into instructions.
pub trait Compile {
    /// What compiling this does to the state of a compiler, and the
    /// failure it ends in, if any.
    spec fn lowering(&self, c: CompilerView) -> Lowering;

    /// Whether this can be compiled at all.
    spec fn compilable(&self) -> bool;

    /// Emits the instructions of this part. The first failure ends the
    /// work; what was emitted until then stays.
    fn compile(&self, compiler: &mut Compiler) -> (r: CompilerResult<()>)
        requires
            old(compiler).wf(),
            self.compilable(),
        ensures
            final(compiler).wf(),
            (Lowering { state: final(compiler)@, fault: fault_of(r) }) == self.lowering(
                old(compiler)@,
            ),
    ;
}

impl Compile for Value {
    open spec fn lowering(&self, c: CompilerView) -> Lowering {
        lower_value(c, self@)
    }

    open spec fn compilable(&self) -> bool {
        true
    }

    fn compile(&self, compiler: &mut Compiler) -> (r: CompilerResult<()>) {
        Value::compile(self, compiler)
    }
}

impl Compile for IdentifierExpression {
    open spec fn lowering(&self, c: CompilerView) -> Lowering {
        lower_identifier(c, self.ident@)
    }

    open spec fn compilable(&self) -> bool {
        true
    }

    fn compile(&self, compiler: &mut Compiler) -> (r: CompilerResult<()>) {
        IdentifierExpression::compile(self, compiler)
    }
}

impl Compile for UnaryExpression {
    open spec fn lowering(&self, c: CompilerView) -> Lowering {
        lower_expression(c, Expression::Unary(*self))
    }

    open spec fn compilable(&self) -> bool {
        true
    }

    fn compile(&self, compiler: &mut Compiler) -> (r: CompilerResult<()>) {
        UnaryExpression::compile(self, compiler)
    }
}

impl Compile for BinaryExpression {
    open spec fn lowering(&self, c: CompilerView) -> Lowering {
        lower_expression(c, Expression::Binary(*self))
    }

    open spec fn compilable(&self) -> bool {
        true
    }

    fn compile(&self, compiler: &mut Compiler) -> (r: CompilerResult<()>) {
        BinaryExpression::compile(self, compiler)
    }
}

impl Compile for Expression {
    open spec fn lowering(&self, c: CompilerView) -> Lowering {
        lower_expression(c, *self)
    }

    open spec fn compilable(&self) -> bool {
        true
    }

    fn compile(&self, compiler: &mut Compiler) -> (r: CompilerResult<()>) {
        Expression::compile(self, compiler)
    }
}

impl Compile for Statement {
    open spec fn lowering(&self, c: CompilerView) -> Lowering {
        lower_statement(c, *self)
    }

    open spec fn compilable(&self) -> bool {
        lowerable(*self)
    }

    fn compile(&self, compiler: &mut Compiler) -> (r: CompilerResult<()>) {
        Statement::compile(self, compiler)
    }
}

impl Compile for PrintStatement {
    open spec fn lowering(&self, c: CompilerView) -> Lowering {
        lower_statement(c, Statement::Print(*self))
    }

    open spec fn compilable(&self) -> bool {
        true
    }

    fn compile(&self, compiler: &mut Compiler) -> (r: CompilerResult<()>) {
        PrintStatement::compile(self, compiler)
    }
}

impl Compile for ExpressionStatement {
    open spec fn lowering(&self, c: CompilerView) -> Lowering {
        lower_statement(c, Statement::Expression(*self))
    }

    open spec fn compilable(&self) -> bool {
        true
    }

    fn compile(&self, compiler: &mut Compiler) -> (r: CompilerResult<()>) {
        ExpressionStatement::compile(self, compiler)
    }
}

impl Compile for BreakStatement {
    open spec fn lowering(&self, c: CompilerView) -> Lowering {
        lower_statement(c, Statement::Break(*self))
    }

    open spec fn compilable(&self) -> bool {
        true
    }

    fn compile(&self, compiler: &mut Compiler) -> (r: CompilerResult<()>) {
        BreakStatement::compile(self, compiler)
    }
}

impl Compile for ContinueStatement {
    open spec fn lowering(&self, c: CompilerView) -> Lowering {
        lower_statement(c, Statement::Continue(*self))
    }

    open spec fn compilable(&self) -> bool {
        true
    }

    fn compile(&self, compiler: &mut Compiler) -> (r: CompilerResult<()>) {
        ContinueStatement::compile(self, compiler)
    }
}

impl Compile for BlockStatement {
    open spec fn lowering(&self, c: CompilerView) -> Lowering {
        lower_statement(c, Statement::Block(*self))
    }

    open spec fn compilable(&self) -> bool {
        lowerable(Statement::Block(*self))
    }

    fn compile(&self, compiler: &mut Compiler) -> (r: CompilerResult<()>) {
        BlockStatement::compile(self, compiler)
    }
}

impl Compile for DeclarationStatement {
    open spec fn lowering(&self, c: CompilerView) -> Lowering {
        lower_statement(c, Statement::Declaration(*self))
    }

    open spec fn compilable(&self) -> bool {
        true
    }

    fn compile(&self, compiler: &mut Compiler) -> (r: CompilerResult<()>) {
        DeclarationStatement::compile(self, compiler)
    }
}

impl Compile for AssignmentStatement {
    open spec fn lowering(&self, c: CompilerView) -> Lowering {
        lower_statement(c, Statement::Assignment(*self))
    }

    open spec fn compilable(&self) -> bool {
        true
    }

    fn compile(&self, compiler: &mut Compiler) -> (r: CompilerResult<()>) {
        AssignmentStatement::compile(self, compiler)
    }
}

impl Compile for WhileStatement {
    open spec fn lowering(&self, c: CompilerView) -> Lowering {
        lower_statement(c, Statement::While(*self))
    }

    open spec fn compilable(&self) -> bool {
        lowerable(Statement::While(*self))
    }

    fn compile(&self, compiler: &mut Compiler) -> (r: CompilerResult<()>) {
        WhileStatement::compile(self, compiler)
    }
}

impl Compile for ConditionalStatement {
    open spec fn lowering(&self, c: CompilerView) -> Lowering {
        lower_branch(c, *self)
    }

    open spec fn compilable(&self) -> bool {
        all_lowerable(self.statements@, 0)
    }

    fn compile(&self, compiler: &mut Compiler) -> (r: CompilerResult<()>) {
        ConditionalStatement::compile(self, compiler)
    }
}

impl Compile for ElseIfStatement {
    open spec fn lowering(&self, c: CompilerView) -> Lowering {
        lower_branch(c, self.0)
    }

    open spec fn compilable(&self) -> bool {
        all_lowerable(self.0.statements@, 0)
    }

    fn compile(&self, compiler: &mut Compiler) -> (r: CompilerResult<()>) {
        ElseIfStatement::compile(self, compiler)
    }
}

impl Compile for ElseStatement {
    open spec fn lowering(&self, c: CompilerView) -> Lowering {
        lower_statements(c, self.statements@, 0)
    }

    open spec fn compilable(&self) -> bool {
        all_lowerable(self.statements@, 0)
    }

    fn compile(&self, compiler: &mut Compiler) -> (r: CompilerResult<()>) {
        ElseStatement::compile(self, compiler)
    }
}

impl Compile for IfStatement {
    open spec fn lowering(&self, c: CompilerView) -> Lowering {
        lower_statement(c, Statement::If(*self))
    }

    open spec fn compilable(&self) -> bool {
        lowerable(Statement::If(*self))
    }

    fn compile(&self, compiler: &mut Compiler) -> (r: CompilerResult<()>) {
        IfStatement::compile(self, compiler)
    }
}

} // verus!
