//! Declarations and assignments.

use vstd::prelude::*;

use crate::ast::{Identifier, IdentifierKind};
use crate::ast::expression::Expression;
use crate::ast::statement::{builds, Statement};
use crate::compiler::Compiler;
use crate::compiler::error::{fault_of, CompilerError, CompilerResult};
use crate::compiler::instruction::Instruction;
use crate::compiler::lowering::lower_statement;
use crate::compiler::model::Lowering;
use crate::parser::{lemma_node_view, Node, ParserError, ParserErrorKind, ParseResult, Rule};

verus! {

/// `const <name> = <expression>;` or `var <name> [= <expression>];`
#[derive(Debug, PartialEq, Eq)]
pub struct DeclarationStatement {
    pub identifier: Identifier,
    pub initial_value: Option<Expression>,
}

/// `<name> = <expression>;`
#[derive(Debug, PartialEq, Eq)]
pub struct AssignmentStatement {
    pub identifier: String,
    pub value: Expression,
}


impl DeclarationStatement {
    /// Compiles the initial value, if there is one, declares the name, and
    /// emits the store of the initial value.
    ///
    /// The name is not yet declared while its initial value is compiled.
    pub fn compile(&self, compiler: &mut Compiler) -> (r: CompilerResult<()>)
        requires
            old(compiler).wf(),
        ensures
            final(compiler).wf(),
            (Lowering { state: final(compiler)@, fault: fault_of(r) }) == lower_statement(
                old(compiler)@,
                Statement::Declaration(*self),
            ),
    {
        match &self.initial_value {
            Some(expr) => {
                expr.compile(compiler)?;
            },
            None => {},
        }
        let idx = compiler.register(self.identifier.duplicate())?;
        if self.initial_value.is_some() {
            compiler.emit(Instruction::StoreSymbol(idx));
        }
        Ok(())
    }
}

impl AssignmentStatement {
    /// Compiles the value and emits the store into the slot of the name.
    ///
    /// Fails with `UndefinedIdentifier` when the name is not declared and
    /// with `AssignmentToConst` when it is a constant; neither emits
    /// anything.
    pub fn compile(&self, compiler: &mut Compiler) -> (r: CompilerResult<()>)
        requires
            old(compiler).wf(),
        ensures
            final(compiler).wf(),
            (Lowering { state: final(compiler)@, fault: fault_of(r) }) == lower_statement(
                old(compiler)@,
                Statement::Assignment(*self),
            ),
    {
        match compiler.get_identifier(self.identifier.as_str()) {
            Some((IdentifierKind::Variable, idx)) => {
                self.value.compile(compiler)?;
                compiler.emit(Instruction::StoreSymbol(idx));
                Ok(())
            },
            Some((IdentifierKind::Constant, _)) => Err(CompilerError::AssignmentToConst),
            None => Err(CompilerError::UndefinedIdentifier(self.identifier.clone())),
        }
    }
}


impl DeclarationStatement {
    /// The statement that a `declaration_statement` node stands for: the
    /// keyword gives the kind, the identifier the name, and the
    /// expression, if there is one, the initial value.
    pub fn parse(node: &Node) -> (r: ParseResult<Self>)
        ensures
            match r {
                Ok(s) => builds(
                    None,
                    Some(Statement::Declaration(s)),
                    node@,
                    Rule::declaration_statement,
                ),
                Err(error) => builds(Some(error), None, node@, Rule::declaration_statement),
            },
    {
        proof {
            lemma_node_view(node);
        }
        let count: usize = node.children.len();
        if node.rule != Rule::declaration_statement || (count != 2 && count != 3) {
            return Err(ParserError::for_pair(node, ParserErrorKind::WIP));
        }
        proof {
            lemma_node_view(&node.children[0]);
            lemma_node_view(&node.children[1]);
        }
        let kind = match node.children[0].rule {
            Rule::k_const => IdentifierKind::Constant,
            Rule::k_var => IdentifierKind::Variable,
            _ => {
                return Err(ParserError::for_pair(node, ParserErrorKind::WIP));
            },
        };
        if node.children[1].rule != Rule::identifier {
            return Err(ParserError::for_pair(node, ParserErrorKind::WIP));
        }
        let identifier = Identifier { ident: node.children[1].text.clone(), kind };
        let initial_value = if count == 3 {
            Some(Expression::parse(&node.children[2])?)
        } else {
            None
        };
        Ok(DeclarationStatement { identifier, initial_value })
    }
}

impl AssignmentStatement {
    /// The statement that an `assignment_statement` node stands for.
    pub fn parse(node: &Node) -> (r: ParseResult<Self>)
        ensures
            match r {
                Ok(s) => builds(
                    None,
                    Some(Statement::Assignment(s)),
                    node@,
                    Rule::assignment_statement,
                ),
                Err(error) => builds(Some(error), None, node@, Rule::assignment_statement),
            },
    {
        proof {
            lemma_node_view(node);
        }
        if node.rule == Rule::assignment_statement && node.children.len() == 2
            && node.children[0].rule == Rule::identifier {
            proof {
                lemma_node_view(&node.children[0]);
            }
            let identifier = node.children[0].text.clone();
            let value = Expression::parse(&node.children[1])?;
            Ok(AssignmentStatement { identifier, value })
        } else {
            Err(ParserError::for_pair(node, ParserErrorKind::WIP))
        }
    }
}

} // verus!
