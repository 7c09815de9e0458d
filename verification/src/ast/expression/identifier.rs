//! Name references.

use vstd::prelude::*;

use crate::compiler::Compiler;
use crate::compiler::error::{fault_of, CompilerError, CompilerResult};
use crate::compiler::instruction::Instruction;
use crate::compiler::lowering::lower_identifier;
use crate::compiler::model::Lowering;
use crate::parser::{
    lemma_node_view, malformed, Node, ParserError, ParserErrorKind, ParseResult, Rule,
};

verus! {

/// A reference to a declared name.
#[derive(Debug, PartialEq, Eq)]
pub struct IdentifierExpression {
    pub ident: String,
}


impl IdentifierExpression {
    /// Emits the instruction that loads the slot of the name.
    ///
    /// Fails with `UndefinedIdentifier` when the name is not declared.
    pub fn compile(&self, compiler: &mut Compiler) -> (r: CompilerResult<()>)
        requires
            old(compiler).wf(),
        ensures
            final(compiler).wf(),
            (Lowering { state: final(compiler)@, fault: fault_of(r) }) == lower_identifier(
                old(compiler)@,
                self.ident@,
            ),
    {
        match compiler.get_identifier(self.ident.as_str()) {
            Some((_, idx)) => {
                compiler.emit(Instruction::LoadSymbol(idx));
                Ok(())
            },
            None => Err(CompilerError::UndefinedIdentifier(self.ident.clone())),
        }
    }
}


impl IdentifierExpression {
    /// The name that an `identifier` node stands for: its text.
    pub fn parse(node: &Node) -> (r: ParseResult<Self>)
        ensures
            match r {
                Ok(identifier) => node@.rule == Rule::identifier && identifier.ident@ == node@.text,
                Err(error) => node@.rule != Rule::identifier && error == malformed(
                    node@,
                    ParserErrorKind::WIP,
                ),
            },
    {
        proof {
            lemma_node_view(node);
        }
        if node.rule == Rule::identifier {
            Ok(IdentifierExpression { ident: node.text.clone() })
        } else {
            Err(ParserError::for_pair(node, ParserErrorKind::WIP))
        }
    }
}

} // verus!
