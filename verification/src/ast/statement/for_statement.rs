//! `for` loops.

use vstd::prelude::*;

use crate::ast::expression::Expression;
use crate::ast::statement::{build_block, builds, Statement};
use crate::parser::{lemma_node_view, Node, ParserError, ParserErrorKind, ParseResult, Rule};

verus! {

/// `for <name> in <expression> { <statements> }`
#[derive(Debug, PartialEq, Eq)]
pub struct ForStatement {
    pub identifier: String,
    pub iterator: Expression,
    pub body: Vec<Statement>,
}


impl ForStatement {
    /// The statement that a `for_statement` node stands for.
    pub fn parse(node: &Node) -> (r: ParseResult<Self>)
        ensures
            match r {
                Ok(s) => builds(None, Some(Statement::For(s)), node@, Rule::for_statement),
                Err(error) => builds(Some(error), None, node@, Rule::for_statement),
            },
        decreases node, 1nat,
    {
        proof {
            lemma_node_view(node);
        }
        if node.rule == Rule::for_statement && node.children.len() == 5 && node.children[0].rule
            == Rule::k_for && node.children[1].rule == Rule::identifier && node.children[2].rule
            == Rule::k_in {
            proof {
                lemma_node_view(&node.children[0]);
                lemma_node_view(&node.children[1]);
                lemma_node_view(&node.children[2]);
            }
            let identifier = node.children[1].text.clone();
            let iterator = Expression::parse(&node.children[3])?;
            let body = build_block(&node.children[4])?;
            Ok(ForStatement { identifier, iterator, body })
        } else {
            Err(ParserError::for_pair(node, ParserErrorKind::WIP))
        }
    }
}

} // verus!
