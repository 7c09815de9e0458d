//! What a parse tree means: the value, the expression or the statement
//! that a node stands for.
//!
//! A tree that is not as the grammar makes it stands for nothing; the
//! failure then names the node that is out of place.

use vstd::prelude::*;

use crate::ast::IdentifierKind;
use crate::ast::expression::binary::BinaryOperator;
use crate::ast::expression::unary::UnaryOperator;
use crate::ast::model::{BranchView, ExpressionView, StatementView};
use crate::ast::value::ValueView;
use crate::parser::{malformed, ParserError, ParserErrorKind, Rule, Tree};
use crate::parser::numeral::{compact, is_decimal_numeral, numeral_value};

verus! {

/// The radix that a rule of digits stands for.
pub open spec fn radix_of(rule: Rule) -> Option<int> {
    match rule {
        Rule::binary => Some(2),
        Rule::octal => Some(8),
        Rule::decimal => Some(10),
        Rule::hexadecimal => Some(16),
        _ => None,
    }
}

/// The number that a node of digits stands for. The two characters of a
/// prefix are left out, and so are blanks and underscores.
pub open spec fn unsigned_of(tree: Tree) -> Result<int, ParserErrorKind> {
    match radix_of(tree.rule) {
        Some(radix) => if radix == 10 {
            match numeral_value(compact(tree.text), radix) {
                Some(value) => Ok(value),
                None => Err(ParserErrorKind::ParseIntError),
            }
        } else if tree.text.len() < 2 {
            Err(ParserErrorKind::WIP)
        } else {
            match numeral_value(compact(tree.text.skip(2)), radix) {
                Some(value) => Ok(value),
                None => Err(ParserErrorKind::ParseIntError),
            }
        },
        None => Err(ParserErrorKind::WIP),
    }
}

/// The number that an `integer` node stands for: that of its digits,
/// negated behind a `minus`. A failure is about the whole node.
pub open spec fn integer_of(tree: Tree) -> Result<int, ParserError> {
    if tree.children.len() == 1 {
        match unsigned_of(tree.children[0]) {
            Ok(value) => Ok(value),
            Err(kind) => Err(malformed(tree, kind)),
        }
    } else if tree.children.len() == 2 {
        match unsigned_of(tree.children[1]) {
            Ok(value) => if tree.children[0].rule == Rule::plus {
                Ok(value)
            } else if tree.children[0].rule == Rule::minus {
                Ok(-value)
            } else {
                Err(malformed(tree, ParserErrorKind::WIP))
            },
            Err(kind) => Err(malformed(tree, kind)),
        }
    } else {
        Err(malformed(tree, ParserErrorKind::WIP))
    }
}

/// The constant that a `value` node stands for.
pub open spec fn value_of(tree: Tree) -> Result<ValueView, ParserError> {
    if tree.rule != Rule::value || tree.children.len() != 1 {
        Err(malformed(tree, ParserErrorKind::WIP))
    } else {
        let inner = tree.children[0];
        match inner.rule {
            Rule::integer => match integer_of(inner) {
                Ok(value) => Ok(ValueView::Integer(value)),
                Err(error) => Err(error),
            },
            Rule::float => if is_decimal_numeral(compact(inner.text)) {
                Ok(ValueView::Float(compact(inner.text)))
            } else {
                Err(malformed(inner, ParserErrorKind::ParseFloatError))
            },
            Rule::boolean => if inner.text == "true"@ {
                Ok(ValueView::True)
            } else if inner.text == "false"@ {
                Ok(ValueView::False)
            } else {
                Err(malformed(inner, ParserErrorKind::WIP))
            },
            _ => Err(malformed(inner, ParserErrorKind::WIP)),
        }
    }
}

/// The infix operator that a rule stands for.
pub open spec fn infix_of(rule: Rule) -> Option<BinaryOperator> {
    match rule {
        Rule::add => Some(BinaryOperator::Add),
        Rule::subtract => Some(BinaryOperator::Subtract),
        Rule::multiply => Some(BinaryOperator::Multiply),
        Rule::divide => Some(BinaryOperator::Divide),
        Rule::remainder => Some(BinaryOperator::Reminder),
        Rule::power => Some(BinaryOperator::Power),
        Rule::less_than => Some(BinaryOperator::LessThan),
        Rule::less_than_eq => Some(BinaryOperator::LessThanEqual),
        Rule::greater_than => Some(BinaryOperator::GreaterThan),
        Rule::greater_than_eq => Some(BinaryOperator::GreaterThanEqual),
        Rule::equal_to => Some(BinaryOperator::Equal),
        Rule::not_equal_to => Some(BinaryOperator::NotEqual),
        Rule::logical_and => Some(BinaryOperator::LogicalAnd),
        Rule::logical_or => Some(BinaryOperator::LogicalOr),
        Rule::logical_xor => Some(BinaryOperator::LogicalXor),
        _ => None,
    }
}

/// The prefix operator that a rule stands for.
pub open spec fn prefix_of(rule: Rule) -> Option<UnaryOperator> {
    match rule {
        Rule::plus => Some(UnaryOperator::Plus),
        Rule::minus => Some(UnaryOperator::Minus),
        Rule::not => Some(UnaryOperator::Not),
        _ => None,
    }
}

/// How strongly an infix operator binds the operand to its left and the
/// operand to its right. The levels are, from the weakest: `xor`, `or`,
/// `and`, equality, comparison, sum, product, power. An operator binds to
/// the right a little stronger than to the left, so that operators of one
/// level group from the left; power does the reverse and groups from the
/// right.
pub open spec fn binding_power(operator: BinaryOperator) -> (int, int) {
    match operator {
        BinaryOperator::LogicalXor => (1, 2),
        BinaryOperator::LogicalOr => (3, 4),
        BinaryOperator::LogicalAnd => (5, 6),
        BinaryOperator::Equal => (7, 8),
        BinaryOperator::NotEqual => (7, 8),
        BinaryOperator::LessThan => (9, 10),
        BinaryOperator::LessThanEqual => (9, 10),
        BinaryOperator::GreaterThan => (9, 10),
        BinaryOperator::GreaterThanEqual => (9, 10),
        BinaryOperator::Add => (11, 12),
        BinaryOperator::Subtract => (11, 12),
        BinaryOperator::Multiply => (13, 14),
        BinaryOperator::Divide => (13, 14),
        BinaryOperator::Reminder => (13, 14),
        BinaryOperator::Power => (18, 17),
    }
}

/// How strongly a prefix operator binds its operand: stronger than every
/// infix operator but power.
pub open spec fn prefix_power() -> int {
    15
}

/// An expression read from a run of tokens, and the position behind it.
pub type Climb = Result<(ExpressionView, int), ParserError>;

/// The failure that is about the token at `pos`, or about the whole
/// expression where the tokens end before `pos`.
pub open spec fn out_of_place(tokens: Seq<Tree>, pos: int, whole: ParserError) -> ParserError {
    if 0 <= pos < tokens.len() {
        malformed(tokens[pos], ParserErrorKind::WIP)
    } else {
        whole
    }
}

/// The expression that an `expression` node stands for: its tokens are
/// read by [`climb`], which has to use them all.
pub open spec fn expression_of(tree: Tree) -> Result<ExpressionView, ParserError>
    decreases tree, 0nat, 0nat,
{
    let whole = malformed(tree, ParserErrorKind::WIP);
    if tree.rule != Rule::expression {
        Err(whole)
    } else {
        match climb(tree.children, 0, 0, whole) {
            Ok((expression, next)) => if next == tree.children.len() {
                Ok(expression)
            } else {
                Err(out_of_place(tree.children, next, whole))
            },
            Err(error) => Err(error),
        }
    }
}

/// The operand at `pos`: a prefix operator with the expression it binds,
/// a value, a name, or an expression in parentheses.
pub open spec fn operand_of(tokens: Seq<Tree>, pos: int, whole: ParserError) -> Climb
    decreases tokens, tokens.len() - pos, 1nat,
{
    if 0 <= pos < tokens.len() {
        let token = tokens[pos];
        match prefix_of(token.rule) {
            Some(operator) => match climb(tokens, pos + 1, prefix_power(), whole) {
                Ok((operand, next)) => Ok(
                    (ExpressionView::Unary(operator, Box::new(operand)), next),
                ),
                Err(error) => Err(error),
            },
            None => if token.rule == Rule::value {
                match value_of(token) {
                    Ok(value) => Ok((ExpressionView::Value(value), pos + 1)),
                    Err(error) => Err(error),
                }
            } else if token.rule == Rule::identifier {
                Ok((ExpressionView::Identifier(token.text), pos + 1))
            } else if token.rule == Rule::expression {
                match expression_of(token) {
                    Ok(inner) => Ok((inner, pos + 1)),
                    Err(error) => Err(error),
                }
            } else {
                Err(malformed(token, ParserErrorKind::WIP))
            },
        }
    } else {
        Err(whole)
    }
}

/// The expression that begins at `pos` and holds no infix operator that
/// binds to its left weaker than `min`: an operand, and then what
/// [`climb_on`] adds to it.
pub open spec fn climb(tokens: Seq<Tree>, pos: int, min: int, whole: ParserError) -> Climb
    decreases tokens, tokens.len() - pos, 2nat,
{
    match operand_of(tokens, pos, whole) {
        Ok((left, next)) => if pos < next <= tokens.len() {
            climb_on(tokens, left, next, min, whole)
        } else {
            Err(whole)
        },
        Err(error) => Err(error),
    }
}

/// The expression `left`, which ends at `pos`, grown to the right: as
/// long as the next token is an infix operator that binds to its left no
/// weaker than `min`, it is taken, the expression to its right is read
/// with the operator's power to the right as the new least power, and the
/// two are joined.
pub open spec fn climb_on(
    tokens: Seq<Tree>,
    left: ExpressionView,
    pos: int,
    min: int,
    whole: ParserError,
) -> Climb
    decreases tokens, tokens.len() - pos, 3nat,
{
    if 0 <= pos < tokens.len() {
        match infix_of(tokens[pos].rule) {
            Some(operator) => if binding_power(operator).0 < min {
                Ok((left, pos))
            } else {
                match climb(tokens, pos + 1, binding_power(operator).1, whole) {
                    Ok((right, next)) => if pos < next <= tokens.len() {
                        climb_on(
                            tokens,
                            ExpressionView::Binary(Box::new(left), operator, Box::new(right)),
                            next,
                            min,
                            whole,
                        )
                    } else {
                        Err(whole)
                    },
                    Err(error) => Err(error),
                }
            },
            None => Ok((left, pos)),
        }
    } else {
        Ok((left, pos))
    }
}

/// The statements that a `block_statement` node stands for.
pub open spec fn block_of(tree: Tree) -> Result<Seq<StatementView>, ParserError>
    decreases tree, 0nat, 1nat,
{
    if tree.rule == Rule::block_statement {
        statements_of(tree.children, 0)
    } else {
        Err(malformed(tree, ParserErrorKind::WIP))
    }
}

/// The statements that the nodes from `from` on stand for, up to the end
/// of the nodes or to a node of the rule `EOI`.
pub open spec fn statements_of(nodes: Seq<Tree>, from: int) -> Result<
    Seq<StatementView>,
    ParserError,
>
    decreases nodes, nodes.len() - from, 0nat,
{
    if 0 <= from < nodes.len() && nodes[from].rule != Rule::EOI {
        match statement_of(nodes[from]) {
            Ok(first) => match statements_of(nodes, from + 1) {
                Ok(rest) => Ok(seq![first] + rest),
                Err(error) => Err(error),
            },
            Err(error) => Err(error),
        }
    } else {
        Ok(Seq::empty())
    }
}

/// The branch that the children of `tree` from `from` on stand for: a
/// `k_if`, an expression and a block.
pub open spec fn branch_of(tree: Tree, from: int) -> Result<BranchView, ParserError>
    decreases tree, 0nat, 2nat,
{
    if from >= 0 && tree.children.len() == from + 3 && tree.children[from].rule == Rule::k_if {
        match expression_of(tree.children[from + 1]) {
            Ok(condition) => match block_of(tree.children[from + 2]) {
                Ok(statements) => Ok(BranchView { condition, statements }),
                Err(error) => Err(error),
            },
            Err(error) => Err(error),
        }
    } else {
        Err(malformed(tree, ParserErrorKind::WIP))
    }
}

/// The branch that an `else_if_body` node stands for: a `k_else`, a
/// `k_if`, an expression and a block.
pub open spec fn else_if_of(tree: Tree) -> Result<BranchView, ParserError>
    decreases tree, 0nat, 3nat,
{
    if tree.rule == Rule::else_if_body && tree.children.len() == 4 && tree.children[0].rule
        == Rule::k_else {
        branch_of(tree, 1)
    } else {
        Err(malformed(tree, ParserErrorKind::WIP))
    }
}

/// The `else if` branches that the nodes from `from` to `upto` stand for.
pub open spec fn else_ifs_of(nodes: Seq<Tree>, from: int, upto: int) -> Result<
    Seq<BranchView>,
    ParserError,
>
    decreases nodes, upto - from, 0nat,
{
    if 0 <= from < upto <= nodes.len() {
        match else_if_of(nodes[from]) {
            Ok(first) => match else_ifs_of(nodes, from + 1, upto) {
                Ok(rest) => Ok(seq![first] + rest),
                Err(error) => Err(error),
            },
            Err(error) => Err(error),
        }
    } else {
        Ok(Seq::empty())
    }
}

/// The statements of an `else_body` node: a `k_else` and a block.
pub open spec fn else_of(tree: Tree) -> Result<Seq<StatementView>, ParserError>
    decreases tree, 0nat, 2nat,
{
    if tree.rule == Rule::else_body && tree.children.len() == 2 && tree.children[0].rule
        == Rule::k_else {
        block_of(tree.children[1])
    } else {
        Err(malformed(tree, ParserErrorKind::WIP))
    }
}

/// The number of children of an `if_statement` that are not its
/// `else_body`.
pub open spec fn conditional_children(tree: Tree) -> int {
    if tree.children.len() > 1 && tree.children.last().rule == Rule::else_body {
        tree.children.len() - 1
    } else {
        tree.children.len() as int
    }
}

/// The statement that a node stands for.
pub open spec fn statement_of(tree: Tree) -> Result<StatementView, ParserError>
    decreases tree, 0nat, 4nat,
{
    let kids = tree.children;
    let whole = malformed(tree, ParserErrorKind::WIP);
    match tree.rule {
        Rule::print_statement => if kids.len() == 2 && kids[0].rule == Rule::k_print {
            match expression_of(kids[1]) {
                Ok(expression) => Ok(StatementView::Print(expression)),
                Err(error) => Err(error),
            }
        } else {
            Err(whole)
        },
        Rule::expression_statement => if kids.len() == 1 {
            match expression_of(kids[0]) {
                Ok(expression) => Ok(StatementView::Expression(expression)),
                Err(error) => Err(error),
            }
        } else {
            Err(whole)
        },
        Rule::declaration_statement => if (kids.len() == 2 || kids.len() == 3) && (kids[0].rule
            == Rule::k_const || kids[0].rule == Rule::k_var) && kids[1].rule == Rule::identifier {
            let kind = if kids[0].rule == Rule::k_const {
                IdentifierKind::Constant
            } else {
                IdentifierKind::Variable
            };
            if kids.len() == 3 {
                match expression_of(kids[2]) {
                    Ok(value) => Ok(
                        StatementView::Declaration {
                            name: kids[1].text,
                            kind,
                            initial_value: Some(value),
                        },
                    ),
                    Err(error) => Err(error),
                }
            } else {
                Ok(StatementView::Declaration { name: kids[1].text, kind, initial_value: None })
            }
        } else {
            Err(whole)
        },
        Rule::assignment_statement => if kids.len() == 2 && kids[0].rule == Rule::identifier {
            match expression_of(kids[1]) {
                Ok(value) => Ok(StatementView::Assignment { name: kids[0].text, value }),
                Err(error) => Err(error),
            }
        } else {
            Err(whole)
        },
        Rule::while_statement => if kids.len() == 3 && kids[0].rule == Rule::k_while {
            match expression_of(kids[1]) {
                Ok(condition) => match block_of(kids[2]) {
                    Ok(body) => Ok(StatementView::While { condition, body }),
                    Err(error) => Err(error),
                },
                Err(error) => Err(error),
            }
        } else {
            Err(whole)
        },
        Rule::for_statement => if kids.len() == 5 && kids[0].rule == Rule::k_for && kids[1].rule
            == Rule::identifier && kids[2].rule == Rule::k_in {
            match expression_of(kids[3]) {
                Ok(iterator) => match block_of(kids[4]) {
                    Ok(body) => Ok(StatementView::For { name: kids[1].text, iterator, body }),
                    Err(error) => Err(error),
                },
                Err(error) => Err(error),
            }
        } else {
            Err(whole)
        },
        Rule::block_statement => match statements_of(kids, 0) {
            Ok(body) => Ok(StatementView::Block(body)),
            Err(error) => Err(error),
        },
        Rule::if_statement => if kids.len() >= 1 && kids[0].rule == Rule::if_body {
            match branch_of(kids[0], 0) {
                Ok(first) => match else_ifs_of(kids, 1, conditional_children(tree)) {
                    Ok(others) => if conditional_children(tree) < kids.len() {
                        match else_of(kids.last()) {
                            Ok(otherwise) => Ok(
                                StatementView::If { first, others, otherwise: Some(otherwise) },
                            ),
                            Err(error) => Err(error),
                        }
                    } else {
                        Ok(StatementView::If { first, others, otherwise: None })
                    },
                    Err(error) => Err(error),
                },
                Err(error) => Err(error),
            }
        } else {
            Err(whole)
        },
        Rule::break_statement => Ok(StatementView::Break),
        Rule::continue_statement => Ok(StatementView::Continue),
        _ => Err(whole),
    }
}
/// The statement that a node stands for if it is of the given rule; a
/// node of another rule is out of place.
pub open spec fn expected(tree: Tree, rule: Rule) -> Result<StatementView, ParserError> {
    if tree.rule == rule {
        statement_of(tree)
    } else {
        Err(malformed(tree, ParserErrorKind::WIP))
    }
}

/// The statements `head` followed by those of `tail`, or the failure of
/// `tail`.
pub open spec fn joined<T>(head: Seq<T>, tail: Result<Seq<T>, ParserError>) -> Result<
    Seq<T>,
    ParserError,
> {
    match tail {
        Ok(rest) => Ok(head + rest),
        Err(error) => Err(error),
    }
}

} // verus!
