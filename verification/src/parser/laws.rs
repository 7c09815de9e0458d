//! What holds of every expression that is read from a parse tree.

use vstd::prelude::*;

use crate::ast::expression::binary::BinaryOperator;
use crate::ast::expression::unary::UnaryOperator;
use crate::ast::model::ExpressionView;
use crate::parser::{malformed, ParserError, ParserErrorKind, Rule, Tree};
use crate::parser::builder::{
    binding_power, climb, climb_on, expression_of, infix_of, operand_of, prefix_of, prefix_power,
};

verus! {

/// The expression that a name stands for.
pub open spec fn named(token: Tree) -> ExpressionView {
    ExpressionView::Identifier(token.text)
}

/// Two expressions joined by an operator.
pub open spec fn join(left: ExpressionView, operator: BinaryOperator, right: ExpressionView) -> ExpressionView {
    ExpressionView::Binary(Box::new(left), operator, Box::new(right))
}

/// Whether the tokens are three names with two infix operators between
/// them.
pub open spec fn three_operands(tokens: Seq<Tree>, first: BinaryOperator, second: BinaryOperator) -> bool {
    &&& tokens.len() == 5
    &&& tokens[0].rule == Rule::identifier
    &&& infix_of(tokens[1].rule) == Some(first)
    &&& tokens[2].rule == Rule::identifier
    &&& infix_of(tokens[3].rule) == Some(second)
    &&& tokens[4].rule == Rule::identifier
}

/// Of two operators next to each other, the second takes the operand
/// between them if it binds to its left at least as strongly as the first
/// binds to its right; otherwise the first takes it.
pub proof fn law_grouping(
    tokens: Seq<Tree>,
    first: BinaryOperator,
    second: BinaryOperator,
    whole: ParserError,
)
    requires
        three_operands(tokens, first, second),
    ensures
        climb(tokens, 0, 0, whole) == Ok::<(ExpressionView, int), ParserError>(
            (
                if binding_power(second).0 < binding_power(first).1 {
                    join(join(named(tokens[0]), first, named(tokens[2])), second, named(tokens[4]))
                } else {
                    join(named(tokens[0]), first, join(named(tokens[2]), second, named(tokens[4])))
                },
                5,
            ),
        ),
{
    let a = named(tokens[0]);
    let b = named(tokens[2]);
    let c = named(tokens[4]);
    let first_right = binding_power(first).1;
    assert(operand_of(tokens, 0, whole) == Ok::<(ExpressionView, int), ParserError>((a, 1)));
    assert(operand_of(tokens, 2, whole) == Ok::<(ExpressionView, int), ParserError>((b, 3)));
    assert(operand_of(tokens, 4, whole) == Ok::<(ExpressionView, int), ParserError>((c, 5)));
    // behind the last operand nothing is left to take
    assert(climb_on(tokens, c, 5, first_right, whole) == Ok::<(ExpressionView, int), ParserError>(
        (c, 5),
    ));
    assert(climb_on(tokens, c, 5, binding_power(second).1, whole) == Ok::<
        (ExpressionView, int),
        ParserError,
    >((c, 5)));
    assert(climb(tokens, 4, binding_power(second).1, whole) == Ok::<
        (ExpressionView, int),
        ParserError,
    >((c, 5)));
    if binding_power(second).0 < first_right {
        // the right side of the first operator ends before the second
        assert(climb_on(tokens, b, 3, first_right, whole) == Ok::<
            (ExpressionView, int),
            ParserError,
        >((b, 3)));
        assert(climb(tokens, 2, first_right, whole) == Ok::<(ExpressionView, int), ParserError>(
            (b, 3),
        ));
        let left = join(a, first, b);
        assert(climb_on(tokens, join(left, second, c), 5, 0, whole) == Ok::<
            (ExpressionView, int),
            ParserError,
        >((join(left, second, c), 5)));
        assert(climb_on(tokens, left, 3, 0, whole) == Ok::<(ExpressionView, int), ParserError>(
            (join(left, second, c), 5),
        ));
        assert(climb_on(tokens, a, 1, 0, whole) == Ok::<(ExpressionView, int), ParserError>(
            (join(left, second, c), 5),
        ));
    } else {
        // the right side of the first operator takes the second with it
        let right = join(b, second, c);
        assert(climb_on(tokens, right, 5, first_right, whole) == Ok::<
            (ExpressionView, int),
            ParserError,
        >((right, 5)));
        assert(climb_on(tokens, b, 3, first_right, whole) == Ok::<
            (ExpressionView, int),
            ParserError,
        >((right, 5)));
        assert(climb(tokens, 2, first_right, whole) == Ok::<(ExpressionView, int), ParserError>(
            (right, 5),
        ));
        assert(climb_on(tokens, join(a, first, right), 5, 0, whole) == Ok::<
            (ExpressionView, int),
            ParserError,
        >((join(a, first, right), 5)));
        assert(climb_on(tokens, a, 1, 0, whole) == Ok::<(ExpressionView, int), ParserError>(
            (join(a, first, right), 5),
        ));
    }
}

/// A prefix operator takes what follows it up to the first infix operator
/// that binds to its left weaker than the prefix operator binds: it takes
/// a power whole, and of a product only the first operand.
pub proof fn law_prefix_binding(
    tokens: Seq<Tree>,
    prefix: UnaryOperator,
    operator: BinaryOperator,
    whole: ParserError,
)
    requires
        tokens.len() == 4,
        prefix_of(tokens[0].rule) == Some(prefix),
        tokens[1].rule == Rule::identifier,
        infix_of(tokens[2].rule) == Some(operator),
        tokens[3].rule == Rule::identifier,
    ensures
        climb(tokens, 0, 0, whole) == Ok::<(ExpressionView, int), ParserError>(
            (
                if binding_power(operator).0 < prefix_power() {
                    join(
                        ExpressionView::Unary(prefix, Box::new(named(tokens[1]))),
                        operator,
                        named(tokens[3]),
                    )
                } else {
                    ExpressionView::Unary(
                        prefix,
                        Box::new(join(named(tokens[1]), operator, named(tokens[3]))),
                    )
                },
                4,
            ),
        ),
{
    let a = named(tokens[1]);
    let b = named(tokens[3]);
    let right = binding_power(operator).1;
    assert(operand_of(tokens, 1, whole) == Ok::<(ExpressionView, int), ParserError>((a, 2)));
    assert(operand_of(tokens, 3, whole) == Ok::<(ExpressionView, int), ParserError>((b, 4)));
    assert(climb_on(tokens, b, 4, right, whole) == Ok::<(ExpressionView, int), ParserError>(
        (b, 4),
    ));
    assert(climb(tokens, 3, right, whole) == Ok::<(ExpressionView, int), ParserError>((b, 4)));
    if binding_power(operator).0 < prefix_power() {
        let negated = ExpressionView::Unary(prefix, Box::new(a));
        assert(climb_on(tokens, a, 2, prefix_power(), whole) == Ok::<
            (ExpressionView, int),
            ParserError,
        >((a, 2)));
        assert(climb(tokens, 1, prefix_power(), whole) == Ok::<
            (ExpressionView, int),
            ParserError,
        >((a, 2)));
        assert(operand_of(tokens, 0, whole) == Ok::<(ExpressionView, int), ParserError>(
            (negated, 2),
        ));
        assert(climb_on(tokens, join(negated, operator, b), 4, 0, whole) == Ok::<
            (ExpressionView, int),
            ParserError,
        >((join(negated, operator, b), 4)));
        assert(climb_on(tokens, negated, 2, 0, whole) == Ok::<
            (ExpressionView, int),
            ParserError,
        >((join(negated, operator, b), 4)));
    } else {
        let power = join(a, operator, b);
        assert(climb_on(tokens, power, 4, prefix_power(), whole) == Ok::<
            (ExpressionView, int),
            ParserError,
        >((power, 4)));
        assert(climb_on(tokens, a, 2, prefix_power(), whole) == Ok::<
            (ExpressionView, int),
            ParserError,
        >((power, 4)));
        assert(climb(tokens, 1, prefix_power(), whole) == Ok::<
            (ExpressionView, int),
            ParserError,
        >((power, 4)));
        let negated = ExpressionView::Unary(prefix, Box::new(power));
        assert(operand_of(tokens, 0, whole) == Ok::<(ExpressionView, int), ParserError>(
            (negated, 4),
        ));
        assert(climb_on(tokens, negated, 4, 0, whole) == Ok::<
            (ExpressionView, int),
            ParserError,
        >((negated, 4)));
    }
}

/// Whether two operators are of one level.
pub open spec fn same_level(first: BinaryOperator, second: BinaryOperator) -> bool {
    binding_power(first) == binding_power(second)
}

/// Operators of one level group from the left, but for power, which
/// groups from the right.
pub proof fn law_associativity(
    tokens: Seq<Tree>,
    first: BinaryOperator,
    second: BinaryOperator,
    whole: ParserError,
)
    requires
        three_operands(tokens, first, second),
        same_level(first, second),
    ensures
        climb(tokens, 0, 0, whole) == Ok::<(ExpressionView, int), ParserError>(
            (
                if first == BinaryOperator::Power {
                    join(named(tokens[0]), first, join(named(tokens[2]), second, named(tokens[4])))
                } else {
                    join(join(named(tokens[0]), first, named(tokens[2])), second, named(tokens[4]))
                },
                5,
            ),
        ),
{
    law_grouping(tokens, first, second, whole);
}

/// Whether the tokens from `from` on are, in turn, an infix operator that
/// binds as `power` says and a name, up to the last token.
pub open spec fn chain(tokens: Seq<Tree>, from: int, power: (int, int)) -> bool
    decreases tokens.len() - from,
{
    if 0 <= from < tokens.len() {
        &&& from + 1 < tokens.len()
        &&& infix_of(tokens[from].rule) matches Some(operator) && binding_power(operator) == power
        &&& tokens[from + 1].rule == Rule::identifier
        &&& chain(tokens, from + 2, power)
    } else {
        true
    }
}

/// The expression `left` joined with the names from `from` on, one after
/// the other, each by the operator before it.
pub open spec fn from_the_left(tokens: Seq<Tree>, left: ExpressionView, from: int) -> ExpressionView
    decreases tokens.len() - from,
{
    if 0 <= from && from + 1 < tokens.len() {
        from_the_left(
            tokens,
            join(left, infix_of(tokens[from].rule)->0, named(tokens[from + 1])),
            from + 2,
        )
    } else {
        left
    }
}

/// The name at `from` joined, by the operator behind it, with all that
/// follows, which is joined in the same way.
pub open spec fn from_the_right(tokens: Seq<Tree>, from: int) -> ExpressionView
    decreases tokens.len() - from,
{
    if 0 <= from && from + 2 < tokens.len() {
        join(
            named(tokens[from]),
            infix_of(tokens[from + 1].rule)->0,
            from_the_right(tokens, from + 2),
        )
    } else {
        named(tokens[from])
    }
}

/// An expression that is followed by operators of one level which group
/// from the left takes the names between them one after the other.
proof fn lemma_chain_from_the_left(
    tokens: Seq<Tree>,
    left: ExpressionView,
    pos: int,
    min: int,
    power: (int, int),
    whole: ParserError,
)
    requires
        0 <= pos <= tokens.len(),
        chain(tokens, pos, power),
        min <= power.0 < power.1,
    ensures
        climb_on(tokens, left, pos, min, whole) == Ok::<(ExpressionView, int), ParserError>(
            (from_the_left(tokens, left, pos), tokens.len() as int),
        ),
    decreases tokens.len() - pos,
{
    if pos < tokens.len() {
        let operator = infix_of(tokens[pos].rule)->0;
        let name = named(tokens[pos + 1]);
        assert(chain(tokens, pos + 2, power));
        assert(operand_of(tokens, pos + 1, whole) == Ok::<(ExpressionView, int), ParserError>(
            (name, pos + 2),
        ));
        assert(climb_on(tokens, name, pos + 2, power.1, whole) == Ok::<
            (ExpressionView, int),
            ParserError,
        >((name, pos + 2)));
        assert(climb(tokens, pos + 1, power.1, whole) == Ok::<(ExpressionView, int), ParserError>(
            (name, pos + 2),
        ));
        lemma_chain_from_the_left(tokens, join(left, operator, name), pos + 2, min, power, whole);
    }
}

/// A name that is followed by operators of one level which group from
/// the right is joined with all that follows.
proof fn lemma_chain_from_the_right(
    tokens: Seq<Tree>,
    pos: int,
    min: int,
    power: (int, int),
    whole: ParserError,
)
    requires
        0 <= pos < tokens.len(),
        tokens[pos].rule == Rule::identifier,
        chain(tokens, pos + 1, power),
        min <= power.1 < power.0,
    ensures
        climb(tokens, pos, min, whole) == Ok::<(ExpressionView, int), ParserError>(
            (from_the_right(tokens, pos), tokens.len() as int),
        ),
    decreases tokens.len() - pos,
{
    let name = named(tokens[pos]);
    assert(operand_of(tokens, pos, whole) == Ok::<(ExpressionView, int), ParserError>(
        (name, pos + 1),
    ));
    if pos + 1 < tokens.len() {
        let operator = infix_of(tokens[pos + 1].rule)->0;
        lemma_chain_from_the_right(tokens, pos + 2, power.1, power, whole);
        let right = from_the_right(tokens, pos + 2);
        let joined = join(name, operator, right);
        assert(climb_on(tokens, joined, tokens.len() as int, min, whole) == Ok::<
            (ExpressionView, int),
            ParserError,
        >((joined, tokens.len() as int)));
        assert(climb_on(tokens, name, pos + 1, min, whole) == Ok::<
            (ExpressionView, int),
            ParserError,
        >((joined, tokens.len() as int)));
    } else {
        assert(climb_on(tokens, name, pos + 1, min, whole) == Ok::<
            (ExpressionView, int),
            ParserError,
        >((name, pos + 1)));
    }
}

/// Any number of names with operators of one level between them are
/// joined from the left, one name after the other; where the operators
/// group from the right, as power does, they are joined from the right.
pub proof fn law_chains(tokens: Seq<Tree>, power: (int, int), whole: ParserError)
    requires
        tokens.len() >= 1,
        tokens[0].rule == Rule::identifier,
        chain(tokens, 1, power),
    ensures
        climb(tokens, 0, 0, whole) == Ok::<(ExpressionView, int), ParserError>(
            (
                if power.0 < power.1 {
                    from_the_left(tokens, named(tokens[0]), 1)
                } else {
                    from_the_right(tokens, 0)
                },
                tokens.len() as int,
            ),
        ),
{
    let name = named(tokens[0]);
    assert(operand_of(tokens, 0, whole) == Ok::<(ExpressionView, int), ParserError>((name, 1)));
    if tokens.len() == 1 {
        assert(climb_on(tokens, name, 1, 0, whole) == Ok::<(ExpressionView, int), ParserError>(
            (name, 1),
        ));
    } else {
        let operator = infix_of(tokens[1].rule)->0;
        assert(binding_power(operator) == power);
        if power.0 < power.1 {
            lemma_chain_from_the_left(tokens, name, 1, 0, power, whole);
        } else {
            lemma_chain_from_the_right(tokens, 0, 0, power, whole);
        }
    }
}

/// The levels of binding power, from the weakest to the strongest: `xor`,
/// `or`, `and`, equality, comparison, sum, product, a prefix operator,
/// power.
pub proof fn law_levels()
    ensures
        binding_power(BinaryOperator::LogicalXor).1 < binding_power(BinaryOperator::LogicalOr).0,
        binding_power(BinaryOperator::LogicalOr).1 < binding_power(BinaryOperator::LogicalAnd).0,
        binding_power(BinaryOperator::LogicalAnd).1 < binding_power(BinaryOperator::Equal).0,
        same_level(BinaryOperator::Equal, BinaryOperator::NotEqual),
        binding_power(BinaryOperator::Equal).1 < binding_power(BinaryOperator::LessThan).0,
        same_level(BinaryOperator::LessThan, BinaryOperator::LessThanEqual),
        same_level(BinaryOperator::LessThan, BinaryOperator::GreaterThan),
        same_level(BinaryOperator::LessThan, BinaryOperator::GreaterThanEqual),
        binding_power(BinaryOperator::LessThan).1 < binding_power(BinaryOperator::Add).0,
        same_level(BinaryOperator::Add, BinaryOperator::Subtract),
        binding_power(BinaryOperator::Add).1 < binding_power(BinaryOperator::Multiply).0,
        same_level(BinaryOperator::Multiply, BinaryOperator::Divide),
        same_level(BinaryOperator::Multiply, BinaryOperator::Reminder),
        binding_power(BinaryOperator::Multiply).1 < prefix_power(),
        prefix_power() < binding_power(BinaryOperator::Power).1,
        prefix_power() < binding_power(BinaryOperator::Power).0,
{
}

/// Parentheses leave no trace: an expression that is nothing but an
/// expression in parentheses is that expression.
pub proof fn law_parentheses(tree: Tree)
    requires
        tree.rule == Rule::expression,
        tree.children.len() == 1,
        tree.children[0].rule == Rule::expression,
    ensures
        expression_of(tree) == expression_of(tree.children[0]),
{
    let whole = malformed(tree, ParserErrorKind::WIP);
    let inner = expression_of(tree.children[0]);
    match inner {
        Ok(expression) => {
            assert(operand_of(tree.children, 0, whole) == Ok::<
                (ExpressionView, int),
                ParserError,
            >((expression, 1)));
            assert(climb_on(tree.children, expression, 1, 0, whole) == Ok::<
                (ExpressionView, int),
                ParserError,
            >((expression, 1)));
        },
        Err(error) => {
            assert(operand_of(tree.children, 0, whole) == Err::<
                (ExpressionView, int),
                ParserError,
            >(error));
        },
    }
}

} // verus!
