//! From source text to the syntax tree.
//!
//! The grammar ([`grammar`]) turns text into a rule-tagged parse tree;
//! the builders of the syntax tree read that tree, and [`builder`] says
//! what a tree stands for. [`agreement`] proves that the two fit: no tree
//! of the grammar is out of place for the builders.
//!
//! Apart from the grammar, [`expression`], [`literal`], [`identifier`],
//! [`keyword`] and [`operator`] read expressions and their parts straight
//! from an [`Input`] and keep the place of every part they read.

use vstd::prelude::*;

use crate::ast::model::{statement_views, StatementView};
use crate::ast::statement::{build_statements, Statement};
use crate::parser::agreement::law_programs_are_read;
use crate::parser::builder::statements_of;
use crate::parser::grammar::{
    expression_at, identifier_at, parse_expression, parse_identifier, parse_program,
    parse_statement as parse_statement_node, parse_value, program_at, statement_at, value_at,
};
use crate::parser::lexical::chars_of;

pub mod agreement;
pub mod builder;
pub mod expression;
pub mod grammar;
pub mod grouping;
pub mod identifier;
pub mod input;
pub mod keyword;
pub mod laws;
pub mod lexical;
pub mod literal;
pub mod numeral;
pub mod operator;
pub mod parse;
pub mod places;
pub mod spanned;

pub use crate::parser::input::Input;
pub use crate::parser::parse::Parse;
pub use crate::parser::spanned::Spanned;

verus! {

/// The rules of the grammar. Every node of a parse tree is tagged with the
/// rule that matched it.
#[allow(non_camel_case_types)]
#[derive(Debug, Clone, Copy, PartialEq, Eq, Hash, Structural)]
pub enum Rule {
    EOI,
    program,
    print_statement,
    if_statement,
    if_body,
    else_if_body,
    else_body,
    declaration_statement,
    assignment_statement,
    while_statement,
    for_statement,
    block_statement,
    continue_statement,
    break_statement,
    expression_statement,
    expression,
    value,
    integer,
    float,
    boolean,
    binary,
    octal,
    decimal,
    hexadecimal,
    identifier,
    plus,
    minus,
    not,
    add,
    subtract,
    multiply,
    divide,
    remainder,
    power,
    less_than,
    less_than_eq,
    greater_than,
    greater_than_eq,
    equal_to,
    not_equal_to,
    logical_and,
    logical_or,
    logical_xor,
    k_print,
    k_if,
    k_else,
    k_while,
    k_for,
    k_in,
    k_const,
    k_var,
    k_break,
    k_continue,
}

/// What went wrong while text was read.
#[derive(Debug, Clone, Copy, PartialEq, Eq, Structural)]
pub enum ParserErrorKind {
    /// An integer literal does not fit 64 bits, or holds no digits of its
    /// radix.
    ParseIntError,
    /// A float literal is no decimal numeral.
    ParseFloatError,
    /// The text is not of the language, or a parse tree is not as the
    /// grammar makes it.
    WIP,
}

/// A failure of the parser and the place it is about: the characters of
/// the source from `start` to `end`.
#[derive(Debug, Clone, Copy, PartialEq, Eq, Structural)]
pub struct ParserError {
    pub kind: ParserErrorKind,
    pub start: usize,
    pub end: usize,
}

pub type ParseResult<T> = Result<T, ParserError>;

/// A node of a parse tree: the rule that matched, the text it matched with
/// its place in the source, counted in characters, and the nodes of the
/// rules that matched inside it, in source order.
#[derive(Debug, PartialEq, Eq)]
pub struct Node {
    pub rule: Rule,
    pub text: String,
    pub start: usize,
    pub end: usize,
    pub children: Vec<Node>,
}

/// The mathematical content of a [`Node`].
pub struct Tree {
    pub rule: Rule,
    pub text: Seq<char>,
    pub start: int,
    pub end: int,
    pub children: Seq<Tree>,
}

impl View for Node {
    type V = Tree;

    open spec fn view(&self) -> Tree {
        tree_of(*self)
    }
}

/// The content of a node.
pub open spec fn tree_of(node: Node) -> Tree
    decreases node, 0nat,
{
    Tree {
        rule: node.rule,
        text: node.text@,
        start: node.start as int,
        end: node.end as int,
        children: trees_from(node.children@, 0),
    }
}

/// The contents of the nodes from `from` on.
pub open spec fn trees_from(nodes: Seq<Node>, from: int) -> Seq<Tree>
    decreases nodes, nodes.len() - from,
{
    if 0 <= from < nodes.len() {
        seq![tree_of(nodes[from])] + trees_from(nodes, from + 1)
    } else {
        Seq::empty()
    }
}

proof fn lemma_trees_from(nodes: Seq<Node>, from: int)
    requires
        0 <= from <= nodes.len(),
    ensures
        trees_from(nodes, from).len() == nodes.len() - from,
        forall|i: int|
            0 <= i < nodes.len() - from ==> #[trigger] trees_from(nodes, from)[i] == nodes[from
                + i]@,
    decreases nodes.len() - from,
{
    if from < nodes.len() {
        lemma_trees_from(nodes, from + 1);
        let rest = trees_from(nodes, from + 1);
        assert forall|i: int| 0 <= i < nodes.len() - from implies #[trigger] trees_from(
            nodes,
            from,
        )[i] == nodes[from + i]@ by {
            if i > 0 {
                assert(trees_from(nodes, from)[i] == rest[i - 1]);
            }
        }
    }
}

/// The children of a node's content are the contents of its children.
pub proof fn lemma_node_view(node: &Node)
    ensures
        node@.children == trees(node.children@),
        node@.rule == node.rule,
        node@.text == node.text@,
        node@.start == node.start,
        node@.end == node.end,
{
    lemma_trees_from(node.children@, 0);
    assert(node@.children =~= trees(node.children@));
}

impl ParserError {
    /// A failure that is about the text of `node`.
    pub fn for_pair(node: &Node, kind: ParserErrorKind) -> (r: Self)
        ensures
            r == malformed(node@, kind),
    {
        Self::for_span(node.start, node.end, kind)
    }

    /// A failure that is about the text from `start` to `end`.
    pub fn for_span(start: usize, end: usize, kind: ParserErrorKind) -> (r: Self)
        ensures
            r == (ParserError { kind, start, end }),
    {
        ParserError { kind, start, end }
    }
}

/// The failure of the given kind that is about the text of `tree`.
pub open spec fn malformed(tree: Tree, kind: ParserErrorKind) -> ParserError {
    ParserError { kind, start: tree.start as usize, end: tree.end as usize }
}

/// The contents of a vector of nodes.
pub open spec fn trees(nodes: Seq<Node>) -> Seq<Tree> {
    Seq::new(nodes.len(), |i: int| nodes[i]@)
}


/// The failure to read the text from `at` on.
pub open spec fn unreadable(text: Seq<char>, at: int) -> ParserError {
    ParserError { kind: ParserErrorKind::WIP, start: at as usize, end: text.len() as usize }
}

/// The statements that a text stands for: the text is read as a program,
/// and the nodes of the program are read as statements.
pub open spec fn program_of(text: Seq<char>) -> Result<Seq<StatementView>, ParserError> {
    match program_at(text) {
        Ok(nodes) => statements_of(nodes, 0),
        Err(at) => Err(unreadable(text, at)),
    }
}

/// The first node that a rule gives at the beginning of a text. The
/// rules that can be asked for are `value`, `identifier`, `expression`,
/// `program` and those of the statements.
pub open spec fn rule_at(rule: Rule, text: Seq<char>) -> Option<Tree> {
    match rule {
        Rule::value => match value_at(text, 0, true) {
            Some((tree, _)) => Some(tree),
            None => None,
        },
        Rule::identifier => match identifier_at(text, 0) {
            Some((tree, _)) => Some(tree),
            None => None,
        },
        Rule::expression => match expression_at(text, 0) {
            Some((tree, _)) => Some(tree),
            None => None,
        },
        Rule::program => match program_at(text) {
            Ok(nodes) => Some(nodes[0]),
            Err(_) => None,
        },
        _ => match statement_at(text, 0) {
            Some((tree, _)) => if tree.rule == rule {
                Some(tree)
            } else {
                None
            },
            None => None,
        },
    }
}

/// The characters of `input`, with the fact that their number is its
/// length.
fn source_of(input: &str) -> (r: Vec<char>)
    ensures
        r@ == input@,
        input@.len() <= usize::MAX,
{
    let r = chars_of(input);
    // the length of a vector fits the machine
    let _len: usize = r.len();
    r
}

/// Reads the first node of a rule from the beginning of a text; see
/// [`rule_at`]. Where the rule does not match, the failure is about the
/// whole text.
pub fn parse_node(rule: Rule, input: &str) -> (r: ParseResult<Node>)
    ensures
        match r {
            Ok(node) => rule_at(rule, input@) == Some(node@),
            Err(error) => rule_at(rule, input@) is None && error == unreadable(input@, 0),
        },
{
    let source = source_of(input);
    let found = match rule {
        Rule::value => parse_value(&source, 0, true),
        Rule::identifier => parse_identifier(&source, 0),
        Rule::expression => parse_expression(&source, 0),
        Rule::program => {
            return match parse_program(&source) {
                Ok(mut nodes) => {
                    let ghost all = trees(nodes@);
                    assert(all[0] == nodes@[0]@);
                    Ok(nodes.swap_remove(0))
                },
                Err(_) => Err(ParserError::for_span(0, source.len(), ParserErrorKind::WIP)),
            };
        },
        _ => match parse_statement_node(&source, 0) {
            Some((node, next)) => {
                proof {
                    lemma_node_view(&node);
                }
                if node.rule == rule {
                    Some((node, next))
                } else {
                    None
                }
            },
            None => None,
        },
    };
    match found {
        Some((node, _)) => Ok(node),
        None => Err(ParserError::for_span(0, source.len(), ParserErrorKind::WIP)),
    }
}

/// Reads the first node of a rule from the beginning of a text and, from
/// the node, a part of a program. Where the rule does not match, the
/// failure is about the whole text.
pub fn parse_rule<T: Parse>(rule: Rule, input: &str) -> (r: ParseResult<T>)
    ensures
        match rule_at(rule, input@) {
            Some(tree) => T::parsed(tree, r),
            None => r == Err::<T, ParserError>(unreadable(input@, 0)),
        },
{
    match parse_node(rule, input) {
        Ok(node) => T::parse(&node),
        Err(error) => Err(error),
    }
}

/// Reads a program and, from its first node, a part of a program. Where
/// the text is no program, the failure is about the text from the place
/// on at which no statement begins.
pub fn parse_statement<T: Parse>(input: &str) -> (r: ParseResult<T>)
    ensures
        match program_at(input@) {
            Ok(nodes) => T::parsed(nodes[0], r),
            Err(at) => r == Err::<T, ParserError>(unreadable(input@, at)),
        },
{
    let source = source_of(input);
    match parse_program(&source) {
        Ok(nodes) => {
            let ghost all = trees(nodes@);
            assert(all[0] == nodes@[0]@);
            T::parse(&nodes[0])
        },
        Err(at) => Err(ParserError::for_span(at, source.len(), ParserErrorKind::WIP)),
    }
}

/// The statements that the nodes of a program stand for, up to the node
/// of the rule `EOI`.
pub fn parse_pairs(pairs: &Vec<Node>) -> (r: ParseResult<Vec<Statement>>)
    ensures
        match r {
            Ok(statements) => statements_of(trees(pairs@), 0) == Ok::<
                Seq<StatementView>,
                ParserError,
            >(statement_views(statements@, 0)),
            Err(error) => statements_of(trees(pairs@), 0) == Err::<
                Seq<StatementView>,
                ParserError,
            >(error),
        },
{
    build_statements(pairs)
}

/// Reads a program: the statements of the text, in order.
///
/// Where the text is no program, the failure is of the kind `WIP` and
/// about the text from the place on at which no statement begins. A
/// text that is a program is read, unless one of its integers does not
/// fit: the failure is then of the kind `ParseIntError` and about that
/// integer.
pub fn parse(input: &str) -> (r: ParseResult<Vec<Statement>>)
    ensures
        match r {
            Ok(statements) => program_of(input@) == Ok::<Seq<StatementView>, ParserError>(
                statement_views(statements@, 0),
            ),
            Err(error) => program_of(input@) == Err::<Seq<StatementView>, ParserError>(error),
        },
        r matches Err(error) ==> if program_at(input@) is Err {
            error.kind == ParserErrorKind::WIP
        } else {
            error.kind == ParserErrorKind::ParseIntError
        },
{
    let source = source_of(input);
    proof {
        if program_at(input@) is Ok {
            law_programs_are_read(input@);
        }
    }
    match parse_program(&source) {
        Ok(pairs) => parse_pairs(&pairs),
        Err(at) => Err(ParserError::for_span(at, source.len(), ParserErrorKind::WIP)),
    }
}

} // verus!
