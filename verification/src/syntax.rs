//! The shapes of parse tree that the builder takes. The grammar produces no
//! others; a tree of another shape is a mismatch between grammar and builder.

use crate::climber::alternates;
use crate::tree::{Rule, Tree};
use crate::grammar::is_number;
use crate::words::{function_kind_of, integer_value, unit_of, window_of};
use vstd::prelude::*;

verus! {

/// The rules of the trees of `pairs`, in order.
pub open spec fn rules_of(pairs: Seq<Tree>) -> Seq<Rule> {
    Seq::new(pairs.len(), |i: int| pairs[i].rule)
}

/// A type is one identifier, or any number of types.
pub open spec fn valid_type(tree: Tree) -> bool
    decreases tree,
{
    &&& tree.rule == Rule::Type
    &&& {
        ||| tree.children.len() >= 1 && tree.children[0].rule == Rule::Ident
        ||| forall|i: int|
            #![trigger tree.children[i]]
            0 <= i < tree.children.len() ==> valid_type(tree.children[i])
    }
}

/// A literal has one child: a number, a truth value, or a tuple of literals.
/// The text of a number is an integer that fits, or has the form of a number.
pub open spec fn valid_literal(tree: Tree) -> bool
    decreases tree,
{
    &&& tree.rule == Rule::Literal
    &&& tree.children.len() >= 1
    &&& match tree.children[0].rule {
        Rule::NumberLiteral => integer_value(tree.children[0].text) is Some || is_number(
            tree.children[0].text,
        ),
        Rule::True | Rule::False => true,
        Rule::TupleLiteral => forall|i: int|
            #![trigger tree.children[0].children[i]]
            0 <= i < tree.children[0].children.len() ==> valid_literal(tree.children[0].children[i]),
        _ => false,
    }
}

/// The children of an expression: operands, with a binary operator between
/// each two of them.
pub open spec fn valid_expression(pairs: Seq<Tree>) -> bool
    decreases pairs, 1nat,
{
    &&& alternates(rules_of(pairs))
    &&& forall|i: int|
        #![trigger pairs[i]]
        0 <= i < pairs.len() && i % 2 == 0 ==> valid_primary(pairs[i])
}

/// Every tree of `trees` from position `from` on holds an expression.
pub open spec fn valid_arguments(trees: Seq<Tree>, from: int) -> bool
    decreases trees, 0nat,
{
    forall|i: int| #![trigger trees[i]] 0 <= from <= i < trees.len() ==> valid_expression(trees[i].children)
}

/// A lookup: a stream instance, then an expression (a discrete offset) or a
/// duration (a real-time offset), which an aggregation may follow.
pub open spec fn valid_lookup(tree: Tree) -> bool
    decreases tree, 0nat,
{
    &&& tree.children.len() >= 2
    &&& tree.children[0].children.len() >= 1
    &&& tree.children[0].children[0].rule == Rule::Ident
    &&& valid_arguments(tree.children[0].children, 1)
    &&& match tree.children[1].rule {
        Rule::Expr => valid_expression(tree.children[1].children),
        Rule::Duration => {
            &&& tree.children[1].children.len() >= 2
            &&& valid_expression(tree.children[1].children[0].children)
            &&& unit_of(tree.children[1].children[1].text) is Some
            &&& tree.children.len() >= 3 ==> window_of(tree.children[2].rule) is Some
        },
        _ => false,
    }
}

/// An operand of an expression.
pub open spec fn valid_primary(tree: Tree) -> bool
    decreases tree, 1nat,
{
    match tree.rule {
        Rule::Literal => valid_literal(tree),
        Rule::Ident => true,
        Rule::ParenthesizedExpression => {
            &&& tree.children.len() >= 3
            &&& valid_expression(tree.children[1].children)
        },
        Rule::DefaultExpr => {
            &&& tree.children.len() >= 2
            &&& valid_lookup(tree.children[0])
            &&& valid_expression(tree.children[1].children)
        },
        Rule::LookupExpr => valid_lookup(tree),
        Rule::UnaryExpr => {
            &&& tree.children.len() >= 2
            &&& (tree.children[0].rule == Rule::Add || tree.children[0].rule == Rule::Subtract
                || tree.children[0].rule == Rule::Neg)
            &&& valid_expression(tree.children[1].children)
        },
        Rule::TernaryExpr => tree.children.len() == 3 && valid_arguments(tree.children, 0),
        Rule::Tuple => tree.children.len() != 1 && valid_arguments(tree.children, 0),
        Rule::Expr => valid_expression(tree.children),
        Rule::FunctionExpr => {
            &&& tree.children.len() >= 1
            &&& function_kind_of(tree.children[0].text) is Some
            &&& valid_arguments(tree.children, 1)
        },
        _ => false,
    }
}

/// A constant: its name, its type and its value.
pub open spec fn valid_constant(tree: Tree) -> bool {
    &&& tree.rule == Rule::ConstantStream
    &&& tree.children.len() >= 3
    &&& tree.children[0].rule == Rule::Ident
    &&& valid_type(tree.children[1])
    &&& valid_literal(tree.children[2])
}

/// A parameter list: names, each followed by its type.
pub open spec fn valid_parameters(tree: Tree) -> bool {
    &&& tree.rule == Rule::ParamList
    &&& tree.children.len() % 2 == 0
    &&& forall|i: int|
        0 <= i < tree.children.len() ==> if i % 2 == 0 {
            (#[trigger] tree.children[i]).rule == Rule::Ident
        } else {
            valid_type(tree.children[i])
        }
}

/// The stream that is declared at position `at` of `trees` has a name, then
/// maybe parameters, then a type; `valid_stream_head` says so, and
/// `stream_head_len` is the number of trees that these take.
pub open spec fn stream_head_len(trees: Seq<Tree>, at: int) -> int {
    if 0 <= at && at + 1 < trees.len() && trees[at + 1].rule == Rule::ParamList {
        3
    } else {
        2
    }
}

pub open spec fn valid_stream_head(trees: Seq<Tree>, at: int) -> bool {
    &&& 0 <= at
    &&& at + stream_head_len(trees, at) <= trees.len()
    &&& trees[at].rule == Rule::Ident
    &&& stream_head_len(trees, at) == 3 ==> valid_parameters(trees[at + 1])
    &&& valid_type(trees[at + stream_head_len(trees, at) - 1])
}

/// From position `at` on, `trees` holds input declarations and nothing else.
pub open spec fn valid_input_list(trees: Seq<Tree>, at: int) -> bool
    decreases trees.len() - at,
{
    if at >= trees.len() {
        true
    } else {
        valid_stream_head(trees, at) && valid_input_list(trees, at + stream_head_len(trees, at))
    }
}

/// An input clause: one declaration or more.
pub open spec fn valid_inputs(tree: Tree) -> bool {
    &&& tree.rule == Rule::InputStream
    &&& tree.children.len() > 0
    &&& valid_input_list(tree.children, 0)
}

/// An output: name, maybe parameters, type, and the expression.
pub open spec fn valid_output(tree: Tree) -> bool {
    &&& tree.rule == Rule::OutputStream
    &&& valid_stream_head(tree.children, 0)
    &&& stream_head_len(tree.children, 0) < tree.children.len()
    &&& valid_expression(tree.children[stream_head_len(tree.children, 0)].children)
}

/// The position of a trigger's expression: behind the name, where it has one.
pub open spec fn trigger_expression_at(tree: Tree) -> int {
    if tree.children.len() >= 1 && tree.children[0].rule == Rule::Ident {
        1
    } else {
        0
    }
}

/// A trigger: maybe a name, the expression, and maybe a message.
pub open spec fn valid_trigger(tree: Tree) -> bool {
    let at = trigger_expression_at(tree);
    &&& tree.rule == Rule::Trigger
    &&& at < tree.children.len()
    &&& valid_expression(tree.children[at].children)
    &&& at + 1 < tree.children.len() ==> tree.children[at + 1].rule == Rule::String
}

/// A specification: declarations, and maybe the end of input.
pub open spec fn valid_specification(tree: Tree) -> bool {
    &&& tree.rule == Rule::Spec
    &&& forall|i: int|
        0 <= i < tree.children.len() ==> match (#[trigger] tree.children[i]).rule {
            Rule::ConstantStream => valid_constant(tree.children[i]),
            Rule::InputStream => valid_inputs(tree.children[i]),
            Rule::OutputStream => valid_output(tree.children[i]),
            Rule::Trigger => valid_trigger(tree.children[i]),
            Rule::EOI => true,
            _ => false,
        }
}

} // verus!
