//! What the builder builds: for each kind of parse tree, the syntax tree that
//! stands for it, and the names that the symbol table holds afterwards.
//!
//! The builder interns names as it meets them, from left to right, so each
//! function here takes the names before and gives the names after.

use crate::ast::{
    ConstantView, ExpressionKindView, ExpressionView, Ident, InputView, LitKindView, LiteralView,
    LolaSpecView, OffsetView, OutputView, ParameterView, Parenthesis, Span, StreamInstanceView,
    TriggerView, TypeKindView, TypeView, UnOp,
};
use crate::climber::{climbed, precedence, Shape};
use crate::symbols::{interned, position, Symbol};
use crate::syntax::{rules_of, stream_head_len, trigger_expression_at, valid_primary};
use crate::tree::{Rule, Tree};
use crate::words::{binop_of, function_kind_of, integer_value, unit_of, window_of};
use vstd::prelude::*;

verus! {

/// The names of a symbol table, in the order of their symbols.
pub type Names = Seq<Seq<char>>;

/// The symbol that `text` has once it is interned in `names`.
pub open spec fn symbol_for(names: Names, text: Seq<char>) -> Symbol {
    Symbol(position(names, text) as u32)
}

pub open spec fn ident_of(names: Names, tree: Tree) -> (Ident, Names) {
    (Ident { name: symbol_for(names, tree.text), span: tree.span }, interned(names, tree.text))
}

pub open spec fn type_of(names: Names, tree: Tree) -> (TypeView, Names)
    decreases tree, 0nat,
{
    if tree.children.len() >= 1 && tree.children[0].rule == Rule::Ident {
        let name = tree.children[0];
        (
            TypeView { kind: TypeKindView::Simple(symbol_for(names, name.text)), span: name.span },
            interned(names, name.text),
        )
    } else {
        let (elements, after) = types_from(names, tree.children, 0);
        (TypeView { kind: TypeKindView::Tuple(elements), span: tree.span }, after)
    }
}

/// The types of `trees` from position `at` on.
pub open spec fn types_from(names: Names, trees: Seq<Tree>, at: int) -> (Seq<TypeView>, Names)
    decreases trees, trees.len() - at,
{
    if 0 <= at < trees.len() {
        let (first, then) = type_of(names, trees[at]);
        let (rest, after) = types_from(then, trees, at + 1);
        (seq![first] + rest, after)
    } else {
        (Seq::empty(), names)
    }
}

/// The literal of a literal node. A number is an integer where its text
/// denotes one that fits; any other number keeps its text.
pub open spec fn literal_of(tree: Tree) -> LiteralView
    decreases tree,
{
    if tree.children.len() >= 1 {
        let inner = tree.children[0];
        LiteralView {
            kind: match inner.rule {
                Rule::NumberLiteral => match integer_value(inner.text) {
                    Some(value) => LitKindView::Int(value),
                    None => LitKindView::Float(inner.text),
                },
                Rule::TupleLiteral => LitKindView::Tuple(
                    Seq::new(
                        inner.children.len(),
                        |i: int|
                            if 0 <= i < inner.children.len() {
                                literal_of(inner.children[i])
                            } else {
                                arbitrary()
                            },
                    ),
                ),
                Rule::True => LitKindView::Bool(true),
                _ => LitKindView::Bool(false),
            },
            span: inner.span,
        }
    } else {
        arbitrary()
    }
}

/// The expression of the operands and operators `pairs`, which stand at
/// `span`: grouped as the precedence climber groups their rules.
pub open spec fn expression_of(names: Names, pairs: Seq<Tree>, span: Span) -> (ExpressionView, Names)
    decreases pairs, 1nat,
{
    grouped(names, pairs, 0, climbed(precedence(), rules_of(pairs)), Some(span))
}

/// The expression of the part of `pairs` that starts at position `at` and
/// has as many operands as `shape` has leaves, grouped as `shape` says.
///
/// A binary expression has the span of the text it is built from: `whole`
/// where it is given, which is the span of all of `pairs` for the expression
/// that takes them all; else the span from the start of its first operand to
/// the end of its last.
pub open spec fn grouped(
    names: Names,
    pairs: Seq<Tree>,
    at: int,
    shape: Shape,
    whole: Option<Span>,
) -> (ExpressionView, Names)
    decreases pairs, 0nat, shape,
{
    match shape {
        Shape::Leaf => if 0 <= at < pairs.len() {
            primary_of(names, pairs[at])
        } else {
            arbitrary()
        },
        Shape::Node(left, right) => {
            let operator = at + 2 * left.leaves() - 1;
            let last = at + 2 * shape.leaves() - 2;
            let span = match whole {
                Some(span) => span,
                None => joined(pairs[at].span, pairs[last].span),
            };
            let (lhs, then) = grouped(names, pairs, at, *left, None);
            let (rhs, after) = grouped(then, pairs, operator + 1, *right, None);
            (
                ExpressionView {
                    kind: ExpressionKindView::Binary(
                        binop_of(pairs[operator].rule),
                        Box::new(lhs),
                        Box::new(rhs),
                    ),
                    span,
                },
                after,
            )
        },
    }
}

/// The expressions that the trees of `trees` hold, from position `at` on.
pub open spec fn expressions_from(names: Names, trees: Seq<Tree>, at: int) -> (
    Seq<ExpressionView>,
    Names,
)
    decreases trees, trees.len() - at,
{
    if 0 <= at < trees.len() {
        let (first, then) = expression_of(names, trees[at].children, trees[at].span);
        let (rest, after) = expressions_from(then, trees, at + 1);
        (seq![first] + rest, after)
    } else {
        (Seq::empty(), names)
    }
}

pub open spec fn parenthesis_of(tree: Tree, rule: Rule) -> Option<Parenthesis> {
    if tree.rule == rule {
        Some(Parenthesis { span: tree.span })
    } else {
        None
    }
}

/// The stream instance of an instance's node: the stream's name, then the
/// arguments.
pub open spec fn instance_of(names: Names, tree: Tree) -> (StreamInstanceView, Names)
    decreases tree, 0nat,
{
    if tree.children.len() >= 1 {
        let (stream_identifier, named) = ident_of(names, tree.children[0]);
        let (arguments, after) = expressions_from(named, tree.children, 1);
        (StreamInstanceView { stream_identifier, arguments }, after)
    } else {
        arbitrary()
    }
}

/// The lookup of a lookup node, with the span `span`: the stream instance,
/// then a discrete offset where an expression follows, and a real-time
/// offset, with the window operation if there is one, where a duration does.
pub open spec fn lookup_of(names: Names, tree: Tree, span: Span) -> (ExpressionView, Names)
    decreases tree, 0nat,
{
    if tree.children.len() >= 2 {
        let second = tree.children[1];
        let (instance, then) = instance_of(names, tree.children[0]);
        if second.rule == Rule::Duration {
            if second.children.len() >= 2 {
                let (duration, after) = expression_of(
                    then,
                    second.children[0].children,
                    second.children[0].span,
                );
                let window = if tree.children.len() >= 3 {
                    window_of(tree.children[2].rule)
                } else {
                    None
                };
                (
                    ExpressionView {
                        kind: ExpressionKindView::Lookup(
                            instance,
                            OffsetView::RealTimeOffset(
                                Box::new(duration),
                                unit_of(second.children[1].text).unwrap(),
                            ),
                            window,
                        ),
                        span,
                    },
                    after,
                )
            } else {
                arbitrary()
            }
        } else {
            let (steps, after) = expression_of(then, second.children, second.span);
            (
                ExpressionView {
                    kind: ExpressionKindView::Lookup(
                        instance,
                        OffsetView::DiscreteOffset(Box::new(steps)),
                        None,
                    ),
                    span,
                },
                after,
            )
        }
    } else {
        arbitrary()
    }
}

/// The function call of a call's node, with the span `span`: the function
/// that the name stands for, and the arguments.
pub open spec fn function_of(names: Names, tree: Tree, span: Span) -> (ExpressionView, Names)
    decreases tree, 0nat,
{
    if tree.children.len() >= 1 {
        let (arguments, after) = expressions_from(names, tree.children, 1);
        (
            ExpressionView {
                kind: ExpressionKindView::Function(
                    function_kind_of(tree.children[0].text).unwrap(),
                    arguments,
                ),
                span,
            },
            after,
        )
    } else {
        arbitrary()
    }
}

/// The expression of an operand.
pub open spec fn primary_of(names: Names, tree: Tree) -> (ExpressionView, Names)
    decreases tree, 1nat,
{
    match tree.rule {
        Rule::Literal => (
            ExpressionView { kind: ExpressionKindView::Lit(literal_of(tree)), span: tree.span },
            names,
        ),
        Rule::Ident => (
            ExpressionView { kind: ExpressionKindView::Ident(ident_of(names, tree).0), span: tree.span },
            ident_of(names, tree).1,
        ),
        Rule::ParenthesizedExpression => if tree.children.len() >= 3 {
            let (inner, after) = expression_of(names, tree.children[1].children, tree.children[1].span);
            (
                ExpressionView {
                    kind: ExpressionKindView::ParenthesizedExpression(
                        parenthesis_of(tree.children[0], Rule::OpeningParenthesis),
                        Box::new(inner),
                        parenthesis_of(tree.children[2], Rule::ClosingParenthesis),
                    ),
                    span: tree.span,
                },
                after,
            )
        } else {
            arbitrary()
        },
        Rule::DefaultExpr => if tree.children.len() >= 2 {
            let (lookup, then) = lookup_of(names, tree.children[0], tree.children[0].span);
            let (fallback, after) = expression_of(
                then,
                tree.children[1].children,
                tree.children[1].span,
            );
            (
                ExpressionView {
                    kind: ExpressionKindView::Default(Box::new(lookup), Box::new(fallback)),
                    span: tree.span,
                },
                after,
            )
        } else {
            arbitrary()
        },
        Rule::LookupExpr => lookup_of(names, tree, tree.span),
        Rule::UnaryExpr => if tree.children.len() >= 2 {
            let (operand, after) = expression_of(
                names,
                tree.children[1].children,
                tree.children[1].span,
            );
            match tree.children[0].rule {
                Rule::Add => (operand, after),
                Rule::Subtract => (
                    ExpressionView {
                        kind: ExpressionKindView::Unary(UnOp::Neg, Box::new(operand)),
                        span: tree.span,
                    },
                    after,
                ),
                _ => (
                    ExpressionView {
                        kind: ExpressionKindView::Unary(UnOp::Not, Box::new(operand)),
                        span: tree.span,
                    },
                    after,
                ),
            }
        } else {
            arbitrary()
        },
        Rule::TernaryExpr => {
            let (parts, after) = expressions_from(names, tree.children, 0);
            (
                ExpressionView {
                    kind: ExpressionKindView::Ite(
                        Box::new(parts[0]),
                        Box::new(parts[1]),
                        Box::new(parts[2]),
                    ),
                    span: tree.span,
                },
                after,
            )
        },
        Rule::Tuple => {
            let (elements, after) = expressions_from(names, tree.children, 0);
            (ExpressionView { kind: ExpressionKindView::Tuple(elements), span: tree.span }, after)
        },
        Rule::Expr => expression_of(names, tree.children, tree.span),
        Rule::FunctionExpr => function_of(names, tree, tree.span),
        _ => arbitrary(),
    }
}

pub open spec fn constant_of(names: Names, tree: Tree) -> (ConstantView, Names) {
    let (name, named) = ident_of(names, tree.children[0]);
    let (ty, after) = type_of(named, tree.children[1]);
    (
        ConstantView {
            name: Some(name),
            ty: Some(ty),
            literal: Some(literal_of(tree.children[2])),
            span: tree.span,
        },
        after,
    )
}

/// The span from the start of `first` to the end of `last`.
pub open spec fn joined(first: Span, last: Span) -> Span {
    Span { start: first.start, end: last.end }
}

/// The parameters that `trees` declares from position `at` on: names, each
/// followed by its type.
pub open spec fn parameters_from(names: Names, trees: Seq<Tree>, at: int) -> (
    Seq<ParameterView>,
    Names,
)
    decreases trees.len() - at,
{
    if 0 <= at && at + 1 < trees.len() {
        let (name, named) = ident_of(names, trees[at]);
        let (ty, then) = type_of(named, trees[at + 1]);
        let (rest, after) = parameters_from(then, trees, at + 2);
        (seq![ParameterView { name, ty, span: joined(trees[at].span, trees[at + 1].span) }] + rest, after)
    } else {
        (Seq::empty(), names)
    }
}

/// The name, the parameters and the type of the stream that `trees` declares
/// at position `at`.
pub open spec fn stream_head_of(names: Names, trees: Seq<Tree>, at: int) -> (
    (Ident, Seq<ParameterView>, TypeView),
    Names,
) {
    let (name, named) = ident_of(names, trees[at]);
    let (params, then) = if stream_head_len(trees, at) == 3 {
        parameters_from(named, trees[at + 1].children, 0)
    } else {
        (Seq::empty(), named)
    };
    let (ty, after) = type_of(then, trees[at + stream_head_len(trees, at) - 1]);
    ((name, params, ty), after)
}

/// The inputs that an input clause declares from position `at` of its
/// children on.
pub open spec fn inputs_from(names: Names, trees: Seq<Tree>, at: int) -> (Seq<InputView>, Names)
    decreases trees.len() - at,
{
    let next = at + stream_head_len(trees, at);
    if 0 <= at && next <= trees.len() {
        let ((name, params, ty), then) = stream_head_of(names, trees, at);
        let (rest, after) = inputs_from(then, trees, next);
        (
            seq![
                InputView {
                    id: 0,
                    name,
                    params,
                    ty,
                    span: joined(trees[at].span, trees[next - 1].span),
                },
            ] + rest,
            after,
        )
    } else {
        (Seq::empty(), names)
    }
}

pub open spec fn output_of(names: Names, tree: Tree) -> (OutputView, Names) {
    let len = stream_head_len(tree.children, 0);
    let ((name, params, ty), then) = stream_head_of(names, tree.children, 0);
    let (expression, after) = expression_of(then, tree.children[len].children, tree.children[len].span);
    (OutputView { id: 0, name, params, ty, expression, span: tree.span }, after)
}

pub open spec fn trigger_of(names: Names, tree: Tree) -> (TriggerView, Names) {
    let at = trigger_expression_at(tree);
    let (name, named) = if at == 1 {
        (Some(ident_of(names, tree.children[0]).0), ident_of(names, tree.children[0]).1)
    } else {
        (None, names)
    };
    let (expression, then) = expression_of(named, tree.children[at].children, tree.children[at].span);
    let (message, after) = if at + 1 < tree.children.len() {
        (
            Some(symbol_for(then, tree.children[at + 1].text)),
            interned(then, tree.children[at + 1].text),
        )
    } else {
        (None, then)
    };
    (TriggerView { id: 0, name, expression, message, span: tree.span }, after)
}

/// The specification `lola` with the declarations that `trees` holds from
/// position `at` on added to it.
pub open spec fn declarations_from(lola: LolaSpecView, trees: Seq<Tree>, at: int) -> LolaSpecView
    decreases trees.len() - at,
{
    if 0 <= at < trees.len() {
        let tree = trees[at];
        let next = match tree.rule {
            Rule::ConstantStream => LolaSpecView {
                constants: lola.constants.push(constant_of(lola.symbols, tree).0),
                symbols: constant_of(lola.symbols, tree).1,
                ..lola
            },
            Rule::InputStream => LolaSpecView {
                inputs: lola.inputs + inputs_from(lola.symbols, tree.children, 0).0,
                symbols: inputs_from(lola.symbols, tree.children, 0).1,
                ..lola
            },
            Rule::OutputStream => LolaSpecView {
                outputs: lola.outputs.push(output_of(lola.symbols, tree).0),
                symbols: output_of(lola.symbols, tree).1,
                ..lola
            },
            Rule::Trigger => LolaSpecView {
                trigger: lola.trigger.push(trigger_of(lola.symbols, tree).0),
                symbols: trigger_of(lola.symbols, tree).1,
                ..lola
            },
            _ => lola,
        };
        declarations_from(next, trees, at + 1)
    } else {
        lola
    }
}

/// As many expressions are built as there are trees from `at` on.
pub proof fn lemma_expressions_count(names: Names, trees: Seq<Tree>, at: int)
    requires
        0 <= at,
    ensures
        expressions_from(names, trees, at).0.len() == if at <= trees.len() {
            trees.len() - at
        } else {
            0
        },
    decreases trees.len() - at,
{
    if at < trees.len() {
        let then = expression_of(names, trees[at].children, trees[at].span).1;
        lemma_expressions_count(then, trees, at + 1);
    }
}

/// A unary plus changes nothing: its node builds what its operand builds,
/// and no unary expression.
pub proof fn lemma_unary_plus_is_dropped(names: Names, tree: Tree)
    requires
        tree.rule == Rule::UnaryExpr,
        tree.children.len() >= 2,
        tree.children[0].rule == Rule::Add,
    ensures
        primary_of(names, tree) == expression_of(
            names,
            tree.children[1].children,
            tree.children[1].span,
        ),
{
}

/// Parentheses around one expression build a parenthesized expression and
/// never a tuple; a tuple's node builds a tuple of as many elements as it
/// has children, which is never one.
pub proof fn lemma_parentheses_are_no_tuple(names: Names, tree: Tree)
    requires
        valid_primary(tree),
    ensures
        tree.rule == Rule::ParenthesizedExpression ==> primary_of(names, tree).0.kind
            is ParenthesizedExpression,
        tree.rule == Rule::Tuple ==> {
            &&& primary_of(names, tree).0.kind matches ExpressionKindView::Tuple(elements)
            &&& elements.len() == tree.children.len()
            &&& elements.len() != 1
        },
{
    if tree.rule == Rule::Tuple {
        lemma_expressions_count(names, tree.children, 0);
    }
}

/// What is built of a node has the span of the node, unless the node is a
/// nested expression or a unary plus, which build what is inside them.
pub proof fn lemma_span_of_operand(names: Names, tree: Tree)
    requires
        valid_primary(tree),
        tree.rule != Rule::Expr,
        !(tree.rule == Rule::UnaryExpr && tree.children[0].rule == Rule::Add),
    ensures
        primary_of(names, tree).0.span == tree.span,
{
}

/// The specification of a whole parse tree.
pub open spec fn specification_of(tree: Tree) -> LolaSpecView {
    declarations_from(LolaSpecView::empty(Seq::empty()), tree.children, 0)
}

} // verus!
