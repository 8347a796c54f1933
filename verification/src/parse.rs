//! The builder: from a parse tree to the syntax tree of a specification.

use crate::ast::{
    boxed_type_views, constant_views, expression_views, input_views, literal_views, output_views,
    parameter_views, trigger_views, Constant, Expression, ExpressionKind, ExpressionView, Ident,
    Input, InputView, Literal, LolaSpec, LolaSpecView, Offset, Output, Parameter, ParameterView,
    Parenthesis, Span, StreamInstance, Trigger, Type, TypeView, UnOp,
};
use crate::built::{
    constant_of, declarations_from, expression_of, expressions_from, function_of, grouped,
    ident_of, inputs_from, instance_of, literal_of, lookup_of, output_of, parameters_from,
    primary_of, specification_of, stream_head_of, trigger_of, type_of, types_from,
};
use crate::climber::{climbed, grouping, is_binary_operator, precedence, Shape};
use crate::grammar::{syntax_tree, LolaParser, ParseError};
use crate::symbols::{capacity, SymbolTable};
use crate::syntax::{
    rules_of, stream_head_len, valid_arguments, valid_constant,
    valid_expression, valid_input_list, valid_inputs, valid_literal, valid_lookup, valid_output,
    valid_parameters, valid_primary, valid_specification, valid_stream_head, valid_trigger,
    valid_type,
};
use crate::tree::{
    lemma_child_sizes, lemma_size_of_children, lemma_sizes_split, sizes, tree_views, ParseTree, Rule,
};
use crate::shapes::lemma_grammar_fits_builder;
use crate::validity::room_left;
use crate::words::{
    binary_operator, function_kind, function_kind_of, parse_integer, time_unit, window_operation,
};
use vstd::pervasive::unreached;
use vstd::prelude::*;
use vstd::string::*;

verus! {

/// Transforms an identifier's node into an `Ident`, interning its text.
pub fn parse_ident(symbols: &mut SymbolTable, pair: &ParseTree) -> (ident: Ident)
    requires
        old(symbols).wf(),
        pair@.rule == Rule::Ident,
        old(symbols)@.len() + pair@.size() <= capacity(),
    ensures
        final(symbols).wf(),
        (ident, final(symbols)@) == ident_of(old(symbols)@, pair@),
        old(symbols)@.len() <= final(symbols)@.len() <= old(symbols)@.len() + pair@.size(),
        ident.name.0 < final(symbols)@.len(),
{
    let symbol = symbols.get_symbol_for(pair.text.as_str());
    Ident::new(symbol, pair.span)
}

/// Transforms a type's node into a `Type`: a named type where the node holds
/// an identifier, a tuple of the types it holds where it does not.
pub fn parse_type(symbols: &mut SymbolTable, pair: &ParseTree) -> (ty: Type)
    requires
        old(symbols).wf(),
        valid_type(pair@),
        old(symbols)@.len() + pair@.size() <= capacity(),
    ensures
        final(symbols).wf(),
        (ty@, final(symbols)@) == type_of(old(symbols)@, pair@),
        old(symbols)@.len() <= final(symbols)@.len() <= old(symbols)@.len() + pair@.size(),
    decreases pair,
{
    proof {
        pair.lemma_children();
        lemma_size_of_children(pair@, 0);
    }
    if pair.children.len() >= 1 && pair.children[0].rule == Rule::Ident {
        let name = &pair.children[0];
        proof {
            lemma_sizes_split(pair@.children, 0, 0);
        }
        let symbol = symbols.get_symbol_for(name.text.as_str());
        return Type::new_simple(symbol, name.span);
    }
    let ghost names = symbols@;
    let ghost trees = pair@.children;
    proof {
        if trees.len() >= 1 {
            assert(trees[0] == pair.children@[0]@);
            assert(trees[0].rule != Rule::Ident);
        }

        assert(boxed_type_views(Seq::<Box<Type>>::empty()) + types_from(names, trees, 0).0
            =~= types_from(names, trees, 0).0);
    }
    let mut tuple: Vec<Box<Type>> = Vec::new();
    let mut i: usize = 0;
    while i < pair.children.len()
        invariant
            i <= pair.children@.len(),
            trees == pair@.children,
            trees == tree_views(pair.children@),
            symbols.wf(),
            forall|j: int| #![trigger trees[j]] 0 <= j < trees.len() ==> valid_type(trees[j]),
            types_from(names, trees, 0) == (
                boxed_type_views(tuple@) + types_from(symbols@, trees, i as int).0,
                types_from(symbols@, trees, i as int).1,
            ),
            names.len() <= symbols@.len(),
            symbols@.len() + sizes(trees, i as int) <= names.len() + sizes(trees, 0),
            names.len() + sizes(trees, 0) <= capacity(),
        decreases pair.children@.len() - i,
    {
        proof {
            lemma_sizes_split(trees, 0, i as int);
        }
        let ghost before = symbols@;
        let ghost built = boxed_type_views(tuple@);
        let element = parse_type(symbols, &pair.children[i]);
        tuple.push(Box::new(element));
        proof {
            let rest = types_from(symbols@, trees, i + 1).0;
            assert(boxed_type_views(tuple@) =~= built.push(element@));
            assert(built + (seq![element@] + rest) =~= built.push(element@) + rest);
        }
        i += 1;
    }
    proof {
        assert(boxed_type_views(tuple@) + Seq::<TypeView>::empty() =~= boxed_type_views(tuple@));
    }
    Type::new_tuple(tuple, pair.span)
}

/// Transforms a literal's node into a `Literal`. A number becomes an integer
/// where its text parses as one, and keeps its text where it does not.
pub fn parse_literal(pair: &ParseTree) -> (literal: Literal)
    requires
        valid_literal(pair@),
    ensures
        literal@ == literal_of(pair@),
    decreases pair,
{
    proof {
        pair.lemma_children();
    }
    let inner = &pair.children[0];
    proof {
        inner.lemma_children();
    }
    assert(inner@ == pair@.children[0]);
    match inner.rule {
        Rule::NumberLiteral => {
            match parse_integer(inner.text.as_str()) {
                Some(value) => Literal::new_int(value, inner.span),
                None => Literal::new_float(inner.text.clone(), inner.span),
            }
        },
        Rule::TupleLiteral => {
            let mut elements: Vec<Literal> = Vec::new();
            let mut i: usize = 0;
            while i < inner.children.len()
                invariant
                    i <= inner.children@.len(),
                    elements@.len() == i,
                    inner@.children == tree_views(inner.children@),
                    inner@ == pair@.children[0],
                    *inner == pair.children@[0],
                    pair.children@.len() >= 1,
                    forall|j: int|
                        #![trigger inner@.children[j]]
                        0 <= j < inner@.children.len() ==> valid_literal(inner@.children[j]),
                    forall|j: int| 0 <= j < i ==> (#[trigger] elements@[j])@ == literal_of(inner@.children[j]),
                decreases inner.children@.len() - i,
            {
                proof {
                    inner.lemma_children();
                }
                let element = parse_literal(&inner.children[i]);
                elements.push(element);
                i += 1;
            }
            proof {
                assert(literal_views(elements@) =~= literal_of(pair@).kind->Tuple_0);
            }
            Literal::new_tuple(elements, inner.span)
        },
        Rule::True => Literal::new_bool(true, inner.span),
        Rule::False => Literal::new_bool(false, inner.span),
        _ => unreached(),
    }
}


/// The rules of `pairs`, in order.
fn rules(pairs: &Vec<ParseTree>) -> (rules: Vec<Rule>)
    ensures
        rules@ == rules_of(tree_views(pairs@)),
{
    let mut rules: Vec<Rule> = Vec::new();
    let mut i: usize = 0;
    while i < pairs.len()
        invariant
            i <= pairs@.len(),
            rules@.len() == i,
            forall|j: int| 0 <= j < i ==> rules@[j] == (#[trigger] pairs@[j]).rule,
        decreases pairs@.len() - i,
    {
        rules.push(pairs[i].rule);
        i += 1;
    }
    assert(rules@ =~= rules_of(tree_views(pairs@)));
    rules
}

/// Builds the expression of a run of operands and binary operators, which
/// stands at `span`. The precedence climber groups the run; every operand is
/// built as `build_primary` builds it, from left to right, and every operator
/// becomes a binary expression with the span of the text that it takes in.
pub fn build_expression_ast(symbols: &mut SymbolTable, pairs: &Vec<ParseTree>, span: Span) -> (expression:
    Expression)
    requires
        old(symbols).wf(),
        valid_expression(tree_views(pairs@)),
        old(symbols)@.len() + sizes(tree_views(pairs@), 0) <= capacity(),
    ensures
        final(symbols).wf(),
        (expression@, final(symbols)@) == expression_of(old(symbols)@, tree_views(pairs@), span),
        climbed(precedence(), rules_of(tree_views(pairs@))).leaves() == (pairs@.len() + 1) / 2,
        old(symbols)@.len() <= final(symbols)@.len() <= old(symbols)@.len() + sizes(
            tree_views(pairs@),
            0,
        ),
    decreases pairs, 1nat,
{
    let rules = rules(pairs);
    let shape = grouping(&rules);
    let (expression, _) = assemble(symbols, pairs, 0, shape, Some(span));
    expression
}

/// Builds the part of a run that starts at position `at` and has as many
/// operands as `shape` has leaves, grouped as `shape` says. Also returns the
/// position behind that part.
///
/// The binary expression that is built of the part has the span `whole`
/// where one is given, and else the span from the start of the part's first
/// operand to the end of its last; those inside it have the spans of their
/// own parts.
pub fn assemble(
    symbols: &mut SymbolTable,
    pairs: &Vec<ParseTree>,
    at: usize,
    shape: Shape,
    whole: Option<Span>,
) -> (out: (Expression, usize))
    requires
        old(symbols).wf(),
        valid_expression(tree_views(pairs@)),
        at % 2 == 0,
        at + 2 * shape.leaves() - 1 <= pairs@.len(),
        old(symbols)@.len() + sizes(tree_views(pairs@), at as int) <= capacity(),
    ensures
        final(symbols).wf(),
        (out.0@, final(symbols)@) == grouped(old(symbols)@, tree_views(pairs@), at as int, shape, whole),
        out.1 == at + 2 * shape.leaves() - 1,
        old(symbols)@.len() <= final(symbols)@.len(),
        final(symbols)@.len() + sizes(tree_views(pairs@), out.1 as int) <= old(symbols)@.len() + sizes(
            tree_views(pairs@),
            at as int,
        ),
    decreases pairs, 0nat, shape,
{
    let ghost views = tree_views(pairs@);
    match shape {
        Shape::Leaf => {
            proof {
                lemma_sizes_split(views, at as int, at as int);
                assert(views[at as int] == pairs@[at as int]@);
            }
            let expression = build_primary(symbols, &pairs[at]);
            (expression, at + 1)
        },
        Shape::Node(left, right) => {
            proof {
                left.lemma_leaves_positive();
                right.lemma_leaves_positive();
                assert(shape.leaves() == left.leaves() + right.leaves());
            }
            assert(pairs@.len() == pairs.len());
            let (lhs, operator) = assemble(symbols, pairs, at, *left, None);
            proof {
                lemma_sizes_split(views, operator as int, operator as int);
                assert(is_binary_operator(rules_of(views)[operator as int]));
                assert(views[operator as int] == pairs@[operator as int]@);
            }
            let op = binary_operator(pairs[operator].rule);
            let (rhs, end) = assemble(symbols, pairs, operator + 1, *right, None);
            proof {
                assert(views[at as int] == pairs@[at as int]@);
                assert(views[end - 1] == pairs@[end - 1]@);
            }
            let span = match whole {
                Some(span) => span,
                None => Span::new(pairs[at].span.start, pairs[end - 1].span.end),
            };
            (Expression::new(ExpressionKind::Binary(op, Box::new(lhs), Box::new(rhs)), span), end)
        },
    }
}

/// Builds the expression that each of `pairs` holds, from position `from` on.
pub fn parse_vec_of_expressions(symbols: &mut SymbolTable, pairs: &Vec<ParseTree>, from: usize) -> (expressions:
    Vec<Box<Expression>>)
    requires
        old(symbols).wf(),
        valid_arguments(tree_views(pairs@), from as int),
        old(symbols)@.len() + sizes(tree_views(pairs@), from as int) <= capacity(),
    ensures
        final(symbols).wf(),
        (expression_views(expressions@), final(symbols)@) == expressions_from(
            old(symbols)@,
            tree_views(pairs@),
            from as int,
        ),
        expressions@.len() == if from <= pairs@.len() {
            pairs@.len() - from
        } else {
            0
        },
        old(symbols)@.len() <= final(symbols)@.len() <= old(symbols)@.len() + sizes(
            tree_views(pairs@),
            from as int,
        ),
    decreases pairs, 0nat,
{
    let ghost names = symbols@;
    let ghost trees = tree_views(pairs@);
    let mut expressions: Vec<Box<Expression>> = Vec::new();
    let mut i: usize = from;
    proof {
        assert(expression_views(expressions@) + expressions_from(names, trees, from as int).0
            =~= expressions_from(names, trees, from as int).0);
    }
    while i < pairs.len()
        invariant
            from <= i,
            i <= pairs@.len() || i == from,
            trees == tree_views(pairs@),
            symbols.wf(),
            valid_arguments(trees, from as int),
            expressions_from(names, trees, from as int) == (
                expression_views(expressions@) + expressions_from(symbols@, trees, i as int).0,
                expressions_from(symbols@, trees, i as int).1,
            ),
            expressions@.len() == i - from,
            names.len() <= symbols@.len(),
            symbols@.len() + sizes(trees, i as int) <= names.len() + sizes(trees, from as int),
            names.len() + sizes(trees, from as int) <= capacity(),
        decreases pairs@.len() - i,
    {
        let pair = &pairs[i];
        proof {
            lemma_sizes_split(trees, from as int, i as int);
            pair.lemma_children();
            lemma_size_of_children(pair@, 0);
            assert(trees[i as int] == pair@);
        }
        let ghost built = expression_views(expressions@);
        let expression = build_expression_ast(symbols, &pair.children, pair.span);
        expressions.push(Box::new(expression));
        proof {
            let rest = expressions_from(symbols@, trees, i + 1).0;
            assert(expression_views(expressions@) =~= built.push(expression@));
            assert(built + (seq![expression@] + rest) =~= built.push(expression@) + rest);
        }
        i += 1;
    }
    proof {
        assert(expression_views(expressions@) + Seq::<ExpressionView>::empty() =~= expression_views(
            expressions@,
        ));
    }
    expressions
}


/// Builds the stream instance of a lookup: the stream's name, then its
/// arguments.
pub fn parse_stream_instance(symbols: &mut SymbolTable, instance: &ParseTree) -> (stream: StreamInstance)
    requires
        old(symbols).wf(),
        instance@.children.len() >= 1,
        instance@.children[0].rule == Rule::Ident,
        valid_arguments(instance@.children, 1),
        old(symbols)@.len() + instance@.size() <= capacity(),
    ensures
        final(symbols).wf(),
        (stream@, final(symbols)@) == instance_of(old(symbols)@, instance@),
        old(symbols)@.len() <= final(symbols)@.len() <= old(symbols)@.len() + instance@.size(),
    decreases instance, 0nat,
{
    proof {
        instance.lemma_children();
        lemma_child_sizes(instance@, 0);
    }
    // Parse the stream identifier in isolation.
    let stream_identifier = parse_ident(symbols, &instance.children[0]);
    // Parse remaining children, aka the arguments.
    let arguments = parse_vec_of_expressions(symbols, &instance.children, 1);
    StreamInstance { stream_identifier, arguments }
}

/// Builds a lookup, with the span `span`: a stream instance, then a discrete
/// offset where an expression follows it, and a real-time offset where a
/// duration does, with the window operation if there is one.
pub fn parse_lookup_expression(symbols: &mut SymbolTable, pair: &ParseTree, span: Span) -> (expression:
    Expression)
    requires
        old(symbols).wf(),
        valid_lookup(pair@),
        old(symbols)@.len() + pair@.size() <= capacity(),
    ensures
        final(symbols).wf(),
        (expression@, final(symbols)@) == lookup_of(old(symbols)@, pair@, span),
        old(symbols)@.len() <= final(symbols)@.len() <= old(symbols)@.len() + pair@.size(),
    decreases pair, 0nat,
{
    proof {
        pair.lemma_children();
        lemma_child_sizes(pair@, 0);
        lemma_child_sizes(pair@, 1);
    }
    let stream_instance = parse_stream_instance(symbols, &pair.children[0]);
    let second_child = &pair.children[1];
    proof {
        second_child.lemma_children();
    }
    match second_child.rule {
        Rule::Expr => {
            // Discrete offset
            let offset = build_expression_ast(symbols, &second_child.children, second_child.span);
            let offset = Offset::DiscreteOffset(Box::new(offset));
            Expression::new(ExpressionKind::Lookup(stream_instance, offset, None), span)
        },
        Rule::Duration => {
            // Real time offset
            let time_interval = &second_child.children[0];
            proof {
                time_interval.lemma_children();
                lemma_child_sizes(second_child@, 0);
            }
            let time_interval = build_expression_ast(
                symbols,
                &time_interval.children,
                time_interval.span,
            );
            let unit = match time_unit(&second_child.children[1].text) {
                Some(unit) => unit,
                None => unreached(),
            };
            let offset = Offset::RealTimeOffset(Box::new(time_interval), unit);
            // Now check whether it is a window or not.
            let aggregation = if pair.children.len() >= 3 {
                window_operation(pair.children[2].rule)
            } else {
                None
            };
            Expression::new(ExpressionKind::Lookup(stream_instance, offset, aggregation), span)
        },
        _ => unreached(),
    }
}

/// Builds a function call, with the span `span`: the function that the name
/// stands for, and the arguments.
pub fn build_function_expression(symbols: &mut SymbolTable, pair: &ParseTree, span: Span) -> (expression:
    Expression)
    requires
        old(symbols).wf(),
        pair@.children.len() >= 1,
        function_kind_of(pair@.children[0].text) is Some,
        valid_arguments(pair@.children, 1),
        old(symbols)@.len() + pair@.size() <= capacity(),
    ensures
        final(symbols).wf(),
        (expression@, final(symbols)@) == function_of(old(symbols)@, pair@, span),
        old(symbols)@.len() <= final(symbols)@.len() <= old(symbols)@.len() + pair@.size(),
    decreases pair, 0nat,
{
    proof {
        pair.lemma_children();
        lemma_child_sizes(pair@, 0);
    }
    let function_kind = match function_kind(&pair.children[0].text) {
        Some(kind) => kind,
        None => unreached(),
    };
    let args = parse_vec_of_expressions(symbols, &pair.children, 1);
    Expression::new(ExpressionKind::Function(function_kind, args), span)
}

/// Builds the expression of one operand.
///
/// A leading `+` is dropped: the operand is returned as it is. A node with
/// parentheses keeps a parenthesis only where the tree has one.
pub fn build_primary(symbols: &mut SymbolTable, pair: &ParseTree) -> (expression: Expression)
    requires
        old(symbols).wf(),
        valid_primary(pair@),
        old(symbols)@.len() + pair@.size() <= capacity(),
    ensures
        final(symbols).wf(),
        (expression@, final(symbols)@) == primary_of(old(symbols)@, pair@),
        old(symbols)@.len() <= final(symbols)@.len() <= old(symbols)@.len() + pair@.size(),
    decreases pair, 1nat,
{
    proof {
        pair.lemma_children();
        lemma_size_of_children(pair@, 0);
    }
    let span = pair.span;
    match pair.rule {
        Rule::Literal => Expression::new(ExpressionKind::Lit(parse_literal(pair)), span),
        Rule::Ident => Expression::new(ExpressionKind::Ident(parse_ident(symbols, pair)), span),
        Rule::ParenthesizedExpression => {
            let opp = &pair.children[0];
            let inner_expression = &pair.children[1];
            let closing = &pair.children[2];
            proof {
                lemma_child_sizes(pair@, 1);
                inner_expression.lemma_children();
            }
            let opening_parenthesis = if opp.rule == Rule::OpeningParenthesis {
                Some(Box::new(Parenthesis::new(opp.span)))
            } else {
                None
            };
            let closing_parenthesis = if closing.rule == Rule::ClosingParenthesis {
                Some(Box::new(Parenthesis::new(closing.span)))
            } else {
                None
            };
            let inner = build_expression_ast(
                symbols,
                &inner_expression.children,
                inner_expression.span,
            );
            Expression::new(
                ExpressionKind::ParenthesizedExpression(
                    opening_parenthesis,
                    Box::new(inner),
                    closing_parenthesis,
                ),
                span,
            )
        },
        Rule::DefaultExpr => {
            let lookup = &pair.children[0];
            let default = &pair.children[1];
            proof {
                lemma_child_sizes(pair@, 0);
                lemma_child_sizes(pair@, 1);
                default.lemma_children();
            }
            let lookup = parse_lookup_expression(symbols, lookup, lookup.span);
            let default = build_expression_ast(symbols, &default.children, default.span);
            Expression::new(ExpressionKind::Default(Box::new(lookup), Box::new(default)), span)
        },
        Rule::LookupExpr => parse_lookup_expression(symbols, pair, span),
        Rule::UnaryExpr => {
            // First child is the operator, second the operand.
            let pest_operator = &pair.children[0];
            let operand = &pair.children[1];
            proof {
                lemma_child_sizes(pair@, 1);
                operand.lemma_children();
            }
            let operand = build_expression_ast(symbols, &operand.children, operand.span);
            let operator = match pest_operator.rule {
                Rule::Add => {
                    // Discard unary plus because it is semantically null.
                    return operand;
                },
                Rule::Subtract => UnOp::Neg,
                Rule::Neg => UnOp::Not,
                _ => unreached(),
            };
            Expression::new(ExpressionKind::Unary(operator, Box::new(operand)), span)
        },
        Rule::TernaryExpr => {
            let mut children = parse_vec_of_expressions(symbols, &pair.children, 0);
            let ghost parts = expression_views(children@);
            let condition = children.remove(0);
            let consequence = children.remove(0);
            let alternative = children.remove(0);
            proof {
                assert(condition@ == parts[0]);
                assert(consequence@ == parts[1]);
                assert(alternative@ == parts[2]);
            }
            Expression::new(ExpressionKind::Ite(condition, consequence, alternative), span)
        },
        Rule::Tuple => {
            let elements = parse_vec_of_expressions(symbols, &pair.children, 0);
            Expression::new(ExpressionKind::Tuple(elements), span)
        },
        Rule::Expr => build_expression_ast(symbols, &pair.children, span),
        Rule::FunctionExpr => build_function_expression(symbols, pair, span),
        _ => unreached(),
    }
}


/// Transforms a constant's node into a `Constant`: its name, its type, and
/// its value.
pub fn parse_constant(symbols: &mut SymbolTable, pair: &ParseTree) -> (constant: Constant)
    requires
        old(symbols).wf(),
        valid_constant(pair@),
        old(symbols)@.len() + pair@.size() <= capacity(),
    ensures
        final(symbols).wf(),
        (constant@, final(symbols)@) == constant_of(old(symbols)@, pair@),
        old(symbols)@.len() <= final(symbols)@.len() <= old(symbols)@.len() + pair@.size(),
{
    proof {
        pair.lemma_children();
        lemma_child_sizes(pair@, 0);
        lemma_child_sizes(pair@, 1);
    }
    let span = pair.span;
    let name = parse_ident(symbols, &pair.children[0]);
    let ty = parse_type(symbols, &pair.children[1]);
    let literal = parse_literal(&pair.children[2]);
    Constant { name: Some(name), ty: Some(ty), literal: Some(literal), span }
}

/// Transforms a parameter list into the parameters it declares: names, each
/// followed by its type.
pub fn parse_parameters(symbols: &mut SymbolTable, pair: &ParseTree) -> (parameters: Vec<Parameter>)
    requires
        old(symbols).wf(),
        valid_parameters(pair@),
        old(symbols)@.len() + pair@.size() <= capacity(),
    ensures
        final(symbols).wf(),
        (parameter_views(parameters@), final(symbols)@) == parameters_from(
            old(symbols)@,
            pair@.children,
            0,
        ),
        parameters@.len() == pair@.children.len() / 2,
        old(symbols)@.len() <= final(symbols)@.len() <= old(symbols)@.len() + pair@.size(),
{
    proof {
        pair.lemma_children();
        lemma_size_of_children(pair@, 0);
    }
    let ghost names = symbols@;
    let ghost trees = pair@.children;
    let mut parameters: Vec<Parameter> = Vec::new();
    let mut i: usize = 0;
    proof {
        assert(parameter_views(parameters@) + parameters_from(names, trees, 0).0 =~= parameters_from(
            names,
            trees,
            0,
        ).0);
    }
    while i < pair.children.len()
        invariant
            i <= pair.children@.len(),
            i % 2 == 0,
            trees == pair@.children,
            trees == tree_views(pair.children@),
            symbols.wf(),
            valid_parameters(pair@),
            parameters_from(names, trees, 0) == (
                parameter_views(parameters@) + parameters_from(symbols@, trees, i as int).0,
                parameters_from(symbols@, trees, i as int).1,
            ),
            parameters@.len() == i / 2,
            names.len() <= symbols@.len(),
            symbols@.len() + sizes(trees, i as int) <= names.len() + sizes(trees, 0),
            names.len() + sizes(trees, 0) <= capacity(),
        decreases pair.children@.len() - i,
    {
        proof {
            lemma_sizes_split(trees, 0, i as int);
            lemma_sizes_split(trees, 0, i + 1);
            assert(trees[i as int].rule == Rule::Ident);
            assert(trees[i as int] == pair.children@[i as int]@);
            assert(trees[i + 1] == pair.children@[i + 1]@);
        }
        let ghost built = parameter_views(parameters@);
        let name = parse_ident(symbols, &pair.children[i]);
        let ty = parse_type(symbols, &pair.children[i + 1]);
        let span = Span::new(pair.children[i].span.start, pair.children[i + 1].span.end);
        let parameter = Parameter { name, ty, span };
        parameters.push(parameter);
        proof {
            let rest = parameters_from(symbols@, trees, i + 2).0;
            let added = parameters@[parameters@.len() - 1]@;
            assert(parameter_views(parameters@) =~= built.push(added));
            assert(built + (seq![added] + rest) =~= built.push(added) + rest);
        }
        i += 2;
    }
    proof {
        assert(parameter_views(parameters@) + Seq::<ParameterView>::empty() =~= parameter_views(
            parameters@,
        ));
    }
    parameters
}

/// Transforms the head of the stream that `pairs` declares at position `at`:
/// its name, its parameters if it has any, and its type. Also returns the
/// position behind the head.
fn parse_stream_head(symbols: &mut SymbolTable, pairs: &Vec<ParseTree>, at: usize) -> (head: (
    Ident,
    Vec<Parameter>,
    Type,
    usize,
))
    requires
        old(symbols).wf(),
        valid_stream_head(tree_views(pairs@), at as int),
        old(symbols)@.len() + sizes(tree_views(pairs@), at as int) <= capacity(),
    ensures
        final(symbols).wf(),
        ((head.0, parameter_views(head.1@), head.2@), final(symbols)@) == stream_head_of(
            old(symbols)@,
            tree_views(pairs@),
            at as int,
        ),
        head.3 == at + stream_head_len(tree_views(pairs@), at as int),
        head.0.name.0 < final(symbols)@.len(),
        old(symbols)@.len() <= final(symbols)@.len(),
        final(symbols)@.len() + sizes(tree_views(pairs@), head.3 as int) <= old(symbols)@.len() + sizes(
            tree_views(pairs@),
            at as int,
        ),
{
    let ghost views = tree_views(pairs@);
    proof {
        lemma_sizes_split(views, at as int, at as int);
        lemma_sizes_split(views, at as int, at + 1);
        assert(views[at as int] == pairs@[at as int]@);
        assert(views[at + 1] == pairs@[at + 1]@);
    }
    let name = parse_ident(symbols, &pairs[at]);
    assert(at + 2 <= pairs@.len() == pairs.len());
    if at + 1 < pairs.len() && pairs[at + 1].rule == Rule::ParamList {
        proof {
            lemma_sizes_split(views, at as int, at + 2);
            assert(views[at + 2] == pairs@[at + 2]@);
            lemma_size_of_children(views[at + 1], 0);
        }
        let params = parse_parameters(symbols, &pairs[at + 1]);
        let ty = parse_type(symbols, &pairs[at + 2]);
        (name, params, ty, at + 3)
    } else {
        let params: Vec<Parameter> = Vec::new();
        let ty = parse_type(symbols, &pairs[at + 1]);
        proof {
            assert(parameter_views(params@) =~= Seq::<ParameterView>::empty());
        }
        (name, params, ty, at + 2)
    }
}

/// Transforms an input clause into the inputs it declares, in their order:
/// one for each name that a type follows.
pub fn parse_inputs(symbols: &mut SymbolTable, pair: &ParseTree) -> (inputs: Vec<Input>)
    requires
        old(symbols).wf(),
        valid_inputs(pair@),
        old(symbols)@.len() + pair@.size() <= capacity(),
    ensures
        final(symbols).wf(),
        (input_views(inputs@), final(symbols)@) == inputs_from(old(symbols)@, pair@.children, 0),
        0 < inputs@.len() < pair@.size(),
        old(symbols)@.len() <= final(symbols)@.len() <= old(symbols)@.len() + pair@.size(),
{
    proof {
        pair.lemma_children();
        lemma_size_of_children(pair@, 0);
    }
    let ghost names = symbols@;
    let ghost trees = pair@.children;
    let mut inputs: Vec<Input> = Vec::new();
    let mut at: usize = 0;
    proof {
        assert(input_views(inputs@) + inputs_from(names, trees, 0).0 =~= inputs_from(names, trees, 0).0);
    }
    while at < pair.children.len()
        invariant
            at <= pair.children@.len(),
            trees == pair@.children,
            trees == tree_views(pair.children@),
            symbols.wf(),
            valid_input_list(trees, at as int),
            inputs_from(names, trees, 0) == (
                input_views(inputs@) + inputs_from(symbols@, trees, at as int).0,
                inputs_from(symbols@, trees, at as int).1,
            ),
            at > 0 ==> inputs@.len() > 0,
            inputs@.len() + sizes(trees, at as int) <= sizes(trees, 0),
            names.len() <= symbols@.len(),
            symbols@.len() + sizes(trees, at as int) <= names.len() + sizes(trees, 0),
            names.len() + sizes(trees, 0) <= capacity(),
        decreases pair.children@.len() - at,
    {
        proof {
            lemma_sizes_split(trees, 0, at as int);
        }
        let ghost built = input_views(inputs@);
        let ghost left = sizes(trees, at as int);
        let start = pair.children[at].span.start;
        let (name, params, ty, next) = parse_stream_head(symbols, &pair.children, at);
        let end = pair.children[next - 1].span.end;
        let input = Input { id: 0, name, params, ty, span: Span::new(start, end) };
        inputs.push(input);
        proof {
            let rest = inputs_from(symbols@, trees, next as int).0;
            let added = inputs@[inputs@.len() - 1]@;
            assert(trees[at as int] == pair.children@[at as int]@);
            assert(trees[next - 1] == pair.children@[next - 1]@);
            assert(input_views(inputs@) =~= built.push(added));
            assert(built + (seq![added] + rest) =~= built.push(added) + rest);
            if next < trees.len() {
                lemma_sizes_split(trees, at + 1, next as int);
            }
            assert(sizes(trees, next as int) < left);
        }
        at = next;
    }
    proof {
        assert(input_views(inputs@) + Seq::<InputView>::empty() =~= input_views(inputs@));
    }
    inputs
}

/// Transforms an output's node into an `Output`: its name, its parameters if
/// it has any, its type, and its expression.
pub fn parse_output(symbols: &mut SymbolTable, pair: &ParseTree) -> (output: Output)
    requires
        old(symbols).wf(),
        valid_output(pair@),
        old(symbols)@.len() + pair@.size() <= capacity(),
    ensures
        final(symbols).wf(),
        (output@, final(symbols)@) == output_of(old(symbols)@, pair@),
        output.name.name.0 < final(symbols)@.len(),
        old(symbols)@.len() <= final(symbols)@.len() <= old(symbols)@.len() + pair@.size(),
{
    proof {
        pair.lemma_children();
        lemma_size_of_children(pair@, 0);
    }
    let span = pair.span;
    let (name, params, ty, next) = parse_stream_head(symbols, &pair.children, 0);
    let body = &pair.children[next];
    proof {
        body.lemma_children();
        lemma_child_sizes(pair@, next as int);
    }
    let expression = build_expression_ast(symbols, &body.children, body.span);
    Output { id: 0, name, params, ty, expression, span }
}

/// Transforms a trigger's node into a `Trigger`: its name if it has one, its
/// expression, and its message if it has one.
pub fn parse_trigger(symbols: &mut SymbolTable, pair: &ParseTree) -> (trigger: Trigger)
    requires
        old(symbols).wf(),
        valid_trigger(pair@),
        old(symbols)@.len() + pair@.size() <= capacity(),
    ensures
        final(symbols).wf(),
        (trigger@, final(symbols)@) == trigger_of(old(symbols)@, pair@),
        old(symbols)@.len() <= final(symbols)@.len() <= old(symbols)@.len() + pair@.size(),
{
    proof {
        pair.lemma_children();
        lemma_size_of_children(pair@, 0);
        lemma_child_sizes(pair@, 0);
    }
    let span = pair.span;
    let mut name: Option<Ident> = None;
    let mut message = None;
    let mut at: usize = 0;
    // first token is either expression or identifier
    if pair.children[0].rule == Rule::Ident {
        name = Some(parse_ident(symbols, &pair.children[0]));
        at = 1;
    }
    let body = &pair.children[at];
    proof {
        body.lemma_children();
        lemma_child_sizes(pair@, at as int);
    }
    let expression = build_expression_ast(symbols, &body.children, body.span);
    if at + 1 < pair.children.len() {
        proof {
            lemma_child_sizes(pair@, at + 1);
        }
        message = Some(symbols.get_symbol_for(pair.children[at + 1].text.as_str()));
    }
    Trigger { id: 0, name, expression, message, span }
}

/// Transforms the parse tree of a specification into the specification: its
/// constants, inputs, outputs and triggers, each kind in source order, over
/// a symbol table of its own.
pub fn build_specification(tree: &ParseTree) -> (lola: LolaSpec)
    requires
        valid_specification(tree@),
        tree@.size() <= capacity(),
    ensures
        lola@ == specification_of(tree@),
        lola.symbols.wf(),
        lola@.outputs_named(),
        lola@.inputs.len() + lola@.outputs.len() + lola@.trigger.len() <= u32::MAX,
{
    proof {
        tree.lemma_children();
        lemma_size_of_children(tree@, 0);
    }
    let ghost trees = tree@.children;
    let mut symbols = SymbolTable::new();
    let mut constants: Vec<Constant> = Vec::new();
    let mut inputs: Vec<Input> = Vec::new();
    let mut outputs: Vec<Output> = Vec::new();
    let mut trigger: Vec<Trigger> = Vec::new();
    let mut i: usize = 0;
    proof {
        assert(constant_views(constants@) =~= Seq::empty());
        assert(input_views(inputs@) =~= Seq::empty());
        assert(output_views(outputs@) =~= Seq::empty());
        assert(trigger_views(trigger@) =~= Seq::empty());
    }
    while i < tree.children.len()
        invariant
            i <= tree.children@.len(),
            trees == tree@.children,
            trees == tree_views(tree.children@),
            valid_specification(tree@),
            symbols.wf(),
            specification_of(tree@) == declarations_from(
                LolaSpecView {
                    constants: constant_views(constants@),
                    inputs: input_views(inputs@),
                    outputs: output_views(outputs@),
                    trigger: trigger_views(trigger@),
                    symbols: symbols@,
                },
                trees,
                i as int,
            ),
            forall|j: int| 0 <= j < outputs@.len() ==> (#[trigger] outputs@[j]).name.name.0 < symbols@.len(),
            symbols@.len() + sizes(trees, i as int) <= sizes(trees, 0),
            inputs@.len() + outputs@.len() + trigger@.len() + sizes(trees, i as int) <= sizes(trees, 0),
            sizes(trees, 0) <= capacity(),
        decreases tree.children@.len() - i,
    {
        let pair = &tree.children[i];
        proof {
            lemma_sizes_split(trees, 0, i as int);
            assert(trees[i as int] == pair@);
        }
        match pair.rule {
            Rule::ConstantStream => {
                let ghost built = constant_views(constants@);
                let constant = parse_constant(&mut symbols, pair);
                constants.push(constant);
                proof {
                    assert(constant_views(constants@) =~= built.push(constants@[constants@.len() - 1]@));
                }
            },
            Rule::InputStream => {
                let ghost built = input_views(inputs@);
                let mut input = parse_inputs(&mut symbols, pair);
                let ghost added = input_views(input@);
                inputs.append(&mut input);
                proof {
                    assert(input_views(inputs@) =~= built + added);
                }
            },
            Rule::OutputStream => {
                let ghost built = output_views(outputs@);
                let output = parse_output(&mut symbols, pair);
                outputs.push(output);
                proof {
                    assert(output_views(outputs@) =~= built.push(outputs@[outputs@.len() - 1]@));
                }
            },
            Rule::Trigger => {
                let ghost built = trigger_views(trigger@);
                let found = parse_trigger(&mut symbols, pair);
                trigger.push(found);
                proof {
                    assert(trigger_views(trigger@) =~= built.push(trigger@[trigger@.len() - 1]@));
                }
            },
            Rule::EOI => {},
            _ => {
                proof {
                    assert(false);
                }
            },
        }
        i += 1;
    }
    let lola = LolaSpec { constants, inputs, outputs, trigger, symbols };
    proof {
        assert forall|j: int| 0 <= j < lola@.outputs.len() implies (#[trigger] lola@.outputs[j]).name.name.0
            < lola@.symbols.len() by {
            assert(lola@.outputs[j] == outputs@[j]@);
        }
    }
    lola
}


/// Transforms a textual representation of a Lola specification into its
/// syntax tree.
///
/// The text is parsed by the grammar, as a whole, and the specification is
/// built from the parse tree, which is of the builder's shape because the
/// grammar made it. A text without a parse tree has no specification, nor
/// has one whose tree has more nodes than there are symbols.
pub fn parse(content: &str) -> (result: Result<LolaSpec, ParseError>)
    ensures
        match syntax_tree(Rule::Spec, content.spec_bytes()) {
            None => result matches Err(error) && error == ParseError::Syntax,
            Some(tree) => if tree.size() > capacity() {
                result matches Err(error) && error == ParseError::TooLarge
            } else {
                result matches Ok(lola) && lola@ == specification_of(tree) && lola.symbols.wf()
                    && lola@.outputs_named() && lola@.inputs.len() + lola@.outputs.len()
                    + lola@.trigger.len() <= u32::MAX
            },
        },
{
    let tree = match LolaParser::parse(Rule::Spec, content) {
        Ok(tree) => tree,
        Err(error) => {
            return Err(ParseError::Syntax);
        },
    };
    proof {
        lemma_grammar_fits_builder(Rule::Spec, content.spec_bytes());
    }
    if room_left(&tree, 0x1_0000_0000).is_none() {
        return Err(ParseError::TooLarge);
    }
    Ok(build_specification(&tree))
}

} // verus!
