//! Tells whether a parse tree is of a shape that the builder takes, and
//! whether it is small enough for its names to have symbols.

use crate::climber::is_binary_operator;
use crate::syntax::{
    rules_of, valid_arguments, valid_constant,
    valid_expression, valid_input_list, valid_inputs, valid_literal, valid_lookup, valid_output,
    valid_parameters, valid_primary, valid_specification, valid_stream_head, valid_trigger,
    valid_type,
};
use crate::tree::{lemma_sizes_split, sizes, tree_views, ParseTree, Rule};
use crate::grammar::is_number_text;
use crate::words::{
    function_kind, names_binary_operator, parse_integer, time_unit, window_operation,
};
use vstd::prelude::*;

verus! {

/// Whether `tree` is a type.
pub fn is_type(tree: &ParseTree) -> (valid: bool)
    ensures
        valid == valid_type(tree@),
    decreases tree,
{
    proof {
        tree.lemma_children();
    }
    if tree.rule != Rule::Type {
        return false;
    }
    if tree.children.len() >= 1 && tree.children[0].rule == Rule::Ident {
        return true;
    }
    proof {
        if tree.children@.len() >= 1 {
            assert(tree@.children[0] == tree.children@[0]@);
        }
    }
    let mut i: usize = 0;
    while i < tree.children.len()
        invariant
            i <= tree.children@.len(),
            tree@.children == tree_views(tree.children@),
            tree@.rule == Rule::Type,
            !(tree@.children.len() >= 1 && tree@.children[0].rule == Rule::Ident),
            forall|j: int| #![trigger tree@.children[j]] 0 <= j < i ==> valid_type(tree@.children[j]),
        decreases tree.children@.len() - i,
    {
        assert(tree@.children[i as int] == tree.children@[i as int]@);
        if !is_type(&tree.children[i]) {
            return false;
        }
        i += 1;
    }
    true
}

/// Whether `tree` is a literal.
pub fn is_literal(tree: &ParseTree) -> (valid: bool)
    ensures
        valid == valid_literal(tree@),
    decreases tree,
{
    proof {
        tree.lemma_children();
    }
    if tree.rule != Rule::Literal || tree.children.len() < 1 {
        return false;
    }
    let inner = &tree.children[0];
    proof {
        inner.lemma_children();
        assert(inner@ == tree@.children[0]);
    }
    match inner.rule {
        Rule::NumberLiteral => parse_integer(inner.text.as_str()).is_some() || is_number_text(
            inner.text.as_str(),
        ),
        Rule::True | Rule::False => true,
        Rule::TupleLiteral => {
            let mut i: usize = 0;
            while i < inner.children.len()
                invariant
                    i <= inner.children@.len(),
                    *inner == tree.children@[0],
                    tree.children@.len() >= 1,
                    inner@ == tree@.children[0],
                    tree@.rule == Rule::Literal,
                    tree@.children.len() >= 1,
                    inner@.rule == Rule::TupleLiteral,
                    inner@.children == tree_views(inner.children@),
                    forall|j: int|
                        #![trigger inner@.children[j]]
                        0 <= j < i ==> valid_literal(inner@.children[j]),
                decreases inner.children@.len() - i,
            {
                assert(inner@.children[i as int] == inner.children@[i as int]@);
                if !is_literal(&inner.children[i]) {
                    return false;
                }
                i += 1;
            }
            true
        },
        _ => false,
    }
}

/// Whether `pairs` are the children of an expression.
pub fn is_expression(pairs: &Vec<ParseTree>) -> (valid: bool)
    ensures
        valid == valid_expression(tree_views(pairs@)),
    decreases pairs, 1nat,
{
    let ghost views = tree_views(pairs@);
    if pairs.len() % 2 != 1 {
        return false;
    }
    let mut i: usize = 0;
    while i < pairs.len()
        invariant
            i <= pairs@.len(),
            views == tree_views(pairs@),
            pairs@.len() % 2 == 1,
            forall|j: int|
                #![trigger views[j]]
                0 <= j < i ==> if j % 2 == 0 {
                    valid_primary(views[j])
                } else {
                    is_binary_operator(views[j].rule)
                },
        decreases pairs@.len() - i,
    {
        assert(views[i as int] == pairs@[i as int]@);
        if i % 2 == 0 {
            if !is_primary(&pairs[i]) {
                return false;
            }
        } else {
            if !names_binary_operator(pairs[i].rule) {
                assert(rules_of(views)[i as int] == views[i as int].rule);
                return false;
            }
        }
        i += 1;
    }
    proof {
        assert forall|j: int| 0 <= j < rules_of(views).len() && j % 2 == 1 implies is_binary_operator(
            #[trigger] rules_of(views)[j],
        ) by {
            assert(rules_of(views)[j] == views[j].rule);
        }
    }
    true
}

/// Whether every tree of `trees` from position `from` on holds an
/// expression.
pub fn are_arguments(trees: &Vec<ParseTree>, from: usize) -> (valid: bool)
    ensures
        valid == valid_arguments(tree_views(trees@), from as int),
    decreases trees, 0nat,
{
    let ghost views = tree_views(trees@);
    let mut i: usize = from;
    while i < trees.len()
        invariant
            from <= i,
            views == tree_views(trees@),
            forall|j: int| #![trigger views[j]] from <= j < i ==> valid_expression(views[j].children),
        decreases trees@.len() - i,
    {
        proof {
            trees@[i as int].lemma_children();
            assert(views[i as int] == trees@[i as int]@);
        }
        if !is_expression(&trees[i].children) {
            return false;
        }
        i += 1;
    }
    true
}

/// Whether `tree` is a lookup.
pub fn is_lookup(tree: &ParseTree) -> (valid: bool)
    ensures
        valid == valid_lookup(tree@),
    decreases tree, 0nat,
{
    proof {
        tree.lemma_children();
    }
    if tree.children.len() < 2 {
        return false;
    }
    let target = &tree.children[0];
    let second = &tree.children[1];
    proof {
        target.lemma_children();
        second.lemma_children();
        assert(target@ == tree@.children[0]);
        assert(second@ == tree@.children[1]);
    }
    if target.children.len() < 1 || target.children[0].rule != Rule::Ident {
        return false;
    }
    if !are_arguments(&target.children, 1) {
        return false;
    }
    match second.rule {
        Rule::Expr => is_expression(&second.children),
        Rule::Duration => {
            if second.children.len() < 2 {
                return false;
            }
            proof {
                second.children@[0].lemma_children();
            }
            if !is_expression(&second.children[0].children) {
                return false;
            }
            if time_unit(&second.children[1].text).is_none() {
                return false;
            }
            if tree.children.len() >= 3 {
                window_operation(tree.children[2].rule).is_some()
            } else {
                true
            }
        },
        _ => false,
    }
}

/// Whether `tree` is an operand.
pub fn is_primary(tree: &ParseTree) -> (valid: bool)
    ensures
        valid == valid_primary(tree@),
    decreases tree, 1nat,
{
    proof {
        tree.lemma_children();
    }
    match tree.rule {
        Rule::Literal => is_literal(tree),
        Rule::Ident => true,
        Rule::ParenthesizedExpression => {
            if tree.children.len() < 3 {
                return false;
            }
            proof {
                tree.children@[1].lemma_children();
            }
            is_expression(&tree.children[1].children)
        },
        Rule::DefaultExpr => {
            if tree.children.len() < 2 {
                return false;
            }
            proof {
                tree.children@[1].lemma_children();
            }
            is_lookup(&tree.children[0]) && is_expression(&tree.children[1].children)
        },
        Rule::LookupExpr => is_lookup(tree),
        Rule::UnaryExpr => {
            if tree.children.len() < 2 {
                return false;
            }
            proof {
                tree.children@[1].lemma_children();
            }
            let operator = tree.children[0].rule;
            (operator == Rule::Add || operator == Rule::Subtract || operator == Rule::Neg)
                && is_expression(&tree.children[1].children)
        },
        Rule::TernaryExpr => tree.children.len() == 3 && are_arguments(&tree.children, 0),
        Rule::Tuple => tree.children.len() != 1 && are_arguments(&tree.children, 0),
        Rule::Expr => is_expression(&tree.children),
        Rule::FunctionExpr => {
            if tree.children.len() < 1 {
                return false;
            }
            function_kind(&tree.children[0].text).is_some() && are_arguments(&tree.children, 1)
        },
        _ => false,
    }
}

/// Whether `tree` is a constant.
pub fn is_constant(tree: &ParseTree) -> (valid: bool)
    ensures
        valid == valid_constant(tree@),
{
    proof {
        tree.lemma_children();
    }
    tree.rule == Rule::ConstantStream && tree.children.len() >= 3 && tree.children[0].rule
        == Rule::Ident && is_type(&tree.children[1]) && is_literal(&tree.children[2])
}

/// Whether `tree` is a parameter list.
pub fn is_parameters(tree: &ParseTree) -> (valid: bool)
    ensures
        valid == valid_parameters(tree@),
{
    proof {
        tree.lemma_children();
    }
    if tree.rule != Rule::ParamList || tree.children.len() % 2 != 0 {
        return false;
    }
    let mut i: usize = 0;
    while i < tree.children.len()
        invariant
            i <= tree.children@.len(),
            tree@.children == tree_views(tree.children@),
            forall|j: int|
                0 <= j < i ==> if j % 2 == 0 {
                    (#[trigger] tree@.children[j]).rule == Rule::Ident
                } else {
                    valid_type(tree@.children[j])
                },
        decreases tree.children@.len() - i,
    {
        assert(tree@.children[i as int] == tree.children@[i as int]@);
        if i % 2 == 0 {
            if tree.children[i].rule != Rule::Ident {
                return false;
            }
        } else {
            if !is_type(&tree.children[i]) {
                return false;
            }
        }
        i += 1;
    }
    true
}

/// Whether `trees` holds the head of a stream at position `at`.
pub fn is_stream_head(trees: &Vec<ParseTree>, at: usize) -> (valid: bool)
    ensures
        valid == valid_stream_head(tree_views(trees@), at as int),
{
    let ghost views = tree_views(trees@);
    if at >= trees.len() || trees.len() - at < 2 {
        return false;
    }
    proof {
        assert(views[at as int] == trees@[at as int]@);
        assert(views[at + 1] == trees@[at + 1]@);
    }
    if trees[at].rule != Rule::Ident {
        return false;
    }
    if trees[at + 1].rule == Rule::ParamList {
        if trees.len() - at < 3 {
            return false;
        }
        proof {
            assert(views[at + 2] == trees@[at + 2]@);
        }
        is_parameters(&trees[at + 1]) && is_type(&trees[at + 2])
    } else {
        is_type(&trees[at + 1])
    }
}

/// Whether `tree` is an input clause.
pub fn is_inputs(tree: &ParseTree) -> (valid: bool)
    ensures
        valid == valid_inputs(tree@),
{
    proof {
        tree.lemma_children();
    }
    if tree.rule != Rule::InputStream || tree.children.len() == 0 {
        return false;
    }
    let ghost trees = tree@.children;
    let mut at: usize = 0;
    while at < tree.children.len()
        invariant
            at <= tree.children@.len(),
            trees == tree_views(tree.children@),
            valid_input_list(trees, 0) == valid_input_list(trees, at as int),
        decreases tree.children@.len() - at,
    {
        if !is_stream_head(&tree.children, at) {
            return false;
        }
        assert(trees[at + 1] == tree.children@[at + 1]@);
        if tree.children[at + 1].rule == Rule::ParamList {
            at += 3;
        } else {
            at += 2;
        }
    }
    true
}

/// Whether `tree` is an output.
pub fn is_output(tree: &ParseTree) -> (valid: bool)
    ensures
        valid == valid_output(tree@),
{
    proof {
        tree.lemma_children();
    }
    if tree.rule != Rule::OutputStream || !is_stream_head(&tree.children, 0) {
        return false;
    }
    assert(tree@.children[1] == tree.children@[1]@);
    let at: usize = if tree.children[1].rule == Rule::ParamList {
        3
    } else {
        2
    };
    if at >= tree.children.len() {
        return false;
    }
    proof {
        tree.children@[at as int].lemma_children();
    }
    is_expression(&tree.children[at].children)
}

/// Whether `tree` is a trigger.
pub fn is_trigger(tree: &ParseTree) -> (valid: bool)
    ensures
        valid == valid_trigger(tree@),
{
    proof {
        tree.lemma_children();
    }
    if tree.rule != Rule::Trigger {
        return false;
    }
    let at: usize = if tree.children.len() >= 1 && tree.children[0].rule == Rule::Ident {
        1
    } else {
        0
    };
    if at >= tree.children.len() {
        return false;
    }
    proof {
        tree.children@[at as int].lemma_children();
    }
    if !is_expression(&tree.children[at].children) {
        return false;
    }
    if at + 1 < tree.children.len() {
        tree.children[at + 1].rule == Rule::String
    } else {
        true
    }
}

/// Whether `tree` is a specification.
pub fn is_specification(tree: &ParseTree) -> (valid: bool)
    ensures
        valid == valid_specification(tree@),
{
    proof {
        tree.lemma_children();
    }
    if tree.rule != Rule::Spec {
        return false;
    }
    let mut i: usize = 0;
    while i < tree.children.len()
        invariant
            i <= tree.children@.len(),
            tree@.children == tree_views(tree.children@),
            forall|j: int|
                0 <= j < i ==> match (#[trigger] tree@.children[j]).rule {
                    Rule::ConstantStream => valid_constant(tree@.children[j]),
                    Rule::InputStream => valid_inputs(tree@.children[j]),
                    Rule::OutputStream => valid_output(tree@.children[j]),
                    Rule::Trigger => valid_trigger(tree@.children[j]),
                    Rule::EOI => true,
                    _ => false,
                },
        decreases tree.children@.len() - i,
    {
        let child = &tree.children[i];
        assert(tree@.children[i as int] == child@);
        let valid = match child.rule {
            Rule::ConstantStream => is_constant(child),
            Rule::InputStream => is_inputs(child),
            Rule::OutputStream => is_output(child),
            Rule::Trigger => is_trigger(child),
            Rule::EOI => true,
            _ => false,
        };
        if !valid {
            return false;
        }
        i += 1;
    }
    true
}

/// Takes the nodes of `tree` off `room`: gives what is left of it, or
/// nothing where the tree has more nodes than that.
pub fn room_left(tree: &ParseTree, room: u64) -> (left: Option<u64>)
    ensures
        left == if tree@.size() <= room {
            Some((room - tree@.size()) as u64)
        } else {
            None::<u64>
        },
    decreases tree,
{
    proof {
        tree.lemma_children();
    }
    if room == 0 {
        return None;
    }
    let ghost trees = tree@.children;
    let mut left = room - 1;
    let mut i: usize = 0;
    while i < tree.children.len()
        invariant
            i <= tree.children@.len(),
            trees == tree_views(tree.children@),
            trees == tree@.children,
            left + 1 + sizes(trees, 0) == room + sizes(trees, i as int),
            sizes(trees, 0) >= sizes(trees, i as int),
        decreases tree.children@.len() - i,
    {
        proof {
            lemma_sizes_split(trees, 0, i as int);
            if i + 1 < trees.len() {
                lemma_sizes_split(trees, 0, i + 1);
            }
            assert(trees[i as int] == tree.children@[i as int]@);
        }
        match room_left(&tree.children[i], left) {
            Some(rest) => {
                left = rest;
            },
            None => {
                return None;
            },
        }
        i += 1;
    }
    Some(left)
}

} // verus!
