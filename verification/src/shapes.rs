//! The grammar and the builder agree: every parse tree that the grammar
//! yields for a specification is of the shape that the builder takes.

use crate::climber::{alternates, is_binary_operator};
use crate::grammar::{
    arguments, bracketed, closed_parentheses, constant, entry, expression, function,
    function_name, grammar, head, identifier, input, instance, is_number, keyword, listed,
    literal, lookup, message, name_byte, none, number, offset, open_parentheses, operand,
    operator, optional, output, parameter, parameters, plain_value, space, specification,
    syntax_tree, term, ternary, token, tuple, type_rule, unary, unit, value, whitespace, window,
    ARGUMENTS, CONSTANT, DEPTH, EXPR, HEAD, IDENT, INPUT, LITERAL, LOOKUP, OPERAND, OPERATOR,
    OUTPUT, PARAMS, SPEC, TERM, TRIGGER, TYPE, VALUE, WS,
};
use crate::peg::{has_at, is_word, node_of, parsed, parsed_all, parsed_first, PegView};
use crate::syntax::{
    rules_of, stream_head_len, valid_arguments, valid_constant, valid_expression,
    valid_input_list, valid_inputs, valid_literal, valid_lookup, valid_output, valid_parameters,
    valid_primary, valid_specification, valid_stream_head, valid_trigger, valid_type,
};
use crate::tree::{Rule, Tree};
use crate::words::{function_kind_of, unit_of, window_of};
use vstd::prelude::*;
use vstd::utf8::{decode_utf8, encode_utf8, encode_utf8_decode_utf8};

verus! {

/// Each rule of the grammar stands at its number.
pub proof fn lemma_rules()
    ensures
        grammar().len() == 18,
        grammar()[WS as int] == whitespace(),
        grammar()[SPEC as int] == specification(),
        grammar()[CONSTANT as int] == constant(),
        grammar()[INPUT as int] == input(),
        grammar()[OUTPUT as int] == output(),
        grammar()[TRIGGER as int] == crate::grammar::trigger(),
        grammar()[IDENT as int] == identifier(),
        grammar()[PARAMS as int] == parameters(),
        grammar()[TYPE as int] == type_rule(),
        grammar()[LITERAL as int] == literal(),
        grammar()[EXPR as int] == expression(),
        grammar()[TERM as int] == term(),
        grammar()[OPERATOR as int] == operator(),
        grammar()[VALUE as int] == value(),
        grammar()[LOOKUP as int] == lookup(),
        grammar()[ARGUMENTS as int] == arguments(),
        grammar()[OPERAND as int] == operand(),
        grammar()[HEAD as int] == head(),
{
}

/// Whether `peg` makes no node, whatever it matches.
pub open spec fn quiet(peg: PegView) -> bool
    decreases peg,
{
    match peg {
        PegView::Text(_) => true,
        PegView::Byte(_, _) => true,
        PegView::Not(_) => true,
        PegView::All(parts) => forall|i: int| #![trigger parts[i]] 0 <= i < parts.len() ==> quiet(parts[i]),
        PegView::Choice(parts) => forall|i: int|
            #![trigger parts[i]]
            0 <= i < parts.len() ==> quiet(parts[i]),
        PegView::Star(body) => quiet(*body),
        PegView::Call(rule) => rule == WS,
        PegView::Node(_, _) => false,
        PegView::Word(_, _) => false,
        PegView::Fold(_, _, _) => false,
    }
}

/// White space, tokens and keywords make no node.
pub proof fn lemma_quiet_words()
    ensures
        quiet(whitespace()),
        quiet(space()),
        quiet(name_byte()),
        forall|word: Seq<char>| quiet(#[trigger] token(word)),
        forall|word: Seq<char>| quiet(#[trigger] keyword(word)),
{
    reveal_with_fuel(quiet, 4);
}

/// What makes no node yields no tree.
pub proof fn lemma_quiet(peg: PegView, bytes: Seq<u8>, at: int, depth: nat)
    requires
        quiet(peg),
    ensures
        parsed(grammar(), peg, bytes, at, depth) matches Some(found) ==> found.0
            == Seq::<Tree>::empty(),
    decreases depth, peg, bytes.len() - at,
{
    match peg {
        PegView::All(parts) => {
            lemma_quiet_all(parts, 0, bytes, at, depth);
        },
        PegView::Choice(parts) => {
            lemma_quiet_first(parts, 0, bytes, at, depth);
        },
        PegView::Star(body) => {
            lemma_quiet(*body, bytes, at, depth);
            match parsed(grammar(), *body, bytes, at, depth) {
                Some((trees, next)) => {
                    if at < next <= bytes.len() {
                        lemma_quiet(peg, bytes, next, depth);
                        match parsed(grammar(), peg, bytes, next, depth) {
                            Some((more, _)) => {
                                assert(trees + more =~= Seq::<Tree>::empty());
                            },
                            None => {},
                        }
                    }
                },
                None => {},
            }
        },
        PegView::Call(rule) => {
            if depth > 0 {
                lemma_rules();
                lemma_quiet_words();
                lemma_quiet(whitespace(), bytes, at, (depth - 1) as nat);
            }
        },
        _ => {},
    }
}

pub proof fn lemma_quiet_all(parts: Seq<PegView>, from: int, bytes: Seq<u8>, at: int, depth: nat)
    requires
        forall|i: int| #![trigger parts[i]] 0 <= i < parts.len() ==> quiet(parts[i]),
    ensures
        parsed_all(grammar(), parts, from, bytes, at, depth) matches Some(found) ==> found.0
            == Seq::<Tree>::empty(),
    decreases depth, parts, parts.len() - from,
{
    if 0 <= from < parts.len() {
        lemma_quiet(parts[from], bytes, at, depth);
        match parsed(grammar(), parts[from], bytes, at, depth) {
            Some((trees, next)) => {
                lemma_quiet_all(parts, from + 1, bytes, next, depth);
                match parsed_all(grammar(), parts, from + 1, bytes, next, depth) {
                    Some((more, _)) => {
                        assert(trees + more =~= Seq::<Tree>::empty());
                    },
                    None => {},
                }
            },
            None => {},
        }
    }
}

pub proof fn lemma_quiet_first(parts: Seq<PegView>, from: int, bytes: Seq<u8>, at: int, depth: nat)
    requires
        forall|i: int| #![trigger parts[i]] 0 <= i < parts.len() ==> quiet(parts[i]),
    ensures
        parsed_first(grammar(), parts, from, bytes, at, depth) matches Some(found) ==> found.0
            == Seq::<Tree>::empty(),
    decreases depth, parts, parts.len() - from,
{
    if 0 <= from < parts.len() {
        lemma_quiet(parts[from], bytes, at, depth);
        lemma_quiet_first(parts, from + 1, bytes, at, depth);
    }
}

/// What part `from` of a sequence yields, where the sequence matches from
/// that part on: the trees of the sequence are its trees and then those of
/// the parts behind it.
pub proof fn step(parts: Seq<PegView>, from: int, bytes: Seq<u8>, at: int, depth: nat) -> (found: (
    Seq<Tree>,
    int,
))
    requires
        0 <= from < parts.len(),
        parsed_all(grammar(), parts, from, bytes, at, depth) is Some,
    ensures
        parsed(grammar(), parts[from], bytes, at, depth) == Some(found),
        parsed_all(grammar(), parts, from + 1, bytes, found.1, depth) is Some,
        parsed_all(grammar(), parts, from, bytes, at, depth).unwrap().0 == found.0 + parsed_all(
            grammar(),
            parts,
            from + 1,
            bytes,
            found.1,
            depth,
        ).unwrap().0,
        parsed_all(grammar(), parts, from, bytes, at, depth).unwrap().1 == parsed_all(
            grammar(),
            parts,
            from + 1,
            bytes,
            found.1,
            depth,
        ).unwrap().1,
{
    parsed(grammar(), parts[from], bytes, at, depth).unwrap()
}

/// The same for a part that makes no node: the trees of the sequence are
/// those of the parts behind it. Gives the position behind the part.
pub proof fn skip(parts: Seq<PegView>, from: int, bytes: Seq<u8>, at: int, depth: nat) -> (next: int)
    requires
        0 <= from < parts.len(),
        quiet(parts[from]),
        parsed_all(grammar(), parts, from, bytes, at, depth) is Some,
    ensures
        parsed_all(grammar(), parts, from + 1, bytes, next, depth) == parsed_all(
            grammar(),
            parts,
            from,
            bytes,
            at,
            depth,
        ),
{
    let found = step(parts, from, bytes, at, depth);
    lemma_quiet(parts[from], bytes, at, depth);
    let rest = parsed_all(grammar(), parts, from + 1, bytes, found.1, depth).unwrap();
    assert(found.0 + rest.0 =~= rest.0);
    found.1
}

/// The alternative that a choice matches as.
pub proof fn chosen(alternatives: Seq<PegView>, from: int, bytes: Seq<u8>, at: int, depth: nat) -> (i:
    int)
    requires
        0 <= from,
        parsed_first(grammar(), alternatives, from, bytes, at, depth) is Some,
    ensures
        from <= i < alternatives.len(),
        parsed(grammar(), alternatives[i], bytes, at, depth) == parsed_first(
            grammar(),
            alternatives,
            from,
            bytes,
            at,
            depth,
        ),
    decreases alternatives.len() - from,
{
    if parsed(grammar(), alternatives[from], bytes, at, depth) is Some {
        from
    } else {
        chosen(alternatives, from + 1, bytes, at, depth)
    }
}

/// An optional expression yields what its body yields, or nothing.
pub proof fn lemma_optional(body: PegView, bytes: Seq<u8>, at: int, depth: nat)
    ensures
        parsed(grammar(), optional(body), bytes, at, depth) == match parsed(
            grammar(),
            body,
            bytes,
            at,
            depth,
        ) {
            Some(found) => Some(found),
            None => Some((Seq::<Tree>::empty(), at)),
        },
{
    let alternatives = optional(body)->Choice_0;
    assert(alternatives[0] == body);
    assert(alternatives[1] == PegView::All(Seq::empty()));
    assert(parsed_first(grammar(), alternatives, 2, bytes, at, depth) is None);
    assert(parsed_all(grammar(), Seq::<PegView>::empty(), 0, bytes, at, depth) == Some(
        (Seq::<Tree>::empty(), at),
    ));
    assert(parsed(grammar(), alternatives[1], bytes, at, depth) == Some((Seq::<Tree>::empty(), at)));
    assert(parsed_first(grammar(), alternatives, 1, bytes, at, depth) == Some(
        (Seq::<Tree>::empty(), at),
    ));
    assert(parsed_first(grammar(), alternatives, 0, bytes, at, depth) == match parsed(
        grammar(),
        body,
        bytes,
        at,
        depth,
    ) {
        Some(found) => Some(found),
        None => parsed_first(grammar(), alternatives, 1, bytes, at, depth),
    });
    assert(parsed(grammar(), optional(body), bytes, at, depth) == parsed_first(
        grammar(),
        alternatives,
        0,
        bytes,
        at,
        depth,
    ));
}

/// What a repetition yields has every property that nothing has and that
/// holds of what the body yields followed by anything that has it.
pub proof fn lemma_star(
    body: PegView,
    bytes: Seq<u8>,
    at: int,
    depth: nat,
    first: spec_fn(Seq<Tree>) -> bool,
    all: spec_fn(Seq<Tree>) -> bool,
)
    requires
        all(Seq::<Tree>::empty()),
        forall|from: int|
            (#[trigger] parsed(grammar(), body, bytes, from, depth)) matches Some(found) ==> first(
                found.0,
            ),
        forall|trees: Seq<Tree>, more: Seq<Tree>|
            first(trees) && all(more) ==> #[trigger] all(trees + more),
    ensures
        parsed(grammar(), PegView::Star(Box::new(body)), bytes, at, depth) matches Some(found)
            ==> all(found.0),
    decreases bytes.len() - at,
{
    let star = PegView::Star(Box::new(body));
    match parsed(grammar(), body, bytes, at, depth) {
        Some((trees, next)) => {
            if at < next <= bytes.len() {
                lemma_star(body, bytes, next, depth, first, all);
                match parsed(grammar(), star, bytes, next, depth) {
                    Some((more, _)) => {
                        assert(all(trees + more));
                    },
                    None => {},
                }
            }
        },
        None => {},
    }
}


/// What a node is made of, where its expression matches: the trees of the
/// body are the children, and a node without children has the text matched.
pub proof fn made(rule: Rule, body: PegView, bytes: Seq<u8>, at: int, depth: nat) -> (node: Tree)
    requires
        parsed(grammar(), PegView::Node(rule, Box::new(body)), bytes, at, depth) is Some,
    ensures
        parsed(grammar(), PegView::Node(rule, Box::new(body)), bytes, at, depth).unwrap().0 == seq![
            node,
        ],
        parsed(grammar(), body, bytes, at, depth) is Some,
        node.rule == rule,
        node.children == parsed(grammar(), body, bytes, at, depth).unwrap().0,
        node.children.len() == 0 ==> node.text == decode_utf8(
            bytes.subrange(at, parsed(grammar(), body, bytes, at, depth).unwrap().1),
        ),
{
    let inner = parsed(grammar(), body, bytes, at, depth).unwrap();
    node_of(rule, bytes, at, inner.1, inner.0).unwrap()
}

/// What each rule of the grammar has to yield for the builder to take it.
pub open spec fn shaped(rule: nat, trees: Seq<Tree>) -> bool {
    if rule == WS {
        trees.len() == 0
    } else if rule == SPEC {
        trees.len() == 1 && valid_specification(trees[0])
    } else if rule == CONSTANT {
        trees.len() == 1 && valid_constant(trees[0])
    } else if rule == INPUT {
        trees.len() == 1 && valid_inputs(trees[0])
    } else if rule == OUTPUT {
        trees.len() == 1 && valid_output(trees[0])
    } else if rule == TRIGGER {
        trees.len() == 1 && valid_trigger(trees[0])
    } else if rule == IDENT {
        trees.len() == 1 && trees[0].rule == Rule::Ident
    } else if rule == PARAMS {
        trees.len() == 1 && valid_parameters(trees[0])
    } else if rule == TYPE {
        trees.len() == 1 && valid_type(trees[0])
    } else if rule == LITERAL || rule == VALUE {
        trees.len() == 1 && valid_literal(trees[0])
    } else if rule == EXPR || rule == OPERAND {
        trees.len() == 1 && trees[0].rule == Rule::Expr && valid_expression(trees[0].children)
    } else if rule == TERM || rule == LOOKUP {
        trees.len() == 1 && valid_primary(trees[0])
    } else if rule == OPERATOR {
        trees.len() == 1 && is_binary_operator(trees[0].rule)
    } else if rule == ARGUMENTS {
        trees.len() >= 1 && valid_arguments(trees, 0)
    } else if rule == HEAD {
        valid_stream_head(trees, 0) && trees.len() == stream_head_len(trees, 0)
    } else {
        true
    }
}

/// Whether every rule, called with `depth` calls left, yields on `bytes`
/// what the builder takes.
pub open spec fn sound(bytes: Seq<u8>, depth: nat) -> bool {
    forall|rule: nat, at: int|
        (#[trigger] parsed(grammar(), PegView::Call(rule), bytes, at, depth)) matches Some(found)
            ==> shaped(rule, found.0)
}

/// What a list with commas yields: what its first element yields, and then
/// what the others yield, which has every property that nothing has and
/// that holds of what an element yields followed by anything that has it.
pub proof fn lemma_listed(
    first: PegView,
    next: PegView,
    bytes: Seq<u8>,
    at: int,
    depth: nat,
    one: spec_fn(Seq<Tree>) -> bool,
    all: spec_fn(Seq<Tree>) -> bool,
) -> (found: (Seq<Tree>, Seq<Tree>))
    requires
        parsed(grammar(), listed(first, next), bytes, at, depth) is Some,
        all(Seq::<Tree>::empty()),
        forall|from: int|
            (#[trigger] parsed(grammar(), first, bytes, from, depth)) matches Some(found) ==> one(
                found.0,
            ),
        forall|from: int|
            (#[trigger] parsed(grammar(), next, bytes, from, depth)) matches Some(found) ==> one(
                found.0,
            ),
        forall|trees: Seq<Tree>, more: Seq<Tree>|
            one(trees) && all(more) ==> #[trigger] all(trees + more),
    ensures
        parsed(grammar(), listed(first, next), bytes, at, depth).unwrap().0 == found.0 + found.1,
        one(found.0),
        all(found.1),
{
    lemma_quiet_words();
    let parts = listed(first, next)->All_0;
    let body = PegView::All(none().push(token(","@)).push(space()).push(next));
    assert(parts[0] == first);
    assert(parts[1] == PegView::Star(Box::new(body)));
    let head = step(parts, 0, bytes, at, depth);
    let tail = step(parts, 1, bytes, head.1, depth);
    assert forall|from: int|
            (#[trigger] parsed(grammar(), body, bytes, from, depth)) is Some implies one(
            parsed(grammar(), body, bytes, from, depth).unwrap().0,
        ) by {
        if parsed(grammar(), body, bytes, from, depth) is Some {
            let inner = body->All_0;
            let a = skip(inner, 0, bytes, from, depth);
            let b = skip(inner, 1, bytes, a, depth);
            let c = step(inner, 2, bytes, b, depth);
            assert(c.0 + Seq::<Tree>::empty() =~= c.0);
        }
    }
    lemma_star(body, bytes, head.1, depth, one, all);
    assert(tail.0 + Seq::<Tree>::empty() =~= tail.0);
    (head.0, tail.0)
}

/// What parentheses yield: what stands inside them yields, at the position
/// that is given, or nothing where nothing stands inside.
pub proof fn lemma_bracketed(body: PegView, bytes: Seq<u8>, at: int, depth: nat) -> (inside: Option<
    int,
>)
    requires
        parsed(grammar(), bracketed(body), bytes, at, depth) is Some,
    ensures
        match inside {
            Some(from) => parsed(grammar(), body, bytes, from, depth) is Some && parsed(
                grammar(),
                body,
                bytes,
                from,
                depth,
            ).unwrap().0 == parsed(grammar(), bracketed(body), bytes, at, depth).unwrap().0,
            None => parsed(grammar(), bracketed(body), bytes, at, depth).unwrap().0
                == Seq::<Tree>::empty(),
        },
{
    lemma_quiet_words();
    let parts = bracketed(body)->All_0;
    assert(parts[2] == optional(body));
    let a = skip(parts, 0, bytes, at, depth);
    let b = skip(parts, 1, bytes, a, depth);
    let c = step(parts, 2, bytes, b, depth);
    let d = skip(parts, 3, bytes, c.1, depth);
    lemma_optional(body, bytes, b, depth);
    assert(c.0 + Seq::<Tree>::empty() =~= c.0);
    if parsed(grammar(), body, bytes, b, depth) is Some {
        Some(b)
    } else {
        None
    }
}

/// An identifier is a node of its kind.
pub proof fn lemma_identifier(bytes: Seq<u8>, at: int, depth: nat)
    ensures
        parsed(grammar(), identifier(), bytes, at, depth) matches Some(found) ==> shaped(
            IDENT as nat,
            found.0,
        ),
{
    if parsed(grammar(), identifier(), bytes, at, depth) is Some {
        let node = made(Rule::Ident, *identifier()->Node_1, bytes, at, depth);
    }
}

/// A type is a type of the builder.
pub proof fn lemma_type(bytes: Seq<u8>, at: int, depth: nat)
    requires
        sound(bytes, depth),
    ensures
        parsed(grammar(), type_rule(), bytes, at, depth) matches Some(found) ==> shaped(
            TYPE as nat,
            found.0,
        ),
{
    if parsed(grammar(), type_rule(), bytes, at, depth) is Some {
        let choice = *type_rule()->Node_1;
        let node = made(Rule::Type, choice, bytes, at, depth);
        let alternatives = choice->Choice_0;
        let element = PegView::Call(TYPE as nat);
        assert(alternatives[0] == PegView::Call(IDENT as nat));
        assert(alternatives[1] == bracketed(listed(element, element)));
        let i = chosen(alternatives, 0, bytes, at, depth);
        if i == 1 {
            let one = |trees: Seq<Tree>| trees.len() == 1 && valid_type(trees[0]);
            let all = |trees: Seq<Tree>|
                forall|k: int| 0 <= k < trees.len() ==> valid_type(#[trigger] trees[k]);
            match lemma_bracketed(listed(element, element), bytes, at, depth) {
                Some(from) => {
                    let found = lemma_listed(element, element, bytes, from, depth, one, all);
                    assert(all(found.0 + found.1));
                },
                None => {},
            }
            assert(forall|k: int|
                0 <= k < node.children.len() ==> valid_type(#[trigger] node.children[k]));
        }
    }
}

/// A parameter list is one of the builder.
pub proof fn lemma_parameters(bytes: Seq<u8>, at: int, depth: nat)
    requires
        sound(bytes, depth),
    ensures
        parsed(grammar(), parameters(), bytes, at, depth) matches Some(found) ==> shaped(
            PARAMS as nat,
            found.0,
        ),
{
    if parsed(grammar(), parameters(), bytes, at, depth) is Some {
        lemma_quiet_words();
        let body = *parameters()->Node_1;
        let node = made(Rule::ParamList, body, bytes, at, depth);
        let parts = body->All_0;
        assert(parts[2] == listed(parameter(), parameter()));
        let a = skip(parts, 0, bytes, at, depth);
        let b = skip(parts, 1, bytes, a, depth);
        let c = step(parts, 2, bytes, b, depth);
        let d = skip(parts, 3, bytes, c.1, depth);
        assert(c.0 + Seq::<Tree>::empty() =~= c.0);
        let one = |trees: Seq<Tree>|
            trees.len() == 2 && trees[0].rule == Rule::Ident && valid_type(trees[1]);
        let all = |trees: Seq<Tree>|
            trees.len() % 2 == 0 && forall|k: int|
                0 <= k < trees.len() ==> if k % 2 == 0 {
                    (#[trigger] trees[k]).rule == Rule::Ident
                } else {
                    valid_type(trees[k])
                };
        assert forall|from: int|
            (#[trigger] parsed(grammar(), parameter(), bytes, from, depth)) is Some implies one(
            parsed(grammar(), parameter(), bytes, from, depth).unwrap().0,
        ) by {
            if parsed(grammar(), parameter(), bytes, from, depth) is Some {
                let inner = parameter()->All_0;
                let name = step(inner, 0, bytes, from, depth);
                let colon = skip(inner, 1, bytes, name.1, depth);
                let blank = skip(inner, 2, bytes, colon, depth);
                let ty = step(inner, 3, bytes, blank, depth);
                assert(parsed(grammar(), parameter(), bytes, from, depth).unwrap().0 =~= name.0
                    + ty.0);
            }
        }
        let found = lemma_listed(parameter(), parameter(), bytes, b, depth, one, all);
        assert(all(found.0 + found.1));
    }
}

/// The head of a stream is one of the builder, and nothing besides.
pub proof fn lemma_head(bytes: Seq<u8>, at: int, depth: nat)
    requires
        sound(bytes, depth),
    ensures
        parsed(grammar(), head(), bytes, at, depth) matches Some(found) ==> shaped(
            HEAD as nat,
            found.0,
        ),
{
    if parsed(grammar(), head(), bytes, at, depth) is Some {
        lemma_quiet_words();
        let parts = head()->All_0;
        let listing = PegView::All(none().push(space()).push(PegView::Call(PARAMS as nat)));
        assert(parts[1] == optional(listing));
        let name = step(parts, 0, bytes, at, depth);
        let params = step(parts, 1, bytes, name.1, depth);
        let colon = skip(parts, 2, bytes, params.1, depth);
        let blank = skip(parts, 3, bytes, colon, depth);
        let ty = step(parts, 4, bytes, blank, depth);
        lemma_optional(listing, bytes, name.1, depth);
        if parsed(grammar(), listing, bytes, name.1, depth) is Some {
            let inner = listing->All_0;
            let skipped = skip(inner, 0, bytes, name.1, depth);
            let list = step(inner, 1, bytes, skipped, depth);
            assert(params.0 =~= list.0);
        }
        let trees = parsed(grammar(), head(), bytes, at, depth).unwrap().0;
        assert(trees =~= name.0 + params.0 + ty.0);
    }
}

/// A constant is one of the builder.
pub proof fn lemma_constant(bytes: Seq<u8>, at: int, depth: nat)
    requires
        sound(bytes, depth),
    ensures
        parsed(grammar(), constant(), bytes, at, depth) matches Some(found) ==> shaped(
            CONSTANT as nat,
            found.0,
        ),
{
    if parsed(grammar(), constant(), bytes, at, depth) is Some {
        lemma_quiet_words();
        let body = *constant()->Node_1;
        let node = made(Rule::ConstantStream, body, bytes, at, depth);
        let parts = body->All_0;
        let a = skip(parts, 0, bytes, at, depth);
        let b = skip(parts, 1, bytes, a, depth);
        let name = step(parts, 2, bytes, b, depth);
        let c = skip(parts, 3, bytes, name.1, depth);
        let d = skip(parts, 4, bytes, c, depth);
        let ty = step(parts, 5, bytes, d, depth);
        let e = skip(parts, 6, bytes, ty.1, depth);
        let f = skip(parts, 7, bytes, e, depth);
        let value = step(parts, 8, bytes, f, depth);
        assert(node.children =~= name.0 + ty.0 + value.0);
    }
}

/// Heads that follow heads are a list of inputs, as they are behind heads.
pub proof fn lemma_input_list(trees: Seq<Tree>, more: Seq<Tree>, at: int)
    requires
        0 <= at,
    ensures
        valid_input_list(trees + more, trees.len() + at) == valid_input_list(more, at),
    decreases more.len() - at,
{
    let both = trees + more;
    if at < more.len() {
        assert(both[trees.len() + at] == more[at]);
        if at + 1 < more.len() {
            assert(both[trees.len() + at + 1] == more[at + 1]);
        }
        let step = stream_head_len(more, at);
        assert(stream_head_len(both, trees.len() + at) == step);
        if at + step <= more.len() {
            assert(both[trees.len() + at + step - 1] == more[at + step - 1]);
            lemma_input_list(trees, more, at + step);
        }
    }
}

/// An input clause is one of the builder.
pub proof fn lemma_input(bytes: Seq<u8>, at: int, depth: nat)
    requires
        sound(bytes, depth),
    ensures
        parsed(grammar(), input(), bytes, at, depth) matches Some(found) ==> shaped(
            INPUT as nat,
            found.0,
        ),
{
    if parsed(grammar(), input(), bytes, at, depth) is Some {
        lemma_quiet_words();
        let body = *input()->Node_1;
        let node = made(Rule::InputStream, body, bytes, at, depth);
        let parts = body->All_0;
        let element = PegView::Call(HEAD as nat);
        assert(parts[2] == listed(element, element));
        let a = skip(parts, 0, bytes, at, depth);
        let b = skip(parts, 1, bytes, a, depth);
        let c = step(parts, 2, bytes, b, depth);
        assert(c.0 + Seq::<Tree>::empty() =~= c.0);
        let one = |trees: Seq<Tree>| shaped(HEAD as nat, trees);
        let all = |trees: Seq<Tree>| valid_input_list(trees, 0);
        assert forall|trees: Seq<Tree>, more: Seq<Tree>| one(trees) && all(more) implies #[trigger] all(
            trees + more,
        ) by {
            let both = trees + more;
            assert(both[0] == trees[0]);
            assert(both[1] == trees[1]);
            assert(both[trees.len() - 1] == trees[trees.len() - 1]);
            lemma_input_list(trees, more, 0);
        }
        let found = lemma_listed(element, element, bytes, b, depth, one, all);
        assert(all(found.0 + found.1));
    }
}

/// An output is one of the builder.
pub proof fn lemma_output(bytes: Seq<u8>, at: int, depth: nat)
    requires
        sound(bytes, depth),
    ensures
        parsed(grammar(), output(), bytes, at, depth) matches Some(found) ==> shaped(
            OUTPUT as nat,
            found.0,
        ),
{
    if parsed(grammar(), output(), bytes, at, depth) is Some {
        lemma_quiet_words();
        let body = *output()->Node_1;
        let node = made(Rule::OutputStream, body, bytes, at, depth);
        let parts = body->All_0;
        let a = skip(parts, 0, bytes, at, depth);
        let b = skip(parts, 1, bytes, a, depth);
        let front = step(parts, 2, bytes, b, depth);
        let c = skip(parts, 3, bytes, front.1, depth);
        let d = skip(parts, 4, bytes, c, depth);
        let body = step(parts, 5, bytes, d, depth);
        assert(node.children =~= front.0 + body.0);
        assert(node.children[0] == front.0[0]);
        assert(node.children[1] == front.0[1]);
        assert(node.children[front.0.len() - 1] == front.0[front.0.len() - 1]);
        assert(node.children[front.0.len() as int] == body.0[0]);
    }
}

/// A trigger is one of the builder.
pub proof fn lemma_trigger(bytes: Seq<u8>, at: int, depth: nat)
    requires
        sound(bytes, depth),
    ensures
        parsed(grammar(), crate::grammar::trigger(), bytes, at, depth) matches Some(found)
            ==> shaped(TRIGGER as nat, found.0),
{
    let rule = crate::grammar::trigger();
    if parsed(grammar(), rule, bytes, at, depth) is Some {
        lemma_quiet_words();
        let body = *rule->Node_1;
        let node = made(Rule::Trigger, body, bytes, at, depth);
        let parts = body->All_0;
        let naming = PegView::All(
            none().push(PegView::Call(IDENT as nat)).push(token(":="@)).push(space()),
        );
        let saying = PegView::All(
            none().push(token("\""@)).push(message()).push(PegView::Text("\""@)),
        );
        assert(parts[2] == optional(naming));
        assert(parts[4] == optional(saying));
        let a = skip(parts, 0, bytes, at, depth);
        let b = skip(parts, 1, bytes, a, depth);
        let name = step(parts, 2, bytes, b, depth);
        let body = step(parts, 3, bytes, name.1, depth);
        let said = step(parts, 4, bytes, body.1, depth);
        lemma_optional(naming, bytes, b, depth);
        lemma_optional(saying, bytes, body.1, depth);
        if parsed(grammar(), naming, bytes, b, depth) is Some {
            let inner = naming->All_0;
            let ident = step(inner, 0, bytes, b, depth);
            let c = skip(inner, 1, bytes, ident.1, depth);
            let d = skip(inner, 2, bytes, c, depth);
            assert(name.0 =~= ident.0);
        }
        if parsed(grammar(), saying, bytes, body.1, depth) is Some {
            let inner = saying->All_0;
            let c = skip(inner, 0, bytes, body.1, depth);
            let text = step(inner, 1, bytes, c, depth);
            let d = skip(inner, 2, bytes, text.1, depth);
            let leaf = made(Rule::String, *message()->Node_1, bytes, c, depth);
            assert(said.0 =~= seq![leaf]);
        }
        assert(node.children =~= name.0 + body.0 + said.0);
    }
}

/// A declaration of a specification.
pub open spec fn declared(tree: Tree) -> bool {
    match tree.rule {
        Rule::ConstantStream => valid_constant(tree),
        Rule::InputStream => valid_inputs(tree),
        Rule::OutputStream => valid_output(tree),
        Rule::Trigger => valid_trigger(tree),
        Rule::EOI => true,
        _ => false,
    }
}

/// A specification is one of the builder.
pub proof fn lemma_specification(bytes: Seq<u8>, at: int, depth: nat)
    requires
        sound(bytes, depth),
    ensures
        parsed(grammar(), specification(), bytes, at, depth) matches Some(found) ==> shaped(
            SPEC as nat,
            found.0,
        ),
{
    if parsed(grammar(), specification(), bytes, at, depth) is Some {
        lemma_quiet_words();
        let body = *specification()->Node_1;
        let node = made(Rule::Spec, body, bytes, at, depth);
        let parts = body->All_0;
        let declaration = PegView::Choice(
            none().push(PegView::Call(CONSTANT as nat)).push(PegView::Call(INPUT as nat)).push(
                PegView::Call(OUTPUT as nat),
            ).push(PegView::Call(TRIGGER as nat)),
        );
        let each = PegView::All(none().push(declaration).push(space()));
        let end = PegView::Not(Box::new(PegView::Byte(0x00, 0xff)));
        assert(parts[1] == PegView::Star(Box::new(each)));
        assert(parts[2] == PegView::Node(Rule::EOI, Box::new(end)));
        let a = skip(parts, 0, bytes, at, depth);
        let list = step(parts, 1, bytes, a, depth);
        let last = step(parts, 2, bytes, list.1, depth);
        let leaf = made(Rule::EOI, end, bytes, list.1, depth);
        let one = |trees: Seq<Tree>| trees.len() == 1 && declared(trees[0]);
        let all = |trees: Seq<Tree>|
            forall|k: int| 0 <= k < trees.len() ==> declared(#[trigger] trees[k]);
        assert forall|from: int|
            (#[trigger] parsed(grammar(), each, bytes, from, depth)) is Some implies one(
            parsed(grammar(), each, bytes, from, depth).unwrap().0,
        ) by {
            if parsed(grammar(), each, bytes, from, depth) is Some {
                let inner = each->All_0;
                let found = step(inner, 0, bytes, from, depth);
                let blank = skip(inner, 1, bytes, found.1, depth);
                let i = chosen(declaration->Choice_0, 0, bytes, from, depth);
                assert(parsed(grammar(), each, bytes, from, depth).unwrap().0 =~= found.0);
            }
        }
        lemma_star(each, bytes, a, depth, one, all);
        assert(node.children =~= list.0 + seq![leaf]);
        assert(all(list.0));
        assert forall|k: int| 0 <= k < node.children.len() implies declared(
            #[trigger] node.children[k],
        ) by {
            if k < list.0.len() {
                assert(node.children[k] == list.0[k]);
            }
        }
    }
}


/// What a word's node is, where its expression matches.
pub proof fn worded(rule: Rule, body: PegView, bytes: Seq<u8>, at: int, depth: nat) -> (node: Tree)
    requires
        parsed(grammar(), PegView::Word(rule, Box::new(body)), bytes, at, depth) is Some,
    ensures
        parsed(grammar(), PegView::Word(rule, Box::new(body)), bytes, at, depth).unwrap().0 == seq![
            node,
        ],
        node.rule == rule,
        node.children.len() == 0,
        is_word(body, node.text),
{
    let inner = parsed(grammar(), body, bytes, at, depth).unwrap();
    node_of(rule, bytes, at, inner.1, Seq::empty()).unwrap()
}

/// What a node of any kind is, where its expression matches: one tree of
/// that kind.
pub proof fn lemma_kind(peg: PegView, bytes: Seq<u8>, at: int, depth: nat)
    requires
        peg is Node,
        parsed(grammar(), peg, bytes, at, depth) is Some,
    ensures
        parsed(grammar(), peg, bytes, at, depth).unwrap().0.len() == 1,
        parsed(grammar(), peg, bytes, at, depth).unwrap().0[0].rule == peg->Node_0,
{
    let node = made(peg->Node_0, *peg->Node_1, bytes, at, depth);
}

/// The text that one of several texts matched is one of them.
pub proof fn lemma_text(texts: Seq<PegView>, bytes: Seq<u8>, at: int, depth: nat) -> (i: int)
    requires
        parsed(grammar(), PegView::Choice(texts), bytes, at, depth) is Some,
        forall|k: int| 0 <= k < texts.len() ==> (#[trigger] texts[k]) is Text,
    ensures
        0 <= i < texts.len(),
        parsed(grammar(), PegView::Choice(texts), bytes, at, depth).unwrap().0 == Seq::<
            Tree,
        >::empty(),
        decode_utf8(
            bytes.subrange(at, parsed(grammar(), PegView::Choice(texts), bytes, at, depth).unwrap().1),
        ) == texts[i]->Text_0,
{
    let i = chosen(texts, 0, bytes, at, depth);
    let word = texts[i]->Text_0;
    assert(has_at(bytes, at, encode_utf8(word)));
    encode_utf8_decode_utf8(word);
    i
}

/// What a fold yields, where it matches: what its first part yields, or one
/// node of what both parts yield.
pub proof fn folded(rule: Rule, first: PegView, second: PegView, bytes: Seq<u8>, at: int, depth: nat) -> (found:
    (Seq<Tree>, int))
    requires
        parsed(
            grammar(),
            PegView::Fold(rule, Box::new(first), Box::new(second)),
            bytes,
            at,
            depth,
        ) is Some,
    ensures
        parsed(grammar(), first, bytes, at, depth) == Some(found),
        match parsed(grammar(), second, bytes, found.1, depth) {
            Some(more) => {
                let all = parsed(
                    grammar(),
                    PegView::Fold(rule, Box::new(first), Box::new(second)),
                    bytes,
                    at,
                    depth,
                ).unwrap().0;
                all.len() == 1 && all[0].rule == rule && all[0].children == found.0 + more.0
            },
            None => parsed(
                grammar(),
                PegView::Fold(rule, Box::new(first), Box::new(second)),
                bytes,
                at,
                depth,
            ).unwrap().0 == found.0,
        },
{
    parsed(grammar(), first, bytes, at, depth).unwrap()
}

/// A number or a truth value is a leaf that a literal may hold.
pub proof fn lemma_plain_value(bytes: Seq<u8>, at: int, depth: nat)
    ensures
        parsed(grammar(), plain_value(), bytes, at, depth) matches Some(found) ==> {
            &&& found.0.len() == 1
            &&& found.0[0].rule == Rule::True || found.0[0].rule == Rule::False || (found.0[0].rule
                == Rule::NumberLiteral && is_number(found.0[0].text))
        },
{
    if parsed(grammar(), plain_value(), bytes, at, depth) is Some {
        let alternatives = plain_value()->Choice_0;
        assert(alternatives[0] == number());
        assert(alternatives[1] is Node && alternatives[1]->Node_0 == Rule::True);
        assert(alternatives[2] is Node && alternatives[2]->Node_0 == Rule::False);
        let i = chosen(alternatives, 0, bytes, at, depth);
        if i == 0 {
            let node = worded(Rule::NumberLiteral, *number()->Word_1, bytes, at, depth);
        } else {
            lemma_kind(alternatives[i], bytes, at, depth);
        }
    }
}

/// A literal of an expression is one of the builder.
pub proof fn lemma_value(bytes: Seq<u8>, at: int, depth: nat)
    ensures
        parsed(grammar(), value(), bytes, at, depth) matches Some(found) ==> shaped(
            VALUE as nat,
            found.0,
        ),
{
    if parsed(grammar(), value(), bytes, at, depth) is Some {
        let node = made(Rule::Literal, plain_value(), bytes, at, depth);
        lemma_plain_value(bytes, at, depth);
    }
}

/// The value of a constant is a literal of the builder.
pub proof fn lemma_literal(bytes: Seq<u8>, at: int, depth: nat)
    requires
        sound(bytes, depth),
    ensures
        parsed(grammar(), literal(), bytes, at, depth) matches Some(found) ==> shaped(
            LITERAL as nat,
            found.0,
        ),
{
    if parsed(grammar(), literal(), bytes, at, depth) is Some {
        let choice = *literal()->Node_1;
        let node = made(Rule::Literal, choice, bytes, at, depth);
        let alternatives = choice->Choice_0;
        let element = PegView::Call(LITERAL as nat);
        let list = bracketed(listed(element, element));
        assert(alternatives[0] == plain_value());
        assert(alternatives[1] == PegView::Node(Rule::TupleLiteral, Box::new(list)));
        let i = chosen(alternatives, 0, bytes, at, depth);
        if i == 0 {
            lemma_plain_value(bytes, at, depth);
        } else {
            let inner = made(Rule::TupleLiteral, list, bytes, at, depth);
            let one = |trees: Seq<Tree>| trees.len() == 1 && valid_literal(trees[0]);
            let all = |trees: Seq<Tree>|
                forall|k: int| 0 <= k < trees.len() ==> valid_literal(#[trigger] trees[k]);
            match lemma_bracketed(listed(element, element), bytes, at, depth) {
                Some(from) => {
                    let found = lemma_listed(element, element, bytes, from, depth, one, all);
                    assert(all(found.0 + found.1));
                },
                None => {},
            }
            assert(node.children[0] == inner);
            assert(forall|k: int|
                0 <= k < inner.children.len() ==> valid_literal(#[trigger] inner.children[k]));
        }
    }
}

/// A binary operator is one.
pub proof fn lemma_operator(bytes: Seq<u8>, at: int, depth: nat)
    ensures
        parsed(grammar(), operator(), bytes, at, depth) matches Some(found) ==> shaped(
            OPERATOR as nat,
            found.0,
        ),
{
    if parsed(grammar(), operator(), bytes, at, depth) is Some {
        let alternatives = operator()->Choice_0;
        assert(alternatives.len() == 14);
        assert(alternatives[0] is Node && alternatives[0]->Node_0 == Rule::Power);
        assert(alternatives[1] is Node && alternatives[1]->Node_0 == Rule::Multiply);
        assert(alternatives[2] is Node && alternatives[2]->Node_0 == Rule::Divide);
        assert(alternatives[3] is Node && alternatives[3]->Node_0 == Rule::Mod);
        assert(alternatives[4] is Node && alternatives[4]->Node_0 == Rule::Add);
        assert(alternatives[5] is Node && alternatives[5]->Node_0 == Rule::Subtract);
        assert(alternatives[6] is Node && alternatives[6]->Node_0 == Rule::Or);
        assert(alternatives[7] is Node && alternatives[7]->Node_0 == Rule::And);
        assert(alternatives[8] is Node && alternatives[8]->Node_0 == Rule::LessThanOrEqual);
        assert(alternatives[9] is Node && alternatives[9]->Node_0 == Rule::MoreThanOrEqual);
        assert(alternatives[10] is Node && alternatives[10]->Node_0 == Rule::NotEqual);
        assert(alternatives[11] is Node && alternatives[11]->Node_0 == Rule::Equal);
        assert(alternatives[12] is Node && alternatives[12]->Node_0 == Rule::LessThan);
        assert(alternatives[13] is Node && alternatives[13]->Node_0 == Rule::MoreThan);
        let i = chosen(alternatives, 0, bytes, at, depth);
        lemma_kind(alternatives[i], bytes, at, depth);
    }
}

/// An expression holds operands with binary operators between them.
pub proof fn lemma_expression(bytes: Seq<u8>, at: int, depth: nat)
    requires
        sound(bytes, depth),
    ensures
        parsed(grammar(), expression(), bytes, at, depth) matches Some(found) ==> shaped(
            EXPR as nat,
            found.0,
        ),
{
    if parsed(grammar(), expression(), bytes, at, depth) is Some {
        lemma_quiet_words();
        let body = *expression()->Node_1;
        let node = made(Rule::Expr, body, bytes, at, depth);
        let parts = body->All_0;
        let each = PegView::All(
            none().push(space()).push(PegView::Call(OPERATOR as nat)).push(space()).push(
                PegView::Call(TERM as nat),
            ),
        );
        assert(parts[1] == PegView::Star(Box::new(each)));
        let first = step(parts, 0, bytes, at, depth);
        let rest = step(parts, 1, bytes, first.1, depth);
        let one = |trees: Seq<Tree>|
            trees.len() == 2 && is_binary_operator(trees[0].rule) && valid_primary(trees[1]);
        let all = |trees: Seq<Tree>|
            trees.len() % 2 == 0 && forall|k: int|
                0 <= k < trees.len() ==> if k % 2 == 0 {
                    is_binary_operator((#[trigger] trees[k]).rule)
                } else {
                    valid_primary(trees[k])
                };
        assert forall|from: int|
            (#[trigger] parsed(grammar(), each, bytes, from, depth)) is Some implies one(
            parsed(grammar(), each, bytes, from, depth).unwrap().0,
        ) by {
            let inner = each->All_0;
            let a = skip(inner, 0, bytes, from, depth);
            let op = step(inner, 1, bytes, a, depth);
            let b = skip(inner, 2, bytes, op.1, depth);
            let operand = step(inner, 3, bytes, b, depth);
            assert(parsed(grammar(), each, bytes, from, depth).unwrap().0 =~= op.0 + operand.0);
        }
        lemma_star(each, bytes, first.1, depth, one, all);
        assert(all(rest.0));
        let pairs = node.children;
        assert(pairs =~= first.0 + rest.0);
        assert forall|k: int| 0 <= k < pairs.len() && k % 2 == 0 implies valid_primary(
            #[trigger] pairs[k],
        ) by {
            if k > 0 {
                assert(pairs[k] == rest.0[k - 1]);
            }
        }
        assert forall|k: int| 0 <= k < rules_of(pairs).len() && k % 2 == 1 implies is_binary_operator(
            #[trigger] rules_of(pairs)[k],
        ) by {
            assert(pairs[k] == rest.0[k - 1]);
        }
        assert(alternates(rules_of(pairs)));
    }
}

/// The operand of a unary operator holds one operand.
pub proof fn lemma_operand(bytes: Seq<u8>, at: int, depth: nat)
    requires
        sound(bytes, depth),
    ensures
        parsed(grammar(), operand(), bytes, at, depth) matches Some(found) ==> shaped(
            OPERAND as nat,
            found.0,
        ),
{
    if parsed(grammar(), operand(), bytes, at, depth) is Some {
        let node = made(Rule::Expr, PegView::Call(TERM as nat), bytes, at, depth);
        let pairs = node.children;
        assert(rules_of(pairs).len() == 1);
        assert(alternates(rules_of(pairs)));
    }
}

/// Arguments are expressions, one or more.
pub proof fn lemma_arguments(bytes: Seq<u8>, at: int, depth: nat)
    requires
        sound(bytes, depth),
    ensures
        parsed(grammar(), arguments(), bytes, at, depth) matches Some(found) ==> shaped(
            ARGUMENTS as nat,
            found.0,
        ),
{
    if parsed(grammar(), arguments(), bytes, at, depth) is Some {
        let element = PegView::Call(EXPR as nat);
        let one = |trees: Seq<Tree>| trees.len() == 1 && valid_expression(trees[0].children);
        let all = |trees: Seq<Tree>|
            forall|k: int| 0 <= k < trees.len() ==> valid_expression((#[trigger] trees[k]).children);
        let found = lemma_listed(element, element, bytes, at, depth, one, all);
        assert(all(found.0 + found.1));
    }
}


/// The conditional expression is an operand of the builder.
pub proof fn lemma_ternary(bytes: Seq<u8>, at: int, depth: nat)
    requires
        sound(bytes, depth),
    ensures
        parsed(grammar(), ternary(), bytes, at, depth) matches Some(found) ==> found.0.len() == 1
            && valid_primary(found.0[0]),
{
    if parsed(grammar(), ternary(), bytes, at, depth) is Some {
        lemma_quiet_words();
        let body = *ternary()->Node_1;
        let node = made(Rule::TernaryExpr, body, bytes, at, depth);
        let parts = body->All_0;
        let a = skip(parts, 0, bytes, at, depth);
        let b = skip(parts, 1, bytes, a, depth);
        let condition = step(parts, 2, bytes, b, depth);
        let c = skip(parts, 3, bytes, condition.1, depth);
        let d = skip(parts, 4, bytes, c, depth);
        let e = skip(parts, 5, bytes, d, depth);
        let consequence = step(parts, 6, bytes, e, depth);
        let f = skip(parts, 7, bytes, consequence.1, depth);
        let g = skip(parts, 8, bytes, f, depth);
        let h = skip(parts, 9, bytes, g, depth);
        let alternative = step(parts, 10, bytes, h, depth);
        assert(node.children =~= condition.0 + consequence.0 + alternative.0);
    }
}

/// A unary operator with its operand is an operand of the builder.
pub proof fn lemma_unary(bytes: Seq<u8>, at: int, depth: nat)
    requires
        sound(bytes, depth),
    ensures
        parsed(grammar(), unary(), bytes, at, depth) matches Some(found) ==> found.0.len() == 1
            && valid_primary(found.0[0]),
{
    if parsed(grammar(), unary(), bytes, at, depth) is Some {
        lemma_quiet_words();
        let body = *unary()->Node_1;
        let node = made(Rule::UnaryExpr, body, bytes, at, depth);
        let parts = body->All_0;
        let signs = parts[0]->Choice_0;
        assert(signs[0] is Node && signs[0]->Node_0 == Rule::Add);
        assert(signs[1] is Node && signs[1]->Node_0 == Rule::Subtract);
        assert(signs[2] is Node && signs[2]->Node_0 == Rule::Neg);
        let op = step(parts, 0, bytes, at, depth);
        let a = skip(parts, 1, bytes, op.1, depth);
        let inner = step(parts, 2, bytes, a, depth);
        let i = chosen(signs, 0, bytes, at, depth);
        lemma_kind(signs[i], bytes, at, depth);
        assert(node.children =~= op.0 + inner.0);
    }
}

/// An expression in parentheses is an operand of the builder.
pub proof fn lemma_closed_parentheses(bytes: Seq<u8>, at: int, depth: nat)
    requires
        sound(bytes, depth),
    ensures
        parsed(grammar(), closed_parentheses(), bytes, at, depth) matches Some(found)
            ==> found.0.len() == 1 && valid_primary(found.0[0]),
{
    if parsed(grammar(), closed_parentheses(), bytes, at, depth) is Some {
        lemma_quiet_words();
        let body = *closed_parentheses()->Node_1;
        let node = made(Rule::ParenthesizedExpression, body, bytes, at, depth);
        let parts = body->All_0;
        assert(parts[0] is Node);
        assert(parts[4] is Node);
        let open = step(parts, 0, bytes, at, depth);
        let a = skip(parts, 1, bytes, open.1, depth);
        let inner = step(parts, 2, bytes, a, depth);
        let b = skip(parts, 3, bytes, inner.1, depth);
        let close = step(parts, 4, bytes, b, depth);
        lemma_kind(parts[0], bytes, at, depth);
        lemma_kind(parts[4], bytes, b, depth);
        assert(node.children =~= open.0 + inner.0 + close.0);
    }
}

/// An expression behind an open parenthesis is an operand of the builder.
pub proof fn lemma_open_parentheses(bytes: Seq<u8>, at: int, depth: nat)
    requires
        sound(bytes, depth),
    ensures
        parsed(grammar(), open_parentheses(), bytes, at, depth) matches Some(found)
            ==> found.0.len() == 1 && valid_primary(found.0[0]),
{
    if parsed(grammar(), open_parentheses(), bytes, at, depth) is Some {
        lemma_quiet_words();
        let body = *open_parentheses()->Node_1;
        let node = made(Rule::ParenthesizedExpression, body, bytes, at, depth);
        let parts = body->All_0;
        assert(parts[0] is Node);
        assert(parts[3] is Node);
        let open = step(parts, 0, bytes, at, depth);
        let a = skip(parts, 1, bytes, open.1, depth);
        let inner = step(parts, 2, bytes, a, depth);
        let close = step(parts, 3, bytes, inner.1, depth);
        lemma_kind(parts[0], bytes, at, depth);
        lemma_kind(parts[3], bytes, inner.1, depth);
        assert(node.children =~= open.0 + inner.0 + close.0);
    }
}

/// A tuple is an operand of the builder: it never has one element.
pub proof fn lemma_tuple(bytes: Seq<u8>, at: int, depth: nat)
    requires
        sound(bytes, depth),
    ensures
        parsed(grammar(), tuple(), bytes, at, depth) matches Some(found) ==> found.0.len() == 1
            && valid_primary(found.0[0]),
{
    if parsed(grammar(), tuple(), bytes, at, depth) is Some {
        lemma_quiet_words();
        let body = *tuple()->Node_1;
        let node = made(Rule::Tuple, body, bytes, at, depth);
        let inner = PegView::All(
            none().push(PegView::Call(EXPR as nat)).push(token(","@)).push(space()).push(
                PegView::Call(ARGUMENTS as nat),
            ),
        );
        assert(body == bracketed(inner));
        match lemma_bracketed(inner, bytes, at, depth) {
            Some(from) => {
                let parts = inner->All_0;
                let first = step(parts, 0, bytes, from, depth);
                let a = skip(parts, 1, bytes, first.1, depth);
                let b = skip(parts, 2, bytes, a, depth);
                let rest = step(parts, 3, bytes, b, depth);
                assert(node.children =~= first.0 + rest.0);
                assert forall|k: int| 0 <= k < node.children.len() implies valid_expression(
                    (#[trigger] node.children[k]).children,
                ) by {
                    if k > 0 {
                        assert(node.children[k] == rest.0[k - 1]);
                    }
                }
            },
            None => {},
        }
    }
}

/// The name of a function is one that stands for a function.
pub proof fn lemma_function_name(bytes: Seq<u8>, at: int, depth: nat)
    ensures
        parsed(grammar(), function_name(), bytes, at, depth) matches Some(found) ==> found.0.len()
            == 1 && function_kind_of(found.0[0].text) is Some,
{
    if parsed(grammar(), function_name(), bytes, at, depth) is Some {
        let body = *function_name()->Node_1;
        let node = made(Rule::FunctionName, body, bytes, at, depth);
        let texts = body->Choice_0;
        assert(texts.len() == 12);
        assert(texts[0] == PegView::Text("arcsin"@));
        assert(texts[1] == PegView::Text("arccos"@));
        assert(texts[2] == PegView::Text("arctar"@));
        assert(texts[3] == PegView::Text("nroot"@));
        assert(texts[4] == PegView::Text("sqrt"@));
        assert(texts[5] == PegView::Text("sin"@));
        assert(texts[6] == PegView::Text("cos"@));
        assert(texts[7] == PegView::Text("tan"@));
        assert(texts[8] == PegView::Text("exp"@));
        assert(texts[9] == PegView::Text("floor"@));
        assert(texts[10] == PegView::Text("ceil"@));
        assert(texts[11] == PegView::Text("π"@));
        let i = lemma_text(texts, bytes, at, depth);
    }
}

/// A function call is an operand of the builder.
pub proof fn lemma_function(bytes: Seq<u8>, at: int, depth: nat)
    requires
        sound(bytes, depth),
    ensures
        parsed(grammar(), function(), bytes, at, depth) matches Some(found) ==> found.0.len() == 1
            && valid_primary(found.0[0]),
{
    if parsed(grammar(), function(), bytes, at, depth) is Some {
        lemma_quiet_words();
        let body = *function()->Node_1;
        let node = made(Rule::FunctionExpr, body, bytes, at, depth);
        let parts = body->All_0;
        let list = PegView::Call(ARGUMENTS as nat);
        assert(parts[0] == function_name());
        assert(parts[3] == optional(list));
        let name = step(parts, 0, bytes, at, depth);
        let a = skip(parts, 1, bytes, name.1, depth);
        let b = skip(parts, 2, bytes, a, depth);
        let rest = step(parts, 3, bytes, b, depth);
        let c = skip(parts, 4, bytes, rest.1, depth);
        lemma_function_name(bytes, at, depth);
        lemma_optional(list, bytes, b, depth);
        assert(node.children =~= name.0 + rest.0);
        assert forall|k: int| 1 <= k < node.children.len() implies valid_expression(
            (#[trigger] node.children[k]).children,
        ) by {
            assert(node.children[k] == rest.0[k - 1]);
        }
    }
}

/// A stream instance holds the stream's name and then expressions.
pub proof fn lemma_instance(bytes: Seq<u8>, at: int, depth: nat)
    requires
        sound(bytes, depth),
    ensures
        parsed(grammar(), instance(), bytes, at, depth) matches Some(found) ==> {
            &&& found.0.len() == 1
            &&& found.0[0].children.len() >= 1
            &&& found.0[0].children[0].rule == Rule::Ident
            &&& valid_arguments(found.0[0].children, 1)
        },
{
    if parsed(grammar(), instance(), bytes, at, depth) is Some {
        lemma_quiet_words();
        let body = *instance()->Node_1;
        let node = made(Rule::StreamInstance, body, bytes, at, depth);
        let parts = body->All_0;
        let list = PegView::All(
            none().push(token("("@)).push(space()).push(PegView::Call(ARGUMENTS as nat)).push(
                token(")"@),
            ),
        );
        assert(parts[1] == optional(list));
        let name = step(parts, 0, bytes, at, depth);
        let rest = step(parts, 1, bytes, name.1, depth);
        lemma_optional(list, bytes, name.1, depth);
        if parsed(grammar(), list, bytes, name.1, depth) is Some {
            let inner = list->All_0;
            let a = skip(inner, 0, bytes, name.1, depth);
            let b = skip(inner, 1, bytes, a, depth);
            let c = step(inner, 2, bytes, b, depth);
            let d = skip(inner, 3, bytes, c.1, depth);
            assert(rest.0 =~= c.0);
        }
        assert(node.children =~= name.0 + rest.0);
        assert forall|k: int| 1 <= k < node.children.len() implies valid_expression(
            (#[trigger] node.children[k]).children,
        ) by {
            assert(node.children[k] == rest.0[k - 1]);
        }
    }
}

/// A unit of time is one that the builder knows.
pub proof fn lemma_unit(bytes: Seq<u8>, at: int, depth: nat)
    ensures
        parsed(grammar(), unit(), bytes, at, depth) matches Some(found) ==> found.0.len() == 1
            && unit_of(found.0[0].text) is Some,
{
    if parsed(grammar(), unit(), bytes, at, depth) is Some {
        lemma_quiet_words();
        let body = *unit()->Node_1;
        let node = made(Rule::Unit, body, bytes, at, depth);
        let parts = body->All_0;
        let texts = parts[0]->Choice_0;
        assert(parts[0] == PegView::Choice(texts));
        assert(texts.len() == 9);
        assert(texts[0] == PegView::Text("ns"@));
        assert(texts[1] == PegView::Text("μs"@));
        assert(texts[2] == PegView::Text("ms"@));
        assert(texts[3] == PegView::Text("min"@));
        assert(texts[4] == PegView::Text("s"@));
        assert(texts[5] == PegView::Text("h"@));
        assert(texts[6] == PegView::Text("d"@));
        assert(texts[7] == PegView::Text("w"@));
        assert(texts[8] == PegView::Text("a"@));
        let word = step(parts, 0, bytes, at, depth);
        let end = step(parts, 1, bytes, word.1, depth);
        assert(end.1 == word.1);
        let i = lemma_text(texts, bytes, at, depth);
        assert(node.children =~= Seq::<Tree>::empty());
    }
}

/// What stands for an offset: an expression, or a duration of an expression
/// and a unit.
pub open spec fn offsets(tree: Tree) -> bool {
    ||| tree.rule == Rule::Expr && valid_expression(tree.children)
    ||| {
        &&& tree.rule == Rule::Duration
        &&& tree.children.len() >= 2
        &&& valid_expression(tree.children[0].children)
        &&& unit_of(tree.children[1].text) is Some
    }
}

/// An offset is one of the builder.
pub proof fn lemma_offset(bytes: Seq<u8>, at: int, depth: nat)
    requires
        sound(bytes, depth),
    ensures
        parsed(grammar(), offset(), bytes, at, depth) matches Some(found) ==> found.0.len() == 1
            && offsets(found.0[0]),
{
    if parsed(grammar(), offset(), bytes, at, depth) is Some {
        lemma_quiet_words();
        let second = PegView::All(none().push(space()).push(unit()));
        let first = folded(Rule::Duration, PegView::Call(EXPR as nat), second, bytes, at, depth);
        if parsed(grammar(), second, bytes, first.1, depth) is Some {
            let parts = second->All_0;
            let a = skip(parts, 0, bytes, first.1, depth);
            let word = step(parts, 1, bytes, a, depth);
            lemma_unit(bytes, a, depth);
            let more = parsed(grammar(), second, bytes, first.1, depth).unwrap().0;
            assert(more =~= word.0);
            let node = parsed(grammar(), offset(), bytes, at, depth).unwrap().0[0];
            assert(node.children =~= first.0 + more);
            assert(node.children[0] == first.0[0]);
            assert(node.children[1] == word.0[0]);
        }
    }
}

/// The operation of a window is one that the builder knows.
pub proof fn lemma_window(bytes: Seq<u8>, at: int, depth: nat)
    ensures
        parsed(grammar(), window(), bytes, at, depth) matches Some(found) ==> found.0.len() == 1
            && window_of(found.0[0].rule) is Some,
{
    if parsed(grammar(), window(), bytes, at, depth) is Some {
        let alternatives = window()->Choice_0;
        assert(alternatives[0] is Node && alternatives[0]->Node_0 == Rule::Sum);
        assert(alternatives[1] is Node && alternatives[1]->Node_0 == Rule::Product);
        assert(alternatives[2] is Node && alternatives[2]->Node_0 == Rule::Average);
        assert(alternatives[3] is Node && alternatives[3]->Node_0 == Rule::Count);
        assert(alternatives[4] is Node && alternatives[4]->Node_0 == Rule::Integral);
        let i = chosen(alternatives, 0, bytes, at, depth);
        lemma_kind(alternatives[i], bytes, at, depth);
    }
}

/// A lookup, with or without a default, is an operand of the builder.
pub proof fn lemma_lookup(bytes: Seq<u8>, at: int, depth: nat)
    requires
        sound(bytes, depth),
    ensures
        parsed(grammar(), lookup(), bytes, at, depth) matches Some(found) ==> shaped(
            LOOKUP as nat,
            found.0,
        ),
{
    if parsed(grammar(), lookup(), bytes, at, depth) is Some {
        lemma_quiet_words();
        let plain = *lookup()->Fold_1;
        let fallback = *lookup()->Fold_2;
        let first = folded(Rule::DefaultExpr, plain, fallback, bytes, at, depth);
        let body = *plain->Node_1;
        let node = made(Rule::LookupExpr, body, bytes, at, depth);
        let parts = body->All_0;
        let aggregate = PegView::All(none().push(token(","@)).push(space()).push(window()));
        assert(parts[0] == instance());
        assert(parts[3] == offset());
        assert(parts[4] == optional(aggregate));
        let target = step(parts, 0, bytes, at, depth);
        let a = skip(parts, 1, bytes, target.1, depth);
        let b = skip(parts, 2, bytes, a, depth);
        let distance = step(parts, 3, bytes, b, depth);
        let over = step(parts, 4, bytes, distance.1, depth);
        let c = skip(parts, 5, bytes, over.1, depth);
        lemma_instance(bytes, at, depth);
        lemma_offset(bytes, b, depth);
        lemma_optional(aggregate, bytes, distance.1, depth);
        if parsed(grammar(), aggregate, bytes, distance.1, depth) is Some {
            let inner = aggregate->All_0;
            let d = skip(inner, 0, bytes, distance.1, depth);
            let e = skip(inner, 1, bytes, d, depth);
            let f = step(inner, 2, bytes, e, depth);
            lemma_window(bytes, e, depth);
            assert(over.0 =~= f.0);
        }
        assert(node.children =~= target.0 + distance.0 + over.0);
        assert(node.children[0] == target.0[0]);
        assert(node.children[1] == distance.0[0]);
        assert(valid_lookup(node));
        if parsed(grammar(), fallback, bytes, first.1, depth) is Some {
            let inner = fallback->All_0;
            let d = skip(inner, 0, bytes, first.1, depth);
            let e = skip(inner, 1, bytes, d, depth);
            let f = step(inner, 2, bytes, e, depth);
            let more = parsed(grammar(), fallback, bytes, first.1, depth).unwrap().0;
            assert(more =~= f.0);
            let whole = parsed(grammar(), lookup(), bytes, at, depth).unwrap().0[0];
            assert(whole.children =~= first.0 + more);
            assert(whole.children[0] == node);
            assert(whole.children[1] == f.0[0]);
        }
    }
}

/// An operand is one of the builder.
pub proof fn lemma_term(bytes: Seq<u8>, at: int, depth: nat)
    requires
        sound(bytes, depth),
    ensures
        parsed(grammar(), term(), bytes, at, depth) matches Some(found) ==> shaped(
            TERM as nat,
            found.0,
        ),
{
    if parsed(grammar(), term(), bytes, at, depth) is Some {
        let alternatives = term()->Choice_0;
        assert(alternatives.len() == 9);
        assert(alternatives[0] == ternary());
        assert(alternatives[1] == PegView::Call(VALUE as nat));
        assert(alternatives[2] == unary());
        assert(alternatives[3] == closed_parentheses());
        assert(alternatives[4] == tuple());
        assert(alternatives[5] == open_parentheses());
        assert(alternatives[6] == function());
        assert(alternatives[7] == PegView::Call(LOOKUP as nat));
        assert(alternatives[8] == PegView::Call(IDENT as nat));
        let i = chosen(alternatives, 0, bytes, at, depth);
        lemma_ternary(bytes, at, depth);
        lemma_unary(bytes, at, depth);
        lemma_closed_parentheses(bytes, at, depth);
        lemma_tuple(bytes, at, depth);
        lemma_open_parentheses(bytes, at, depth);
        lemma_function(bytes, at, depth);
    }
}

/// A declaration, called with one call more, yields what the builder takes.
proof fn lemma_called_declaration(rule: nat, bytes: Seq<u8>, at: int, depth: nat)
    requires
        sound(bytes, depth),
        rule == SPEC || rule == CONSTANT || rule == INPUT || rule == OUTPUT || rule == TRIGGER
            || rule == HEAD,
    ensures
        parsed(grammar(), PegView::Call(rule), bytes, at, depth + 1) matches Some(found)
            ==> shaped(rule, found.0),
{
    lemma_rules();
    assert(parsed(grammar(), PegView::Call(rule), bytes, at, depth + 1) == parsed(
        grammar(),
        grammar()[rule as int],
        bytes,
        at,
        depth,
    ));
    if rule == SPEC {
        lemma_specification(bytes, at, depth);
    } else if rule == CONSTANT {
        lemma_constant(bytes, at, depth);
    } else if rule == INPUT {
        lemma_input(bytes, at, depth);
    } else if rule == OUTPUT {
        lemma_output(bytes, at, depth);
    } else if rule == TRIGGER {
        lemma_trigger(bytes, at, depth);
    } else {
        lemma_head(bytes, at, depth);
    }
}

/// A name, a type or a value, called with one call more, yields what the
/// builder takes.
proof fn lemma_called_word(rule: nat, bytes: Seq<u8>, at: int, depth: nat)
    requires
        sound(bytes, depth),
        rule == WS || rule == IDENT || rule == PARAMS || rule == TYPE || rule == LITERAL || rule
            == VALUE,
    ensures
        parsed(grammar(), PegView::Call(rule), bytes, at, depth + 1) matches Some(found)
            ==> shaped(rule, found.0),
{
    lemma_rules();
    assert(parsed(grammar(), PegView::Call(rule), bytes, at, depth + 1) == parsed(
        grammar(),
        grammar()[rule as int],
        bytes,
        at,
        depth,
    ));
    if rule == WS {
        lemma_quiet_words();
        lemma_quiet(whitespace(), bytes, at, depth);
    } else if rule == IDENT {
        lemma_identifier(bytes, at, depth);
    } else if rule == PARAMS {
        lemma_parameters(bytes, at, depth);
    } else if rule == TYPE {
        lemma_type(bytes, at, depth);
    } else if rule == LITERAL {
        lemma_literal(bytes, at, depth);
    } else {
        lemma_value(bytes, at, depth);
    }
}

/// A part of an expression, called with one call more, yields what the
/// builder takes.
proof fn lemma_called_expression(rule: nat, bytes: Seq<u8>, at: int, depth: nat)
    requires
        sound(bytes, depth),
        rule == EXPR || rule == TERM || rule == OPERATOR || rule == LOOKUP || rule == ARGUMENTS
            || rule == OPERAND,
    ensures
        parsed(grammar(), PegView::Call(rule), bytes, at, depth + 1) matches Some(found)
            ==> shaped(rule, found.0),
{
    lemma_rules();
    assert(parsed(grammar(), PegView::Call(rule), bytes, at, depth + 1) == parsed(
        grammar(),
        grammar()[rule as int],
        bytes,
        at,
        depth,
    ));
    if rule == EXPR {
        lemma_expression(bytes, at, depth);
    } else if rule == TERM {
        lemma_term(bytes, at, depth);
    } else if rule == OPERATOR {
        lemma_operator(bytes, at, depth);
    } else if rule == LOOKUP {
        lemma_lookup(bytes, at, depth);
    } else if rule == ARGUMENTS {
        lemma_arguments(bytes, at, depth);
    } else {
        lemma_operand(bytes, at, depth);
    }
}

/// A rule, called with one call more, yields what the builder takes.
proof fn lemma_called(rule: nat, bytes: Seq<u8>, at: int, depth: nat)
    requires
        sound(bytes, depth),
    ensures
        parsed(grammar(), PegView::Call(rule), bytes, at, depth + 1) matches Some(found)
            ==> shaped(rule, found.0),
{
    if rule == SPEC || rule == CONSTANT || rule == INPUT || rule == OUTPUT || rule == TRIGGER
        || rule == HEAD {
        lemma_called_declaration(rule, bytes, at, depth);
    } else if rule == WS || rule == IDENT || rule == PARAMS || rule == TYPE || rule == LITERAL
        || rule == VALUE {
        lemma_called_word(rule, bytes, at, depth);
    } else if rule == EXPR || rule == TERM || rule == OPERATOR || rule == LOOKUP || rule
        == ARGUMENTS || rule == OPERAND {
        lemma_called_expression(rule, bytes, at, depth);
    }
}

/// Every rule of the grammar yields what the builder takes.
pub proof fn lemma_sound(bytes: Seq<u8>, depth: nat)
    ensures
        sound(bytes, depth),
    decreases depth,
{
    if depth > 0 {
        let inner = (depth - 1) as nat;
        lemma_sound(bytes, inner);
        assert forall|rule: nat, at: int|
            (#[trigger] parsed(grammar(), PegView::Call(rule), bytes, at, depth)) matches Some(
                found,
            ) ==> shaped(rule, found.0) by {
            lemma_called(rule, bytes, at, inner);
        }
    }
}

/// What a tree of each kind has to be for the builder to take it.
pub open spec fn fits(rule: Rule, tree: Tree) -> bool {
    match rule {
        Rule::Spec => valid_specification(tree),
        Rule::ConstantStream => valid_constant(tree),
        Rule::InputStream => valid_inputs(tree),
        Rule::OutputStream => valid_output(tree),
        Rule::Trigger => valid_trigger(tree),
        Rule::Ident => tree.rule == Rule::Ident,
        Rule::ParamList => valid_parameters(tree),
        Rule::Type => valid_type(tree),
        Rule::Literal => valid_literal(tree),
        Rule::Expr => tree.rule == Rule::Expr && valid_expression(tree.children),
        _ => true,
    }
}

/// The grammar and the builder agree: the parse tree of a text, by whichever
/// rule it was parsed, is of the shape that the builder takes. So the tree
/// of a specification is a specification of the builder.
pub proof fn lemma_grammar_fits_builder(rule: Rule, bytes: Seq<u8>)
    ensures
        syntax_tree(rule, bytes) matches Some(tree) ==> fits(rule, tree),
        syntax_tree(Rule::Spec, bytes) matches Some(tree) ==> valid_specification(tree),
{
    lemma_sound(bytes, DEPTH as nat);
    if syntax_tree(rule, bytes) is Some {
        let start = entry(rule).unwrap();
        assert(parsed(grammar(), PegView::Call(start as nat), bytes, 0, DEPTH as nat) is Some);
    }
    if syntax_tree(Rule::Spec, bytes) is Some {
        assert(parsed(grammar(), PegView::Call(SPEC as nat), bytes, 0, DEPTH as nat) is Some);
    }
}

} // verus!
