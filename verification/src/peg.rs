//! Parsing expressions: how a grammar is written down, what it means, and the
//! interpreter that runs one on a text.
//!
//! A grammar is a list of rules, each a parsing expression. An expression is
//! tried at a position of the text; it fails, or it matches up to a later
//! position and yields parse trees. Choice is ordered and repetition is
//! greedy, so the meaning of an expression is a function of the text.

use crate::ast::Span;
use crate::tree::{copy_trees, tree_views, ParseTree, Rule, Tree};
use vstd::prelude::*;
use vstd::string::*;
use vstd::utf8::*;

verus! {

/// A parsing expression.
#[derive(Debug)]
pub enum Peg {
    /// Matches the bytes of a text.
    Text(String),
    /// Matches one byte that lies between two bounds, both included.
    Byte(u8, u8),
    /// Matches its parts one after the other.
    All(Vec<Peg>),
    /// Matches as the first of its alternatives that matches.
    Choice(Vec<Peg>),
    /// Matches its body as often as it matches and moves on.
    Star(Box<Peg>),
    /// Matches nothing, and only where its body does not match.
    Not(Box<Peg>),
    /// Matches as the rule with the given number.
    Call(usize),
    /// Matches as its body, and makes one node of what the body yields.
    Node(Rule, Box<Peg>),
    /// Matches as its body, where the text that the body takes is a word of
    /// the body: the body, tried on that text alone, takes all of it and
    /// yields nothing. Makes a node without children of it.
    Word(Rule, Box<Peg>),
    /// Matches as its first part, and then as its second where that matches:
    /// with it, one node is made of what both yield; without it, what the
    /// first part yields is left as it is.
    Fold(Rule, Box<Peg>, Box<Peg>),
}

pub enum PegView {
    Text(Seq<char>),
    Byte(u8, u8),
    All(Seq<PegView>),
    Choice(Seq<PegView>),
    Star(Box<PegView>),
    Not(Box<PegView>),
    Call(nat),
    Node(Rule, Box<PegView>),
    Word(Rule, Box<PegView>),
    Fold(Rule, Box<PegView>, Box<PegView>),
}

/// The views of a list of parsing expressions.
pub open spec fn peg_views(pegs: Seq<Peg>) -> Seq<PegView>
    decreases pegs,
{
    Seq::new(
        pegs.len(),
        |i: int|
            if 0 <= i < pegs.len() {
                peg_view(pegs[i])
            } else {
                arbitrary()
            },
    )
}

pub open spec fn peg_view(peg: Peg) -> PegView
    decreases peg,
{
    match peg {
        Peg::Text(text) => PegView::Text(text@),
        Peg::Byte(low, high) => PegView::Byte(low, high),
        Peg::All(parts) => PegView::All(peg_views(parts@)),
        Peg::Choice(alternatives) => PegView::Choice(peg_views(alternatives@)),
        Peg::Star(body) => PegView::Star(Box::new(peg_view(*body))),
        Peg::Not(body) => PegView::Not(Box::new(peg_view(*body))),
        Peg::Call(rule) => PegView::Call(rule as nat),
        Peg::Node(rule, body) => PegView::Node(rule, Box::new(peg_view(*body))),
        Peg::Word(rule, body) => PegView::Word(rule, Box::new(peg_view(*body))),
        Peg::Fold(rule, first, second) => PegView::Fold(
            rule,
            Box::new(peg_view(*first)),
            Box::new(peg_view(*second)),
        ),
    }
}

impl View for Peg {
    type V = PegView;

    open spec fn view(&self) -> PegView {
        peg_view(*self)
    }
}

/// What an expression yields where it matches: the trees, and the position
/// behind the match.
pub type Match = Option<(Seq<Tree>, int)>;

/// The node that a match from `start` to `end` makes of `children` under
/// `rule`. A node without children carries the text that was matched, which
/// has to begin and end between two characters; there is no node where it
/// does not.
pub open spec fn node_of(rule: Rule, bytes: Seq<u8>, start: int, end: int, children: Seq<Tree>) -> Option<
    Tree,
> {
    let span = Span { start: start as usize, end: end as usize };
    if children.len() > 0 {
        Some(Tree { rule, span, text: Seq::empty(), children })
    } else if is_char_boundary(bytes, start) && is_char_boundary(bytes, end) {
        Some(Tree { rule, span, text: decode_utf8(bytes.subrange(start, end)), children })
    } else {
        None
    }
}

/// Whether `bytes` holds `word` at position `at`.
pub open spec fn has_at(bytes: Seq<u8>, at: int, word: Seq<u8>) -> bool {
    &&& 0 <= at
    &&& at + word.len() <= bytes.len()
    &&& bytes.subrange(at, at + word.len()) == word
}

/// What `peg` yields at position `at` of `bytes`, under the rules `rules`.
/// `depth` bounds how deep calls of rules may nest: an expression fails where
/// it would need more.
pub open spec fn parsed(rules: Seq<PegView>, peg: PegView, bytes: Seq<u8>, at: int, depth: nat) -> Match
    decreases depth, peg, bytes.len() - at,
{
    match peg {
        PegView::Text(text) => if has_at(bytes, at, encode_utf8(text)) {
            Some((Seq::empty(), at + encode_utf8(text).len()))
        } else {
            None
        },
        PegView::Byte(low, high) => if 0 <= at < bytes.len() && low <= bytes[at] <= high {
            Some((Seq::empty(), at + 1))
        } else {
            None
        },
        PegView::All(parts) => parsed_all(rules, parts, 0, bytes, at, depth),
        PegView::Choice(alternatives) => parsed_first(rules, alternatives, 0, bytes, at, depth),
        PegView::Star(body) => match parsed(rules, *body, bytes, at, depth) {
            Some((trees, next)) => if at < next <= bytes.len() {
                match parsed(rules, peg, bytes, next, depth) {
                    Some((more, end)) => Some((trees + more, end)),
                    None => None,
                }
            } else {
                Some((Seq::empty(), at))
            },
            None => Some((Seq::empty(), at)),
        },
        PegView::Not(body) => if parsed(rules, *body, bytes, at, depth) is Some {
            None
        } else {
            Some((Seq::empty(), at))
        },
        PegView::Call(rule) => if depth > 0 && rule < rules.len() {
            parsed(rules, rules[rule as int], bytes, at, (depth - 1) as nat)
        } else {
            None
        },
        PegView::Node(rule, body) => match parsed(rules, *body, bytes, at, depth) {
            Some((children, end)) => match node_of(rule, bytes, at, end, children) {
                Some(node) => Some((seq![node], end)),
                None => None,
            },
            None => None,
        },
        PegView::Word(rule, body) => match parsed(rules, *body, bytes, at, depth) {
            Some((_, end)) => match node_of(rule, bytes, at, end, Seq::empty()) {
                Some(node) => if parsed(Seq::empty(), *body, encode_utf8(node.text), 0, 0) == Some(
                    (Seq::<Tree>::empty(), encode_utf8(node.text).len() as int),
                ) {
                    Some((seq![node], end))
                } else {
                    None
                },
                None => None,
            },
            None => None,
        },
        PegView::Fold(rule, first, second) => match parsed(rules, *first, bytes, at, depth) {
            Some((trees, next)) => match parsed(rules, *second, bytes, next, depth) {
                Some((more, end)) => match node_of(rule, bytes, at, end, trees + more) {
                    Some(node) => Some((seq![node], end)),
                    None => None,
                },
                None => Some((trees, next)),
            },
            None => None,
        },
    }
}

/// What the parts of a sequence yield from part `from` on.
pub open spec fn parsed_all(
    rules: Seq<PegView>,
    parts: Seq<PegView>,
    from: int,
    bytes: Seq<u8>,
    at: int,
    depth: nat,
) -> Match
    decreases depth, parts, parts.len() - from,
{
    if 0 <= from < parts.len() {
        match parsed(rules, parts[from], bytes, at, depth) {
            Some((trees, next)) => match parsed_all(rules, parts, from + 1, bytes, next, depth) {
                Some((more, end)) => Some((trees + more, end)),
                None => None,
            },
            None => None,
        }
    } else {
        Some((Seq::empty(), at))
    }
}

/// What the first matching alternative yields, from alternative `from` on.
pub open spec fn parsed_first(
    rules: Seq<PegView>,
    alternatives: Seq<PegView>,
    from: int,
    bytes: Seq<u8>,
    at: int,
    depth: nat,
) -> Match
    decreases depth, alternatives, alternatives.len() - from,
{
    if 0 <= from < alternatives.len() {
        match parsed(rules, alternatives[from], bytes, at, depth) {
            Some(found) => Some(found),
            None => parsed_first(rules, alternatives, from + 1, bytes, at, depth),
        }
    } else {
        None
    }
}


/// Whether `text` is a word of `body`: `body`, tried on `text` alone and
/// without rules, takes all of it and yields nothing.
pub open spec fn is_word(body: PegView, text: Seq<char>) -> bool {
    parsed(Seq::empty(), body, encode_utf8(text), 0, 0) == Some(
        (Seq::<Tree>::empty(), encode_utf8(text).len() as int),
    )
}

/// The text of `content` between two positions, if both lie between
/// characters.
pub fn text_between<'a>(content: &'a str, start: usize, end: usize) -> (text: Option<&'a str>)
    requires
        start <= end <= content.spec_bytes().len(),
    ensures
        text is Some <==> is_char_boundary(content.spec_bytes(), start as int) && is_char_boundary(
            content.spec_bytes(),
            end as int,
        ),
        text matches Some(found) ==> found@ == decode_utf8(
            content.spec_bytes().subrange(start as int, end as int),
        ),
{
    broadcast use group_utf8_lib;

    if !content.is_char_boundary(start) || !content.is_char_boundary(end) {
        return None;
    }
    let ghost bytes = content.spec_bytes();
    let (head, _) = content.split_at(end);
    proof {
        let front = bytes.subrange(0, end as int);
        assert(valid_utf8(bytes));
        valid_utf8_split(bytes, end as int);
        assert(valid_utf8(front));
        if start < end {
            is_char_boundary_iff_not_is_continuation_byte(bytes, start as int);
            is_char_boundary_iff_not_is_continuation_byte(front, start as int);
            assert(front[start as int] == bytes[start as int]);
        } else {
            is_char_boundary_start_end_of_seq(front);
        }
        assert(is_char_boundary(front, start as int));
    }
    let (_, text) = head.split_at(start);
    proof {
        assert(text.spec_bytes() =~= bytes.subrange(start as int, end as int));
        encode_utf8_decode_utf8(text@);
    }
    Some(text)
}

/// Whether `bytes` holds `word` at position `at`.
pub fn holds_at(bytes: &[u8], at: usize, word: &[u8]) -> (holds: bool)
    ensures
        holds == has_at(bytes@, at as int, word@),
{
    if at > bytes.len() || word.len() > bytes.len() - at {
        return false;
    }
    let mut i: usize = 0;
    while i < word.len()
        invariant
            i <= word@.len(),
            at + word@.len() <= bytes@.len() <= usize::MAX,
            forall|j: int| 0 <= j < i ==> bytes@[at + j] == word@[j],
        decreases word@.len() - i,
    {
        if bytes[at + i] != word[i] {
            proof {
                assert(bytes@.subrange(at as int, at + word@.len())[i as int] == bytes@[at + i]);
            }
            return false;
        }
        i += 1;
    }
    assert(bytes@.subrange(at as int, at + word@.len()) =~= word@);
    true
}

/// The view of what the interpreter found.
pub open spec fn outcome(found: Option<(Vec<ParseTree>, usize)>) -> Match {
    match found {
        Some((trees, end)) => Some((tree_views(trees@), end as int)),
        None => None,
    }
}

/// Makes the node that a match of `content` from `start` to `end` makes of
/// `children` under `rule`.
fn make_node(rule: Rule, content: &str, start: usize, end: usize, children: Vec<ParseTree>) -> (node:
    Option<ParseTree>)
    requires
        start <= end <= content.spec_bytes().len(),
    ensures
        node is Some <==> node_of(
            rule,
            content.spec_bytes(),
            start as int,
            end as int,
            tree_views(children@),
        ) is Some,
        node matches Some(made) ==> Some(made@) == node_of(
            rule,
            content.spec_bytes(),
            start as int,
            end as int,
            tree_views(children@),
        ),
{
    if children.len() > 0 {
        Some(ParseTree::node(rule, start, end, children))
    } else {
        match text_between(content, start, end) {
            Some(text) => {
                assert(tree_views(children@) =~= Seq::empty());
                Some(ParseTree::leaf(rule, start, end, text))
            },
            None => None,
        }
    }
}

/// What a rule was found to yield at a position, kept to be found again.
pub struct Entry {
    pub rule: usize,
    pub at: usize,
    pub depth: usize,
    pub found: Option<(Vec<ParseTree>, usize)>,
}

/// Whether every kept entry holds what its rule yields at its position.
pub open spec fn remembered(memo: Seq<Option<Entry>>, rules: Seq<PegView>, bytes: Seq<u8>) -> bool {
    forall|i: int|
        0 <= i < memo.len() ==> match #[trigger] memo[i] {
            Some(entry) => {
                &&& outcome(entry.found) == parsed(
                    rules,
                    PegView::Call(entry.rule as nat),
                    bytes,
                    entry.at as int,
                    entry.depth as nat,
                )
                &&& entry.found matches Some(matched) ==> entry.at <= matched.1 <= bytes.len()
            },
            None => true,
        }
}

/// A copy of what was found.
fn copy_found(found: &Option<(Vec<ParseTree>, usize)>) -> (copy: Option<(Vec<ParseTree>, usize)>)
    ensures
        outcome(copy) == outcome(*found),
        copy matches Some(matched) ==> found matches Some(original) && matched.1 == original.1,
{
    match found {
        Some((trees, end)) => Some((copy_trees(trees), *end)),
        None => None,
    }
}

/// The place in a memo of `size` entries where the entry for `rule` at
/// position `at` is kept: the positions follow one another, each with one
/// place for each of the `width` rules, and the count starts anew where the
/// memo ends.
fn place(size: usize, width: usize, rule: usize, at: usize) -> (index: usize)
    requires
        size > 0,
    ensures
        index == (at * width + rule) % (size as int),
        index < size,
{
    let wide: u128 = at as u128;
    assert(wide * (width as u128) <= 0xffff_ffff_ffff_ffff * 0xffff_ffff_ffff_ffff) by (nonlinear_arith)
        requires
            wide <= 0xffff_ffff_ffff_ffff,
            (width as u128) <= 0xffff_ffff_ffff_ffff,
    ;
    let index: u128 = (wide * (width as u128) + rule as u128) % (size as u128);
    index as usize
}

/// An empty memo for a text of `length` bytes and a grammar of `width`
/// rules: one entry for each rule at each position, as far as that can be
/// counted.
pub fn new_memo(length: usize, width: usize) -> (memo: Vec<Option<Entry>>)
    ensures
        forall|i: int| 0 <= i < memo@.len() ==> (#[trigger] memo@[i]) is None,
        memo@.len() == if (length + 1) * width <= usize::MAX {
            (length + 1) * width
        } else {
            0
        },
{
    let size = match length.checked_add(1) {
        Some(positions) => match positions.checked_mul(width) {
            Some(size) => size,
            None => 0,
        },
        None => 0,
    };
    assert(width >= 1 ==> (length + 1) * width >= length + 1) by (nonlinear_arith);
    assert(width == 0 ==> (length + 1) * width == 0) by (nonlinear_arith);
    let mut memo: Vec<Option<Entry>> = Vec::new();
    let mut i: usize = 0;
    while i < size
        invariant
            i <= size,
            memo@.len() == i,
            forall|j: int| 0 <= j < memo@.len() ==> (#[trigger] memo@[j]) is None,
        decreases size - i,
    {
        memo.push(None);
        i += 1;
    }
    memo
}

/// Runs `peg` at position `at` of `content`, under the rules `rules`: gives
/// the trees that it yields and the position behind the match, or nothing
/// where it fails. Calls of rules nest no deeper than `depth`. What a rule
/// yields at a position is kept in `memo` and taken from there when the rule
/// is tried at that position again.
pub fn parse_with(
    rules: &Vec<Peg>,
    peg: &Peg,
    content: &str,
    at: usize,
    depth: usize,
    memo: &mut Vec<Option<Entry>>,
) -> (found: Option<(Vec<ParseTree>, usize)>)
    requires
        at <= content.spec_bytes().len(),
        remembered(old(memo)@, peg_views(rules@), content.spec_bytes()),
    ensures
        outcome(found) == parsed(
            peg_views(rules@),
            peg@,
            content.spec_bytes(),
            at as int,
            depth as nat,
        ),
        found matches Some(matched) ==> at <= matched.1 <= content.spec_bytes().len(),
        remembered(final(memo)@, peg_views(rules@), content.spec_bytes()),
        final(memo)@.len() == old(memo)@.len(),
    decreases depth, peg, content.spec_bytes().len() - at,
{
    let ghost grammar = peg_views(rules@);
    let text = content.as_bytes();
    match peg {
        Peg::Text(word) => {
            let word = word.as_str().as_bytes();
            assert(text@.len() == text.len());
            if holds_at(text, at, word) {
                let found: Vec<ParseTree> = Vec::new();
                assert(tree_views(found@) =~= Seq::empty());
                Some((found, at + word.len()))
            } else {
                None
            }
        },
        Peg::Byte(low, high) => {
            if at < text.len() && *low <= text[at] && text[at] <= *high {
                let found: Vec<ParseTree> = Vec::new();
                assert(tree_views(found@) =~= Seq::empty());
                Some((found, at + 1))
            } else {
                None
            }
        },
        Peg::All(parts) => parse_all(rules, parts, content, at, depth, memo),
        Peg::Choice(alternatives) => parse_first(rules, alternatives, content, at, depth, memo),
        Peg::Star(body) => parse_star(rules, body, content, at, depth, memo),
        Peg::Not(body) => {
            match parse_with(rules, body, content, at, depth, memo) {
                Some(_) => None,
                None => {
                    let found: Vec<ParseTree> = Vec::new();
                    assert(tree_views(found@) =~= Seq::empty());
                    Some((found, at))
                },
            }
        },
        Peg::Call(rule) => {
            if depth > 0 && *rule < rules.len() {
                assert(grammar[*rule as int] == rules@[*rule as int]@);
                if memo.len() == 0 {
                    return parse_with(rules, &rules[*rule], content, at, depth - 1, memo);
                }
                let index = place(memo.len(), rules.len(), *rule, at);
                match &memo[index] {
                    Some(entry) => {
                        if entry.rule == *rule && entry.at == at && entry.depth == depth {
                            return copy_found(&entry.found);
                        }
                    },
                    None => {},
                }
                let found = parse_with(rules, &rules[*rule], content, at, depth - 1, memo);
                let entry = Entry { rule: *rule, at, depth, found: copy_found(&found) };
                memo.set(index, Some(entry));
                found
            } else {
                None
            }
        },
        Peg::Node(rule, body) => {
            match parse_with(rules, body, content, at, depth, memo) {
                Some((children, end)) => {
                    match make_node(*rule, content, at, end, children) {
                        Some(node) => {
                            let mut found: Vec<ParseTree> = Vec::new();
                            found.push(node);
                            assert(tree_views(found@) =~= seq![node@]);
                            Some((found, end))
                        },
                        None => None,
                    }
                },
                None => None,
            }
        },
        Peg::Word(rule, body) => {
            match parse_with(rules, body, content, at, depth, memo) {
                Some((_, end)) => {
                    match text_between(content, at, end) {
                        Some(word) => {
                            if takes_all(body, word) {
                                let mut found: Vec<ParseTree> = Vec::new();
                                let node = ParseTree::leaf(*rule, at, end, word);
                                found.push(node);
                                assert(tree_views(found@) =~= seq![node@]);
                                Some((found, end))
                            } else {
                                None
                            }
                        },
                        None => None,
                    }
                },
                None => None,
            }
        },
        Peg::Fold(rule, first, second) => {
            match parse_with(rules, first, content, at, depth, memo) {
                Some((mut trees, next)) => {
                    match parse_with(rules, second, content, next, depth, memo) {
                        Some((mut more, end)) => {
                            let ghost before = tree_views(trees@);
                            let ghost added = tree_views(more@);
                            trees.append(&mut more);
                            assert(tree_views(trees@) =~= before + added);
                            match make_node(*rule, content, at, end, trees) {
                                Some(node) => {
                                    let mut found: Vec<ParseTree> = Vec::new();
                                    found.push(node);
                                    assert(tree_views(found@) =~= seq![node@]);
                                    Some((found, end))
                                },
                                None => None,
                            }
                        },
                        None => Some((trees, next)),
                    }
                },
                None => None,
            }
        },
    }
}

/// Whether `text` is a word of `body`.
pub fn takes_all(body: &Peg, text: &str) -> (word: bool)
    ensures
        word == is_word(body@, text@),
    decreases 0nat, body, text.spec_bytes().len() + 1,
{
    let rules: Vec<Peg> = Vec::new();
    let mut memo: Vec<Option<Entry>> = Vec::new();
    assert(peg_views(rules@) =~= Seq::empty());
    let size = text.as_bytes().len();
    let found = parse_with(&rules, body, text, 0, 0, &mut memo);
    proof {
        assert(text.spec_bytes() == encode_utf8(text@));
    }
    match found {
        Some((trees, end)) => {
            proof {
                let views = tree_views(trees@);
                assert(views.len() == trees@.len());
                if trees@.len() == 0 {
                    assert(views =~= Seq::empty());
                }
            }
            trees.len() == 0 && end == size
        },
        None => false,
    }
}

/// Runs the parts of a sequence one after the other.
fn parse_all(
    rules: &Vec<Peg>,
    parts: &Vec<Peg>,
    content: &str,
    at: usize,
    depth: usize,
    memo: &mut Vec<Option<Entry>>,
) -> (found: Option<(Vec<ParseTree>, usize)>)
    requires
        at <= content.spec_bytes().len(),
        remembered(old(memo)@, peg_views(rules@), content.spec_bytes()),
    ensures
        remembered(final(memo)@, peg_views(rules@), content.spec_bytes()),
        final(memo)@.len() == old(memo)@.len(),
        outcome(found) == parsed_all(
            peg_views(rules@),
            peg_views(parts@),
            0,
            content.spec_bytes(),
            at as int,
            depth as nat,
        ),
        found matches Some(matched) ==> at <= matched.1 <= content.spec_bytes().len(),
    decreases depth, parts, 0nat,
{
    let ghost grammar = peg_views(rules@);
    let ghost bytes = content.spec_bytes();
    let ghost views = peg_views(parts@);
    let mut trees: Vec<ParseTree> = Vec::new();
    let mut position = at;
    let mut i: usize = 0;
    assert(tree_views(trees@) =~= Seq::empty());
    while i < parts.len()
        invariant
            i <= parts@.len(),
            views == peg_views(parts@),
            grammar == peg_views(rules@),
            bytes == content.spec_bytes(),
            remembered(memo@, grammar, bytes),
            memo@.len() == old(memo)@.len(),
            at <= position <= bytes.len(),
            parsed_all(grammar, views, 0, bytes, at as int, depth as nat) == match parsed_all(
                grammar,
                views,
                i as int,
                bytes,
                position as int,
                depth as nat,
            ) {
                Some((rest, end)) => Some((tree_views(trees@) + rest, end)),
                None => None,
            },
        decreases parts@.len() - i,
    {
        assert(views[i as int] == parts@[i as int]@);
        match parse_with(rules, &parts[i], content, position, depth, memo) {
            Some((mut found, next)) => {
                let ghost before = tree_views(trees@);
                let ghost added = tree_views(found@);
                trees.append(&mut found);
                proof {
                    assert(tree_views(trees@) =~= before + added);
                    match parsed_all(grammar, views, i + 1, bytes, next as int, depth as nat) {
                        Some((rest, end)) => {
                            assert(before + (added + rest) =~= (before + added) + rest);
                        },
                        None => {},
                    }
                }
                position = next;
            },
            None => {
                return None;
            },
        }
        i += 1;
    }
    assert(tree_views(trees@) + Seq::<Tree>::empty() =~= tree_views(trees@));
    Some((trees, position))
}

/// Runs the alternatives of a choice until one matches.
fn parse_first(
    rules: &Vec<Peg>,
    alternatives: &Vec<Peg>,
    content: &str,
    at: usize,
    depth: usize,
    memo: &mut Vec<Option<Entry>>,
) -> (found: Option<(Vec<ParseTree>, usize)>)
    requires
        at <= content.spec_bytes().len(),
        remembered(old(memo)@, peg_views(rules@), content.spec_bytes()),
    ensures
        remembered(final(memo)@, peg_views(rules@), content.spec_bytes()),
        final(memo)@.len() == old(memo)@.len(),
        outcome(found) == parsed_first(
            peg_views(rules@),
            peg_views(alternatives@),
            0,
            content.spec_bytes(),
            at as int,
            depth as nat,
        ),
        found matches Some(matched) ==> at <= matched.1 <= content.spec_bytes().len(),
    decreases depth, alternatives, 0nat,
{
    let ghost grammar = peg_views(rules@);
    let ghost bytes = content.spec_bytes();
    let ghost views = peg_views(alternatives@);
    let mut i: usize = 0;
    while i < alternatives.len()
        invariant
            i <= alternatives@.len(),
            views == peg_views(alternatives@),
            grammar == peg_views(rules@),
            bytes == content.spec_bytes(),
            remembered(memo@, grammar, bytes),
            memo@.len() == old(memo)@.len(),
            at <= bytes.len(),
            parsed_first(grammar, views, 0, bytes, at as int, depth as nat) == parsed_first(
                grammar,
                views,
                i as int,
                bytes,
                at as int,
                depth as nat,
            ),
        decreases alternatives@.len() - i,
    {
        assert(views[i as int] == alternatives@[i as int]@);
        match parse_with(rules, &alternatives[i], content, at, depth, memo) {
            Some(found) => {
                return Some(found);
            },
            None => {},
        }
        i += 1;
    }
    None
}

/// Runs the body of a repetition as often as it matches and moves on.
fn parse_star(
    rules: &Vec<Peg>,
    body: &Peg,
    content: &str,
    at: usize,
    depth: usize,
    memo: &mut Vec<Option<Entry>>,
) -> (found: Option<(Vec<ParseTree>, usize)>)
    requires
        at <= content.spec_bytes().len(),
        remembered(old(memo)@, peg_views(rules@), content.spec_bytes()),
    ensures
        remembered(final(memo)@, peg_views(rules@), content.spec_bytes()),
        final(memo)@.len() == old(memo)@.len(),
        outcome(found) == parsed(
            peg_views(rules@),
            PegView::Star(Box::new(body@)),
            content.spec_bytes(),
            at as int,
            depth as nat,
        ),
        found matches Some(matched) ==> at <= matched.1 <= content.spec_bytes().len(),
    decreases depth, body, content.spec_bytes().len() + 1,
{
    let ghost grammar = peg_views(rules@);
    let ghost bytes = content.spec_bytes();
    let ghost star = PegView::Star(Box::new(body@));
    let mut trees: Vec<ParseTree> = Vec::new();
    let mut position = at;
    assert(tree_views(trees@) =~= Seq::empty());
    loop
        invariant
            star == PegView::Star(Box::new(body@)),
            grammar == peg_views(rules@),
            bytes == content.spec_bytes(),
            remembered(memo@, grammar, bytes),
            memo@.len() == old(memo)@.len(),
            at <= position <= bytes.len(),
            parsed(grammar, star, bytes, at as int, depth as nat) == match parsed(
                grammar,
                star,
                bytes,
                position as int,
                depth as nat,
            ) {
                Some((rest, end)) => Some((tree_views(trees@) + rest, end)),
                None => None,
            },
        decreases bytes.len() - position,
    {
        match parse_with(rules, body, content, position, depth, memo) {
            Some((mut found, next)) => {
                if next > position {
                    let ghost before = tree_views(trees@);
                    let ghost added = tree_views(found@);
                    trees.append(&mut found);
                    proof {
                        assert(tree_views(trees@) =~= before + added);
                        match parsed(grammar, star, bytes, next as int, depth as nat) {
                            Some((rest, end)) => {
                                assert(before + (added + rest) =~= (before + added) + rest);
                            },
                            None => {},
                        }
                    }
                    position = next;
                } else {
                    assert(tree_views(trees@) + Seq::<Tree>::empty() =~= tree_views(trees@));
                    return Some((trees, position));
                }
            },
            None => {
                assert(tree_views(trees@) + Seq::<Tree>::empty() =~= tree_views(trees@));
                return Some((trees, position));
            },
        }
    }
}

} // verus!
