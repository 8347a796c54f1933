use lola_parser::grammar::{byte, call, fold, node, not, opt, star, text, word, Pegs};
use lola_parser::peg::{holds_at, new_memo, parse_with, takes_all, text_between, Peg};
use lola_parser::{ParseTree, Rule};

fn run(rules: &Vec<Peg>, peg: &Peg, content: &str, at: usize) -> Option<(Vec<ParseTree>, usize)> {
    let mut memo = new_memo(content.len(), rules.len());
    parse_with(rules, peg, content, at, 8, &mut memo)
}

fn end(peg: &Peg, content: &str) -> Option<usize> {
    run(&Vec::new(), peg, content, 0).map(|found| found.1)
}

#[test]
fn text_matches_its_bytes() {
    assert_eq!(end(&text("ab"), "abc"), Some(2));
    assert_eq!(end(&text("ab"), "ab"), Some(2));
    assert_eq!(end(&text("ab"), "a"), None);
    assert_eq!(end(&text("ab"), "ba"), None);
    assert_eq!(end(&text(""), "ba"), Some(0));
    assert_eq!(end(&text("μ"), "μs"), Some(2));
    assert!(holds_at("xabc".as_bytes(), 1, "abc".as_bytes()));
    assert!(!holds_at("xabc".as_bytes(), 2, "abc".as_bytes()));
    assert!(!holds_at("xabc".as_bytes(), 9, "abc".as_bytes()));
}

#[test]
fn byte_matches_its_range() {
    assert_eq!(end(&byte(0x61, 0x63), "a"), Some(1));
    assert_eq!(end(&byte(0x61, 0x63), "c"), Some(1));
    assert_eq!(end(&byte(0x61, 0x63), "d"), None);
    assert_eq!(end(&byte(0x61, 0x63), ""), None);
}

#[test]
fn sequence_needs_every_part_and_choice_the_first_that_matches() {
    let both = Pegs::new().with(text("a")).with(text("b")).all();
    assert_eq!(end(&both, "abc"), Some(2));
    assert_eq!(end(&both, "acb"), None);
    let either = Pegs::new().with(text("a")).with(text("ab")).choice();
    // The first alternative wins, though the second would match more.
    assert_eq!(end(&either, "ab"), Some(1));
    assert_eq!(end(&either, "b"), None);
    assert_eq!(end(&Pegs::new().all(), "b"), Some(0));
    assert_eq!(end(&Pegs::new().choice(), "b"), None);
}

#[test]
fn repetition_is_greedy_and_never_fails() {
    assert_eq!(end(&star(text("ab")), "ababa"), Some(4));
    assert_eq!(end(&star(text("ab")), "ba"), Some(0));
    // A body that matches nothing ends the repetition.
    assert_eq!(end(&star(text("")), "ba"), Some(0));
    assert_eq!(end(&opt(text("a")), "ab"), Some(1));
    assert_eq!(end(&opt(text("a")), "b"), Some(0));
}

#[test]
fn negation_takes_nothing() {
    assert_eq!(end(&not(text("a")), "b"), Some(0));
    assert_eq!(end(&not(text("a")), "a"), None);
    assert_eq!(end(&not(byte(0, 255)), ""), Some(0));
}

#[test]
fn node_wraps_what_its_body_yields() {
    let letter = node(Rule::Ident, byte(0x61, 0x7a));
    let found = run(&Vec::new(), &letter, "ab", 1).unwrap();
    assert_eq!(found.0, vec![ParseTree::leaf(Rule::Ident, 1, 2, "b")]);
    assert_eq!(found.1, 2);
    let pair = node(
        Rule::Tuple,
        Pegs::new()
            .with(node(Rule::Ident, byte(0x61, 0x7a)))
            .with(text(","))
            .with(node(Rule::Ident, byte(0x61, 0x7a)))
            .all(),
    );
    let found = run(&Vec::new(), &pair, "a,b", 0).unwrap();
    assert_eq!(
        found.0,
        vec![ParseTree::node(
            Rule::Tuple,
            0,
            3,
            vec![
                ParseTree::leaf(Rule::Ident, 0, 1, "a"),
                ParseTree::leaf(Rule::Ident, 2, 3, "b")
            ]
        )]
    );
}

#[test]
fn leaf_has_to_hold_whole_characters() {
    // One byte of the two of `μ` is no text.
    let half = node(Rule::Ident, byte(0x80, 0xff));
    assert!(run(&Vec::new(), &half, "μ", 0).is_none());
    let whole = node(
        Rule::Ident,
        Pegs::new().with(byte(0x80, 0xff)).with(byte(0x80, 0xff)).all(),
    );
    assert_eq!(
        run(&Vec::new(), &whole, "μ", 0).unwrap().0,
        vec![ParseTree::leaf(Rule::Ident, 0, 2, "μ")]
    );
    assert_eq!(text_between("aμb", 1, 3), Some("μ"));
    assert_eq!(text_between("aμb", 1, 2), None);
    assert_eq!(text_between("aμb", 2, 3), None);
    assert_eq!(text_between("aμb", 4, 4), Some(""));
}

#[test]
fn fold_makes_a_node_only_with_its_second_part() {
    let letter = || node(Rule::Ident, byte(0x61, 0x7a));
    let folded = fold(
        Rule::Duration,
        letter(),
        Pegs::new().with(text("!")).with(letter()).all(),
    );
    let found = run(&Vec::new(), &folded, "a!b", 0).unwrap();
    assert_eq!(
        found.0,
        vec![ParseTree::node(
            Rule::Duration,
            0,
            3,
            vec![
                ParseTree::leaf(Rule::Ident, 0, 1, "a"),
                ParseTree::leaf(Rule::Ident, 2, 3, "b")
            ]
        )]
    );
    let found = run(&Vec::new(), &folded, "a?b", 0).unwrap();
    assert_eq!(found.0, vec![ParseTree::leaf(Rule::Ident, 0, 1, "a")]);
    assert_eq!(found.1, 1);
    assert!(run(&Vec::new(), &folded, "!b", 0).is_none());
}

#[test]
fn call_runs_a_rule_and_counts_the_depth() {
    // Rule 0: `(` rule 0 `)`, or `x`.
    let nested = Pegs::new()
        .with(
            Pegs::new()
                .with(text("("))
                .with(call(0))
                .with(text(")"))
                .all(),
        )
        .with(text("x"))
        .choice();
    let rules = vec![nested];
    assert_eq!(run(&rules, &call(0), "((x))", 0).map(|f| f.1), Some(5));
    assert_eq!(run(&rules, &call(0), "((x)", 0).map(|f| f.1), None);
    assert_eq!(run(&rules, &call(1), "x", 0).map(|f| f.1), None);
    // Eight calls deep is as far as `run` lets it go.
    assert_eq!(
        run(&rules, &call(0), "(((((((x)))))))", 0).map(|f| f.1),
        Some(15)
    );
    assert_eq!(
        run(&rules, &call(0), "((((((((x))))))))", 0).map(|f| f.1),
        None
    );
}

#[test]
fn memo_does_not_change_what_is_found() {
    let rules = lola_parser::grammar::grammar_pegs();
    let content = "output o: Int := (((a, (b, c)), d) + (e";
    let mut with = new_memo(content.len(), rules.len());
    let mut without = new_memo(0, 0);
    assert_eq!(with.len(), (content.len() + 1) * rules.len());
    assert_eq!(without.len(), 0);
    let start = call(lola_parser::grammar::SPEC);
    let first = parse_with(&rules, &start, content, 0, 64, &mut with);
    let second = parse_with(&rules, &start, content, 0, 64, &mut without);
    assert!(first.is_some());
    assert_eq!(first, second);
}

#[test]
fn errors_deep_in_parentheses_are_found_fast() {
    let mut text = String::from("output o: Int := ");
    for _ in 0..60 {
        text.push('(');
    }
    text.push_str("a +");
    assert!(lola_parser::parse(&text).is_err());
}

#[test]
fn word_has_to_stand_alone() {
    // `ab` or `a`, and then `b`: in `abb` the first takes `ab`; of `ab` alone
    // it takes `ab` too and leaves no `b`, so `abb` by itself is a word, and
    // what it takes of `abx` is none.
    let form = || {
        Pegs::new()
            .with(Pegs::new().with(text("ab")).with(text("a")).choice())
            .with(text("b"))
            .all()
    };
    assert!(takes_all(&form(), "abb"));
    assert!(!takes_all(&form(), "ab"));
    assert!(!takes_all(&form(), "abbb"));
    assert!(!takes_all(&form(), ""));
    let found = run(&Vec::new(), &word(Rule::Ident, form()), "abbc", 0).unwrap();
    assert_eq!(found.0, vec![ParseTree::leaf(Rule::Ident, 0, 3, "abb")]);
    assert_eq!(found.1, 3);
    assert!(run(&Vec::new(), &word(Rule::Ident, form()), "abc", 0).is_none());
    // A body that makes a node is no word.
    let noisy = || node(Rule::Ident, text("a"));
    assert!(!takes_all(&noisy(), "a"));
    assert!(run(&Vec::new(), &word(Rule::Type, noisy()), "a", 0).is_none());
}
