use lola_parser::{LolaParser, ParseError, ParseTree, Rule};

fn leaf(rule: Rule, start: usize, end: usize, text: &str) -> ParseTree {
    ParseTree::leaf(rule, start, end, text)
}

fn node(rule: Rule, start: usize, end: usize, children: Vec<ParseTree>) -> ParseTree {
    ParseTree::node(rule, start, end, children)
}

#[test]
fn parse_simple() {
    let _ = LolaParser::parse(
        Rule::Spec,
        "input in: Int\noutput out: Int := in\ntrigger in != out",
    )
    .unwrap_or_else(|e| panic!("{:?}", e));
}

#[test]
fn parse_constant() {
    let tree = LolaParser::parse(Rule::ConstantStream, "constant five : Int := 5")
        .unwrap_or_else(|e| panic!("{:?}", e));
    let expected = node(
        Rule::ConstantStream,
        0,
        24,
        vec![
            leaf(Rule::Ident, 9, 13, "five"),
            node(Rule::Type, 16, 19, vec![leaf(Rule::Ident, 16, 19, "Int")]),
            node(
                Rule::Literal,
                23,
                24,
                vec![leaf(Rule::NumberLiteral, 23, 24, "5")],
            ),
        ],
    );
    assert_eq!(tree, expected);
}

#[test]
fn parse_input() {
    let tree = LolaParser::parse(Rule::InputStream, "input in: Int")
        .unwrap_or_else(|e| panic!("{:?}", e));
    let expected = node(
        Rule::InputStream,
        0,
        13,
        vec![
            leaf(Rule::Ident, 6, 8, "in"),
            node(Rule::Type, 10, 13, vec![leaf(Rule::Ident, 10, 13, "Int")]),
        ],
    );
    assert_eq!(tree, expected);
}

#[test]
fn parse_output() {
    let tree = LolaParser::parse(Rule::OutputStream, "output out: Int := in + 1")
        .unwrap_or_else(|e| panic!("{:?}", e));
    let expected = node(
        Rule::OutputStream,
        0,
        25,
        vec![
            leaf(Rule::Ident, 7, 10, "out"),
            node(Rule::Type, 12, 15, vec![leaf(Rule::Ident, 12, 15, "Int")]),
            node(
                Rule::Expr,
                19,
                25,
                vec![
                    leaf(Rule::Ident, 19, 21, "in"),
                    leaf(Rule::Add, 22, 23, "+"),
                    node(
                        Rule::Literal,
                        24,
                        25,
                        vec![leaf(Rule::NumberLiteral, 24, 25, "1")],
                    ),
                ],
            ),
        ],
    );
    assert_eq!(tree, expected);
}

#[test]
fn parse_trigger() {
    let tree = LolaParser::parse(Rule::Trigger, "trigger in != out \"some message\"")
        .unwrap_or_else(|e| panic!("{:?}", e));
    let expected = node(
        Rule::Trigger,
        0,
        32,
        vec![
            node(
                Rule::Expr,
                8,
                17,
                vec![
                    leaf(Rule::Ident, 8, 10, "in"),
                    leaf(Rule::NotEqual, 11, 13, "!="),
                    leaf(Rule::Ident, 14, 17, "out"),
                ],
            ),
            leaf(Rule::String, 19, 31, "some message"),
        ],
    );
    assert_eq!(tree, expected);
}

#[test]
fn specification_ends_with_the_end_of_input() {
    let tree = LolaParser::parse(Rule::Spec, "  input a: Int \n").unwrap();
    assert_eq!(tree.rule, Rule::Spec);
    assert_eq!(tree.children.len(), 2);
    assert_eq!(tree.children[0].rule, Rule::InputStream);
    assert_eq!(tree.children[1], leaf(Rule::EOI, 16, 16, ""));
}

#[test]
fn text_behind_a_specification_is_a_syntax_error() {
    assert_eq!(
        LolaParser::parse(Rule::Spec, "input a: Int\n???"),
        Err(ParseError::Syntax)
    );
}

#[test]
fn rule_without_entry_is_refused() {
    assert_eq!(
        LolaParser::parse(Rule::Add, "+"),
        Err(ParseError::NoSuchRule)
    );
}

#[test]
fn expression_stops_before_trailing_space() {
    let tree = LolaParser::parse(Rule::Expr, "a   +\tb  \n").unwrap();
    assert_eq!(
        tree,
        node(
            Rule::Expr,
            0,
            7,
            vec![
                leaf(Rule::Ident, 0, 1, "a"),
                leaf(Rule::Add, 4, 5, "+"),
                leaf(Rule::Ident, 6, 7, "b"),
            ],
        )
    );
}

#[test]
fn longer_operator_wins() {
    let tree = LolaParser::parse(Rule::Expr, "a ** b <= c").unwrap();
    let rules: Vec<Rule> = tree.children.iter().map(|child| child.rule).collect();
    assert_eq!(
        rules,
        vec![
            Rule::Ident,
            Rule::Power,
            Rule::Ident,
            Rule::LessThanOrEqual,
            Rule::Ident
        ]
    );
}

#[test]
fn operators_may_be_spelled_with_symbols() {
    let tree = LolaParser::parse(Rule::Expr, "a ∧ b ∨ c ≠ d ≤ e ≥ f").unwrap();
    let rules: Vec<Rule> = tree.children.iter().map(|child| child.rule).collect();
    assert_eq!(
        rules,
        vec![
            Rule::Ident,
            Rule::And,
            Rule::Ident,
            Rule::Or,
            Rule::Ident,
            Rule::NotEqual,
            Rule::Ident,
            Rule::LessThanOrEqual,
            Rule::Ident,
            Rule::MoreThanOrEqual,
            Rule::Ident
        ]
    );
    // Spans count bytes: each of these symbols takes three.
    assert_eq!(tree.children[1].span.start, 2);
    assert_eq!(tree.children[1].span.end, 5);
    assert_eq!(tree.children[1].text, "∧");
}

#[test]
fn keyword_needs_a_word_of_its_own() {
    // `truely` is an identifier, not the literal `true` and then `ly`.
    let tree = LolaParser::parse(Rule::Expr, "truely").unwrap();
    assert_eq!(
        tree,
        node(Rule::Expr, 0, 6, vec![leaf(Rule::Ident, 0, 6, "truely")])
    );
    let tree = LolaParser::parse(Rule::Expr, "true").unwrap();
    assert_eq!(
        tree,
        node(
            Rule::Expr,
            0,
            4,
            vec![node(Rule::Literal, 0, 4, vec![leaf(Rule::True, 0, 4, "true")])]
        )
    );
}

#[test]
fn duration_is_an_expression_and_a_unit() {
    let tree = LolaParser::parse(Rule::Expr, "s[3min, sum]").unwrap();
    let lookup = &tree.children[0];
    assert_eq!(lookup.rule, Rule::LookupExpr);
    assert_eq!(lookup.children.len(), 3);
    assert_eq!(lookup.children[0].rule, Rule::StreamInstance);
    assert_eq!(lookup.children[1].rule, Rule::Duration);
    assert_eq!(lookup.children[1].children[0].rule, Rule::Expr);
    assert_eq!(
        lookup.children[1].children[1],
        leaf(Rule::Unit, 3, 6, "min")
    );
    assert_eq!(lookup.children[2], leaf(Rule::Sum, 8, 11, "sum"));
}

#[test]
fn offset_without_unit_is_discrete() {
    let tree = LolaParser::parse(Rule::Expr, "s[x]").unwrap();
    let lookup = &tree.children[0];
    assert_eq!(lookup.rule, Rule::LookupExpr);
    assert_eq!(lookup.children[1].rule, Rule::Expr);
}

#[test]
fn parameters_come_as_names_and_types() {
    let tree = LolaParser::parse(Rule::InputStream, "input test<ab: Int8, c: Int8> : Int8").unwrap();
    let rules: Vec<Rule> = tree.children.iter().map(|child| child.rule).collect();
    assert_eq!(rules, vec![Rule::Ident, Rule::ParamList, Rule::Type]);
    let inner: Vec<Rule> = tree.children[1]
        .children
        .iter()
        .map(|child| child.rule)
        .collect();
    assert_eq!(
        inner,
        vec![Rule::Ident, Rule::Type, Rule::Ident, Rule::Type]
    );
}

#[test]
fn nesting_beyond_the_depth_is_a_syntax_error() {
    let mut text = String::new();
    for _ in 0..200 {
        text.push('(');
    }
    text.push('a');
    for _ in 0..200 {
        text.push(')');
    }
    assert_eq!(
        LolaParser::parse(Rule::Expr, &text),
        Err(ParseError::Syntax)
    );
}
