use lola_parser::grammar::is_number_text;
use lola_parser::parse::build_specification;
use lola_parser::validity::{
    is_constant, is_expression, is_inputs, is_literal, is_lookup, is_output, is_parameters,
    is_primary, is_specification, is_trigger, is_type, room_left,
};
use lola_parser::{LolaParser, ParseTree, Rule};

fn leaf(rule: Rule, start: usize, end: usize, text: &str) -> ParseTree {
    ParseTree::leaf(rule, start, end, text)
}

fn node(rule: Rule, start: usize, end: usize, children: Vec<ParseTree>) -> ParseTree {
    ParseTree::node(rule, start, end, children)
}

fn ident(text: &str) -> ParseTree {
    leaf(Rule::Ident, 0, text.len(), text)
}

fn expr(children: Vec<ParseTree>) -> ParseTree {
    node(Rule::Expr, 0, 0, children)
}

#[test]
fn trees_of_the_grammar_are_of_the_builders_shape() {
    let texts = [
        "",
        "input in: Int\noutput out: Int := in\ntrigger in != out",
        "constant c: (Int, (Bool, Int)) := (1, (true, 2.5))",
        "input a<x: Int, y: (Int, Int)>: Int, b: Bool",
        "output s: Double := if ¬((s[-1] ? (3 * 4) + -4) = 12) || true = false then 2.0 else 4.1",
        "output o<p: Int>: Int := t(p, 1)[3min, average] + nroot(1, π(1, (a, b))) + (c",
        "trigger name := () == (a, b) \"message with ünicode\"",
    ];
    for text in texts.iter() {
        let tree = LolaParser::parse(Rule::Spec, text).unwrap_or_else(|e| panic!("{}: {:?}", text, e));
        assert!(is_specification(&tree), "{}", text);
    }
}

#[test]
fn type_is_a_name_or_types() {
    assert!(is_type(&node(Rule::Type, 0, 3, vec![ident("Int")])));
    assert!(is_type(&leaf(Rule::Type, 0, 2, "()")));
    assert!(is_type(&node(
        Rule::Type,
        0,
        0,
        vec![node(Rule::Type, 0, 0, vec![ident("Int")])]
    )));
    assert!(!is_type(&ident("Int")));
    assert!(!is_type(&node(
        Rule::Type,
        0,
        0,
        vec![node(Rule::Type, 0, 0, vec![ident("Int")]), ident("Bool")]
    )));
}

#[test]
fn literal_has_one_child_of_its_kinds() {
    assert!(is_literal(&node(
        Rule::Literal,
        0,
        1,
        vec![leaf(Rule::NumberLiteral, 0, 1, "1")]
    )));
    assert!(is_literal(&node(
        Rule::Literal,
        0,
        2,
        vec![leaf(Rule::TupleLiteral, 0, 2, "()")]
    )));
    assert!(!is_literal(&leaf(Rule::Literal, 0, 0, "")));
    // A string is no literal of an expression.
    assert!(!is_literal(&node(
        Rule::Literal,
        0,
        3,
        vec![leaf(Rule::String, 0, 3, "abc")]
    )));
    assert!(!is_literal(&node(
        Rule::Literal,
        0,
        3,
        vec![node(Rule::TupleLiteral, 0, 3, vec![ident("a")])]
    )));
}

#[test]
fn expression_alternates_operands_and_operators() {
    assert!(is_expression(&vec![ident("a")]));
    assert!(is_expression(&vec![
        ident("a"),
        leaf(Rule::Add, 0, 0, "+"),
        ident("b")
    ]));
    assert!(!is_expression(&vec![]));
    assert!(!is_expression(&vec![ident("a"), leaf(Rule::Add, 0, 0, "+")]));
    assert!(!is_expression(&vec![ident("a"), ident("b"), ident("c")]));
    assert!(!is_expression(&vec![
        leaf(Rule::Add, 0, 0, "+"),
        leaf(Rule::Add, 0, 0, "+"),
        ident("c")
    ]));
    // `!` is no binary operator.
    assert!(!is_expression(&vec![
        ident("a"),
        leaf(Rule::Neg, 0, 0, "!"),
        ident("b")
    ]));
}

#[test]
fn ternary_takes_three_and_tuple_not_one() {
    let part = || expr(vec![ident("a")]);
    assert!(is_primary(&node(
        Rule::TernaryExpr,
        0,
        0,
        vec![part(), part(), part()]
    )));
    assert!(!is_primary(&node(
        Rule::TernaryExpr,
        0,
        0,
        vec![part(), part()]
    )));
    assert!(!is_primary(&node(
        Rule::TernaryExpr,
        0,
        0,
        vec![part(), part(), part(), part()]
    )));
    assert!(is_primary(&leaf(Rule::Tuple, 0, 2, "()")));
    assert!(is_primary(&node(Rule::Tuple, 0, 0, vec![part(), part()])));
    assert!(!is_primary(&node(Rule::Tuple, 0, 0, vec![part()])));
}

#[test]
fn function_needs_a_known_name() {
    let call = |name: &str| {
        node(
            Rule::FunctionExpr,
            0,
            0,
            vec![
                leaf(Rule::FunctionName, 0, 0, name),
                expr(vec![ident("a")]),
            ],
        )
    };
    assert!(is_primary(&call("sqrt")));
    assert!(is_primary(&call("arctar")));
    assert!(!is_primary(&call("arctan")));
    assert!(!is_primary(&call("")));
}

#[test]
fn unary_needs_one_of_its_operators() {
    let unary = |rule: Rule| {
        node(
            Rule::UnaryExpr,
            0,
            0,
            vec![leaf(rule, 0, 0, ""), expr(vec![ident("a")])],
        )
    };
    assert!(is_primary(&unary(Rule::Add)));
    assert!(is_primary(&unary(Rule::Subtract)));
    assert!(is_primary(&unary(Rule::Neg)));
    assert!(!is_primary(&unary(Rule::Multiply)));
    assert!(!is_primary(&leaf(Rule::EOI, 0, 0, "")));
}

#[test]
fn lookup_needs_a_stream_and_an_offset() {
    let instance = || node(Rule::StreamInstance, 0, 0, vec![ident("s")]);
    let duration = |unit: &str| {
        node(
            Rule::Duration,
            0,
            0,
            vec![expr(vec![ident("a")]), leaf(Rule::Unit, 0, 0, unit)],
        )
    };
    assert!(is_lookup(&node(
        Rule::LookupExpr,
        0,
        0,
        vec![instance(), expr(vec![ident("a")])]
    )));
    assert!(is_lookup(&node(
        Rule::LookupExpr,
        0,
        0,
        vec![instance(), duration("h")]
    )));
    assert!(is_lookup(&node(
        Rule::LookupExpr,
        0,
        0,
        vec![instance(), duration("h"), leaf(Rule::Count, 0, 0, "count")]
    )));
    assert!(!is_lookup(&node(
        Rule::LookupExpr,
        0,
        0,
        vec![instance(), duration("hours")]
    )));
    assert!(!is_lookup(&node(
        Rule::LookupExpr,
        0,
        0,
        vec![instance(), duration("h"), leaf(Rule::Add, 0, 0, "+")]
    )));
    assert!(!is_lookup(&node(Rule::LookupExpr, 0, 0, vec![instance()])));
    assert!(!is_lookup(&node(
        Rule::LookupExpr,
        0,
        0,
        vec![leaf(Rule::StreamInstance, 0, 0, "s"), expr(vec![ident("a")])]
    )));
    assert!(!is_lookup(&node(
        Rule::LookupExpr,
        0,
        0,
        vec![instance(), ident("a")]
    )));
}

#[test]
fn declarations_need_their_parts() {
    let ty = || node(Rule::Type, 0, 0, vec![ident("Int")]);
    let number = || {
        node(
            Rule::Literal,
            0,
            0,
            vec![leaf(Rule::NumberLiteral, 0, 1, "1")],
        )
    };
    let params = || node(Rule::ParamList, 0, 0, vec![ident("p"), ty()]);
    assert!(is_constant(&node(
        Rule::ConstantStream,
        0,
        0,
        vec![ident("c"), ty(), number()]
    )));
    assert!(!is_constant(&node(
        Rule::ConstantStream,
        0,
        0,
        vec![ident("c"), ty()]
    )));
    assert!(is_parameters(&params()));
    assert!(!is_parameters(&node(
        Rule::ParamList,
        0,
        0,
        vec![ident("p")]
    )));
    assert!(!is_parameters(&node(
        Rule::ParamList,
        0,
        0,
        vec![ty(), ident("p")]
    )));
    assert!(is_inputs(&node(
        Rule::InputStream,
        0,
        0,
        vec![ident("a"), ty(), ident("b"), params(), ty()]
    )));
    assert!(!is_inputs(&leaf(Rule::InputStream, 0, 0, "")));
    assert!(!is_inputs(&node(
        Rule::InputStream,
        0,
        0,
        vec![ident("a"), ty(), ident("b")]
    )));
    assert!(!is_inputs(&node(
        Rule::InputStream,
        0,
        0,
        vec![ident("a"), params()]
    )));
    assert!(is_output(&node(
        Rule::OutputStream,
        0,
        0,
        vec![ident("o"), params(), ty(), expr(vec![ident("a")])]
    )));
    assert!(!is_output(&node(
        Rule::OutputStream,
        0,
        0,
        vec![ident("o"), ty()]
    )));
    assert!(is_trigger(&node(
        Rule::Trigger,
        0,
        0,
        vec![ident("t"), expr(vec![ident("a")]), leaf(Rule::String, 0, 0, "m")]
    )));
    assert!(is_trigger(&node(
        Rule::Trigger,
        0,
        0,
        vec![expr(vec![ident("a")])]
    )));
    assert!(!is_trigger(&node(Rule::Trigger, 0, 0, vec![ident("t")])));
    assert!(!is_trigger(&node(
        Rule::Trigger,
        0,
        0,
        vec![expr(vec![ident("a")]), ident("m")]
    )));
    assert!(!is_specification(&node(
        Rule::Spec,
        0,
        0,
        vec![ident("a")]
    )));
    assert!(!is_specification(&leaf(Rule::EOI, 0, 0, "")));
}

#[test]
fn room_is_the_number_of_nodes() {
    let tree = LolaParser::parse(Rule::ConstantStream, "constant five : Int := 5").unwrap();
    // The constant, its name, its type with the type's name, its literal with the number.
    assert_eq!(room_left(&tree, 6), Some(0));
    assert_eq!(room_left(&tree, 5), None);
    assert_eq!(room_left(&tree, 0), None);
    assert_eq!(room_left(&tree, 100), Some(94));
    assert_eq!(room_left(&leaf(Rule::EOI, 0, 0, ""), 1), Some(0));
}

#[test]
fn tree_built_by_hand_builds_like_a_parsed_one() {
    let by_hand = node(
        Rule::Spec,
        0,
        13,
        vec![
            node(
                Rule::InputStream,
                0,
                13,
                vec![
                    leaf(Rule::Ident, 6, 8, "in"),
                    node(Rule::Type, 10, 13, vec![leaf(Rule::Ident, 10, 13, "Int")]),
                ],
            ),
            leaf(Rule::EOI, 13, 13, ""),
        ],
    );
    let parsed = LolaParser::parse(Rule::Spec, "input in: Int").unwrap();
    assert_eq!(by_hand, parsed);
    assert_eq!(by_hand.copy(), parsed);
    assert!(is_specification(&by_hand));
    let lola = build_specification(&by_hand);
    assert_eq!(lola.inputs.len(), 1);
    assert_eq!(lola.symbols.get_string(lola.inputs[0].name.name), "in");
}

#[test]
fn number_is_an_integer_or_has_the_form_of_a_number() {
    let number = |text: &str| {
        node(
            Rule::Literal,
            0,
            text.len(),
            vec![leaf(Rule::NumberLiteral, 0, text.len(), text)],
        )
    };
    for text in ["5", "007", "2.5", "2e5", "2E+5", "2.50e-3", "-5", "+5"].iter() {
        assert!(is_literal(&number(text)), "{}", text);
    }
    for text in ["abc", "", "2.", ".5", "2e", "2e+", "1.5.2", "5 ", "--5", "inf", "2.5x"].iter() {
        assert!(!is_literal(&number(text)), "{}", text);
    }
    assert!(is_number_text("12"));
    assert!(is_number_text("170141183460469231731687303715884105728"));
    // A sign is no part of the form; `-5` is a literal as an integer.
    assert!(!is_number_text("-5"));
    assert!(!is_number_text("1e"));
}
