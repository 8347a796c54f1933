use lola_parser::ast::{
    Expression, ExpressionKind, LitKind, Offset, TimeUnit, TypeKind, UnOp, WindowOperation,
};
use lola_parser::ast::{BinOp, FunctionKind};
use lola_parser::climber::Shape;
use lola_parser::parse::{
    assemble, build_expression_ast, parse, parse_constant, parse_inputs, parse_output, parse_trigger,
};
use lola_parser::{LolaParser, LolaSpec, ParseError, Rule, Symbol, SymbolTable};

fn expression(text: &str) -> (Expression, LolaSpec) {
    let expr = LolaParser::parse(Rule::Expr, text).unwrap_or_else(|e| panic!("{:?}", e));
    let mut spec = LolaSpec::new();
    let ast = build_expression_ast(&mut spec.symbols, &expr.children, expr.span);
    (ast, spec)
}

#[test]
fn parse_constant_ast() {
    let pair = LolaParser::parse(Rule::ConstantStream, "constant five : Int := 5")
        .unwrap_or_else(|e| panic!("{:?}", e));
    let mut spec = LolaSpec::new();
    let ast = parse_constant(&mut spec.symbols, &pair);
    let formatted = format!("{:?}", ast);
    assert_eq!(formatted, "Constant { name: Some(Ident { name: Symbol(0), span: Span { start: 9, end: 13 } }), ty: Some(Type { kind: Simple(Symbol(1)), span: Span { start: 16, end: 19 } }), literal: Some(Literal { kind: Int(5), span: Span { start: 23, end: 24 } }), span: Span { start: 0, end: 24 } }")
}

#[test]
fn parse_constant_double() {
    let pair = LolaParser::parse(Rule::ConstantStream, "constant fiveoh : Double := 5.0")
        .unwrap_or_else(|e| panic!("{:?}", e));
    let mut spec = LolaSpec::new();
    let ast = parse_constant(&mut spec.symbols, &pair);
    let formatted = format!("{:?}", ast);
    // A literal with a fraction keeps its text: `Float("5.0")`.
    assert_eq!(formatted, "Constant { name: Some(Ident { name: Symbol(0), span: Span { start: 9, end: 15 } }), ty: Some(Type { kind: Simple(Symbol(1)), span: Span { start: 18, end: 24 } }), literal: Some(Literal { kind: Float(\"5.0\"), span: Span { start: 28, end: 31 } }), span: Span { start: 0, end: 31 } }")
}

#[test]
fn parse_input_ast() {
    let pair = LolaParser::parse(Rule::InputStream, "input a: Int, b: Int, c: Bool")
        .unwrap_or_else(|e| panic!("{:?}", e));
    let mut spec = LolaSpec::new();
    let inputs = parse_inputs(&mut spec.symbols, &pair);
    println!("{:?}", inputs);
    assert_eq!(inputs.len(), 3);
}

#[test]
fn parse_output_ast() {
    let pair = LolaParser::parse(Rule::OutputStream, "output out: Int := in + 1")
        .unwrap_or_else(|e| panic!("{:?}", e));
    let mut spec = LolaSpec::new();
    let ast = parse_output(&mut spec.symbols, &pair);
    let formatted = format!("{:?}", ast);
    assert_eq!(formatted, "Output { id: 0, name: Ident { name: Symbol(0), span: Span { start: 7, end: 10 } }, params: [], ty: Type { kind: Simple(Symbol(1)), span: Span { start: 12, end: 15 } }, expression: Expression { kind: Binary(Add, Expression { kind: Ident(Ident { name: Symbol(2), span: Span { start: 19, end: 21 } }), span: Span { start: 19, end: 21 } }, Expression { kind: Lit(Literal { kind: Int(1), span: Span { start: 24, end: 25 } }), span: Span { start: 24, end: 25 } }), span: Span { start: 19, end: 25 } }, span: Span { start: 0, end: 25 } }")
}

#[test]
fn parse_trigger_ast() {
    let pair = LolaParser::parse(Rule::Trigger, "trigger in != out \"some message\"")
        .unwrap_or_else(|e| panic!("{:?}", e));
    let mut spec = LolaSpec::new();
    let ast = parse_trigger(&mut spec.symbols, &pair);
    let formatted = format!("{:?}", ast);
    assert_eq!(formatted, "Trigger { id: 0, name: None, expression: Expression { kind: Binary(Ne, Expression { kind: Ident(Ident { name: Symbol(0), span: Span { start: 8, end: 10 } }), span: Span { start: 8, end: 10 } }, Expression { kind: Ident(Ident { name: Symbol(1), span: Span { start: 14, end: 17 } }), span: Span { start: 14, end: 17 } }), span: Span { start: 8, end: 17 } }, message: Some(Symbol(2)), span: Span { start: 0, end: 32 } }")
}

#[test]
fn parse_expression() {
    let expr = LolaParser::parse(Rule::Expr, "in + 1\n").unwrap_or_else(|e| panic!("{:?}", e));
    let mut spec = LolaSpec::new();
    let span = expr.span;
    let ast = build_expression_ast(&mut spec.symbols, &expr.children, span);
    let formatted = format!("{:?}", ast);
    assert_eq!(formatted, "Expression { kind: Binary(Add, Expression { kind: Ident(Ident { name: Symbol(0), span: Span { start: 0, end: 2 } }), span: Span { start: 0, end: 2 } }, Expression { kind: Lit(Literal { kind: Int(1), span: Span { start: 5, end: 6 } }), span: Span { start: 5, end: 6 } }), span: Span { start: 0, end: 6 } }")
}

#[test]
fn parse_expression_precedence() {
    let expr = LolaParser::parse(Rule::Expr, "(a || b & c)").unwrap_or_else(|e| panic!("{:?}", e));
    let mut spec = LolaSpec::new();
    let span = expr.span;
    let ast = build_expression_ast(&mut spec.symbols, &expr.children, span);
    let formatted = format!("{:?}", ast);
    assert_eq!(formatted, "Expression { kind: ParenthesizedExpression(Some(Parenthesis { span: Span { start: 0, end: 1 } }), Expression { kind: Binary(Or, Expression { kind: Ident(Ident { name: Symbol(0), span: Span { start: 1, end: 2 } }), span: Span { start: 1, end: 2 } }, Expression { kind: Binary(And, Expression { kind: Ident(Ident { name: Symbol(1), span: Span { start: 6, end: 7 } }), span: Span { start: 6, end: 7 } }, Expression { kind: Ident(Ident { name: Symbol(2), span: Span { start: 10, end: 11 } }), span: Span { start: 10, end: 11 } }), span: Span { start: 6, end: 11 } }), span: Span { start: 1, end: 11 } }, Some(Parenthesis { span: Span { start: 11, end: 12 } })), span: Span { start: 0, end: 12 } }")
}

#[test]
fn parse_missing_closing_parenthesis() {
    let expr = LolaParser::parse(Rule::Expr, "(a || b & c").unwrap_or_else(|e| panic!("{:?}", e));
    let mut spec = LolaSpec::new();
    let span = expr.span;
    let ast = build_expression_ast(&mut spec.symbols, &expr.children, span);
    let formatted = format!("{:?}", ast);
    assert_eq!(formatted, "Expression { kind: ParenthesizedExpression(Some(Parenthesis { span: Span { start: 0, end: 1 } }), Expression { kind: Binary(Or, Expression { kind: Ident(Ident { name: Symbol(0), span: Span { start: 1, end: 2 } }), span: Span { start: 1, end: 2 } }, Expression { kind: Binary(And, Expression { kind: Ident(Ident { name: Symbol(1), span: Span { start: 6, end: 7 } }), span: Span { start: 6, end: 7 } }, Expression { kind: Ident(Ident { name: Symbol(2), span: Span { start: 10, end: 11 } }), span: Span { start: 10, end: 11 } }), span: Span { start: 6, end: 11 } }), span: Span { start: 1, end: 11 } }, None), span: Span { start: 0, end: 11 } }")
}

#[test]
fn symbol_table() {
    let mut symboltable = SymbolTable::new();
    let sym_a = symboltable.get_symbol_for("a");
    let sym_b = symboltable.get_symbol_for("b");
    assert_ne!(sym_a, sym_b);
    assert_eq!(sym_a, symboltable.get_symbol_for("a"));
    assert_eq!(symboltable.get_string(sym_a), "a");
    assert_eq!(symboltable.get_string(sym_b), "b");
}

#[test]
fn build_simple_ast() {
    let spec = "input in: Int\noutput out: Int := in\ntrigger in != out";
    let throw = |e| panic!("{:?}", e);
    let ast = parse(spec).unwrap_or_else(throw);
    assert_eq!(ast.inputs.len(), 1);
    assert_eq!(ast.trigger.len(), 1);
    assert_eq!(ast.outputs.len(), 1);
}

#[test]
fn build_ast_input() {
    let spec = "input in: Int\ninput in2: Int\ninput in3: (Int, Bool)\ninput in4: Bool\n";
    let throw = |e| panic!("{:?}", e);
    let ast = parse(spec).unwrap_or_else(throw);
    assert_eq!(ast.inputs.len(), 4);
    assert_eq!(ast.trigger.len(), 0);
    assert_eq!(ast.outputs.len(), 0);
}

#[test]
fn build_parenthesized_expression() {
    let spec = "output s: Bool := (true | true)";
    let throw = |e| panic!("{:?}", e);
    let ast = parse(spec).unwrap_or_else(throw);
    assert_eq!(ast.inputs.len(), 0);
    assert_eq!(ast.trigger.len(), 0);
    assert_eq!(ast.outputs.len(), 1);
}

#[test]
fn build_lookup_expression() {
    let spec = "output s: Int := s[-1] ? (3 * 4)";
    let throw = |e| panic!("{:?}", e);
    let ast = parse(spec).unwrap_or_else(throw);
    assert_eq!(ast.inputs.len(), 0);
    assert_eq!(ast.trigger.len(), 0);
    assert_eq!(ast.outputs.len(), 1);
}

#[test]
fn build_ternary_expression() {
    let spec = "input in: Int\n output s: Int := if in = 3 then 4 else in + 2";
    let throw = |e| panic!("{:?}", e);
    let ast = parse(spec).unwrap_or_else(throw);
    assert_eq!(ast.inputs.len(), 1);
    assert_eq!(ast.trigger.len(), 0);
    assert_eq!(ast.outputs.len(), 1);
}

#[test]
fn build_function_expression() {
    let spec = "input in: (Int, Bool)\n output s: Int := nroot(1, π(1, in))";
    let throw = |e| panic!("{:?}", e);
    let ast = parse(spec).unwrap_or_else(throw);
    assert_eq!(ast.inputs.len(), 1);
    assert_eq!(ast.trigger.len(), 0);
    assert_eq!(ast.outputs.len(), 1);
}

#[test]
fn build_complex_expression() {
    let spec = "output s: Double := if ¬((s[-1] ? (3 * 4) + -4) = 12) || true = false then 2.0 else 4.1";
    let throw = |e| panic!("{:?}", e);
    let ast = parse(spec).unwrap_or_else(throw);
    assert_eq!(ast.inputs.len(), 0);
    assert_eq!(ast.trigger.len(), 0);
    assert_eq!(ast.outputs.len(), 1);
}

#[test]
fn inputs_of_one_clause_come_in_declared_order() {
    let ast = parse("input a: Int, b: Int, c: Bool").unwrap();
    assert_eq!(ast.inputs.len(), 3);
    let names: Vec<&str> = ast
        .inputs
        .iter()
        .map(|input| ast.symbols.get_string(input.name.name))
        .collect();
    assert_eq!(names, vec!["a", "b", "c"]);
    assert_eq!(ast.inputs[0].span.start, 6);
    assert_eq!(ast.inputs[0].span.end, 12);
    assert_eq!(ast.inputs[2].span.start, 22);
    assert_eq!(ast.inputs[2].span.end, 29);
}

#[test]
fn or_binds_less_than_and() {
    let (ast, _) = expression("a || b && c");
    match ast.kind {
        ExpressionKind::Binary(BinOp::Or, left, right) => {
            assert!(matches!(left.kind, ExpressionKind::Ident(_)));
            assert!(matches!(
                right.kind,
                ExpressionKind::Binary(BinOp::And, _, _)
            ));
        }
        other => panic!("{:?}", other),
    }
}

#[test]
fn multiplication_binds_more_than_addition_on_either_side() {
    let (ast, _) = expression("a * b + c * d");
    match ast.kind {
        ExpressionKind::Binary(BinOp::Add, left, right) => {
            assert!(matches!(left.kind, ExpressionKind::Binary(BinOp::Mul, _, _)));
            assert!(matches!(
                right.kind,
                ExpressionKind::Binary(BinOp::Mul, _, _)
            ));
        }
        other => panic!("{:?}", other),
    }
}

#[test]
fn subtraction_groups_to_the_left_and_power_to_the_right() {
    let (ast, _) = expression("a - b - c");
    match ast.kind {
        ExpressionKind::Binary(BinOp::Sub, left, right) => {
            assert!(matches!(left.kind, ExpressionKind::Binary(BinOp::Sub, _, _)));
            assert!(matches!(right.kind, ExpressionKind::Ident(_)));
        }
        other => panic!("{:?}", other),
    }
    let (ast, _) = expression("a ** b ** c");
    match ast.kind {
        ExpressionKind::Binary(BinOp::Pow, left, right) => {
            assert!(matches!(left.kind, ExpressionKind::Ident(_)));
            assert!(matches!(
                right.kind,
                ExpressionKind::Binary(BinOp::Pow, _, _)
            ));
        }
        other => panic!("{:?}", other),
    }
}

#[test]
fn every_level_of_precedence_nests_in_the_next() {
    let (ast, _) = expression("a || b && c == d < e + f * g ** h");
    let expected = [
        BinOp::Or,
        BinOp::And,
        BinOp::Eq,
        BinOp::Lt,
        BinOp::Add,
        BinOp::Mul,
        BinOp::Pow,
    ];
    let mut current = ast;
    for op in expected.iter() {
        match current.kind {
            ExpressionKind::Binary(found, left, right) => {
                assert_eq!(found, *op);
                assert!(matches!(left.kind, ExpressionKind::Ident(_)));
                current = *right;
            }
            other => panic!("{:?}", other),
        }
    }
    assert!(matches!(current.kind, ExpressionKind::Ident(_)));
}

#[test]
fn operators_map_to_binary_operations() {
    let cases = [
        ("a + b", BinOp::Add),
        ("a - b", BinOp::Sub),
        ("a * b", BinOp::Mul),
        ("a / b", BinOp::Div),
        ("a % b", BinOp::Rem),
        ("a ** b", BinOp::Pow),
        ("a && b", BinOp::And),
        ("a || b", BinOp::Or),
        ("a < b", BinOp::Lt),
        ("a <= b", BinOp::Le),
        ("a > b", BinOp::Gt),
        ("a >= b", BinOp::Ge),
        ("a == b", BinOp::Eq),
        ("a != b", BinOp::Ne),
    ];
    for (text, op) in cases.iter() {
        let (ast, _) = expression(text);
        match ast.kind {
            ExpressionKind::Binary(found, _, _) => assert_eq!(found, *op),
            other => panic!("{:?}", other),
        }
    }
}

#[test]
fn single_expression_in_parentheses_is_no_tuple() {
    let (ast, _) = expression("(a)");
    assert!(matches!(
        ast.kind,
        ExpressionKind::ParenthesizedExpression(Some(_), _, Some(_))
    ));
    let (ast, _) = expression("(a, b)");
    match ast.kind {
        ExpressionKind::Tuple(elements) => assert_eq!(elements.len(), 2),
        other => panic!("{:?}", other),
    }
    let (ast, _) = expression("(a, b, c)");
    match ast.kind {
        ExpressionKind::Tuple(elements) => assert_eq!(elements.len(), 3),
        other => panic!("{:?}", other),
    }
    let (ast, _) = expression("()");
    match ast.kind {
        ExpressionKind::Tuple(elements) => assert_eq!(elements.len(), 0),
        other => panic!("{:?}", other),
    }
}

#[test]
fn unary_plus_is_dropped() {
    let (plus, _) = expression("+x");
    let (plain, _) = expression("x");
    // Only the places differ: `x` stands one byte later behind the `+`.
    match (plus.kind, plain.kind) {
        (ExpressionKind::Ident(with), ExpressionKind::Ident(without)) => {
            assert_eq!(with.name, without.name);
            assert_eq!(with.span.start, 1);
            assert_eq!(without.span.start, 0);
        }
        other => panic!("{:?}", other),
    }
}

#[test]
fn unary_minus_and_not_become_unary_operations() {
    let (ast, _) = expression("-x");
    assert!(matches!(ast.kind, ExpressionKind::Unary(UnOp::Neg, _)));
    assert_eq!(ast.span.start, 0);
    assert_eq!(ast.span.end, 2);
    let (ast, _) = expression("!x");
    assert!(matches!(ast.kind, ExpressionKind::Unary(UnOp::Not, _)));
    let (ast, _) = expression("¬x");
    assert!(matches!(ast.kind, ExpressionKind::Unary(UnOp::Not, _)));
    // A unary operator takes one operand, not the rest of the expression.
    let (ast, _) = expression("-x + y");
    match ast.kind {
        ExpressionKind::Binary(BinOp::Add, left, _) => {
            assert!(matches!(left.kind, ExpressionKind::Unary(UnOp::Neg, _)))
        }
        other => panic!("{:?}", other),
    }
}

#[test]
fn numbers_become_integers_where_they_are_integers() {
    let (ast, _) = expression("170141183460469231731687303715884105727");
    match ast.kind {
        ExpressionKind::Lit(literal) => {
            assert_eq!(literal.kind, LitKind::Int(i128::MAX))
        }
        other => panic!("{:?}", other),
    }
    // One more does not fit: the literal keeps its text.
    let (ast, _) = expression("170141183460469231731687303715884105728");
    match ast.kind {
        ExpressionKind::Lit(literal) => assert_eq!(
            literal.kind,
            LitKind::Float("170141183460469231731687303715884105728".to_string())
        ),
        other => panic!("{:?}", other),
    }
    let (ast, _) = expression("007");
    match ast.kind {
        ExpressionKind::Lit(literal) => assert_eq!(literal.kind, LitKind::Int(7)),
        other => panic!("{:?}", other),
    }
    let (ast, _) = expression("2e5");
    match ast.kind {
        ExpressionKind::Lit(literal) => {
            assert_eq!(literal.kind, LitKind::Float("2e5".to_string()))
        }
        other => panic!("{:?}", other),
    }
}

#[test]
fn truth_values_become_booleans() {
    let (ast, _) = expression("true");
    match ast.kind {
        ExpressionKind::Lit(literal) => assert_eq!(literal.kind, LitKind::Bool(true)),
        other => panic!("{:?}", other),
    }
    let (ast, _) = expression("false");
    match ast.kind {
        ExpressionKind::Lit(literal) => assert_eq!(literal.kind, LitKind::Bool(false)),
        other => panic!("{:?}", other),
    }
}

#[test]
fn tuple_literal_of_a_constant() {
    let pair = LolaParser::parse(Rule::ConstantStream, "constant c : (Int, Bool) := (1, true)").unwrap();
    let mut spec = LolaSpec::new();
    let constant = parse_constant(&mut spec.symbols, &pair);
    match constant.literal.unwrap().kind {
        LitKind::Tuple(elements) => {
            assert_eq!(elements.len(), 2);
            assert_eq!(elements[0].kind, LitKind::Int(1));
            assert_eq!(elements[1].kind, LitKind::Bool(true));
        }
        other => panic!("{:?}", other),
    }
    match constant.ty.unwrap().kind {
        TypeKind::Tuple(elements) => assert_eq!(elements.len(), 2),
        other => panic!("{:?}", other),
    }
}

#[test]
fn lookup_with_discrete_offset() {
    let (ast, spec) = expression("s[-1]");
    match ast.kind {
        ExpressionKind::Lookup(instance, Offset::DiscreteOffset(offset), None) => {
            assert_eq!(spec.symbols.get_string(instance.stream_identifier.name), "s");
            assert_eq!(instance.arguments.len(), 0);
            assert!(matches!(offset.kind, ExpressionKind::Unary(UnOp::Neg, _)));
        }
        other => panic!("{:?}", other),
    }
}

#[test]
fn lookup_with_every_unit() {
    let cases = [
        ("s[1ns]", TimeUnit::NanoSecond),
        ("s[1μs]", TimeUnit::MicroSecond),
        ("s[1ms]", TimeUnit::MilliSecond),
        ("s[1s]", TimeUnit::Second),
        ("s[1min]", TimeUnit::Minute),
        ("s[1h]", TimeUnit::Hour),
        ("s[1d]", TimeUnit::Day),
        ("s[1w]", TimeUnit::Week),
        ("s[1a]", TimeUnit::Year),
    ];
    for (text, unit) in cases.iter() {
        let (ast, _) = expression(text);
        match ast.kind {
            ExpressionKind::Lookup(_, Offset::RealTimeOffset(_, found), None) => {
                assert_eq!(found, *unit)
            }
            other => panic!("{:?}", other),
        }
    }
}

#[test]
fn lookup_with_every_window_operation() {
    let cases = [
        ("s[1s, sum]", WindowOperation::Sum),
        ("s[1s, product]", WindowOperation::Product),
        ("s[1s, average]", WindowOperation::Average),
        ("s[1s, count]", WindowOperation::Count),
        ("s[1s, integral]", WindowOperation::Integral),
    ];
    for (text, window) in cases.iter() {
        let (ast, _) = expression(text);
        match ast.kind {
            ExpressionKind::Lookup(_, Offset::RealTimeOffset(_, _), Some(found)) => {
                assert_eq!(found, *window)
            }
            other => panic!("{:?}", other),
        }
    }
}

#[test]
fn lookup_of_a_stream_instance_with_arguments() {
    let (ast, _) = expression("s(a, b + 1)[0]");
    match ast.kind {
        ExpressionKind::Lookup(instance, Offset::DiscreteOffset(_), None) => {
            assert_eq!(instance.arguments.len(), 2);
            assert!(matches!(
                instance.arguments[1].kind,
                ExpressionKind::Binary(BinOp::Add, _, _)
            ));
        }
        other => panic!("{:?}", other),
    }
}

#[test]
fn default_has_a_lookup_on_the_left() {
    let (ast, _) = expression("s[-1] ? 3 * 4");
    match ast.kind {
        ExpressionKind::Default(target, fallback) => {
            assert!(matches!(target.kind, ExpressionKind::Lookup(_, _, _)));
            assert!(matches!(
                fallback.kind,
                ExpressionKind::Binary(BinOp::Mul, _, _)
            ));
        }
        other => panic!("{:?}", other),
    }
}

#[test]
fn ternary_has_three_parts() {
    let (ast, _) = expression("if a then b else c");
    match ast.kind {
        ExpressionKind::Ite(condition, consequence, alternative) => {
            assert_eq!(condition.span.start, 3);
            assert_eq!(consequence.span.start, 10);
            assert_eq!(alternative.span.start, 17);
        }
        other => panic!("{:?}", other),
    }
}

#[test]
fn every_function_name_has_its_kind() {
    let cases = [
        ("nroot(a)", FunctionKind::NthRoot),
        ("sqrt(a)", FunctionKind::Sqrt),
        ("π(a)", FunctionKind::Projection),
        ("sin(a)", FunctionKind::Sin),
        ("cos(a)", FunctionKind::Cos),
        ("tan(a)", FunctionKind::Tan),
        ("arcsin(a)", FunctionKind::Arcsin),
        ("arccos(a)", FunctionKind::Arccos),
        ("arctar(a)", FunctionKind::Arctan),
        ("exp(a)", FunctionKind::Exp),
        ("floor(a)", FunctionKind::Floor),
        ("ceil(a)", FunctionKind::Ceil),
    ];
    for (text, kind) in cases.iter() {
        let (ast, _) = expression(text);
        match ast.kind {
            ExpressionKind::Function(found, arguments) => {
                assert_eq!(found, *kind);
                assert_eq!(arguments.len(), 1);
            }
            other => panic!("{:?}", other),
        }
    }
}

#[test]
fn unknown_function_is_a_syntax_error() {
    assert!(matches!(
        parse("output a: Int := foo(1)"),
        Err(ParseError::Syntax)
    ));
}

#[test]
fn string_as_expression_is_a_syntax_error() {
    assert!(matches!(
        parse("output a: Int := \"text\""),
        Err(ParseError::Syntax)
    ));
}

#[test]
fn names_are_interned_in_the_order_of_the_text() {
    let ast = parse("input a: Int\noutput b: Int := a + c\ntrigger b > a \"a\"").unwrap();
    assert_eq!(ast.symbols.len(), 4);
    assert_eq!(ast.symbols.get_string(Symbol::new(0)), "a");
    assert_eq!(ast.symbols.get_string(Symbol::new(1)), "Int");
    assert_eq!(ast.symbols.get_string(Symbol::new(2)), "b");
    assert_eq!(ast.symbols.get_string(Symbol::new(3)), "c");
    // The message of the trigger is the text `a`, which has a symbol already.
    assert_eq!(ast.trigger[0].message, Some(Symbol::new(0)));
    assert_eq!(ast.outputs[0].name.name, Symbol::new(2));
}

#[test]
fn parameters_of_an_output() {
    let ast = parse("output test<ab: Int8, c: Int8>: Int8 := 3").unwrap();
    let output = &ast.outputs[0];
    assert_eq!(output.params.len(), 2);
    assert_eq!(ast.symbols.get_string(output.params[0].name.name), "ab");
    assert_eq!(ast.symbols.get_string(output.params[1].name.name), "c");
    assert_eq!(output.params[0].span.start, 12);
    assert_eq!(output.params[0].span.end, 20);
}

#[test]
fn named_trigger() {
    let ast = parse("trigger test := false").unwrap();
    let trigger = &ast.trigger[0];
    assert_eq!(
        ast.symbols.get_string(trigger.name.unwrap().name),
        "test"
    );
    assert_eq!(trigger.message, None);
}

#[test]
fn empty_text_is_an_empty_specification() {
    let ast = parse("").unwrap();
    assert_eq!(ast.constants.len(), 0);
    assert_eq!(ast.inputs.len(), 0);
    assert_eq!(ast.outputs.len(), 0);
    assert_eq!(ast.trigger.len(), 0);
    assert_eq!(ast.symbols.len(), 0);
}

#[test]
fn binary_expression_has_the_span_of_its_own_text() {
    // 0123456789012345678901
    // a * b + c * (d - e) ** f
    let (ast, _) = expression("a * b + c * (d - e) ** f");
    assert_eq!((ast.span.start, ast.span.end), (0, 24));
    match ast.kind {
        ExpressionKind::Binary(BinOp::Add, left, right) => {
            assert_eq!((left.span.start, left.span.end), (0, 5));
            assert_eq!((right.span.start, right.span.end), (8, 24));
            match right.kind {
                ExpressionKind::Binary(BinOp::Mul, c, power) => {
                    assert_eq!((c.span.start, c.span.end), (8, 9));
                    assert_eq!((power.span.start, power.span.end), (12, 24));
                    match power.kind {
                        ExpressionKind::Binary(BinOp::Pow, base, _) => {
                            assert_eq!((base.span.start, base.span.end), (12, 19));
                        }
                        other => panic!("{:?}", other),
                    }
                }
                other => panic!("{:?}", other),
            }
        }
        other => panic!("{:?}", other),
    }
}

#[test]
fn expression_over_the_whole_run_has_the_span_given() {
    let expr = LolaParser::parse(Rule::Expr, "a + b").unwrap();
    let mut spec = LolaSpec::new();
    let ast = build_expression_ast(&mut spec.symbols, &expr.children, lola_parser::Span::new(3, 99));
    assert_eq!((ast.span.start, ast.span.end), (3, 99));
}

#[test]
fn assemble_follows_the_shape_it_is_given() {
    let expr = LolaParser::parse(Rule::Expr, "a - b - c").unwrap();
    // Grouped to the right, against the precedence: a - (b - c).
    let shape = Shape::node(Shape::leaf(), Shape::node(Shape::leaf(), Shape::leaf()));
    let mut spec = LolaSpec::new();
    let (ast, end) = assemble(&mut spec.symbols, &expr.children, 0, shape, None);
    assert_eq!(end, 5);
    assert_eq!((ast.span.start, ast.span.end), (0, 9));
    match ast.kind {
        ExpressionKind::Binary(BinOp::Sub, left, right) => {
            assert!(matches!(left.kind, ExpressionKind::Ident(_)));
            assert!(matches!(right.kind, ExpressionKind::Binary(BinOp::Sub, _, _)));
            assert_eq!((right.span.start, right.span.end), (4, 9));
        }
        other => panic!("{:?}", other),
    }
    // One operand of the run by itself.
    let mut spec = LolaSpec::new();
    let (ast, end) = assemble(&mut spec.symbols, &expr.children, 2, Shape::leaf(), None);
    assert_eq!(end, 3);
    assert_eq!((ast.span.start, ast.span.end), (4, 5));
}
