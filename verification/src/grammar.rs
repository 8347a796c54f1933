//! The grammar of the language, as a list of parsing expressions, and the
//! parser that runs it.
//!
//! White space (blanks, tabs and line ends) may stand between any two tokens.
//! The operands and operators of an expression come out flat, in one node:
//! precedence is the builder's business.

use crate::peg::{
    is_word, new_memo, parse_with, parsed, peg_views, takes_all, Peg, PegView,
};
use crate::tree::{tree_views, ParseTree, Rule, Tree};
use vstd::prelude::*;
use vstd::string::*;

verus! {

/// White space.
pub const WS: usize = 0;

/// A whole specification.
pub const SPEC: usize = 1;

/// A constant: `constant five : Int := 5`.
pub const CONSTANT: usize = 2;

/// An input clause: `input a: Int, b: Bool`.
pub const INPUT: usize = 3;

/// An output: `output out: Int := in + 1`.
pub const OUTPUT: usize = 4;

/// A trigger: `trigger name := in != out "message"`.
pub const TRIGGER: usize = 5;

/// An identifier.
pub const IDENT: usize = 6;

/// A parameter list: `<a: Int, b: Bool>`.
pub const PARAMS: usize = 7;

/// A type: a name, or types in parentheses.
pub const TYPE: usize = 8;

/// The value of a constant: a number, a truth value, or a tuple of values.
pub const LITERAL: usize = 9;

/// An expression: operands with binary operators between them.
pub const EXPR: usize = 10;

/// An operand.
pub const TERM: usize = 11;

/// A binary operator.
pub const OPERATOR: usize = 12;

/// A number or a truth value in an expression.
pub const VALUE: usize = 13;

/// A lookup, with a default where `?` follows it.
pub const LOOKUP: usize = 14;

/// Expressions with commas between them.
pub const ARGUMENTS: usize = 15;

/// The operand of a unary operator.
pub const OPERAND: usize = 16;

/// The head of a stream: name, parameters if any, and type.
pub const HEAD: usize = 17;

/// How deep the rules of the grammar may call one another on a text.
pub const DEPTH: usize = 256;

/// A list of parsing expressions in the making.
pub struct Pegs {
    pub list: Vec<Peg>,
}

impl Pegs {
    pub fn new() -> (pegs: Pegs)
        ensures
            peg_views(pegs.list@) == Seq::<PegView>::empty(),
    {
        let pegs = Pegs { list: Vec::new() };
        assert(peg_views(pegs.list@) =~= Seq::empty());
        pegs
    }

    pub fn with(self, peg: Peg) -> (pegs: Pegs)
        ensures
            peg_views(pegs.list@) == peg_views(self.list@).push(peg@),
    {
        let mut list = self.list;
        list.push(peg);
        assert(peg_views(list@) =~= peg_views(self.list@).push(peg@));
        Pegs { list }
    }

    pub fn all(self) -> (peg: Peg)
        ensures
            peg@ == PegView::All(peg_views(self.list@)),
    {
        Peg::All(self.list)
    }

    pub fn choice(self) -> (peg: Peg)
        ensures
            peg@ == PegView::Choice(peg_views(self.list@)),
    {
        Peg::Choice(self.list)
    }
}

pub fn text(word: &str) -> (peg: Peg)
    ensures
        peg@ == PegView::Text(word@),
{
    Peg::Text(word.to_owned())
}

pub fn byte(low: u8, high: u8) -> (peg: Peg)
    ensures
        peg@ == PegView::Byte(low, high),
{
    Peg::Byte(low, high)
}

pub fn star(body: Peg) -> (peg: Peg)
    ensures
        peg@ == PegView::Star(Box::new(body@)),
{
    Peg::Star(Box::new(body))
}

pub fn not(body: Peg) -> (peg: Peg)
    ensures
        peg@ == PegView::Not(Box::new(body@)),
{
    Peg::Not(Box::new(body))
}

pub fn call(rule: usize) -> (peg: Peg)
    ensures
        peg@ == PegView::Call(rule as nat),
{
    Peg::Call(rule)
}

pub fn node(rule: Rule, body: Peg) -> (peg: Peg)
    ensures
        peg@ == PegView::Node(rule, Box::new(body@)),
{
    Peg::Node(rule, Box::new(body))
}

pub fn word(rule: Rule, body: Peg) -> (peg: Peg)
    ensures
        peg@ == PegView::Word(rule, Box::new(body@)),
{
    Peg::Word(rule, Box::new(body))
}

pub fn fold(rule: Rule, first: Peg, second: Peg) -> (peg: Peg)
    ensures
        peg@ == PegView::Fold(rule, Box::new(first@), Box::new(second@)),
{
    Peg::Fold(rule, Box::new(first), Box::new(second))
}

/// The empty list of parsing expressions.
pub open spec fn none() -> Seq<PegView> {
    Seq::empty()
}

/// `body`, or nothing where it does not match.
pub open spec fn optional(body: PegView) -> PegView {
    PegView::Choice(none().push(body).push(PegView::All(none())))
}

pub fn opt(body: Peg) -> (peg: Peg)
    ensures
        peg@ == optional(body@),
{
    Pegs::new().with(body).with(Pegs::new().all()).choice()
}

/// White space, as much as there is.
pub open spec fn space() -> PegView {
    PegView::Call(WS as nat)
}

pub fn space_peg() -> (peg: Peg)
    ensures
        peg@ == space(),
{
    call(WS)
}

/// `word` with white space before it.
pub open spec fn token(word: Seq<char>) -> PegView {
    PegView::All(none().push(space()).push(PegView::Text(word)))
}

pub fn token_peg(word: &str) -> (peg: Peg)
    ensures
        peg@ == token(word@),
{
    Pegs::new().with(space_peg()).with(text(word)).all()
}

/// A letter, a digit or an underscore.
pub open spec fn name_byte() -> PegView {
    PegView::Choice(
        none().push(PegView::Byte(0x61, 0x7a)).push(PegView::Byte(0x41, 0x5a)).push(PegView::Byte(0x30, 0x39)).push(PegView::Byte(0x5f, 0x5f)),
    )
}

pub fn name_byte_peg() -> (peg: Peg)
    ensures
        peg@ == name_byte(),
{
    Pegs::new().with(byte(0x61, 0x7a)).with(byte(0x41, 0x5a)).with(byte(0x30, 0x39)).with(
        byte(0x5f, 0x5f),
    ).choice()
}

/// `word` as a word of its own: no letter, digit or underscore follows it.
pub open spec fn keyword(word: Seq<char>) -> PegView {
    PegView::All(none().push(PegView::Text(word)).push(PegView::Not(Box::new(name_byte()))))
}

pub fn keyword_peg(word: &str) -> (peg: Peg)
    ensures
        peg@ == keyword(word@),
{
    Pegs::new().with(text(word)).with(not(name_byte_peg())).all()
}

/// `first`, and then any number of times a comma and `next`.
pub open spec fn listed(first: PegView, next: PegView) -> PegView {
    PegView::All(
        none().push(first).push(PegView::Star(Box::new(PegView::All(none().push(token(","@)).push(space()).push(next))))),
    )
}

pub fn listed_peg(first: Peg, next: Peg) -> (peg: Peg)
    ensures
        peg@ == listed(first@, next@),
{
    Pegs::new().with(first).with(
        star(Pegs::new().with(token_peg(",")).with(space_peg()).with(next).all()),
    ).all()
}

/// Blanks, tabs, line feeds and carriage returns.
pub open spec fn whitespace() -> PegView {
    PegView::Star(
        Box::new(
            PegView::Choice(
                none().push(PegView::Byte(0x20, 0x20)).push(PegView::Byte(0x09, 0x0a)).push(PegView::Byte(0x0d, 0x0d)),
            ),
        ),
    )
}

pub fn whitespace_peg() -> (peg: Peg)
    ensures
        peg@ == whitespace(),
{
    star(Pegs::new().with(byte(0x20, 0x20)).with(byte(0x09, 0x0a)).with(byte(0x0d, 0x0d)).choice())
}

/// An identifier: a letter or an underscore, then letters, digits and
/// underscores.
pub open spec fn identifier() -> PegView {
    PegView::Node(
        Rule::Ident,
        Box::new(
            PegView::All(
                none().push(PegView::Choice(
                        none().push(PegView::Byte(0x61, 0x7a)).push(PegView::Byte(0x41, 0x5a)).push(PegView::Byte(0x5f, 0x5f)),
                    )).push(PegView::Star(Box::new(name_byte()))),
            ),
        ),
    )
}

pub fn identifier_peg() -> (peg: Peg)
    ensures
        peg@ == identifier(),
{
    node(
        Rule::Ident,
        Pegs::new().with(
            Pegs::new().with(byte(0x61, 0x7a)).with(byte(0x41, 0x5a)).with(byte(0x5f, 0x5f)).choice(),
        ).with(star(name_byte_peg())).all(),
    )
}

/// `body` in parentheses, or the parentheses alone.
pub open spec fn bracketed(body: PegView) -> PegView {
    PegView::All(none().push(PegView::Text("("@)).push(space()).push(optional(body)).push(token(")"@)))
}

pub fn bracketed_peg(body: Peg) -> (peg: Peg)
    ensures
        peg@ == bracketed(body@),
{
    Pegs::new().with(text("(")).with(space_peg()).with(opt(body)).with(token_peg(")")).all()
}

/// A type: an identifier, or types in parentheses with commas between them.
pub open spec fn type_rule() -> PegView {
    PegView::Node(
        Rule::Type,
        Box::new(
            PegView::Choice(
                none().push(PegView::Call(IDENT as nat)).push(bracketed(listed(PegView::Call(TYPE as nat), PegView::Call(TYPE as nat)))),
            ),
        ),
    )
}

pub fn type_peg() -> (peg: Peg)
    ensures
        peg@ == type_rule(),
{
    node(
        Rule::Type,
        Pegs::new().with(call(IDENT)).with(bracketed_peg(listed_peg(call(TYPE), call(TYPE)))).choice(),
    )
}

/// One decimal digit or more.
pub open spec fn digits() -> PegView {
    PegView::All(none().push(PegView::Byte(0x30, 0x39)).push(PegView::Star(Box::new(PegView::Byte(0x30, 0x39)))))
}

pub fn digits_peg() -> (peg: Peg)
    ensures
        peg@ == digits(),
{
    Pegs::new().with(byte(0x30, 0x39)).with(star(byte(0x30, 0x39))).all()
}

/// The form of a number: digits, then maybe a point and digits, then maybe
/// an exponent.
pub open spec fn number_form() -> PegView {
    PegView::All(
        none().push(digits()).push(
            optional(PegView::All(none().push(PegView::Text("."@)).push(digits()))),
        ).push(
            optional(
                PegView::All(
                    none().push(
                        PegView::Choice(none().push(PegView::Text("e"@)).push(PegView::Text("E"@))),
                    ).push(
                        optional(
                            PegView::Choice(none().push(PegView::Text("+"@)).push(PegView::Text("-"@))),
                        ),
                    ).push(digits()),
                ),
            ),
        ),
    )
}

pub fn number_form_peg() -> (peg: Peg)
    ensures
        peg@ == number_form(),
{
    Pegs::new().with(digits_peg()).with(opt(Pegs::new().with(text(".")).with(digits_peg()).all())).with(
        opt(
            Pegs::new().with(Pegs::new().with(text("e")).with(text("E")).choice()).with(
                opt(Pegs::new().with(text("+")).with(text("-")).choice()),
            ).with(digits_peg()).all(),
        ),
    ).all()
}

/// A number: a word of the form of a number.
pub open spec fn number() -> PegView {
    PegView::Word(Rule::NumberLiteral, Box::new(number_form()))
}

pub fn number_peg() -> (peg: Peg)
    ensures
        peg@ == number(),
{
    word(Rule::NumberLiteral, number_form_peg())
}

/// Whether `text` is a number: the form of a number takes all of it.
pub open spec fn is_number(text: Seq<char>) -> bool {
    is_word(number_form(), text)
}

/// Whether `text` is a number.
pub fn is_number_text(text: &str) -> (number: bool)
    ensures
        number == is_number(text@),
{
    let peg = number_form_peg();
    takes_all(&peg, text)
}

/// A number or a truth value.
pub open spec fn plain_value() -> PegView {
    PegView::Choice(
        none().push(number()).push(PegView::Node(Rule::True, Box::new(keyword("true"@)))).push(PegView::Node(Rule::False, Box::new(keyword("false"@)))),
    )
}

pub fn plain_value_peg() -> (peg: Peg)
    ensures
        peg@ == plain_value(),
{
    Pegs::new().with(number_peg()).with(node(Rule::True, keyword_peg("true"))).with(
        node(Rule::False, keyword_peg("false")),
    ).choice()
}

/// A literal in an expression: a number or a truth value.
pub open spec fn value() -> PegView {
    PegView::Node(Rule::Literal, Box::new(plain_value()))
}

pub fn value_peg() -> (peg: Peg)
    ensures
        peg@ == value(),
{
    node(Rule::Literal, plain_value_peg())
}

/// The value of a constant: a number, a truth value, or values in
/// parentheses with commas between them.
pub open spec fn literal() -> PegView {
    PegView::Node(
        Rule::Literal,
        Box::new(
            PegView::Choice(
                none().push(plain_value()).push(PegView::Node(
                        Rule::TupleLiteral,
                        Box::new(
                            bracketed(
                                listed(PegView::Call(LITERAL as nat), PegView::Call(LITERAL as nat)),
                            ),
                        ),
                    )),
            ),
        ),
    )
}

pub fn literal_peg() -> (peg: Peg)
    ensures
        peg@ == literal(),
{
    node(
        Rule::Literal,
        Pegs::new().with(plain_value_peg()).with(
            node(Rule::TupleLiteral, bracketed_peg(listed_peg(call(LITERAL), call(LITERAL)))),
        ).choice(),
    )
}

/// The node `rule` for one of two spellings of an operator.
pub open spec fn spelled(rule: Rule, first: Seq<char>, second: Seq<char>) -> PegView {
    PegView::Node(rule, Box::new(PegView::Choice(none().push(PegView::Text(first)).push(PegView::Text(second)))))
}

pub fn spelled_peg(rule: Rule, first: &str, second: &str) -> (peg: Peg)
    ensures
        peg@ == spelled(rule, first@, second@),
{
    node(rule, Pegs::new().with(text(first)).with(text(second)).choice())
}

/// The node `rule` for an operator with one spelling.
pub open spec fn sign(rule: Rule, word: Seq<char>) -> PegView {
    PegView::Node(rule, Box::new(PegView::Text(word)))
}

pub fn sign_peg(rule: Rule, word: &str) -> (peg: Peg)
    ensures
        peg@ == sign(rule, word@),
{
    node(rule, text(word))
}

/// The binary operators. Of two that begin alike, the longer comes first.
pub open spec fn operator() -> PegView {
    PegView::Choice(
        none().push(sign(Rule::Power, "**"@)).push(sign(Rule::Multiply, "*"@)).push(sign(Rule::Divide, "/"@)).push(sign(Rule::Mod, "%"@)).push(sign(Rule::Add, "+"@)).push(sign(Rule::Subtract, "-"@)).push(PegView::Node(
                Rule::Or,
                Box::new(
                    PegView::Choice(
                        none().push(PegView::Text("||"@)).push(PegView::Text("|"@)).push(PegView::Text("∨"@)),
                    ),
                ),
            )).push(PegView::Node(
                Rule::And,
                Box::new(
                    PegView::Choice(
                        none().push(PegView::Text("&&"@)).push(PegView::Text("&"@)).push(PegView::Text("∧"@)),
                    ),
                ),
            )).push(spelled(Rule::LessThanOrEqual, "<="@, "≤"@)).push(spelled(Rule::MoreThanOrEqual, ">="@, "≥"@)).push(spelled(Rule::NotEqual, "!="@, "≠"@)).push(spelled(Rule::Equal, "=="@, "="@)).push(sign(Rule::LessThan, "<"@)).push(sign(Rule::MoreThan, ">"@)),
    )
}

pub fn operator_peg() -> (peg: Peg)
    ensures
        peg@ == operator(),
{
    Pegs::new().with(sign_peg(Rule::Power, "**")).with(sign_peg(Rule::Multiply, "*")).with(
        sign_peg(Rule::Divide, "/"),
    ).with(sign_peg(Rule::Mod, "%")).with(sign_peg(Rule::Add, "+")).with(
        sign_peg(Rule::Subtract, "-"),
    ).with(
        node(Rule::Or, Pegs::new().with(text("||")).with(text("|")).with(text("∨")).choice()),
    ).with(
        node(Rule::And, Pegs::new().with(text("&&")).with(text("&")).with(text("∧")).choice()),
    ).with(spelled_peg(Rule::LessThanOrEqual, "<=", "≤")).with(
        spelled_peg(Rule::MoreThanOrEqual, ">=", "≥"),
    ).with(spelled_peg(Rule::NotEqual, "!=", "≠")).with(spelled_peg(Rule::Equal, "==", "=")).with(
        sign_peg(Rule::LessThan, "<"),
    ).with(sign_peg(Rule::MoreThan, ">")).choice()
}

/// An expression: an operand, then any number of times an operator and an
/// operand.
pub open spec fn expression() -> PegView {
    PegView::Node(
        Rule::Expr,
        Box::new(
            PegView::All(
                none().push(PegView::Call(TERM as nat)).push(PegView::Star(
                        Box::new(
                            PegView::All(
                                none().push(space()).push(PegView::Call(OPERATOR as nat)).push(space()).push(PegView::Call(TERM as nat)),
                            ),
                        ),
                    )),
            ),
        ),
    )
}

pub fn expression_peg() -> (peg: Peg)
    ensures
        peg@ == expression(),
{
    node(
        Rule::Expr,
        Pegs::new().with(call(TERM)).with(
            star(
                Pegs::new().with(space_peg()).with(call(OPERATOR)).with(space_peg()).with(
                    call(TERM),
                ).all(),
            ),
        ).all(),
    )
}

/// The operand of a unary operator: one operand, as an expression.
pub open spec fn operand() -> PegView {
    PegView::Node(Rule::Expr, Box::new(PegView::Call(TERM as nat)))
}

pub fn operand_peg() -> (peg: Peg)
    ensures
        peg@ == operand(),
{
    node(Rule::Expr, call(TERM))
}

/// Expressions with commas between them.
pub open spec fn arguments() -> PegView {
    listed(PegView::Call(EXPR as nat), PegView::Call(EXPR as nat))
}

pub fn arguments_peg() -> (peg: Peg)
    ensures
        peg@ == arguments(),
{
    listed_peg(call(EXPR), call(EXPR))
}


/// The conditional expression: `if c then a else b`.
pub open spec fn ternary() -> PegView {
    PegView::Node(
        Rule::TernaryExpr,
        Box::new(
            PegView::All(
                none().push(keyword("if"@)).push(space()).push(PegView::Call(EXPR as nat)).push(
                    space(),
                ).push(keyword("then"@)).push(space()).push(PegView::Call(EXPR as nat)).push(
                    space(),
                ).push(keyword("else"@)).push(space()).push(PegView::Call(EXPR as nat)),
            ),
        ),
    )
}

pub fn ternary_peg() -> (peg: Peg)
    ensures
        peg@ == ternary(),
{
    node(
        Rule::TernaryExpr,
        Pegs::new().with(keyword_peg("if")).with(space_peg()).with(call(EXPR)).with(
            space_peg(),
        ).with(keyword_peg("then")).with(space_peg()).with(call(EXPR)).with(space_peg()).with(
            keyword_peg("else"),
        ).with(space_peg()).with(call(EXPR)).all(),
    )
}

/// A unary operator and its operand: `+a`, `-a`, `!a`.
pub open spec fn unary() -> PegView {
    PegView::Node(
        Rule::UnaryExpr,
        Box::new(
            PegView::All(
                none().push(
                    PegView::Choice(
                        none().push(sign(Rule::Add, "+"@)).push(sign(Rule::Subtract, "-"@)).push(
                            spelled(Rule::Neg, "!"@, "¬"@),
                        ),
                    ),
                ).push(space()).push(PegView::Call(OPERAND as nat)),
            ),
        ),
    )
}

pub fn unary_peg() -> (peg: Peg)
    ensures
        peg@ == unary(),
{
    node(
        Rule::UnaryExpr,
        Pegs::new().with(
            Pegs::new().with(sign_peg(Rule::Add, "+")).with(sign_peg(Rule::Subtract, "-")).with(
                spelled_peg(Rule::Neg, "!", "¬"),
            ).choice(),
        ).with(space_peg()).with(call(OPERAND)).all(),
    )
}

/// An opening parenthesis and an expression.
pub open spec fn opened() -> Seq<PegView> {
    none().push(sign(Rule::OpeningParenthesis, "("@)).push(space()).push(PegView::Call(EXPR as nat))
}

pub fn opened_pegs() -> (pegs: Pegs)
    ensures
        peg_views(pegs.list@) == opened(),
{
    Pegs::new().with(sign_peg(Rule::OpeningParenthesis, "(")).with(space_peg()).with(call(EXPR))
}

/// An expression in parentheses.
pub open spec fn closed_parentheses() -> PegView {
    PegView::Node(
        Rule::ParenthesizedExpression,
        Box::new(PegView::All(opened().push(space()).push(sign(Rule::ClosingParenthesis, ")"@)))),
    )
}

pub fn closed_parentheses_peg() -> (peg: Peg)
    ensures
        peg@ == closed_parentheses(),
{
    node(
        Rule::ParenthesizedExpression,
        opened_pegs().with(space_peg()).with(sign_peg(Rule::ClosingParenthesis, ")")).all(),
    )
}

/// An expression behind an opening parenthesis that nothing closes.
pub open spec fn open_parentheses() -> PegView {
    PegView::Node(
        Rule::ParenthesizedExpression,
        Box::new(
            PegView::All(
                opened().push(
                    PegView::Node(Rule::MissingClosingParenthesis, Box::new(PegView::All(none()))),
                ),
            ),
        ),
    )
}

pub fn open_parentheses_peg() -> (peg: Peg)
    ensures
        peg@ == open_parentheses(),
{
    node(
        Rule::ParenthesizedExpression,
        opened_pegs().with(node(Rule::MissingClosingParenthesis, Pegs::new().all())).all(),
    )
}

/// A tuple: no expression, or two or more, in parentheses.
pub open spec fn tuple() -> PegView {
    PegView::Node(
        Rule::Tuple,
        Box::new(
            bracketed(
                PegView::All(
                    none().push(PegView::Call(EXPR as nat)).push(token(","@)).push(space()).push(
                        PegView::Call(ARGUMENTS as nat),
                    ),
                ),
            ),
        ),
    )
}

pub fn tuple_peg() -> (peg: Peg)
    ensures
        peg@ == tuple(),
{
    node(
        Rule::Tuple,
        bracketed_peg(
            Pegs::new().with(call(EXPR)).with(token_peg(",")).with(space_peg()).with(
                call(ARGUMENTS),
            ).all(),
        ),
    )
}

/// The names of the functions.
pub open spec fn function_name() -> PegView {
    PegView::Node(
        Rule::FunctionName,
        Box::new(
            PegView::Choice(
                none().push(PegView::Text("arcsin"@)).push(PegView::Text("arccos"@)).push(
                    PegView::Text("arctar"@),
                ).push(PegView::Text("nroot"@)).push(PegView::Text("sqrt"@)).push(
                    PegView::Text("sin"@),
                ).push(PegView::Text("cos"@)).push(PegView::Text("tan"@)).push(
                    PegView::Text("exp"@),
                ).push(PegView::Text("floor"@)).push(PegView::Text("ceil"@)).push(
                    PegView::Text("π"@),
                ),
            ),
        ),
    )
}

pub fn function_name_peg() -> (peg: Peg)
    ensures
        peg@ == function_name(),
{
    node(
        Rule::FunctionName,
        Pegs::new().with(text("arcsin")).with(text("arccos")).with(text("arctar")).with(
            text("nroot"),
        ).with(text("sqrt")).with(text("sin")).with(text("cos")).with(text("tan")).with(
            text("exp"),
        ).with(text("floor")).with(text("ceil")).with(text("π")).choice(),
    )
}

/// A function call: the name, and the arguments in parentheses.
pub open spec fn function() -> PegView {
    PegView::Node(
        Rule::FunctionExpr,
        Box::new(
            PegView::All(
                none().push(function_name()).push(token("("@)).push(space()).push(
                    optional(PegView::Call(ARGUMENTS as nat)),
                ).push(token(")"@)),
            ),
        ),
    )
}

pub fn function_peg() -> (peg: Peg)
    ensures
        peg@ == function(),
{
    node(
        Rule::FunctionExpr,
        Pegs::new().with(function_name_peg()).with(token_peg("(")).with(space_peg()).with(
            opt(call(ARGUMENTS)),
        ).with(token_peg(")")).all(),
    )
}

/// An operand. A conditional, a literal and a unary operator are told by
/// how they begin; closed parentheses come before a tuple, and a tuple
/// before open parentheses; a function and a lookup come before the bare
/// identifier that they begin with.
pub open spec fn term() -> PegView {
    PegView::Choice(
        none().push(ternary()).push(PegView::Call(VALUE as nat)).push(unary()).push(
            closed_parentheses(),
        ).push(tuple()).push(open_parentheses()).push(function()).push(
            PegView::Call(LOOKUP as nat),
        ).push(PegView::Call(IDENT as nat)),
    )
}

pub fn term_peg() -> (peg: Peg)
    ensures
        peg@ == term(),
{
    Pegs::new().with(ternary_peg()).with(call(VALUE)).with(unary_peg()).with(
        closed_parentheses_peg(),
    ).with(tuple_peg()).with(open_parentheses_peg()).with(function_peg()).with(call(LOOKUP)).with(
        call(IDENT),
    ).choice()
}

/// A stream instance: the stream's name, and maybe arguments in parentheses.
pub open spec fn instance() -> PegView {
    PegView::Node(
        Rule::StreamInstance,
        Box::new(
            PegView::All(
                none().push(PegView::Call(IDENT as nat)).push(
                    optional(
                        PegView::All(
                            none().push(token("("@)).push(space()).push(
                                PegView::Call(ARGUMENTS as nat),
                            ).push(token(")"@)),
                        ),
                    ),
                ),
            ),
        ),
    )
}

pub fn instance_peg() -> (peg: Peg)
    ensures
        peg@ == instance(),
{
    node(
        Rule::StreamInstance,
        Pegs::new().with(call(IDENT)).with(
            opt(
                Pegs::new().with(token_peg("(")).with(space_peg()).with(call(ARGUMENTS)).with(
                    token_peg(")"),
                ).all(),
            ),
        ).all(),
    )
}

/// A unit of time. Of two that begin alike, the longer comes first.
pub open spec fn unit() -> PegView {
    PegView::Node(
        Rule::Unit,
        Box::new(
            PegView::All(
                none().push(
                    PegView::Choice(
                        none().push(PegView::Text("ns"@)).push(PegView::Text("μs"@)).push(
                            PegView::Text("ms"@),
                        ).push(PegView::Text("min"@)).push(PegView::Text("s"@)).push(
                            PegView::Text("h"@),
                        ).push(PegView::Text("d"@)).push(PegView::Text("w"@)).push(
                            PegView::Text("a"@),
                        ),
                    ),
                ).push(PegView::Not(Box::new(name_byte()))),
            ),
        ),
    )
}

pub fn unit_peg() -> (peg: Peg)
    ensures
        peg@ == unit(),
{
    node(
        Rule::Unit,
        Pegs::new().with(
            Pegs::new().with(text("ns")).with(text("μs")).with(text("ms")).with(text("min")).with(
                text("s"),
            ).with(text("h")).with(text("d")).with(text("w")).with(text("a")).choice(),
        ).with(not(name_byte_peg())).all(),
    )
}

/// An offset: an expression, which is a duration where a unit follows it.
pub open spec fn offset() -> PegView {
    PegView::Fold(
        Rule::Duration,
        Box::new(PegView::Call(EXPR as nat)),
        Box::new(PegView::All(none().push(space()).push(unit()))),
    )
}

pub fn offset_peg() -> (peg: Peg)
    ensures
        peg@ == offset(),
{
    fold(Rule::Duration, call(EXPR), Pegs::new().with(space_peg()).with(unit_peg()).all())
}

/// The operations of a sliding window.
pub open spec fn window() -> PegView {
    PegView::Choice(
        none().push(PegView::Node(Rule::Sum, Box::new(keyword("sum"@)))).push(
            PegView::Node(Rule::Product, Box::new(keyword("product"@))),
        ).push(PegView::Node(Rule::Average, Box::new(keyword("average"@)))).push(
            PegView::Node(Rule::Count, Box::new(keyword("count"@))),
        ).push(PegView::Node(Rule::Integral, Box::new(keyword("integral"@)))),
    )
}

pub fn window_peg() -> (peg: Peg)
    ensures
        peg@ == window(),
{
    Pegs::new().with(node(Rule::Sum, keyword_peg("sum"))).with(
        node(Rule::Product, keyword_peg("product")),
    ).with(node(Rule::Average, keyword_peg("average"))).with(
        node(Rule::Count, keyword_peg("count")),
    ).with(node(Rule::Integral, keyword_peg("integral"))).choice()
}

/// A lookup: `stream[offset]` or `stream[duration, operation]`; with `?` and
/// an expression behind it, a default.
pub open spec fn lookup() -> PegView {
    PegView::Fold(
        Rule::DefaultExpr,
        Box::new(
            PegView::Node(
                Rule::LookupExpr,
                Box::new(
                    PegView::All(
                        none().push(instance()).push(token("["@)).push(space()).push(offset()).push(
                            optional(PegView::All(none().push(token(","@)).push(space()).push(window()))),
                        ).push(token("]"@)),
                    ),
                ),
            ),
        ),
        Box::new(PegView::All(none().push(token("?"@)).push(space()).push(PegView::Call(EXPR as nat)))),
    )
}

pub fn lookup_peg() -> (peg: Peg)
    ensures
        peg@ == lookup(),
{
    fold(
        Rule::DefaultExpr,
        node(
            Rule::LookupExpr,
            Pegs::new().with(instance_peg()).with(token_peg("[")).with(space_peg()).with(
                offset_peg(),
            ).with(
                opt(Pegs::new().with(token_peg(",")).with(space_peg()).with(window_peg()).all()),
            ).with(token_peg("]")).all(),
        ),
        Pegs::new().with(token_peg("?")).with(space_peg()).with(call(EXPR)).all(),
    )
}

/// One parameter: a name, a colon and a type.
pub open spec fn parameter() -> PegView {
    PegView::All(
        none().push(PegView::Call(IDENT as nat)).push(token(":"@)).push(space()).push(
            PegView::Call(TYPE as nat),
        ),
    )
}

pub fn parameter_peg() -> (peg: Peg)
    ensures
        peg@ == parameter(),
{
    Pegs::new().with(call(IDENT)).with(token_peg(":")).with(space_peg()).with(call(TYPE)).all()
}

/// A parameter list: one parameter or more between `<` and `>`.
pub open spec fn parameters() -> PegView {
    PegView::Node(
        Rule::ParamList,
        Box::new(
            PegView::All(
                none().push(PegView::Text("<"@)).push(space()).push(
                    listed(parameter(), parameter()),
                ).push(token(">"@)),
            ),
        ),
    )
}

pub fn parameters_peg() -> (peg: Peg)
    ensures
        peg@ == parameters(),
{
    node(
        Rule::ParamList,
        Pegs::new().with(text("<")).with(space_peg()).with(
            listed_peg(parameter_peg(), parameter_peg()),
        ).with(token_peg(">")).all(),
    )
}

/// The head of a stream: its name, maybe parameters, a colon and its type.
pub open spec fn head() -> PegView {
    PegView::All(
        none().push(PegView::Call(IDENT as nat)).push(
            optional(PegView::All(none().push(space()).push(PegView::Call(PARAMS as nat)))),
        ).push(token(":"@)).push(space()).push(PegView::Call(TYPE as nat)),
    )
}

pub fn head_peg() -> (peg: Peg)
    ensures
        peg@ == head(),
{
    Pegs::new().with(call(IDENT)).with(
        opt(Pegs::new().with(space_peg()).with(call(PARAMS)).all()),
    ).with(token_peg(":")).with(space_peg()).with(call(TYPE)).all()
}

/// A constant: `constant name : type := value`.
pub open spec fn constant() -> PegView {
    PegView::Node(
        Rule::ConstantStream,
        Box::new(
            PegView::All(
                none().push(keyword("constant"@)).push(space()).push(PegView::Call(IDENT as nat)).push(
                    token(":"@),
                ).push(space()).push(PegView::Call(TYPE as nat)).push(token(":="@)).push(
                    space(),
                ).push(PegView::Call(LITERAL as nat)),
            ),
        ),
    )
}

pub fn constant_peg() -> (peg: Peg)
    ensures
        peg@ == constant(),
{
    node(
        Rule::ConstantStream,
        Pegs::new().with(keyword_peg("constant")).with(space_peg()).with(call(IDENT)).with(
            token_peg(":"),
        ).with(space_peg()).with(call(TYPE)).with(token_peg(":=")).with(space_peg()).with(
            call(LITERAL),
        ).all(),
    )
}

/// An input clause: `input` and one stream head or more, with commas between
/// them.
pub open spec fn input() -> PegView {
    PegView::Node(
        Rule::InputStream,
        Box::new(
            PegView::All(
                none().push(keyword("input"@)).push(space()).push(
                    listed(PegView::Call(HEAD as nat), PegView::Call(HEAD as nat)),
                ),
            ),
        ),
    )
}

pub fn input_peg() -> (peg: Peg)
    ensures
        peg@ == input(),
{
    node(
        Rule::InputStream,
        Pegs::new().with(keyword_peg("input")).with(space_peg()).with(
            listed_peg(call(HEAD), call(HEAD)),
        ).all(),
    )
}

/// An output: `output`, a stream head, `:=` and an expression.
pub open spec fn output() -> PegView {
    PegView::Node(
        Rule::OutputStream,
        Box::new(
            PegView::All(
                none().push(keyword("output"@)).push(space()).push(PegView::Call(HEAD as nat)).push(
                    token(":="@),
                ).push(space()).push(PegView::Call(EXPR as nat)),
            ),
        ),
    )
}

pub fn output_peg() -> (peg: Peg)
    ensures
        peg@ == output(),
{
    node(
        Rule::OutputStream,
        Pegs::new().with(keyword_peg("output")).with(space_peg()).with(call(HEAD)).with(
            token_peg(":="),
        ).with(space_peg()).with(call(EXPR)).all(),
    )
}

/// The text of a message: everything up to the next quotation mark.
pub open spec fn message() -> PegView {
    PegView::Node(
        Rule::String,
        Box::new(
            PegView::Star(
                Box::new(
                    PegView::All(
                        none().push(PegView::Not(Box::new(PegView::Text("\""@)))).push(
                            PegView::Byte(0x00, 0xff),
                        ),
                    ),
                ),
            ),
        ),
    )
}

pub fn message_peg() -> (peg: Peg)
    ensures
        peg@ == message(),
{
    node(Rule::String, star(Pegs::new().with(not(text("\""))).with(byte(0x00, 0xff)).all()))
}

/// A trigger: `trigger`, maybe a name and `:=`, an expression, and maybe a
/// message in quotation marks.
pub open spec fn trigger() -> PegView {
    PegView::Node(
        Rule::Trigger,
        Box::new(
            PegView::All(
                none().push(keyword("trigger"@)).push(space()).push(
                    optional(
                        PegView::All(
                            none().push(PegView::Call(IDENT as nat)).push(token(":="@)).push(space()),
                        ),
                    ),
                ).push(PegView::Call(EXPR as nat)).push(
                    optional(
                        PegView::All(
                            none().push(token("\""@)).push(message()).push(PegView::Text("\""@)),
                        ),
                    ),
                ),
            ),
        ),
    )
}

pub fn trigger_peg() -> (peg: Peg)
    ensures
        peg@ == trigger(),
{
    node(
        Rule::Trigger,
        Pegs::new().with(keyword_peg("trigger")).with(space_peg()).with(
            opt(Pegs::new().with(call(IDENT)).with(token_peg(":=")).with(space_peg()).all()),
        ).with(call(EXPR)).with(
            opt(Pegs::new().with(token_peg("\"")).with(message_peg()).with(text("\"")).all()),
        ).all(),
    )
}

/// A specification: declarations up to the end of the text.
pub open spec fn specification() -> PegView {
    PegView::Node(
        Rule::Spec,
        Box::new(
            PegView::All(
                none().push(space()).push(
                    PegView::Star(
                        Box::new(
                            PegView::All(
                                none().push(
                                    PegView::Choice(
                                        none().push(PegView::Call(CONSTANT as nat)).push(
                                            PegView::Call(INPUT as nat),
                                        ).push(PegView::Call(OUTPUT as nat)).push(
                                            PegView::Call(TRIGGER as nat),
                                        ),
                                    ),
                                ).push(space()),
                            ),
                        ),
                    ),
                ).push(
                    PegView::Node(
                        Rule::EOI,
                        Box::new(PegView::Not(Box::new(PegView::Byte(0x00, 0xff)))),
                    ),
                ),
            ),
        ),
    )
}

pub fn specification_peg() -> (peg: Peg)
    ensures
        peg@ == specification(),
{
    node(
        Rule::Spec,
        Pegs::new().with(space_peg()).with(
            star(
                Pegs::new().with(
                    Pegs::new().with(call(CONSTANT)).with(call(INPUT)).with(call(OUTPUT)).with(
                        call(TRIGGER),
                    ).choice(),
                ).with(space_peg()).all(),
            ),
        ).with(node(Rule::EOI, not(byte(0x00, 0xff)))).all(),
    )
}

/// The rules of the grammar, each at its number.
pub open spec fn grammar() -> Seq<PegView> {
    none().push(whitespace()).push(specification()).push(constant()).push(input()).push(
        output(),
    ).push(trigger()).push(identifier()).push(parameters()).push(type_rule()).push(literal()).push(
        expression(),
    ).push(term()).push(operator()).push(value()).push(lookup()).push(arguments()).push(
        operand(),
    ).push(head())
}

pub fn grammar_pegs() -> (rules: Vec<Peg>)
    ensures
        peg_views(rules@) == grammar(),
{
    Pegs::new().with(whitespace_peg()).with(specification_peg()).with(constant_peg()).with(
        input_peg(),
    ).with(output_peg()).with(trigger_peg()).with(identifier_peg()).with(parameters_peg()).with(
        type_peg(),
    ).with(literal_peg()).with(expression_peg()).with(term_peg()).with(operator_peg()).with(
        value_peg(),
    ).with(lookup_peg()).with(arguments_peg()).with(operand_peg()).with(head_peg()).list
}

/// Why a text has no parse tree.
#[derive(Debug, Clone, Copy, PartialEq, Eq, Structural)]
pub enum ParseError {
    /// The grammar has no rule of that kind to parse a text by.
    NoSuchRule,
    /// The text does not match the rule.
    Syntax,
    /// The parse tree is not of a shape that the builder takes. No tree that
    /// the grammar made is refused for this.
    Shape,
    /// The text has more nodes than a symbol table has symbols.
    TooLarge,
}

/// The number of the rule of the grammar by which a node of kind `rule` can
/// be parsed by itself.
pub open spec fn entry(rule: Rule) -> Option<usize> {
    match rule {
        Rule::Spec => Some(SPEC),
        Rule::ConstantStream => Some(CONSTANT),
        Rule::InputStream => Some(INPUT),
        Rule::OutputStream => Some(OUTPUT),
        Rule::Trigger => Some(TRIGGER),
        Rule::Ident => Some(IDENT),
        Rule::ParamList => Some(PARAMS),
        Rule::Type => Some(TYPE),
        Rule::Literal => Some(LITERAL),
        Rule::Expr => Some(EXPR),
        _ => None,
    }
}

/// The parse tree of the beginning of `bytes` under the rule for `rule`.
pub open spec fn syntax_tree(rule: Rule, bytes: Seq<u8>) -> Option<Tree> {
    match entry(rule) {
        Some(start) => match parsed(grammar(), PegView::Call(start as nat), bytes, 0, DEPTH as nat) {
            Some((trees, _)) => if trees.len() == 1 {
                Some(trees[0])
            } else {
                None
            },
            None => None,
        },
        None => None,
    }
}

/// The parser of the language.
pub struct LolaParser;

impl LolaParser {
    /// Parses the beginning of `input` by the rule for `rule`. A
    /// specification has to take all of the text; any other rule takes as
    /// much as matches.
    pub fn parse(rule: Rule, input: &str) -> (tree: Result<ParseTree, ParseError>)
        ensures
            match syntax_tree(rule, input.spec_bytes()) {
                Some(found) => tree matches Ok(parsed) && parsed@ == found,
                None => tree == Err::<ParseTree, ParseError>(
                    if entry(rule) is None {
                        ParseError::NoSuchRule
                    } else {
                        ParseError::Syntax
                    },
                ),
            },
    {
        let start = match rule {
            Rule::Spec => SPEC,
            Rule::ConstantStream => CONSTANT,
            Rule::InputStream => INPUT,
            Rule::OutputStream => OUTPUT,
            Rule::Trigger => TRIGGER,
            Rule::Ident => IDENT,
            Rule::ParamList => PARAMS,
            Rule::Type => TYPE,
            Rule::Literal => LITERAL,
            Rule::Expr => EXPR,
            _ => {
                return Err(ParseError::NoSuchRule);
            },
        };
        let rules = grammar_pegs();
        let peg = call(start);
        let mut memo = new_memo(input.len(), rules.len());
        match parse_with(&rules, &peg, input, 0, DEPTH, &mut memo) {
            Some((mut trees, _)) => {
                if trees.len() == 1 {
                    let ghost views = tree_views(trees@);
                    let found = trees.remove(0);
                    assert(found@ == views[0]);
                    Ok(found)
                } else {
                    Err(ParseError::Syntax)
                }
            },
            None => Err(ParseError::Syntax),
        }
    }
}

} // verus!
