//! The fixed vocabulary of the language: what the text of a number, of a time
//! unit and of a function name stands for, and which operator a rule names.

use crate::ast::{BinOp, FunctionKind, TimeUnit, WindowOperation};
use crate::climber::is_binary_operator;
use crate::tree::Rule;
use vstd::prelude::*;
use vstd::string::*;

verus! {

/// Whether `text` is one decimal digit or more, and nothing else.
pub open spec fn is_digits(text: Seq<char>) -> bool {
    &&& text.len() > 0
    &&& forall|i: int| 0 <= i < text.len() ==> '0' <= #[trigger] text[i] <= '9'
}

/// The number that the decimal digits `text` denote.
pub open spec fn decimal(text: Seq<char>) -> int
    decreases text.len(),
{
    if text.len() == 0 {
        0
    } else {
        decimal(text.drop_last()) * 10 + (text.last() as int - '0' as int)
    }
}

/// The integer that `text` denotes: an optional sign, then decimal digits,
/// whose value fits 128 bits.
pub open spec fn integer_value(text: Seq<char>) -> Option<i128> {
    let signed = text.len() > 0 && (text[0] == '-' || text[0] == '+');
    let digits = if signed {
        text.skip(1)
    } else {
        text
    };
    let value = if text.len() > 0 && text[0] == '-' {
        -decimal(digits)
    } else {
        decimal(digits)
    };
    if is_digits(digits) && i128::MIN <= value <= i128::MAX {
        Some(value as i128)
    } else {
        None
    }
}

/// Calls `str::parse::<i128>`. Taken on trust, as its documentation has it:
/// the text is an optional `+` or `-` and then decimal digits only, at least
/// one; the result is their value, and there is none where the text has
/// another form or the value does not fit.
#[verifier::external_body]
pub(crate) fn parse_integer(text: &str) -> (value: Option<i128>)
    ensures
        value == integer_value(text@),
{
    text.parse::<i128>().ok()
}

/// Whether `text` and `word` are the same text.
pub fn text_is(text: &String, word: &str) -> (same: bool)
    ensures
        same == (text@ == word@),
{
    let word = word.to_owned();
    *text == word
}

/// The time unit that a unit's text names.
pub open spec fn unit_of(text: Seq<char>) -> Option<TimeUnit> {
    if text == "ns"@ {
        Some(TimeUnit::NanoSecond)
    } else if text == "μs"@ {
        Some(TimeUnit::MicroSecond)
    } else if text == "ms"@ {
        Some(TimeUnit::MilliSecond)
    } else if text == "s"@ {
        Some(TimeUnit::Second)
    } else if text == "min"@ {
        Some(TimeUnit::Minute)
    } else if text == "h"@ {
        Some(TimeUnit::Hour)
    } else if text == "d"@ {
        Some(TimeUnit::Day)
    } else if text == "w"@ {
        Some(TimeUnit::Week)
    } else if text == "a"@ {
        Some(TimeUnit::Year)
    } else {
        None
    }
}

pub fn time_unit(text: &String) -> (unit: Option<TimeUnit>)
    ensures
        unit == unit_of(text@),
{
    if text_is(text, "ns") {
        Some(TimeUnit::NanoSecond)
    } else if text_is(text, "μs") {
        Some(TimeUnit::MicroSecond)
    } else if text_is(text, "ms") {
        Some(TimeUnit::MilliSecond)
    } else if text_is(text, "s") {
        Some(TimeUnit::Second)
    } else if text_is(text, "min") {
        Some(TimeUnit::Minute)
    } else if text_is(text, "h") {
        Some(TimeUnit::Hour)
    } else if text_is(text, "d") {
        Some(TimeUnit::Day)
    } else if text_is(text, "w") {
        Some(TimeUnit::Week)
    } else if text_is(text, "a") {
        Some(TimeUnit::Year)
    } else {
        None
    }
}

/// The function that a function's name stands for.
pub open spec fn function_kind_of(name: Seq<char>) -> Option<FunctionKind> {
    if name == "nroot"@ {
        Some(FunctionKind::NthRoot)
    } else if name == "sqrt"@ {
        Some(FunctionKind::Sqrt)
    } else if name == "π"@ {
        Some(FunctionKind::Projection)
    } else if name == "sin"@ {
        Some(FunctionKind::Sin)
    } else if name == "cos"@ {
        Some(FunctionKind::Cos)
    } else if name == "tan"@ {
        Some(FunctionKind::Tan)
    } else if name == "arcsin"@ {
        Some(FunctionKind::Arcsin)
    } else if name == "arccos"@ {
        Some(FunctionKind::Arccos)
    } else if name == "arctar"@ {
        Some(FunctionKind::Arctan)
    } else if name == "exp"@ {
        Some(FunctionKind::Exp)
    } else if name == "floor"@ {
        Some(FunctionKind::Floor)
    } else if name == "ceil"@ {
        Some(FunctionKind::Ceil)
    } else {
        None
    }
}

pub fn function_kind(name: &String) -> (kind: Option<FunctionKind>)
    ensures
        kind == function_kind_of(name@),
{
    if text_is(name, "nroot") {
        Some(FunctionKind::NthRoot)
    } else if text_is(name, "sqrt") {
        Some(FunctionKind::Sqrt)
    } else if text_is(name, "π") {
        Some(FunctionKind::Projection)
    } else if text_is(name, "sin") {
        Some(FunctionKind::Sin)
    } else if text_is(name, "cos") {
        Some(FunctionKind::Cos)
    } else if text_is(name, "tan") {
        Some(FunctionKind::Tan)
    } else if text_is(name, "arcsin") {
        Some(FunctionKind::Arcsin)
    } else if text_is(name, "arccos") {
        Some(FunctionKind::Arccos)
    } else if text_is(name, "arctar") {
        Some(FunctionKind::Arctan)
    } else if text_is(name, "exp") {
        Some(FunctionKind::Exp)
    } else if text_is(name, "floor") {
        Some(FunctionKind::Floor)
    } else if text_is(name, "ceil") {
        Some(FunctionKind::Ceil)
    } else {
        None
    }
}

/// Whether `rule` is the rule of a binary operator.
pub fn names_binary_operator(rule: Rule) -> (binary: bool)
    ensures
        binary == is_binary_operator(rule),
{
    match rule {
        Rule::Or
        | Rule::And
        | Rule::Equal
        | Rule::NotEqual
        | Rule::LessThan
        | Rule::LessThanOrEqual
        | Rule::MoreThan
        | Rule::MoreThanOrEqual
        | Rule::Add
        | Rule::Subtract
        | Rule::Multiply
        | Rule::Divide
        | Rule::Mod
        | Rule::Power => true,
        _ => false,
    }
}

/// The binary operator that an operator's rule names.
pub open spec fn binop_of(rule: Rule) -> BinOp {
    match rule {
        Rule::Add => BinOp::Add,
        Rule::Subtract => BinOp::Sub,
        Rule::Multiply => BinOp::Mul,
        Rule::Divide => BinOp::Div,
        Rule::Mod => BinOp::Rem,
        Rule::Power => BinOp::Pow,
        Rule::And => BinOp::And,
        Rule::Or => BinOp::Or,
        Rule::LessThan => BinOp::Lt,
        Rule::LessThanOrEqual => BinOp::Le,
        Rule::MoreThan => BinOp::Gt,
        Rule::MoreThanOrEqual => BinOp::Ge,
        Rule::Equal => BinOp::Eq,
        _ => BinOp::Ne,
    }
}

pub fn binary_operator(rule: Rule) -> (op: BinOp)
    requires
        is_binary_operator(rule),
    ensures
        op == binop_of(rule),
{
    match rule {
        Rule::Add => BinOp::Add,
        Rule::Subtract => BinOp::Sub,
        Rule::Multiply => BinOp::Mul,
        Rule::Divide => BinOp::Div,
        Rule::Mod => BinOp::Rem,
        Rule::Power => BinOp::Pow,
        Rule::And => BinOp::And,
        Rule::Or => BinOp::Or,
        Rule::LessThan => BinOp::Lt,
        Rule::LessThanOrEqual => BinOp::Le,
        Rule::MoreThan => BinOp::Gt,
        Rule::MoreThanOrEqual => BinOp::Ge,
        Rule::Equal => BinOp::Eq,
        _ => BinOp::Ne,
    }
}

/// The aggregation that a window's rule names.
pub open spec fn window_of(rule: Rule) -> Option<WindowOperation> {
    match rule {
        Rule::Sum => Some(WindowOperation::Sum),
        Rule::Product => Some(WindowOperation::Product),
        Rule::Average => Some(WindowOperation::Average),
        Rule::Count => Some(WindowOperation::Count),
        Rule::Integral => Some(WindowOperation::Integral),
        _ => None,
    }
}

pub fn window_operation(rule: Rule) -> (window: Option<WindowOperation>)
    ensures
        window == window_of(rule),
{
    match rule {
        Rule::Sum => Some(WindowOperation::Sum),
        Rule::Product => Some(WindowOperation::Product),
        Rule::Average => Some(WindowOperation::Average),
        Rule::Count => Some(WindowOperation::Count),
        Rule::Integral => Some(WindowOperation::Integral),
        _ => None,
    }
}

} // verus!
