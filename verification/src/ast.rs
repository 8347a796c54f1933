//! The abstract syntax tree of a specification, and its mathematical view.
//!
//! Every type that owns a `Vec` or a `String` has a view in which sequences
//! stand for them; the contracts of the builder and of the analysis speak of
//! these views. Types made of plain values alone are their own view.

use crate::symbols::{Symbol, SymbolTable};
use vstd::prelude::*;

verus! {

/// A span marks a range in a file: `start` and `end` are byte offsets, and
/// `end` is the first byte after the range.
#[derive(Debug, Clone, Copy, PartialEq, Eq, Structural)]
pub struct Span {
    pub start: usize,
    pub end: usize,
}

impl Span {
    pub fn new(start: usize, end: usize) -> (span: Span)
        ensures
            span == (Span { start, end }),
    {
        Span { start, end }
    }
}

/// An interned name with the place where it was written.
#[derive(Debug, Clone, Copy, PartialEq, Eq, Structural)]
pub struct Ident {
    pub name: Symbol,
    pub span: Span,
}

impl Ident {
    pub fn new(name: Symbol, span: Span) -> (ident: Ident)
        ensures
            ident == (Ident { name, span }),
    {
        Ident { name, span }
    }
}

/// The identifier that a later pass gives to every stream and trigger.
pub type NodeId = u32;

/// The versions of the language, each contained in the next.
#[derive(Debug, Clone, Copy, PartialEq, Eq, Structural)]
pub enum LanguageSpec {
    /// Lola as it was first defined.
    Classic,
    /// Lola with parameterized streams.
    Lola2,
    /// Lola with real-time offsets and sliding windows.
    RTLola,
}

impl LanguageSpec {
    /// The place of a version in the order of expressiveness.
    pub open spec fn rank(self) -> nat {
        match self {
            LanguageSpec::Classic => 0,
            LanguageSpec::Lola2 => 1,
            LanguageSpec::RTLola => 2,
        }
    }
}

#[derive(Debug, Clone, Copy, PartialEq, Eq, Structural)]
pub enum TimeUnit {
    NanoSecond,
    MicroSecond,
    MilliSecond,
    Second,
    Minute,
    Hour,
    Day,
    Week,
    /// Note: A year is always, without exception, 365 days long.
    Year,
}

#[derive(Debug, Clone, Copy, PartialEq, Eq, Structural)]
pub enum WindowOperation {
    Sum,
    Product,
    Average,
    Count,
    Integral,
}

#[derive(Debug, Clone, Copy, PartialEq, Eq, Structural)]
pub enum BinOp {
    /// The `+` operator (addition)
    Add,
    /// The `-` operator (subtraction)
    Sub,
    /// The `*` operator (multiplication)
    Mul,
    /// The `/` operator (division)
    Div,
    /// The `%` operator (modulus)
    Rem,
    /// The `**` operator (power)
    Pow,
    /// The `&&` operator (logical and)
    And,
    /// The `||` operator (logical or)
    Or,
    /// The `==` operator (equality)
    Eq,
    /// The `<` operator (less than)
    Lt,
    /// The `<=` operator (less than or equal to)
    Le,
    /// The `!=` operator (not equal to)
    Ne,
    /// The `>=` operator (greater than or equal to)
    Ge,
    /// The `>` operator (greater than)
    Gt,
}

#[derive(Debug, Clone, Copy, PartialEq, Eq, Structural)]
pub enum UnOp {
    /// The `!` operator for logical inversion
    Not,
    /// The `-` operator for negation
    Neg,
}

#[derive(Debug, Clone, Copy, PartialEq, Eq, Structural)]
pub enum FunctionKind {
    NthRoot,
    Sqrt,
    Projection,
    Sin,
    Cos,
    Tan,
    Arcsin,
    Arccos,
    Arctan,
    Exp,
    Floor,
    Ceil,
}

/// One parenthesis of a parenthesized expression.
#[derive(Debug, Clone, Copy, PartialEq, Eq, Structural)]
pub struct Parenthesis {
    pub span: Span,
}

impl Parenthesis {
    pub fn new(span: Span) -> (parenthesis: Parenthesis)
        ensures
            parenthesis.span == span,
    {
        Parenthesis { span }
    }
}

#[derive(Debug, PartialEq, Eq)]
pub struct Type {
    pub kind: TypeKind,
    pub span: Span,
}

#[derive(Debug, PartialEq, Eq)]
pub enum TypeKind {
    /// A named type, e.g., `Int`
    Simple(Symbol),
    /// A tuple type, e.g., `(Int, Bool)`
    Tuple(Vec<Box<Type>>),
}

pub struct TypeView {
    pub kind: TypeKindView,
    pub span: Span,
}

pub enum TypeKindView {
    Simple(Symbol),
    Tuple(Seq<TypeView>),
}

/// The views of a list of types.
pub open spec fn boxed_type_views(types: Seq<Box<Type>>) -> Seq<TypeView> {
    Seq::new(types.len(), |i: int| types[i]@)
}

/// The views of a list of literals.
pub open spec fn literal_views(literals: Seq<Literal>) -> Seq<LiteralView> {
    Seq::new(literals.len(), |i: int| literals[i]@)
}

pub open spec fn type_view(ty: Type) -> TypeView
    decreases ty,
{
    TypeView {
        kind: match ty.kind {
            TypeKind::Simple(name) => TypeKindView::Simple(name),
            TypeKind::Tuple(elements) => TypeKindView::Tuple(
                Seq::new(
                    elements@.len(),
                    |i: int|
                        if 0 <= i < elements@.len() {
                            type_view(*elements@[i])
                        } else {
                            arbitrary()
                        },
                ),
            ),
        },
        span: ty.span,
    }
}

impl View for Type {
    type V = TypeView;

    open spec fn view(&self) -> TypeView {
        type_view(*self)
    }
}

impl Type {
    pub fn new_simple(name: Symbol, span: Span) -> (ty: Type)
        ensures
            ty@ == (TypeView { kind: TypeKindView::Simple(name), span }),
    {
        Type { kind: TypeKind::Simple(name), span }
    }

    pub fn new_tuple(tuple: Vec<Box<Type>>, span: Span) -> (ty: Type)
        ensures
            ty@.span == span,
            ty@.kind == TypeKindView::Tuple(boxed_type_views(tuple@)),
    {
        let ty = Type { kind: TypeKind::Tuple(tuple), span };
        assert(ty@.kind->Tuple_0 =~= boxed_type_views(tuple@));
        ty
    }
}


#[derive(Debug, PartialEq, Eq)]
pub struct Literal {
    pub kind: LitKind,
    pub span: Span,
}

#[derive(Debug, PartialEq, Eq)]
pub enum LitKind {
    /// An integer literal (`1`)
    Int(i128),
    /// A literal with a fraction or an exponent (`1.0`, `2e5`), kept as it was written
    Float(String),
    /// A boolean literal (`true`)
    Bool(bool),
    /// A tuple literal (`(1, true)`)
    Tuple(Vec<Literal>),
}

pub struct LiteralView {
    pub kind: LitKindView,
    pub span: Span,
}

pub enum LitKindView {
    Int(i128),
    Float(Seq<char>),
    Bool(bool),
    Tuple(Seq<LiteralView>),
}

pub open spec fn literal_view(literal: Literal) -> LiteralView
    decreases literal,
{
    LiteralView {
        kind: match literal.kind {
            LitKind::Int(value) => LitKindView::Int(value),
            LitKind::Float(text) => LitKindView::Float(text@),
            LitKind::Bool(value) => LitKindView::Bool(value),
            LitKind::Tuple(elements) => LitKindView::Tuple(
                Seq::new(
                    elements@.len(),
                    |i: int|
                        if 0 <= i < elements@.len() {
                            literal_view(elements@[i])
                        } else {
                            arbitrary()
                        },
                ),
            ),
        },
        span: literal.span,
    }
}

impl View for Literal {
    type V = LiteralView;

    open spec fn view(&self) -> LiteralView {
        literal_view(*self)
    }
}

impl Literal {
    pub fn new_int(value: i128, span: Span) -> (literal: Literal)
        ensures
            literal@ == (LiteralView { kind: LitKindView::Int(value), span }),
    {
        Literal { kind: LitKind::Int(value), span }
    }

    pub fn new_float(text: String, span: Span) -> (literal: Literal)
        ensures
            literal@ == (LiteralView { kind: LitKindView::Float(text@), span }),
    {
        Literal { kind: LitKind::Float(text), span }
    }

    pub fn new_bool(value: bool, span: Span) -> (literal: Literal)
        ensures
            literal@ == (LiteralView { kind: LitKindView::Bool(value), span }),
    {
        Literal { kind: LitKind::Bool(value), span }
    }

    pub fn new_tuple(elements: Vec<Literal>, span: Span) -> (literal: Literal)
        ensures
            literal@.span == span,
            literal@.kind == LitKindView::Tuple(literal_views(elements@)),
    {
        let literal = Literal { kind: LitKind::Tuple(elements), span };
        assert(literal@.kind->Tuple_0 =~= literal_views(elements@));
        literal
    }
}

#[derive(Debug, PartialEq, Eq)]
pub struct Expression {
    pub kind: ExpressionKind,
    pub span: Span,
}

#[derive(Debug, PartialEq, Eq)]
pub enum ExpressionKind {
    /// A literal, e.g., `1`, `true`
    Lit(Literal),
    /// An identifier, e.g., `foo`
    Ident(Ident),
    /// A default expression, e.g., `a[-1] ? 0`
    Default(Box<Expression>, Box<Expression>),
    /// A stream lookup with offset, and a window operation where it aggregates
    Lookup(StreamInstance, Offset, Option<WindowOperation>),
    /// A binary operation (for example: `a + b`, `a * b`)
    Binary(BinOp, Box<Expression>, Box<Expression>),
    /// A unary operation (for example: `!x`, `-x`)
    Unary(UnOp, Box<Expression>),
    /// An if-then-else expression
    Ite(Box<Expression>, Box<Expression>, Box<Expression>),
    /// An expression enveloped in parentheses; either parenthesis may be missing
    ParenthesizedExpression(Option<Box<Parenthesis>>, Box<Expression>, Option<Box<Parenthesis>>),
    /// An expression was expected, e.g., after an operator like `*`
    MissingExpression,
    /// A tuple expression
    Tuple(Vec<Box<Expression>>),
    /// A function call
    Function(FunctionKind, Vec<Box<Expression>>),
    /// Access of a named field, e.g., `a.b`
    Field(Box<Expression>, Ident),
    /// A method call with type arguments, e.g., `a.m<Int>(b)`
    Method(Box<Expression>, Ident, Vec<Type>, Vec<Box<Expression>>),
}

/// A stream with the arguments it is instantiated with.
#[derive(Debug, PartialEq, Eq)]
pub struct StreamInstance {
    pub stream_identifier: Ident,
    pub arguments: Vec<Box<Expression>>,
}

#[derive(Debug, PartialEq, Eq)]
pub enum Offset {
    /// A number of steps into the past or the future
    DiscreteOffset(Box<Expression>),
    /// A duration into the past or the future
    RealTimeOffset(Box<Expression>, TimeUnit),
}

pub struct ExpressionView {
    pub kind: ExpressionKindView,
    pub span: Span,
}

pub enum ExpressionKindView {
    Lit(LiteralView),
    Ident(Ident),
    Default(Box<ExpressionView>, Box<ExpressionView>),
    Lookup(StreamInstanceView, OffsetView, Option<WindowOperation>),
    Binary(BinOp, Box<ExpressionView>, Box<ExpressionView>),
    Unary(UnOp, Box<ExpressionView>),
    Ite(Box<ExpressionView>, Box<ExpressionView>, Box<ExpressionView>),
    ParenthesizedExpression(Option<Parenthesis>, Box<ExpressionView>, Option<Parenthesis>),
    MissingExpression,
    Tuple(Seq<ExpressionView>),
    Function(FunctionKind, Seq<ExpressionView>),
    Field(Box<ExpressionView>, Ident),
    Method(Box<ExpressionView>, Ident, Seq<TypeView>, Seq<ExpressionView>),
}

pub struct StreamInstanceView {
    pub stream_identifier: Ident,
    pub arguments: Seq<ExpressionView>,
}

pub enum OffsetView {
    DiscreteOffset(Box<ExpressionView>),
    RealTimeOffset(Box<ExpressionView>, TimeUnit),
}

/// The views of a list of expressions.
pub open spec fn expression_views(expressions: Seq<Box<Expression>>) -> Seq<ExpressionView>
    decreases expressions,
{
    Seq::new(
        expressions.len(),
        |i: int|
            if 0 <= i < expressions.len() {
                expression_view(*expressions[i])
            } else {
                arbitrary()
            },
    )
}

pub open spec fn parenthesis_view(parenthesis: Option<Box<Parenthesis>>) -> Option<Parenthesis> {
    match parenthesis {
        Some(p) => Some(*p),
        None => None,
    }
}

pub open spec fn expression_view(expression: Expression) -> ExpressionView
    decreases expression,
{
    ExpressionView {
        kind: match expression.kind {
            ExpressionKind::Lit(literal) => ExpressionKindView::Lit(literal@),
            ExpressionKind::Ident(ident) => ExpressionKindView::Ident(ident),
            ExpressionKind::Default(target, fallback) => ExpressionKindView::Default(
                Box::new(expression_view(*target)),
                Box::new(expression_view(*fallback)),
            ),
            ExpressionKind::Lookup(instance, offset, window) => ExpressionKindView::Lookup(
                StreamInstanceView {
                    stream_identifier: instance.stream_identifier,
                    arguments: expression_views(instance.arguments@),
                },
                match offset {
                    Offset::DiscreteOffset(steps) => OffsetView::DiscreteOffset(
                        Box::new(expression_view(*steps)),
                    ),
                    Offset::RealTimeOffset(duration, unit) => OffsetView::RealTimeOffset(
                        Box::new(expression_view(*duration)),
                        unit,
                    ),
                },
                window,
            ),
            ExpressionKind::Binary(op, left, right) => ExpressionKindView::Binary(
                op,
                Box::new(expression_view(*left)),
                Box::new(expression_view(*right)),
            ),
            ExpressionKind::Unary(op, operand) => ExpressionKindView::Unary(
                op,
                Box::new(expression_view(*operand)),
            ),
            ExpressionKind::Ite(condition, consequence, alternative) => ExpressionKindView::Ite(
                Box::new(expression_view(*condition)),
                Box::new(expression_view(*consequence)),
                Box::new(expression_view(*alternative)),
            ),
            ExpressionKind::ParenthesizedExpression(open, inner, close) =>
                ExpressionKindView::ParenthesizedExpression(
                    parenthesis_view(open),
                    Box::new(expression_view(*inner)),
                    parenthesis_view(close),
                ),
            ExpressionKind::MissingExpression => ExpressionKindView::MissingExpression,
            ExpressionKind::Tuple(elements) => ExpressionKindView::Tuple(
                expression_views(elements@),
            ),
            ExpressionKind::Function(kind, arguments) => ExpressionKindView::Function(
                kind,
                expression_views(arguments@),
            ),
            ExpressionKind::Field(target, field) => ExpressionKindView::Field(
                Box::new(expression_view(*target)),
                field,
            ),
            ExpressionKind::Method(target, name, types, arguments) => ExpressionKindView::Method(
                Box::new(expression_view(*target)),
                name,
                Seq::new(types@.len(), |i: int| types@[i]@),
                expression_views(arguments@),
            ),
        },
        span: expression.span,
    }
}

impl View for Expression {
    type V = ExpressionView;

    open spec fn view(&self) -> ExpressionView {
        expression_view(*self)
    }
}

impl View for StreamInstance {
    type V = StreamInstanceView;

    open spec fn view(&self) -> StreamInstanceView {
        StreamInstanceView {
            stream_identifier: self.stream_identifier,
            arguments: expression_views(self.arguments@),
        }
    }
}

impl View for Offset {
    type V = OffsetView;

    open spec fn view(&self) -> OffsetView {
        match *self {
            Offset::DiscreteOffset(steps) => OffsetView::DiscreteOffset(Box::new(steps@)),
            Offset::RealTimeOffset(duration, unit) => OffsetView::RealTimeOffset(
                Box::new(duration@),
                unit,
            ),
        }
    }
}

impl Expression {
    pub fn new(kind: ExpressionKind, span: Span) -> (expression: Expression)
        ensures
            expression == (Expression { kind, span }),
    {
        Expression { kind, span }
    }
}


/// A constant stream: `constant five : Int := 5`.
#[derive(Debug, PartialEq, Eq)]
pub struct Constant {
    pub name: Option<Ident>,
    pub ty: Option<Type>,
    pub literal: Option<Literal>,
    pub span: Span,
}

pub struct ConstantView {
    pub name: Option<Ident>,
    pub ty: Option<TypeView>,
    pub literal: Option<LiteralView>,
    pub span: Span,
}

impl View for Constant {
    type V = ConstantView;

    open spec fn view(&self) -> ConstantView {
        ConstantView {
            name: self.name,
            ty: match self.ty {
                Some(ty) => Some(ty@),
                None => None,
            },
            literal: match self.literal {
                Some(literal) => Some(literal@),
                None => None,
            },
            span: self.span,
        }
    }
}

/// One parameter of a parameterized stream: `p: Int`.
#[derive(Debug, PartialEq, Eq)]
pub struct Parameter {
    pub name: Ident,
    pub ty: Type,
    pub span: Span,
}

pub struct ParameterView {
    pub name: Ident,
    pub ty: TypeView,
    pub span: Span,
}

/// The views of a list of parameters.
pub open spec fn parameter_views(parameters: Seq<Parameter>) -> Seq<ParameterView> {
    Seq::new(parameters.len(), |i: int| parameters[i]@)
}

impl View for Parameter {
    type V = ParameterView;

    open spec fn view(&self) -> ParameterView {
        ParameterView { name: self.name, ty: self.ty@, span: self.span }
    }
}

/// An input stream: `input in: Int`. It is parameterized where `params` is
/// not empty.
#[derive(Debug, PartialEq, Eq)]
pub struct Input {
    pub id: NodeId,
    pub name: Ident,
    pub params: Vec<Parameter>,
    pub ty: Type,
    pub span: Span,
}

pub struct InputView {
    pub id: NodeId,
    pub name: Ident,
    pub params: Seq<ParameterView>,
    pub ty: TypeView,
    pub span: Span,
}

impl View for Input {
    type V = InputView;

    open spec fn view(&self) -> InputView {
        InputView {
            id: self.id,
            name: self.name,
            params: parameter_views(self.params@),
            ty: self.ty@,
            span: self.span,
        }
    }
}

/// An output stream: `output out: Int := in + 1`. It is parameterized where
/// `params` is not empty.
#[derive(Debug, PartialEq, Eq)]
pub struct Output {
    pub id: NodeId,
    pub name: Ident,
    pub params: Vec<Parameter>,
    pub ty: Type,
    pub expression: Expression,
    pub span: Span,
}

pub struct OutputView {
    pub id: NodeId,
    pub name: Ident,
    pub params: Seq<ParameterView>,
    pub ty: TypeView,
    pub expression: ExpressionView,
    pub span: Span,
}

impl View for Output {
    type V = OutputView;

    open spec fn view(&self) -> OutputView {
        OutputView {
            id: self.id,
            name: self.name,
            params: parameter_views(self.params@),
            ty: self.ty@,
            expression: self.expression@,
            span: self.span,
        }
    }
}

/// A trigger: `trigger in != out "some message"`.
#[derive(Debug, PartialEq, Eq)]
pub struct Trigger {
    pub id: NodeId,
    pub name: Option<Ident>,
    pub expression: Expression,
    pub message: Option<Symbol>,
    pub span: Span,
}

pub struct TriggerView {
    pub id: NodeId,
    pub name: Option<Ident>,
    pub expression: ExpressionView,
    pub message: Option<Symbol>,
    pub span: Span,
}

impl View for Trigger {
    type V = TriggerView;

    open spec fn view(&self) -> TriggerView {
        TriggerView {
            id: self.id,
            name: self.name,
            expression: self.expression@,
            message: self.message,
            span: self.span,
        }
    }
}

/// A whole specification: its declarations in source order, and the table
/// that their symbols refer to.
#[derive(Debug)]
pub struct LolaSpec {
    pub constants: Vec<Constant>,
    pub inputs: Vec<Input>,
    pub outputs: Vec<Output>,
    pub trigger: Vec<Trigger>,
    pub symbols: SymbolTable,
}

pub struct LolaSpecView {
    pub constants: Seq<ConstantView>,
    pub inputs: Seq<InputView>,
    pub outputs: Seq<OutputView>,
    pub trigger: Seq<TriggerView>,
    pub symbols: Seq<Seq<char>>,
}

/// The views of a list of constants.
pub open spec fn constant_views(constants: Seq<Constant>) -> Seq<ConstantView> {
    Seq::new(constants.len(), |i: int| constants[i]@)
}

/// The views of a list of inputs.
pub open spec fn input_views(inputs: Seq<Input>) -> Seq<InputView> {
    Seq::new(inputs.len(), |i: int| inputs[i]@)
}

/// The views of a list of outputs.
pub open spec fn output_views(outputs: Seq<Output>) -> Seq<OutputView> {
    Seq::new(outputs.len(), |i: int| outputs[i]@)
}

/// The views of a list of triggers.
pub open spec fn trigger_views(triggers: Seq<Trigger>) -> Seq<TriggerView> {
    Seq::new(triggers.len(), |i: int| triggers[i]@)
}

impl View for LolaSpec {
    type V = LolaSpecView;

    open spec fn view(&self) -> LolaSpecView {
        LolaSpecView {
            constants: constant_views(self.constants@),
            inputs: input_views(self.inputs@),
            outputs: output_views(self.outputs@),
            trigger: trigger_views(self.trigger@),
            symbols: self.symbols@,
        }
    }
}

impl LolaSpecView {
    /// The name of every output is a symbol of the specification's table.
    pub open spec fn outputs_named(self) -> bool {
        forall|i: int|
            0 <= i < self.outputs.len() ==> (#[trigger] self.outputs[i]).name.name.0
                < self.symbols.len()
    }

    /// A specification without declarations, over the given names.
    pub open spec fn empty(symbols: Seq<Seq<char>>) -> LolaSpecView {
        LolaSpecView {
            constants: Seq::empty(),
            inputs: Seq::empty(),
            outputs: Seq::empty(),
            trigger: Seq::empty(),
            symbols,
        }
    }
}

impl LolaSpec {
    pub fn new() -> (lola: LolaSpec)
        ensures
            lola@ == LolaSpecView::empty(Seq::empty()),
            lola.symbols.wf(),
    {
        let lola = LolaSpec {
            constants: Vec::new(),
            inputs: Vec::new(),
            outputs: Vec::new(),
            trigger: Vec::new(),
            symbols: SymbolTable::new(),
        };
        assert(lola@.constants =~= Seq::empty());
        assert(lola@.inputs =~= Seq::empty());
        assert(lola@.outputs =~= Seq::empty());
        assert(lola@.trigger =~= Seq::empty());
        lola
    }
}


/// The specification `lola` with the identifiers `0`, `1`, `2` and so on
/// given to its inputs, then its outputs, then its triggers.
pub open spec fn numbered(lola: LolaSpecView) -> LolaSpecView {
    LolaSpecView {
        inputs: Seq::new(
            lola.inputs.len(),
            |i: int| InputView { id: i as u32, ..lola.inputs[i] },
        ),
        outputs: Seq::new(
            lola.outputs.len(),
            |i: int| OutputView { id: (lola.inputs.len() + i) as u32, ..lola.outputs[i] },
        ),
        trigger: Seq::new(
            lola.trigger.len(),
            |i: int|
                TriggerView {
                    id: (lola.inputs.len() + lola.outputs.len() + i) as u32,
                    ..lola.trigger[i]
                },
        ),
        ..lola
    }
}

impl LolaSpec {
    /// Gives every input, output and trigger an identifier of its own: they
    /// are numbered from zero on, inputs first, then outputs, then triggers.
    pub fn assign_ids(&mut self)
        requires
            old(self)@.inputs.len() + old(self)@.outputs.len() + old(self)@.trigger.len() <= u32::MAX,
        ensures
            final(self)@ == numbered(old(self)@),
    {
        let ghost before = self@;
        let mut i: usize = 0;
        while i < self.inputs.len()
            invariant
                i <= self.inputs@.len(),
                before.inputs.len() + before.outputs.len() + before.trigger.len() <= u32::MAX,
                self@.inputs.len() == before.inputs.len(),
                self@.outputs == before.outputs,
                self@.trigger == before.trigger,
                self@.constants == before.constants,
                self@.symbols == before.symbols,
                forall|j: int|
                    0 <= j < i ==> (#[trigger] self@.inputs[j]) == (InputView {
                        id: j as u32,
                        ..before.inputs[j]
                    }),
                forall|j: int| i <= j < before.inputs.len() ==> self@.inputs[j] == before.inputs[j],
            decreases self.inputs@.len() - i,
        {
            let ghost views = self@.inputs;
            let ghost inputs = self.inputs@;
            self.inputs[i].id = i as u32;
            proof {
                assert(self.inputs@.len() == inputs.len());
                assert forall|j: int| 0 <= j < inputs.len() && j != i implies #[trigger] self@.inputs[j]
                    == views[j] by {
                    assert(self.inputs@[j] == inputs[j]);
                }
                assert(views[i as int] == before.inputs[i as int]);
                assert(self@.inputs[i as int] == (InputView { id: i as u32, ..views[i as int] }));
            }
            i += 1;
        }
        assert(self@.inputs =~= numbered(before).inputs);
        let offset = self.inputs.len();
        let mut i: usize = 0;
        while i < self.outputs.len()
            invariant
                i <= self.outputs@.len(),
                offset == before.inputs.len(),
                before.inputs.len() + before.outputs.len() + before.trigger.len() <= u32::MAX,
                self@.inputs == numbered(before).inputs,
                self@.outputs.len() == before.outputs.len(),
                self@.trigger == before.trigger,
                self@.constants == before.constants,
                self@.symbols == before.symbols,
                forall|j: int|
                    0 <= j < i ==> (#[trigger] self@.outputs[j]) == (OutputView {
                        id: (before.inputs.len() + j) as u32,
                        ..before.outputs[j]
                    }),
                forall|j: int| i <= j < before.outputs.len() ==> self@.outputs[j] == before.outputs[j],
            decreases self.outputs@.len() - i,
        {
            let ghost views = self@.outputs;
            let ghost outputs = self.outputs@;
            self.outputs[i].id = (offset + i) as u32;
            proof {
                assert(self.outputs@.len() == outputs.len());
                assert forall|j: int| 0 <= j < outputs.len() && j != i implies #[trigger] self@.outputs[j]
                    == views[j] by {
                    assert(self.outputs@[j] == outputs[j]);
                }
                assert(views[i as int] == before.outputs[i as int]);
                assert(self@.outputs[i as int] == (OutputView {
                    id: (offset + i) as u32,
                    ..views[i as int]
                }));
            }
            i += 1;
        }
        assert(self@.outputs =~= numbered(before).outputs);
        let offset = offset + self.outputs.len();
        let mut i: usize = 0;
        while i < self.trigger.len()
            invariant
                i <= self.trigger@.len(),
                offset == before.inputs.len() + before.outputs.len(),
                before.inputs.len() + before.outputs.len() + before.trigger.len() <= u32::MAX,
                self@.inputs == numbered(before).inputs,
                self@.outputs == numbered(before).outputs,
                self@.trigger.len() == before.trigger.len(),
                self@.constants == before.constants,
                self@.symbols == before.symbols,
                forall|j: int|
                    0 <= j < i ==> (#[trigger] self@.trigger[j]) == (TriggerView {
                        id: (before.inputs.len() + before.outputs.len() + j) as u32,
                        ..before.trigger[j]
                    }),
                forall|j: int| i <= j < before.trigger.len() ==> self@.trigger[j] == before.trigger[j],
            decreases self.trigger@.len() - i,
        {
            let ghost views = self@.trigger;
            let ghost triggers = self.trigger@;
            self.trigger[i].id = (offset + i) as u32;
            proof {
                assert(self.trigger@.len() == triggers.len());
                assert forall|j: int| 0 <= j < triggers.len() && j != i implies #[trigger] self@.trigger[j]
                    == views[j] by {
                    assert(self.trigger@[j] == triggers[j]);
                }
                assert(views[i as int] == before.trigger[i as int]);
                assert(self@.trigger[i as int] == (TriggerView {
                    id: (offset + i) as u32,
                    ..views[i as int]
                }));
            }
            i += 1;
        }
        assert(self@.trigger =~= numbered(before).trigger);
    }
}

} // verus!
