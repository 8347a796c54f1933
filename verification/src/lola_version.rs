//! Finds the least expressive version of the language that a specification
//! fits: first for each stream and trigger by itself, then for all of them
//! together.

use crate::ast::{
    expression_views, numbered, Expression, ExpressionKind, ExpressionKindView, ExpressionView,
    Input, InputView, LanguageSpec, LolaSpec, LolaSpecView, NodeId, Offset, OffsetView, Output,
    OutputView, Span, Trigger, TriggerView,
};
use crate::reporting::Handler;
use std::collections::HashMap;
use vstd::pervasive::unreached;
use vstd::prelude::*;
use vstd::std_specs::hash::*;
use vstd::string::*;

verus! {

/// Why a version of the language is ruled out: the place that rules it out,
/// and a sentence that says how.
pub type WhyNot = (Span, String);

pub type Reason = (Span, Seq<char>);

pub open spec fn reason_view(reason: Option<WhyNot>) -> Option<Reason> {
    match reason {
        Some(why) => Some((why.0, why.1@)),
        None => None,
    }
}

/// `second` where there is one, `first` where there is none.
pub open spec fn later(first: Option<Span>, second: Option<Span>) -> Option<Span> {
    if second is Some {
        second
    } else {
        first
    }
}

/// Whether a lookup with a real-time offset occurs in `expression`, at any
/// depth.
pub open spec fn contains_real_time(expression: ExpressionView) -> bool
    decreases expression,
{
    match expression.kind {
        ExpressionKindView::Lit(_) => false,
        ExpressionKindView::Ident(_) => false,
        ExpressionKindView::Default(target, fallback) => contains_real_time(*target)
            || contains_real_time(*fallback),
        ExpressionKindView::Lookup(instance, offset, _) => match offset {
            OffsetView::DiscreteOffset(steps) => any_contains_real_time(instance.arguments)
                || contains_real_time(*steps),
            OffsetView::RealTimeOffset(_, _) => true,
        },
        ExpressionKindView::Binary(_, left, right) => contains_real_time(*left)
            || contains_real_time(*right),
        ExpressionKindView::Unary(_, operand) => contains_real_time(*operand),
        ExpressionKindView::Ite(condition, consequence, alternative) => contains_real_time(
            *condition,
        ) || contains_real_time(*consequence) || contains_real_time(*alternative),
        ExpressionKindView::ParenthesizedExpression(_, inner, _) => contains_real_time(*inner),
        ExpressionKindView::MissingExpression => false,
        ExpressionKindView::Tuple(elements) => any_contains_real_time(elements),
        ExpressionKindView::Function(_, arguments) => any_contains_real_time(arguments),
        ExpressionKindView::Field(target, _) => contains_real_time(*target),
        ExpressionKindView::Method(target, _, _, arguments) => contains_real_time(*target)
            || any_contains_real_time(arguments),
    }
}

/// Whether a lookup with a real-time offset occurs in one of `expressions`.
pub open spec fn any_contains_real_time(expressions: Seq<ExpressionView>) -> bool
    decreases expressions,
{
    exists|i: int|
        #![trigger expressions[i]]
        0 <= i < expressions.len() && contains_real_time(expressions[i])
}

/// The span of the lookup with a real-time offset that a walk through
/// `expression` meets last. The walk goes from left to right and visits an
/// expression after the expressions inside it.
pub open spec fn last_real_time(expression: ExpressionView) -> Option<Span>
    decreases expression, 0nat,
{
    match expression.kind {
        ExpressionKindView::Lit(_) => None,
        ExpressionKindView::Ident(_) => None,
        ExpressionKindView::Default(target, fallback) => later(
            last_real_time(*target),
            last_real_time(*fallback),
        ),
        ExpressionKindView::Lookup(instance, offset, _) => match offset {
            OffsetView::DiscreteOffset(steps) => later(
                last_real_time_in(instance.arguments, instance.arguments.len() as int),
                last_real_time(*steps),
            ),
            OffsetView::RealTimeOffset(_, _) => Some(expression.span),
        },
        ExpressionKindView::Binary(_, left, right) => later(
            last_real_time(*left),
            last_real_time(*right),
        ),
        ExpressionKindView::Unary(_, operand) => last_real_time(*operand),
        ExpressionKindView::Ite(condition, consequence, alternative) => later(
            later(last_real_time(*condition), last_real_time(*consequence)),
            last_real_time(*alternative),
        ),
        ExpressionKindView::ParenthesizedExpression(_, inner, _) => last_real_time(*inner),
        ExpressionKindView::MissingExpression => None,
        ExpressionKindView::Tuple(elements) => last_real_time_in(elements, elements.len() as int),
        ExpressionKindView::Function(_, arguments) => last_real_time_in(
            arguments,
            arguments.len() as int,
        ),
        ExpressionKindView::Field(target, _) => last_real_time(*target),
        ExpressionKindView::Method(target, _, _, arguments) => later(
            last_real_time(*target),
            last_real_time_in(arguments, arguments.len() as int),
        ),
    }
}

/// The same for a walk through the first `count` of `expressions`.
pub open spec fn last_real_time_in(expressions: Seq<ExpressionView>, count: int) -> Option<Span>
    decreases expressions, count,
{
    if 0 < count <= expressions.len() {
        later(last_real_time_in(expressions, count - 1), last_real_time(expressions[count - 1]))
    } else {
        None
    }
}

/// A walk meets a lookup with a real-time offset where one occurs, and only
/// there.
pub proof fn lemma_last_real_time(expression: ExpressionView)
    ensures
        last_real_time(expression) is Some <==> contains_real_time(expression),
    decreases expression, 0nat,
{
    match expression.kind {
        ExpressionKindView::Lit(_) => {},
        ExpressionKindView::Ident(_) => {},
        ExpressionKindView::Default(target, fallback) => {
            lemma_last_real_time(*target);
            lemma_last_real_time(*fallback);
        },
        ExpressionKindView::Lookup(instance, offset, _) => match offset {
            OffsetView::DiscreteOffset(steps) => {
                lemma_last_real_time_in(instance.arguments, instance.arguments.len() as int);
                lemma_last_real_time(*steps);
            },
            OffsetView::RealTimeOffset(_, _) => {},
        },
        ExpressionKindView::Binary(_, left, right) => {
            lemma_last_real_time(*left);
            lemma_last_real_time(*right);
        },
        ExpressionKindView::Unary(_, operand) => {
            lemma_last_real_time(*operand);
        },
        ExpressionKindView::Ite(condition, consequence, alternative) => {
            lemma_last_real_time(*condition);
            lemma_last_real_time(*consequence);
            lemma_last_real_time(*alternative);
        },
        ExpressionKindView::ParenthesizedExpression(_, inner, _) => {
            lemma_last_real_time(*inner);
        },
        ExpressionKindView::MissingExpression => {},
        ExpressionKindView::Tuple(elements) => {
            lemma_last_real_time_in(elements, elements.len() as int);
        },
        ExpressionKindView::Function(_, arguments) => {
            lemma_last_real_time_in(arguments, arguments.len() as int);
        },
        ExpressionKindView::Field(target, _) => {
            lemma_last_real_time(*target);
        },
        ExpressionKindView::Method(target, _, _, arguments) => {
            lemma_last_real_time(*target);
            lemma_last_real_time_in(arguments, arguments.len() as int);
        },
    }
}

pub proof fn lemma_last_real_time_in(expressions: Seq<ExpressionView>, count: int)
    requires
        0 <= count <= expressions.len(),
    ensures
        last_real_time_in(expressions, count) is Some <==> exists|i: int|
            #![trigger expressions[i]]
            0 <= i < count && contains_real_time(expressions[i]),
        count == expressions.len() ==> (last_real_time_in(expressions, count) is Some
            <==> any_contains_real_time(expressions)),
    decreases expressions, count,
{
    if count > 0 {
        lemma_last_real_time_in(expressions, count - 1);
        lemma_last_real_time(expressions[count - 1]);
        if last_real_time_in(expressions, count) is Some {
            if last_real_time(expressions[count - 1]) is Some {
                assert(contains_real_time(expressions[count - 1]));
            } else {
                let i = choose|i: int|
                    #![trigger expressions[i]]
                    0 <= i < count - 1 && contains_real_time(expressions[i]);
                assert(0 <= i < count && contains_real_time(expressions[i]));
            }
        }
    }
}


/// What rules a version out for a stream, if anything does; the later
/// finding replaces the earlier.
pub open spec fn recorded(before: Option<Reason>, found: Option<Span>, text: Seq<char>) -> Option<
    Reason,
> {
    match found {
        Some(span) => Some((span, text)),
        None => before,
    }
}

/// Keeps, for one stream or trigger, what rules out each of the two lesser
/// versions of the language.
pub struct VersionTracker {
    pub cannot_be_classic: Option<WhyNot>,
    pub cannot_be_lola2: Option<WhyNot>,
}

impl VersionTracker {
    pub fn new() -> (tracker: VersionTracker)
        ensures
            tracker.cannot_be_classic is None,
            tracker.cannot_be_lola2 is None,
    {
        VersionTracker { cannot_be_classic: None, cannot_be_lola2: None }
    }

    pub fn from_stream(is_not_parameterized: Option<WhyNot>) -> (tracker: VersionTracker)
        ensures
            tracker.cannot_be_classic == is_not_parameterized,
            tracker.cannot_be_lola2 is None,
    {
        VersionTracker { cannot_be_classic: is_not_parameterized, cannot_be_lola2: None }
    }
}

/// Walks through `expr` and records every lookup with a real-time offset: it
/// rules out both lesser versions.
pub fn analyse_expression(version_tracker: &mut VersionTracker, expr: &Expression)
    ensures
        reason_view(final(version_tracker).cannot_be_lola2) == recorded(
            reason_view(old(version_tracker).cannot_be_lola2),
            last_real_time(expr@),
            "Real time offset – no Lola2"@,
        ),
        reason_view(final(version_tracker).cannot_be_classic) == recorded(
            reason_view(old(version_tracker).cannot_be_classic),
            last_real_time(expr@),
            "Real time offset – no ClassicLola"@,
        ),
    decreases expr, 0nat,
{
    match &expr.kind {
        ExpressionKind::Lit(_) => {},
        ExpressionKind::Ident(_) => {},
        ExpressionKind::Default(target, default) => {
            analyse_expression(version_tracker, target);
            analyse_expression(version_tracker, default);
        },
        ExpressionKind::Lookup(instance, offset, _) => match offset {
            Offset::DiscreteOffset(steps) => {
                analyse_expressions(version_tracker, &instance.arguments);
                analyse_expression(version_tracker, steps);
            },
            Offset::RealTimeOffset(duration, _) => {
                analyse_expressions(version_tracker, &instance.arguments);
                analyse_expression(version_tracker, duration);
                version_tracker.cannot_be_lola2 = Some(
                    (expr.span, String::from_str("Real time offset – no Lola2")),
                );
                version_tracker.cannot_be_classic = Some(
                    (expr.span, String::from_str("Real time offset – no ClassicLola")),
                );
            },
        },
        ExpressionKind::Binary(_, left, right) => {
            analyse_expression(version_tracker, left);
            analyse_expression(version_tracker, right);
        },
        ExpressionKind::Unary(_, nested) => {
            analyse_expression(version_tracker, nested);
        },
        ExpressionKind::Ite(condition, if_case, else_case) => {
            analyse_expression(version_tracker, condition);
            analyse_expression(version_tracker, if_case);
            analyse_expression(version_tracker, else_case);
        },
        ExpressionKind::ParenthesizedExpression(_, nested, _) => {
            analyse_expression(version_tracker, nested);
        },
        ExpressionKind::MissingExpression => {},
        ExpressionKind::Tuple(nested_exprs) => {
            analyse_expressions(version_tracker, nested_exprs);
        },
        ExpressionKind::Function(_, arguments) => {
            analyse_expressions(version_tracker, arguments);
        },
        ExpressionKind::Field(target, _) => {
            analyse_expression(version_tracker, target);
        },
        ExpressionKind::Method(target, _, _, args) => {
            analyse_expression(version_tracker, target);
            analyse_expressions(version_tracker, args);
        },
    }
}

/// Walks through each of `exprs`, from the first to the last.
fn analyse_expressions(version_tracker: &mut VersionTracker, exprs: &Vec<Box<Expression>>)
    ensures
        reason_view(final(version_tracker).cannot_be_lola2) == recorded(
            reason_view(old(version_tracker).cannot_be_lola2),
            last_real_time_in(expression_views(exprs@), exprs@.len() as int),
            "Real time offset – no Lola2"@,
        ),
        reason_view(final(version_tracker).cannot_be_classic) == recorded(
            reason_view(old(version_tracker).cannot_be_classic),
            last_real_time_in(expression_views(exprs@), exprs@.len() as int),
            "Real time offset – no ClassicLola"@,
        ),
    decreases exprs, 0nat,
{
    let ghost views = expression_views(exprs@);
    let mut i: usize = 0;
    while i < exprs.len()
        invariant
            i <= exprs@.len(),
            views == expression_views(exprs@),
            reason_view(version_tracker.cannot_be_lola2) == recorded(
                reason_view(old(version_tracker).cannot_be_lola2),
                last_real_time_in(views, i as int),
                "Real time offset – no Lola2"@,
            ),
            reason_view(version_tracker.cannot_be_classic) == recorded(
                reason_view(old(version_tracker).cannot_be_classic),
                last_real_time_in(views, i as int),
                "Real time offset – no ClassicLola"@,
            ),
        decreases exprs@.len() - i,
    {
        assert(views[i as int] == exprs@[i as int]@);
        analyse_expression(version_tracker, &exprs[i]);
        i += 1;
    }
}


/// The version that each stream and trigger was found to need, by the
/// identifier of the stream or trigger.
pub type LolaVersionTable = HashMap<NodeId, LanguageSpec>;

/// The least version that an input fits: parameters need Lola2.
pub open spec fn input_version(input: InputView) -> LanguageSpec {
    if input.params.len() == 0 {
        LanguageSpec::Classic
    } else {
        LanguageSpec::Lola2
    }
}

/// The least version that an expression fits, in a stream that is or is not
/// parameterized: a real-time offset needs RTLola, parameters need Lola2.
pub open spec fn expression_version(parameterized: bool, expression: ExpressionView) -> LanguageSpec {
    if contains_real_time(expression) {
        LanguageSpec::RTLola
    } else if parameterized {
        LanguageSpec::Lola2
    } else {
        LanguageSpec::Classic
    }
}

/// The least version that an output fits.
pub open spec fn output_version(output: OutputView) -> LanguageSpec {
    expression_version(output.params.len() > 0, output.expression)
}

/// The least version that a trigger fits.
pub open spec fn trigger_version(trigger: TriggerView) -> LanguageSpec {
    expression_version(false, trigger.expression)
}

/// The identifiers of the streams and triggers of `lola`: of the inputs, then
/// of the outputs, then of the triggers.
pub open spec fn stream_ids(lola: LolaSpecView) -> Seq<NodeId> {
    Seq::new(lola.inputs.len(), |i: int| lola.inputs[i].id) + Seq::new(
        lola.outputs.len(),
        |i: int| lola.outputs[i].id,
    ) + Seq::new(lola.trigger.len(), |i: int| lola.trigger[i].id)
}

/// The least version of each stream and trigger of `lola`, in the order of
/// `stream_ids`.
pub open spec fn stream_versions(lola: LolaSpecView) -> Seq<LanguageSpec> {
    Seq::new(lola.inputs.len(), |i: int| input_version(lola.inputs[i])) + Seq::new(
        lola.outputs.len(),
        |i: int| output_version(lola.outputs[i]),
    ) + Seq::new(lola.trigger.len(), |i: int| trigger_version(lola.trigger[i]))
}

/// `table` with the first `count` of `versions` entered, each under the
/// identifier at its position in `ids`. A later entry replaces an earlier one
/// under the same identifier.
pub open spec fn entered(
    table: Map<NodeId, LanguageSpec>,
    ids: Seq<NodeId>,
    versions: Seq<LanguageSpec>,
    count: int,
) -> Map<NodeId, LanguageSpec>
    decreases count,
{
    if 0 < count <= ids.len() {
        entered(table, ids, versions, count - 1).insert(ids[count - 1], versions[count - 1])
    } else {
        table
    }
}

/// `table` after the first pass over `lola`: the version of every input, then
/// of every output, then of every trigger, entered under its identifier.
pub open spec fn classified(table: Map<NodeId, LanguageSpec>, lola: LolaSpecView) -> Map<
    NodeId,
    LanguageSpec,
> {
    entered(table, stream_ids(lola), stream_versions(lola), stream_ids(lola).len() as int)
}

/// Whether `table` has a version for every stream and trigger of `lola`.
pub open spec fn covers(table: Map<NodeId, LanguageSpec>, lola: LolaSpecView) -> bool {
    &&& forall|i: int| 0 <= i < lola.inputs.len() ==> table.contains_key((#[trigger] lola.inputs[i]).id)
    &&& forall|i: int| 0 <= i < lola.outputs.len() ==> table.contains_key((#[trigger] lola.outputs[i]).id)
    &&& forall|i: int| 0 <= i < lola.trigger.len() ==> table.contains_key((#[trigger] lola.trigger[i]).id)
}

/// Whether `table` has for no input of `lola` the version with real time: an
/// input has no expression that could need it.
pub open spec fn inputs_below_real_time(table: Map<NodeId, LanguageSpec>, lola: LolaSpecView) -> bool {
    forall|i: int|
        0 <= i < lola.inputs.len() ==> table[(#[trigger] lola.inputs[i]).id] != LanguageSpec::RTLola
}

/// The first of `reasons` that is one.
pub open spec fn first_reason(reasons: Seq<Option<Reason>>) -> Option<Reason>
    decreases reasons.len(),
{
    if reasons.len() == 0 {
        None
    } else if first_reason(reasons.drop_last()) is Some {
        first_reason(reasons.drop_last())
    } else {
        reasons.last()
    }
}

/// `found` where there is one already, else the first of `reasons`.
pub open spec fn first_of(found: Option<Reason>, reasons: Seq<Option<Reason>>) -> Option<Reason> {
    if found is Some {
        found
    } else {
        first_reason(reasons)
    }
}

/// What each input says against the classic version.
pub open spec fn input_reasons(table: Map<NodeId, LanguageSpec>, lola: LolaSpecView) -> Seq<
    Option<Reason>,
> {
    Seq::new(
        lola.inputs.len(),
        |i: int|
            if table[lola.inputs[i].id] == LanguageSpec::Lola2 {
                Some((lola.inputs[i].name.span, "Parameterized input stream"@))
            } else {
                None
            },
    )
}

/// The name of an output, as the specification's table has it.
pub open spec fn output_name(lola: LolaSpecView, i: int) -> Seq<char> {
    lola.symbols[lola.outputs[i].name.name.0 as int]
}

/// What each output says against the classic version.
pub open spec fn output_reasons_classic(table: Map<NodeId, LanguageSpec>, lola: LolaSpecView) -> Seq<
    Option<Reason>,
> {
    Seq::new(
        lola.outputs.len(),
        |i: int|
            match table[lola.outputs[i].id] {
                LanguageSpec::Classic => None,
                LanguageSpec::Lola2 => Some(
                    (
                        lola.outputs[i].name.span,
                        "Classic Lola is not possible due to "@ + output_name(lola, i)
                            + " being a Lola2 stream."@,
                    ),
                ),
                LanguageSpec::RTLola => Some(
                    (
                        lola.outputs[i].name.span,
                        "Classic Lola is not possible due to "@ + output_name(lola, i)
                            + " being a RTLola stream."@,
                    ),
                ),
            },
    )
}

/// What each output says against Lola2.
pub open spec fn output_reasons_lola2(table: Map<NodeId, LanguageSpec>, lola: LolaSpecView) -> Seq<
    Option<Reason>,
> {
    Seq::new(
        lola.outputs.len(),
        |i: int|
            if table[lola.outputs[i].id] == LanguageSpec::RTLola {
                Some(
                    (
                        lola.outputs[i].name.span,
                        "Lola2 is not possible due to "@ + output_name(lola, i)
                            + " being a RTLola stream."@,
                    ),
                )
            } else {
                None
            },
    )
}

/// The place that a finding about a trigger points to: its name, or all of
/// it where it has none.
pub open spec fn trigger_place(trigger: TriggerView) -> Span {
    match trigger.name {
        Some(name) => name.span,
        None => trigger.span,
    }
}

/// What each trigger says against the classic version.
pub open spec fn trigger_reasons_classic(table: Map<NodeId, LanguageSpec>, lola: LolaSpecView) -> Seq<
    Option<Reason>,
> {
    Seq::new(
        lola.trigger.len(),
        |i: int|
            match table[lola.trigger[i].id] {
                LanguageSpec::Classic => None,
                LanguageSpec::Lola2 => Some(
                    (
                        trigger_place(lola.trigger[i]),
                        "Classic Lola is not possible due to this being a Lola2 trigger."@,
                    ),
                ),
                LanguageSpec::RTLola => Some(
                    (
                        trigger_place(lola.trigger[i]),
                        "Classic Lola is not possible due to this being a RTLola trigger."@,
                    ),
                ),
            },
    )
}

/// What each trigger says against Lola2.
pub open spec fn trigger_reasons_lola2(table: Map<NodeId, LanguageSpec>, lola: LolaSpecView) -> Seq<
    Option<Reason>,
> {
    Seq::new(
        lola.trigger.len(),
        |i: int|
            if table[lola.trigger[i].id] == LanguageSpec::RTLola {
                Some(
                    (
                        trigger_place(lola.trigger[i]),
                        "Lola2 is not possible due to this being a RTLola trigger."@,
                    ),
                )
            } else {
                None
            },
    )
}

/// The first finding against the classic version: among the inputs, then the
/// outputs, then the triggers.
pub open spec fn reason_against_classic(table: Map<NodeId, LanguageSpec>, lola: LolaSpecView) -> Option<
    Reason,
> {
    first_reason(
        input_reasons(table, lola) + output_reasons_classic(table, lola) + trigger_reasons_classic(
            table,
            lola,
        ),
    )
}

/// The first finding against Lola2: among the outputs, then the triggers.
pub open spec fn reason_against_lola2(table: Map<NodeId, LanguageSpec>, lola: LolaSpecView) -> Option<
    Reason,
> {
    first_reason(output_reasons_lola2(table, lola) + trigger_reasons_lola2(table, lola))
}

/// The least version that nothing speaks against.
pub open spec fn global_version(table: Map<NodeId, LanguageSpec>, lola: LolaSpecView) -> LanguageSpec {
    if reason_against_classic(table, lola) is None {
        LanguageSpec::Classic
    } else if reason_against_lola2(table, lola) is None {
        LanguageSpec::Lola2
    } else {
        LanguageSpec::RTLola
    }
}

/// The first of a list of findings that follows another is the first of the
/// other, or else the first of the list.
pub proof fn lemma_first_reason_concat(head: Seq<Option<Reason>>, tail: Seq<Option<Reason>>)
    ensures
        first_reason(head + tail) == first_of(first_reason(head), tail),
    decreases tail.len(),
{
    if tail.len() == 0 {
        assert(head + tail =~= head);
    } else {
        lemma_first_reason_concat(head, tail.drop_last());
        assert((head + tail).drop_last() =~= head + tail.drop_last());
    }
}


/// What was entered is in the table; under identifiers that differ from one
/// another, each is found as it was entered, and the rest of the table is as
/// before.
pub proof fn lemma_entered(
    table: Map<NodeId, LanguageSpec>,
    ids: Seq<NodeId>,
    versions: Seq<LanguageSpec>,
    count: int,
)
    requires
        0 <= count <= ids.len(),
    ensures
        forall|id: NodeId|
            table.contains_key(id) ==> entered(table, ids, versions, count).contains_key(id),
        forall|k: int|
            0 <= k < count ==> entered(table, ids, versions, count).contains_key(#[trigger] ids[k]),
        ids.no_duplicates() ==> forall|k: int|
            0 <= k < count ==> entered(table, ids, versions, count)[#[trigger] ids[k]] == versions[k],
    decreases count,
{
    if count > 0 {
        lemma_entered(table, ids, versions, count - 1);
    }
}

/// The first pass enters a version for every stream and trigger.
pub proof fn lemma_classified_covers(table: Map<NodeId, LanguageSpec>, lola: LolaSpecView)
    ensures
        covers(classified(table, lola), lola),
{
    let ids = stream_ids(lola);
    let inputs = lola.inputs.len();
    let outputs = lola.outputs.len();
    lemma_entered(table, ids, stream_versions(lola), ids.len() as int);
    assert forall|i: int| 0 <= i < lola.inputs.len() implies classified(table, lola).contains_key(
        (#[trigger] lola.inputs[i]).id,
    ) by {
        assert(ids[i] == lola.inputs[i].id);
    }
    assert forall|i: int| 0 <= i < lola.outputs.len() implies classified(table, lola).contains_key(
        (#[trigger] lola.outputs[i]).id,
    ) by {
        assert(ids[inputs + i] == lola.outputs[i].id);
    }
    assert forall|i: int| 0 <= i < lola.trigger.len() implies classified(table, lola).contains_key(
        (#[trigger] lola.trigger[i]).id,
    ) by {
        assert(ids[inputs + outputs + i] == lola.trigger[i].id);
    }
}

/// There is no first finding just where there is no finding at all.
pub proof fn lemma_first_reason_is_none(reasons: Seq<Option<Reason>>)
    ensures
        first_reason(reasons) is None <==> forall|i: int|
            0 <= i < reasons.len() ==> (#[trigger] reasons[i]) is None,
    decreases reasons.len(),
{
    if reasons.len() > 0 {
        let front = reasons.drop_last();
        lemma_first_reason_is_none(front);
        if first_reason(reasons) is None {
            assert forall|i: int| 0 <= i < reasons.len() implies (#[trigger] reasons[i]) is None by {
                if i < front.len() {
                    assert(front[i] == reasons[i]);
                }
            }
        } else if first_reason(front) is Some {
            let i = choose|i: int| 0 <= i < front.len() && (#[trigger] front[i]) is Some;
            assert(reasons[i] == front[i]);
        }
    }
}

/// Whether every stream and trigger of `lola` has in `table` a version that
/// is `bound` or less expressive.
pub open spec fn at_most(table: Map<NodeId, LanguageSpec>, lola: LolaSpecView, bound: LanguageSpec) -> bool {
    &&& forall|i: int|
        0 <= i < lola.inputs.len() ==> table[(#[trigger] lola.inputs[i]).id].rank() <= bound.rank()
    &&& forall|i: int|
        0 <= i < lola.outputs.len() ==> table[(#[trigger] lola.outputs[i]).id].rank() <= bound.rank()
    &&& forall|i: int|
        0 <= i < lola.trigger.len() ==> table[(#[trigger] lola.trigger[i]).id].rank() <= bound.rank()
}

/// Something speaks against a lesser version just where a stream or trigger
/// has a greater one in the table.
pub proof fn lemma_reasons(table: Map<NodeId, LanguageSpec>, lola: LolaSpecView)
    requires
        inputs_below_real_time(table, lola),
    ensures
        reason_against_classic(table, lola) is None <==> at_most(table, lola, LanguageSpec::Classic),
        reason_against_lola2(table, lola) is None <==> at_most(table, lola, LanguageSpec::Lola2),
{
    let inputs = lola.inputs.len() as int;
    let outputs = lola.outputs.len() as int;
    let classic = input_reasons(table, lola) + output_reasons_classic(table, lola)
        + trigger_reasons_classic(table, lola);
    let lola2 = output_reasons_lola2(table, lola) + trigger_reasons_lola2(table, lola);
    lemma_first_reason_is_none(classic);
    lemma_first_reason_is_none(lola2);
    if reason_against_classic(table, lola) is None {
        assert forall|i: int| 0 <= i < lola.inputs.len() implies table[(#[trigger] lola.inputs[i]).id].rank()
            <= 0 by {
            assert(classic[i] == input_reasons(table, lola)[i]);
        }
        assert forall|i: int| 0 <= i < lola.outputs.len() implies table[(
        #[trigger] lola.outputs[i]).id].rank() <= 0 by {
            assert(classic[inputs + i] == output_reasons_classic(table, lola)[i]);
        }
        assert forall|i: int| 0 <= i < lola.trigger.len() implies table[(
        #[trigger] lola.trigger[i]).id].rank() <= 0 by {
            assert(classic[inputs + outputs + i] == trigger_reasons_classic(table, lola)[i]);
        }
    }
    if at_most(table, lola, LanguageSpec::Classic) {
        assert forall|k: int| 0 <= k < classic.len() implies (#[trigger] classic[k]) is None by {
            if k < inputs {
                assert(classic[k] == input_reasons(table, lola)[k]);
                assert(table[lola.inputs[k].id].rank() <= 0);
            } else if k < inputs + outputs {
                assert(classic[k] == output_reasons_classic(table, lola)[k - inputs]);
                assert(table[lola.outputs[k - inputs].id].rank() <= 0);
            } else {
                assert(classic[k] == trigger_reasons_classic(table, lola)[k - inputs - outputs]);
                assert(table[lola.trigger[k - inputs - outputs].id].rank() <= 0);
            }
        }
    }
    if reason_against_lola2(table, lola) is None {
        assert forall|i: int| 0 <= i < lola.outputs.len() implies table[(
        #[trigger] lola.outputs[i]).id].rank() <= 1 by {
            assert(lola2[i] == output_reasons_lola2(table, lola)[i]);
        }
        assert forall|i: int| 0 <= i < lola.trigger.len() implies table[(
        #[trigger] lola.trigger[i]).id].rank() <= 1 by {
            assert(lola2[outputs + i] == trigger_reasons_lola2(table, lola)[i]);
        }
    }
    if at_most(table, lola, LanguageSpec::Lola2) {
        assert forall|k: int| 0 <= k < lola2.len() implies (#[trigger] lola2[k]) is None by {
            if k < outputs {
                assert(lola2[k] == output_reasons_lola2(table, lola)[k]);
                assert(table[lola.outputs[k].id].rank() <= 1);
            } else {
                assert(lola2[k] == trigger_reasons_lola2(table, lola)[k - outputs]);
                assert(table[lola.trigger[k - outputs].id].rank() <= 1);
            }
        }
    }
}

/// The version of a specification is the least upper bound of the versions
/// that the table has for its streams and triggers: none of them is more
/// expressive, and every version of which that holds is as expressive or
/// more.
pub proof fn lemma_global_version_is_least_upper_bound(
    table: Map<NodeId, LanguageSpec>,
    lola: LolaSpecView,
)
    requires
        inputs_below_real_time(table, lola),
    ensures
        at_most(table, lola, global_version(table, lola)),
        forall|bound: LanguageSpec| #[trigger]
            at_most(table, lola, bound) ==> global_version(table, lola).rank() <= bound.rank(),
{
    lemma_reasons(table, lola);
    assert forall|bound: LanguageSpec| #[trigger] at_most(table, lola, bound) implies global_version(
        table,
        lola,
    ).rank() <= bound.rank() by {
        if bound == LanguageSpec::Classic {
        } else if bound == LanguageSpec::Lola2 {
        } else {
        }
    }
}

/// Under identifiers that differ from one another, the first pass leaves for
/// every stream and trigger its own least version in the table; so no input
/// has the version with real time there.
pub proof fn lemma_classified_versions(table: Map<NodeId, LanguageSpec>, lola: LolaSpecView)
    requires
        stream_ids(lola).no_duplicates(),
    ensures
        forall|i: int|
            0 <= i < lola.inputs.len() ==> classified(table, lola)[(#[trigger] lola.inputs[i]).id]
                == input_version(lola.inputs[i]),
        forall|i: int|
            0 <= i < lola.outputs.len() ==> classified(table, lola)[(#[trigger] lola.outputs[i]).id]
                == output_version(lola.outputs[i]),
        forall|i: int|
            0 <= i < lola.trigger.len() ==> classified(table, lola)[(#[trigger] lola.trigger[i]).id]
                == trigger_version(lola.trigger[i]),
        inputs_below_real_time(classified(table, lola), lola),
{
    let ids = stream_ids(lola);
    let versions = stream_versions(lola);
    let inputs = lola.inputs.len() as int;
    let outputs = lola.outputs.len() as int;
    lemma_entered(table, ids, versions, ids.len() as int);
    assert forall|i: int| 0 <= i < lola.inputs.len() implies classified(table, lola)[(
    #[trigger] lola.inputs[i]).id] == input_version(lola.inputs[i]) by {
        assert(ids[i] == lola.inputs[i].id && versions[i] == input_version(lola.inputs[i]));
    }
    assert forall|i: int| 0 <= i < lola.outputs.len() implies classified(table, lola)[(
    #[trigger] lola.outputs[i]).id] == output_version(lola.outputs[i]) by {
        assert(ids[inputs + i] == lola.outputs[i].id);
        assert(versions[inputs + i] == output_version(lola.outputs[i]));
    }
    assert forall|i: int| 0 <= i < lola.trigger.len() implies classified(table, lola)[(
    #[trigger] lola.trigger[i]).id] == trigger_version(lola.trigger[i]) by {
        assert(ids[inputs + outputs + i] == lola.trigger[i].id);
        assert(versions[inputs + outputs + i] == trigger_version(lola.trigger[i]));
    }
}

/// A stream with a parameter is never found to fit the classic version: not
/// by itself, and, under identifiers that differ from one another, not in the
/// table after the first pass.
pub proof fn lemma_parameters_rule_out_classic(table: Map<NodeId, LanguageSpec>, lola: LolaSpecView)
    ensures
        forall|input: InputView| input.params.len() >= 1 ==> #[trigger] input_version(input)
            != LanguageSpec::Classic,
        forall|output: OutputView| output.params.len() >= 1 ==> #[trigger] output_version(output)
            != LanguageSpec::Classic,
        stream_ids(lola).no_duplicates() ==> {
            &&& forall|i: int|
                0 <= i < lola.inputs.len() && (#[trigger] lola.inputs[i]).params.len() >= 1
                    ==> classified(table, lola)[lola.inputs[i].id] != LanguageSpec::Classic
            &&& forall|i: int|
                0 <= i < lola.outputs.len() && (#[trigger] lola.outputs[i]).params.len() >= 1
                    ==> classified(table, lola)[lola.outputs[i].id] != LanguageSpec::Classic
        },
{
    if stream_ids(lola).no_duplicates() {
        lemma_classified_versions(table, lola);
    }
}

/// A lookup with a real-time offset, at any depth of the expression of an
/// output or a trigger, makes RTLola the version of that output or trigger,
/// and, under identifiers that differ from one another, the version of the
/// whole specification, whatever its other streams and triggers are.
pub proof fn lemma_real_time_needs_rtlola(table: Map<NodeId, LanguageSpec>, lola: LolaSpecView)
    ensures
        forall|output: OutputView| contains_real_time(output.expression) ==> #[trigger] output_version(
            output,
        ) == LanguageSpec::RTLola,
        forall|trigger: TriggerView| contains_real_time(trigger.expression)
            ==> #[trigger] trigger_version(trigger) == LanguageSpec::RTLola,
        stream_ids(lola).no_duplicates() ==> {
            &&& forall|i: int|
                0 <= i < lola.outputs.len() && contains_real_time((#[trigger] lola.outputs[i]).expression)
                    ==> classified(table, lola)[lola.outputs[i].id] == LanguageSpec::RTLola
                    && global_version(classified(table, lola), lola) == LanguageSpec::RTLola
            &&& forall|i: int|
                0 <= i < lola.trigger.len() && contains_real_time((#[trigger] lola.trigger[i]).expression)
                    ==> classified(table, lola)[lola.trigger[i].id] == LanguageSpec::RTLola
                    && global_version(classified(table, lola), lola) == LanguageSpec::RTLola
        },
{
    if stream_ids(lola).no_duplicates() {
        let found = classified(table, lola);
        lemma_classified_versions(table, lola);
        lemma_global_version_is_least_upper_bound(found, lola);
        assert(at_most(found, lola, global_version(found, lola)));
    }
}

/// A specification whose streams and triggers were numbered can be analysed:
/// their identifiers differ from one another, so no input is found to need
/// real time, and the outputs keep their names.
pub proof fn lemma_numbered_can_be_analysed(table: Map<NodeId, LanguageSpec>, lola: LolaSpecView)
    requires
        lola.inputs.len() + lola.outputs.len() + lola.trigger.len() <= u32::MAX,
    ensures
        stream_ids(numbered(lola)).no_duplicates(),
        inputs_below_real_time(classified(table, numbered(lola)), numbered(lola)),
        lola.outputs_named() ==> numbered(lola).outputs_named(),
{
    let after = numbered(lola);
    let ids = stream_ids(after);
    assert forall|i: int| 0 <= i < ids.len() implies #[trigger] ids[i] == i by {
        if i < lola.inputs.len() {
            assert(ids[i] == after.inputs[i].id);
        } else if i < lola.inputs.len() + lola.outputs.len() {
            assert(ids[i] == after.outputs[i - lola.inputs.len()].id);
        } else {
            assert(ids[i] == after.trigger[i - lola.inputs.len() - lola.outputs.len()].id);
        }
    }
    lemma_classified_versions(table, after);
    if lola.outputs_named() {
        assert forall|i: int| 0 <= i < after.outputs.len() implies (#[trigger] after.outputs[i]).name.name.0
            < after.symbols.len() by {
            assert(after.outputs[i].name == lola.outputs[i].name);
        }
    }
}

/// The analysis of the version of the language that a specification needs.
pub struct LolaVersionAnalysis<'a> {
    pub result: LolaVersionTable,
    pub handler: &'a Handler,
}

/// The version under `id` in `table`.
fn version_of(table: &LolaVersionTable, id: NodeId) -> (version: LanguageSpec)
    requires
        table@.contains_key(id),
    ensures
        version == table@[id],
{
    broadcast use group_hash_axioms;

    match table.get(&id) {
        Some(version) => *version,
        None => unreached(),
    }
}

impl<'a> LolaVersionAnalysis<'a> {
    pub fn new(handler: &'a Handler) -> (analysis: Self)
        ensures
            analysis.result@ == Map::<NodeId, LanguageSpec>::empty(),
            analysis.handler == handler,
    {
        LolaVersionAnalysis { result: HashMap::new(), handler }
    }

    /// Enters the least version that `input` fits.
    pub fn analyse_input(&mut self, input: &Input)
        ensures
            final(self).result@ == old(self).result@.insert(input.id, input_version(input@)),
            final(self).handler == old(self).handler,
    {
        broadcast use group_hash_axioms;

        if input.params.len() == 0 {
            self.result.insert(input.id, LanguageSpec::Classic);
        } else {
            self.result.insert(input.id, LanguageSpec::Lola2);
        }
    }

    /// Enters the least version that `output` fits.
    pub fn analyse_output(&mut self, output: &Output)
        ensures
            final(self).result@ == old(self).result@.insert(output.id, output_version(output@)),
            final(self).handler == old(self).handler,
    {
        broadcast use group_hash_axioms;

        let is_not_parameterized = if output.params.len() == 0 {
            None
        } else {
            Some((output.name.span, String::from_str("Parameterized stream")))
        };
        let mut version_tracker = VersionTracker::from_stream(is_not_parameterized);
        analyse_expression(&mut version_tracker, &output.expression);
        proof {
            lemma_last_real_time(output@.expression);
        }
        if version_tracker.cannot_be_classic.is_none() {
            self.result.insert(output.id, LanguageSpec::Classic);
            return ;
        }
        if version_tracker.cannot_be_lola2.is_none() {
            self.result.insert(output.id, LanguageSpec::Lola2);
            return ;
        }
        self.result.insert(output.id, LanguageSpec::RTLola);
    }

    /// Enters the least version that `trigger` fits.
    pub fn analyse_trigger(&mut self, trigger: &Trigger)
        ensures
            final(self).result@ == old(self).result@.insert(trigger.id, trigger_version(trigger@)),
            final(self).handler == old(self).handler,
    {
        broadcast use group_hash_axioms;

        let mut version_tracker = VersionTracker::new();
        analyse_expression(&mut version_tracker, &trigger.expression);
        proof {
            lemma_last_real_time(trigger@.expression);
        }
        if version_tracker.cannot_be_classic.is_none() {
            self.result.insert(trigger.id, LanguageSpec::Classic);
            return ;
        }
        if version_tracker.cannot_be_lola2.is_none() {
            self.result.insert(trigger.id, LanguageSpec::Lola2);
            return ;
        }
        self.result.insert(trigger.id, LanguageSpec::RTLola);
    }

    /// The first pass: finds the least version of every input, output and
    /// trigger by itself, and enters it in the table under the identifier of
    /// the stream or trigger.
    pub fn analyse_streams(&mut self, lola: &LolaSpec)
        ensures
            final(self).result@ == classified(old(self).result@, lola@),
            final(self).handler == old(self).handler,
    {
        let ghost start = self.result@;
        let ghost ids = stream_ids(lola@);
        let ghost versions = stream_versions(lola@);
        let ghost inputs = lola@.inputs.len() as int;
        let ghost outputs = lola@.outputs.len() as int;
        let mut i: usize = 0;
        while i < lola.inputs.len()
            invariant
                i <= lola.inputs@.len(),
                self.handler == old(self).handler,
                ids == stream_ids(lola@),
                versions == stream_versions(lola@),
                self.result@ == entered(start, ids, versions, i as int),
            decreases lola.inputs@.len() - i,
        {
            proof {
                assert(lola@.inputs[i as int] == lola.inputs@[i as int]@);
                assert(ids[i as int] == lola@.inputs[i as int].id);
                assert(versions[i as int] == input_version(lola@.inputs[i as int]));
            }
            self.analyse_input(&lola.inputs[i]);
            i += 1;
        }
        let mut i: usize = 0;
        while i < lola.outputs.len()
            invariant
                i <= lola.outputs@.len(),
                self.handler == old(self).handler,
                ids == stream_ids(lola@),
                versions == stream_versions(lola@),
                inputs == lola@.inputs.len(),
                self.result@ == entered(start, ids, versions, inputs + i),
            decreases lola.outputs@.len() - i,
        {
            proof {
                assert(lola@.outputs[i as int] == lola.outputs@[i as int]@);
                assert(ids[inputs + i] == lola@.outputs[i as int].id);
                assert(versions[inputs + i] == output_version(lola@.outputs[i as int]));
            }
            self.analyse_output(&lola.outputs[i]);
            i += 1;
        }
        let mut i: usize = 0;
        while i < lola.trigger.len()
            invariant
                i <= lola.trigger@.len(),
                self.handler == old(self).handler,
                ids == stream_ids(lola@),
                versions == stream_versions(lola@),
                inputs == lola@.inputs.len(),
                outputs == lola@.outputs.len(),
                self.result@ == entered(start, ids, versions, inputs + outputs + i),
            decreases lola.trigger@.len() - i,
        {
            proof {
                assert(lola@.trigger[i as int] == lola.trigger@[i as int]@);
                assert(ids[inputs + outputs + i] == lola@.trigger[i as int].id);
                assert(versions[inputs + outputs + i] == trigger_version(lola@.trigger[i as int]));
            }
            self.analyse_trigger(&lola.trigger[i]);
            i += 1;
        }
    }

    /// Looks for the first input that speaks against the classic version,
    /// unless something does already.
    fn rule_out_versions_based_on_inputs(
        &self,
        lola: &LolaSpec,
        reason_against_classic_lola: &mut Option<WhyNot>,
    )
        requires
            covers(self.result@, lola@),
            inputs_below_real_time(self.result@, lola@),
        ensures
            reason_view(*final(reason_against_classic_lola)) == first_of(
                reason_view(*old(reason_against_classic_lola)),
                input_reasons(self.result@, lola@),
            ),
    {
        let ghost before = reason_view(*reason_against_classic_lola);
        let ghost reasons = input_reasons(self.result@, lola@);
        let mut i: usize = 0;
        while i < lola.inputs.len()
            invariant
                i <= lola.inputs@.len(),
                covers(self.result@, lola@),
                inputs_below_real_time(self.result@, lola@),
                reasons == input_reasons(self.result@, lola@),
                reason_view(*reason_against_classic_lola) == first_of(before, reasons.take(i as int)),
            decreases lola.inputs@.len() - i,
        {
            let input = &lola.inputs[i];
            proof {
                assert(lola@.inputs[i as int] == input@);
                assert(reasons.take(i + 1).drop_last() =~= reasons.take(i as int));
            }
            match version_of(&self.result, input.id) {
                LanguageSpec::Classic => {},
                LanguageSpec::Lola2 => {
                    if reason_against_classic_lola.is_none() {
                        *reason_against_classic_lola = Some(
                            (input.name.span, String::from_str("Parameterized input stream")),
                        );
                    }
                },
                _ => unreached(),
            }
            i += 1;
        }
        assert(reasons.take(i as int) =~= reasons);
    }

    /// Looks for the first output that speaks against each of the two lesser
    /// versions, unless something does already.
    fn rule_out_versions_based_on_outputs(
        &self,
        lola: &LolaSpec,
        reason_against_classic_lola: &mut Option<WhyNot>,
        reason_against_lola2: &mut Option<WhyNot>,
    )
        requires
            covers(self.result@, lola@),
            lola@.outputs_named(),
        ensures
            reason_view(*final(reason_against_classic_lola)) == first_of(
                reason_view(*old(reason_against_classic_lola)),
                output_reasons_classic(self.result@, lola@),
            ),
            reason_view(*final(reason_against_lola2)) == first_of(
                reason_view(*old(reason_against_lola2)),
                output_reasons_lola2(self.result@, lola@),
            ),
    {
        let ghost before_classic = reason_view(*reason_against_classic_lola);
        let ghost before_lola2 = reason_view(*reason_against_lola2);
        let ghost classic = output_reasons_classic(self.result@, lola@);
        let ghost lola2 = output_reasons_lola2(self.result@, lola@);
        let mut i: usize = 0;
        while i < lola.outputs.len()
            invariant
                i <= lola.outputs@.len(),
                covers(self.result@, lola@),
                lola@.outputs_named(),
                classic == output_reasons_classic(self.result@, lola@),
                lola2 == output_reasons_lola2(self.result@, lola@),
                reason_view(*reason_against_classic_lola) == first_of(
                    before_classic,
                    classic.take(i as int),
                ),
                reason_view(*reason_against_lola2) == first_of(before_lola2, lola2.take(i as int)),
            decreases lola.outputs@.len() - i,
        {
            let output = &lola.outputs[i];
            proof {
                assert(lola@.outputs[i as int] == output@);
                assert(classic.take(i + 1).drop_last() =~= classic.take(i as int));
                assert(lola2.take(i + 1).drop_last() =~= lola2.take(i as int));
            }
            let span = output.name.span;
            let name = lola.symbols.get_string(output.name.name);
            match version_of(&self.result, output.id) {
                LanguageSpec::Classic => {},
                LanguageSpec::Lola2 => {
                    if reason_against_classic_lola.is_none() {
                        let mut text = String::from_str("Classic Lola is not possible due to ");
                        text.append(name);
                        text.append(" being a Lola2 stream.");
                        *reason_against_classic_lola = Some((span, text));
                    }
                },
                LanguageSpec::RTLola => {
                    if reason_against_classic_lola.is_none() {
                        let mut text = String::from_str("Classic Lola is not possible due to ");
                        text.append(name);
                        text.append(" being a RTLola stream.");
                        *reason_against_classic_lola = Some((span, text));
                    }
                    if reason_against_lola2.is_none() {
                        let mut text = String::from_str("Lola2 is not possible due to ");
                        text.append(name);
                        text.append(" being a RTLola stream.");
                        *reason_against_lola2 = Some((span, text));
                    }
                },
            }
            i += 1;
        }
        assert(classic.take(i as int) =~= classic);
        assert(lola2.take(i as int) =~= lola2);
    }

    /// Looks for the first trigger that speaks against each of the two lesser
    /// versions, unless something does already.
    fn rule_out_versions_based_on_triggers(
        &self,
        lola: &LolaSpec,
        reason_against_classic_lola: &mut Option<WhyNot>,
        reason_against_lola2: &mut Option<WhyNot>,
    )
        requires
            covers(self.result@, lola@),
        ensures
            reason_view(*final(reason_against_classic_lola)) == first_of(
                reason_view(*old(reason_against_classic_lola)),
                trigger_reasons_classic(self.result@, lola@),
            ),
            reason_view(*final(reason_against_lola2)) == first_of(
                reason_view(*old(reason_against_lola2)),
                trigger_reasons_lola2(self.result@, lola@),
            ),
    {
        let ghost before_classic = reason_view(*reason_against_classic_lola);
        let ghost before_lola2 = reason_view(*reason_against_lola2);
        let ghost classic = trigger_reasons_classic(self.result@, lola@);
        let ghost lola2 = trigger_reasons_lola2(self.result@, lola@);
        let mut i: usize = 0;
        while i < lola.trigger.len()
            invariant
                i <= lola.trigger@.len(),
                covers(self.result@, lola@),
                classic == trigger_reasons_classic(self.result@, lola@),
                lola2 == trigger_reasons_lola2(self.result@, lola@),
                reason_view(*reason_against_classic_lola) == first_of(
                    before_classic,
                    classic.take(i as int),
                ),
                reason_view(*reason_against_lola2) == first_of(before_lola2, lola2.take(i as int)),
            decreases lola.trigger@.len() - i,
        {
            let trigger = &lola.trigger[i];
            proof {
                assert(lola@.trigger[i as int] == trigger@);
                assert(classic.take(i + 1).drop_last() =~= classic.take(i as int));
                assert(lola2.take(i + 1).drop_last() =~= lola2.take(i as int));
            }
            let span = match trigger.name {
                None => trigger.span,
                Some(trigger_name) => trigger_name.span,
            };
            match version_of(&self.result, trigger.id) {
                LanguageSpec::Classic => {},
                LanguageSpec::Lola2 => {
                    if reason_against_classic_lola.is_none() {
                        *reason_against_classic_lola = Some(
                            (
                                span,
                                String::from_str(
                                    "Classic Lola is not possible due to this being a Lola2 trigger.",
                                ),
                            ),
                        );
                    }
                },
                LanguageSpec::RTLola => {
                    if reason_against_classic_lola.is_none() {
                        *reason_against_classic_lola = Some(
                            (
                                span,
                                String::from_str(
                                    "Classic Lola is not possible due to this being a RTLola trigger.",
                                ),
                            ),
                        );
                    }
                    if reason_against_lola2.is_none() {
                        *reason_against_lola2 = Some(
                            (
                                span,
                                String::from_str(
                                    "Lola2 is not possible due to this being a RTLola trigger.",
                                ),
                            ),
                        );
                    }
                },
            }
            i += 1;
        }
        assert(classic.take(i as int) =~= classic);
        assert(lola2.take(i as int) =~= lola2);
    }

    /// The second pass: for each of the two lesser versions, the first stream
    /// or trigger that the table has a greater version for, and why it rules
    /// the lesser one out. Inputs come first, then outputs, then triggers.
    pub fn rule_out_versions(&self, lola: &LolaSpec) -> (reasons: VersionTracker)
        requires
            covers(self.result@, lola@),
            inputs_below_real_time(self.result@, lola@),
            lola@.outputs_named(),
        ensures
            reason_view(reasons.cannot_be_classic) == reason_against_classic(self.result@, lola@),
            reason_view(reasons.cannot_be_lola2) == reason_against_lola2(self.result@, lola@),
    {
        let mut reason_against_classic_lola: Option<WhyNot> = None;
        let mut reason_against_lola2: Option<WhyNot> = None;
        self.rule_out_versions_based_on_inputs(lola, &mut reason_against_classic_lola);
        self.rule_out_versions_based_on_outputs(
            lola,
            &mut reason_against_classic_lola,
            &mut reason_against_lola2,
        );
        self.rule_out_versions_based_on_triggers(
            lola,
            &mut reason_against_classic_lola,
            &mut reason_against_lola2,
        );
        proof {
            let table = self.result@;
            lemma_first_reason_concat(input_reasons(table, lola@), output_reasons_classic(table, lola@));
            lemma_first_reason_concat(
                input_reasons(table, lola@) + output_reasons_classic(table, lola@),
                trigger_reasons_classic(table, lola@),
            );
            lemma_first_reason_concat(
                output_reasons_lola2(table, lola@),
                trigger_reasons_lola2(table, lola@),
            );
        }
        VersionTracker {
            cannot_be_classic: reason_against_classic_lola,
            cannot_be_lola2: reason_against_lola2,
        }
    }

    /// What the analysis concludes once the first pass is done: no version
    /// where errors were reported while it ran, so that the count of errors
    /// after it differs from the count before it; else the least version
    /// that no stream or trigger rules out.
    pub fn conclude(&self, lola: &LolaSpec, errors_before: usize, errors_after: usize) -> (version:
        Option<LanguageSpec>)
        requires
            covers(self.result@, lola@),
            inputs_below_real_time(self.result@, lola@),
            lola@.outputs_named(),
        ensures
            version == if errors_before == errors_after {
                Some(global_version(self.result@, lola@))
            } else {
                None
            },
    {
        if errors_before != errors_after {
            return None;
        }
        // each stream/trigger can be attributed to some (minimal) Lola version but the different versions might be incompatible.
        // Therefore iterate again over all streams and triggers and record reasons against the various versions.
        let reasons = self.rule_out_versions(lola);
        // Try to use the minimal Lola version.
        if reasons.cannot_be_classic.is_none() {
            return Some(LanguageSpec::Classic);
        }
        if reasons.cannot_be_lola2.is_none() {
            return Some(LanguageSpec::Lola2);
        }
        Some(LanguageSpec::RTLola)
    }

    /// Analyses `lola`: enters the least version of every stream and trigger
    /// in the table, and returns the least version that fits them all.
    pub fn analyse(&mut self, lola: &LolaSpec) -> (version: Option<LanguageSpec>)
        requires
            inputs_below_real_time(classified(old(self).result@, lola@), lola@),
            lola@.outputs_named(),
        ensures
            final(self).result@ == classified(old(self).result@, lola@),
            final(self).handler == old(self).handler,
            version == Some(global_version(final(self).result@, lola@)),
    {
        let number_of_previous_errors = self.handler.emitted_errors();
        // analyse each stream/trigger to find out their minimal Lola version
        self.analyse_streams(lola);
        proof {
            lemma_classified_covers(old(self).result@, lola@);
        }
        self.conclude(lola, number_of_previous_errors, self.handler.emitted_errors())
    }
}

} // verus!
