//! Literal-variation call scaffolding: members that call one helper with
//! different string data are test scaffolding, not duplicated logic.

use vstd::prelude::*;

use super::kinds_view;
use super::node_search::{enclosing_kind, nodes_view, spec_enclosing_in, spec_search_hits, Bound, KindSearch, Nested};
use super::override_marker::first_field_child;
use super::snippets::{parse_snippet, spec_plugin_parse, Snippet, SnippetView};
use super::SyntaxNode;
use crate::ast::ByteRange;
use args::argument_list;
use callee::{call_shape_from_node, optional_call_view, spec_call_shape_from_node};
use sequence::CallSequence;
use statements::{covered_statements, covered_statements_admissible, spec_covered_statements_admissible, spec_statements_in};
use crate::text::{byte_strings_view, same_bytes, same_text};

pub mod sequence;
pub mod args;
pub mod asserts;
pub mod statements;
pub mod callee;
pub mod dataflow;

verus! {

/// One unambiguous part of a callee's syntax and retained names.
#[derive(Debug, PartialEq, Eq)]
pub enum CalleePart {
    /// Syntax kind; receiver identifier spelling is deliberately absent.
    Node(String),
    /// Called names, member selectors and non-payload terminal text.
    Text(Vec<u8>),
    /// A classified string payload, compared through argument positions.
    Payload,
    /// A statement-bearing argument, guarded by the body's own evidence.
    Body,
    /// End of one syntax node, preserving nesting and argument arity.
    End,
}

/// The model of a [`CalleePart`].
pub enum CalleePartView {
    /// Syntax kind.
    Node(Seq<char>),
    /// Retained text.
    Text(Seq<u8>),
    /// A string payload.
    Payload,
    /// A statement-bearing argument.
    Body,
    /// End of one syntax node.
    End,
}

impl View for CalleePart {
    type V = CalleePartView;

    open spec fn view(&self) -> CalleePartView {
        match self {
            CalleePart::Node(kind) => CalleePartView::Node(kind@),
            CalleePart::Text(text) => CalleePartView::Text(text@),
            CalleePart::Payload => CalleePartView::Payload,
            CalleePart::Body => CalleePartView::Body,
            CalleePart::End => CalleePartView::End,
        }
    }
}

/// The models of a callee.
pub open spec fn callee_view(parts: Seq<CalleePart>) -> Seq<CalleePartView> {
    parts.map_values(|part: CalleePart| part@)
}

/// Per-argument summary recorded for each call.
pub enum ArgShape {
    /// Raw bytes of a string-literal argument, and whether the literal
    /// embeds an interpolation.
    StringLiteral(Vec<u8>, bool),
    /// An argument carrying statements: a test body, a callback block.
    Body,
    /// A call wrapping only literal payload: its canonical callee and the
    /// literal.
    LiteralWrapper(Vec<CalleePart>, Vec<u8>),
    /// Anything else: a non-string literal, an identifier, a sub-expression.
    Other,
}

/// The model of an [`ArgShape`].
pub enum ArgShapeView {
    /// A string literal and whether it interpolates.
    StringLiteral(Seq<u8>, bool),
    /// A statement-bearing argument.
    Body,
    /// A literal wrapped in a call.
    LiteralWrapper(Seq<CalleePartView>, Seq<u8>),
    /// Anything else.
    Other,
}

impl View for ArgShape {
    type V = ArgShapeView;

    open spec fn view(&self) -> ArgShapeView {
        match self {
            ArgShape::StringLiteral(bytes, interpolated) => ArgShapeView::StringLiteral(bytes@, *interpolated),
            ArgShape::Body => ArgShapeView::Body,
            ArgShape::LiteralWrapper(callee, bytes) => ArgShapeView::LiteralWrapper(callee_view(callee@), bytes@),
            ArgShape::Other => ArgShapeView::Other,
        }
    }
}

/// Distilled view of a call expression used to compare cluster members.
pub struct CallShape {
    /// Callee shape preserving called names and member selectors, with
    /// receiver names and nested string payloads normalised.
    pub callee: Vec<CalleePart>,
    /// Number of argument slots, including nested callee invocations.
    pub arity: usize,
    /// Keyword each argument is passed under, `None` for positional ones.
    pub keywords: Vec<Option<Vec<u8>>>,
    /// Per-argument summary used for literal-variation detection.
    pub arguments: Vec<ArgShape>,
    /// Local name this call's result is assigned to, when any.
    pub result_binding: Option<Vec<u8>>,
    /// Raw identifiers this call consumes.
    pub consumed_identifiers: Vec<Vec<u8>>,
}

/// The model of a [`CallShape`].
pub struct CallShapeView {
    /// The callee's parts.
    pub callee: Seq<CalleePartView>,
    /// Number of argument slots.
    pub arity: usize,
    /// Keywords by argument.
    pub keywords: Seq<Option<Seq<u8>>>,
    /// Argument summaries.
    pub arguments: Seq<ArgShapeView>,
    /// The local the result is bound to.
    pub result_binding: Option<Seq<u8>>,
    /// Identifiers consumed.
    pub consumed_identifiers: Seq<Seq<u8>>,
}

/// The model of one keyword slot.
pub open spec fn keyword_view(keyword: Option<Vec<u8>>) -> Option<Seq<u8>> {
    match keyword {
        Some(name) => Some(name@),
        None => None,
    }
}

/// The models of a list of keyword slots.
pub open spec fn keywords_view(keywords: Seq<Option<Vec<u8>>>) -> Seq<Option<Seq<u8>>> {
    keywords.map_values(|keyword: Option<Vec<u8>>| keyword_view(keyword))
}


/// The models of a list of argument summaries.
pub open spec fn arguments_view(arguments: Seq<ArgShape>) -> Seq<ArgShapeView> {
    arguments.map_values(|argument: ArgShape| argument@)
}

impl View for CallShape {
    type V = CallShapeView;

    open spec fn view(&self) -> CallShapeView {
        CallShapeView {
            callee: callee_view(self.callee@),
            arity: self.arity,
            keywords: keywords_view(self.keywords@),
            arguments: arguments_view(self.arguments@),
            result_binding: keyword_view(self.result_binding),
            consumed_identifiers: byte_strings_view(self.consumed_identifiers@),
        }
    }
}

/// The models of a list of calls.
pub open spec fn calls_view(calls: Seq<&CallShape>) -> Seq<CallShapeView> {
    calls.map_values(|call: &CallShape| call@)
}

/// Whether two callee parts are equal.
fn same_callee_part(left: &CalleePart, right: &CalleePart) -> (same: bool)
    ensures
        same == (left@ == right@),
{
    match (left, right) {
        (CalleePart::Node(a), CalleePart::Node(b)) => same_text(a.as_str(), b.as_str()),
        (CalleePart::Text(a), CalleePart::Text(b)) => same_bytes(a.as_slice(), b.as_slice()),
        (CalleePart::Payload, CalleePart::Payload) => true,
        (CalleePart::Body, CalleePart::Body) => true,
        (CalleePart::End, CalleePart::End) => true,
        _ => false,
    }
}

/// Whether two callees are equal part for part.
pub fn same_callee(left: &[CalleePart], right: &[CalleePart]) -> (same: bool)
    ensures
        same == (callee_view(left@) == callee_view(right@)),
{
    let ghost lv = callee_view(left@);
    let ghost rv = callee_view(right@);
    if left.len() != right.len() {
        assert(lv.len() != rv.len());
        return false;
    }
    let mut index: usize = 0;
    while index < left.len()
        invariant
            index <= left@.len(),
            left@.len() == right@.len(),
            lv == callee_view(left@),
            rv == callee_view(right@),
            forall|j: int| 0 <= j < index ==> lv[j] == rv[j],
        decreases left@.len() - index,
    {
        if !same_callee_part(&left[index], &right[index]) {
            assert(lv[index as int] != rv[index as int]);
            return false;
        }
        index = index + 1;
    }
    assert(lv =~= rv);
    true
}

/// Whether two keyword slots are equal.
fn same_keyword(left: &Option<Vec<u8>>, right: &Option<Vec<u8>>) -> (same: bool)
    ensures
        same == (keyword_view(*left) == keyword_view(*right)),
{
    match (left, right) {
        (Some(a), Some(b)) => same_bytes(a.as_slice(), b.as_slice()),
        (None, None) => true,
        _ => false,
    }
}

/// Whether two keyword lists are equal slot for slot.
pub fn same_keywords(left: &[Option<Vec<u8>>], right: &[Option<Vec<u8>>]) -> (same: bool)
    ensures
        same == (keywords_view(left@) == keywords_view(right@)),
{
    let ghost lv = keywords_view(left@);
    let ghost rv = keywords_view(right@);
    if left.len() != right.len() {
        assert(lv.len() != rv.len());
        return false;
    }
    let mut index: usize = 0;
    while index < left.len()
        invariant
            index <= left@.len(),
            left@.len() == right@.len(),
            lv == keywords_view(left@),
            rv == keywords_view(right@),
            forall|j: int| 0 <= j < index ==> lv[j] == rv[j],
        decreases left@.len() - index,
    {
        if !same_keyword(&left[index], &right[index]) {
            assert(lv[index as int] != rv[index as int]);
            return false;
        }
        index = index + 1;
    }
    assert(lv =~= rv);
    true
}

/// Whether argument `k` of a call carries statements.
pub open spec fn spec_is_body(argument: ArgShapeView) -> bool {
    argument is Body
}

/// Whether an argument is authored string payload.
pub open spec fn spec_is_string_payload(argument: ArgShapeView) -> bool {
    argument is StringLiteral || argument is LiteralWrapper
}

/// Whether any argument of a call carries statements.
pub open spec fn spec_carries_body(call: CallShapeView) -> bool {
    exists|k: int| 0 <= k < call.arguments.len() && spec_is_body(#[trigger] call.arguments[k])
}

/// Whether any argument of a call is authored string payload.
pub open spec fn spec_carries_string_literal(call: CallShapeView) -> bool {
    exists|k: int| 0 <= k < call.arguments.len() && spec_is_string_payload(#[trigger] call.arguments[k])
}

impl CallShape {
    /// Whether any argument carries statements, making the call a body
    /// holder rather than a literal-varying scaffold.
    pub fn carries_body(&self) -> (carries: bool)
        ensures
            carries == spec_carries_body(self@),
    {
        let ghost args = self@.arguments;
        let mut index: usize = 0;
        while index < self.arguments.len()
            invariant
                index <= self.arguments@.len(),
                args == arguments_view(self.arguments@),
                args.len() == self.arguments@.len(),
                forall|k: int| 0 <= k < index ==> !spec_is_body(#[trigger] args[k]),
            decreases self.arguments@.len() - index,
        {
            assert(args[index as int] == self.arguments@[index as int]@);
            if let ArgShape::Body = &self.arguments[index] {
                assert(spec_is_body(args[index as int]));
                assert(0 <= index < self@.arguments.len());
                return true;
            }
            index = index + 1;
        }
        false
    }

    /// Whether any argument is authored string payload.
    pub fn carries_string_literal(&self) -> (carries: bool)
        ensures
            carries == spec_carries_string_literal(self@),
    {
        let ghost args = self@.arguments;
        let mut index: usize = 0;
        while index < self.arguments.len()
            invariant
                index <= self.arguments@.len(),
                args == arguments_view(self.arguments@),
                args.len() == self.arguments@.len(),
                forall|k: int| 0 <= k < index ==> !spec_is_string_payload(#[trigger] args[k]),
            decreases self.arguments@.len() - index,
        {
            assert(args[index as int] == self.arguments@[index as int]@);
            match &self.arguments[index] {
                ArgShape::StringLiteral(_, _) => {
                    assert(spec_is_string_payload(args[index as int]));
                    assert(0 <= index < self@.arguments.len());
                    return true;
                },
                ArgShape::LiteralWrapper(_, _) => {
                    assert(spec_is_string_payload(args[index as int]));
                    assert(0 <= index < self@.arguments.len());
                    return true;
                },
                _ => {},
            }
            index = index + 1;
        }
        false
    }
}

/// How one positional argument index reads across the cluster.
#[derive(PartialEq, Eq, Structural, Clone, Copy, Debug)]
pub enum LiteralAgreement {
    /// The first member holds no string literal at this index.
    NotAString,
    /// Every member holds the same string-literal bytes here.
    Same,
    /// Some member holds different string-literal bytes here.
    Differs,
    /// Some member holds a non-string where the first holds a string.
    Incomparable,
}

/// The bytes of argument `index` of `call` where it is a bare string literal.
pub open spec fn spec_string_at(call: CallShapeView, index: int) -> Option<Seq<u8>> {
    if 0 <= index < call.arguments.len() {
        match call.arguments[index] {
            ArgShapeView::StringLiteral(bytes, _) => Some(bytes),
            _ => None,
        }
    } else {
        None
    }
}

/// Argument `index` of `call` where it is a wrapped literal.
pub open spec fn spec_wrapper_at(call: CallShapeView, index: int) -> Option<(Seq<CalleePartView>, Seq<u8>)> {
    if 0 <= index < call.arguments.len() {
        match call.arguments[index] {
            ArgShapeView::LiteralWrapper(callee, bytes) => Some((callee, bytes)),
            _ => None,
        }
    } else {
        None
    }
}

/// Bare string payloads at `index` against the first member's `baseline`:
/// any later member without one makes the position incomparable; else any
/// other bytes make it differ.
pub open spec fn spec_string_agreement(calls: Seq<CallShapeView>, index: int, baseline: Seq<u8>) -> LiteralAgreement {
    if exists|j: int| 1 <= j < calls.len() && (#[trigger] spec_string_at(calls[j], index)) is None {
        LiteralAgreement::Incomparable
    } else if exists|j: int| 1 <= j < calls.len() && #[trigger] spec_string_at(calls[j], index) != Some(baseline) {
        LiteralAgreement::Differs
    } else {
        LiteralAgreement::Same
    }
}

/// Wrapped payloads at `index`: any later member that wraps no literal
/// there, or wraps it in another callee, makes the position incomparable;
/// else any other bytes make it differ.
pub open spec fn spec_wrapper_agreement(
    calls: Seq<CallShapeView>,
    index: int,
    callee: Seq<CalleePartView>,
    baseline: Seq<u8>,
) -> LiteralAgreement {
    if exists|j: int|
        1 <= j < calls.len() && ((#[trigger] spec_wrapper_at(calls[j], index)) is None
            || spec_wrapper_at(calls[j], index).unwrap().0 != callee) {
        LiteralAgreement::Incomparable
    } else if exists|j: int| 1 <= j < calls.len() && (#[trigger] spec_wrapper_at(calls[j], index)).unwrap().1 != baseline {
        LiteralAgreement::Differs
    } else {
        LiteralAgreement::Same
    }
}

/// Argument `index` of every member against the first member's.
pub open spec fn spec_literal_agreement(calls: Seq<CallShapeView>, index: int) -> LiteralAgreement {
    if calls.len() == 0 || !(0 <= index < calls[0].arguments.len()) {
        LiteralAgreement::NotAString
    } else {
        match calls[0].arguments[index] {
            ArgShapeView::StringLiteral(baseline, _) => spec_string_agreement(calls, index, baseline),
            ArgShapeView::LiteralWrapper(callee, baseline) => spec_wrapper_agreement(calls, index, callee, baseline),
            _ => LiteralAgreement::NotAString,
        }
    }
}

/// Bare string payloads at `index` against `baseline`.
fn string_agreement(calls: &[&CallShape], index: usize, baseline: &[u8]) -> (agreement: LiteralAgreement)
    ensures
        agreement == spec_string_agreement(calls_view(calls@), index as int, baseline@),
{
    let ghost cv = calls_view(calls@);
    let mut agreement = LiteralAgreement::Same;
    let mut j: usize = 1;
    while j < calls.len()
        invariant
            1 <= j,
            j <= calls@.len() || j == 1,
            cv == calls_view(calls@),
            cv.len() == calls@.len(),
            forall|m: int| 1 <= m < j ==> (#[trigger] spec_string_at(cv[m], index as int)) is Some,
            agreement == LiteralAgreement::Same || agreement == LiteralAgreement::Differs,
            (agreement == LiteralAgreement::Differs) == exists|m: int|
                1 <= m < j && #[trigger] spec_string_at(cv[m], index as int) != Some(baseline@),
        decreases calls@.len() - j,
    {
        let call = calls[j];
        assert(cv[j as int] == call@);
        assert(arguments_view(call.arguments@).len() == call.arguments@.len());
        if index < call.arguments.len() {
            assert(cv[j as int].arguments[index as int] == call.arguments@[index as int]@);
            match &call.arguments[index] {
                ArgShape::StringLiteral(bytes, _) => {
                    if !same_bytes(bytes.as_slice(), baseline) {
                        agreement = LiteralAgreement::Differs;
                    }
                },
                _ => {
                    assert(spec_string_at(cv[j as int], index as int) is None);
                    return LiteralAgreement::Incomparable;
                },
            }
        } else {
            assert(spec_string_at(cv[j as int], index as int) is None);
            return LiteralAgreement::Incomparable;
        }
        j = j + 1;
    }
    agreement
}

/// Wrapped payloads at `index` against `callee` and `baseline`.
fn wrapper_agreement(calls: &[&CallShape], index: usize, callee: &[CalleePart], baseline: &[u8]) -> (agreement: LiteralAgreement)
    ensures
        agreement == spec_wrapper_agreement(calls_view(calls@), index as int, callee_view(callee@), baseline@),
{
    let ghost cv = calls_view(calls@);
    let ghost cw = callee_view(callee@);
    let mut agreement = LiteralAgreement::Same;
    let mut j: usize = 1;
    while j < calls.len()
        invariant
            1 <= j,
            j <= calls@.len() || j == 1,
            cv == calls_view(calls@),
            cw == callee_view(callee@),
            cv.len() == calls@.len(),
            forall|m: int|
                1 <= m < j ==> (#[trigger] spec_wrapper_at(cv[m], index as int)) is Some
                    && spec_wrapper_at(cv[m], index as int).unwrap().0 == cw,
            agreement == LiteralAgreement::Same || agreement == LiteralAgreement::Differs,
            (agreement == LiteralAgreement::Differs) == exists|m: int|
                1 <= m < j && (#[trigger] spec_wrapper_at(cv[m], index as int)).unwrap().1 != baseline@,
        decreases calls@.len() - j,
    {
        let call = calls[j];
        assert(cv[j as int] == call@);
        assert(arguments_view(call.arguments@).len() == call.arguments@.len());
        if index < call.arguments.len() {
            assert(cv[j as int].arguments[index as int] == call.arguments@[index as int]@);
            match &call.arguments[index] {
                ArgShape::LiteralWrapper(other_callee, bytes) => {
                    if !same_callee(other_callee.as_slice(), callee) {
                        return LiteralAgreement::Incomparable;
                    }
                    if !same_bytes(bytes.as_slice(), baseline) {
                        agreement = LiteralAgreement::Differs;
                    }
                },
                _ => {
                    assert(spec_wrapper_at(cv[j as int], index as int) is None);
                    return LiteralAgreement::Incomparable;
                },
            }
        } else {
            assert(spec_wrapper_at(cv[j as int], index as int) is None);
            return LiteralAgreement::Incomparable;
        }
        j = j + 1;
    }
    agreement
}

/// Compares argument `index` of every member against the first member.
pub fn literal_agreement(calls: &[&CallShape], index: usize) -> (agreement: LiteralAgreement)
    ensures
        agreement == spec_literal_agreement(calls_view(calls@), index as int),
{
    let ghost cv = calls_view(calls@);
    if calls.len() == 0 {
        return LiteralAgreement::NotAString;
    }
    let first = calls[0];
    assert(cv[0] == first@);
    assert(arguments_view(first.arguments@).len() == first.arguments@.len());
    if index >= first.arguments.len() {
        return LiteralAgreement::NotAString;
    }
    assert(cv[0].arguments[index as int] == first.arguments@[index as int]@);
    match &first.arguments[index] {
        ArgShape::StringLiteral(baseline, _) => string_agreement(calls, index, baseline.as_slice()),
        ArgShape::LiteralWrapper(callee, baseline) => wrapper_agreement(calls, index, callee.as_slice(), baseline.as_slice()),
        _ => LiteralAgreement::NotAString,
    }
}

/// Whether the calls vary as literal-variation scaffolding: no call
/// carries a body, every literal-bearing argument position of the first
/// call differs across the cluster, and at least one does.
pub open spec fn spec_has_differing_string_literals(calls: Seq<CallShapeView>) -> bool {
    &&& !exists|j: int| 0 <= j < calls.len() && spec_carries_body(#[trigger] calls[j])
    &&& calls.len() > 0
    &&& forall|i: int| 0 <= i < calls[0].arguments.len() ==> {
        let agreement = #[trigger] spec_literal_agreement(calls, i);
        agreement != LiteralAgreement::Incomparable && agreement != LiteralAgreement::Same
    }
    &&& exists|i: int| 0 <= i < calls[0].arguments.len() && #[trigger] spec_literal_agreement(calls, i) == LiteralAgreement::Differs
}

/// Whether any of `calls` carries a body.
fn any_carries_body(calls: &[&CallShape]) -> (any: bool)
    ensures
        any == exists|j: int| 0 <= j < calls@.len() && spec_carries_body(#[trigger] calls_view(calls@)[j]),
{
    let ghost cv = calls_view(calls@);
    let mut index: usize = 0;
    while index < calls.len()
        invariant
            index <= calls@.len(),
            cv == calls_view(calls@),
            cv.len() == calls@.len(),
            forall|j: int| 0 <= j < index ==> !spec_carries_body(#[trigger] cv[j]),
        decreases calls@.len() - index,
    {
        assert(cv[index as int] == calls@[index as int]@);
        if calls[index].carries_body() {
            return true;
        }
        index = index + 1;
    }
    false
}

/// Returns true when the calls vary as literal-variation scaffolding:
/// every literal-bearing argument position differs across the cluster,
/// and at least one does. A position that carries no string literal is
/// neutral; an invariant literal-bearing position is shared authored
/// logic and blocks suppression.
pub fn has_differing_string_literals(calls: &[&CallShape]) -> (differs: bool)
    ensures
        differs == spec_has_differing_string_literals(calls_view(calls@)),
{
    let ghost cv = calls_view(calls@);
    if any_carries_body(calls) {
        return false;
    }
    if calls.len() == 0 {
        return false;
    }
    let first = calls[0];
    assert(cv[0] == first@);
    assert(arguments_view(first.arguments@).len() == first.arguments@.len());
    let count = first.arguments.len();
    let mut any_differs = false;
    let mut index: usize = 0;
    while index < count
        invariant
            index <= count,
            count == cv[0].arguments.len(),
            cv == calls_view(calls@),
            cv.len() > 0,
            forall|i: int| 0 <= i < index ==> {
                let agreement = #[trigger] spec_literal_agreement(cv, i);
                agreement != LiteralAgreement::Incomparable && agreement != LiteralAgreement::Same
            },
            any_differs == exists|i: int| 0 <= i < index && #[trigger] spec_literal_agreement(cv, i) == LiteralAgreement::Differs,
        decreases count - index,
    {
        let agreement = literal_agreement(calls, index);
        if agreement == LiteralAgreement::Incomparable || agreement == LiteralAgreement::Same {
            return false;
        }
        if agreement == LiteralAgreement::Differs {
            any_differs = true;
        }
        index = index + 1;
    }
    any_differs
}

/// Whether argument `index` of `call` is an interpolating string literal.
pub open spec fn spec_interpolated_at(call: CallShapeView, index: int) -> bool {
    0 <= index < call.arguments.len() && call.arguments[index] matches ArgShapeView::StringLiteral(_, true)
}

/// Whether a two-member literal-variation family is a copy-pasted pair:
/// some argument position differs and one member spells it as an
/// authored interpolation.
pub open spec fn spec_pair_is_copy_paste(calls: Seq<CallShapeView>) -> bool {
    calls.len() == 2 && exists|i: int|
        0 <= i < calls[0].arguments.len() && #[trigger] spec_literal_agreement(calls, i) == LiteralAgreement::Differs
            && (spec_interpolated_at(calls[0], i) || spec_interpolated_at(calls[1], i))
}

/// Whether argument `index` of `call` is an interpolating string literal.
fn interpolated_at(call: &CallShape, index: usize) -> (interpolated: bool)
    ensures
        interpolated == spec_interpolated_at(call@, index as int),
{
    assert(arguments_view(call.arguments@).len() == call.arguments@.len());
    if index < call.arguments.len() {
        assert(call@.arguments[index as int] == call.arguments@[index as int]@);
        match &call.arguments[index] {
            ArgShape::StringLiteral(_, interpolated) => *interpolated,
            _ => false,
        }
    } else {
        false
    }
}

/// Whether a two-member literal-variation family is a copy-pasted pair
/// rather than parameterisable scaffolding: a differing string argument
/// that is an authored interpolation is code choosing data, so the pair
/// publishes; plain-literal pairs stay suppressed.
pub fn pair_is_copy_paste(calls: &[&CallShape]) -> (copy_paste: bool)
    ensures
        copy_paste == spec_pair_is_copy_paste(calls_view(calls@)),
{
    let ghost cv = calls_view(calls@);
    if calls.len() != 2 {
        return false;
    }
    let first = calls[0];
    assert(cv[0] == first@);
    assert(cv[1] == calls@[1]@);
    assert(arguments_view(first.arguments@).len() == first.arguments@.len());
    let mut index: usize = 0;
    while index < first.arguments.len()
        invariant
            index <= first.arguments@.len(),
            first.arguments@.len() == cv[0].arguments.len(),
            cv == calls_view(calls@),
            cv.len() == 2,
            cv[0] == first@,
            cv[1] == calls@[1]@,
            forall|i: int| 0 <= i < index ==> !(#[trigger] spec_literal_agreement(cv, i) == LiteralAgreement::Differs
                && (spec_interpolated_at(cv[0], i) || spec_interpolated_at(cv[1], i))),
        decreases first.arguments@.len() - index,
    {
        if literal_agreement(calls, index) == LiteralAgreement::Differs
            && (interpolated_at(calls[0], index) || interpolated_at(calls[1], index)) {
            return true;
        }
        index = index + 1;
    }
    false
}

/// The one comparable call per member is literal-variation scaffolding:
/// every member's call has the first one's callee, arity and keywords,
/// none carries a body, the literals differ, and the family is not a
/// copy-pasted pair.
pub open spec fn spec_is_literal_variation_call_set(calls: Option<Seq<CallShapeView>>) -> bool {
    match calls {
        None => false,
        Some(calls) => {
            &&& calls.len() > 0
            &&& !exists|j: int| 0 <= j < calls.len() && spec_carries_body(#[trigger] calls[j])
            &&& forall|j: int| 0 <= j < calls.len() ==> (#[trigger] calls[j]).callee == calls[0].callee
                && calls[j].arity == calls[0].arity && calls[j].keywords == calls[0].keywords
            &&& spec_has_differing_string_literals(calls)
            &&& !spec_pair_is_copy_paste(calls)
        },
    }
}

/// The models of an owned list of calls.
pub open spec fn owned_calls_view(calls: Seq<CallShape>) -> Seq<CallShapeView> {
    calls.map_values(|call: CallShape| call@)
}

/// The models of an optional list of calls.
pub open spec fn optional_calls_view(calls: Option<Vec<CallShape>>) -> Option<Seq<CallShapeView>> {
    match calls {
        Some(calls) => Some(owned_calls_view(calls@)),
        None => None,
    }
}

/// References to every call of a list, in order.
fn borrow_calls(calls: &Vec<CallShape>) -> (borrowed: Vec<&CallShape>)
    ensures
        calls_view(borrowed@) == owned_calls_view(calls@),
{
    let mut borrowed: Vec<&CallShape> = Vec::new();
    let mut index: usize = 0;
    while index < calls.len()
        invariant
            index <= calls@.len(),
            borrowed@.len() == index,
            forall|j: int| 0 <= j < index ==> #[trigger] borrowed@[j]@ == calls@[j]@,
        decreases calls@.len() - index,
    {
        borrowed.push(&calls[index]);
        index = index + 1;
    }
    assert(calls_view(borrowed@) =~= owned_calls_view(calls@));
    borrowed
}

/// Applies the literal-variation rule to one comparable call per cluster
/// member; `None` where some member has no call. A call carrying a body
/// is judged by that body's own calls, so its header literal proves
/// nothing.
#[verifier::loop_isolation(false)]
pub fn is_literal_variation_call_set(calls: Option<Vec<CallShape>>) -> (scaffolding: bool)
    ensures
        scaffolding == spec_is_literal_variation_call_set(optional_calls_view(calls)),
{
    let calls = match calls {
        Some(calls) => calls,
        None => return false,
    };
    let members = borrow_calls(&calls);
    let ghost cv = calls_view(members@);
    if members.len() == 0 {
        return false;
    }
    if any_carries_body(members.as_slice()) {
        return false;
    }
    let first = members[0];
    assert(cv[0] == first@);
    let mut index: usize = 0;
    while index < members.len()
        invariant
            index <= members@.len(),
            cv == calls_view(members@),
            cv == owned_calls_view(calls@),
            cv.len() == members@.len(),
            cv[0] == first@,
            forall|j: int| 0 <= j < index ==> (#[trigger] cv[j]).callee == cv[0].callee
                && cv[j].arity == cv[0].arity && cv[j].keywords == cv[0].keywords,
        decreases members@.len() - index,
    {
        let call = members[index];
        assert(cv[index as int] == call@);
        if !same_callee(call.callee.as_slice(), first.callee.as_slice()) || call.arity != first.arity
            || !same_keywords(call.keywords.as_slice(), first.keywords.as_slice()) {
            assert(!(cv[index as int].callee == cv[0].callee && cv[index as int].arity == cv[0].arity
                && cv[index as int].keywords == cv[0].keywords));
            return false;
        }
        index = index + 1;
    }
    has_differing_string_literals(members.as_slice()) && !pair_is_copy_paste(members.as_slice())
}

/// A literal-bearing position must name one callee; a literal-free
/// position is plumbing whose callee may differ between members.
pub open spec fn spec_same_callee_where_it_matters(call: CallShapeView, base: CallShapeView) -> bool {
    call.callee == base.callee || (!spec_carries_string_literal(call) && !spec_carries_string_literal(base))
}

/// Whether `call` names `base`'s callee where the callee matters.
pub fn same_callee_where_it_matters(call: &CallShape, base: &CallShape) -> (same: bool)
    ensures
        same == spec_same_callee_where_it_matters(call@, base@),
{
    same_callee(call.callee.as_slice(), base.callee.as_slice())
        || (!call.carries_string_literal() && !base.carries_string_literal())
}

/// Two call sequences share one header, literal payloads aside: position
/// for position the callee where it matters, the arity and the keywords.
pub open spec fn spec_same_call_headers(calls: Seq<CallShapeView>, expected: Seq<CallShapeView>) -> bool {
    calls.len() == expected.len() && forall|i: int| 0 <= i < calls.len() ==>
        spec_same_callee_where_it_matters(#[trigger] calls[i], expected[i]) && calls[i].arity == expected[i].arity
            && calls[i].keywords == expected[i].keywords
}

/// Compares call sequence shape, ignoring literal payloads.
pub fn same_call_headers(calls: &[CallShape], expected: &[CallShape]) -> (same: bool)
    ensures
        same == spec_same_call_headers(owned_calls_view(calls@), owned_calls_view(expected@)),
{
    let ghost cv = owned_calls_view(calls@);
    let ghost ev = owned_calls_view(expected@);
    if calls.len() != expected.len() {
        return false;
    }
    let mut index: usize = 0;
    while index < calls.len()
        invariant
            index <= calls@.len(),
            calls@.len() == expected@.len(),
            cv == owned_calls_view(calls@),
            ev == owned_calls_view(expected@),
            forall|i: int| 0 <= i < index ==>
                spec_same_callee_where_it_matters(#[trigger] cv[i], ev[i]) && cv[i].arity == ev[i].arity
                    && cv[i].keywords == ev[i].keywords,
        decreases calls@.len() - index,
    {
        let call = &calls[index];
        let base = &expected[index];
        assert(cv[index as int] == call@);
        assert(ev[index as int] == base@);
        if !same_callee_where_it_matters(call, base) || call.arity != base.arity
            || !same_keywords(call.keywords.as_slice(), base.keywords.as_slice()) {
            return false;
        }
        index = index + 1;
    }
    true
}

/// The models of a list of call sequences.
pub open spec fn sequences_view(sequences: Seq<&[CallShape]>) -> Seq<Seq<CallShapeView>> {
    sequences.map_values(|sequence: &[CallShape]| owned_calls_view(sequence@))
}

/// The call at `index` of every sequence long enough to have one, in order.
pub open spec fn spec_calls_at(sequences: Seq<Seq<CallShapeView>>, index: int) -> Seq<CallShapeView>
    decreases sequences.len(),
{
    if sequences.len() == 0 {
        seq![]
    } else {
        let before = spec_calls_at(sequences.drop_last(), index);
        if 0 <= index < sequences.last().len() { before.push(sequences.last()[index]) } else { before }
    }
}

/// Whether position `index` has intentional literal variation across all
/// call sequences: every sequence reaches it, and its calls differ.
pub open spec fn spec_sequence_position_differs(sequences: Seq<Seq<CallShapeView>>, index: int) -> bool {
    spec_calls_at(sequences, index).len() == sequences.len()
        && spec_has_differing_string_literals(spec_calls_at(sequences, index))
}

/// The calls at `index` of the sequences long enough to have one.
pub fn calls_at<'a>(sequences: &[&'a [CallShape]], index: usize) -> (calls: Vec<&'a CallShape>)
    ensures
        calls_view(calls@) == spec_calls_at(sequences_view(sequences@), index as int),
{
    let ghost sv = sequences_view(sequences@);
    let mut calls: Vec<&'a CallShape> = Vec::new();
    let mut k: usize = 0;
    while k < sequences.len()
        invariant
            k <= sequences@.len(),
            sv == sequences_view(sequences@),
            calls_view(calls@) == spec_calls_at(sv.take(k as int), index as int),
        decreases sequences@.len() - k,
    {
        let sequence = sequences[k];
        assert(sv.take(k as int + 1).drop_last() =~= sv.take(k as int));
        assert(sv[k as int] == owned_calls_view(sequence@));
        if index < sequence.len() {
            let ghost before = calls@;
            calls.push(&sequence[index]);
            assert(calls_view(calls@) =~= calls_view(before).push(sequence@[index as int]@));
        }
        k = k + 1;
    }
    assert(sv.take(sequences@.len() as int) =~= sv);
    calls
}

/// Returns true when `index` has intentional literal variation across all
/// call sequences.
pub fn sequence_position_differs(sequences: &[&[CallShape]], index: usize) -> (differs: bool)
    ensures
        differs == spec_sequence_position_differs(sequences_view(sequences@), index as int),
{
    let calls = calls_at(sequences, index);
    assert(sequences_view(sequences@).len() == sequences@.len());
    calls.len() == sequences.len() && has_differing_string_literals(calls.as_slice())
}

/// The call productions of a language's grammar; none for a language
/// without literal-variation support.
pub open spec fn spec_call_kinds(language: Seq<char>) -> Seq<Seq<char>> {
    if language == "python"@ {
        seq!["call"@]
    } else if language == "csharp"@ {
        seq!["invocation_expression"@]
    } else if language == "rust"@ {
        seq!["call_expression"@, "macro_invocation"@]
    } else if language == "dart"@ || language == "javascript"@ || language == "typescript"@ || language == "tsx"@ {
        seq!["call_expression"@]
    } else {
        seq![]
    }
}

/// The node kinds that count as call expressions in `language`. Dart and
/// ECMAScript both name their call node `call_expression` with the same
/// `function` and `arguments` fields; Dart's `constructor_invocation` has
/// no `function` field and is left out.
pub fn call_kinds(language: &str) -> (kinds: Vec<&'static str>)
    ensures
        kinds_view(kinds@) == spec_call_kinds(language@),
{
    let kinds: Vec<&'static str> = if same_text(language, "python") {
        vec!["call"]
    } else if same_text(language, "csharp") {
        vec!["invocation_expression"]
    } else if same_text(language, "rust") {
        vec!["call_expression", "macro_invocation"]
    } else if same_text(language, "dart") || same_text(language, "javascript") || same_text(language, "typescript")
        || same_text(language, "tsx") {
        vec!["call_expression"]
    } else {
        Vec::new()
    };
    assert(kinds_view(kinds@) =~= spec_call_kinds(language@));
    kinds
}

/// The one call a member's range holds: none when the range holds a
/// complete statement, else the sole outermost call lying wholly inside
/// it.
pub open spec fn spec_held_call(root: SyntaxNode, range: ByteRange, kinds: Seq<Seq<char>>) -> Option<SyntaxNode> {
    if spec_statements_in(root, range).len() > 0 {
        None
    } else {
        let hits = spec_search_hits(range, Bound::Enclosed, Nested::Skip, kinds, root);
        if hits.len() == 1 { Some(hits[0]) } else { None }
    }
}

/// The one outermost call `range` holds under `root`, when the range is an
/// expression (it holds no complete statement) and holds exactly one.
pub fn held_call<'t>(root: &'t SyntaxNode, range: ByteRange, language: &str) -> (call: Option<&'t SyntaxNode>)
    ensures
        super::node_search::deref_node(call) == spec_held_call(*root, range, spec_call_kinds(language@)),
{
    let statements = covered_statements(root, range);
    if statements.len() > 0 {
        return None;
    }
    let search = KindSearch::enclosed(range, call_kinds(language));
    search.sole_node(root)
}

/// The call shape a member is judged by, in its file's tree: the smallest
/// call enclosing its range when that call carries no body; otherwise the
/// one call the range holds as an expression; otherwise the enclosing
/// call, body and all.
pub open spec fn spec_call_shape_in(tree: SyntaxNode, snippet: SnippetView) -> Option<CallShapeView> {
    let kinds = spec_call_kinds(snippet.language);
    let enclosing = match spec_enclosing_in(tree, snippet.range, kinds, None) {
        Some(call) => spec_call_shape_from_node(call, tree, snippet.source, snippet.language),
        None => None,
    };
    if enclosing is Some && !spec_carries_body(enclosing.unwrap()) {
        enclosing
    } else {
        match spec_held_call(tree, snippet.range, kinds) {
            Some(call) => match spec_call_shape_from_node(call, tree, snippet.source, snippet.language) {
                Some(held) => Some(held),
                None => enclosing,
            },
            None => enclosing,
        }
    }
}

/// The call shape of a member, in its file parsed with its language
/// plug-in's grammar; `None` where the file does not parse or no call
/// judges the member.
pub open spec fn spec_call_shape(snippet: SnippetView) -> Option<CallShapeView> {
    match spec_plugin_parse(snippet.language, snippet.source) {
        Some(tree) => spec_call_shape_in(tree, snippet),
        None => None,
    }
}

/// Extracts the call shape `snippet` is judged by. Either no call encloses
/// the member (an awaited check in a plain function body), or the
/// enclosing call only carries the member inside a body (a test case
/// around that check), and a body is never judged by the name beside it:
/// a member that is an expression around one call is judged by that call,
/// while a member holding a complete statement is a run, which is the
/// sequence rule's question.
pub fn call_shape(snippet: &Snippet) -> (shape: Option<CallShape>)
    ensures
        optional_call_view(shape) == spec_call_shape(snippet@),
{
    let tree = match parse_snippet(snippet) {
        Some(tree) => tree,
        None => return None,
    };
    let kinds = call_kinds(snippet.language);
    let enclosing = match enclosing_kind(&tree, snippet.range, &kinds) {
        Some(call) => call_shape_from_node(call, &tree, snippet.source, snippet.language),
        None => None,
    };
    let ghost enclosing_view = optional_call_view(enclosing);
    match &enclosing {
        Some(shape) => {
            if !shape.carries_body() {
                return enclosing;
            }
        },
        None => {},
    }
    match held_call(&tree, snippet.range, snippet.language) {
        Some(call) => match call_shape_from_node(call, &tree, snippet.source, snippet.language) {
            Some(held) => Some(held),
            None => enclosing,
        },
        None => enclosing,
    }
}

/// Everything the call collector needs that does not change as it
/// descends: the window it records inside, the language's call kinds, the
/// file's tree, its bytes and its language.
pub struct Walk<'a> {
    /// The member's byte window; a call must lie wholly inside it.
    pub range: ByteRange,
    /// Node kinds that count as a call in the language.
    pub kinds: Vec<&'static str>,
    /// The parse of the member's file.
    pub tree: &'a SyntaxNode,
    /// The file's bytes.
    pub source: &'a [u8],
    /// The language id.
    pub language: &'a str,
}

/// The calls lying wholly inside `range` under `node`, in source order: a
/// recorded call is followed by the calls inside its arguments, never by
/// those of its callee, which already belong to its shape; a subtree that
/// does not touch the range holds none.
pub open spec fn spec_calls_in_range(
    node: SyntaxNode,
    range: ByteRange,
    kinds: Seq<Seq<char>>,
    tree: SyntaxNode,
    source: Seq<u8>,
    language: Seq<char>,
) -> Seq<CallShapeView>
    decreases node, 2int,
{
    if node.end_byte < range.start || node.start_byte > range.end {
        seq![]
    } else if node.start_byte >= range.start && node.end_byte <= range.end && kinds.contains(node.kind@)
        && spec_call_shape_from_node(node, tree, source, language) is Some {
        seq![spec_call_shape_from_node(node, tree, source, language).unwrap()]
            + spec_argument_calls(node, range, kinds, tree, source, language)
    } else {
        spec_calls_in_children(node.children@, node.children@.len() as int, range, kinds, tree, source, language)
    }
}

/// The calls inside a recorded call's argument list.
pub open spec fn spec_argument_calls(
    call: SyntaxNode,
    range: ByteRange,
    kinds: Seq<Seq<char>>,
    tree: SyntaxNode,
    source: Seq<u8>,
    language: Seq<char>,
) -> Seq<CallShapeView>
    decreases call, 1int,
{
    let p = first_field_child(call.children@, "arguments"@, 0);
    let q = first_field_child(call.children@, "argument_list"@, 0);
    if 0 <= p < call.children@.len() {
        spec_calls_in_list(call.children@[p], range, kinds, tree, source, language)
    } else if 0 <= q < call.children@.len() {
        spec_calls_in_list(call.children@[q], range, kinds, tree, source, language)
    } else {
        seq![]
    }
}

/// The calls under an argument list's named children.
pub open spec fn spec_calls_in_list(
    args: SyntaxNode,
    range: ByteRange,
    kinds: Seq<Seq<char>>,
    tree: SyntaxNode,
    source: Seq<u8>,
    language: Seq<char>,
) -> Seq<CallShapeView>
    decreases args, 0int,
{
    spec_calls_in_children(args.children@, args.children@.len() as int, range, kinds, tree, source, language)
}

/// The calls under the first `k` named children, in order.
pub open spec fn spec_calls_in_children(
    children: Seq<SyntaxNode>,
    k: int,
    range: ByteRange,
    kinds: Seq<Seq<char>>,
    tree: SyntaxNode,
    source: Seq<u8>,
    language: Seq<char>,
) -> Seq<CallShapeView>
    decreases children, k,
{
    if k <= 0 || k > children.len() {
        seq![]
    } else {
        let before = spec_calls_in_children(children, k - 1, range, kinds, tree, source, language);
        if children[k - 1].named {
            before + spec_calls_in_range(children[k - 1], range, kinds, tree, source, language)
        } else {
            before
        }
    }
}

/// The calls `walk` records under `node`.
pub open spec fn spec_walk_calls(walk: Walk, node: SyntaxNode) -> Seq<CallShapeView> {
    spec_calls_in_range(node, walk.range, kinds_view(walk.kinds@), *walk.tree, walk.source@, walk.language@)
}

/// Recursively collects the calls within the walk's range. A recorded
/// call does not contribute its own callee expression to the sequence
/// again: `expect(generated).toContain("x")` is one call whose callee
/// happens to spell a nested `expect(generated)` invocation, whose names
/// and payloads already belong to the recorded shape. Arguments are still
/// walked: a call passed as an argument is a separate call.
pub fn collect_call_shapes(node: &SyntaxNode, walk: &Walk, out: &mut Vec<CallShape>)
    ensures
        owned_calls_view(final(out)@) == owned_calls_view(old(out)@) + spec_walk_calls(*walk, *node),
    decreases *node, 2int,
{
    let ghost start = owned_calls_view(out@);
    if node.end_byte < walk.range.start || node.start_byte > walk.range.end {
        assert(owned_calls_view(out@) =~= start + Seq::<CallShapeView>::empty());
        return;
    }
    if node.start_byte >= walk.range.start && node.end_byte <= walk.range.end && super::kind_in(node.kind.as_str(), &walk.kinds) {
        match call_shape_from_node(node, walk.tree, walk.source, walk.language) {
            Some(shape) => {
                out.push(shape);
                assert(owned_calls_view(out@) =~= start.push(shape@));
                walk_argument_children(node, walk, out);
                assert(owned_calls_view(out@) =~= start + spec_walk_calls(*walk, *node));
                return;
            },
            None => {},
        }
    }
    let mut index: usize = 0;
    while index < node.children.len()
        invariant
            index <= node.children@.len(),
            owned_calls_view(out@) == start + spec_calls_in_children(
                node.children@, index as int, walk.range, kinds_view(walk.kinds@), *walk.tree, walk.source@, walk.language@),
        decreases node.children@.len() - index,
    {
        let child = &node.children[index];
        assert(decreases_to!(*node => node.children@[index as int]));
        if child.named {
            collect_call_shapes(child, walk, out);
        }
        assert(owned_calls_view(out@) =~= start + spec_calls_in_children(
            node.children@, index as int + 1, walk.range, kinds_view(walk.kinds@), *walk.tree, walk.source@, walk.language@));
        index = index + 1;
    }
}

proof fn lemma_first_field_in_range(children: Seq<SyntaxNode>, field: Seq<char>, from: int)
    requires
        0 <= from,
    ensures
        0 <= first_field_child(children, field, from) <= children.len(),
    decreases children.len() - from,
{
    if from < children.len() && !(children[from].field.is_some() && children[from].field.unwrap()@ == field) {
        lemma_first_field_in_range(children, field, from + 1);
    }
}

/// Continues the walk inside a recorded call's argument list only,
/// leaving its callee expression out of the sequence.
pub fn walk_argument_children(call: &SyntaxNode, walk: &Walk, out: &mut Vec<CallShape>)
    ensures
        owned_calls_view(final(out)@) == owned_calls_view(old(out)@)
            + spec_argument_calls(*call, walk.range, kinds_view(walk.kinds@), *walk.tree, walk.source@, walk.language@),
    decreases *call, 1int,
{
    let ghost start = owned_calls_view(out@);
    let args = match argument_list(call) {
        Some(args) => args,
        None => {
            assert(owned_calls_view(out@) =~= start + Seq::<CallShapeView>::empty());
            return;
        },
    };
    let ghost p = first_field_child(call.children@, "arguments"@, 0);
    let ghost q = first_field_child(call.children@, "argument_list"@, 0);
    proof {
        lemma_first_field_in_range(call.children@, "arguments"@, 0);
        lemma_first_field_in_range(call.children@, "argument_list"@, 0);
        if p < call.children@.len() {
            assert(*args == call.children@[p]);
            assert(decreases_to!(*call => call.children@[p]));
        } else {
            assert(*args == call.children@[q]);
            assert(decreases_to!(*call => call.children@[q]));
        }
        assert(decreases_to!(*call => *args));
    }
    let mut index: usize = 0;
    while index < args.children.len()
        invariant
            index <= args.children@.len(),
            decreases_to!(*call => *args),
            owned_calls_view(out@) == start + spec_calls_in_children(
                args.children@, index as int, walk.range, kinds_view(walk.kinds@), *walk.tree, walk.source@, walk.language@),
        decreases args.children@.len() - index,
    {
        let child = &args.children[index];
        assert(decreases_to!(*args => args.children@[index as int]));
        assert(decreases_to!(*call => args.children@[index as int]));
        if child.named {
            collect_call_shapes(child, walk, out);
        }
        assert(owned_calls_view(out@) =~= start + spec_calls_in_children(
            args.children@, index as int + 1, walk.range, kinds_view(walk.kinds@), *walk.tree, walk.source@, walk.language@));
        index = index + 1;
    }
}

/// Every call fully inside a member's range in its parsed file, in source
/// order; `None` where the file does not parse.
pub open spec fn spec_call_shapes_in_range(snippet: SnippetView) -> Option<Seq<CallShapeView>> {
    match spec_plugin_parse(snippet.language, snippet.source) {
        Some(tree) => Some(spec_calls_in_range(tree, snippet.range, spec_call_kinds(snippet.language), tree, snippet.source, snippet.language)),
        None => None,
    }
}

/// Returns every call fully contained in the member's range, preserving
/// source order.
pub fn call_shapes_in_range(snippet: &Snippet) -> (shapes: Option<Vec<CallShape>>)
    ensures
        optional_calls_view(shapes) == spec_call_shapes_in_range(snippet@),
{
    let tree = match parse_snippet(snippet) {
        Some(tree) => tree,
        None => return None,
    };
    let walk = Walk { range: snippet.range, kinds: call_kinds(snippet.language), tree: &tree, source: snippet.source, language: snippet.language };
    let mut shapes: Vec<CallShape> = Vec::new();
    assert(owned_calls_view(shapes@) =~= Seq::<CallShapeView>::empty());
    collect_call_shapes(&tree, &walk, &mut shapes);
    assert(owned_calls_view(shapes@) =~= spec_calls_in_range(tree, snippet.range, spec_call_kinds(snippet.language@), tree, snippet.source@, snippet.language@));
    Some(shapes)
}

/// The sequence cell of one member: whether its covered statements are
/// admissible and its calls in order.
pub open spec fn spec_call_sequence(snippet: SnippetView, cell: CallSequence) -> bool {
    &&& cell.statements_admissible == spec_covered_statements_admissible(snippet)
    &&& optional_calls_view(cell.shapes) == spec_call_shapes_in_range(snippet)
}

/// Computes the literal-variation sequence cell of one member: the
/// covered-statement flag and the in-range call sequence.
pub fn call_sequence(snippet: &Snippet) -> (cell: CallSequence)
    ensures
        spec_call_sequence(snippet@, cell),
{
    let shapes = call_shapes_in_range(snippet);
    let admissible = covered_statements_admissible(snippet);
    CallSequence { statements_admissible: admissible, shapes }
}

} // verus!
