//! The covered statements of a literal-variation member: which carry a
//! call, and when a run of call-free assertions is the per-cell
//! acceptance of a scenario run rather than shared verification logic.

use vstd::prelude::*;

use super::asserts::{is_assert_on_call_bound_value, spec_is_assert_on_call_bound_value};
use super::{call_kinds, spec_call_kinds};
use crate::cluster_filters::node_search::{node_enclosed_by_range, node_intersects_range, nodes_view, spec_enclosed, spec_intersects};
use crate::cluster_filters::snippets::{parse_snippet, spec_plugin_parse, Snippet, SnippetView};
use crate::cluster_filters::{kind_in, kinds_view, SyntaxNode};
use crate::text::same_text;
use crate::ast::ByteRange;

verus! {

/// Whether the subtree holds a call production, reached through named
/// nodes.
pub open spec fn spec_subtree_contains_call(node: SyntaxNode, kinds: Seq<Seq<char>>) -> bool
    decreases node, 1int,
{
    kinds.contains(node.kind@) || spec_children_contain_call(node.children@, node.children@.len() as int, kinds)
}

/// Whether one of the first `k` named children holds a call.
pub open spec fn spec_children_contain_call(children: Seq<SyntaxNode>, k: int, kinds: Seq<Seq<char>>) -> bool
    decreases children, k,
{
    if k <= 0 || k > children.len() {
        false
    } else {
        spec_children_contain_call(children, k - 1, kinds)
            || (children[k - 1].named && spec_subtree_contains_call(children[k - 1], kinds))
    }
}

proof fn lemma_call_found(children: Seq<SyntaxNode>, k: int, n: int, kinds: Seq<Seq<char>>)
    requires
        0 <= k <= n <= children.len(),
        spec_children_contain_call(children, k, kinds),
    ensures
        spec_children_contain_call(children, n, kinds),
    decreases n - k,
{
    if k < n {
        lemma_call_found(children, k, n - 1, kinds);
    }
}

/// Whether `node` contains a call production for its language.
pub fn subtree_contains_call(node: &SyntaxNode, kinds: &Vec<&'static str>) -> (found: bool)
    ensures
        found == spec_subtree_contains_call(*node, kinds_view(kinds@)),
    decreases *node,
{
    if kind_in(node.kind.as_str(), kinds) {
        return true;
    }
    let mut index: usize = 0;
    while index < node.children.len()
        invariant
            index <= node.children@.len(),
            !kinds_view(kinds@).contains(node.kind@),
            !spec_children_contain_call(node.children@, index as int, kinds_view(kinds@)),
        decreases node.children@.len() - index,
    {
        let child = &node.children[index];
        assert(decreases_to!(*node => node.children@[index as int]));
        if child.named && subtree_contains_call(child, kinds) {
            proof {
                lemma_call_found(node.children@, index as int + 1, node.children@.len() as int, kinds_view(kinds@));
            }
            return true;
        }
        index = index + 1;
    }
    false
}

/// How many statements carry no call production.
pub open spec fn spec_count_call_free(covered: Seq<SyntaxNode>, kinds: Seq<Seq<char>>) -> int
    decreases covered.len(),
{
    if covered.len() == 0 {
        0
    } else {
        spec_count_call_free(covered.drop_last(), kinds)
            + if spec_subtree_contains_call(covered.last(), kinds) { 0int } else { 1int }
    }
}

/// The number of covered statements carrying no call production.
pub fn count_call_free(covered: &[&SyntaxNode], kinds: &Vec<&'static str>) -> (count: usize)
    ensures
        count == spec_count_call_free(nodes_view(covered@), kinds_view(kinds@)),
{
    let ghost cv = nodes_view(covered@);
    let mut count: usize = 0;
    let mut index: usize = 0;
    while index < covered.len()
        invariant
            index <= covered@.len(),
            cv == nodes_view(covered@),
            count == spec_count_call_free(cv.take(index as int), kinds_view(kinds@)),
            count <= index,
        decreases covered@.len() - index,
    {
        assert(cv.take(index as int + 1).drop_last() =~= cv.take(index as int));
        assert(cv.take(index as int + 1).last() == *covered[index as int]);
        if !subtree_contains_call(covered[index], kinds) {
            count = count + 1;
        }
        index = index + 1;
    }
    assert(cv.take(cv.len() as int) =~= cv);
    count
}

/// The walk over the covered statements in order: the start of the last
/// call-bearing statement so far, and for each call-free statement the
/// start of the call statement before it; `None` as soon as a call-free
/// statement is not an assertion on a value the covered calls bound.
pub open spec fn spec_scenario_walk(
    covered: Seq<SyntaxNode>,
    calls: Seq<SyntaxNode>,
    language: Seq<char>,
    source: Seq<u8>,
) -> Option<(Option<usize>, Seq<usize>)>
    decreases covered.len(),
{
    if covered.len() == 0 {
        Some((None, seq![]))
    } else {
        match spec_scenario_walk(covered.drop_last(), calls, language, source) {
            None => None,
            Some((last, preceding)) => {
                let statement = covered.last();
                if spec_subtree_contains_call(statement, spec_call_kinds(language)) {
                    Some((Some(statement.start_byte), preceding))
                } else if !spec_is_assert_on_call_bound_value(statement, calls, language, source) {
                    None
                } else {
                    match last {
                        Some(start) => Some((last, preceding.push(start))),
                        None => Some((last, preceding)),
                    }
                }
            },
        }
    }
}

/// A scenario run's per-cell acceptance: every call-free statement is an
/// assertion on a value the covered calls bound, each sits behind a
/// covered call, and those calls are not all one call.
pub open spec fn spec_scenario_run_acceptance(covered: Seq<SyntaxNode>, calls: Seq<SyntaxNode>, language: Seq<char>, source: Seq<u8>) -> bool {
    match spec_scenario_walk(covered, calls, language, source) {
        Some((_, preceding)) => {
            &&& preceding.len() == spec_count_call_free(covered, spec_call_kinds(language))
            &&& exists|i: int, j: int| 0 <= i < preceding.len() && 0 <= j < preceding.len()
                && #[trigger] preceding[i] != #[trigger] preceding[j]
        },
        None => false,
    }
}

/// True when every call-free statement is an assertion on a value bound
/// by the covered call immediately preceding it, and those preceding calls
/// are not all the same call: per-cell acceptance, never a shared
/// verification block.
pub fn scenario_run_acceptance(covered: &[&SyntaxNode], with_call: &[&SyntaxNode], snippet: &Snippet) -> (accepted: bool)
    ensures
        accepted == spec_scenario_run_acceptance(nodes_view(covered@), nodes_view(with_call@), snippet.language@, snippet.source@),
{
    let kinds = call_kinds(snippet.language);
    let ghost cv = nodes_view(covered@);
    let ghost calls = nodes_view(with_call@);
    let mut preceding_calls: Vec<usize> = Vec::new();
    let mut last_call_start: Option<usize> = None;
    let mut index: usize = 0;
    while index < covered.len()
        invariant
            index <= covered@.len(),
            cv == nodes_view(covered@),
            calls == nodes_view(with_call@),
            kinds_view(kinds@) == spec_call_kinds(snippet.language@),
            spec_scenario_walk(cv.take(index as int), calls, snippet.language@, snippet.source@)
                == Some((last_call_start, preceding_calls@)),
        decreases covered@.len() - index,
    {
        assert(cv.take(index as int + 1).drop_last() =~= cv.take(index as int));
        assert(cv.take(index as int + 1).last() == *covered[index as int]);
        let statement = covered[index];
        if subtree_contains_call(statement, &kinds) {
            last_call_start = Some(statement.start_byte);
        } else {
            if !is_assert_on_call_bound_value(statement, with_call, snippet) {
                proof {
                    lemma_walk_stays_refused(cv, index as int + 1, calls, snippet.language@, snippet.source@);
                }
                assert(cv.take(cv.len() as int) =~= cv);
                return false;
            }
            match last_call_start {
                Some(start) => preceding_calls.push(start),
                None => {},
            }
        }
        index = index + 1;
    }
    assert(cv.take(cv.len() as int) =~= cv);
    if preceding_calls.len() != count_call_free(covered, &kinds) {
        return false;
    }
    if preceding_calls.len() == 0 {
        return false;
    }
    let first = preceding_calls[0];
    let mut at: usize = 0;
    while at < preceding_calls.len()
        invariant
            at <= preceding_calls@.len(),
            preceding_calls@.len() > 0,
            cv == nodes_view(covered@),
            calls == nodes_view(with_call@),
            spec_scenario_walk(cv, calls, snippet.language@, snippet.source@) == Some((last_call_start, preceding_calls@)),
            preceding_calls@.len() == spec_count_call_free(cv, spec_call_kinds(snippet.language@)),
            first == preceding_calls@[0],
            forall|j: int| 0 <= j < at ==> #[trigger] preceding_calls@[j] == first,
        decreases preceding_calls@.len() - at,
    {
        if preceding_calls[at] != first {
            assert(preceding_calls@[at as int] != preceding_calls@[0]);
            return true;
        }
        at = at + 1;
    }
    assert forall|i: int, j: int| 0 <= i < preceding_calls@.len() && 0 <= j < preceding_calls@.len() implies
        !(#[trigger] preceding_calls@[i] != #[trigger] preceding_calls@[j]) by {
        assert(preceding_calls@[i] == first && preceding_calls@[j] == first);
    }
    false
}

/// Once the walk refuses a prefix, it refuses every longer one.
proof fn lemma_walk_stays_refused(covered: Seq<SyntaxNode>, k: int, calls: Seq<SyntaxNode>, language: Seq<char>, source: Seq<u8>)
    requires
        0 <= k <= covered.len(),
        spec_scenario_walk(covered.take(k), calls, language, source) is None,
    ensures
        spec_scenario_walk(covered, calls, language, source) is None,
    decreases covered.len() - k,
{
    if k < covered.len() {
        assert(covered.take(k + 1).drop_last() =~= covered.take(k));
        lemma_walk_stays_refused(covered, k + 1, calls, language, source);
    } else {
        assert(covered.take(k) =~= covered);
    }
}

/// Whether `text` ends with `suffix`.
pub open spec fn spec_ends_with(text: Seq<char>, suffix: Seq<char>) -> bool {
    text.len() >= suffix.len() && text.subrange(text.len() - suffix.len(), text.len() as int) == suffix
}

/// Whether a string ends with a suffix.
pub fn ends_with_text(text: &str, suffix: &str) -> (ends: bool)
    ensures
        ends == spec_ends_with(text@, suffix@),
{
    let length = text.unicode_len();
    let tail = suffix.unicode_len();
    if length < tail {
        return false;
    }
    let offset = length - tail;
    let mut index: usize = 0;
    while index < tail
        invariant
            length == text@.len(),
            tail == suffix@.len(),
            offset == length - tail,
            index <= tail,
            forall|j: int| 0 <= j < index ==> text@[offset + j] == suffix@[j],
        decreases tail - index,
    {
        if text.get_char(offset + index) != suffix.get_char(index) {
            assert(text@.subrange(offset as int, length as int)[index as int] != suffix@[index as int]);
            return false;
        }
        index = index + 1;
    }
    assert(text@.subrange(offset as int, length as int) =~= suffix@);
    true
}

/// The node kinds that are a complete statement: every kind the grammars
/// name a statement, and the declarations that bind locals, Rust's `let`
/// among them.
pub open spec fn spec_is_statement_shape(kind: Seq<char>) -> bool {
    ||| spec_ends_with(kind, "_statement"@)
    ||| kind == "lexical_declaration"@
    ||| kind == "variable_declaration"@
    ||| kind == "let_declaration"@
    ||| kind == "local_variable_declaration"@
}

/// Whether a node kind is a complete statement.
pub fn is_statement_shape(kind: &str) -> (statement: bool)
    ensures
        statement == spec_is_statement_shape(kind@),
{
    ends_with_text(kind, "_statement") || same_text(kind, "lexical_declaration") || same_text(kind, "variable_declaration")
        || same_text(kind, "let_declaration") || same_text(kind, "local_variable_declaration")
}

/// The statements lying wholly inside `range` under `node`, in source
/// order, through named nodes; a statement ends the descent.
pub open spec fn spec_statements_in(node: SyntaxNode, range: ByteRange) -> Seq<SyntaxNode>
    decreases node, 1int,
{
    if !spec_intersects(node, range) {
        seq![]
    } else if spec_enclosed(node, range) && spec_is_statement_shape(node.kind@) {
        seq![node]
    } else {
        spec_statements_in_children(node.children@, node.children@.len() as int, range)
    }
}

/// The statements under the first `k` named children, in order.
pub open spec fn spec_statements_in_children(children: Seq<SyntaxNode>, k: int, range: ByteRange) -> Seq<SyntaxNode>
    decreases children, k,
{
    if k <= 0 || k > children.len() {
        seq![]
    } else {
        let before = spec_statements_in_children(children, k - 1, range);
        if children[k - 1].named { before + spec_statements_in(children[k - 1], range) } else { before }
    }
}

fn collect_statements<'t>(node: &'t SyntaxNode, range: ByteRange, out: &mut Vec<&'t SyntaxNode>)
    ensures
        nodes_view(final(out)@) == nodes_view(old(out)@) + spec_statements_in(*node, range),
    decreases *node,
{
    let ghost start = nodes_view(out@);
    if !node_intersects_range(node, range) {
        assert(nodes_view(out@) =~= start + Seq::<SyntaxNode>::empty());
        return;
    }
    if node_enclosed_by_range(node, range) && is_statement_shape(node.kind.as_str()) {
        out.push(node);
        assert(nodes_view(out@) =~= start + seq![*node]);
        return;
    }
    let mut index: usize = 0;
    while index < node.children.len()
        invariant
            index <= node.children@.len(),
            nodes_view(out@) == start + spec_statements_in_children(node.children@, index as int, range),
        decreases node.children@.len() - index,
    {
        let child = &node.children[index];
        assert(decreases_to!(*node => node.children@[index as int]));
        if child.named {
            collect_statements(child, range, out);
        }
        assert(nodes_view(out@) =~= start + spec_statements_in_children(node.children@, index as int + 1, range));
        index = index + 1;
    }
}

/// Every complete statement lying wholly inside `range` under `root`.
pub fn covered_statements<'t>(root: &'t SyntaxNode, range: ByteRange) -> (statements: Vec<&'t SyntaxNode>)
    ensures
        nodes_view(statements@) == spec_statements_in(*root, range),
{
    let mut out: Vec<&'t SyntaxNode> = Vec::new();
    collect_statements(root, range, &mut out);
    assert(nodes_view(out@) =~= spec_statements_in(*root, range));
    out
}

/// Whether the subtree holds a complete statement, through named nodes.
pub open spec fn spec_holds_statement(node: SyntaxNode) -> bool
    decreases node, 1int,
{
    spec_is_statement_shape(node.kind@) || spec_children_hold_statement(node.children@, node.children@.len() as int)
}

/// Whether one of the first `k` named children holds a statement.
pub open spec fn spec_children_hold_statement(children: Seq<SyntaxNode>, k: int) -> bool
    decreases children, k,
{
    if k <= 0 || k > children.len() {
        false
    } else {
        spec_children_hold_statement(children, k - 1) || (children[k - 1].named && spec_holds_statement(children[k - 1]))
    }
}

proof fn lemma_statement_found(children: Seq<SyntaxNode>, k: int, n: int)
    requires
        0 <= k <= n <= children.len(),
        spec_children_hold_statement(children, k),
    ensures
        spec_children_hold_statement(children, n),
    decreases n - k,
{
    if k < n {
        lemma_statement_found(children, k, n - 1);
    }
}

/// Whether `node` carries a complete statement anywhere in its subtree: a
/// test body, a callback block.
pub fn holds_statement(node: &SyntaxNode) -> (holds: bool)
    ensures
        holds == spec_holds_statement(*node),
    decreases *node,
{
    if is_statement_shape(node.kind.as_str()) {
        return true;
    }
    let mut index: usize = 0;
    while index < node.children.len()
        invariant
            index <= node.children@.len(),
            !spec_is_statement_shape(node.kind@),
            !spec_children_hold_statement(node.children@, index as int),
        decreases node.children@.len() - index,
    {
        let child = &node.children[index];
        assert(decreases_to!(*node => node.children@[index as int]));
        if child.named && holds_statement(child) {
            proof {
                lemma_statement_found(node.children@, index as int + 1, node.children@.len() as int);
            }
            return true;
        }
        index = index + 1;
    }
    false
}

/// The covered statements that hold a call, in order.
pub open spec fn spec_with_call(covered: Seq<SyntaxNode>, kinds: Seq<Seq<char>>) -> Seq<SyntaxNode>
    decreases covered.len(),
{
    if covered.len() == 0 {
        seq![]
    } else {
        let before = spec_with_call(covered.drop_last(), kinds);
        if spec_subtree_contains_call(covered.last(), kinds) { before.push(covered.last()) } else { before }
    }
}

/// The covered statements that hold no call, in order.
pub open spec fn spec_without_call(covered: Seq<SyntaxNode>, kinds: Seq<Seq<char>>) -> Seq<SyntaxNode>
    decreases covered.len(),
{
    if covered.len() == 0 {
        seq![]
    } else {
        let before = spec_without_call(covered.drop_last(), kinds);
        if spec_subtree_contains_call(covered.last(), kinds) { before } else { before.push(covered.last()) }
    }
}

/// Which call-free statements the covered set may carry: none, one lone
/// assertion on a value the covered calls bound, or, for three or more,
/// the per-cell acceptance of a scenario run. Two are never admitted.
pub open spec fn spec_call_free_admissible(
    without_call: Seq<SyntaxNode>,
    with_call: Seq<SyntaxNode>,
    covered: Seq<SyntaxNode>,
    language: Seq<char>,
    source: Seq<u8>,
) -> bool {
    if without_call.len() == 0 {
        true
    } else if without_call.len() == 1 {
        spec_is_assert_on_call_bound_value(without_call[0], with_call, language, source)
    } else if without_call.len() == 2 {
        false
    } else {
        spec_scenario_run_acceptance(covered, with_call, language, source)
    }
}

/// Whether the statements covered by a member, in its file parsed with its
/// language plug-in's grammar, are admissible to the sequence rule: there
/// is at least one, and its call-free ones are admissible.
pub open spec fn spec_covered_statements_admissible(snippet: SnippetView) -> bool {
    match spec_plugin_parse(snippet.language, snippet.source) {
        None => false,
        Some(tree) => {
            let covered = spec_statements_in(tree, snippet.range);
            let kinds = spec_call_kinds(snippet.language);
            &&& covered.len() > 0
            &&& spec_call_free_admissible(
                spec_without_call(covered, kinds),
                spec_with_call(covered, kinds),
                covered,
                snippet.language,
                snippet.source,
            )
        },
    }
}

/// Whether the statements covered by `snippet` are admissible to the
/// sequence rule: every complete covered statement contains a call, except
/// that one lone call-free statement is admitted when it is an assertion
/// on a value the covered calls bound, the trailing acceptance check of
/// the test idiom, and a scenario run's per-cell acceptance is admitted
/// too. Anything else call-free is authored work beside the calls and
/// blocks the filter.
pub fn covered_statements_admissible(snippet: &Snippet) -> (admissible: bool)
    ensures
        admissible == spec_covered_statements_admissible(snippet@),
{
    let tree = match parse_snippet(snippet) {
        Some(tree) => tree,
        None => return false,
    };
    let covered = covered_statements(&tree, snippet.range);
    let kinds = call_kinds(snippet.language);
    let ghost cv = nodes_view(covered@);
    let mut with_call: Vec<&SyntaxNode> = Vec::new();
    let mut without_call: Vec<&SyntaxNode> = Vec::new();
    let mut index: usize = 0;
    while index < covered.len()
        invariant
            index <= covered@.len(),
            cv == nodes_view(covered@),
            kinds_view(kinds@) == spec_call_kinds(snippet.language@),
            nodes_view(with_call@) == spec_with_call(cv.take(index as int), kinds_view(kinds@)),
            nodes_view(without_call@) == spec_without_call(cv.take(index as int), kinds_view(kinds@)),
        decreases covered@.len() - index,
    {
        assert(cv.take(index as int + 1).drop_last() =~= cv.take(index as int));
        assert(cv.take(index as int + 1).last() == *covered[index as int]);
        let statement = covered[index];
        if subtree_contains_call(statement, &kinds) {
            with_call.push(statement);
            assert(nodes_view(with_call@) =~= spec_with_call(cv.take(index as int), kinds_view(kinds@)).push(*statement));
        } else {
            without_call.push(statement);
            assert(nodes_view(without_call@) =~= spec_without_call(cv.take(index as int), kinds_view(kinds@)).push(*statement));
        }
        index = index + 1;
    }
    assert(cv.take(cv.len() as int) =~= cv);
    if covered.len() == 0 {
        return false;
    }
    if without_call.len() == 0 {
        true
    } else if without_call.len() == 1 {
        assert(nodes_view(without_call@)[0] == *without_call@[0]);
        is_assert_on_call_bound_value(without_call[0], with_call.as_slice(), snippet)
    } else if without_call.len() == 2 {
        false
    } else {
        scenario_run_acceptance(covered.as_slice(), with_call.as_slice(), snippet)
    }
}

} // verus!
