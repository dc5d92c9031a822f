//! Whether a declaration only forwards: a body with a single client call,
//! optionally bound and returned, and nothing computed on the way through.
//!
//! The proof has two halves. The body shape says the statements look
//! declarative: one of three braced forms or a bare arrow expression, with
//! every named node on a closed allowlist (an unknown kind, `ERROR`
//! included, disproves forwarding). Delegation says what the statements
//! do: every call is transport. Only Dart is wired; any other language is
//! never proven to forward.

use vstd::prelude::*;

use super::node_search::{deref_node, nodes_view, span_is, spec_span};
use super::{kind_in, kinds_view, SyntaxNode};
use crate::text::same_text;

pub mod delegation;

use delegation::{body_is_pure_delegation, spec_body_is_pure_delegation};

verus! {

/// Per-language grammar facts the forwarding walk needs.
pub struct ForwardingGrammar {
    /// Outermost body node of a member declaration.
    pub body: &'static str,
    /// Statement-sequence node inside a braced body.
    pub block: &'static str,
    /// Local-binding statement.
    pub binding: &'static str,
    /// Return statement.
    pub ret: &'static str,
    /// Expression statement: a bare forwarded call.
    pub statement: &'static str,
    /// Call node; every one in a forwarding body must be transport.
    pub call: &'static str,
    /// Argument-list node of a call.
    pub arguments: &'static str,
    /// Identifier node.
    pub identifier: &'static str,
    /// Member-access callee kinds that carry a receiver.
    pub member_access: Vec<&'static str>,
    /// Node kinds whose first identifier declares instance state.
    pub field_names: Vec<&'static str>,
    /// Formal-parameter list node of a member signature.
    pub parameters: &'static str,
    /// One formal parameter; its first identifier is the name.
    pub parameter: &'static str,
    /// Every named node kind a declarative body may contain.
    pub declarative: Vec<&'static str>,
}

/// Every named node kind a declarative Dart body may contain.
pub open spec fn spec_dart_declarative() -> Seq<Seq<char>> {
    seq![
        "return_statement"@,
        "expression_statement"@,
        "local_variable_declaration"@,
        "initialized_variable_definition"@,
        "call_expression"@,
        "member_expression"@,
        "null_aware_member_expression"@,
        "instantiation_expression"@,
        "arguments"@,
        "named_argument"@,
        "label"@,
        "identifier"@,
        "null_assertion_expression"@,
        "parenthesized_expression"@,
        "await_expression"@,
        "unary_expression"@,
        "throw_expression"@,
        "type_cast_expression"@,
        "type_cast"@,
        "as_operator"@,
        "type"@,
        "type_arguments"@,
        "type_identifier"@,
        "function_expression"@,
        "function_expression_body"@,
        "formal_parameter_list"@,
        "formal_parameter"@,
        "optional_formal_parameters"@,
        "string_literal"@,
        "string_literal_single_quotes"@,
        "string_literal_double_quotes"@,
        "template_chars_single_single"@,
        "template_chars_double_single"@,
        "template_substitution"@,
        "identifier_dollar_escaped"@,
        "decimal_integer_literal"@,
        "decimal_floating_point_literal"@,
        "true"@,
        "false"@,
        "null_literal"@,
        "list_literal"@,
        "set_or_map_literal"@,
        "pair"@,
        "comment"@,
    ]
}

/// The model of a grammar table: each kind by its characters.
pub struct GrammarView {
    pub body: Seq<char>,
    pub block: Seq<char>,
    pub binding: Seq<char>,
    pub ret: Seq<char>,
    pub statement: Seq<char>,
    pub call: Seq<char>,
    pub arguments: Seq<char>,
    pub identifier: Seq<char>,
    pub member_access: Seq<Seq<char>>,
    pub field_names: Seq<Seq<char>>,
    pub parameters: Seq<char>,
    pub parameter: Seq<char>,
    pub declarative: Seq<Seq<char>>,
}

impl View for ForwardingGrammar {
    type V = GrammarView;

    open spec fn view(&self) -> GrammarView {
        GrammarView {
            body: self.body@,
            block: self.block@,
            binding: self.binding@,
            ret: self.ret@,
            statement: self.statement@,
            call: self.call@,
            arguments: self.arguments@,
            identifier: self.identifier@,
            member_access: kinds_view(self.member_access@),
            field_names: kinds_view(self.field_names@),
            parameters: self.parameters@,
            parameter: self.parameter@,
            declarative: kinds_view(self.declarative@),
        }
    }
}

/// The tree-sitter-dart grammar facts: Dart names class members
/// generically, so the body node is the anchor and the allowlist separates
/// a wrapper from a computation.
pub open spec fn spec_dart_grammar() -> GrammarView {
    GrammarView {
        body: "function_body"@,
        block: "block"@,
        binding: "local_variable_declaration"@,
        ret: "return_statement"@,
        statement: "expression_statement"@,
        call: "call_expression"@,
        arguments: "arguments"@,
        identifier: "identifier"@,
        member_access: seq!["member_expression"@, "null_aware_member_expression"@],
        field_names: seq!["initialized_identifier"@, "constructor_param"@],
        parameters: "formal_parameter_list"@,
        parameter: "formal_parameter"@,
        declarative: spec_dart_declarative(),
    }
}

/// Grammar table lookup: only Dart is wired, and an unwired language fails
/// open.
pub fn forwarding_grammar(language: &str) -> (grammar: Option<ForwardingGrammar>)
    ensures
        (grammar is Some) == (language@ == "dart"@),
        grammar matches Some(g) ==> g@ == spec_dart_grammar(),
{
    if !same_text(language, "dart") {
        return None;
    }
    let member_access = vec!["member_expression", "null_aware_member_expression"];
    let field_names = vec!["initialized_identifier", "constructor_param"];
    let declarative = vec![
            "return_statement",
            "expression_statement",
            "local_variable_declaration",
            "initialized_variable_definition",
            "call_expression",
            "member_expression",
            "null_aware_member_expression",
            "instantiation_expression",
            "arguments",
            "named_argument",
            "label",
            "identifier",
            "null_assertion_expression",
            "parenthesized_expression",
            "await_expression",
            "unary_expression",
            "throw_expression",
            "type_cast_expression",
            "type_cast",
            "as_operator",
            "type",
            "type_arguments",
            "type_identifier",
            "function_expression",
            "function_expression_body",
            "formal_parameter_list",
            "formal_parameter",
            "optional_formal_parameters",
            "string_literal",
            "string_literal_single_quotes",
            "string_literal_double_quotes",
            "template_chars_single_single",
            "template_chars_double_single",
            "template_substitution",
            "identifier_dollar_escaped",
            "decimal_integer_literal",
            "decimal_floating_point_literal",
            "true",
            "false",
            "null_literal",
            "list_literal",
            "set_or_map_literal",
            "pair",
            "comment",
        ];
    assert(kinds_view(member_access@) =~= seq!["member_expression"@, "null_aware_member_expression"@]);
    assert(kinds_view(field_names@) =~= seq!["initialized_identifier"@, "constructor_param"@]);
    assert(kinds_view(declarative@) =~= spec_dart_declarative());
    Some(ForwardingGrammar {
        body: "function_body",
        block: "block",
        binding: "local_variable_declaration",
        ret: "return_statement",
        statement: "expression_statement",
        call: "call_expression",
        arguments: "arguments",
        identifier: "identifier",
        member_access,
        field_names,
        parameters: "formal_parameter_list",
        parameter: "formal_parameter",
        declarative,
    })
}

/// The outermost node of `kind` in `node`'s subtree, searching named
/// children in order: the member's own body, never a nested lambda's.
pub open spec fn spec_outermost_kind(node: SyntaxNode, kind: Seq<char>) -> Option<SyntaxNode>
    decreases node, 1int,
{
    if node.kind@ == kind {
        Some(node)
    } else {
        spec_outermost_children(node.children@, 0, kind)
    }
}

/// The first answer among the named children from position `k` on.
pub open spec fn spec_outermost_children(children: Seq<SyntaxNode>, k: int, kind: Seq<char>) -> Option<SyntaxNode>
    decreases children, children.len() - k,
{
    if k < 0 || k >= children.len() {
        None
    } else {
        let here = if children[k].named { spec_outermost_kind(children[k], kind) } else { None };
        match here {
            Some(found) => Some(found),
            None => spec_outermost_children(children, k + 1, kind),
        }
    }
}

/// Finds the outermost descendant of `kind`.
pub fn outermost_kind<'a>(node: &'a SyntaxNode, kind: &str) -> (found: Option<&'a SyntaxNode>)
    ensures
        deref_node(found) == spec_outermost_kind(*node, kind@),
    decreases *node,
{
    if same_text(node.kind.as_str(), kind) {
        return Some(node);
    }
    let mut index: usize = 0;
    while index < node.children.len()
        invariant
            index <= node.children@.len(),
            node.kind@ != kind@,
            spec_outermost_children(node.children@, 0, kind@) == spec_outermost_children(node.children@, index as int, kind@),
        decreases node.children@.len() - index,
    {
        let child = &node.children[index];
        assert(decreases_to!(*node => node.children@[index as int]));
        if child.named {
            match outermost_kind(child, kind) {
                Some(found) => return Some(found),
                None => {},
            }
        }
        index = index + 1;
    }
    None
}

/// The named children of a node that are not comments, in order.
pub open spec fn spec_named_non_comment(children: Seq<SyntaxNode>) -> Seq<SyntaxNode>
    decreases children.len(),
{
    if children.len() == 0 {
        seq![]
    } else {
        let before = spec_named_non_comment(children.drop_last());
        let last = children.last();
        if last.named && last.kind@ != "comment"@ { before.push(last) } else { before }
    }
}

/// Named children with comments removed: comments never carry logic.
pub fn named_non_comment_children(node: &SyntaxNode) -> (found: Vec<&SyntaxNode>)
    ensures
        nodes_view(found@) == spec_named_non_comment(node.children@),
{
    let mut found: Vec<&SyntaxNode> = Vec::new();
    let mut index: usize = 0;
    while index < node.children.len()
        invariant
            index <= node.children@.len(),
            nodes_view(found@) == spec_named_non_comment(node.children@.take(index as int)),
        decreases node.children@.len() - index,
    {
        let child = &node.children[index];
        assert(node.children@.take(index as int + 1).drop_last() =~= node.children@.take(index as int));
        if child.named && !same_text(child.kind.as_str(), "comment") {
            let ghost before = nodes_view(found@);
            found.push(child);
            assert(nodes_view(found@) =~= before.push(*child));
        }
        index = index + 1;
    }
    assert(node.children@.take(node.children@.len() as int) =~= node.children@);
    found
}

/// Every named node of the subtree is on the declarative allowlist.
pub open spec fn spec_subtree_is_declarative(node: SyntaxNode, declarative: Seq<Seq<char>>) -> bool
    decreases node, 1int,
{
    declarative.contains(node.kind@) && spec_children_declarative(node.children@, node.children@.len() as int, declarative)
}

/// Every one of the first `k` named children is declarative.
pub open spec fn spec_children_declarative(children: Seq<SyntaxNode>, k: int, declarative: Seq<Seq<char>>) -> bool
    decreases children, k,
{
    if k <= 0 || k > children.len() {
        true
    } else {
        spec_children_declarative(children, k - 1, declarative)
            && (!children[k - 1].named || spec_subtree_is_declarative(children[k - 1], declarative))
    }
}

proof fn lemma_declarative_stop(children: Seq<SyntaxNode>, k: int, n: int, declarative: Seq<Seq<char>>)
    requires
        0 < k <= n <= children.len(),
        !spec_children_declarative(children, k, declarative),
    ensures
        !spec_children_declarative(children, n, declarative),
    decreases n - k,
{
    if k < n {
        lemma_declarative_stop(children, k, n - 1, declarative);
    }
}

/// True when every named node in the subtree is on the declarative
/// allowlist; unknown kinds disprove forwarding.
pub fn subtree_is_declarative(node: &SyntaxNode, declarative: &Vec<&'static str>) -> (allowed: bool)
    ensures
        allowed == spec_subtree_is_declarative(*node, kinds_view(declarative@)),
    decreases *node,
{
    if !kind_in(node.kind.as_str(), declarative) {
        return false;
    }
    let mut index: usize = 0;
    while index < node.children.len()
        invariant
            index <= node.children@.len(),
            kinds_view(declarative@).contains(node.kind@),
            spec_children_declarative(node.children@, index as int, kinds_view(declarative@)),
        decreases node.children@.len() - index,
    {
        let child = &node.children[index];
        assert(decreases_to!(*node => node.children@[index as int]));
        if child.named && !subtree_is_declarative(child, declarative) {
            proof {
                lemma_declarative_stop(node.children@, index as int + 1, node.children@.len() as int, kinds_view(declarative@));
            }
            return false;
        }
        index = index + 1;
    }
    true
}

/// Whether an identifier of the subtree, reached through named nodes,
/// spells `name`.
pub open spec fn spec_mentions_identifier(node: SyntaxNode, identifier: Seq<char>, source: Seq<u8>, name: Seq<u8>) -> bool
    decreases node, 1int,
{
    (node.kind@ == identifier && spec_span(source, node.start_byte, node.end_byte) == Some(name))
        || spec_children_mention(node.children@, node.children@.len() as int, identifier, source, name)
}

/// Whether one of the first `k` named children mentions `name`.
pub open spec fn spec_children_mention(children: Seq<SyntaxNode>, k: int, identifier: Seq<char>, source: Seq<u8>, name: Seq<u8>) -> bool
    decreases children, k,
{
    if k <= 0 || k > children.len() {
        false
    } else {
        spec_children_mention(children, k - 1, identifier, source, name)
            || (children[k - 1].named && spec_mentions_identifier(children[k - 1], identifier, source, name))
    }
}

proof fn lemma_mention_grows(children: Seq<SyntaxNode>, k: int, n: int, identifier: Seq<char>, source: Seq<u8>, name: Seq<u8>)
    requires
        0 <= k <= n <= children.len(),
        spec_children_mention(children, k, identifier, source, name),
    ensures
        spec_children_mention(children, n, identifier, source, name),
    decreases n - k,
{
    if k < n {
        lemma_mention_grows(children, k, n - 1, identifier, source, name);
    }
}

/// True when any identifier in `node`'s subtree equals `name`.
pub fn subtree_mentions_identifier(node: &SyntaxNode, identifier: &str, source: &[u8], name: &[u8]) -> (mentions: bool)
    ensures
        mentions == spec_mentions_identifier(*node, identifier@, source@, name@),
    decreases *node,
{
    if same_text(node.kind.as_str(), identifier) && span_is(source, node.start_byte, node.end_byte, name) {
        return true;
    }
    let mut index: usize = 0;
    while index < node.children.len()
        invariant
            index <= node.children@.len(),
            !(node.kind@ == identifier@ && spec_span(source@, node.start_byte, node.end_byte) == Some(name@)),
            !spec_children_mention(node.children@, index as int, identifier@, source@, name@),
        decreases node.children@.len() - index,
    {
        let child = &node.children[index];
        assert(decreases_to!(*node => node.children@[index as int]));
        if child.named && subtree_mentions_identifier(child, identifier, source, name) {
            proof {
                lemma_mention_grows(node.children@, index as int + 1, node.children@.len() as int, identifier@, source@, name@);
            }
            return true;
        }
        index = index + 1;
    }
    false
}

/// The bytes of the first identifier of a declaration: its declared name.
pub open spec fn spec_first_identifier_bytes(node: SyntaxNode, identifier: Seq<char>, source: Seq<u8>) -> Option<Seq<u8>> {
    match spec_outermost_kind(node, identifier) {
        Some(found) => spec_span(source, found.start_byte, found.end_byte),
        None => None,
    }
}

/// The declared name: the first identifier inside a declaration, since
/// type positions use distinct type-identifier kinds.
pub fn first_identifier_bytes<'s>(node: &SyntaxNode, identifier: &str, source: &'s [u8]) -> (name: Option<&'s [u8]>)
    ensures
        match name {
            Some(n) => spec_first_identifier_bytes(*node, identifier@, source@) == Some(n@),
            None => spec_first_identifier_bytes(*node, identifier@, source@) is None,
        },
{
    match outermost_kind(node, identifier) {
        Some(found) => if found.start_byte <= found.end_byte && found.end_byte <= source.len() {
            Some(vstd::slice::slice_subrange(source, found.start_byte, found.end_byte))
        } else {
            None
        },
        None => None,
    }
}

/// The returned expression mentions the bound name: the binding exists
/// only to hold the forwarded call's response.
pub open spec fn spec_return_reads_binding(binding: SyntaxNode, ret: SyntaxNode, grammar: GrammarView, source: Seq<u8>) -> bool {
    match spec_first_identifier_bytes(binding, grammar.identifier, source) {
        Some(name) => spec_mentions_identifier(ret, grammar.identifier, source, name),
        None => false,
    }
}

/// True when the returned expression mentions the bound name.
pub fn return_reads_binding(binding: &SyntaxNode, ret: &SyntaxNode, grammar: &ForwardingGrammar, source: &[u8]) -> (reads: bool)
    ensures
        reads == spec_return_reads_binding(*binding, *ret, grammar@, source@),
{
    match first_identifier_bytes(binding, grammar.identifier, source) {
        Some(name) => subtree_mentions_identifier(ret, grammar.identifier, source, name),
        None => false,
    }
}

/// The braced forms: `return <expr>;`, a bare forwarded call, or a binding
/// followed by a return that reads it.
pub open spec fn spec_block_shape_forwards(block: SyntaxNode, grammar: GrammarView, source: Seq<u8>) -> bool {
    let statements = spec_named_non_comment(block.children@);
    let declarative = grammar.declarative;
    if statements.len() == 1 {
        (statements[0].kind@ == grammar.ret || statements[0].kind@ == grammar.statement)
            && spec_subtree_is_declarative(statements[0], declarative)
    } else if statements.len() == 2 {
        &&& statements[0].kind@ == grammar.binding
        &&& statements[1].kind@ == grammar.ret
        &&& spec_subtree_is_declarative(statements[0], declarative)
        &&& spec_subtree_is_declarative(statements[1], declarative)
        &&& spec_return_reads_binding(statements[0], statements[1], grammar, source)
    } else {
        false
    }
}

/// The braced forms; anything longer has room for logic the proof has not
/// read, so it fails open.
pub fn block_shape_forwards(block: &SyntaxNode, grammar: &ForwardingGrammar, source: &[u8]) -> (forwards: bool)
    ensures
        forwards == spec_block_shape_forwards(*block, grammar@, source@),
{
    let statements = named_non_comment_children(block);
    let ghost sv = nodes_view(statements@);
    if statements.len() == 1 {
        let only = statements[0];
        assert(sv[0] == *only);
        (same_text(only.kind.as_str(), grammar.ret) || same_text(only.kind.as_str(), grammar.statement))
            && subtree_is_declarative(only, &grammar.declarative)
    } else if statements.len() == 2 {
        let binding = statements[0];
        let ret = statements[1];
        assert(sv[0] == *binding);
        assert(sv[1] == *ret);
        same_text(binding.kind.as_str(), grammar.binding) && same_text(ret.kind.as_str(), grammar.ret)
            && subtree_is_declarative(binding, &grammar.declarative) && subtree_is_declarative(ret, &grammar.declarative)
            && return_reads_binding(binding, ret, grammar, source)
    } else {
        false
    }
}

/// A body forwards as a single braced block of forwarding statements or a
/// bare declarative expression.
pub open spec fn spec_body_shape_forwards(body: SyntaxNode, grammar: GrammarView, source: Seq<u8>) -> bool {
    let content = spec_named_non_comment(body.children@);
    if content.len() != 1 {
        false
    } else if content[0].kind@ == grammar.block {
        spec_block_shape_forwards(content[0], grammar, source)
    } else {
        spec_subtree_is_declarative(content[0], grammar.declarative)
    }
}

/// Whether a member body has one of the forwarding shapes.
pub fn body_shape_forwards(body: &SyntaxNode, grammar: &ForwardingGrammar, source: &[u8]) -> (forwards: bool)
    ensures
        forwards == spec_body_shape_forwards(*body, grammar@, source@),
{
    let content = named_non_comment_children(body);
    let ghost cv = nodes_view(content@);
    if content.len() != 1 {
        return false;
    }
    let only = content[0];
    assert(cv[0] == *only);
    if same_text(only.kind.as_str(), grammar.block) {
        block_shape_forwards(only, grammar, source)
    } else {
        subtree_is_declarative(only, &grammar.declarative)
    }
}

/// The body bytes of a member whose body is proven to forward under
/// `grammar`: one of the forwarding shapes, and every call transport.
pub open spec fn spec_forwarding_body(member: SyntaxNode, container: SyntaxNode, grammar: GrammarView, source: Seq<u8>) -> Option<Seq<u8>> {
    match spec_outermost_kind(member, grammar.body) {
        Some(body) => if spec_body_shape_forwards(body, grammar, source)
            && spec_body_is_pure_delegation(body, container, member, grammar, source) {
            spec_span(source, body.start_byte, body.end_byte)
        } else {
            None
        },
        None => None,
    }
}

/// The forwarding body of a member in `language`: only Dart is wired, and
/// every other language is never proven to forward.
pub open spec fn spec_forwarding_result(member: SyntaxNode, container: SyntaxNode, language: Seq<char>, source: Seq<u8>) -> Option<Seq<u8>> {
    if language == "dart"@ {
        spec_forwarding_body(member, container, spec_dart_grammar(), source)
    } else {
        None
    }
}

/// Returns the member's body bytes when its body proves the forwarding
/// shape, with `container` supplying the instance fields delegation
/// resolves against; `None` when the member is not proven to forward.
/// The bytes, not a bare `bool`, let a caller compare two wrappers: two
/// that forward to the same route are a copy-paste bug that only their
/// bodies show.
pub fn forwarding_body<'s>(member: &SyntaxNode, container: &SyntaxNode, language: &str, source: &'s [u8]) -> (body: Option<&'s [u8]>)
    ensures
        match body {
            Some(bytes) => spec_forwarding_result(*member, *container, language@, source@) == Some(bytes@),
            None => spec_forwarding_result(*member, *container, language@, source@) is None,
        },
{
    let grammar = match forwarding_grammar(language) {
        Some(grammar) => grammar,
        None => return None,
    };
    let body = match outermost_kind(member, grammar.body) {
        Some(body) => body,
        None => return None,
    };
    if !body_shape_forwards(body, &grammar, source) {
        return None;
    }
    if !body_is_pure_delegation(body, container, member, &grammar, source) {
        return None;
    }
    if body.start_byte <= body.end_byte && body.end_byte <= source.len() {
        Some(vstd::slice::slice_subrange(source, body.start_byte, body.end_byte))
    } else {
        None
    }
}

/// Whether a named node of `kind` lies in the subtree, reached through
/// named nodes that are not comments.
pub open spec fn spec_holds_kind(node: SyntaxNode, kind: Seq<char>) -> bool
    decreases node, 1int,
{
    node.kind@ == kind || spec_children_hold_kind(node.children@, node.children@.len() as int, kind)
}

/// Whether one of the first `k` named, non-comment children holds `kind`.
pub open spec fn spec_children_hold_kind(children: Seq<SyntaxNode>, k: int, kind: Seq<char>) -> bool
    decreases children, k,
{
    if k <= 0 || k > children.len() {
        false
    } else {
        spec_children_hold_kind(children, k - 1, kind)
            || (children[k - 1].named && children[k - 1].kind@ != "comment"@ && spec_holds_kind(children[k - 1], kind))
    }
}

/// The position of a named, non-comment child holding `kind`.
proof fn lemma_holding_child(children: Seq<SyntaxNode>, k: int, kind: Seq<char>) -> (i: int)
    requires
        spec_children_hold_kind(children, k, kind),
    ensures
        0 <= i < k <= children.len(),
        children[i].named,
        children[i].kind@ != "comment"@,
        spec_holds_kind(children[i], kind),
    decreases k,
{
    if spec_children_hold_kind(children, k - 1, kind) {
        lemma_holding_child(children, k - 1, kind)
    } else {
        k - 1
    }
}

/// A named, non-comment child is among the statements a node lists.
proof fn lemma_listed_child(children: Seq<SyntaxNode>, i: int)
    requires
        0 <= i < children.len(),
        children[i].named,
        children[i].kind@ != "comment"@,
    ensures
        spec_named_non_comment(children).contains(children[i]),
    decreases children.len(),
{
    let last = children.len() - 1;
    if i < last {
        lemma_listed_child(children.drop_last(), i);
        let before = spec_named_non_comment(children.drop_last());
        let j = choose|j: int| 0 <= j < before.len() && before[j] == children.drop_last()[i];
        let listed = spec_named_non_comment(children);
        if children.last().named && children.last().kind@ != "comment"@ {
            assert(listed[j] == before[j]);
        } else {
            assert(listed[j] == before[j]);
        }
    } else {
        let before = spec_named_non_comment(children.drop_last());
        assert(spec_named_non_comment(children)[before.len() as int] == children[i]);
    }
}

/// A subtree holding a kind off the allowlist is not declarative.
proof fn lemma_foreign_kind_not_declarative(node: SyntaxNode, kind: Seq<char>, declarative: Seq<Seq<char>>)
    requires
        spec_holds_kind(node, kind),
        !declarative.contains(kind),
    ensures
        !spec_subtree_is_declarative(node, declarative),
    decreases node,
{
    if node.kind@ != kind && declarative.contains(node.kind@) {
        let n = node.children@.len() as int;
        let i = lemma_holding_child(node.children@, n, kind);
        assert(decreases_to!(node => node.children@[i]));
        lemma_foreign_kind_not_declarative(node.children@[i], kind, declarative);
        assert(!spec_children_declarative(node.children@, i + 1, declarative));
        if i + 1 < n {
            lemma_declarative_stop(node.children@, i + 1, n, declarative);
        }
    }
}

/// What the outermost search finds is of the kind searched for.
proof fn lemma_outermost_is_of_kind(node: SyntaxNode, kind: Seq<char>)
    requires
        spec_outermost_kind(node, kind) is Some,
    ensures
        spec_outermost_kind(node, kind).unwrap().kind@ == kind,
    decreases node, 1int,
{
    if node.kind@ != kind {
        lemma_outermost_children_of_kind(node.children@, 0, kind);
    }
}

proof fn lemma_outermost_children_of_kind(children: Seq<SyntaxNode>, k: int, kind: Seq<char>)
    requires
        spec_outermost_children(children, k, kind) is Some,
    ensures
        spec_outermost_children(children, k, kind).unwrap().kind@ == kind,
    decreases children, children.len() - k,
{
    if 0 <= k < children.len() {
        if children[k].named && spec_outermost_kind(children[k], kind) is Some {
            lemma_outermost_is_of_kind(children[k], kind);
        } else {
            lemma_outermost_children_of_kind(children, k + 1, kind);
        }
    }
}

/// Forwarding fails open: a member whose body holds, outside comments, a
/// node of any kind off the declarative allowlist (a branch, a loop,
/// arithmetic, mutation, a parse `ERROR`) is never proven to forward. The
/// body and block nodes are the two kinds the shape itself names.
pub proof fn lemma_computation_fails_open(member: SyntaxNode, container: SyntaxNode, source: Seq<u8>, kind: Seq<char>)
    requires
        spec_outermost_kind(member, spec_dart_grammar().body) is Some,
        spec_holds_kind(spec_outermost_kind(member, spec_dart_grammar().body).unwrap(), kind),
        !spec_dart_declarative().contains(kind),
        kind != spec_dart_grammar().body,
        kind != spec_dart_grammar().block,
    ensures
        spec_forwarding_result(member, container, "dart"@, source) is None,
{
    let grammar = spec_dart_grammar();
    let body = spec_outermost_kind(member, grammar.body).unwrap();
    let content = spec_named_non_comment(body.children@);
    lemma_outermost_is_of_kind(member, grammar.body);
    if content.len() == 1 {
        let i = lemma_holding_child(body.children@, body.children@.len() as int, kind);
        lemma_listed_child(body.children@, i);
        let c = body.children@[i];
        assert(content[0] == c);
        if c.kind@ == grammar.block {
            let statements = spec_named_non_comment(c.children@);
            let k = lemma_holding_child(c.children@, c.children@.len() as int, kind);
            lemma_listed_child(c.children@, k);
            let s = c.children@[k];
            lemma_foreign_kind_not_declarative(s, kind, grammar.declarative);
            let j = choose|j: int| 0 <= j < statements.len() && statements[j] == s;
            assert(!spec_block_shape_forwards(c, grammar, source));
        } else {
            lemma_foreign_kind_not_declarative(c, kind, grammar.declarative);
        }
        assert(!spec_body_shape_forwards(body, grammar, source));
    }
}

} // verus!
