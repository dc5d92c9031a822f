//! Where a wrapper's data goes.
//!
//! The body shape says a member's statements look declarative; this module
//! says what they do. A call delegates when its receiver is a collaborator:
//! an instance field of the container or a parameter of the member. A
//! call that does not delegate is still transport when it consumes only
//! what a delegation produced: it reaches a delegation, and every argument
//! it passes derives from one. A literal, a member parameter or a bare
//! sibling reference in argument position is the class computing on its
//! own inputs, which is the duplication worth reporting.

use vstd::prelude::*;

use super::{
    first_identifier_bytes, named_non_comment_children, outermost_kind, spec_first_identifier_bytes,
    spec_mentions_identifier, spec_named_non_comment, spec_outermost_kind, subtree_mentions_identifier,
    ForwardingGrammar, GrammarView,
};
use crate::cluster_filters::node_search::{deref_node, node_contains_kind, nodes_view, spec_contains_kind, spec_span};
use crate::cluster_filters::{kind_in, kinds_view, SyntaxNode};
use crate::text::{same_text, slice_listed, slices_view};

verus! {

/// The named children among `children`, in order.
pub open spec fn spec_named_nodes(children: Seq<SyntaxNode>) -> Seq<SyntaxNode>
    decreases children.len(),
{
    if children.len() == 0 {
        seq![]
    } else {
        let before = spec_named_nodes(children.drop_last());
        if children.last().named { before.push(children.last()) } else { before }
    }
}

/// The named children of a node, in order.
pub fn named_nodes(node: &SyntaxNode) -> (found: Vec<&SyntaxNode>)
    ensures
        nodes_view(found@) == spec_named_nodes(node.children@),
{
    let mut found: Vec<&SyntaxNode> = Vec::new();
    let mut index: usize = 0;
    while index < node.children.len()
        invariant
            index <= node.children@.len(),
            nodes_view(found@) == spec_named_nodes(node.children@.take(index as int)),
        decreases node.children@.len() - index,
    {
        let child = &node.children[index];
        assert(node.children@.take(index as int + 1).drop_last() =~= node.children@.take(index as int));
        if child.named {
            let ghost before = nodes_view(found@);
            found.push(child);
            assert(nodes_view(found@) =~= before.push(*child));
        }
        index = index + 1;
    }
    assert(node.children@.take(node.children@.len() as int) =~= node.children@);
    found
}

/// The first of a list of nodes.
pub open spec fn spec_first_of(nodes: Seq<SyntaxNode>) -> Option<SyntaxNode> {
    if nodes.len() == 0 { None } else { Some(nodes[0]) }
}

/// The receiver of a member-access call: the callee (seen through an
/// instantiation) must be a member access of exactly two named children,
/// receiver and member, with an identifier as the receiver. A self-call
/// and a chained access carry no such receiver.
pub open spec fn spec_member_access_receiver(call: SyntaxNode, grammar: GrammarView) -> Option<SyntaxNode> {
    let unwrapped = match spec_first_of(spec_named_nodes(call.children@)) {
        Some(first) => if first.kind@ == "instantiation_expression"@ {
            spec_first_of(spec_named_nodes(first.children@))
        } else {
            Some(first)
        },
        None => None,
    };
    match unwrapped {
        Some(callee) => {
            let parts = spec_named_nodes(callee.children@);
            if grammar.member_access.contains(callee.kind@) && parts.len() == 2 && parts[0].kind@ == grammar.identifier {
                Some(parts[0])
            } else {
                None
            }
        },
        None => None,
    }
}

/// The receiver of a member-access call, if it has one.
pub fn member_access_receiver<'a>(call: &'a SyntaxNode, grammar: &ForwardingGrammar) -> (receiver: Option<&'a SyntaxNode>)
    ensures
        deref_node(receiver) == spec_member_access_receiver(*call, grammar@),
{
    let named = named_nodes(call);
    let ghost nv = nodes_view(named@);
    if named.len() == 0 {
        return None;
    }
    let first = named[0];
    assert(nv[0] == *first);
    let callee = if same_text(first.kind.as_str(), "instantiation_expression") {
        let inner = named_nodes(first);
        let ghost iv = nodes_view(inner@);
        if inner.len() == 0 {
            return None;
        }
        assert(iv[0] == *inner[0]);
        inner[0]
    } else {
        first
    };
    if !kind_in(callee.kind.as_str(), &grammar.member_access) {
        return None;
    }
    let parts = named_nodes(callee);
    let ghost pv = nodes_view(parts@);
    if parts.len() != 2 {
        return None;
    }
    assert(pv[0] == *parts[0]);
    if same_text(parts[0].kind.as_str(), grammar.identifier) {
        Some(parts[0])
    } else {
        None
    }
}

/// One call delegates when its receiver's text is a collaborator's name.
pub open spec fn spec_is_delegating_call(node: SyntaxNode, grammar: GrammarView, source: Seq<u8>, collaborators: Seq<Seq<u8>>) -> bool {
    node.kind@ == grammar.call && match spec_member_access_receiver(node, grammar) {
        Some(receiver) => match spec_span(source, receiver.start_byte, receiver.end_byte) {
            Some(name) => collaborators.contains(name),
            None => false,
        },
        None => false,
    }
}

/// Whether a call hands its data to a collaborator. A bare helper call, a
/// self-call and a static factory call all fail: their data never leaves
/// the class.
pub fn is_delegating_call(node: &SyntaxNode, grammar: &ForwardingGrammar, source: &[u8], collaborators: &Vec<&[u8]>) -> (delegates: bool)
    ensures
        delegates == spec_is_delegating_call(*node, grammar@, source@, slices_view(collaborators@)),
{
    if !same_text(node.kind.as_str(), grammar.call) {
        return false;
    }
    match member_access_receiver(node, grammar) {
        Some(receiver) => if receiver.start_byte <= receiver.end_byte && receiver.end_byte <= source.len() {
            let name = vstd::slice::slice_subrange(source, receiver.start_byte, receiver.end_byte);
            slice_listed(collaborators, name)
        } else {
            false
        },
        None => false,
    }
}

/// Whether a call in the subtree, reached through named nodes, delegates.
pub open spec fn spec_subtree_delegates(node: SyntaxNode, grammar: GrammarView, source: Seq<u8>, collaborators: Seq<Seq<u8>>) -> bool
    decreases node, 1int,
{
    spec_is_delegating_call(node, grammar, source, collaborators)
        || spec_children_delegate(node.children@, node.children@.len() as int, grammar, source, collaborators)
}

/// Whether one of the first `k` named children holds a delegating call.
pub open spec fn spec_children_delegate(
    children: Seq<SyntaxNode>,
    k: int,
    grammar: GrammarView,
    source: Seq<u8>,
    collaborators: Seq<Seq<u8>>,
) -> bool
    decreases children, k,
{
    if k <= 0 || k > children.len() {
        false
    } else {
        spec_children_delegate(children, k - 1, grammar, source, collaborators)
            || (children[k - 1].named && spec_subtree_delegates(children[k - 1], grammar, source, collaborators))
    }
}

proof fn lemma_delegation_grows(
    children: Seq<SyntaxNode>,
    k: int,
    n: int,
    grammar: GrammarView,
    source: Seq<u8>,
    collaborators: Seq<Seq<u8>>,
)
    requires
        0 <= k <= n <= children.len(),
        spec_children_delegate(children, k, grammar, source, collaborators),
    ensures
        spec_children_delegate(children, n, grammar, source, collaborators),
    decreases n - k,
{
    if k < n {
        lemma_delegation_grows(children, k, n - 1, grammar, source, collaborators);
    }
}

/// True when any call in the subtree delegates to a collaborator.
pub fn subtree_delegates(node: &SyntaxNode, grammar: &ForwardingGrammar, source: &[u8], collaborators: &Vec<&[u8]>) -> (delegates: bool)
    ensures
        delegates == spec_subtree_delegates(*node, grammar@, source@, slices_view(collaborators@)),
    decreases *node,
{
    if is_delegating_call(node, grammar, source, collaborators) {
        return true;
    }
    let mut index: usize = 0;
    while index < node.children.len()
        invariant
            index <= node.children@.len(),
            !spec_is_delegating_call(*node, grammar@, source@, slices_view(collaborators@)),
            !spec_children_delegate(node.children@, index as int, grammar@, source@, slices_view(collaborators@)),
        decreases node.children@.len() - index,
    {
        let child = &node.children[index];
        assert(decreases_to!(*node => node.children@[index as int]));
        if child.named && subtree_delegates(child, grammar, source, collaborators) {
            proof {
                lemma_delegation_grows(
                    node.children@,
                    index as int + 1,
                    node.children@.len() as int,
                    grammar@,
                    source@,
                    slices_view(collaborators@),
                );
            }
            return true;
        }
        index = index + 1;
    }
    false
}

/// Every node of the subtree whose kind is listed, depth first, the node
/// before its named children.
pub open spec fn spec_collect_kinds(node: SyntaxNode, kinds: Seq<Seq<char>>) -> Seq<SyntaxNode>
    decreases node, 1int,
{
    let here: Seq<SyntaxNode> = if kinds.contains(node.kind@) { seq![node] } else { seq![] };
    here + spec_collect_children(node.children@, node.children@.len() as int, kinds)
}

/// What the walk collects from the first `k` named children.
pub open spec fn spec_collect_children(children: Seq<SyntaxNode>, k: int, kinds: Seq<Seq<char>>) -> Seq<SyntaxNode>
    decreases children, k,
{
    if k <= 0 || k > children.len() {
        seq![]
    } else {
        let tail: Seq<SyntaxNode> = if children[k - 1].named { spec_collect_kinds(children[k - 1], kinds) } else { seq![] };
        spec_collect_children(children, k - 1, kinds) + tail
    }
}

/// Depth-first collection of every named node whose kind is in `kinds`.
pub fn collect_kinds<'a>(node: &'a SyntaxNode, kinds: &Vec<&'static str>, out: &mut Vec<&'a SyntaxNode>)
    ensures
        nodes_view(final(out)@) == nodes_view(old(out)@) + spec_collect_kinds(*node, kinds_view(kinds@)),
    decreases *node,
{
    let ghost start = nodes_view(out@);
    let ghost kv = kinds_view(kinds@);
    let ghost here: Seq<SyntaxNode> = if kv.contains(node.kind@) { seq![*node] } else { seq![] };
    if kind_in(node.kind.as_str(), kinds) {
        out.push(node);
    }
    assert(nodes_view(out@) =~= start + here);
    let mut index: usize = 0;
    while index < node.children.len()
        invariant
            index <= node.children@.len(),
            kv == kinds_view(kinds@),
            here == (if kv.contains(node.kind@) { seq![*node] } else { seq![] }),
            nodes_view(out@) == start + here + spec_collect_children(node.children@, index as int, kv),
        decreases node.children@.len() - index,
    {
        let child = &node.children[index];
        assert(decreases_to!(*node => node.children@[index as int]));
        let ghost before = nodes_view(out@);
        if child.named {
            collect_kinds(child, kinds, out);
        }
        assert(nodes_view(out@) =~= start + here + spec_collect_children(node.children@, index as int + 1, kv));
        index = index + 1;
    }
    assert(start + here + spec_collect_children(node.children@, node.children@.len() as int, kv)
        =~= start + spec_collect_kinds(*node, kv));
}

/// The field-declaring nodes among the first `k` children of a container:
/// children with no body of their own, so locals inside sibling methods
/// never count.
pub open spec fn spec_field_declarations(children: Seq<SyntaxNode>, k: int, grammar: GrammarView) -> Seq<SyntaxNode>
    decreases k,
{
    if k <= 0 || k > children.len() {
        seq![]
    } else {
        let sibling = children[k - 1];
        let tail: Seq<SyntaxNode> = if sibling.named && !spec_contains_kind(sibling, grammar.body) {
            spec_collect_kinds(sibling, grammar.field_names)
        } else {
            seq![]
        };
        spec_field_declarations(children, k - 1, grammar) + tail
    }
}

/// Collects the field-declaring nodes of a container.
pub fn collect_field_declarations<'a>(container: &'a SyntaxNode, grammar: &ForwardingGrammar, out: &mut Vec<&'a SyntaxNode>)
    ensures
        nodes_view(final(out)@) == nodes_view(old(out)@)
            + spec_field_declarations(container.children@, container.children@.len() as int, grammar@),
{
    let ghost start = nodes_view(out@);
    let mut index: usize = 0;
    while index < container.children.len()
        invariant
            index <= container.children@.len(),
            nodes_view(out@) == start + spec_field_declarations(container.children@, index as int, grammar@),
        decreases container.children@.len() - index,
    {
        let sibling = &container.children[index];
        if sibling.named && !node_contains_kind(sibling, grammar.body) {
            collect_kinds(sibling, &grammar.field_names, out);
        }
        assert(nodes_view(out@) =~= start + spec_field_declarations(container.children@, index as int + 1, grammar@));
        index = index + 1;
    }
}

/// The names the declarations declare, in order; a declaration without an
/// identifier names nothing.
pub open spec fn spec_declared_names(declarations: Seq<SyntaxNode>, identifier: Seq<char>, source: Seq<u8>) -> Seq<Seq<u8>>
    decreases declarations.len(),
{
    if declarations.len() == 0 {
        seq![]
    } else {
        let before = spec_declared_names(declarations.drop_last(), identifier, source);
        match spec_first_identifier_bytes(declarations.last(), identifier, source) {
            Some(name) => before.push(name),
            None => before,
        }
    }
}

/// The declared name of each declaration that has one.
pub fn declared_names<'s>(declarations: &Vec<&SyntaxNode>, identifier: &str, source: &'s [u8]) -> (names: Vec<&'s [u8]>)
    ensures
        slices_view(names@) == spec_declared_names(nodes_view(declarations@), identifier@, source@),
{
    let ghost dv = nodes_view(declarations@);
    let mut names: Vec<&'s [u8]> = Vec::new();
    let mut index: usize = 0;
    while index < declarations.len()
        invariant
            index <= declarations@.len(),
            dv == nodes_view(declarations@),
            slices_view(names@) == spec_declared_names(dv.take(index as int), identifier@, source@),
        decreases declarations@.len() - index,
    {
        assert(dv.take(index as int + 1).drop_last() =~= dv.take(index as int));
        assert(dv.take(index as int + 1).last() == *declarations[index as int]);
        match first_identifier_bytes(declarations[index], identifier, source) {
            Some(name) => {
                let ghost before = slices_view(names@);
                names.push(name);
                assert(slices_view(names@) =~= before.push(name@));
            },
            None => {},
        }
        index = index + 1;
    }
    assert(dv.take(dv.len() as int) =~= dv);
    names
}

/// The declarations of the names a member may hand data to: the
/// container's instance fields and the member's own parameters.
pub open spec fn spec_collaborator_declarations(container: SyntaxNode, member: SyntaxNode, grammar: GrammarView) -> Seq<SyntaxNode> {
    let parameters: Seq<SyntaxNode> = match spec_outermost_kind(member, grammar.parameters) {
        Some(list) => spec_collect_kinds(list, seq![grammar.parameter]),
        None => seq![],
    };
    spec_field_declarations(container.children@, container.children@.len() as int, grammar) + parameters
}

/// The names a member may legitimately hand data to.
pub open spec fn spec_collaborator_names(container: SyntaxNode, member: SyntaxNode, grammar: GrammarView, source: Seq<u8>) -> Seq<Seq<u8>> {
    spec_declared_names(spec_collaborator_declarations(container, member, grammar), grammar.identifier, source)
}

/// Names the member may legitimately hand data to: the container's
/// instance fields and the member's own parameters.
pub fn collaborator_names<'s>(container: &SyntaxNode, member: &SyntaxNode, grammar: &ForwardingGrammar, source: &'s [u8]) -> (names: Vec<&'s [u8]>)
    ensures
        slices_view(names@) == spec_collaborator_names(*container, *member, grammar@, source@),
{
    let mut declarations: Vec<&SyntaxNode> = Vec::new();
    collect_field_declarations(container, grammar, &mut declarations);
    let ghost fields = nodes_view(declarations@);
    match outermost_kind(member, grammar.parameters) {
        Some(parameters) => {
            let kinds = vec![grammar.parameter];
            assert(kinds_view(kinds@) =~= seq![grammar@.parameter]);
            collect_kinds(parameters, &kinds, &mut declarations);
        },
        None => {
            assert(fields =~= fields + Seq::<SyntaxNode>::empty());
        },
    }
    assert(nodes_view(declarations@) =~= spec_collaborator_declarations(*container, *member, grammar@));
    declared_names(&declarations, grammar.identifier, source)
}

/// The bindings whose initialiser reaches a collaborator.
pub open spec fn spec_delegating_bindings(
    bindings: Seq<SyntaxNode>,
    grammar: GrammarView,
    source: Seq<u8>,
    collaborators: Seq<Seq<u8>>,
) -> Seq<SyntaxNode>
    decreases bindings.len(),
{
    if bindings.len() == 0 {
        seq![]
    } else {
        let before = spec_delegating_bindings(bindings.drop_last(), grammar, source, collaborators);
        if spec_subtree_delegates(bindings.last(), grammar, source, collaborators) {
            before.push(bindings.last())
        } else {
            before
        }
    }
}

/// Names that hold data a delegation produced: every parameter declared
/// inside the body (a callback handed to a delegated collection receives
/// its elements), then every local binding whose initialiser reaches a
/// collaborator.
pub open spec fn spec_delegated_names(body: SyntaxNode, grammar: GrammarView, source: Seq<u8>, collaborators: Seq<Seq<u8>>) -> Seq<Seq<u8>> {
    let parameters = spec_collect_kinds(body, seq![grammar.parameter]);
    let bindings = spec_collect_kinds(body, seq![grammar.binding]);
    spec_declared_names(
        parameters + spec_delegating_bindings(bindings, grammar, source, collaborators),
        grammar.identifier,
        source,
    )
}

/// Names that hold data a delegation already produced. The member's own
/// parameter list sits outside the body and is never collected here.
pub fn delegated_names<'s>(body: &SyntaxNode, grammar: &ForwardingGrammar, source: &'s [u8], collaborators: &Vec<&[u8]>) -> (names: Vec<&'s [u8]>)
    ensures
        slices_view(names@) == spec_delegated_names(*body, grammar@, source@, slices_view(collaborators@)),
{
    let ghost cv = slices_view(collaborators@);
    let mut declarations: Vec<&SyntaxNode> = Vec::new();
    let parameter_kinds = vec![grammar.parameter];
    assert(kinds_view(parameter_kinds@) =~= seq![grammar@.parameter]);
    collect_kinds(body, &parameter_kinds, &mut declarations);
    let mut bindings: Vec<&SyntaxNode> = Vec::new();
    let binding_kinds = vec![grammar.binding];
    assert(kinds_view(binding_kinds@) =~= seq![grammar@.binding]);
    collect_kinds(body, &binding_kinds, &mut bindings);
    assert(nodes_view(bindings@) =~= seq![] + spec_collect_kinds(*body, seq![grammar@.binding]));
    let ghost parameters = nodes_view(declarations@);
    assert(parameters =~= spec_collect_kinds(*body, seq![grammar@.parameter]));
    let ghost bv = nodes_view(bindings@);
    assert(bv.take(0) =~= Seq::<SyntaxNode>::empty());
    assert(nodes_view(declarations@) =~= parameters + spec_delegating_bindings(bv.take(0), grammar@, source@, cv));
    let mut index: usize = 0;
    while index < bindings.len()
        invariant
            index <= bindings@.len(),
            bv == nodes_view(bindings@),
            cv == slices_view(collaborators@),
            nodes_view(declarations@) == parameters + spec_delegating_bindings(bv.take(index as int), grammar@, source@, cv),
        decreases bindings@.len() - index,
    {
        assert(bv.take(index as int + 1).drop_last() =~= bv.take(index as int));
        assert(bv.take(index as int + 1).last() == *bindings[index as int]);
        if subtree_delegates(bindings[index], grammar, source, collaborators) {
            let ghost before = nodes_view(declarations@);
            declarations.push(bindings[index]);
            assert(nodes_view(declarations@) =~= before.push(*bindings[index as int]));
        }
        index = index + 1;
    }
    assert(bv.take(bv.len() as int) =~= bv);
    declared_names(&declarations, grammar.identifier, source)
}

/// The first node of `kind` among `nodes` from position `k` on.
pub open spec fn spec_find_kind(nodes: Seq<SyntaxNode>, k: int, kind: Seq<char>) -> Option<SyntaxNode>
    decreases nodes.len() - k,
{
    if k < 0 || k >= nodes.len() {
        None
    } else if nodes[k].kind@ == kind {
        Some(nodes[k])
    } else {
        spec_find_kind(nodes, k + 1, kind)
    }
}

/// The argument expressions of a call, comments removed.
pub open spec fn spec_call_arguments(call: SyntaxNode, grammar: GrammarView) -> Seq<SyntaxNode> {
    match spec_find_kind(spec_named_nodes(call.children@), 0, grammar.arguments) {
        Some(arguments) => spec_named_non_comment(arguments.children@),
        None => seq![],
    }
}

/// The argument expressions of a call, comments removed.
pub fn call_arguments<'a>(call: &'a SyntaxNode, grammar: &ForwardingGrammar) -> (arguments: Vec<&'a SyntaxNode>)
    ensures
        nodes_view(arguments@) == spec_call_arguments(*call, grammar@),
{
    let named = named_nodes(call);
    let ghost nv = nodes_view(named@);
    let mut index: usize = 0;
    while index < named.len()
        invariant
            index <= named@.len(),
            nv == nodes_view(named@),
            nv == spec_named_nodes(call.children@),
            spec_find_kind(nv, 0, grammar@.arguments) == spec_find_kind(nv, index as int, grammar@.arguments),
        decreases named@.len() - index,
    {
        assert(nv[index as int] == *named[index as int]);
        if same_text(named[index].kind.as_str(), grammar.arguments) {
            assert(spec_find_kind(nv, index as int, grammar@.arguments) == Some(nv[index as int]));
            return named_non_comment_children(named[index]);
        }
        index = index + 1;
    }
    Vec::new()
}

/// The subtree reaches a delegation: it holds a delegating call, or
/// mentions a name already holding delegated data.
pub open spec fn spec_derives_from_delegation(
    node: SyntaxNode,
    grammar: GrammarView,
    source: Seq<u8>,
    collaborators: Seq<Seq<u8>>,
    delegated: Seq<Seq<u8>>,
) -> bool {
    spec_subtree_delegates(node, grammar, source, collaborators)
        || exists|i: int| 0 <= i < delegated.len() && spec_mentions_identifier(node, grammar.identifier, source, #[trigger] delegated[i])
}

/// True when the subtree reaches a delegation.
pub fn derives_from_delegation(
    node: &SyntaxNode,
    grammar: &ForwardingGrammar,
    source: &[u8],
    collaborators: &Vec<&[u8]>,
    delegated: &Vec<&[u8]>,
) -> (derives: bool)
    ensures
        derives == spec_derives_from_delegation(*node, grammar@, source@, slices_view(collaborators@), slices_view(delegated@)),
{
    if subtree_delegates(node, grammar, source, collaborators) {
        return true;
    }
    let ghost dv = slices_view(delegated@);
    let mut index: usize = 0;
    while index < delegated.len()
        invariant
            index <= delegated@.len(),
            dv == slices_view(delegated@),
            forall|j: int| 0 <= j < index ==> !spec_mentions_identifier(*node, grammar@.identifier, source@, #[trigger] dv[j]),
        decreases delegated@.len() - index,
    {
        assert(dv[index as int] == delegated[index as int]@);
        if subtree_mentions_identifier(node, grammar.identifier, source, delegated[index]) {
            return true;
        }
        index = index + 1;
    }
    false
}

/// A call is transport when it delegates, or when it exists only to
/// consume delegated data: it reaches a delegation, and every argument it
/// passes derives from one.
pub open spec fn spec_call_is_transport(
    call: SyntaxNode,
    grammar: GrammarView,
    source: Seq<u8>,
    collaborators: Seq<Seq<u8>>,
    delegated: Seq<Seq<u8>>,
) -> bool {
    let arguments = spec_call_arguments(call, grammar);
    spec_is_delegating_call(call, grammar, source, collaborators) || (
        spec_derives_from_delegation(call, grammar, source, collaborators, delegated)
        && forall|i: int| 0 <= i < arguments.len()
            ==> spec_derives_from_delegation(#[trigger] arguments[i], grammar, source, collaborators, delegated)
    )
}

/// Whether a call is transport. The reach test is what rejects a bare
/// `helper()` that reads nothing the client returned.
pub fn call_is_transport(
    call: &SyntaxNode,
    grammar: &ForwardingGrammar,
    source: &[u8],
    collaborators: &Vec<&[u8]>,
    delegated: &Vec<&[u8]>,
) -> (transport: bool)
    ensures
        transport == spec_call_is_transport(*call, grammar@, source@, slices_view(collaborators@), slices_view(delegated@)),
{
    if is_delegating_call(call, grammar, source, collaborators) {
        return true;
    }
    if !derives_from_delegation(call, grammar, source, collaborators, delegated) {
        return false;
    }
    let arguments = call_arguments(call, grammar);
    let ghost av = nodes_view(arguments@);
    let mut index: usize = 0;
    while index < arguments.len()
        invariant
            index <= arguments@.len(),
            av == nodes_view(arguments@),
            av == spec_call_arguments(*call, grammar@),
            !spec_is_delegating_call(*call, grammar@, source@, slices_view(collaborators@)),
            forall|j: int| 0 <= j < index ==> spec_derives_from_delegation(
                #[trigger] av[j], grammar@, source@, slices_view(collaborators@), slices_view(delegated@)),
        decreases arguments@.len() - index,
    {
        assert(av[index as int] == *arguments[index as int]);
        if !derives_from_delegation(arguments[index], grammar, source, collaborators, delegated) {
            assert(!spec_derives_from_delegation(av[index as int], grammar@, source@, slices_view(collaborators@), slices_view(delegated@)));
            assert(!spec_is_delegating_call(*call, grammar@, source@, slices_view(collaborators@)));
            return false;
        }
        index = index + 1;
    }
    true
}

/// Every call the body makes is transport and at least one delegates to
/// collaborator state.
pub open spec fn spec_body_is_pure_delegation(
    body: SyntaxNode,
    container: SyntaxNode,
    member: SyntaxNode,
    grammar: GrammarView,
    source: Seq<u8>,
) -> bool {
    let collaborators = spec_collaborator_names(container, member, grammar, source);
    let delegated = spec_delegated_names(body, grammar, source, collaborators);
    let calls = spec_collect_kinds(body, seq![grammar.call]);
    &&& exists|i: int| 0 <= i < calls.len() && #[trigger] spec_is_delegating_call(calls[i], grammar, source, collaborators)
    &&& forall|i: int| 0 <= i < calls.len() ==> #[trigger] spec_call_is_transport(calls[i], grammar, source, collaborators, delegated)
}

/// True when every call the body makes is transport: at least one
/// delegates to collaborator state, and each of the others exists only to
/// consume what a delegation produced.
pub fn body_is_pure_delegation(
    body: &SyntaxNode,
    container: &SyntaxNode,
    member: &SyntaxNode,
    grammar: &ForwardingGrammar,
    source: &[u8],
) -> (pure: bool)
    ensures
        pure == spec_body_is_pure_delegation(*body, *container, *member, grammar@, source@),
{
    let collaborators = collaborator_names(container, member, grammar, source);
    let delegated = delegated_names(body, grammar, source, &collaborators);
    let ghost cv = slices_view(collaborators@);
    let ghost dv = slices_view(delegated@);
    let mut calls: Vec<&SyntaxNode> = Vec::new();
    let call_kinds = vec![grammar.call];
    assert(kinds_view(call_kinds@) =~= seq![grammar@.call]);
    collect_kinds(body, &call_kinds, &mut calls);
    let ghost calls_view = nodes_view(calls@);
    assert(calls_view =~= spec_collect_kinds(*body, seq![grammar@.call]));
    let mut any_delegates = false;
    let mut index: usize = 0;
    while index < calls.len()
        invariant
            index <= calls@.len(),
            calls_view == nodes_view(calls@),
            cv == slices_view(collaborators@),
            dv == slices_view(delegated@),
            cv == spec_collaborator_names(*container, *member, grammar@, source@),
            dv == spec_delegated_names(*body, grammar@, source@, cv),
            calls_view == spec_collect_kinds(*body, seq![grammar@.call]),
            any_delegates == exists|j: int| 0 <= j < index && #[trigger] spec_is_delegating_call(calls_view[j], grammar@, source@, cv),
            forall|j: int| 0 <= j < index ==> #[trigger] spec_call_is_transport(calls_view[j], grammar@, source@, cv, dv),
        decreases calls@.len() - index,
    {
        assert(calls_view[index as int] == *calls[index as int]);
        if !call_is_transport(calls[index], grammar, source, &collaborators, &delegated) {
            assert(!spec_call_is_transport(calls_view[index as int], grammar@, source@, cv, dv));
            assert(cv == spec_collaborator_names(*container, *member, grammar@, source@));
            assert(dv == spec_delegated_names(*body, grammar@, source@, cv));
            return false;
        }
        if is_delegating_call(calls[index], grammar, source, &collaborators) {
            any_delegates = true;
        }
        index = index + 1;
    }
    any_delegates
}

} // verus!
