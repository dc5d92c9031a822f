//! The one function a member view is about, and what the polymorphic
//! decision reads from it: its declared name, the bases its enclosing type
//! declares, its override marker, and whether it is the abstract
//! declaration of the contract itself.

use vstd::prelude::*;

use super::decorator_lines::{python_abstract_method, spec_python_abstract_method};
use super::OwnedSubject;
use crate::ast::ByteRange;
use crate::cluster_filters::contract_index::declarers::{
    container_kinds, declared_bases, function_name_node, spec_container_kinds, spec_declared_bases,
    spec_function_name_node,
};
use crate::cluster_filters::declaration_family::{holds_placed_child, spec_is_placed_child};
use crate::cluster_filters::body_shape::{body_digest, spec_body_digest};
use crate::cluster_filters::node_search::{deref_node, enclosing_kind, nodes_view, spec_enclosing_in, spec_span};
use crate::cluster_filters::override_marker::{
    carries_override_marker, child_by_field_name, spec_carries_override_marker, spec_child_by_field,
};
use crate::cluster_filters::snippets::{parse_snippet, spec_plugin_parse, Snippet};
use crate::cluster_filters::syntax::{sole_named_child, spec_sole_named};
use crate::cluster_filters::{function_kinds, kind_in, kinds_view, spec_function_kinds, SyntaxNode};
use crate::text::{byte_strings_view, same_text};

verus! {

/// The walk from `node` down to the node placed at `target`: `None` when
/// `target` is not below `node`, else the deepest ancestor of `target`
/// whose kind is listed, `best` standing for the ones above `node`.
pub open spec fn spec_container_walk(node: SyntaxNode, target: SyntaxNode, kinds: Seq<Seq<char>>, best: Option<SyntaxNode>) -> Option<Option<SyntaxNode>>
    decreases node, 1int,
{
    let here = if kinds.contains(node.kind@) { Some(node) } else { best };
    if exists|i: int| 0 <= i < node.children@.len() && spec_is_placed_child(#[trigger] node.children@[i], target) {
        Some(here)
    } else {
        spec_container_children(node.children@, 0, target, kinds, here)
    }
}

/// The walk continued through the named children from position `k` on.
pub open spec fn spec_container_children(
    children: Seq<SyntaxNode>,
    k: int,
    target: SyntaxNode,
    kinds: Seq<Seq<char>>,
    best: Option<SyntaxNode>,
) -> Option<Option<SyntaxNode>>
    decreases children, children.len() - k,
{
    if k < 0 || k >= children.len() {
        None
    } else {
        let found = if children[k].named { spec_container_walk(children[k], target, kinds, best) } else { None };
        match found {
            Some(result) => Some(result),
            None => spec_container_children(children, k + 1, target, kinds, best),
        }
    }
}

/// The nearest type declaration `function` is declared inside; `None` for
/// a free function, which nothing forces a signature on.
pub open spec fn spec_enclosing_container(root: SyntaxNode, function: SyntaxNode) -> Option<SyntaxNode> {
    match spec_container_walk(root, function, spec_container_kinds(), None) {
        Some(found) => found,
        None => None,
    }
}

/// The optional model of a nested optional reference.
pub open spec fn deref_walk(found: Option<Option<&SyntaxNode>>) -> Option<Option<SyntaxNode>> {
    match found {
        Some(inner) => Some(deref_node(inner)),
        None => None,
    }
}

fn container_walk<'a>(node: &'a SyntaxNode, target: &SyntaxNode, kinds: &Vec<&'static str>, best: Option<&'a SyntaxNode>) -> (found: Option<Option<&'a SyntaxNode>>)
    ensures
        deref_walk(found) == spec_container_walk(*node, *target, kinds_view(kinds@), deref_node(best)),
    decreases *node,
{
    let here = if kind_in(node.kind.as_str(), kinds) { Some(node) } else { best };
    if holds_placed_child(node, target) {
        return Some(here);
    }
    let mut index: usize = 0;
    while index < node.children.len()
        invariant
            index <= node.children@.len(),
            deref_node(here) == (if kinds_view(kinds@).contains(node.kind@) { Some(*node) } else { deref_node(best) }),
            !(exists|i: int| 0 <= i < node.children@.len() && spec_is_placed_child(#[trigger] node.children@[i], *target)),
            spec_container_children(node.children@, 0, *target, kinds_view(kinds@), deref_node(here))
                == spec_container_children(node.children@, index as int, *target, kinds_view(kinds@), deref_node(here)),
        decreases node.children@.len() - index,
    {
        let child = &node.children[index];
        assert(decreases_to!(*node => node.children@[index as int]));
        if child.named {
            match container_walk(child, target, kinds, here) {
                Some(result) => return Some(result),
                None => {},
            }
        }
        index = index + 1;
    }
    None
}

/// The nearest type declaration `function` is declared inside, found by
/// walking down from `root` to the node at `function`'s place.
pub fn enclosing_container<'a>(root: &'a SyntaxNode, function: &SyntaxNode) -> (container: Option<&'a SyntaxNode>)
    ensures
        deref_node(container) == spec_enclosing_container(*root, *function),
{
    let kinds = container_kinds();
    match container_walk(root, function, &kinds, None) {
        Some(found) => found,
        None => None,
    }
}

/// Kinds that carry no behaviour of their own inside a declaration shell:
/// imports, the class name and superclass list, bare strings, comments,
/// and in Dart the superclass, interfaces and annotations of a class.
pub open spec fn spec_is_inert_declaration_kind(kind: Seq<char>) -> bool {
    ||| kind == "import_statement"@
    ||| kind == "import_from_statement"@
    ||| kind == "future_import_statement"@
    ||| kind == "identifier"@
    ||| kind == "argument_list"@
    ||| kind == "string"@
    ||| kind == "comment"@
    ||| kind == "import_or_export"@
    ||| kind == "superclass"@
    ||| kind == "interfaces"@
    ||| kind == "annotation"@
}

/// Whether a node kind carries no behaviour inside a declaration shell.
pub fn is_inert_declaration_kind(kind: &str) -> (inert: bool)
    ensures
        inert == spec_is_inert_declaration_kind(kind@),
{
    same_text(kind, "import_statement") || same_text(kind, "import_from_statement")
        || same_text(kind, "future_import_statement") || same_text(kind, "identifier")
        || same_text(kind, "argument_list") || same_text(kind, "string") || same_text(kind, "comment")
        || same_text(kind, "import_or_export") || same_text(kind, "superclass") || same_text(kind, "interfaces")
        || same_text(kind, "annotation")
}

/// A Dart declaration that is only a `const` constructor's signature: it
/// has no body and runs nothing.
pub open spec fn spec_is_constant_constructor(node: SyntaxNode) -> bool {
    let position = spec_sole_named(node.children@);
    &&& node.kind@ == "declaration"@
    &&& 0 <= position < node.children@.len()
    &&& node.children@[position].kind@ == "constant_constructor_signature"@
}

/// Whether a declaration is only a `const` constructor's signature.
pub fn is_constant_constructor(node: &SyntaxNode) -> (constant: bool)
    ensures
        constant == spec_is_constant_constructor(*node),
{
    if !same_text(node.kind.as_str(), "declaration") {
        return false;
    }
    match sole_named_child(node) {
        Some(child) => same_text(child.kind.as_str(), "constant_constructor_signature"),
        None => false,
    }
}

/// An expression statement whose sole named child is a string.
pub open spec fn spec_is_docstring(node: SyntaxNode) -> bool {
    let position = spec_sole_named(node.children@);
    0 <= position < node.children@.len() && node.children@[position].kind@ == "string"@
}

/// True for an expression statement whose sole named child is a string: a
/// docstring.
pub fn is_docstring(node: &SyntaxNode) -> (docstring: bool)
    ensures
        docstring == spec_is_docstring(*node),
{
    match sole_named_child(node) {
        Some(child) => same_text(child.kind.as_str(), "string"),
        None => false,
    }
}

/// The kinds whose named children the scaffolding walk descends into:
/// Python's module, class, class block and decorators, and Dart's file,
/// class, class body and member declarations.
pub open spec fn spec_is_declaration_shell(kind: Seq<char>) -> bool {
    ||| kind == "module"@
    ||| kind == "class_definition"@
    ||| kind == "block"@
    ||| kind == "decorated_definition"@
    ||| kind == "decorator"@
    ||| kind == "source_file"@
    ||| kind == "class_declaration"@
    ||| kind == "class_body"@
    ||| kind == "member_declaration"@
}

/// The functions of `kinds` that a range reaches inside `node`, when
/// everything else it reaches is declaration scaffolding; `None` as soon
/// as executable residue appears. A function counts when it starts inside
/// the range: a range that cuts into a function without reaching its end
/// is still a view into that function.
pub open spec fn spec_scaffolding(node: SyntaxNode, range: ByteRange, kinds: Seq<Seq<char>>) -> Option<Seq<SyntaxNode>>
    decreases node, 1int,
{
    if node.end_byte <= range.start || node.start_byte >= range.end {
        Some(seq![])
    } else if kinds.contains(node.kind@) && node.start_byte >= range.start {
        Some(seq![node])
    } else if spec_is_declaration_shell(node.kind@) {
        spec_scaffolding_children(node.children@, node.children@.len() as int, range, kinds)
    } else if node.kind@ == "expression_statement"@ {
        if spec_is_docstring(node) { Some(seq![]) } else { None }
    } else if spec_is_inert_declaration_kind(node.kind@) || spec_is_constant_constructor(node) {
        Some(seq![])
    } else {
        None
    }
}

/// The walk over the first `k` named children, in order.
pub open spec fn spec_scaffolding_children(children: Seq<SyntaxNode>, k: int, range: ByteRange, kinds: Seq<Seq<char>>) -> Option<Seq<SyntaxNode>>
    decreases children, k,
{
    if k <= 0 || k > children.len() {
        Some(seq![])
    } else {
        match spec_scaffolding_children(children, k - 1, range, kinds) {
            None => None,
            Some(before) => if !children[k - 1].named {
                Some(before)
            } else {
                match spec_scaffolding(children[k - 1], range, kinds) {
                    Some(more) => Some(before + more),
                    None => None,
                }
            },
        }
    }
}

proof fn lemma_residue_stops(children: Seq<SyntaxNode>, k: int, n: int, range: ByteRange, kinds: Seq<Seq<char>>)
    requires
        0 <= k <= n <= children.len(),
        spec_scaffolding_children(children, k, range, kinds) is None,
    ensures
        spec_scaffolding_children(children, n, range, kinds) is None,
    decreases n - k,
{
    if k < n {
        lemma_residue_stops(children, k, n - 1, range, kinds);
    }
}

/// Walks the nodes intersecting `range`, collecting contained function
/// definitions and vetting the residue: false the moment executable
/// residue appears. Only imports, docstrings, a Dart `const` constructor and the declaration shell
/// around a class body may surround the subject.
pub fn scaffolding_besides_functions<'a>(
    node: &'a SyntaxNode,
    range: ByteRange,
    kinds: &Vec<&'static str>,
    functions: &mut Vec<&'a SyntaxNode>,
) -> (clean: bool)
    ensures
        clean == spec_scaffolding(*node, range, kinds_view(kinds@)) is Some,
        clean ==> nodes_view(final(functions)@) == nodes_view(old(functions)@) + spec_scaffolding(*node, range, kinds_view(kinds@)).unwrap(),
    decreases *node,
{
    if node.end_byte <= range.start || node.start_byte >= range.end {
        assert(nodes_view(functions@) =~= nodes_view(functions@) + Seq::<SyntaxNode>::empty());
        return true;
    }
    let function_kind = kind_in(node.kind.as_str(), kinds);
    if function_kind && node.start_byte >= range.start && node.end_byte <= range.end {
        let ghost before = nodes_view(functions@);
        functions.push(node);
        assert(nodes_view(functions@) =~= before + seq![*node]);
        return true;
    }
    if function_kind && node.start_byte >= range.start && node.start_byte < range.end {
        let ghost before = nodes_view(functions@);
        functions.push(node);
        assert(nodes_view(functions@) =~= before + seq![*node]);
        return true;
    }
    let kind = node.kind.as_str();
    if same_text(kind, "module") || same_text(kind, "class_definition") || same_text(kind, "block")
        || same_text(kind, "decorated_definition") || same_text(kind, "decorator") || same_text(kind, "source_file")
        || same_text(kind, "class_declaration") || same_text(kind, "class_body") || same_text(kind, "member_declaration") {
        let ghost start = nodes_view(functions@);
        let ghost kv = kinds_view(kinds@);
        let mut index: usize = 0;
        assert(start =~= start + Seq::<SyntaxNode>::empty());
        assert(spec_scaffolding(*node, range, kv) == spec_scaffolding_children(node.children@, node.children@.len() as int, range, kv));
        while index < node.children.len()
            invariant
                index <= node.children@.len(),
                kv == kinds_view(kinds@),
                spec_scaffolding(*node, range, kv) == spec_scaffolding_children(node.children@, node.children@.len() as int, range, kv),
                spec_scaffolding_children(node.children@, index as int, range, kv) is Some,
                nodes_view(functions@) == start + spec_scaffolding_children(node.children@, index as int, range, kv).unwrap(),
            decreases node.children@.len() - index,
        {
            let child = &node.children[index];
            assert(decreases_to!(*node => node.children@[index as int]));
            if child.named {
                let ghost before = nodes_view(functions@);
                if !scaffolding_besides_functions(child, range, kinds, functions) {
                    proof {
                        assert(spec_scaffolding_children(node.children@, index as int + 1, range, kv) is None);
                        lemma_residue_stops(node.children@, index as int + 1, node.children@.len() as int, range, kv);
                    }
                    return false;
                }
                assert(nodes_view(functions@) =~= start + spec_scaffolding_children(node.children@, index as int + 1, range, kv).unwrap());
            }
            index = index + 1;
        }
        return true;
    }
    if same_text(kind, "expression_statement") {
        assert(nodes_view(functions@) =~= nodes_view(functions@) + Seq::<SyntaxNode>::empty());
        return is_docstring(node);
    }
    assert(nodes_view(functions@) =~= nodes_view(functions@) + Seq::<SyntaxNode>::empty());
    is_inert_declaration_kind(kind) || is_constant_constructor(node)
}

/// The one function a member view is about: the innermost function
/// containing the range or, failing that, the sole function the range
/// reaches when everything else inside it is declaration scaffolding.
pub open spec fn spec_polymorphic_subject(root: SyntaxNode, range: ByteRange, language: Seq<char>) -> Option<SyntaxNode> {
    let kinds = spec_function_kinds(language);
    match spec_enclosing_in(root, range, kinds, None) {
        Some(function) => Some(function),
        None => match spec_scaffolding(root, range, kinds) {
            Some(functions) => if functions.len() == 1 { Some(functions[0]) } else { None },
            None => None,
        },
    }
}

/// Resolves the function a member view is about.
pub fn polymorphic_subject<'a>(root: &'a SyntaxNode, range: ByteRange, language: &str) -> (subject: Option<&'a SyntaxNode>)
    ensures
        deref_node(subject) == spec_polymorphic_subject(*root, range, language@),
{
    let kinds = function_kinds(language);
    match enclosing_kind(root, range, &kinds) {
        Some(function) => return Some(function),
        None => {},
    }
    let mut functions: Vec<&'a SyntaxNode> = Vec::new();
    if !scaffolding_besides_functions(root, range, &kinds, &mut functions) {
        return None;
    }
    assert(nodes_view(functions@) =~= spec_scaffolding(*root, range, kinds_view(kinds@)).unwrap());
    if functions.len() == 1 {
        assert(nodes_view(functions@)[0] == *functions[0]);
        Some(functions[0])
    } else {
        None
    }
}

/// The sole named child of a node, when it has exactly one.
pub open spec fn spec_sole_child(node: SyntaxNode) -> Option<SyntaxNode> {
    let position = spec_sole_named(node.children@);
    if 0 <= position < node.children@.len() { Some(node.children@[position]) } else { None }
}

/// A body that is a bare Ellipsis: its one named child is the ellipsis,
/// or the one statement whose one named child is.
pub open spec fn spec_is_ellipsis_body(body: SyntaxNode) -> bool {
    match spec_sole_child(body) {
        Some(child) => child.kind@ == "ellipsis"@ || (child.kind@ == "expression_statement"@ && match spec_sole_child(child) {
            Some(inner) => inner.kind@ == "ellipsis"@,
            None => false,
        }),
        None => false,
    }
}

/// Whether the subject is the abstract declaration of the contract it
/// names: a Python function carrying `@abstractmethod`, or with a bare
/// Ellipsis body (`...`). Other languages reach the contract through an
/// implementation's bases.
pub open spec fn spec_is_abstract_declaration(function: SyntaxNode, language: Seq<char>, source: Seq<u8>) -> bool {
    language == "python"@ && (spec_python_abstract_method(function, source) || match spec_child_by_field(function, "body"@) {
        Some(body) => spec_is_ellipsis_body(body),
        None => false,
    })
}

/// Whether a body is a bare Ellipsis.
pub fn is_ellipsis_body(body: &SyntaxNode) -> (ellipsis: bool)
    ensures
        ellipsis == spec_is_ellipsis_body(*body),
{
    match sole_named_child(body) {
        Some(child) => {
            if same_text(child.kind.as_str(), "ellipsis") {
                return true;
            }
            if !same_text(child.kind.as_str(), "expression_statement") {
                return false;
            }
            match sole_named_child(child) {
                Some(inner) => same_text(inner.kind.as_str(), "ellipsis"),
                None => false,
            }
        },
        None => false,
    }
}

/// Whether the subject is the abstract declaration of its contract.
pub fn is_abstract_declaration(function: &SyntaxNode, language: &str, source: &[u8]) -> (declaration: bool)
    ensures
        declaration == spec_is_abstract_declaration(*function, language@, source@),
{
    if !same_text(language, "python") {
        return false;
    }
    if python_abstract_method(function, source) {
        return true;
    }
    match child_by_field_name(function, "body") {
        Some(body) => is_ellipsis_body(body),
        None => false,
    }
}

/// What the decision reads from one member's subject, besides the digest
/// of its body's shape.
pub struct SubjectModel {
    pub name: Seq<u8>,
    pub bases: Seq<Seq<u8>>,
    pub body: SyntaxNode,
    pub overrides: bool,
    pub abstract_declaration: bool,
}

/// The subject of a member in its file's tree: the function it is about,
/// which must have a name inside the source and a body.
pub open spec fn spec_subject_in(tree: SyntaxNode, snippet: Snippet) -> Option<SubjectModel> {
    match spec_polymorphic_subject(tree, snippet.range, snippet.language@) {
        Some(function) => match spec_function_name_node(function) {
            Some(name_node) => match spec_child_by_field(function, "body"@) {
                Some(body) => match spec_span(snippet.source@, name_node.start_byte, name_node.end_byte) {
                    Some(name) => Some(SubjectModel {
                        name,
                        bases: match spec_enclosing_container(tree, function) {
                            Some(container) => spec_declared_bases(container, snippet.source@),
                            None => seq![],
                        },
                        body,
                        overrides: spec_carries_override_marker(function, snippet.language@, snippet.source@),
                        abstract_declaration: spec_is_abstract_declaration(function, snippet.language@, snippet.source@),
                    }),
                    None => None,
                },
                None => None,
            },
            None => None,
        },
        None => None,
    }
}

/// The subject of a member, over the tree of its file.
pub open spec fn spec_subject_of(snippet: Snippet) -> Option<SubjectModel> {
    match spec_plugin_parse(snippet.language@, snippet.source@) {
        Some(tree) => spec_subject_in(tree, snippet),
        None => None,
    }
}

/// Resolves one member's subject function and everything the decision
/// reads from it, in a single parse, with the digest of the subject
/// body's shape stream; the decision only ever compares two digests for
/// inequality.
pub fn subject_of(snippet: &Snippet) -> (subject: Option<OwnedSubject>)
    ensures
        match subject {
            Some(found) => spec_subject_of(*snippet) is Some && spec_subject_matches(found, spec_subject_of(*snippet).unwrap(), snippet.source@),
            None => spec_subject_of(*snippet) is None,
        },
{
    let tree = match parse_snippet(snippet) {
        Some(tree) => tree,
        None => return None,
    };
    let function = match polymorphic_subject(&tree, snippet.range, snippet.language) {
        Some(function) => function,
        None => return None,
    };
    let name_node = match function_name_node(function) {
        Some(name_node) => name_node,
        None => return None,
    };
    let body = match child_by_field_name(function, "body") {
        Some(body) => body,
        None => return None,
    };
    if name_node.start_byte > name_node.end_byte || name_node.end_byte > snippet.source.len() {
        return None;
    }
    let name = vstd::slice::slice_to_vec(vstd::slice::slice_subrange(snippet.source, name_node.start_byte, name_node.end_byte));
    let shape_digest = body_digest(body, snippet.source);
    let bases = match enclosing_container(&tree, function) {
        Some(container) => declared_bases(container, snippet.source),
        None => {
            let empty: Vec<Vec<u8>> = Vec::new();
            assert(byte_strings_view(empty@) =~= Seq::<Seq<u8>>::empty());
            empty
        },
    };
    Some(OwnedSubject {
        name,
        bases,
        shape_digest,
        overrides: carries_override_marker(function, snippet.language, snippet.source),
        abstract_declaration: is_abstract_declaration(function, snippet.language, snippet.source),
    })
}

/// Whether a resolved subject carries what its member's model says, the
/// digest being that of the model's body's shape stream.
pub open spec fn spec_subject_matches(found: OwnedSubject, model: SubjectModel, source: Seq<u8>) -> bool {
    &&& found.name@ == model.name
    &&& byte_strings_view(found.bases@) == model.bases
    &&& found.shape_digest@ == spec_body_digest(model.body, source)
    &&& found.overrides == model.overrides
    &&& found.abstract_declaration == model.abstract_declaration
}

/// Resolves every member's subject; `None` as soon as one member resolves
/// to no function.
pub fn subjects_of(snippets: &[Snippet]) -> (subjects: Option<Vec<OwnedSubject>>)
    ensures
        match subjects {
            Some(found) => found@.len() == snippets@.len() && forall|i: int| 0 <= i < snippets@.len() ==>
                spec_subject_of(#[trigger] snippets@[i]) is Some
                && spec_subject_matches(found@[i], spec_subject_of(snippets@[i]).unwrap(), snippets@[i].source@),
            None => exists|i: int| 0 <= i < snippets@.len() && spec_subject_of(#[trigger] snippets@[i]) is None,
        },
{
    let mut found: Vec<OwnedSubject> = Vec::new();
    let mut index: usize = 0;
    while index < snippets.len()
        invariant
            index <= snippets@.len(),
            found@.len() == index,
            forall|i: int| 0 <= i < index ==> spec_subject_of(#[trigger] snippets@[i]) is Some
                && spec_subject_matches(found@[i], spec_subject_of(snippets@[i]).unwrap(), snippets@[i].source@),
        decreases snippets@.len() - index,
    {
        match subject_of(&snippets[index]) {
            Some(subject) => found.push(subject),
            None => return None,
        }
        index = index + 1;
    }
    Some(found)
}

} // verus!
