//! Reading type declarations off concrete syntax trees: the name a type is
//! known by, the bases it derives from, and the members it declares.

use vstd::prelude::*;

use super::super::node_search::{deref_node, spec_span};
use super::super::override_marker::{child_by_field_name, first_field_child, spec_child_by_field};
use super::super::syntax::{spec_first_named, spec_named_count};
use super::super::{function_kinds, kind_in, kinds_view, spec_function_kinds, SyntaxNode};
use crate::text::{byte_strings_view, same_text};

verus! {

/// Kinds that declare a type whose members can be forced to a shared
/// signature.
pub open spec fn spec_container_kinds() -> Seq<Seq<char>> {
    seq![
        "class_definition"@,
        "class_declaration"@,
        "struct_declaration"@,
        "record_declaration"@,
        "interface_declaration"@,
        "impl_item"@,
    ]
}

/// Kinds that declare a contract without lexically containing an
/// implementation: a Rust `trait` and a Dart `mixin`.
pub open spec fn spec_declarer_only_kinds() -> Seq<Seq<char>> {
    seq!["trait_item"@, "mixin_declaration"@]
}

/// Fields of a declarer naming what it derives from.
pub open spec fn spec_contract_fields() -> Seq<Seq<char>> {
    seq!["superclasses"@, "superclass"@, "bases"@, "interfaces"@, "trait"@]
}

/// Named children carrying a declared base where the grammar exposes no
/// field for it.
pub open spec fn spec_contract_kinds() -> Seq<Seq<char>> {
    seq![
        "base_list"@,
        "class_heritage"@,
        "superclass"@,
        "interfaces"@,
        "mixins"@,
        "extends_clause"@,
        "implements_clause"@,
    ]
}

/// Kinds that only group base references; the names sit deeper.
pub open spec fn spec_base_wrapper_kinds() -> Seq<Seq<char>> {
    seq![
        "base_list"@,
        "class_heritage"@,
        "extends_clause"@,
        "implements_clause"@,
        "argument_list"@,
        "interfaces"@,
        "superclass"@,
        "mixins"@,
        "type_list"@,
    ]
}

/// Fields leading from a type reference to the identifier naming it.
pub open spec fn spec_base_name_fields() -> Seq<Seq<char>> {
    seq!["value"@, "attribute"@, "type"@, "name"@]
}

/// Member kinds that declare a signature with no body.
pub open spec fn spec_signature_kinds() -> Seq<Seq<char>> {
    seq![
        "function_signature_item"@,
        "method_signature"@,
        "abstract_method_signature"@,
        "method_spec"@,
        "method_elem"@,
    ]
}

/// The container kinds.
pub fn container_kinds() -> (kinds: Vec<&'static str>)
    ensures
        kinds_view(kinds@) == spec_container_kinds(),
{
    let kinds = vec![
        "class_definition",
        "class_declaration",
        "struct_declaration",
        "record_declaration",
        "interface_declaration",
        "impl_item",
    ];
    assert(kinds_view(kinds@) =~= spec_container_kinds());
    kinds
}

fn declarer_only_kinds() -> (kinds: Vec<&'static str>)
    ensures
        kinds_view(kinds@) == spec_declarer_only_kinds(),
{
    let kinds = vec!["trait_item", "mixin_declaration"];
    assert(kinds_view(kinds@) =~= spec_declarer_only_kinds());
    kinds
}

fn contract_fields() -> (fields: Vec<&'static str>)
    ensures
        kinds_view(fields@) == spec_contract_fields(),
{
    let fields = vec!["superclasses", "superclass", "bases", "interfaces", "trait"];
    assert(kinds_view(fields@) =~= spec_contract_fields());
    fields
}

fn contract_kinds() -> (kinds: Vec<&'static str>)
    ensures
        kinds_view(kinds@) == spec_contract_kinds(),
{
    let kinds = vec![
        "base_list",
        "class_heritage",
        "superclass",
        "interfaces",
        "mixins",
        "extends_clause",
        "implements_clause",
    ];
    assert(kinds_view(kinds@) =~= spec_contract_kinds());
    kinds
}

fn base_wrapper_kinds() -> (kinds: Vec<&'static str>)
    ensures
        kinds_view(kinds@) == spec_base_wrapper_kinds(),
{
    let kinds = vec![
        "base_list",
        "class_heritage",
        "extends_clause",
        "implements_clause",
        "argument_list",
        "interfaces",
        "superclass",
        "mixins",
        "type_list",
    ];
    assert(kinds_view(kinds@) =~= spec_base_wrapper_kinds());
    kinds
}

fn base_name_fields() -> (fields: Vec<&'static str>)
    ensures
        kinds_view(fields@) == spec_base_name_fields(),
{
    let fields = vec!["value", "attribute", "type", "name"];
    assert(kinds_view(fields@) =~= spec_base_name_fields());
    fields
}

fn signature_kinds() -> (kinds: Vec<&'static str>)
    ensures
        kinds_view(kinds@) == spec_signature_kinds(),
{
    let kinds = vec![
        "function_signature_item",
        "method_signature",
        "abstract_method_signature",
        "method_spec",
        "method_elem",
    ];
    assert(kinds_view(kinds@) =~= spec_signature_kinds());
    kinds
}

/// Whether a node kind declares a type or a contract.
pub open spec fn spec_is_declarer(kind: Seq<char>) -> bool {
    spec_container_kinds().contains(kind) || spec_declarer_only_kinds().contains(kind)
}

/// True for a node kind that declares a type or a contract.
pub fn is_declarer(kind: &str) -> (declarer: bool)
    ensures
        declarer == spec_is_declarer(kind@),
{
    kind_in(kind, &container_kinds()) || kind_in(kind, &declarer_only_kinds())
}

/// Position of the child in the first of `fields[k..]` that `node` has; the
/// child count when it has none of them.
pub open spec fn spec_first_of_fields(node: SyntaxNode, fields: Seq<Seq<char>>, k: int) -> int
    decreases fields.len() - k,
{
    if k < 0 || k >= fields.len() {
        node.children@.len() as int
    } else if first_field_child(node.children@, fields[k], 0) < node.children@.len() {
        first_field_child(node.children@, fields[k], 0)
    } else {
        spec_first_of_fields(node, fields, k + 1)
    }
}

proof fn lemma_first_field_child_bounds(children: Seq<SyntaxNode>, field: Seq<char>, from: int)
    requires
        0 <= from,
    ensures
        0 <= first_field_child(children, field, from) <= children.len(),
    decreases children.len() - from,
{
    if from < children.len() {
        lemma_first_field_child_bounds(children, field, from + 1);
    }
}

/// The child in the first of `fields` that `node` has, with its position.
fn first_of_fields<'a>(node: &'a SyntaxNode, fields: &Vec<&'static str>) -> (child: Option<&'a SyntaxNode>)
    ensures
        match child {
            Some(c) => 0 <= spec_first_of_fields(*node, kinds_view(fields@), 0) < node.children@.len()
                && node.children@[spec_first_of_fields(*node, kinds_view(fields@), 0)] == *c,
            None => !(0 <= spec_first_of_fields(*node, kinds_view(fields@), 0) < node.children@.len()),
        },
{
    let ghost names = kinds_view(fields@);
    let mut k: usize = 0;
    while k < fields.len()
        invariant
            k <= fields@.len(),
            names == kinds_view(fields@),
            names.len() == fields@.len(),
            spec_first_of_fields(*node, names, 0) == spec_first_of_fields(*node, names, k as int),
        decreases fields@.len() - k,
    {
        assert(names[k as int] == fields@[k as int]@);
        proof {
            lemma_first_field_child_bounds(node.children@, names[k as int], 0);
        }
        match child_by_field_name(node, fields[k]) {
            Some(found) => {
                return Some(found);
            },
            None => {},
        }
        k = k + 1;
    }
    None
}

/// The identifier naming a type reference: a generic instantiation's base,
/// a qualified path's trailing segment, a keyword argument's value. Each
/// step moves to a child, so the descent ends.
pub open spec fn spec_base_name(node: SyntaxNode, source: Seq<u8>) -> Option<Seq<u8>>
    decreases node,
{
    let children = node.children@;
    let f = spec_first_of_fields(node, spec_base_name_fields(), 0);
    if 0 <= f < children.len() {
        spec_base_name(children[f], source)
    } else if spec_named_count(children, children.len() as int) == 0 {
        spec_span(source, node.start_byte, node.end_byte)
    } else {
        let p = spec_first_named(children, 0);
        if 0 <= p < children.len() { spec_base_name(children[p], source) } else { None }
    }
}

/// The source bytes of `start..end`, when that range lies in the source.
fn span<'s>(source: &'s [u8], start: usize, end: usize) -> (bytes: Option<&'s [u8]>)
    ensures
        match bytes {
            Some(b) => spec_span(source@, start, end) == Some(b@),
            None => spec_span(source@, start, end) is None,
        },
{
    if start <= end && end <= source.len() {
        Some(vstd::slice::slice_subrange(source, start, end))
    } else {
        None
    }
}

proof fn lemma_named_count_grows(children: Seq<SyntaxNode>, k: int, n: int)
    requires
        0 <= k <= n <= children.len(),
    ensures
        spec_named_count(children, k) <= spec_named_count(children, n),
    decreases n - k,
{
    if k < n {
        lemma_named_count_grows(children, k, n - 1);
    }
}

/// The first named child, with its position.
fn first_named_child(node: &SyntaxNode) -> (child: Option<&SyntaxNode>)
    ensures
        match child {
            Some(c) => 0 <= spec_first_named(node.children@, 0) < node.children@.len()
                && node.children@[spec_first_named(node.children@, 0)] == *c
                && spec_named_count(node.children@, node.children@.len() as int) > 0,
            None => spec_named_count(node.children@, node.children@.len() as int) == 0,
        },
{
    let mut index: usize = 0;
    while index < node.children.len()
        invariant
            index <= node.children@.len(),
            spec_first_named(node.children@, 0) == spec_first_named(node.children@, index as int),
            spec_named_count(node.children@, index as int) == 0,
        decreases node.children@.len() - index,
    {
        if node.children[index].named {
            proof {
                lemma_named_count_grows(node.children@, index as int + 1, node.children@.len() as int);
            }
            return Some(&node.children[index]);
        }
        index = index + 1;
    }
    None
}

/// Resolves the identifier naming a type reference.
pub fn base_name<'s>(node: &SyntaxNode, source: &'s [u8]) -> (name: Option<&'s [u8]>)
    ensures
        match name {
            Some(n) => spec_base_name(*node, source@) == Some(n@),
            None => spec_base_name(*node, source@) is None,
        },
    decreases *node,
{
    let fields = base_name_fields();
    match first_of_fields(node, &fields) {
        Some(child) => {
            assert(decreases_to!(*node => node.children@[spec_first_of_fields(*node, spec_base_name_fields(), 0)]));
            base_name(child, source)
        },
        None => match first_named_child(node) {
            None => span(source, node.start_byte, node.end_byte),
            Some(child) => {
                assert(decreases_to!(*node => node.children@[spec_first_named(node.children@, 0)]));
                base_name(child, source)
            },
        },
    }
}

/// The first named child from position `k` on that has a `name` field,
/// and that field's child.
pub open spec fn spec_nested_name(children: Seq<SyntaxNode>, k: int) -> Option<SyntaxNode>
    decreases children.len() - k,
{
    if k < 0 || k >= children.len() {
        None
    } else if children[k].named && spec_child_by_field(children[k], "name"@) is Some {
        spec_child_by_field(children[k], "name"@)
    } else {
        spec_nested_name(children, k + 1)
    }
}

/// The identifier node naming `function`: its own `name` field, else its
/// signature's, else the `name` of the first named child of the signature
/// that has one.
pub open spec fn spec_function_name_node(function: SyntaxNode) -> Option<SyntaxNode> {
    match spec_child_by_field(function, "name"@) {
        Some(name) => Some(name),
        None => match spec_child_by_field(function, "signature"@) {
            None => None,
            Some(signature) => match spec_child_by_field(signature, "name"@) {
                Some(name) => Some(name),
                None => spec_nested_name(signature.children@, 0),
            },
        },
    }
}

/// Resolves the identifier node that names `function`. Python, C# and Rust
/// expose a direct `name` field; Dart nests it under `signature`.
pub fn function_name_node(function: &SyntaxNode) -> (name: Option<&SyntaxNode>)
    ensures
        deref_node(name) == spec_function_name_node(*function),
{
    match child_by_field_name(function, "name") {
        Some(name) => return Some(name),
        None => {},
    }
    let signature = match child_by_field_name(function, "signature") {
        Some(signature) => signature,
        None => return None,
    };
    match child_by_field_name(signature, "name") {
        Some(name) => return Some(name),
        None => {},
    }
    let mut index: usize = 0;
    while index < signature.children.len()
        invariant
            index <= signature.children@.len(),
            spec_child_by_field(*function, "name"@) is None,
            spec_child_by_field(*function, "signature"@) == Some(*signature),
            spec_child_by_field(*signature, "name"@) is None,
            spec_nested_name(signature.children@, 0) == spec_nested_name(signature.children@, index as int),
        decreases signature.children@.len() - index,
    {
        let child = &signature.children[index];
        if child.named {
            match child_by_field_name(child, "name") {
                Some(name) => return Some(name),
                None => {},
            }
        }
        index = index + 1;
    }
    None
}

/// The simple name a declarer is known by: through its `name` field, or
/// its `type` field (Rust's `impl_item`).
pub open spec fn spec_declared_type_name(declarer: SyntaxNode, source: Seq<u8>) -> Option<Seq<u8>> {
    match spec_child_by_field(declarer, "name"@) {
        Some(named) => spec_base_name(named, source),
        None => match spec_child_by_field(declarer, "type"@) {
            Some(named) => spec_base_name(named, source),
            None => None,
        },
    }
}

/// The simple name a declarer is known by.
pub fn declared_type_name<'s>(declarer: &SyntaxNode, source: &'s [u8]) -> (name: Option<&'s [u8]>)
    ensures
        match name {
            Some(n) => spec_declared_type_name(*declarer, source@) == Some(n@),
            None => spec_declared_type_name(*declarer, source@) is None,
        },
{
    let named = match child_by_field_name(declarer, "name") {
        Some(named) => named,
        None => match child_by_field_name(declarer, "type") {
            Some(named) => named,
            None => return None,
        },
    };
    base_name(named, source)
}

/// The base names inside `node`, descending through the wrapper nodes that
/// only group references.
pub open spec fn spec_collect_base_names(node: SyntaxNode, source: Seq<u8>) -> Seq<Seq<u8>>
    decreases node, 1int,
{
    if spec_base_wrapper_kinds().contains(node.kind@) {
        spec_collect_children_names(node.children@, node.children@.len() as int, source)
    } else {
        match spec_base_name(node, source) {
            Some(name) => seq![name],
            None => seq![],
        }
    }
}

/// The base names inside the first `k` named children, in order.
pub open spec fn spec_collect_children_names(children: Seq<SyntaxNode>, k: int, source: Seq<u8>) -> Seq<Seq<u8>>
    decreases children, k,
{
    if k <= 0 || k > children.len() {
        seq![]
    } else {
        let before = spec_collect_children_names(children, k - 1, source);
        if children[k - 1].named { before + spec_collect_base_names(children[k - 1], source) } else { before }
    }
}


/// Appends `name` to `names`.
fn push_name(names: &mut Vec<Vec<u8>>, name: &[u8])
    ensures
        byte_strings_view(final(names)@) == byte_strings_view(old(names)@).push(name@),
{
    let mut copy: Vec<u8> = Vec::new();
    let mut index: usize = 0;
    while index < name.len()
        invariant
            index <= name@.len(),
            copy@ == name@.take(index as int),
        decreases name@.len() - index,
    {
        copy.push(name[index]);
        assert(copy@ =~= name@.take(index as int + 1));
        index = index + 1;
    }
    assert(name@.take(name@.len() as int) =~= name@);
    let ghost before = byte_strings_view(names@);
    names.push(copy);
    assert(byte_strings_view(names@) =~= before.push(name@));
}

/// Appends the base names inside `node` to `names`.
pub fn collect_base_names(node: &SyntaxNode, source: &[u8], names: &mut Vec<Vec<u8>>)
    ensures
        byte_strings_view(final(names)@) == byte_strings_view(old(names)@) + spec_collect_base_names(*node, source@),
    decreases *node,
{
    if kind_in(node.kind.as_str(), &base_wrapper_kinds()) {
        let ghost start = byte_strings_view(names@);
        let mut index: usize = 0;
        while index < node.children.len()
            invariant
                index <= node.children@.len(),
                byte_strings_view(names@) == start + spec_collect_children_names(node.children@, index as int, source@),
            decreases node.children@.len() - index,
        {
            let child = &node.children[index];
            assert(decreases_to!(*node => node.children@[index as int]));
            if child.named {
                collect_base_names(child, source, names);
            }
            assert(byte_strings_view(names@) =~= start + spec_collect_children_names(node.children@, index as int + 1, source@));
            index = index + 1;
        }
        return;
    }
    match base_name(node, source) {
        Some(name) => push_name(names, name),
        None => {
            assert(byte_strings_view(names@) =~= byte_strings_view(names@) + Seq::<Seq<u8>>::empty());
        },
    }
}

/// The base names reached through the contract fields, field by field.
pub open spec fn spec_fielded_bases(declarer: SyntaxNode, source: Seq<u8>, k: int) -> Seq<Seq<u8>>
    decreases k,
{
    if k <= 0 || k > spec_contract_fields().len() {
        seq![]
    } else {
        let before = spec_fielded_bases(declarer, source, k - 1);
        match spec_child_by_field(declarer, spec_contract_fields()[k - 1]) {
            Some(reference) => before + spec_collect_base_names(reference, source),
            None => before,
        }
    }
}

/// The base names under the first `k` named children of a contract kind.
pub open spec fn spec_childed_bases(children: Seq<SyntaxNode>, k: int, source: Seq<u8>) -> Seq<Seq<u8>>
    decreases k,
{
    if k <= 0 || k > children.len() {
        seq![]
    } else {
        let before = spec_childed_bases(children, k - 1, source);
        if children[k - 1].named && spec_contract_kinds().contains(children[k - 1].kind@) {
            before + spec_collect_base_names(children[k - 1], source)
        } else {
            before
        }
    }
}

/// The simple names of every base a declarer names: first through the
/// contract fields, then through the named children of a contract kind.
pub open spec fn spec_declared_bases(declarer: SyntaxNode, source: Seq<u8>) -> Seq<Seq<u8>> {
    spec_fielded_bases(declarer, source, spec_contract_fields().len() as int)
        + spec_childed_bases(declarer.children@, declarer.children@.len() as int, source)
}

/// The simple names of every base a declarer names, across the field and
/// child-kind spellings the grammars use.
pub fn declared_bases(declarer: &SyntaxNode, source: &[u8]) -> (names: Vec<Vec<u8>>)
    ensures
        byte_strings_view(names@) == spec_declared_bases(*declarer, source@),
{
    let mut names: Vec<Vec<u8>> = Vec::new();
    let fields = contract_fields();
    let mut k: usize = 0;
    assert(byte_strings_view(names@) =~= Seq::<Seq<u8>>::empty());
    while k < fields.len()
        invariant
            k <= fields@.len(),
            kinds_view(fields@) == spec_contract_fields(),
            byte_strings_view(names@) == spec_fielded_bases(*declarer, source@, k as int),
        decreases fields@.len() - k,
    {
        assert(kinds_view(fields@)[k as int] == fields@[k as int]@);
        match child_by_field_name(declarer, fields[k]) {
            Some(reference) => collect_base_names(reference, source, &mut names),
            None => {},
        }
        k = k + 1;
    }
    let kinds = contract_kinds();
    let ghost fielded = byte_strings_view(names@);
    let mut index: usize = 0;
    while index < declarer.children.len()
        invariant
            index <= declarer.children@.len(),
            kinds_view(kinds@) == spec_contract_kinds(),
            fielded == spec_fielded_bases(*declarer, source@, spec_contract_fields().len() as int),
            byte_strings_view(names@) == fielded + spec_childed_bases(declarer.children@, index as int, source@),
        decreases declarer.children@.len() - index,
    {
        let child = &declarer.children[index];
        let ghost before = byte_strings_view(names@);
        if child.named && kind_in(child.kind.as_str(), &kinds) {
            collect_base_names(child, source, &mut names);
        }
        assert(byte_strings_view(names@) =~= fielded + spec_childed_bases(declarer.children@, index as int + 1, source@));
        index = index + 1;
    }
    names
}

/// The names of the members declared under `node`: a function or signature
/// contributes its name and is not descended into; a nested declarer
/// (below the one being read) contributes nothing, its members belonging
/// to it; anything else is descended through its named children.
pub open spec fn spec_member_names(node: SyntaxNode, source: Seq<u8>, function_kinds: Seq<Seq<char>>, root: bool) -> Seq<Seq<u8>>
    decreases node, 1int,
{
    if function_kinds.contains(node.kind@) || spec_signature_kinds().contains(node.kind@) {
        match spec_function_name_node(node) {
            Some(name) => match spec_span(source, name.start_byte, name.end_byte) {
                Some(bytes) => seq![bytes],
                None => seq![],
            },
            None => seq![],
        }
    } else if !root && spec_is_declarer(node.kind@) {
        seq![]
    } else {
        spec_children_member_names(node.children@, node.children@.len() as int, source, function_kinds)
    }
}

/// The member names under the first `k` named children, in order.
pub open spec fn spec_children_member_names(children: Seq<SyntaxNode>, k: int, source: Seq<u8>, function_kinds: Seq<Seq<char>>) -> Seq<Seq<u8>>
    decreases children, k,
{
    if k <= 0 || k > children.len() {
        seq![]
    } else {
        let before = spec_children_member_names(children, k - 1, source, function_kinds);
        if children[k - 1].named { before + spec_member_names(children[k - 1], source, function_kinds, false) } else { before }
    }
}

fn collect_member_names(
    node: &SyntaxNode,
    source: &[u8],
    kinds: &Vec<&'static str>,
    signatures: &Vec<&'static str>,
    root: bool,
    names: &mut Vec<Vec<u8>>,
)
    requires
        kinds_view(signatures@) == spec_signature_kinds(),
    ensures
        byte_strings_view(final(names)@) == byte_strings_view(old(names)@) + spec_member_names(*node, source@, kinds_view(kinds@), root),
    decreases *node,
{
    if kind_in(node.kind.as_str(), kinds) || kind_in(node.kind.as_str(), signatures) {
        match function_name_node(node) {
            Some(name) => match span(source, name.start_byte, name.end_byte) {
                Some(bytes) => push_name(names, bytes),
                None => {
                    assert(byte_strings_view(names@) =~= byte_strings_view(names@) + Seq::<Seq<u8>>::empty());
                },
            },
            None => {
                assert(byte_strings_view(names@) =~= byte_strings_view(names@) + Seq::<Seq<u8>>::empty());
            },
        }
        return;
    }
    if !root && is_declarer(node.kind.as_str()) {
        assert(byte_strings_view(names@) =~= byte_strings_view(names@) + Seq::<Seq<u8>>::empty());
        return;
    }
    let ghost start = byte_strings_view(names@);
    let mut index: usize = 0;
    while index < node.children.len()
        invariant
            index <= node.children@.len(),
            kinds_view(signatures@) == spec_signature_kinds(),
            byte_strings_view(names@) == start + spec_children_member_names(node.children@, index as int, source@, kinds_view(kinds@)),
        decreases node.children@.len() - index,
    {
        let child = &node.children[index];
        assert(decreases_to!(*node => node.children@[index as int]));
        if child.named {
            collect_member_names(child, source, kinds, signatures, false, names);
        }
        assert(byte_strings_view(names@) =~= start + spec_children_member_names(node.children@, index as int + 1, source@, kinds_view(kinds@)));
        index = index + 1;
    }
}

/// The names of every member `declarer` declares itself, bodied functions
/// and body-less signatures alike, without descending into a nested type.
pub fn member_names(declarer: &SyntaxNode, source: &[u8], language: &str) -> (names: Vec<Vec<u8>>)
    ensures
        byte_strings_view(names@) == spec_member_names(*declarer, source@, spec_function_kinds(language@), true),
{
    let kinds = function_kinds(language);
    let signatures = signature_kinds();
    let mut names: Vec<Vec<u8>> = Vec::new();
    assert(byte_strings_view(names@) =~= Seq::<Seq<u8>>::empty());
    collect_member_names(declarer, source, &kinds, &signatures, true, &mut names);
    assert(byte_strings_view(names@) =~= spec_member_names(*declarer, source@, spec_function_kinds(language@), true));
    names
}

} // verus!
