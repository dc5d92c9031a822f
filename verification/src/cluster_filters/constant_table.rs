//! Module-level constant tables.
//!
//! A run of module-level `NAME = <literal>` declarations normalises to the
//! same structural subtree as any other such run once identifiers,
//! literals and comments are stripped, so two unrelated tables reach full
//! structural similarity. A table of distinct named constants is data:
//! there is nothing a reader could extract. Only the grammar of "a
//! top-level constant declaration" is per language; the rule is one. A
//! table copied verbatim into two files still surfaces, and any right-hand
//! side that is not a plain literal keeps the cluster visible.

use vstd::prelude::*;

use super::node_search::{node_intersects_range, spec_intersects};
use super::snippets::{parse_snippet, spec_plugin_parse, Snippet};
use super::syntax::{
    field_child, has_child_kind, sole_named_child, spec_field_position, spec_has_named_kind, spec_sole_named,
};
use super::{raw_snippet_texts_differ, spec_raw_texts_differ, spec_trimmed_range, trimmed_snippet_range, SyntaxNode};
use crate::ast::ByteRange;
use crate::text::same_text;

verus! {

/// How one top-level item contributes to the constant-table shape.
#[derive(Clone, Copy, Debug, PartialEq, Eq, Structural)]
pub enum TopLevel {
    /// A comment, a docstring, or an attribute: inert framing.
    Trivia,
    /// A `NAME = <literal>` declaration: one table entry.
    ConstantDeclaration,
    /// Anything else; its presence means the range is no constant table.
    Other,
}

/// The languages with a constant-table form.
#[derive(Clone, Copy, Debug, PartialEq, Eq, Structural)]
pub enum TableGrammar {
    /// Python modules.
    Python,
    /// Rust source files.
    Rust,
    /// JavaScript, TypeScript and TSX programs.
    EcmaScript,
}

/// The table grammar of a language id.
pub open spec fn spec_table_grammar(language: Seq<char>) -> Option<TableGrammar> {
    if language == "python"@ {
        Some(TableGrammar::Python)
    } else if language == "rust"@ {
        Some(TableGrammar::Rust)
    } else if language == "javascript"@ || language == "typescript"@ || language == "tsx"@ {
        Some(TableGrammar::EcmaScript)
    } else {
        None
    }
}

/// Node kind of a grammar's module root.
pub open spec fn spec_module_kind(grammar: TableGrammar) -> Seq<char> {
    match grammar {
        TableGrammar::Python => "module"@,
        TableGrammar::Rust => "source_file"@,
        TableGrammar::EcmaScript => "program"@,
    }
}

impl TableGrammar {
    /// The grammar description for `language`, or `None` when the
    /// language has no constant-table form.
    pub fn of(language: &str) -> (grammar: Option<TableGrammar>)
        ensures
            grammar == spec_table_grammar(language@),
    {
        if same_text(language, "python") {
            Some(TableGrammar::Python)
        } else if same_text(language, "rust") {
            Some(TableGrammar::Rust)
        } else if same_text(language, "javascript") || same_text(language, "typescript") || same_text(language, "tsx") {
            Some(TableGrammar::EcmaScript)
        } else {
            None
        }
    }

    /// Node kind of the parse tree's module root.
    pub fn module_kind(&self) -> (kind: &'static str)
        ensures
            kind@ == spec_module_kind(*self),
    {
        match self {
            TableGrammar::Python => "module",
            TableGrammar::Rust => "source_file",
            TableGrammar::EcmaScript => "program",
        }
    }

    /// Classifies one top-level child of the module root.
    pub fn classify(&self, node: &SyntaxNode) -> (item: TopLevel)
        ensures
            item == spec_classify(*self, *node),
    {
        match self {
            TableGrammar::Python => classify_python_item(node),
            TableGrammar::Rust => classify_rust_item(node),
            TableGrammar::EcmaScript => classify_ecmascript_item(node),
        }
    }
}

/// A Python string with no `interpolation` child: a plain literal, not an
/// f-string that can embed expressions.
pub open spec fn spec_python_string_is_plain(node: SyntaxNode) -> bool {
    !spec_has_named_kind(node.children@, node.children@.len() as int, "interpolation"@)
}

/// A Python literal value with no embedded logic: a plain string, number,
/// bool or None, a unary on a literal, or a collection of literals.
pub open spec fn spec_python_value(node: SyntaxNode) -> bool
    decreases node, 1int,
{
    let kind = node.kind@;
    let children = node.children@;
    if kind == "string"@ {
        spec_python_string_is_plain(node)
    } else if kind == "integer"@ || kind == "float"@ || kind == "true"@ || kind == "false"@ || kind == "none"@ {
        true
    } else if kind == "unary_operator"@ {
        let p = spec_field_position(node, "argument"@);
        0 <= p < children.len() && spec_python_value(children[p])
    } else if kind == "parenthesized_expression"@ {
        let p = spec_sole_named(children);
        0 <= p < children.len() && spec_python_value(children[p])
    } else if kind == "concatenated_string"@ || kind == "list"@ || kind == "tuple"@ || kind == "set"@ {
        spec_python_all_values(children, children.len() as int)
    } else if kind == "dictionary"@ {
        spec_python_all_pairs(children, children.len() as int)
    } else {
        false
    }
}

/// Every named child among the first `k` is a Python literal value.
pub open spec fn spec_python_all_values(children: Seq<SyntaxNode>, k: int) -> bool
    decreases children, k,
{
    if k <= 0 || k > children.len() {
        true
    } else {
        spec_python_all_values(children, k - 1) && (!children[k - 1].named || spec_python_value(children[k - 1]))
    }
}

/// A dictionary `pair` whose key and value are both constant.
pub open spec fn spec_python_pair(node: SyntaxNode) -> bool
    decreases node, 2int,
{
    let children = node.children@;
    let key = spec_field_position(node, "key"@);
    let value = spec_field_position(node, "value"@);
    &&& node.kind@ == "pair"@
    &&& 0 <= key < children.len() && spec_python_value(children[key])
    &&& 0 <= value < children.len() && spec_python_value(children[value])
}

/// Every named child among the first `k` is a constant dictionary pair.
pub open spec fn spec_python_all_pairs(children: Seq<SyntaxNode>, k: int) -> bool
    decreases children, k,
{
    if k <= 0 || k > children.len() {
        true
    } else {
        spec_python_all_pairs(children, k - 1) && (!children[k - 1].named || spec_python_pair(children[k - 1]))
    }
}

fn python_all_values(node: &SyntaxNode) -> (all: bool)
    ensures
        all == spec_python_all_values(node.children@, node.children@.len() as int),
    decreases *node, 0int,
{
    let mut index: usize = 0;
    while index < node.children.len()
        invariant
            index <= node.children@.len(),
            spec_python_all_values(node.children@, index as int),
        decreases node.children@.len() - index,
    {
        let child = &node.children[index];
        assert(decreases_to!(*node => node.children@[index as int]));
        if child.named && !python_value_is_constant(child) {
            proof {
                lemma_python_values_stop(node.children@, index as int + 1, node.children@.len() as int);
            }
            return false;
        }
        index = index + 1;
    }
    true
}

proof fn lemma_python_values_stop(children: Seq<SyntaxNode>, k: int, n: int)
    requires
        0 < k <= n <= children.len(),
        !spec_python_all_values(children, k),
    ensures
        !spec_python_all_values(children, n),
    decreases n - k,
{
    if k < n {
        lemma_python_values_stop(children, k, n - 1);
    }
}

proof fn lemma_python_pairs_stop(children: Seq<SyntaxNode>, k: int, n: int)
    requires
        0 < k <= n <= children.len(),
        !spec_python_all_pairs(children, k),
    ensures
        !spec_python_all_pairs(children, n),
    decreases n - k,
{
    if k < n {
        lemma_python_pairs_stop(children, k, n - 1);
    }
}

fn python_all_pairs(node: &SyntaxNode) -> (all: bool)
    ensures
        all == spec_python_all_pairs(node.children@, node.children@.len() as int),
    decreases *node, 0int,
{
    let mut index: usize = 0;
    while index < node.children.len()
        invariant
            index <= node.children@.len(),
            spec_python_all_pairs(node.children@, index as int),
        decreases node.children@.len() - index,
    {
        let child = &node.children[index];
        assert(decreases_to!(*node => node.children@[index as int]));
        if child.named && !python_pair_is_constant(child) {
            proof {
                lemma_python_pairs_stop(node.children@, index as int + 1, node.children@.len() as int);
            }
            return false;
        }
        index = index + 1;
    }
    true
}

/// Returns true when `node` is a Python literal value with no embedded
/// logic. A call, name, attribute, comprehension, lambda or interpolated
/// f-string is not constant and keeps the cluster visible.
pub fn python_value_is_constant(node: &SyntaxNode) -> (constant: bool)
    ensures
        constant == spec_python_value(*node),
    decreases *node, 1int,
{
    let kind = node.kind.as_str();
    if same_text(kind, "string") {
        !has_child_kind(node, "interpolation")
    } else if same_text(kind, "integer") || same_text(kind, "float") || same_text(kind, "true") || same_text(kind, "false")
        || same_text(kind, "none") {
        true
    } else if same_text(kind, "unary_operator") {
        match field_child(node, "argument") {
            Some(argument) => {
                assert(decreases_to!(*node => node.children@[spec_field_position(*node, "argument"@)]));
                python_value_is_constant(argument)
            },
            None => false,
        }
    } else if same_text(kind, "parenthesized_expression") {
        match sole_named_child(node) {
            Some(inner) => {
                assert(decreases_to!(*node => node.children@[spec_sole_named(node.children@)]));
                python_value_is_constant(inner)
            },
            None => false,
        }
    } else if same_text(kind, "concatenated_string") || same_text(kind, "list") || same_text(kind, "tuple")
        || same_text(kind, "set") {
        python_all_values(node)
    } else if same_text(kind, "dictionary") {
        python_all_pairs(node)
    } else {
        false
    }
}

/// Returns true when a `dictionary` child is a `pair` whose key and value
/// are both constant; a `dictionary_splat` or any other child disqualifies
/// the dictionary.
pub fn python_pair_is_constant(node: &SyntaxNode) -> (constant: bool)
    ensures
        constant == spec_python_pair(*node),
    decreases *node, 2int,
{
    if !same_text(node.kind.as_str(), "pair") {
        return false;
    }
    let key = match field_child(node, "key") {
        Some(key) => key,
        None => return false,
    };
    assert(decreases_to!(*node => node.children@[spec_field_position(*node, "key"@)]));
    if !python_value_is_constant(key) {
        return false;
    }
    match field_child(node, "value") {
        Some(value) => {
            assert(decreases_to!(*node => node.children@[spec_field_position(*node, "value"@)]));
            python_value_is_constant(value)
        },
        None => false,
    }
}

/// A bare `NAME` bound to a pure literal value.
pub open spec fn spec_python_assignment_is_constant(node: SyntaxNode) -> bool {
    let children = node.children@;
    let left = spec_field_position(node, "left"@);
    let right = spec_field_position(node, "right"@);
    &&& 0 <= left < children.len() && children[left].kind@ == "identifier"@
    &&& 0 <= right < children.len() && spec_python_value(children[right])
}

/// Returns true when `assignment` binds a bare `NAME` (optionally typed)
/// to a pure literal value. An attribute, subscript or unpacking target is
/// mutation, not a constant declaration.
pub fn python_assignment_is_constant(assignment: &SyntaxNode) -> (constant: bool)
    ensures
        constant == spec_python_assignment_is_constant(*assignment),
{
    let left = match field_child(assignment, "left") {
        Some(left) => left,
        None => return false,
    };
    if !same_text(left.kind.as_str(), "identifier") {
        return false;
    }
    match field_child(assignment, "right") {
        Some(right) => python_value_is_constant(right),
        None => false,
    }
}

/// A Python expression statement: a lone docstring is trivia, a constant
/// assignment is a table entry, anything else (a chained `a = 1; b = 2`
/// too) disqualifies the range.
pub open spec fn spec_classify_python_expression_statement(node: SyntaxNode) -> TopLevel {
    let children = node.children@;
    let p = spec_sole_named(children);
    if !(0 <= p < children.len()) {
        TopLevel::Other
    } else if children[p].kind@ == "string"@ {
        TopLevel::Trivia
    } else if children[p].kind@ == "assignment"@ && spec_python_assignment_is_constant(children[p]) {
        TopLevel::ConstantDeclaration
    } else {
        TopLevel::Other
    }
}

/// Classifies a Python `expression_statement`.
pub fn classify_python_expression_statement(node: &SyntaxNode) -> (item: TopLevel)
    ensures
        item == spec_classify_python_expression_statement(*node),
{
    let inner = match sole_named_child(node) {
        Some(inner) => inner,
        None => return TopLevel::Other,
    };
    if same_text(inner.kind.as_str(), "string") {
        TopLevel::Trivia
    } else if same_text(inner.kind.as_str(), "assignment") && python_assignment_is_constant(inner) {
        TopLevel::ConstantDeclaration
    } else {
        TopLevel::Other
    }
}

/// Classifies one top-level `module` child in Python.
pub open spec fn spec_classify_python(node: SyntaxNode) -> TopLevel {
    if node.kind@ == "comment"@ {
        TopLevel::Trivia
    } else if node.kind@ == "expression_statement"@ {
        spec_classify_python_expression_statement(node)
    } else {
        TopLevel::Other
    }
}

/// Classifies one top-level `module` child in Python.
pub fn classify_python_item(node: &SyntaxNode) -> (item: TopLevel)
    ensures
        item == spec_classify_python(*node),
{
    if same_text(node.kind.as_str(), "comment") {
        TopLevel::Trivia
    } else if same_text(node.kind.as_str(), "expression_statement") {
        classify_python_expression_statement(node)
    } else {
        TopLevel::Other
    }
}

/// A Rust literal value with no embedded logic: a string, number, bool or
/// char, a reference or unary on one, or an array or tuple of them.
pub open spec fn spec_rust_value(node: SyntaxNode) -> bool
    decreases node, 1int,
{
    let kind = node.kind@;
    let children = node.children@;
    if kind == "string_literal"@ || kind == "raw_string_literal"@ || kind == "integer_literal"@
        || kind == "float_literal"@ || kind == "boolean_literal"@ || kind == "char_literal"@ {
        true
    } else if kind == "unary_expression"@ || kind == "reference_expression"@ || kind == "parenthesized_expression"@ {
        let p = spec_sole_named(children);
        0 <= p < children.len() && spec_rust_value(children[p])
    } else if kind == "array_expression"@ || kind == "tuple_expression"@ {
        spec_rust_all_values(children, children.len() as int)
    } else {
        false
    }
}

/// Every named child among the first `k` is a Rust literal value.
pub open spec fn spec_rust_all_values(children: Seq<SyntaxNode>, k: int) -> bool
    decreases children, k,
{
    if k <= 0 || k > children.len() {
        true
    } else {
        spec_rust_all_values(children, k - 1) && (!children[k - 1].named || spec_rust_value(children[k - 1]))
    }
}

proof fn lemma_rust_values_stop(children: Seq<SyntaxNode>, k: int, n: int)
    requires
        0 < k <= n <= children.len(),
        !spec_rust_all_values(children, k),
    ensures
        !spec_rust_all_values(children, n),
    decreases n - k,
{
    if k < n {
        lemma_rust_values_stop(children, k, n - 1);
    }
}

fn rust_all_values(node: &SyntaxNode) -> (all: bool)
    ensures
        all == spec_rust_all_values(node.children@, node.children@.len() as int),
    decreases *node, 0int,
{
    let mut index: usize = 0;
    while index < node.children.len()
        invariant
            index <= node.children@.len(),
            spec_rust_all_values(node.children@, index as int),
        decreases node.children@.len() - index,
    {
        let child = &node.children[index];
        assert(decreases_to!(*node => node.children@[index as int]));
        if child.named && !rust_value_is_constant(child) {
            proof {
                lemma_rust_values_stop(node.children@, index as int + 1, node.children@.len() as int);
            }
            return false;
        }
        index = index + 1;
    }
    true
}

/// Returns true when `node` is a Rust literal value with no embedded
/// logic. `foo()`, `Path::CONST` and `concat!(..)` are none of these and
/// keep the cluster visible.
pub fn rust_value_is_constant(node: &SyntaxNode) -> (constant: bool)
    ensures
        constant == spec_rust_value(*node),
    decreases *node, 1int,
{
    let kind = node.kind.as_str();
    if same_text(kind, "string_literal") || same_text(kind, "raw_string_literal") || same_text(kind, "integer_literal")
        || same_text(kind, "float_literal") || same_text(kind, "boolean_literal") || same_text(kind, "char_literal") {
        true
    } else if same_text(kind, "unary_expression") || same_text(kind, "reference_expression")
        || same_text(kind, "parenthesized_expression") {
        match sole_named_child(node) {
            Some(inner) => {
                assert(decreases_to!(*node => node.children@[spec_sole_named(node.children@)]));
                rust_value_is_constant(inner)
            },
            None => false,
        }
    } else if same_text(kind, "array_expression") || same_text(kind, "tuple_expression") {
        rust_all_values(node)
    } else {
        false
    }
}

/// A Rust `const` or `static` initialised by a literal value is a table
/// entry; one with no value, or a call, path or macro value, is not.
pub open spec fn spec_classify_rust_declaration(node: SyntaxNode) -> TopLevel {
    let children = node.children@;
    let p = spec_field_position(node, "value"@);
    if 0 <= p < children.len() && spec_rust_value(children[p]) {
        TopLevel::ConstantDeclaration
    } else {
        TopLevel::Other
    }
}

/// Classifies a Rust `const_item` / `static_item` by its initialiser.
pub fn classify_rust_declaration(node: &SyntaxNode) -> (item: TopLevel)
    ensures
        item == spec_classify_rust_declaration(*node),
{
    match field_child(node, "value") {
        Some(value) => if rust_value_is_constant(value) {
            TopLevel::ConstantDeclaration
        } else {
            TopLevel::Other
        },
        None => TopLevel::Other,
    }
}

/// Classifies one top-level `source_file` child in Rust: comments and
/// attributes are trivia, `const` and `static` items are judged by their
/// value, and anything else (a function, a `use`, a type) is no entry.
pub open spec fn spec_classify_rust(node: SyntaxNode) -> TopLevel {
    let kind = node.kind@;
    if kind == "line_comment"@ || kind == "block_comment"@ || kind == "attribute_item"@ || kind == "inner_attribute_item"@ {
        TopLevel::Trivia
    } else if kind == "const_item"@ || kind == "static_item"@ {
        spec_classify_rust_declaration(node)
    } else {
        TopLevel::Other
    }
}

/// Classifies one top-level `source_file` child in Rust.
pub fn classify_rust_item(node: &SyntaxNode) -> (item: TopLevel)
    ensures
        item == spec_classify_rust(*node),
{
    let kind = node.kind.as_str();
    if same_text(kind, "line_comment") || same_text(kind, "block_comment") || same_text(kind, "attribute_item")
        || same_text(kind, "inner_attribute_item") {
        TopLevel::Trivia
    } else if same_text(kind, "const_item") || same_text(kind, "static_item") {
        classify_rust_declaration(node)
    } else {
        TopLevel::Other
    }
}

/// An ECMAScript literal value with no embedded logic. A template string
/// with a substitution can embed expressions and is excluded.
pub open spec fn spec_ecmascript_value(node: SyntaxNode) -> bool
    decreases node, 1int,
{
    let kind = node.kind@;
    let children = node.children@;
    if kind == "string"@ || kind == "number"@ || kind == "true"@ || kind == "false"@ || kind == "null"@
        || kind == "undefined"@ {
        true
    } else if kind == "template_string"@ {
        !spec_has_named_kind(children, children.len() as int, "template_substitution"@)
    } else if kind == "unary_expression"@ || kind == "parenthesized_expression"@ || kind == "as_expression"@ {
        let p = spec_sole_named(children);
        0 <= p < children.len() && spec_ecmascript_value(children[p])
    } else if kind == "array"@ {
        spec_ecmascript_all_values(children, children.len() as int)
    } else if kind == "object"@ {
        spec_ecmascript_all_pairs(children, children.len() as int)
    } else {
        false
    }
}

/// Every named child among the first `k` is an ECMAScript literal value.
pub open spec fn spec_ecmascript_all_values(children: Seq<SyntaxNode>, k: int) -> bool
    decreases children, k,
{
    if k <= 0 || k > children.len() {
        true
    } else {
        spec_ecmascript_all_values(children, k - 1) && (!children[k - 1].named || spec_ecmascript_value(children[k - 1]))
    }
}

/// An object `pair` whose key is a plain property name, string or number
/// and whose value is constant.
pub open spec fn spec_ecmascript_pair(node: SyntaxNode) -> bool
    decreases node, 2int,
{
    let children = node.children@;
    let key = spec_field_position(node, "key"@);
    let value = spec_field_position(node, "value"@);
    &&& node.kind@ == "pair"@
    &&& 0 <= key < children.len()
    &&& (children[key].kind@ == "property_identifier"@ || children[key].kind@ == "string"@ || children[key].kind@ == "number"@)
    &&& 0 <= value < children.len() && spec_ecmascript_value(children[value])
}

/// Every named child among the first `k` is a constant object pair.
pub open spec fn spec_ecmascript_all_pairs(children: Seq<SyntaxNode>, k: int) -> bool
    decreases children, k,
{
    if k <= 0 || k > children.len() {
        true
    } else {
        spec_ecmascript_all_pairs(children, k - 1) && (!children[k - 1].named || spec_ecmascript_pair(children[k - 1]))
    }
}

proof fn lemma_ecmascript_values_stop(children: Seq<SyntaxNode>, k: int, n: int)
    requires
        0 < k <= n <= children.len(),
        !spec_ecmascript_all_values(children, k),
    ensures
        !spec_ecmascript_all_values(children, n),
    decreases n - k,
{
    if k < n {
        lemma_ecmascript_values_stop(children, k, n - 1);
    }
}

proof fn lemma_ecmascript_pairs_stop(children: Seq<SyntaxNode>, k: int, n: int)
    requires
        0 < k <= n <= children.len(),
        !spec_ecmascript_all_pairs(children, k),
    ensures
        !spec_ecmascript_all_pairs(children, n),
    decreases n - k,
{
    if k < n {
        lemma_ecmascript_pairs_stop(children, k, n - 1);
    }
}

fn ecmascript_all_values(node: &SyntaxNode) -> (all: bool)
    ensures
        all == spec_ecmascript_all_values(node.children@, node.children@.len() as int),
    decreases *node, 0int,
{
    let mut index: usize = 0;
    while index < node.children.len()
        invariant
            index <= node.children@.len(),
            spec_ecmascript_all_values(node.children@, index as int),
        decreases node.children@.len() - index,
    {
        let child = &node.children[index];
        assert(decreases_to!(*node => node.children@[index as int]));
        if child.named && !ecmascript_value_is_constant(child) {
            proof {
                lemma_ecmascript_values_stop(node.children@, index as int + 1, node.children@.len() as int);
            }
            return false;
        }
        index = index + 1;
    }
    true
}

fn ecmascript_all_pairs(node: &SyntaxNode) -> (all: bool)
    ensures
        all == spec_ecmascript_all_pairs(node.children@, node.children@.len() as int),
    decreases *node, 0int,
{
    let mut index: usize = 0;
    while index < node.children.len()
        invariant
            index <= node.children@.len(),
            spec_ecmascript_all_pairs(node.children@, index as int),
        decreases node.children@.len() - index,
    {
        let child = &node.children[index];
        assert(decreases_to!(*node => node.children@[index as int]));
        if child.named && !ecmascript_pair_is_constant(child) {
            proof {
                lemma_ecmascript_pairs_stop(node.children@, index as int + 1, node.children@.len() as int);
            }
            return false;
        }
        index = index + 1;
    }
    true
}

/// Returns true when `node` is an ECMAScript literal value with no
/// embedded logic.
pub fn ecmascript_value_is_constant(node: &SyntaxNode) -> (constant: bool)
    ensures
        constant == spec_ecmascript_value(*node),
    decreases *node, 1int,
{
    let kind = node.kind.as_str();
    if same_text(kind, "string") || same_text(kind, "number") || same_text(kind, "true") || same_text(kind, "false")
        || same_text(kind, "null") || same_text(kind, "undefined") {
        true
    } else if same_text(kind, "template_string") {
        !has_child_kind(node, "template_substitution")
    } else if same_text(kind, "unary_expression") || same_text(kind, "parenthesized_expression")
        || same_text(kind, "as_expression") {
        match sole_named_child(node) {
            Some(inner) => {
                assert(decreases_to!(*node => node.children@[spec_sole_named(node.children@)]));
                ecmascript_value_is_constant(inner)
            },
            None => false,
        }
    } else if same_text(kind, "array") {
        ecmascript_all_values(node)
    } else if same_text(kind, "object") {
        ecmascript_all_pairs(node)
    } else {
        false
    }
}

/// Returns true when an `object` child is a `pair` whose key is a plain
/// property name or string and whose value is constant. A spread element,
/// a shorthand property or a method definition disqualifies the object.
pub fn ecmascript_pair_is_constant(node: &SyntaxNode) -> (constant: bool)
    ensures
        constant == spec_ecmascript_pair(*node),
    decreases *node, 2int,
{
    if !same_text(node.kind.as_str(), "pair") {
        return false;
    }
    let key = match field_child(node, "key") {
        Some(key) => key,
        None => return false,
    };
    let key_kind = key.kind.as_str();
    if !(same_text(key_kind, "property_identifier") || same_text(key_kind, "string") || same_text(key_kind, "number")) {
        return false;
    }
    match field_child(node, "value") {
        Some(value) => {
            assert(decreases_to!(*node => node.children@[spec_field_position(*node, "value"@)]));
            ecmascript_value_is_constant(value)
        },
        None => false,
    }
}

/// A `variable_declarator` binding a bare name to a literal value.
pub open spec fn spec_ecmascript_declarator(node: SyntaxNode) -> bool {
    let children = node.children@;
    let name = spec_field_position(node, "name"@);
    let value = spec_field_position(node, "value"@);
    &&& 0 <= name < children.len() && children[name].kind@ == "identifier"@
    &&& 0 <= value < children.len() && spec_ecmascript_value(children[value])
}

/// Returns true when a `variable_declarator` binds a bare name to a
/// literal value.
pub fn ecmascript_declarator_is_constant(node: &SyntaxNode) -> (constant: bool)
    ensures
        constant == spec_ecmascript_declarator(*node),
{
    let name = match field_child(node, "name") {
        Some(name) => name,
        None => return false,
    };
    if !same_text(name.kind.as_str(), "identifier") {
        return false;
    }
    match field_child(node, "value") {
        Some(value) => ecmascript_value_is_constant(value),
        None => false,
    }
}

/// An ECMAScript `const` / `let` / `var` declaration with at least one
/// declarator, every one of them binding a plain name to a literal.
pub open spec fn spec_classify_ecmascript_declaration(node: SyntaxNode) -> TopLevel {
    let children = node.children@;
    let declarator = |child: SyntaxNode| child.named && child.kind@ == "variable_declarator"@;
    if !(exists|i: int| 0 <= i < children.len() && declarator(#[trigger] children[i])) {
        TopLevel::Other
    } else if forall|i: int| 0 <= i < children.len() && declarator(#[trigger] children[i]) ==> spec_ecmascript_declarator(children[i]) {
        TopLevel::ConstantDeclaration
    } else {
        TopLevel::Other
    }
}

/// Classifies an ECMAScript declaration: a declarator with no initialiser,
/// or one initialised by a call, an identifier or an arrow function, is
/// not a table entry.
pub fn classify_ecmascript_declaration(node: &SyntaxNode) -> (item: TopLevel)
    ensures
        item == spec_classify_ecmascript_declaration(*node),
{
    let mut any = false;
    let mut index: usize = 0;
    while index < node.children.len()
        invariant
            index <= node.children@.len(),
            any == exists|i: int| 0 <= i < index && (#[trigger] node.children@[i]).named
                && node.children@[i].kind@ == "variable_declarator"@,
            forall|i: int| 0 <= i < index && (#[trigger] node.children@[i]).named
                && node.children@[i].kind@ == "variable_declarator"@ ==> spec_ecmascript_declarator(node.children@[i]),
        decreases node.children@.len() - index,
    {
        let child = &node.children[index];
        if child.named && same_text(child.kind.as_str(), "variable_declarator") {
            any = true;
            if !ecmascript_declarator_is_constant(child) {
                let mut rest: usize = index + 1;
                while rest < node.children.len()
                    invariant
                        index < rest <= node.children@.len(),
                        any == exists|i: int| 0 <= i < rest && (#[trigger] node.children@[i]).named
                            && node.children@[i].kind@ == "variable_declarator"@,
                        any,
                    decreases node.children@.len() - rest,
                {
                    rest = rest + 1;
                }
                assert(node.children@[index as int].named && node.children@[index as int].kind@ == "variable_declarator"@);
                return TopLevel::Other;
            }
        }
        index = index + 1;
    }
    if any { TopLevel::ConstantDeclaration } else { TopLevel::Other }
}

/// Classifies one top-level `program` child in JavaScript / TypeScript: an
/// `export` is judged by what it exports, a declaration by its
/// declarators.
pub open spec fn spec_classify_ecmascript(node: SyntaxNode) -> TopLevel
    decreases node,
{
    let kind = node.kind@;
    let children = node.children@;
    if kind == "comment"@ {
        TopLevel::Trivia
    } else if kind == "export_statement"@ {
        let p = spec_sole_named(children);
        if 0 <= p < children.len() { spec_classify_ecmascript(children[p]) } else { TopLevel::Other }
    } else if kind == "lexical_declaration"@ || kind == "variable_declaration"@ {
        spec_classify_ecmascript_declaration(node)
    } else {
        TopLevel::Other
    }
}

/// Classifies one top-level `program` child in JavaScript / TypeScript.
pub fn classify_ecmascript_item(node: &SyntaxNode) -> (item: TopLevel)
    ensures
        item == spec_classify_ecmascript(*node),
    decreases *node,
{
    let kind = node.kind.as_str();
    if same_text(kind, "comment") {
        TopLevel::Trivia
    } else if same_text(kind, "export_statement") {
        match sole_named_child(node) {
            Some(inner) => {
                assert(decreases_to!(*node => node.children@[spec_sole_named(node.children@)]));
                classify_ecmascript_item(inner)
            },
            None => TopLevel::Other,
        }
    } else if same_text(kind, "lexical_declaration") || same_text(kind, "variable_declaration") {
        classify_ecmascript_declaration(node)
    } else {
        TopLevel::Other
    }
}

/// One top-level item classified in a grammar.
pub open spec fn spec_classify(grammar: TableGrammar, node: SyntaxNode) -> TopLevel {
    match grammar {
        TableGrammar::Python => spec_classify_python(node),
        TableGrammar::Rust => spec_classify_rust(node),
        TableGrammar::EcmaScript => spec_classify_ecmascript(node),
    }
}

/// Whether `root` is the grammar's module root and every named top-level
/// item touching `range` is trivia or a constant declaration, with at
/// least one constant declaration.
pub open spec fn spec_constants_cover(grammar: TableGrammar, root: SyntaxNode, range: ByteRange) -> bool {
    let children = root.children@;
    &&& root.kind@ == spec_module_kind(grammar)
    &&& forall|i: int| 0 <= i < children.len() && (#[trigger] children[i]).named && spec_intersects(children[i], range)
        ==> spec_classify(grammar, children[i]) != TopLevel::Other
    &&& exists|i: int| 0 <= i < children.len() && (#[trigger] children[i]).named && spec_intersects(children[i], range)
        && spec_classify(grammar, children[i]) == TopLevel::ConstantDeclaration
}

/// Whether the top-level items of `root` touching `range` form a constant
/// table in `grammar`.
pub fn constants_cover(grammar: TableGrammar, root: &SyntaxNode, range: ByteRange) -> (table: bool)
    ensures
        table == spec_constants_cover(grammar, *root, range),
{
    if !same_text(root.kind.as_str(), grammar.module_kind()) {
        return false;
    }
    let mut saw_constant = false;
    let mut index: usize = 0;
    while index < root.children.len()
        invariant
            index <= root.children@.len(),
            root.kind@ == spec_module_kind(grammar),
            forall|i: int| 0 <= i < index && (#[trigger] root.children@[i]).named && spec_intersects(root.children@[i], range)
                ==> spec_classify(grammar, root.children@[i]) != TopLevel::Other,
            saw_constant == exists|i: int| 0 <= i < index && (#[trigger] root.children@[i]).named
                && spec_intersects(root.children@[i], range)
                && spec_classify(grammar, root.children@[i]) == TopLevel::ConstantDeclaration,
        decreases root.children@.len() - index,
    {
        let child = &root.children[index];
        if child.named && node_intersects_range(child, range) {
            match grammar.classify(child) {
                TopLevel::Trivia => {},
                TopLevel::ConstantDeclaration => {
                    saw_constant = true;
                },
                TopLevel::Other => return false,
            }
        }
        index = index + 1;
    }
    saw_constant
}

/// The range a member's table is read over: its trimmed range, or the
/// reported one where trimming leaves nothing.
pub open spec fn spec_table_range(snippet: Snippet) -> ByteRange {
    match spec_trimmed_range(snippet) {
        Some(range) => range,
        None => snippet.range,
    }
}

/// Whether one member's parsed file covers only a constant table over its
/// range.
pub open spec fn spec_covers_only_constants(snippet: Snippet) -> bool {
    match (spec_table_grammar(snippet.language@), spec_plugin_parse(snippet.language@, snippet.source@)) {
        (Some(grammar), Some(tree)) => spec_constants_cover(grammar, tree, spec_table_range(snippet)),
        _ => false,
    }
}

/// Returns true when the member's range lies at module top level and
/// every top-level item it covers is trivia or a constant declaration,
/// with at least one constant declaration present.
pub fn covers_only_constants(snippet: &Snippet) -> (table: bool)
    ensures
        table == spec_covers_only_constants(*snippet),
{
    let grammar = match TableGrammar::of(snippet.language) {
        Some(grammar) => grammar,
        None => return false,
    };
    let tree = match parse_snippet(snippet) {
        Some(tree) => tree,
        None => return false,
    };
    let range = match trimmed_snippet_range(snippet) {
        Some(range) => range,
        None => snippet.range,
    };
    constants_cover(grammar, &tree, range)
}

/// Every member covers a constant table and at least two members differ
/// in raw bytes.
pub open spec fn spec_is_constant_table_cluster(snippets: Seq<Snippet>) -> bool {
    &&& snippets.len() >= 2
    &&& forall|i: int| 0 <= i < snippets.len() ==> spec_covers_only_constants(#[trigger] snippets[i])
    &&& spec_raw_texts_differ(snippets)
}

/// Returns true when every cluster member's matched range covers a run of
/// module-level constant declarations and at least two members differ in
/// raw bytes: unrelated data tables are not duplication.
pub fn is_constant_table_cluster(snippets: &[Snippet]) -> (table: bool)
    ensures
        table == spec_is_constant_table_cluster(snippets@),
{
    if snippets.len() < 2 {
        return false;
    }
    let mut index: usize = 0;
    while index < snippets.len()
        invariant
            index <= snippets@.len(),
            forall|i: int| 0 <= i < index ==> spec_covers_only_constants(#[trigger] snippets@[i]),
        decreases snippets@.len() - index,
    {
        if !covers_only_constants(&snippets[index]) {
            return false;
        }
        index = index + 1;
    }
    raw_snippet_texts_differ(snippets)
}

/// A pure literal value in `language`: no call, no name, no
/// interpolation. A language with no constant-table grammar has no literal
/// grammar either.
pub open spec fn spec_is_literal_value(language: Seq<char>, node: SyntaxNode) -> bool {
    match spec_table_grammar(language) {
        Some(TableGrammar::Python) => spec_python_value(node),
        Some(TableGrammar::Rust) => spec_rust_value(node),
        Some(TableGrammar::EcmaScript) => spec_ecmascript_value(node),
        None => false,
    }
}

/// True when `node` is a pure literal value in `language`, so "a literal
/// payload" means one thing across the filters.
pub fn is_literal_value(language: &str, node: &SyntaxNode) -> (literal: bool)
    ensures
        literal == spec_is_literal_value(language@, *node),
{
    match TableGrammar::of(language) {
        Some(TableGrammar::Python) => python_value_is_constant(node),
        Some(TableGrammar::Rust) => rust_value_is_constant(node),
        Some(TableGrammar::EcmaScript) => ecmascript_value_is_constant(node),
        None => false,
    }
}

/// Whether one Python member's parsed file covers only module-level
/// constant assignments over its range.
pub open spec fn spec_covers_only_module_constants(snippet: Snippet) -> bool {
    match spec_plugin_parse(snippet.language@, snippet.source@) {
        Some(tree) => spec_constants_cover(TableGrammar::Python, tree, spec_table_range(snippet)),
        None => false,
    }
}

/// Returns true when the member's range lies at Python module top level
/// and every top-level statement it covers is a comment, a docstring or a
/// constant assignment, with at least one constant assignment present.
pub fn covers_only_module_constants(snippet: &Snippet) -> (table: bool)
    ensures
        table == spec_covers_only_module_constants(*snippet),
{
    let tree = match parse_snippet(snippet) {
        Some(tree) => tree,
        None => return false,
    };
    let range = match trimmed_snippet_range(snippet) {
        Some(range) => range,
        None => snippet.range,
    };
    constants_cover(TableGrammar::Python, &tree, range)
}

/// Every member is Python and covers a module constant table, and two
/// members differ in raw bytes.
pub open spec fn spec_is_module_constant_table_cluster(snippets: Seq<Snippet>) -> bool {
    &&& snippets.len() >= 2
    &&& forall|i: int| 0 <= i < snippets.len() ==> (#[trigger] snippets[i]).language@ == "python"@
    &&& forall|i: int| 0 <= i < snippets.len() ==> spec_covers_only_module_constants(#[trigger] snippets[i])
    &&& spec_raw_texts_differ(snippets)
}

/// Returns true when every Python member's range covers a run of
/// module-level constant assignments and two members differ in raw bytes;
/// a verbatim copy stays visible.
pub fn is_module_constant_table_cluster(snippets: &[Snippet]) -> (table: bool)
    ensures
        table == spec_is_module_constant_table_cluster(snippets@),
{
    if snippets.len() < 2 {
        return false;
    }
    let mut index: usize = 0;
    while index < snippets.len()
        invariant
            index <= snippets@.len(),
            forall|i: int| 0 <= i < index ==> (#[trigger] snippets@[i]).language@ == "python"@,
        decreases snippets@.len() - index,
    {
        if !same_text(snippets[index].language, "python") {
            return false;
        }
        index = index + 1;
    }
    let mut index: usize = 0;
    while index < snippets.len()
        invariant
            index <= snippets@.len(),
            forall|i: int| 0 <= i < snippets@.len() ==> (#[trigger] snippets@[i]).language@ == "python"@,
            forall|i: int| 0 <= i < index ==> spec_covers_only_module_constants(#[trigger] snippets@[i]),
        decreases snippets@.len() - index,
    {
        if !covers_only_module_constants(&snippets[index]) {
            return false;
        }
        index = index + 1;
    }
    raw_snippet_texts_differ(snippets)
}

} // verus!
