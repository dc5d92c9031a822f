//! Syntax-only boilerplate classification.
//!
//! The classifier is language-aware at the AST-kind level and never scans
//! raw source text. Downstream stages use it to keep import and prologue
//! scaffolding and route decorators out of clone fingerprints, while
//! retaining byte ranges for optional hygiene hints.

use vstd::prelude::*;

use crate::ast::{ByteRange, FileId, NormalizedNode};
use crate::text::same_text;

verus! {

/// The kind every normalised literal carries.
pub const LITERAL_KIND: &'static str = "__literal__";

/// The kind every normalised identifier carries.
pub const IDENTIFIER_KIND: &'static str = "__identifier__";

/// One syntax-only import/prologue range suppressed from clone ranking.
#[derive(Debug, Clone, Copy)]
pub struct BoilerplateRange {
    /// File containing the boilerplate range.
    pub file_id: FileId,
    /// Language id that produced the syntax kind.
    pub language: &'static str,
    /// Original byte range in the source file.
    pub byte_range: ByteRange,
}

/// Whether `kind` is an import or prologue carrier in `language`.
pub open spec fn spec_is_carrier(language: Seq<char>, kind: Seq<char>) -> bool {
    if language == "csharp"@ {
        kind == "using_directive"@ || kind == "file_scoped_namespace_declaration"@
    } else if language == "python"@ {
        kind == "future_import_statement"@ || kind == "import_statement"@ || kind == "import_from_statement"@
            || kind == "decorator"@
    } else if language == "rust"@ {
        kind == "use_declaration"@ || kind == "extern_crate_declaration"@
    } else if language == "dart"@ {
        kind == "import_or_export"@
    } else if language == "javascript"@ || language == "typescript"@ || language == "tsx"@ {
        kind == "import_statement"@
    } else {
        false
    }
}

/// C# import/prologue carriers.
fn csharp_carrier(kind: &str) -> (carrier: bool)
    ensures
        carrier == (kind@ == "using_directive"@ || kind@ == "file_scoped_namespace_declaration"@),
{
    same_text(kind, "using_directive") || same_text(kind, "file_scoped_namespace_declaration")
}

/// Python import/prologue and framework-route carriers.
fn python_carrier(kind: &str) -> (carrier: bool)
    ensures
        carrier == (kind@ == "future_import_statement"@ || kind@ == "import_statement"@
            || kind@ == "import_from_statement"@ || kind@ == "decorator"@),
{
    same_text(kind, "future_import_statement") || same_text(kind, "import_statement")
        || same_text(kind, "import_from_statement") || same_text(kind, "decorator")
}

/// Rust import/prologue carriers.
fn rust_carrier(kind: &str) -> (carrier: bool)
    ensures
        carrier == (kind@ == "use_declaration"@ || kind@ == "extern_crate_declaration"@),
{
    same_text(kind, "use_declaration") || same_text(kind, "extern_crate_declaration")
}

/// Dart import/export/part directives: `import_or_export` wraps every
/// library import, export and part directive, all top-level scaffolding.
fn dart_carrier(kind: &str) -> (carrier: bool)
    ensures
        carrier == (kind@ == "import_or_export"@),
{
    same_text(kind, "import_or_export")
}

/// JavaScript / TypeScript / TSX import carriers. Re-export barrels are a
/// subtree rule, since `export_statement` also wraps real declarations.
fn ecmascript_carrier(kind: &str) -> (carrier: bool)
    ensures
        carrier == (kind@ == "import_statement"@),
{
    same_text(kind, "import_statement")
}

/// Whether `kind` is an import/prologue carrier for `language`.
pub fn is_import_boilerplate_carrier(language: &str, kind: &str) -> (carrier: bool)
    ensures
        carrier == spec_is_carrier(language@, kind@),
{
    if same_text(language, "csharp") {
        csharp_carrier(kind)
    } else if same_text(language, "python") {
        python_carrier(kind)
    } else if same_text(language, "rust") {
        rust_carrier(kind)
    } else if same_text(language, "dart") {
        dart_carrier(kind)
    } else if same_text(language, "javascript") || same_text(language, "typescript") || same_text(language, "tsx") {
        ecmascript_carrier(kind)
    } else {
        false
    }
}

/// The named export clause or namespace re-export of a barrel.
pub open spec fn spec_is_export_list(node: NormalizedNode) -> bool {
    node.kind@ == "export_clause"@ || node.kind@ == "namespace_export"@
}

/// A child a re-export barrel may hold.
pub open spec fn spec_is_reexport_child(node: NormalizedNode) -> bool {
    spec_is_export_list(node) || node.kind@ == LITERAL_KIND@
}

/// A re-export barrel: an `export_statement` with a named export clause
/// or namespace re-export, holding nothing but those and its module source.
pub open spec fn spec_is_reexport(node: NormalizedNode) -> bool {
    &&& node.kind@ == "export_statement"@
    &&& exists|i: int| 0 <= i < node.children@.len() && spec_is_export_list(#[trigger] node.children@[i])
    &&& forall|i: int| 0 <= i < node.children@.len() ==> spec_is_reexport_child(#[trigger] node.children@[i])
}

/// A Python docstring: an expression statement of literals only.
pub open spec fn spec_is_docstring(node: NormalizedNode) -> bool {
    &&& node.kind@ == "expression_statement"@
    &&& node.children@.len() > 0
    &&& forall|i: int| 0 <= i < node.children@.len() ==> (#[trigger] node.children@[i]).kind@ == LITERAL_KIND@
}

/// Whether the whole subtree is import/prologue boilerplate in `language`.
pub open spec fn spec_is_boilerplate_subtree(language: Seq<char>, node: NormalizedNode) -> bool
    decreases node, 2int,
{
    spec_is_carrier(language, node.kind@)
        || spec_is_language_specific(language, node)
        || (node.children@.len() > 0 && all_children_boilerplate(language, node.children@, node.children@.len() as int))
}

/// Every one of the first `k` children is boilerplate.
pub open spec fn all_children_boilerplate(language: Seq<char>, children: Seq<NormalizedNode>, k: int) -> bool
    decreases children, k,
{
    if k <= 0 || k > children.len() {
        true
    } else {
        all_children_boilerplate(language, children, k - 1) && spec_is_boilerplate_subtree(language, children[k - 1])
    }
}

/// Language-specific wrappers whose children encode prologue-only syntax.
pub open spec fn spec_is_language_specific(language: Seq<char>, node: NormalizedNode) -> bool
    decreases node, 1int,
{
    if language == "python"@ {
        spec_is_docstring(node) || spec_is_import_guard(node)
    } else if language == "javascript"@ || language == "typescript"@ || language == "tsx"@ {
        spec_is_reexport(node)
    } else {
        false
    }
}

/// An `if TYPE_CHECKING:` block or its body: an identifier guard plus imports.
pub open spec fn spec_is_import_guard(node: NormalizedNode) -> bool
    decreases node, 0int,
{
    (node.kind@ == "if_statement"@ || node.kind@ == "block"@)
        && node.children@.len() > 0
        && all_guard_children(node.children@, node.children@.len() as int)
}

/// Every one of the first `k` children may sit inside an import guard.
pub open spec fn all_guard_children(children: Seq<NormalizedNode>, k: int) -> bool
    decreases children, k,
{
    if k <= 0 || k > children.len() {
        true
    } else {
        all_guard_children(children, k - 1)
            && (children[k - 1].kind@ == IDENTIFIER_KIND@ || children[k - 1].kind@ == LITERAL_KIND@
                || spec_is_boilerplate_subtree("python"@, children[k - 1]))
    }
}

/// The named export clause or namespace re-export that distinguishes a
/// re-export barrel from a value export.
fn is_ecmascript_export_list(node: &NormalizedNode) -> (list: bool)
    ensures
        list == spec_is_export_list(*node),
{
    same_text(node.kind, "export_clause") || same_text(node.kind, "namespace_export")
}

/// Direct children allowed inside a re-export barrel.
fn is_ecmascript_reexport_child(node: &NormalizedNode) -> (allowed: bool)
    ensures
        allowed == spec_is_reexport_child(*node),
{
    is_ecmascript_export_list(node) || same_text(node.kind, LITERAL_KIND)
}

/// A re-export barrel is module scaffolding, not duplicate logic. A bare
/// literal export is not a barrel: it may be a real default export.
fn is_ecmascript_reexport(node: &NormalizedNode) -> (barrel: bool)
    ensures
        barrel == spec_is_reexport(*node),
{
    if !same_text(node.kind, "export_statement") {
        return false;
    }
    let mut has_list = false;
    let mut index: usize = 0;
    while index < node.children.len()
        invariant
            index <= node.children@.len(),
            has_list == exists|i: int| 0 <= i < index && spec_is_export_list(#[trigger] node.children@[i]),
            forall|i: int| 0 <= i < index ==> spec_is_reexport_child(#[trigger] node.children@[i]),
        decreases node.children@.len() - index,
    {
        let child = &node.children[index];
        if !is_ecmascript_reexport_child(child) {
            return false;
        }
        if is_ecmascript_export_list(child) {
            has_list = true;
        }
        index = index + 1;
    }
    has_list
}

/// Python docstrings parse as expression statements holding a literal.
fn is_python_docstring_statement(node: &NormalizedNode) -> (docstring: bool)
    ensures
        docstring == spec_is_docstring(*node),
{
    if !same_text(node.kind, "expression_statement") || node.children.len() == 0 {
        return false;
    }
    let mut index: usize = 0;
    while index < node.children.len()
        invariant
            index <= node.children@.len(),
            forall|i: int| 0 <= i < index ==> (#[trigger] node.children@[i]).kind@ == LITERAL_KIND@,
        decreases node.children@.len() - index,
    {
        if !same_text(node.children[index].kind, LITERAL_KIND) {
            return false;
        }
        index = index + 1;
    }
    true
}

/// Children allowed inside a Python import-only guard.
fn is_python_import_guard_child(node: &NormalizedNode) -> (allowed: bool)
    ensures
        allowed == (node.kind@ == IDENTIFIER_KIND@ || node.kind@ == LITERAL_KIND@
            || spec_is_boilerplate_subtree("python"@, *node)),
    decreases *node, 4int,
{
    same_text(node.kind, IDENTIFIER_KIND) || same_text(node.kind, LITERAL_KIND)
        || is_import_boilerplate_only_subtree("python", node)
}

/// `if TYPE_CHECKING:` blocks hold an identifier guard plus imports.
fn is_python_import_guard(node: &NormalizedNode) -> (guard: bool)
    ensures
        guard == spec_is_import_guard(*node),
    decreases *node, 0int,
{
    if !(same_text(node.kind, "if_statement") || same_text(node.kind, "block")) || node.children.len() == 0 {
        return false;
    }
    let mut index: usize = 0;
    while index < node.children.len()
        invariant
            index <= node.children@.len(),
            node.children@.len() > 0,
            node.kind@ == "if_statement"@ || node.kind@ == "block"@,
            all_guard_children(node.children@, index as int),
        decreases node.children@.len() - index,
    {
        assert(decreases_to!(*node => node.children@[index as int]));
        if !is_python_import_guard_child(&node.children[index]) {
            proof {
                lemma_guard_children_stop(node.children@, index as int + 1, node.children@.len() as int);
            }
            return false;
        }
        index = index + 1;
    }
    true
}

proof fn lemma_guard_children_stop(children: Seq<NormalizedNode>, k: int, n: int)
    requires
        0 < k <= n <= children.len(),
        !all_guard_children(children, k),
    ensures
        !all_guard_children(children, n),
    decreases n - k,
{
    if k < n {
        lemma_guard_children_stop(children, k, n - 1);
    }
}

proof fn lemma_boilerplate_children_stop(language: Seq<char>, children: Seq<NormalizedNode>, k: int, n: int)
    requires
        0 < k <= n <= children.len(),
        !all_children_boilerplate(language, children, k),
    ensures
        !all_children_boilerplate(language, children, n),
    decreases n - k,
{
    if k < n {
        lemma_boilerplate_children_stop(language, children, k, n - 1);
    }
}

/// Python module docstrings and guarded import blocks are prologue syntax.
fn is_python_prologue_subtree(node: &NormalizedNode) -> (prologue: bool)
    ensures
        prologue == (spec_is_docstring(*node) || spec_is_import_guard(*node)),
    decreases *node, 1int,
{
    is_python_docstring_statement(node) || is_python_import_guard(node)
}

/// Language-specific wrappers whose children encode prologue-only syntax.
fn is_language_specific_boilerplate_subtree(language: &str, node: &NormalizedNode) -> (boilerplate: bool)
    ensures
        boilerplate == spec_is_language_specific(language@, *node),
    decreases *node, 2int,
{
    if same_text(language, "python") {
        is_python_prologue_subtree(node)
    } else if same_text(language, "javascript") || same_text(language, "typescript") || same_text(language, "tsx") {
        is_ecmascript_reexport(node)
    } else {
        false
    }
}

/// Whether the whole subtree is import/prologue boilerplate.
pub fn is_import_boilerplate_only_subtree(language: &str, node: &NormalizedNode) -> (boilerplate: bool)
    ensures
        boilerplate == spec_is_boilerplate_subtree(language@, *node),
    decreases *node, 3int,
{
    if is_import_boilerplate_carrier(language, node.kind) {
        return true;
    }
    if is_language_specific_boilerplate_subtree(language, node) {
        return true;
    }
    if node.children.len() == 0 {
        return false;
    }
    let mut index: usize = 0;
    while index < node.children.len()
        invariant
            index <= node.children@.len(),
            node.children@.len() > 0,
            !spec_is_carrier(language@, node.kind@),
            !spec_is_language_specific(language@, *node),
            all_children_boilerplate(language@, node.children@, index as int),
        decreases node.children@.len() - index,
    {
        assert(decreases_to!(*node => node.children@[index as int]));
        if !is_import_boilerplate_only_subtree(language, &node.children[index]) {
            proof {
                lemma_boilerplate_children_stop(language@, node.children@, index as int + 1, node.children@.len() as int);
            }
            return false;
        }
        index = index + 1;
    }
    true
}

/// Whether `node` should be suppressed from clone fingerprints: it
/// carries, or consists entirely of, import/prologue boilerplate.
pub fn is_boilerplate(language: Option<&str>, node: &NormalizedNode) -> (boilerplate: bool)
    ensures
        boilerplate == match language {
            Some(lang) => spec_is_carrier(lang@, node.kind@) || spec_is_boilerplate_subtree(lang@, *node),
            None => false,
        },
{
    match language {
        Some(lang) => is_import_boilerplate_carrier(lang, node.kind) || is_import_boilerplate_only_subtree(lang, node),
        None => false,
    }
}

/// The ranges of every outermost carrier in `node`'s subtree, in source
/// order: a carrier is reported whole, its descendants not searched.
pub open spec fn spec_carrier_ranges(language: Seq<char>, node: NormalizedNode) -> Seq<(FileId, ByteRange)>
    decreases node, 0int,
{
    if spec_is_carrier(language, node.kind@) {
        seq![(node.file_id, node.byte_range)]
    } else {
        children_carrier_ranges(language, node.children@, node.children@.len() as int)
    }
}

/// The carrier ranges of the first `k` children, in order.
pub open spec fn children_carrier_ranges(language: Seq<char>, children: Seq<NormalizedNode>, k: int) -> Seq<(FileId, ByteRange)>
    decreases children, k,
{
    if k <= 0 || k > children.len() {
        seq![]
    } else {
        children_carrier_ranges(language, children, k - 1) + spec_carrier_ranges(language, children[k - 1])
    }
}

/// The models of a list of boilerplate ranges.
pub open spec fn ranges_view(ranges: Seq<BoilerplateRange>) -> Seq<(FileId, ByteRange)> {
    ranges.map_values(|range: BoilerplateRange| (range.file_id, range.byte_range))
}

/// Converts a carrier node into its reportable suppressed range.
fn range_for(node: &NormalizedNode, language: &'static str) -> (range: BoilerplateRange)
    ensures
        range.file_id == node.file_id,
        range.byte_range == node.byte_range,
        range.language == language,
{
    BoilerplateRange { file_id: node.file_id, language, byte_range: node.byte_range }
}

/// Recursive carrier scan.
fn collect_ranges(node: &NormalizedNode, language: &'static str, ranges: &mut Vec<BoilerplateRange>)
    ensures
        ranges_view(final(ranges)@) == ranges_view(old(ranges)@) + spec_carrier_ranges(language@, *node),
        final(ranges)@.len() >= old(ranges)@.len(),
        forall|i: int| 0 <= i < old(ranges)@.len() ==> final(ranges)@[i] == old(ranges)@[i],
        forall|i: int| old(ranges)@.len() <= i < final(ranges)@.len() ==> (#[trigger] final(ranges)@[i]).language == language,
    decreases *node, 0int,
{
    if is_import_boilerplate_carrier(language, node.kind) {
        let ghost before = ranges_view(ranges@);
        ranges.push(range_for(node, language));
        assert(ranges_view(ranges@) =~= before + seq![(node.file_id, node.byte_range)]);
        return;
    }
    let ghost start = ranges@;
    let mut index: usize = 0;
    while index < node.children.len()
        invariant
            index <= node.children@.len(),
            !spec_is_carrier(language@, node.kind@),
            ranges_view(ranges@) == ranges_view(start) + children_carrier_ranges(language@, node.children@, index as int),
            start.len() <= ranges@.len(),
            forall|i: int| 0 <= i < start.len() ==> ranges@[i] == start[i],
            forall|i: int| start.len() <= i < ranges@.len() ==> (#[trigger] ranges@[i]).language == language,
        decreases node.children@.len() - index,
    {
        assert(decreases_to!(*node => node.children@[index as int]));
        collect_ranges(&node.children[index], language, ranges);
        index = index + 1;
    }
}

/// Collects byte ranges for every import/prologue carrier in `root`.
pub fn collect_import_boilerplate_ranges(root: &NormalizedNode, language: &'static str) -> (ranges: Vec<BoilerplateRange>)
    ensures
        ranges_view(ranges@) == spec_carrier_ranges(language@, *root),
        forall|i: int| 0 <= i < ranges@.len() ==> (#[trigger] ranges@[i]).language == language,
{
    let mut ranges: Vec<BoilerplateRange> = Vec::new();
    collect_ranges(root, language, &mut ranges);
    assert(ranges_view(ranges@) =~= ranges_view(Seq::<BoilerplateRange>::empty()) + spec_carrier_ranges(language@, *root));
    ranges
}

/// Every language's import directive is boilerplate, whatever it holds:
/// a Dart `import`/`export`/`part` directive, an ECMAScript or Python
/// import statement, a Rust `use`, a C# `using`. The directive's whole
/// range is what the collection reports for it.
pub proof fn lemma_import_directives_are_boilerplate(language: Seq<char>, node: NormalizedNode)
    requires
        (language == "dart"@ && node.kind@ == "import_or_export"@)
            || ((language == "javascript"@ || language == "typescript"@ || language == "tsx"@ || language == "python"@)
                && node.kind@ == "import_statement"@)
            || (language == "python"@ && node.kind@ == "import_from_statement"@)
            || (language == "rust"@ && node.kind@ == "use_declaration"@)
            || (language == "csharp"@ && node.kind@ == "using_directive"@),
    ensures
        spec_is_boilerplate_subtree(language, node),
        spec_carrier_ranges(language, node) == seq![(node.file_id, node.byte_range)],
{
    reveal_strlit("csharp");
    reveal_strlit("python");
    reveal_strlit("rust");
    reveal_strlit("dart");
    reveal_strlit("javascript");
    reveal_strlit("typescript");
    reveal_strlit("tsx");
    assert("csharp"@.len() == 6 && "python"@.len() == 6 && "rust"@.len() == 4 && "dart"@.len() == 4);
    assert("javascript"@.len() == 10 && "typescript"@.len() == 10 && "tsx"@.len() == 3);
    assert("csharp"@[0] == 'c' && "python"@[0] == 'p' && "rust"@[0] == 'r' && "dart"@[0] == 'd');
    assert("javascript"@[0] == 'j' && "typescript"@[0] == 't');
    assert(spec_is_carrier(language, node.kind@));
    reveal_with_fuel(spec_is_boilerplate_subtree, 1);
    reveal_with_fuel(spec_carrier_ranges, 1);
}

} // verus!
