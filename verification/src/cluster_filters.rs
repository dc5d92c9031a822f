//! Cluster-level facts read off the normalised trees.

use vstd::prelude::*;

use crate::ast::{ByteRange, FileId};
use crate::text::{same_bytes, same_text};
use snippets::Snippet;

pub mod override_marker;
pub mod calls;
pub mod snippets;
pub mod node_search;
pub mod syntax;
pub mod constant_table;
pub mod contract_index;
pub mod polymorphic;
pub mod noise;
pub mod python;
pub mod python_idioms;
pub mod python_class_shapes;
pub mod family;
pub mod dart_data_table;
pub mod dart;
pub mod ecmascript;
pub mod python_collection_cells;
pub mod python_dict_assert;
pub mod forwarding;
pub mod declaration_family;
pub mod data_table;
pub mod noise_bank;
pub mod body_shape;

verus! {

/// One node of a concrete syntax tree, as the parser produced it.
#[derive(Debug)]
pub struct SyntaxNode {
    /// The grammar's node kind.
    pub kind: String,
    /// The grammar's numeric id of the node kind.
    pub kind_id: u16,
    /// Whether the grammar names the node (as opposed to an anonymous token).
    pub named: bool,
    /// Whether the node is one of the grammar's extras, such as a comment,
    /// which may appear anywhere.
    pub extra: bool,
    /// The field under which the node sits in its parent, if any.
    pub field: Option<String>,
    /// Start byte in the source.
    pub start_byte: usize,
    /// End byte in the source.
    pub end_byte: usize,
    /// Every child, named or not, in order.
    pub children: Vec<SyntaxNode>,
}

/// The models of a list of node kinds.
pub open spec fn kinds_view(kinds: Seq<&'static str>) -> Seq<Seq<char>> {
    kinds.map_values(|kind: &'static str| kind@)
}

/// The function-like declaration productions of a language's grammar;
/// none for a language without one.
pub open spec fn spec_function_kinds(language: Seq<char>) -> Seq<Seq<char>> {
    if language == "python"@ {
        seq!["function_definition"@]
    } else if language == "csharp"@ {
        seq!["method_declaration"@, "local_function_statement"@]
    } else if language == "rust"@ {
        seq!["function_item"@]
    } else if language == "dart"@ {
        seq!["function_declaration"@, "method_declaration"@]
    } else if language == "javascript"@ || language == "typescript"@ || language == "tsx"@ {
        seq![
            "function_declaration"@,
            "generator_function_declaration"@,
            "method_definition"@,
            "function_expression"@,
            "arrow_function"@,
        ]
    } else if language == "php"@ {
        seq!["function_definition"@, "method_declaration"@]
    } else if language == "fsharp"@ {
        seq!["function_or_value_defn"@, "method_or_prop_defn"@]
    } else if language == "go"@ {
        seq!["function_declaration"@, "method_declaration"@, "func_literal"@]
    } else {
        seq![]
    }
}

/// The function-like declaration kinds of `language`, keyed by language
/// so a production name that means "function" in one grammar cannot
/// classify a node in another. Each listed form exposes a `body` field.
pub fn function_kinds(language: &str) -> (kinds: Vec<&'static str>)
    ensures
        kinds_view(kinds@) == spec_function_kinds(language@),
{
    let kinds: Vec<&'static str> = if same_text(language, "python") {
        vec!["function_definition"]
    } else if same_text(language, "csharp") {
        vec!["method_declaration", "local_function_statement"]
    } else if same_text(language, "rust") {
        vec!["function_item"]
    } else if same_text(language, "dart") {
        vec!["function_declaration", "method_declaration"]
    } else if same_text(language, "javascript") || same_text(language, "typescript") || same_text(language, "tsx") {
        vec![
            "function_declaration",
            "generator_function_declaration",
            "method_definition",
            "function_expression",
            "arrow_function",
        ]
    } else if same_text(language, "php") {
        vec!["function_definition", "method_declaration"]
    } else if same_text(language, "fsharp") {
        vec!["function_or_value_defn", "method_or_prop_defn"]
    } else if same_text(language, "go") {
        vec!["function_declaration", "method_declaration", "func_literal"]
    } else {
        Vec::new()
    };
    assert(kinds_view(kinds@) =~= spec_function_kinds(language@));
    kinds
}


/// Whether `kind` is one of `kinds`.
pub fn kind_in(kind: &str, kinds: &Vec<&'static str>) -> (found: bool)
    ensures
        found == kinds_view(kinds@).contains(kind@),
{
    let mut index: usize = 0;
    while index < kinds.len()
        invariant
            index <= kinds@.len(),
            forall|j: int| 0 <= j < index ==> kinds@[j]@ != kind@,
        decreases kinds@.len() - index,
    {
        if same_text(kinds[index], kind) {
            assert(kinds_view(kinds@)[index as int] == kind@);
            return true;
        }
        index = index + 1;
    }
    assert forall|j: int| 0 <= j < kinds_view(kinds@).len() implies kinds_view(kinds@)[j] != kind@ by {
        assert(kinds_view(kinds@)[j] == kinds@[j]@);
    }
    false
}

/// Rust's ASCII whitespace: space, tab, line feed, form feed, carriage return.
pub open spec fn spec_is_ascii_whitespace(byte: u8) -> bool {
    byte == 32 || byte == 9 || byte == 10 || byte == 12 || byte == 13
}

fn is_ascii_whitespace(byte: u8) -> (whitespace: bool)
    ensures
        whitespace == spec_is_ascii_whitespace(byte),
{
    byte == 32 || byte == 9 || byte == 10 || byte == 12 || byte == 13
}

/// The bytes one cluster occurrence covers, when its range lies in its source.
pub open spec fn spec_range_text(snippet: Snippet) -> Option<Seq<u8>> {
    if snippet.range.start <= snippet.range.end && snippet.range.end <= snippet.source@.len() {
        Some(snippet.source@.subrange(snippet.range.start as int, snippet.range.end as int))
    } else {
        None
    }
}

/// Returns the bytes covered by one cluster occurrence.
pub fn snippet_range_text<'a>(snippet: &Snippet<'a>) -> (text: Option<&'a [u8]>)
    ensures
        match text {
            Some(t) => spec_range_text(*snippet) == Some(t@),
            None => spec_range_text(*snippet) is None,
        },
{
    if snippet.range.start <= snippet.range.end && snippet.range.end <= snippet.source.len() {
        Some(vstd::slice::slice_subrange(snippet.source, snippet.range.start, snippet.range.end))
    } else {
        None
    }
}

/// Position of the first byte of `bytes` that is not ASCII whitespace, the
/// length where every byte is.
pub open spec fn spec_first_non_whitespace(bytes: Seq<u8>) -> int
    decreases bytes.len(),
{
    if bytes.len() == 0 {
        0
    } else if !spec_is_ascii_whitespace(bytes[0]) {
        0
    } else {
        1 + spec_first_non_whitespace(bytes.drop_first())
    }
}

/// Position of the last byte of `bytes` that is not ASCII whitespace, -1
/// where every byte is.
pub open spec fn spec_last_non_whitespace(bytes: Seq<u8>) -> int
    decreases bytes.len(),
{
    if bytes.len() == 0 {
        -1
    } else if !spec_is_ascii_whitespace(bytes.last()) {
        bytes.len() - 1
    } else {
        spec_last_non_whitespace(bytes.drop_last())
    }
}

proof fn lemma_first_non_whitespace(bytes: Seq<u8>)
    ensures
        0 <= spec_first_non_whitespace(bytes) <= bytes.len(),
        forall|i: int| 0 <= i < spec_first_non_whitespace(bytes) ==> spec_is_ascii_whitespace(#[trigger] bytes[i]),
        spec_first_non_whitespace(bytes) < bytes.len() ==> !spec_is_ascii_whitespace(bytes[spec_first_non_whitespace(bytes)]),
    decreases bytes.len(),
{
    if bytes.len() > 0 && spec_is_ascii_whitespace(bytes[0]) {
        lemma_first_non_whitespace(bytes.drop_first());
        assert forall|i: int| 0 <= i < spec_first_non_whitespace(bytes) implies spec_is_ascii_whitespace(#[trigger] bytes[i]) by {
            if i > 0 {
                assert(bytes[i] == bytes.drop_first()[i - 1]);
            }
        }
    }
}

proof fn lemma_last_non_whitespace(bytes: Seq<u8>)
    ensures
        -1 <= spec_last_non_whitespace(bytes) < bytes.len(),
        forall|i: int| spec_last_non_whitespace(bytes) < i < bytes.len() ==> spec_is_ascii_whitespace(#[trigger] bytes[i]),
        spec_last_non_whitespace(bytes) >= 0 ==> !spec_is_ascii_whitespace(bytes[spec_last_non_whitespace(bytes)]),
    decreases bytes.len(),
{
    if bytes.len() > 0 && spec_is_ascii_whitespace(bytes.last()) {
        lemma_last_non_whitespace(bytes.drop_last());
        assert forall|i: int| spec_last_non_whitespace(bytes) < i < bytes.len() implies spec_is_ascii_whitespace(#[trigger] bytes[i]) by {
            if i < bytes.len() - 1 {
                assert(bytes[i] == bytes.drop_last()[i]);
            }
        }
    }
}

pub fn first_non_whitespace(bytes: &[u8]) -> (position: usize)
    ensures
        position == spec_first_non_whitespace(bytes@),
{
    proof {
        lemma_first_non_whitespace(bytes@);
    }
    let mut index: usize = 0;
    while index < bytes.len()
        invariant
            index <= bytes@.len(),
            forall|i: int| 0 <= i < index ==> spec_is_ascii_whitespace(#[trigger] bytes@[i]),
            0 <= spec_first_non_whitespace(bytes@) <= bytes@.len(),
            forall|i: int| 0 <= i < spec_first_non_whitespace(bytes@) ==> spec_is_ascii_whitespace(#[trigger] bytes@[i]),
            spec_first_non_whitespace(bytes@) < bytes@.len() ==> !spec_is_ascii_whitespace(bytes@[spec_first_non_whitespace(bytes@)]),
        decreases bytes@.len() - index,
    {
        if !is_ascii_whitespace(bytes[index]) {
            return index;
        }
        index = index + 1;
    }
    index
}

fn last_non_whitespace(bytes: &[u8]) -> (position: Option<usize>)
    ensures
        match position {
            Some(p) => p == spec_last_non_whitespace(bytes@),
            None => spec_last_non_whitespace(bytes@) == -1,
        },
{
    proof {
        lemma_last_non_whitespace(bytes@);
    }
    let mut remaining: usize = bytes.len();
    while remaining > 0
        invariant
            remaining <= bytes@.len(),
            forall|i: int| remaining <= i < bytes@.len() ==> spec_is_ascii_whitespace(#[trigger] bytes@[i]),
            -1 <= spec_last_non_whitespace(bytes@) < bytes@.len(),
            forall|i: int| spec_last_non_whitespace(bytes@) < i < bytes@.len() ==> spec_is_ascii_whitespace(#[trigger] bytes@[i]),
            spec_last_non_whitespace(bytes@) >= 0 ==> !spec_is_ascii_whitespace(bytes@[spec_last_non_whitespace(bytes@)]),
        decreases remaining,
    {
        if !is_ascii_whitespace(bytes[remaining - 1]) {
            return Some(remaining - 1);
        }
        remaining = remaining - 1;
    }
    None
}

/// A reported range without its surrounding ASCII whitespace; none where
/// the range is out of its source or holds only whitespace.
pub open spec fn spec_trimmed_range(snippet: Snippet) -> Option<ByteRange> {
    match spec_range_text(snippet) {
        None => None,
        Some(bytes) => if spec_last_non_whitespace(bytes) < 0 {
            None
        } else {
            Some(ByteRange {
                start: (snippet.range.start + spec_first_non_whitespace(bytes)) as usize,
                end: (snippet.range.start + spec_last_non_whitespace(bytes) + 1) as usize,
            })
        },
    }
}

/// Trims surrounding ASCII whitespace from a reported snippet range so
/// parser lookups are not defeated by trailing newlines outside the node
/// that produced the fingerprint.
pub fn trimmed_snippet_range(snippet: &Snippet) -> (trimmed: Option<ByteRange>)
    ensures
        trimmed == spec_trimmed_range(*snippet),
{
    let bytes = match snippet_range_text(snippet) {
        Some(bytes) => bytes,
        None => return None,
    };
    let trailing = match last_non_whitespace(bytes) {
        Some(trailing) => trailing,
        None => return None,
    };
    let leading = first_non_whitespace(bytes);
    proof {
        lemma_first_non_whitespace(bytes@);
        lemma_last_non_whitespace(bytes@);
    }
    assert(bytes@.len() == snippet.range.end - snippet.range.start);
    Some(ByteRange { start: snippet.range.start + leading, end: snippet.range.start + trailing + 1 })
}

/// Whether the ids name at least two distinct files.
pub open spec fn spec_spans_files(file_ids: Seq<FileId>) -> bool {
    exists|i: int, j: int| 0 <= i < file_ids.len() && 0 <= j < file_ids.len() && #[trigger] file_ids[i] != #[trigger] file_ids[j]
}

/// Returns true when `file_ids` cover at least two distinct files: the
/// cross-file spread every cluster-noise filter requires before it fires.
pub fn spans_multiple_files(file_ids: &[FileId]) -> (spans: bool)
    ensures
        spans == spec_spans_files(file_ids@),
{
    if file_ids.len() == 0 {
        return false;
    }
    let first = file_ids[0];
    let mut index: usize = 0;
    while index < file_ids.len()
        invariant
            index <= file_ids@.len(),
            file_ids@.len() > 0,
            first == file_ids@[0],
            forall|i: int| 0 <= i < index ==> #[trigger] file_ids@[i] == first,
        decreases file_ids@.len() - index,
    {
        if file_ids[index].0 != first.0 {
            assert(file_ids@[index as int] != file_ids@[0]);
            return true;
        }
        index = index + 1;
    }
    assert forall|i: int, j: int| 0 <= i < file_ids@.len() && 0 <= j < file_ids@.len() implies
        !(#[trigger] file_ids@[i] != #[trigger] file_ids@[j]) by {
        assert(file_ids@[i] == first && file_ids@[j] == first);
    }
    false
}

/// Whether a cluster has at least two members, all written in `language`.
pub open spec fn spec_is_multi_member_language_cluster(snippets: Seq<Snippet>, language: Seq<char>) -> bool {
    snippets.len() >= 2 && forall|i: int| 0 <= i < snippets.len() ==> (#[trigger] snippets[i]).language@ == language
}

/// Returns true when `snippets` is a multi-member cluster whose every
/// member is written in `language`: the precondition every
/// language-specific cluster filter shares.
pub fn is_multi_member_language_cluster(snippets: &[Snippet], language: &str) -> (multi: bool)
    ensures
        multi == spec_is_multi_member_language_cluster(snippets@, language@),
{
    if snippets.len() < 2 {
        return false;
    }
    let mut index: usize = 0;
    while index < snippets.len()
        invariant
            index <= snippets@.len(),
            forall|i: int| 0 <= i < index ==> (#[trigger] snippets@[i]).language@ == language@,
        decreases snippets@.len() - index,
    {
        if !same_text(snippets[index].language, language) {
            return false;
        }
        index = index + 1;
    }
    true
}

/// Whether some member's covered bytes differ from the first member's,
/// where the first member's range lies in its source.
pub open spec fn spec_raw_texts_differ(snippets: Seq<Snippet>) -> bool {
    snippets.len() > 0 && spec_range_text(snippets[0]) is Some && exists|i: int|
        0 <= i < snippets.len() && (#[trigger] spec_range_text(snippets[i])) is Some
            && spec_range_text(snippets[i]) != spec_range_text(snippets[0])
}

/// Returns true when at least two raw reported snippet ranges differ.
pub fn raw_snippet_texts_differ(snippets: &[Snippet]) -> (differ: bool)
    ensures
        differ == spec_raw_texts_differ(snippets@),
{
    if snippets.len() == 0 {
        return false;
    }
    let first = match snippet_range_text(&snippets[0]) {
        Some(first) => first,
        None => return false,
    };
    let mut index: usize = 0;
    while index < snippets.len()
        invariant
            index <= snippets@.len(),
            snippets@.len() > 0,
            spec_range_text(snippets@[0]) == Some(first@),
            forall|i: int| 0 <= i < index ==> !((#[trigger] spec_range_text(snippets@[i])) is Some
                && spec_range_text(snippets@[i]) != spec_range_text(snippets@[0])),
        decreases snippets@.len() - index,
    {
        match snippet_range_text(&snippets[index]) {
            Some(text) => {
                if !same_bytes(text, first) {
                    return true;
                }
            },
            None => {},
        }
        index = index + 1;
    }
    false
}

/// Whether `needle` is non-empty and occurs in `bytes`.
pub open spec fn spec_contains_bytes(bytes: Seq<u8>, needle: Seq<u8>) -> bool {
    needle.len() > 0 && exists|i: int| 0 <= i && i + needle.len() <= bytes.len()
        && #[trigger] bytes.subrange(i, i + needle.len()) == needle
}

/// Returns true when `needle` occurs in `bytes`.
pub fn contains_bytes(bytes: &[u8], needle: &[u8]) -> (found: bool)
    ensures
        found == spec_contains_bytes(bytes@, needle@),
{
    if needle.len() == 0 || needle.len() > bytes.len() {
        return false;
    }
    let last = bytes.len() - needle.len();
    let mut start: usize = 0;
    while start <= last
        invariant
            last + needle@.len() == bytes@.len(),
            bytes@.len() == bytes.len(),
            start <= last + 1,
            needle@.len() > 0,
            forall|i: int| 0 <= i < start ==> #[trigger] bytes@.subrange(i, i + needle@.len()) != needle@,
        decreases last + 1 - start,
    {
        let window = vstd::slice::slice_subrange(bytes, start, start + needle.len());
        if same_bytes(window, needle) {
            return true;
        }
        start = start + 1;
    }
    false
}

/// The first kilobyte of a source, where generated-file markers sit.
pub fn source_head(source: &[u8]) -> (head: &[u8])
    ensures
        head@ == source@.take(if source@.len() < 1024 { source@.len() as int } else { 1024 }),
{
    let end = if source.len() < 1024 { source.len() } else { 1024 };
    vstd::slice::slice_subrange(source, 0, end)
}

/// `bytes` without its leading ASCII whitespace.
pub fn trim_ascii_start(bytes: &[u8]) -> (trimmed: &[u8])
    ensures
        trimmed@ == bytes@.skip(spec_first_non_whitespace(bytes@)),
{
    let first = first_non_whitespace(bytes);
    proof {
        lemma_first_non_whitespace(bytes@);
    }
    vstd::slice::slice_subrange(bytes, first, bytes.len())
}

} // verus!
