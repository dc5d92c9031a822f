//! Cluster members re-read from their files, and the concrete syntax
//! trees their files parse to.

use vstd::prelude::*;

use super::SyntaxNode;
use crate::ast::{fingerprints_view, ByteRange, FileId, Fingerprint, FingerprintView};
use crate::cluster::exact_runs::{spec_source_of, SourceFile};
use crate::cluster::scope::{language_for, spec_language_of, FileLanguage};
use crate::text::same_text;

verus! {

/// One re-read cluster member: its language, its file's bytes, the range
/// its fingerprint covered, and its file.
pub struct Snippet<'a> {
    /// Language id used to select the grammar.
    pub language: &'a str,
    /// Full file source bytes of the member.
    pub source: &'a [u8],
    /// Byte range covered by the member fingerprint.
    pub range: ByteRange,
    /// File containing the member.
    pub file_id: FileId,
}

/// The model of a [`Snippet`].
pub struct SnippetView {
    /// Language id.
    pub language: Seq<char>,
    /// The file's bytes.
    pub source: Seq<u8>,
    /// The covered range.
    pub range: ByteRange,
    /// The file.
    pub file_id: FileId,
}

impl<'a> View for Snippet<'a> {
    type V = SnippetView;

    open spec fn view(&self) -> SnippetView {
        SnippetView { language: self.language@, source: self.source@, range: self.range, file_id: self.file_id }
    }
}

/// The models of a list of snippets.
pub open spec fn snippets_view(snippets: Seq<Snippet>) -> Seq<SnippetView> {
    snippets.map_values(|snippet: Snippet| snippet@)
}

/// The grammars the filters parse with.
#[derive(Clone, Copy, PartialEq, Eq, Structural, Debug)]
pub enum Grammar {
    /// tree-sitter-python.
    Python,
    /// tree-sitter-c-sharp.
    CSharp,
    /// tree-sitter-rust.
    Rust,
    /// tree-sitter-dart.
    Dart,
    /// tree-sitter-typescript, TypeScript dialect.
    TypeScript,
    /// tree-sitter-typescript, TSX dialect.
    Tsx,
}

/// The grammar of a language plug-in, for the languages whose grammar
/// crates this library links.
pub open spec fn spec_plugin_grammar(language: Seq<char>) -> Option<Grammar> {
    if language == "dart"@ {
        Some(Grammar::Dart)
    } else if language == "typescript"@ {
        Some(Grammar::TypeScript)
    } else if language == "tsx"@ {
        Some(Grammar::Tsx)
    } else {
        spec_grammar_for(language)
    }
}

/// Maps a language id to its plug-in grammar; `None` where none is linked.
pub fn plugin_grammar(language: &str) -> (grammar: Option<Grammar>)
    ensures
        grammar == spec_plugin_grammar(language@),
{
    if same_text(language, "dart") {
        Some(Grammar::Dart)
    } else if same_text(language, "typescript") {
        Some(Grammar::TypeScript)
    } else if same_text(language, "tsx") {
        Some(Grammar::Tsx)
    } else {
        grammar_for(language)
    }
}

/// The grammar the cluster noise filter parses a language id with:
/// Python, C# and Rust.
pub open spec fn spec_grammar_for(language: Seq<char>) -> Option<Grammar> {
    if language == "python"@ {
        Some(Grammar::Python)
    } else if language == "csharp"@ {
        Some(Grammar::CSharp)
    } else if language == "rust"@ {
        Some(Grammar::Rust)
    } else {
        None
    }
}

/// Maps a language id to its grammar; `None` where none is registered.
pub fn grammar_for(language: &str) -> (grammar: Option<Grammar>)
    ensures
        grammar == spec_grammar_for(language@),
{
    if same_text(language, "python") {
        Some(Grammar::Python)
    } else if same_text(language, "csharp") {
        Some(Grammar::CSharp)
    } else if same_text(language, "rust") {
        Some(Grammar::Rust)
    } else {
        None
    }
}

/// The concrete syntax tree tree-sitter parses `source` to with `grammar`,
/// `None` where the parser gives none.
pub uninterp spec fn parsed_tree(source: Seq<u8>, grammar: Grammar) -> Option<SyntaxNode>;

#[verifier::external_type_specification]
#[verifier::external_body]
pub struct ExTreeSitterNode<'tree>(tree_sitter::Node<'tree>);

/// Copies one tree-sitter node and its subtree, with the field it sits in.
#[verifier::external_body]
fn syntax_node(node: tree_sitter::Node<'_>, field: Option<String>) -> (tree: SyntaxNode) {
    let mut cursor = node.walk();
    let mut children = Vec::new();
    if cursor.goto_first_child() {
        loop {
            children.push(syntax_node(cursor.node(), cursor.field_name().map(String::from)));
            if !cursor.goto_next_sibling() {
                break;
            }
        }
    }
    let (kind, kind_id, named, extra) = (node.kind().to_string(), node.kind_id(), node.is_named(), node.is_extra());
    SyntaxNode { kind, kind_id, named, extra, field, start_byte: node.start_byte(), end_byte: node.end_byte(), children }
}

#[verifier::external_type_specification]
#[verifier::external_body]
pub struct ExTreeSitterLanguage(tree_sitter::Language);

/// The tree-sitter language of a grammar crate: its `LANGUAGE` constant
/// (`LANGUAGE_TYPESCRIPT` or `LANGUAGE_TSX` for TypeScript), converted.
#[verifier::external_body]
fn grammar_language(grammar: Grammar) -> tree_sitter::Language {
    match grammar {
        Grammar::Python => tree_sitter_python::LANGUAGE.into(),
        Grammar::CSharp => tree_sitter_c_sharp::LANGUAGE.into(),
        Grammar::Rust => tree_sitter_rust::LANGUAGE.into(),
        Grammar::Dart => tree_sitter_dart::LANGUAGE.into(),
        Grammar::TypeScript => tree_sitter_typescript::LANGUAGE_TYPESCRIPT.into(),
        Grammar::Tsx => tree_sitter_typescript::LANGUAGE_TSX.into(),
    }
}

/// Parses `source` with tree-sitter (`Parser::set_language`, then
/// `Parser::parse` with no old tree) and copies the tree. The result is
/// named, not described: it is whatever tree-sitter's parse gives for
/// these bytes and this grammar.
#[verifier::external_body]
fn parse_source(source: &[u8], grammar: Grammar) -> (tree: Option<SyntaxNode>)
    ensures
        tree == parsed_tree(source@, grammar),
{
    let mut parser = tree_sitter::Parser::new();
    parser.set_language(&grammar_language(grammar)).ok()?;
    let tree = parser.parse(source, None)?;
    Some(syntax_node(tree.root_node(), None))
}

/// The start, end and kind of the node tree-sitter's
/// `Node::descendant_for_byte_range` gives on the root of the parse of
/// `source`, for the byte range from `start` to `end`.
pub uninterp spec fn descendant_spanning(source: Seq<u8>, grammar: Grammar, start: usize, end: usize) -> Option<(usize, usize, Seq<char>)>;

/// Parses `source` and asks tree-sitter for the smallest node of the parse
/// spanning `start..=end` (`Node::descendant_for_byte_range` on the root),
/// giving back its range and kind. What tree-sitter answers is named, not
/// described; a failed parse answers nothing.
#[verifier::external_body]
fn descendant_for_byte_range(source: &[u8], grammar: Grammar, start: usize, end: usize) -> (found: Option<(usize, usize, String)>)
    ensures
        match found {
            Some((first, last, kind)) => descendant_spanning(source@, grammar, start, end) == Some((first, last, kind@)),
            None => descendant_spanning(source@, grammar, start, end) is None,
        },
{
    let mut parser = tree_sitter::Parser::new();
    parser.set_language(&grammar_language(grammar)).ok()?;
    let tree = parser.parse(source, None)?;
    let node = tree.root_node().descendant_for_byte_range(start, end)?;
    Some((node.start_byte(), node.end_byte(), node.kind().to_string()))
}

/// The start, end and kind of the node tree-sitter's
/// `Node::named_descendant_for_byte_range` gives on the root of the parse
/// of `source`, for the byte range from `start` to `end`.
pub uninterp spec fn named_descendant_spanning(source: Seq<u8>, grammar: Grammar, start: usize, end: usize) -> Option<(usize, usize, Seq<char>)>;

/// Parses `source` and asks tree-sitter for the smallest named node of the
/// parse spanning `start..=end` (`Node::named_descendant_for_byte_range`
/// on the root), giving back its range and kind. What tree-sitter answers
/// is named, not described; a failed parse answers nothing.
#[verifier::external_body]
fn named_descendant_for_byte_range(source: &[u8], grammar: Grammar, start: usize, end: usize) -> (found: Option<(usize, usize, String)>)
    ensures
        match found {
            Some((first, last, kind)) => named_descendant_spanning(source@, grammar, start, end) == Some((first, last, kind@)),
            None => named_descendant_spanning(source@, grammar, start, end) is None,
        },
{
    let mut parser = tree_sitter::Parser::new();
    parser.set_language(&grammar_language(grammar)).ok()?;
    let tree = parser.parse(source, None)?;
    let node = tree.root_node().named_descendant_for_byte_range(start, end)?;
    Some((node.start_byte(), node.end_byte(), node.kind().to_string()))
}

/// The node tree-sitter finds spanning `start..=end` in a file parsed with
/// its language plug-in's grammar: its range and kind.
pub open spec fn spec_plugin_descendant(language: Seq<char>, source: Seq<u8>, start: usize, end: usize, named: bool) -> Option<(usize, usize, Seq<char>)> {
    match spec_plugin_grammar(language) {
        Some(grammar) => if named {
            named_descendant_spanning(source, grammar, start, end)
        } else {
            descendant_spanning(source, grammar, start, end)
        },
        None => None,
    }
}

/// The range and kind of the smallest node (or, with `named`, the smallest
/// named node) spanning `start..=end` in a file parsed with its language
/// plug-in's grammar.
pub fn plugin_descendant(language: &str, source: &[u8], start: usize, end: usize, named: bool) -> (found: Option<(usize, usize, String)>)
    ensures
        match found {
            Some((first, last, kind)) => spec_plugin_descendant(language@, source@, start, end, named) == Some((first, last, kind@)),
            None => spec_plugin_descendant(language@, source@, start, end, named) is None,
        },
{
    match plugin_grammar(language) {
        Some(grammar) => if named {
            named_descendant_for_byte_range(source, grammar, start, end)
        } else {
            descendant_for_byte_range(source, grammar, start, end)
        },
        None => None,
    }
}

/// The tree of a snippet's file, parsed with its language's grammar.
pub open spec fn spec_parse_for(language: Seq<char>, source: Seq<u8>) -> Option<SyntaxNode> {
    match spec_grammar_for(language) {
        Some(grammar) => parsed_tree(source, grammar),
        None => None,
    }
}

/// Parses the snippet's full source so the filters walk the real concrete
/// tree rather than the normalised one; `None` where the language has no
/// registered grammar here or the parser gives no tree.
pub fn parse_for(snippet: &Snippet) -> (tree: Option<SyntaxNode>)
    ensures
        tree == spec_parse_for(snippet.language@, snippet.source@),
{
    parse_language(snippet.language, snippet.source)
}

/// The noise filter's parse of a whole file written in `language`.
pub fn parse_language(language: &str, source: &[u8]) -> (tree: Option<SyntaxNode>)
    ensures
        tree == spec_parse_for(language@, source@),
{
    match grammar_for(language) {
        Some(grammar) => parse_source(source, grammar),
        None => None,
    }
}

/// The tree of a file parsed with its language plug-in's grammar.
pub open spec fn spec_plugin_parse(language: Seq<char>, source: Seq<u8>) -> Option<SyntaxNode> {
    match spec_plugin_grammar(language) {
        Some(grammar) => parsed_tree(source, grammar),
        None => None,
    }
}

/// Parses a whole file with its language plug-in's grammar; `None` where
/// no grammar is linked for the language or the parser gives no tree.
pub fn parse_with_plugin(language: &str, source: &[u8]) -> (tree: Option<SyntaxNode>)
    ensures
        tree == spec_plugin_parse(language@, source@),
{
    match plugin_grammar(language) {
        Some(grammar) => parse_source(source, grammar),
        None => None,
    }
}

/// Parses a snippet's file with its language plug-in's grammar.
pub fn parse_snippet(snippet: &Snippet) -> (tree: Option<SyntaxNode>)
    ensures
        tree == spec_plugin_parse(snippet.language@, snippet.source@),
{
    parse_with_plugin(snippet.language, snippet.source)
}

/// The one language every member's file is written in: the first member's
/// language, where each member's file has it.
pub open spec fn spec_uniform_language(members: Seq<FingerprintView>, languages: Seq<FileLanguage>) -> Option<Seq<char>> {
    if members.len() == 0 {
        None
    } else {
        match spec_language_of(languages, members[0].file_id) {
            None => None,
            Some(first) => if forall|i: int| 0 <= i < members.len() ==>
                spec_language_of(languages, (#[trigger] members[i]).file_id) == Some(first) {
                Some(first)
            } else {
                None
            },
        }
    }
}

/// Returns a single language id when every member shares it.
pub fn uniform_language(members: &[Fingerprint], languages: &[FileLanguage]) -> (language: Option<&'static str>)
    ensures
        match language {
            Some(l) => spec_uniform_language(fingerprints_view(members@), languages@) == Some(l@),
            None => spec_uniform_language(fingerprints_view(members@), languages@) is None,
        },
{
    let ghost mv = fingerprints_view(members@);
    if members.len() == 0 {
        return None;
    }
    assert(mv[0] == members@[0]@);
    let first = match language_for(languages, members[0].file_id) {
        Some(first) => first,
        None => return None,
    };
    let mut index: usize = 0;
    while index < members.len()
        invariant
            index <= members@.len(),
            mv == fingerprints_view(members@),
            mv.len() == members@.len(),
            spec_language_of(languages@, mv[0].file_id) == Some(first@),
            forall|i: int| 0 <= i < index ==> spec_language_of(languages@, (#[trigger] mv[i]).file_id) == Some(first@),
        decreases members@.len() - index,
    {
        assert(mv[index as int] == members@[index as int]@);
        match language_for(languages, members[index].file_id) {
            Some(language) => {
                if !same_text(language, first) {
                    return None;
                }
            },
            None => return None,
        }
        index = index + 1;
    }
    Some(first)
}

/// The bytes recorded for `file`: the first entry naming it.
pub fn source_of<'a>(sources: &'a [SourceFile], file: FileId) -> (bytes: Option<&'a [u8]>)
    ensures
        match bytes {
            Some(b) => spec_source_of(sources@, file) == Some(b@),
            None => spec_source_of(sources@, file) is None,
        },
{
    let mut index: usize = 0;
    assert(sources@.skip(0) =~= sources@);
    while index < sources.len()
        invariant
            index <= sources@.len(),
            spec_source_of(sources@, file) == spec_source_of(sources@.skip(index as int), file),
        decreases sources@.len() - index,
    {
        assert(sources@.skip(index as int).drop_first() =~= sources@.skip(index as int + 1));
        if sources[index].file_id.0 == file.0 {
            return Some(sources[index].bytes.as_slice());
        }
        index = index + 1;
    }
    None
}

/// The snippet of one member, read from `source`.
pub open spec fn spec_snippet_matches(snippet: Snippet, member: FingerprintView, source: Seq<u8>, language: Seq<char>) -> bool {
    &&& snippet.language@ == language
    &&& snippet.source@ == source
    &&& snippet.range == member.byte_range
    &&& snippet.file_id == member.file_id
}

/// Re-reads every member from its file's bytes; `None` when some member's
/// file has none.
pub fn collect_snippets<'a>(members: &[Fingerprint], sources: &'a [SourceFile], language: &'a str) -> (snippets: Option<Vec<Snippet<'a>>>)
    ensures
        match snippets {
            Some(found) => found@.len() == members@.len() && forall|i: int| 0 <= i < members@.len() ==>
                spec_source_of(sources@, (#[trigger] members@[i]).file_id) is Some
                && spec_snippet_matches(found@[i], members@[i]@, spec_source_of(sources@, members@[i].file_id).unwrap(), language@),
            None => exists|i: int| 0 <= i < members@.len() && spec_source_of(sources@, (#[trigger] members@[i]).file_id) is None,
        },
{
    let mut found: Vec<Snippet<'a>> = Vec::new();
    let mut index: usize = 0;
    while index < members.len()
        invariant
            index <= members@.len(),
            found@.len() == index,
            forall|i: int| 0 <= i < index ==>
                spec_source_of(sources@, (#[trigger] members@[i]).file_id) is Some
                && spec_snippet_matches(found@[i], members@[i]@, spec_source_of(sources@, members@[i].file_id).unwrap(), language@),
        decreases members@.len() - index,
    {
        let member = &members[index];
        match source_of(sources, member.file_id) {
            Some(source) => {
                found.push(Snippet { language, source, range: member.byte_range, file_id: member.file_id });
            },
            None => return None,
        }
        index = index + 1;
    }
    Some(found)
}

} // verus!
