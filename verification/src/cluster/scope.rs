//! Which authored declaration an occurrence sits inside.
//!
//! Declarations are read off the normalised tree, keyed by the file's
//! language, so a production name that means "function" in one grammar
//! cannot classify a node in another.

use vstd::prelude::*;

use crate::ast::{spec_smallest_covering, ByteRange, FileId, Fingerprint, FingerprintView, NormalizedNode};
use crate::cluster::exact_runs::spec_tree_of;
use crate::cluster_filters::{function_kinds, kind_in, kinds_view, spec_function_kinds};

verus! {

/// The language of one file.
#[derive(Clone, Copy, Debug)]
pub struct FileLanguage {
    /// The file.
    pub file_id: FileId,
    /// Its language id.
    pub language: &'static str,
}

/// The language recorded for `file`: the first entry naming it.
pub open spec fn spec_language_of(languages: Seq<FileLanguage>, file: FileId) -> Option<Seq<char>>
    decreases languages.len(),
{
    if languages.len() == 0 {
        None
    } else if languages[0].file_id == file {
        Some(languages[0].language@)
    } else {
        spec_language_of(languages.drop_first(), file)
    }
}

/// The authored declarations enclosing occurrences, resolved against the
/// normalised trees the corpus already holds.
pub struct DeclarationScopes<'t> {
    /// Normalised root per file; a later tree of one file replaces an earlier.
    pub trees: &'t [NormalizedNode],
    /// Language per file.
    pub languages: &'t [FileLanguage],
}

/// The smallest descendant of `node` whose kind is in `kinds` and whose
/// range strictly encloses `range`.
pub open spec fn spec_smallest_enclosing(node: NormalizedNode, range: ByteRange, kinds: Seq<Seq<char>>) -> Option<ByteRange>
    decreases node, 0int,
{
    if !node.byte_range.spec_strictly_encloses(range) {
        None
    } else {
        match first_enclosing(node.children@, 0, range, kinds) {
            Some(found) => Some(found),
            None => if kinds.contains(node.kind@) { Some(node.byte_range) } else { None },
        }
    }
}

/// The first enclosing declaration found among `children[from..]`.
pub open spec fn first_enclosing(children: Seq<NormalizedNode>, from: int, range: ByteRange, kinds: Seq<Seq<char>>) -> Option<ByteRange>
    decreases children, children.len() - from,
{
    if from < 0 || from >= children.len() {
        None
    } else {
        match spec_smallest_enclosing(children[from], range, kinds) {
            Some(found) => Some(found),
            None => first_enclosing(children, from + 1, range, kinds),
        }
    }
}

/// The range of the deepest descendant of `node` whose kind is in `kinds`
/// and whose range equals `range`.
pub open spec fn spec_aligned_function_at(node: NormalizedNode, range: ByteRange, kinds: Seq<Seq<char>>) -> Option<ByteRange>
    decreases node, 0int,
{
    if node.byte_range.start > range.start || node.byte_range.end < range.end {
        None
    } else {
        match first_aligned(node.children@, 0, range, kinds) {
            Some(found) => Some(found),
            None => if kinds.contains(node.kind@) && node.byte_range == range { Some(node.byte_range) } else { None },
        }
    }
}

/// The first aligned declaration found among `children[from..]`.
pub open spec fn first_aligned(children: Seq<NormalizedNode>, from: int, range: ByteRange, kinds: Seq<Seq<char>>) -> Option<ByteRange>
    decreases children, children.len() - from,
{
    if from < 0 || from >= children.len() {
        None
    } else {
        match spec_aligned_function_at(children[from], range, kinds) {
            Some(found) => Some(found),
            None => first_aligned(children, from + 1, range, kinds),
        }
    }
}

/// Whether `node`'s subtree holds a node whose range is exactly `range`,
/// searching only subtrees that cover it.
pub open spec fn spec_has_node_at(node: NormalizedNode, range: ByteRange) -> bool
    decreases node, 0int,
{
    node.byte_range == range || (node.byte_range.spec_covers(range) && any_child_at(node.children@, node.children@.len() as int, range))
}

/// Whether one of the first `k` children holds a node at `range`.
pub open spec fn any_child_at(children: Seq<NormalizedNode>, k: int, range: ByteRange) -> bool
    decreases children, k,
{
    if k <= 0 || k > children.len() {
        false
    } else {
        any_child_at(children, k - 1, range) || spec_has_node_at(children[k - 1], range)
    }
}

/// The kinds of the top-level nodes a view covers: the node it equals, or
/// the whole children of its smallest covering node that lie inside it.
pub open spec fn spec_top_kinds(tree: NormalizedNode, range: ByteRange) -> Option<Seq<Seq<char>>> {
    match spec_smallest_covering(tree, range) {
        None => None,
        Some(node) => if node.byte_range == range {
            Some(seq![node.kind@])
        } else {
            Some(inside_kinds(node.children@, node.children@.len() as int, range))
        },
    }
}

/// The kinds of the first `k` children that lie inside `range`, in order.
pub open spec fn inside_kinds(children: Seq<NormalizedNode>, k: int, range: ByteRange) -> Seq<Seq<char>>
    decreases k,
{
    if k <= 0 || k > children.len() {
        seq![]
    } else if range.spec_covers(children[k - 1].byte_range) {
        inside_kinds(children, k - 1, range).push(children[k - 1].kind@)
    } else {
        inside_kinds(children, k - 1, range)
    }
}

/// The byte range of the smallest function-like declaration that strictly
/// encloses a member, when its file's grammar names one.
pub open spec fn spec_enclosing(trees: Seq<NormalizedNode>, languages: Seq<FileLanguage>, member: FingerprintView) -> Option<ByteRange> {
    match (spec_tree_of(trees, member.file_id), spec_language_of(languages, member.file_id)) {
        (Some(tree), Some(language)) => if spec_function_kinds(language).len() == 0 {
            None
        } else {
            spec_smallest_enclosing(tree, member.byte_range, spec_function_kinds(language))
        },
        _ => None,
    }
}

/// The byte range of the function-like declaration equal to a member's
/// range, when its file's grammar names one.
pub open spec fn spec_aligned_function(trees: Seq<NormalizedNode>, languages: Seq<FileLanguage>, member: FingerprintView) -> Option<ByteRange> {
    match (spec_tree_of(trees, member.file_id), spec_language_of(languages, member.file_id)) {
        (Some(tree), Some(language)) => if spec_function_kinds(language).len() == 0 {
            None
        } else {
            spec_aligned_function_at(tree, member.byte_range, spec_function_kinds(language))
        },
        _ => None,
    }
}

/// Whether a member is a node its author wrote rather than a window.
pub open spec fn spec_is_authored_node(trees: Seq<NormalizedNode>, member: FingerprintView) -> bool {
    match spec_tree_of(trees, member.file_id) {
        Some(tree) => spec_has_node_at(tree, member.byte_range),
        None => false,
    }
}

/// The kinds of a member's top-level nodes.
pub open spec fn spec_member_top_kinds(trees: Seq<NormalizedNode>, member: FingerprintView) -> Option<Seq<Seq<char>>> {
    match spec_tree_of(trees, member.file_id) {
        Some(tree) => spec_top_kinds(tree, member.byte_range),
        None => None,
    }
}

/// The smallest descendant of `node` whose kind is in `kinds` and whose
/// range strictly encloses `range`.
fn smallest_enclosing(node: &NormalizedNode, range: ByteRange, kinds: &Vec<&'static str>) -> (found: Option<ByteRange>)
    ensures
        found == spec_smallest_enclosing(*node, range, kinds_view(kinds@)),
    decreases *node, 0int,
{
    if !node.byte_range.strictly_encloses(range) {
        return None;
    }
    let mut index: usize = 0;
    while index < node.children.len()
        invariant
            index <= node.children@.len(),
            node.byte_range.spec_strictly_encloses(range),
            first_enclosing(node.children@, 0, range, kinds_view(kinds@))
                == first_enclosing(node.children@, index as int, range, kinds_view(kinds@)),
        decreases node.children@.len() - index,
    {
        assert(decreases_to!(*node => node.children@[index as int]));
        let deeper = smallest_enclosing(&node.children[index], range, kinds);
        if deeper.is_some() {
            return deeper;
        }
        index = index + 1;
    }
    if kind_in(node.kind, kinds) {
        Some(node.byte_range)
    } else {
        None
    }
}

/// The range of the deepest descendant of `node` whose kind is in `kinds`
/// and whose range equals `range`.
fn aligned_function_at(node: &NormalizedNode, range: ByteRange, kinds: &Vec<&'static str>) -> (found: Option<ByteRange>)
    ensures
        found == spec_aligned_function_at(*node, range, kinds_view(kinds@)),
    decreases *node, 0int,
{
    if node.byte_range.start > range.start || node.byte_range.end < range.end {
        return None;
    }
    let mut index: usize = 0;
    while index < node.children.len()
        invariant
            index <= node.children@.len(),
            !(node.byte_range.start > range.start || node.byte_range.end < range.end),
            first_aligned(node.children@, 0, range, kinds_view(kinds@))
                == first_aligned(node.children@, index as int, range, kinds_view(kinds@)),
        decreases node.children@.len() - index,
    {
        assert(decreases_to!(*node => node.children@[index as int]));
        let deeper = aligned_function_at(&node.children[index], range, kinds);
        if deeper.is_some() {
            return deeper;
        }
        index = index + 1;
    }
    if kind_in(node.kind, kinds) && node.byte_range == range {
        Some(node.byte_range)
    } else {
        None
    }
}

/// Whether `node`'s subtree holds a node whose range is exactly `range`.
fn has_node_at(node: &NormalizedNode, range: ByteRange) -> (found: bool)
    ensures
        found == spec_has_node_at(*node, range),
    decreases *node, 0int,
{
    if node.byte_range == range {
        return true;
    }
    if !node.byte_range.covers(range) {
        return false;
    }
    let mut index: usize = 0;
    while index < node.children.len()
        invariant
            index <= node.children@.len(),
            node.byte_range != range,
            node.byte_range.spec_covers(range),
            !any_child_at(node.children@, index as int, range),
        decreases node.children@.len() - index,
    {
        assert(decreases_to!(*node => node.children@[index as int]));
        if has_node_at(&node.children[index], range) {
            proof {
                lemma_any_child_from(node.children@, index as int + 1, node.children@.len() as int, range);
            }
            return true;
        }
        index = index + 1;
    }
    false
}

proof fn lemma_any_child_from(children: Seq<NormalizedNode>, k: int, n: int, range: ByteRange)
    requires
        0 < k <= n <= children.len(),
        any_child_at(children, k, range),
    ensures
        any_child_at(children, n, range),
    decreases n - k,
{
    if k < n {
        lemma_any_child_from(children, k, n - 1, range);
    }
}

/// The tree recorded for `file`: the last tree naming it.
fn tree_for<'a>(trees: &'a [NormalizedNode], file: FileId) -> (tree: Option<&'a NormalizedNode>)
    ensures
        match tree {
            Some(t) => spec_tree_of(trees@, file) == Some(*t),
            None => spec_tree_of(trees@, file).is_none(),
        },
{
    let mut remaining: usize = trees.len();
    assert(trees@.take(trees@.len() as int) =~= trees@);
    while remaining > 0
        invariant
            remaining <= trees@.len(),
            spec_tree_of(trees@, file) == spec_tree_of(trees@.take(remaining as int), file),
        decreases remaining,
    {
        let index = remaining - 1;
        assert(trees@.take(remaining as int).drop_last() =~= trees@.take(index as int));
        if trees[index].file_id.0 == file.0 {
            return Some(&trees[index]);
        }
        remaining = index;
    }
    None
}

/// The language recorded for `file`.
pub(crate) fn language_for(languages: &[FileLanguage], file: FileId) -> (language: Option<&'static str>)
    ensures
        match language {
            Some(l) => spec_language_of(languages@, file) == Some(l@),
            None => spec_language_of(languages@, file).is_none(),
        },
{
    let mut index: usize = 0;
    assert(languages@.skip(0) =~= languages@);
    while index < languages.len()
        invariant
            index <= languages@.len(),
            spec_language_of(languages@, file) == spec_language_of(languages@.skip(index as int), file),
        decreases languages@.len() - index,
    {
        assert(languages@.skip(index as int).drop_first() =~= languages@.skip(index as int + 1));
        if languages[index].file_id.0 == file.0 {
            return Some(languages[index].language);
        }
        index = index + 1;
    }
    None
}

impl<'t> DeclarationScopes<'t> {
    /// Scopes over `trees` and `languages`.
    pub fn new(trees: &'t [NormalizedNode], languages: &'t [FileLanguage]) -> (scopes: DeclarationScopes<'t>)
        ensures
            scopes.trees@ == trees@,
            scopes.languages@ == languages@,
    {
        DeclarationScopes { trees, languages }
    }

    /// The byte range of the smallest function-like declaration that
    /// strictly encloses `member`. Strictly, because a view that is the
    /// declaration is not inside it.
    pub fn enclosing(&self, member: &Fingerprint) -> (found: Option<ByteRange>)
        ensures
            found == spec_enclosing(self.trees@, self.languages@, member@),
    {
        let tree = match tree_for(self.trees, member.file_id) {
            Some(tree) => tree,
            None => return None,
        };
        let language = match language_for(self.languages, member.file_id) {
            Some(language) => language,
            None => return None,
        };
        let kinds = function_kinds(language);
        if kinds.len() == 0 {
            return None;
        }
        smallest_enclosing(tree, member.byte_range, &kinds)
    }

    /// The byte range of the function-like declaration whose range equals
    /// `member`'s: such an occurrence is the function the author wrote.
    pub fn aligned_function(&self, member: &Fingerprint) -> (found: Option<ByteRange>)
        ensures
            found == spec_aligned_function(self.trees@, self.languages@, member@),
    {
        let tree = match tree_for(self.trees, member.file_id) {
            Some(tree) => tree,
            None => return None,
        };
        let language = match language_for(self.languages, member.file_id) {
            Some(language) => language,
            None => return None,
        };
        let kinds = function_kinds(language);
        if kinds.len() == 0 {
            return None;
        }
        aligned_function_at(tree, member.byte_range, &kinds)
    }

    /// Whether `member` is a node the author wrote, rather than a window
    /// cut over a run of siblings.
    pub fn is_authored_node(&self, member: &Fingerprint) -> (authored: bool)
        ensures
            authored == spec_is_authored_node(self.trees@, member@),
    {
        match tree_for(self.trees, member.file_id) {
            Some(tree) => has_node_at(tree, member.byte_range),
            None => false,
        }
    }

    /// The kinds of the top-level nodes `member` covers, in order.
    pub fn top_kinds(&self, member: &Fingerprint) -> (kinds: Option<Vec<&'static str>>)
        ensures
            match kinds {
                Some(k) => spec_member_top_kinds(self.trees@, member@) == Some(kinds_view(k@)),
                None => spec_member_top_kinds(self.trees@, member@).is_none(),
            },
    {
        let tree = match tree_for(self.trees, member.file_id) {
            Some(tree) => tree,
            None => return None,
        };
        let node = match tree.smallest_covering(member.byte_range) {
            Some(node) => node,
            None => return None,
        };
        let mut kinds: Vec<&'static str> = Vec::new();
        if node.byte_range == member.byte_range {
            kinds.push(node.kind);
            assert(kinds_view(kinds@) =~= seq![node.kind@]);
            return Some(kinds);
        }
        let mut index: usize = 0;
        while index < node.children.len()
            invariant
                index <= node.children@.len(),
                kinds_view(kinds@) == inside_kinds(node.children@, index as int, member.byte_range),
            decreases node.children@.len() - index,
        {
            let child = &node.children[index];
            if member.byte_range.covers(child.byte_range) {
                let ghost before = kinds_view(kinds@);
                kinds.push(child.kind);
                assert(kinds_view(kinds@) =~= before.push(child.kind@));
            }
            index = index + 1;
        }
        Some(kinds)
    }
}

/// Whether the table lists every file at most once, as a table built
/// from a map keyed by file does.
pub open spec fn spec_language_files_unique(table: Seq<FileLanguage>) -> bool {
    forall|i: int, j: int| 0 <= i < j < table.len() ==> #[trigger] table[i].file_id != #[trigger] table[j].file_id
}

/// In a table that lists every file at most once, the lookup of an
/// entry's file finds that entry.
pub proof fn lemma_language_lookup_finds_the_entry(table: Seq<FileLanguage>, k: int)
    requires
        spec_language_files_unique(table),
        0 <= k < table.len(),
    ensures
        spec_language_of(table, table[k].file_id) == Some(table[k].language@),
    decreases k,
{
    if k > 0 {
        let rest = table.drop_first();
        assert(table[0].file_id != table[k].file_id);
        assert(rest[k - 1] == table[k]);
        assert forall|i: int, j: int| 0 <= i < j < rest.len() implies #[trigger] rest[i].file_id != #[trigger] rest[j].file_id by {
            assert(rest[i] == table[i + 1] && rest[j] == table[j + 1]);
        }
        lemma_language_lookup_finds_the_entry(rest, k - 1);
    }
}

} // verus!
