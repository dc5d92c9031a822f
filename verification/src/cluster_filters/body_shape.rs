//! One definition of "these two function bodies are the same shape": the
//! body-shape stream of a function body, a node's grammar kind id, the
//! bytes of a collaborator the body reaches for, or the end of a subtree,
//! and the digest of that stream. The polymorphic decision only ever asks
//! whether two bodies' streams are unequal, and a digest of the stream's
//! canonical encoding answers that.

use vstd::prelude::*;

use super::node_search::spec_span;
use super::syntax::spec_named_count;
use super::SyntaxNode;
use crate::cluster::identity::{blake3_digest, digest};
use crate::text::same_text;

verus! {

/// One element of a body-shape stream.
#[derive(Debug, PartialEq, Eq)]
pub enum ShapeToken {
    /// A node's grammar kind id.
    Kind(u16),
    /// The bytes of an identifier the body reaches for.
    Symbol(Vec<u8>),
    /// The end of a subtree, so nesting and arity are part of the stream.
    Close,
}

/// The model of a [`ShapeToken`].
pub enum ShapeTokenView {
    Kind(u16),
    Symbol(Seq<u8>),
    Close,
}

impl View for ShapeToken {
    type V = ShapeTokenView;

    open spec fn view(&self) -> ShapeTokenView {
        match self {
            ShapeToken::Kind(kind) => ShapeTokenView::Kind(*kind),
            ShapeToken::Symbol(bytes) => ShapeTokenView::Symbol(bytes@),
            ShapeToken::Close => ShapeTokenView::Close,
        }
    }
}

/// The models of a stream.
pub open spec fn tokens_view(tokens: Seq<ShapeToken>) -> Seq<ShapeTokenView> {
    tokens.map_values(|token: ShapeToken| token@)
}

/// The four little-endian bytes of `value`.
pub open spec fn le_u32(value: u32) -> Seq<u8> {
    seq![(value % 256) as u8, ((value / 256) % 256) as u8, ((value / 65536) % 256) as u8, (value / 16777216) as u8]
}

/// A symbol's length as the encoding records it: saturated at `u32::MAX`.
pub open spec fn symbol_length(length: nat) -> u32 {
    if length > u32::MAX { u32::MAX } else { length as u32 }
}

/// One token's canonical bytes: a kind as two little-endian bytes, a
/// symbol as its length in four little-endian bytes followed by its
/// bytes, the end of a subtree as one zero byte.
pub open spec fn spec_token_encoding(token: ShapeTokenView) -> Seq<u8> {
    match token {
        ShapeTokenView::Kind(kind) => seq![(kind % 256) as u8, (kind / 256) as u8],
        ShapeTokenView::Symbol(bytes) => le_u32(symbol_length(bytes.len())) + bytes,
        ShapeTokenView::Close => seq![0u8],
    }
}

/// The canonical bytes of a stream: its tokens' bytes in order.
pub open spec fn spec_shape_encoding(tokens: Seq<ShapeTokenView>) -> Seq<u8>
    decreases tokens.len(),
{
    if tokens.len() == 0 {
        seq![]
    } else {
        spec_shape_encoding(tokens.drop_last()) + spec_token_encoding(tokens.last())
    }
}

fn push_bytes(out: &mut Vec<u8>, bytes: &[u8])
    ensures
        final(out)@ == old(out)@ + bytes@,
{
    let ghost start = out@;
    let mut index: usize = 0;
    while index < bytes.len()
        invariant
            index <= bytes@.len(),
            out@ == start + bytes@.take(index as int),
        decreases bytes@.len() - index,
    {
        out.push(bytes[index]);
        index = index + 1;
        assert(out@ =~= start + bytes@.take(index as int));
    }
    assert(bytes@.take(bytes@.len() as int) =~= bytes@);
}

fn encode_token(token: &ShapeToken, out: &mut Vec<u8>)
    ensures
        final(out)@ == old(out)@ + spec_token_encoding(token@),
{
    let ghost start = out@;
    match token {
        ShapeToken::Kind(kind) => {
            out.push((*kind % 256) as u8);
            out.push((*kind / 256) as u8);
            assert(out@ =~= start + spec_token_encoding(token@));
        },
        ShapeToken::Symbol(bytes) => {
            let length: u32 = if bytes.len() > 4294967295 { 4294967295 } else { bytes.len() as u32 };
            out.push((length % 256) as u8);
            out.push(((length / 256) % 256) as u8);
            out.push(((length / 65536) % 256) as u8);
            out.push((length / 16777216) as u8);
            assert(out@ =~= start + le_u32(symbol_length(bytes@.len())));
            push_bytes(out, bytes.as_slice());
            assert(out@ =~= start + spec_token_encoding(token@));
        },
        ShapeToken::Close => {
            out.push(0);
            assert(out@ =~= start + spec_token_encoding(token@));
        },
    }
}

/// The canonical encoding of a stream.
pub fn shape_encoding(stream: &[ShapeToken]) -> (bytes: Vec<u8>)
    ensures
        bytes@ == spec_shape_encoding(tokens_view(stream@)),
{
    let ghost tokens = tokens_view(stream@);
    let mut bytes: Vec<u8> = Vec::new();
    let mut index: usize = 0;
    assert(bytes@ =~= spec_shape_encoding(tokens.take(0)));
    while index < stream.len()
        invariant
            index <= stream@.len(),
            tokens == tokens_view(stream@),
            bytes@ == spec_shape_encoding(tokens.take(index as int)),
        decreases stream@.len() - index,
    {
        assert(tokens.take(index as int + 1).drop_last() =~= tokens.take(index as int));
        assert(tokens.take(index as int + 1).last() == stream@[index as int]@);
        encode_token(&stream[index], &mut bytes);
        index = index + 1;
    }
    assert(tokens.take(tokens.len() as int) =~= tokens);
    bytes
}

/// The BLAKE3 digest of a body-shape stream's canonical encoding. Bodies
/// whose digests differ have different streams; a digest can only err by
/// calling two different bodies equal, which keeps a cluster visible.
pub fn shape_digest(stream: &[ShapeToken]) -> (hash: [u8; 32])
    ensures
        hash@ == blake3_digest(spec_shape_encoding(tokens_view(stream@))),
{
    let bytes = shape_encoding(stream);
    digest(bytes.as_slice())
}

/// Node kinds that reach outside the body: a call and a member access.
/// Which collaborator a body reaches for is behaviour, so the identifier
/// naming it joins the stream as bytes while every local and parameter
/// stays erased.
pub open spec fn spec_is_reach_kind(kind: Seq<char>) -> bool {
    ||| kind == "call"@
    ||| kind == "call_expression"@
    ||| kind == "invocation_expression"@
    ||| kind == "attribute"@
    ||| kind == "field_expression"@
    ||| kind == "member_access_expression"@
    ||| kind == "member_expression"@
}

fn is_reach_kind(kind: &str) -> (reaches: bool)
    ensures
        reaches == spec_is_reach_kind(kind@),
{
    same_text(kind, "call") || same_text(kind, "call_expression") || same_text(kind, "invocation_expression")
        || same_text(kind, "attribute") || same_text(kind, "field_expression")
        || same_text(kind, "member_access_expression") || same_text(kind, "member_expression")
}

/// Fields of a reaching node that name the collaborator rather than the
/// receiver: Python's `function` and `attribute`, Rust's `field`,
/// TypeScript's `property`, C#'s `name`.
pub open spec fn spec_is_reach_field(field: Seq<char>) -> bool {
    ||| field == "function"@
    ||| field == "attribute"@
    ||| field == "field"@
    ||| field == "property"@
    ||| field == "name"@
}

fn is_reach_field(field: &str) -> (names: bool)
    ensures
        names == spec_is_reach_field(field@),
{
    same_text(field, "function") || same_text(field, "attribute") || same_text(field, "field")
        || same_text(field, "property") || same_text(field, "name")
}

/// The anonymous tokens that carry behaviour: the operators, whose choice
/// changes what a body computes (`base + fee` against `base - fee`).
/// Framing punctuation (brackets, commas, separators) stays out: the
/// parent kind and the end-of-subtree markers already imply it.
pub open spec fn spec_is_behaviour_bearing_token(kind: Seq<char>) -> bool {
    ||| kind == "+"@ || kind == "-"@ || kind == "*"@ || kind == "/"@ || kind == "%"@ || kind == "**"@
    ||| kind == "=="@ || kind == "!="@ || kind == "==="@ || kind == "!=="@
    ||| kind == "<"@ || kind == ">"@ || kind == "<="@ || kind == ">="@
    ||| kind == "&&"@ || kind == "||"@ || kind == "!"@ || kind == "??"@
    ||| kind == "&"@ || kind == "|"@ || kind == "^"@ || kind == "~"@ || kind == "<<"@ || kind == ">>"@
    ||| kind == "="@ || kind == "+="@ || kind == "-="@ || kind == "*="@ || kind == "/="@ || kind == "%="@
    ||| kind == "++"@ || kind == "--"@
    ||| kind == "and"@ || kind == "or"@ || kind == "not"@ || kind == "in"@ || kind == "is"@
}

/// Whether an anonymous token carries behaviour.
pub fn is_behaviour_bearing_token(kind: &str) -> (bearing: bool)
    ensures
        bearing == spec_is_behaviour_bearing_token(kind@),
{
    same_text(kind, "+") || same_text(kind, "-") || same_text(kind, "*") || same_text(kind, "/") || same_text(kind, "%")
        || same_text(kind, "**") || same_text(kind, "==") || same_text(kind, "!=") || same_text(kind, "===")
        || same_text(kind, "!==") || same_text(kind, "<") || same_text(kind, ">") || same_text(kind, "<=")
        || same_text(kind, ">=") || same_text(kind, "&&") || same_text(kind, "||") || same_text(kind, "!")
        || same_text(kind, "??") || same_text(kind, "&") || same_text(kind, "|") || same_text(kind, "^")
        || same_text(kind, "~") || same_text(kind, "<<") || same_text(kind, ">>") || same_text(kind, "=")
        || same_text(kind, "+=") || same_text(kind, "-=") || same_text(kind, "*=") || same_text(kind, "/=")
        || same_text(kind, "%=") || same_text(kind, "++") || same_text(kind, "--") || same_text(kind, "and")
        || same_text(kind, "or") || same_text(kind, "not") || same_text(kind, "in") || same_text(kind, "is")
}

/// Whether a child joins the stream: named children and behaviour-bearing
/// tokens.
pub open spec fn spec_joins_stream(child: SyntaxNode) -> bool {
    child.named || spec_is_behaviour_bearing_token(child.kind@)
}

/// Whether a child names a collaborator: a leaf, without named children,
/// held by one of the collaborator fields.
pub open spec fn spec_names_collaborator(child: SyntaxNode) -> bool {
    &&& spec_named_count(child.children@, child.children@.len() as int) == 0
    &&& match child.field {
        Some(field) => spec_is_reach_field(field@),
        None => false,
    }
}

/// The stream of one node: skipped whole when it is a grammar extra (a
/// comment); otherwise its kind id, its bytes when it names a
/// collaborator, the streams of its joining children, and the end of the
/// subtree.
pub open spec fn spec_node_stream(node: SyntaxNode, collaborator: bool, source: Seq<u8>) -> Seq<ShapeTokenView>
    decreases node, 1int,
{
    if node.extra {
        seq![]
    } else {
        let symbol = if collaborator {
            match spec_span(source, node.start_byte, node.end_byte) {
                Some(bytes) => seq![ShapeTokenView::Symbol(bytes)],
                None => seq![],
            }
        } else {
            seq![]
        };
        seq![ShapeTokenView::Kind(node.kind_id)] + symbol
            + spec_children_stream(node.children@, node.children@.len() as int, spec_is_reach_kind(node.kind@), source)
            + seq![ShapeTokenView::Close]
    }
}

/// The streams of the joining children among the first `k`; a child names
/// a collaborator only under a reaching parent.
pub open spec fn spec_children_stream(children: Seq<SyntaxNode>, k: int, reaches: bool, source: Seq<u8>) -> Seq<ShapeTokenView>
    decreases children, k,
{
    if k <= 0 || k > children.len() {
        seq![]
    } else {
        let before = spec_children_stream(children, k - 1, reaches, source);
        if spec_joins_stream(children[k - 1]) {
            before + spec_node_stream(children[k - 1], reaches && spec_names_collaborator(children[k - 1]), source)
        } else {
            before
        }
    }
}

/// The body-shape stream of a function body.
pub open spec fn spec_body_kind_stream(body: SyntaxNode, source: Seq<u8>) -> Seq<ShapeTokenView> {
    spec_node_stream(body, false, source)
}

/// Whether `node` has no named child.
fn has_no_named_child(node: &SyntaxNode) -> (none: bool)
    ensures
        none == (spec_named_count(node.children@, node.children@.len() as int) == 0),
{
    let mut index: usize = 0;
    while index < node.children.len()
        invariant
            index <= node.children@.len(),
            spec_named_count(node.children@, index as int) == 0,
        decreases node.children@.len() - index,
    {
        if node.children[index].named {
            proof {
                lemma_named_count_grows(node.children@, index as int + 1, node.children@.len() as int);
            }
            return false;
        }
        index = index + 1;
    }
    true
}

proof fn lemma_named_count_grows(children: Seq<SyntaxNode>, k: int, n: int)
    requires
        0 <= k <= n <= children.len(),
    ensures
        spec_named_count(children, k) <= spec_named_count(children, n),
    decreases n - k,
{
    if k < n {
        lemma_named_count_grows(children, k, n - 1);
    }
}

/// Whether a child names a collaborator.
fn names_collaborator(child: &SyntaxNode) -> (names: bool)
    ensures
        names == spec_names_collaborator(*child),
{
    match &child.field {
        Some(field) => is_reach_field(field.as_str()) && has_no_named_child(child),
        None => false,
    }
}

fn push_node_stream(node: &SyntaxNode, collaborator: bool, source: &[u8], out: &mut Vec<ShapeToken>)
    ensures
        tokens_view(final(out)@) == tokens_view(old(out)@) + spec_node_stream(*node, collaborator, source@),
    decreases *node,
{
    let ghost start = tokens_view(out@);
    if node.extra {
        assert(tokens_view(out@) =~= start + Seq::<ShapeTokenView>::empty());
        return;
    }
    out.push(ShapeToken::Kind(node.kind_id));
    assert(tokens_view(out@) =~= start + seq![ShapeTokenView::Kind(node.kind_id)]);
    if collaborator && node.start_byte <= node.end_byte && node.end_byte <= source.len() {
        let bytes = vstd::slice::slice_to_vec(vstd::slice::slice_subrange(source, node.start_byte, node.end_byte));
        let ghost before = tokens_view(out@);
        out.push(ShapeToken::Symbol(bytes));
        assert(tokens_view(out@) =~= before.push(ShapeTokenView::Symbol(bytes@)));
    }
    let ghost head = tokens_view(out@);
    let reaches = is_reach_kind(node.kind.as_str());
    let mut index: usize = 0;
    while index < node.children.len()
        invariant
            index <= node.children@.len(),
            reaches == spec_is_reach_kind(node.kind@),
            tokens_view(out@) == head + spec_children_stream(node.children@, index as int, reaches, source@),
        decreases node.children@.len() - index,
    {
        let child = &node.children[index];
        assert(decreases_to!(*node => node.children@[index as int]));
        if child.named || is_behaviour_bearing_token(child.kind.as_str()) {
            let flag = reaches && names_collaborator(child);
            push_node_stream(child, flag, source, out);
        }
        assert(tokens_view(out@) =~= head + spec_children_stream(node.children@, index as int + 1, reaches, source@));
        index = index + 1;
    }
    let ghost body = tokens_view(out@);
    out.push(ShapeToken::Close);
    assert(tokens_view(out@) =~= body.push(ShapeTokenView::Close));
    assert(tokens_view(out@) =~= start + spec_node_stream(*node, collaborator, source@));
}

/// Depth-first stream of `body`'s node kinds with an end marker per
/// subtree, carrying the bytes of every collaborator the body reaches
/// for. Grammar extras (comments) are skipped and no other source text is
/// emitted, so two bodies compare equal exactly when they are the same
/// construct tree, with the same operators, calling the same
/// collaborators, whatever their locals are named, their comments say or
/// their literals carry.
pub fn body_kind_stream(body: &SyntaxNode, source: &[u8]) -> (stream: Vec<ShapeToken>)
    ensures
        tokens_view(stream@) == spec_body_kind_stream(*body, source@),
{
    let mut stream: Vec<ShapeToken> = Vec::new();
    assert(tokens_view(stream@) =~= Seq::<ShapeTokenView>::empty());
    push_node_stream(body, false, source, &mut stream);
    assert(tokens_view(stream@) =~= spec_body_kind_stream(*body, source@));
    stream
}

/// The digest of a body's shape stream.
pub open spec fn spec_body_digest(body: SyntaxNode, source: Seq<u8>) -> Seq<u8> {
    blake3_digest(spec_shape_encoding(spec_body_kind_stream(body, source)))
}

/// The BLAKE3 digest of a function body's shape stream.
pub fn body_digest(body: &SyntaxNode, source: &[u8]) -> (hash: [u8; 32])
    ensures
        hash@ == spec_body_digest(*body, source@),
{
    let stream = body_kind_stream(body, source);
    shape_digest(stream.as_slice())
}

} // verus!
