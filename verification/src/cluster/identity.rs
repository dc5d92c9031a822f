//! Public cluster ids.
//!
//! An id names exactly one finding. Every input to it is a function of
//! workspace state, so two runs over one tree agree on every id, and two
//! findings in one tree never share one.

use vstd::prelude::*;
use vstd::string::*;

use crate::ast::{copy_fingerprints, fingerprints_view, FileId, Fingerprint, FingerprintView};
use crate::buckets::ClusterKind;
use super::{Cluster, ClusterView};

pub mod distinct;

verus! {

/// A reportable cluster before it is named.
pub struct Unnamed {
    /// Members of the cluster, in corpus order.
    pub members: Vec<Fingerprint>,
    /// The clone kind.
    pub kind: ClusterKind,
    /// Duplicated mass.
    pub mass: u64,
    /// The shape family the cluster was admitted out of.
    pub shape_family: Option<usize>,
}

/// The model of an [`Unnamed`] cluster.
pub struct UnnamedView {
    /// The members' models.
    pub members: Seq<FingerprintView>,
    /// The clone kind.
    pub kind: ClusterKind,
    /// Duplicated mass.
    pub mass: u64,
    /// The shape family.
    pub shape_family: Option<usize>,
}

impl View for Unnamed {
    type V = UnnamedView;

    open spec fn view(&self) -> UnnamedView {
        UnnamedView {
            members: fingerprints_view(self.members@),
            kind: self.kind,
            mass: self.mass,
            shape_family: self.shape_family,
        }
    }
}

/// A copy of an unnamed cluster.
pub fn copy_unnamed(draft: &Unnamed) -> (copy: Unnamed)
    ensures
        copy@ == draft@,
{
    Unnamed {
        members: copy_fingerprints(&draft.members),
        kind: draft.kind,
        mass: draft.mass,
        shape_family: draft.shape_family,
    }
}

/// The BLAKE3 digest of a byte string.
pub uninterp spec fn blake3_digest(input: Seq<u8>) -> Seq<u8>;

/// Calls `blake3::hash`, whose result is a function of the input bytes
/// alone; nothing is claimed of its value beyond that.
#[verifier::external_body]
pub(crate) fn digest(input: &[u8]) -> (hash: [u8; 32])
    ensures
        hash@ == blake3_digest(input@),
{
    *blake3::hash(input).as_bytes()
}

/// The lowercase hexadecimal digit for `value`, which is below 16.
pub open spec fn hex_char(value: int) -> char {
    if value < 10 { (48 + value) as char } else { (87 + value) as char }
}

/// Lowercase hexadecimal spelling of `bytes`, two digits per byte, high
/// nibble first.
pub open spec fn spec_hex(bytes: Seq<u8>) -> Seq<char>
    decreases bytes.len(),
{
    if bytes.len() == 0 {
        seq![]
    } else {
        spec_hex(bytes.drop_last()) + seq![hex_char((bytes.last() / 16) as int), hex_char((bytes.last() % 16) as int)]
    }
}

/// Bytes of a full digest that a short id spells.
pub const SHORT_ID_BYTES: usize = 8;

/// The short id of a digest: its first eight bytes in lowercase hex.
pub open spec fn spec_short_id(hash: Seq<u8>) -> Seq<char> {
    spec_hex(hash.take(SHORT_ID_BYTES as int))
}

/// Whether a character is a lowercase hexadecimal digit.
pub open spec fn spec_is_hex_digit(c: char) -> bool {
    ('0' <= c && c <= '9') || ('a' <= c && c <= 'f')
}

/// Whether an id is a public short id: sixteen lowercase hexadecimal
/// digits.
pub open spec fn spec_is_short_id(id: Seq<char>) -> bool {
    id.len() == 16 && forall|k: int| 0 <= k < id.len() ==> spec_is_hex_digit(#[trigger] id[k])
}

/// Hex spells two lowercase digits per byte.
pub proof fn lemma_hex_digits(bytes: Seq<u8>)
    ensures
        spec_hex(bytes).len() == 2 * bytes.len(),
        forall|k: int| 0 <= k < spec_hex(bytes).len() ==> spec_is_hex_digit(#[trigger] spec_hex(bytes)[k]),
    decreases bytes.len(),
{
    if bytes.len() > 0 {
        lemma_hex_digits(bytes.drop_last());
        let high = (bytes.last() / 16) as int;
        let low = (bytes.last() % 16) as int;
        assert(spec_is_hex_digit(hex_char(high)));
        assert(spec_is_hex_digit(hex_char(low)));
    }
}

/// The one-character string naming a hexadecimal digit.
fn hex_digit(value: u8) -> (digit: &'static str)
    requires
        value < 16,
    ensures
        digit@ == seq![hex_char(value as int)],
{
    proof {
        reveal_strlit("0");
        reveal_strlit("1");
        reveal_strlit("2");
        reveal_strlit("3");
        reveal_strlit("4");
        reveal_strlit("5");
        reveal_strlit("6");
        reveal_strlit("7");
        reveal_strlit("8");
        reveal_strlit("9");
        reveal_strlit("a");
        reveal_strlit("b");
        reveal_strlit("c");
        reveal_strlit("d");
        reveal_strlit("e");
        reveal_strlit("f");
    }
    match value {
        0 => "0",
        1 => "1",
        2 => "2",
        3 => "3",
        4 => "4",
        5 => "5",
        6 => "6",
        7 => "7",
        8 => "8",
        9 => "9",
        10 => "a",
        11 => "b",
        12 => "c",
        13 => "d",
        14 => "e",
        _ => "f",
    }
}

/// Shortens a full 32-byte hash to the 16-digit hex id used in reports.
pub fn encode_short_id(hash: [u8; 32]) -> (id: String)
    ensures
        id@ == spec_short_id(hash@),
        spec_is_short_id(id@),
{
    proof {
        lemma_hex_digits(hash@.take(SHORT_ID_BYTES as int));
    }
    let mut id = String::new();
    let mut index: usize = 0;
    while index < SHORT_ID_BYTES
        invariant
            index <= SHORT_ID_BYTES,
            hash@.len() == 32,
            id@ == spec_hex(hash@.take(index as int)),
        decreases SHORT_ID_BYTES - index,
    {
        let byte = hash[index];
        id.append(hex_digit(byte / 16));
        id.append(hex_digit(byte % 16));
        assert(hash@.take(index as int + 1).drop_last() =~= hash@.take(index as int));
        index = index + 1;
    }
    id
}

/// Little-endian bytes of `value`, `count` of them.
pub open spec fn spec_le_bytes(value: nat, count: nat) -> Seq<u8>
    decreases count,
{
    if count == 0 {
        seq![]
    } else {
        seq![(value % 256) as u8] + spec_le_bytes(value / 256, (count - 1) as nat)
    }
}

/// The eight little-endian bytes of `value`.
fn le_bytes(value: u64) -> (bytes: Vec<u8>)
    ensures
        bytes@ == spec_le_bytes(value as nat, 8),
{
    let mut bytes: Vec<u8> = Vec::new();
    let mut rest = value;
    let mut index: usize = 0;
    while index < 8
        invariant
            index <= 8,
            bytes@ + spec_le_bytes(rest as nat, (8 - index) as nat) == spec_le_bytes(value as nat, 8),
        decreases 8 - index,
    {
        let ghost before = bytes@;
        let ghost old_rest = rest;
        bytes.push((rest % 256) as u8);
        rest = rest / 256;
        proof {
            let tail = spec_le_bytes(rest as nat, (8 - index - 1) as nat);
            assert(spec_le_bytes(old_rest as nat, (8 - index) as nat) == seq![(old_rest % 256) as u8] + tail);
            assert(bytes@ + tail =~= before + (seq![(old_rest % 256) as u8] + tail));
        }
        index = index + 1;
    }
    assert(bytes@ + spec_le_bytes(rest as nat, 0) =~= bytes@);
    bytes
}


/// The workspace-relative path of one file, as its encoded bytes.
pub struct FilePath {
    /// The file.
    pub file_id: FileId,
    /// Its workspace-relative path, '/'-separated, as bytes.
    pub path: Vec<u8>,
}

/// The path recorded for `file`: the first entry naming it, or the empty
/// path when none does.
pub open spec fn spec_path_of(paths: Seq<FilePath>, file: FileId) -> Seq<u8>
    decreases paths.len(),
{
    if paths.len() == 0 {
        seq![]
    } else if paths[0].file_id == file {
        paths[0].path@
    } else {
        spec_path_of(paths.drop_first(), file)
    }
}

/// A copy of a byte slice.
fn copy_bytes(bytes: &[u8]) -> (copy: Vec<u8>)
    ensures
        copy@ == bytes@,
{
    vstd::slice::slice_to_vec(bytes)
}

/// Appends `bytes` to `out`.
fn push_all(out: &mut Vec<u8>, bytes: &[u8])
    ensures
        final(out)@ == old(out)@ + bytes@,
{
    let mut index: usize = 0;
    while index < bytes.len()
        invariant
            index <= bytes@.len(),
            out@ == old(out)@ + bytes@.take(index as int),
        decreases bytes@.len() - index,
    {
        out.push(bytes[index]);
        assert(bytes@.take(index as int + 1) =~= bytes@.take(index as int).push(bytes@[index as int]));
        index = index + 1;
    }
    assert(bytes@.take(bytes@.len() as int) =~= bytes@);
}

/// A member's workspace-relative path, empty when no entry covers its file.
fn path_of(member: &Fingerprint, file_paths: &[FilePath]) -> (path: Vec<u8>)
    ensures
        path@ == spec_path_of(file_paths@, member.file_id),
{
    let mut index: usize = 0;
    assert(file_paths@.skip(0) =~= file_paths@);
    while index < file_paths.len()
        invariant
            index <= file_paths@.len(),
            spec_path_of(file_paths@, member.file_id) == spec_path_of(file_paths@.skip(index as int), member.file_id),
        decreases file_paths@.len() - index,
    {
        assert(file_paths@.skip(index as int).drop_first() =~= file_paths@.skip(index as int + 1));
        if file_paths[index].file_id.0 == member.file_id.0 {
            return copy_bytes(file_paths[index].path.as_slice());
        }
        index = index + 1;
    }
    Vec::new()
}

/// Where a byte falls in path order: the separator before every other byte,
/// so that paths order component by component.
pub open spec fn path_key(byte: u8) -> int {
    if byte == 47 { 0 } else { byte + 1 }
}

/// Path order: component-wise, which on '/'-separated relative paths is
/// byte order with the separator lowest.
pub open spec fn path_lt(a: Seq<u8>, b: Seq<u8>) -> bool
    decreases a.len(),
{
    if b.len() == 0 {
        false
    } else if a.len() == 0 {
        true
    } else if path_key(a[0]) != path_key(b[0]) {
        path_key(a[0]) < path_key(b[0])
    } else {
        path_lt(a.drop_first(), b.drop_first())
    }
}

/// Whether path `a` orders before path `b`.
fn path_less(a: &[u8], b: &[u8]) -> (less: bool)
    ensures
        less == path_lt(a@, b@),
{
    let mut index: usize = 0;
    assert(a@.skip(0) =~= a@);
    assert(b@.skip(0) =~= b@);
    while index < a.len() && index < b.len()
        invariant
            index <= a@.len(),
            index <= b@.len(),
            path_lt(a@, b@) == path_lt(a@.skip(index as int), b@.skip(index as int)),
        decreases a@.len() - index,
    {
        let left: u8 = a[index];
        let right: u8 = b[index];
        if left != right {
            let left_key: u16 = if left == 47 { 0 } else { left as u16 + 1 };
            let right_key: u16 = if right == 47 { 0 } else { right as u16 + 1 };
            return left_key < right_key;
        }
        assert(a@.skip(index as int).drop_first() =~= a@.skip(index as int + 1));
        assert(b@.skip(index as int).drop_first() =~= b@.skip(index as int + 1));
        index = index + 1;
    }
    index < b.len()
}

/// The models of a list of paths.
pub open spec fn paths_view(paths: Seq<Vec<u8>>) -> Seq<Seq<u8>> {
    paths.map_values(|path: Vec<u8>| path@)
}

/// Where insertion sort places `path` in `sorted`: before the first later
/// path, scanning from `from`.
pub open spec fn path_insertion_point(sorted: Seq<Seq<u8>>, path: Seq<u8>, from: int) -> int
    decreases sorted.len() - from,
{
    if from < 0 || from >= sorted.len() {
        sorted.len() as int
    } else if path_lt(path, sorted[from]) {
        from
    } else {
        path_insertion_point(sorted, path, from + 1)
    }
}

/// `paths` in path order.
pub open spec fn sorted_paths(paths: Seq<Seq<u8>>) -> Seq<Seq<u8>>
    decreases paths.len(),
{
    if paths.len() == 0 {
        paths
    } else {
        let rest = sorted_paths(paths.drop_last());
        rest.insert(path_insertion_point(rest, paths.last(), 0), paths.last())
    }
}

/// Plain lexicographic byte order.
pub open spec fn bytes_lt(a: Seq<u8>, b: Seq<u8>) -> bool
    decreases a.len(),
{
    if b.len() == 0 {
        false
    } else if a.len() == 0 {
        true
    } else if a[0] != b[0] {
        a[0] < b[0]
    } else {
        bytes_lt(a.drop_first(), b.drop_first())
    }
}

/// Whether digest `a` orders before digest `b`.
fn digest_less(a: &[u8; 32], b: &[u8; 32]) -> (less: bool)
    ensures
        less == bytes_lt(a@, b@),
{
    let mut index: usize = 0;
    assert(a@.skip(0) =~= a@);
    assert(b@.skip(0) =~= b@);
    while index < 32
        invariant
            index <= 32,
            a@.len() == 32,
            b@.len() == 32,
            bytes_lt(a@, b@) == bytes_lt(a@.skip(index as int), b@.skip(index as int)),
        decreases 32 - index,
    {
        if a[index] != b[index] {
            return a[index] < b[index];
        }
        assert(a@.skip(index as int).drop_first() =~= a@.skip(index as int + 1));
        assert(b@.skip(index as int).drop_first() =~= b@.skip(index as int + 1));
        index = index + 1;
    }
    false
}

/// The smallest member digest, or 32 zero bytes for no members.
pub open spec fn spec_min_digest(members: Seq<FingerprintView>) -> Seq<u8>
    decreases members.len(),
{
    if members.len() == 0 {
        Seq::new(32, |i: int| 0u8)
    } else if members.len() == 1 {
        members[0].hash
    } else {
        let rest = spec_min_digest(members.drop_last());
        if bytes_lt(members.last().hash, rest) { members.last().hash } else { rest }
    }
}

/// What every cluster of one shape over one file set shares: the smallest
/// member digest and the members' paths in path order.
pub struct Source {
    /// The smallest member digest.
    pub digest: [u8; 32],
    /// The members' paths, sorted.
    pub paths: Vec<Vec<u8>>,
}

/// The model of a [`Source`].
pub struct SourceView {
    /// The smallest member digest.
    pub digest: Seq<u8>,
    /// The members' paths, sorted.
    pub paths: Seq<Seq<u8>>,
}

impl View for Source {
    type V = SourceView;

    open spec fn view(&self) -> SourceView {
        SourceView { digest: self.digest@, paths: paths_view(self.paths@) }
    }
}

/// Each member's path, in member order.
pub open spec fn member_paths(members: Seq<FingerprintView>, file_paths: Seq<FilePath>) -> Seq<Seq<u8>> {
    members.map_values(|member: FingerprintView| spec_path_of(file_paths, member.file_id))
}

/// The source of a cluster with `members`.
pub open spec fn spec_source(members: Seq<FingerprintView>, file_paths: Seq<FilePath>) -> SourceView {
    SourceView {
        digest: spec_min_digest(members),
        paths: sorted_paths(member_paths(members, file_paths)),
    }
}

/// Inserts `path` into the path-ordered list `sorted`.
fn insert_path(sorted: &mut Vec<Vec<u8>>, path: Vec<u8>)
    ensures
        paths_view(final(sorted)@) == paths_view(old(sorted)@).insert(
            path_insertion_point(paths_view(old(sorted)@), path@, 0),
            path@,
        ),
{
    let ghost view = paths_view(sorted@);
    let mut position: usize = 0;
    while position < sorted.len() && !path_less(path.as_slice(), sorted[position].as_slice())
        invariant
            position <= sorted@.len(),
            view == paths_view(sorted@),
            path_insertion_point(view, path@, 0) == path_insertion_point(view, path@, position as int),
        decreases sorted@.len() - position,
    {
        position = position + 1;
    }
    sorted.insert(position, path);
    assert(paths_view(sorted@) =~= view.insert(position as int, path@));
}

/// The smallest member digest with the sorted member paths.
fn source(members: &[Fingerprint], file_paths: &[FilePath]) -> (found: Source)
    ensures
        found@ == spec_source(fingerprints_view(members@), file_paths@),
{
    let ghost all = fingerprints_view(members@);
    let mut best: [u8; 32] = [0u8; 32];
    let mut paths: Vec<Vec<u8>> = Vec::new();
    let mut index: usize = 0;
    assert(best@ =~= Seq::new(32, |i: int| 0u8));
    while index < members.len()
        invariant
            index <= members@.len(),
            all == fingerprints_view(members@),
            best@ == spec_min_digest(all.take(index as int)),
            paths_view(paths@) == sorted_paths(member_paths(all.take(index as int), file_paths@)),
        decreases members@.len() - index,
    {
        let member = &members[index];
        assert(all.take(index as int + 1).drop_last() =~= all.take(index as int));
        assert(all.take(index as int + 1).last() == member@);
        if index == 0 || digest_less(&member.hash, &best) {
            best = member.hash;
        }
        proof {
            if index == 0 {
                assert(all.take(1) =~= seq![member@]);
            }
        }
        let path = path_of(member, file_paths);
        insert_path(&mut paths, path);
        assert(member_paths(all.take(index as int + 1), file_paths@).drop_last()
            =~= member_paths(all.take(index as int), file_paths@));
        index = index + 1;
    }
    assert(all.take(members@.len() as int) =~= all);
    Source { digest: best, paths }
}


/// One member's place: its path and byte range.
pub struct PositionEntry {
    /// The member's workspace-relative path.
    pub path: Vec<u8>,
    /// Start of its byte range.
    pub start: usize,
    /// End of its byte range.
    pub end: usize,
}

/// The model of a position entry.
pub open spec fn entry_view(entry: PositionEntry) -> (Seq<u8>, usize, usize) {
    (entry.path@, entry.start, entry.end)
}

/// The models of a position.
pub open spec fn position_view(position: Seq<PositionEntry>) -> Seq<(Seq<u8>, usize, usize)> {
    position.map_values(|entry: PositionEntry| entry_view(entry))
}

/// Where a cluster sits: each member's path and byte range, in member order.
pub open spec fn spec_position(members: Seq<FingerprintView>, file_paths: Seq<FilePath>) -> Seq<(Seq<u8>, usize, usize)> {
    members.map_values(|member: FingerprintView| (spec_path_of(file_paths, member.file_id), member.byte_range.start, member.byte_range.end))
}

/// Order of position entries: path, then start, then end.
pub open spec fn entry_lt(a: (Seq<u8>, usize, usize), b: (Seq<u8>, usize, usize)) -> bool {
    path_lt(a.0, b.0) || (a.0 == b.0 && (a.1 < b.1 || (a.1 == b.1 && a.2 < b.2)))
}

/// Lexicographic order of positions.
pub open spec fn positions_lt(a: Seq<(Seq<u8>, usize, usize)>, b: Seq<(Seq<u8>, usize, usize)>) -> bool
    decreases a.len(),
{
    if b.len() == 0 {
        false
    } else if a.len() == 0 {
        true
    } else if entry_lt(a[0], b[0]) {
        true
    } else if entry_lt(b[0], a[0]) {
        false
    } else {
        positions_lt(a.drop_first(), b.drop_first())
    }
}

/// The order in which clusters of one source are ranked: by position,
/// then by list index.
pub open spec fn rank_lt(a: Seq<(Seq<u8>, usize, usize)>, a_index: int, b: Seq<(Seq<u8>, usize, usize)>, b_index: int) -> bool {
    positions_lt(a, b) || (a == b && a_index < b_index)
}

/// How many of the first `k` clusters share cluster `i`'s source and rank
/// before it.
pub open spec fn spec_rank(sources: Seq<SourceView>, positions: Seq<Seq<(Seq<u8>, usize, usize)>>, i: int, k: int) -> nat
    decreases k,
{
    if k <= 0 {
        0
    } else {
        let j = k - 1;
        let before = spec_rank(sources, positions, i, j);
        if sources[j] == sources[i] && rank_lt(positions[j], j, positions[i], i) { before + 1 } else { before }
    }
}

/// Each member's path and byte range, in member order.
fn position(members: &[Fingerprint], file_paths: &[FilePath]) -> (found: Vec<PositionEntry>)
    ensures
        position_view(found@) == spec_position(fingerprints_view(members@), file_paths@),
{
    let mut found: Vec<PositionEntry> = Vec::new();
    let mut index: usize = 0;
    while index < members.len()
        invariant
            index <= members@.len(),
            position_view(found@) == spec_position(fingerprints_view(members@).take(index as int), file_paths@),
        decreases members@.len() - index,
    {
        let member = &members[index];
        let path = path_of(member, file_paths);
        let ghost prev = position_view(found@);
        let entry = PositionEntry { path, start: member.byte_range.start, end: member.byte_range.end };
        let ghost entry_model = entry_view(entry);
        found.push(entry);
        assert(position_view(found@) =~= prev.push(entry_model));
        assert(fingerprints_view(members@).take(index as int + 1) =~= fingerprints_view(members@).take(index as int).push(member@));
        assert(spec_position(fingerprints_view(members@).take(index as int + 1), file_paths@)
            =~= spec_position(fingerprints_view(members@).take(index as int), file_paths@).push(entry_model));
        index = index + 1;
    }
    assert(fingerprints_view(members@).take(members@.len() as int) =~= fingerprints_view(members@));
    found
}

/// Byte-string equality.
fn same_bytes(a: &[u8], b: &[u8]) -> (same: bool)
    ensures
        same == (a@ == b@),
{
    if a.len() != b.len() {
        return false;
    }
    let mut index: usize = 0;
    while index < a.len()
        invariant
            index <= a@.len(),
            a@.len() == b@.len(),
            forall|j: int| 0 <= j < index ==> a@[j] == b@[j],
        decreases a@.len() - index,
    {
        if a[index] != b[index] {
            return false;
        }
        index = index + 1;
    }
    assert(a@ =~= b@);
    true
}

/// Digest equality.
pub(crate) fn same_digest(a: &[u8; 32], b: &[u8; 32]) -> (same: bool)
    ensures
        same == (a@ == b@),
{
    let mut index: usize = 0;
    while index < 32
        invariant
            index <= 32,
            a@.len() == 32,
            b@.len() == 32,
            forall|j: int| 0 <= j < index ==> a@[j] == b@[j],
        decreases 32 - index,
    {
        if a[index] != b[index] {
            return false;
        }
        index = index + 1;
    }
    assert(a@ =~= b@);
    true
}

/// Whether two clusters share one source.
fn same_source(a: &Source, b: &Source) -> (same: bool)
    ensures
        same == (a@ == b@),
{
    assert(a@.paths.len() == a.paths@.len() && b@.paths.len() == b.paths@.len());
    if !same_digest(&a.digest, &b.digest) || a.paths.len() != b.paths.len() {
        return false;
    }
    let mut index: usize = 0;
    while index < a.paths.len()
        invariant
            index <= a.paths@.len(),
            a.paths@.len() == b.paths@.len(),
            a.digest@ == b.digest@,
            forall|j: int| 0 <= j < index ==> a.paths@[j]@ == b.paths@[j]@,
        decreases a.paths@.len() - index,
    {
        if !same_bytes(a.paths[index].as_slice(), b.paths[index].as_slice()) {
            assert(paths_view(a.paths@)[index as int] != paths_view(b.paths@)[index as int]);
            return false;
        }
        index = index + 1;
    }
    assert(paths_view(a.paths@) =~= paths_view(b.paths@));
    true
}

/// Whether position entry `a` orders before `b`.
fn entry_less(a: &PositionEntry, b: &PositionEntry) -> (less: bool)
    ensures
        less == entry_lt(entry_view(*a), entry_view(*b)),
{
    if path_less(a.path.as_slice(), b.path.as_slice()) {
        return true;
    }
    if !same_bytes(a.path.as_slice(), b.path.as_slice()) {
        return false;
    }
    a.start < b.start || (a.start == b.start && a.end < b.end)
}

/// Whether two positions are equal.
fn same_position(a: &Vec<PositionEntry>, b: &Vec<PositionEntry>) -> (same: bool)
    ensures
        same == (position_view(a@) == position_view(b@)),
{
    assert(position_view(a@).len() == a@.len() && position_view(b@).len() == b@.len());
    if a.len() != b.len() {
        return false;
    }
    let mut index: usize = 0;
    while index < a.len()
        invariant
            index <= a@.len(),
            a@.len() == b@.len(),
            forall|j: int| 0 <= j < index ==> entry_view(a@[j]) == entry_view(b@[j]),
        decreases a@.len() - index,
    {
        let left = &a[index];
        let right = &b[index];
        if !same_bytes(left.path.as_slice(), right.path.as_slice()) || left.start != right.start || left.end != right.end {
            assert(position_view(a@)[index as int] != position_view(b@)[index as int]);
            return false;
        }
        index = index + 1;
    }
    assert(position_view(a@) =~= position_view(b@));
    true
}

/// Whether position `a` orders before position `b`.
fn position_less(a: &Vec<PositionEntry>, b: &Vec<PositionEntry>) -> (less: bool)
    ensures
        less == positions_lt(position_view(a@), position_view(b@)),
{
    let ghost av = position_view(a@);
    let ghost bv = position_view(b@);
    let mut index: usize = 0;
    assert(av.skip(0) =~= av);
    assert(bv.skip(0) =~= bv);
    while index < a.len() && index < b.len()
        invariant
            index <= a@.len(),
            index <= b@.len(),
            av == position_view(a@),
            bv == position_view(b@),
            positions_lt(av, bv) == positions_lt(av.skip(index as int), bv.skip(index as int)),
        decreases a@.len() - index,
    {
        if entry_less(&a[index], &b[index]) {
            return true;
        }
        if entry_less(&b[index], &a[index]) {
            return false;
        }
        assert(av.skip(index as int).drop_first() =~= av.skip(index as int + 1));
        assert(bv.skip(index as int).drop_first() =~= bv.skip(index as int + 1));
        index = index + 1;
    }
    index < b.len()
}

/// The models of a list of sources.
pub open spec fn sources_view(sources: Seq<Source>) -> Seq<SourceView> {
    sources.map_values(|source: Source| source@)
}

/// The models of a list of positions.
pub open spec fn positions_view(positions: Seq<Vec<PositionEntry>>) -> Seq<Seq<(Seq<u8>, usize, usize)>> {
    positions.map_values(|position: Vec<PositionEntry>| position_view(position@))
}

/// Cluster `index`'s rank among the clusters that share its source.
fn ordinal_of(index: usize, sources: &Vec<Source>, positions: &Vec<Vec<PositionEntry>>) -> (ordinal: u64)
    requires
        index < sources@.len(),
        sources@.len() == positions@.len(),
    ensures
        ordinal == spec_rank(sources_view(sources@), positions_view(positions@), index as int, sources@.len() as int),
{
    let ghost sv = sources_view(sources@);
    let ghost pv = positions_view(positions@);
    let mut count: u64 = 0;
    let mut other: usize = 0;
    while other < sources.len()
        invariant
            other <= sources@.len(),
            index < sources@.len(),
            sources@.len() == positions@.len(),
            sv == sources_view(sources@),
            pv == positions_view(positions@),
            count <= other,
            count == spec_rank(sv, pv, index as int, other as int),
        decreases sources@.len() - other,
    {
        let ranks_before = position_less(&positions[other], &positions[index])
            || (same_position(&positions[other], &positions[index]) && other < index);
        if same_source(&sources[other], &sources[index]) && ranks_before {
            count = count + 1;
        }
        other = other + 1;
    }
    count
}

/// Each cluster's rank among the clusters that share its source, by
/// position and then list order.
fn ordinals(sources: &Vec<Source>, positions: &Vec<Vec<PositionEntry>>) -> (found: Vec<u64>)
    requires
        sources@.len() == positions@.len(),
    ensures
        found@.len() == sources@.len(),
        forall|i: int| 0 <= i < sources@.len() ==>
            #[trigger] found@[i] == spec_rank(sources_view(sources@), positions_view(positions@), i, sources@.len() as int),
{
    let mut found: Vec<u64> = Vec::new();
    let mut index: usize = 0;
    while index < sources.len()
        invariant
            index <= sources@.len(),
            sources@.len() == positions@.len(),
            found@.len() == index,
            forall|i: int| 0 <= i < index ==>
                #[trigger] found@[i] == spec_rank(sources_view(sources@), positions_view(positions@), i, sources@.len() as int),
        decreases sources@.len() - index,
    {
        found.push(ordinal_of(index, sources, positions));
        index = index + 1;
    }
    found
}

/// Every path followed by a zero byte.
pub open spec fn spec_joined_paths(paths: Seq<Seq<u8>>) -> Seq<u8>
    decreases paths.len(),
{
    if paths.len() == 0 {
        seq![]
    } else {
        spec_joined_paths(paths.drop_last()) + paths.last() + seq![0u8]
    }
}

/// The bytes an id digests: the source digest, each path with a zero
/// terminator, and, past the first cluster of a source, its ordinal.
pub open spec fn spec_id_input(source: SourceView, ordinal: u64) -> Seq<u8> {
    source.digest + spec_joined_paths(source.paths)
        + if ordinal > 0 { spec_le_bytes(ordinal as nat, 8) } else { seq![] }
}

/// The public id of the cluster with `source` and `ordinal`.
pub open spec fn spec_cluster_id(source: SourceView, ordinal: u64) -> Seq<char> {
    spec_short_id(blake3_digest(spec_id_input(source, ordinal)))
}

/// The public id: the first eight digest bytes over one source (and,
/// past the first cluster of that source, one ordinal) in hex.
fn cluster_id(source: &Source, ordinal: u64) -> (id: String)
    ensures
        id@ == spec_cluster_id(source@, ordinal),
        spec_is_short_id(id@),
{
    let ghost paths = paths_view(source.paths@);
    let mut input: Vec<u8> = Vec::new();
    push_all(&mut input, &source.digest);
    let mut index: usize = 0;
    assert(paths.take(0) =~= Seq::<Seq<u8>>::empty());
    while index < source.paths.len()
        invariant
            index <= source.paths@.len(),
            paths == paths_view(source.paths@),
            input@ == source.digest@ + spec_joined_paths(paths.take(index as int)),
        decreases source.paths@.len() - index,
    {
        push_all(&mut input, source.paths[index].as_slice());
        input.push(0u8);
        assert(paths.take(index as int + 1).drop_last() =~= paths.take(index as int));
        assert(input@ =~= source.digest@ + spec_joined_paths(paths.take(index as int + 1)));
        index = index + 1;
    }
    assert(paths.take(source.paths@.len() as int) =~= paths);
    if ordinal > 0 {
        let tail = le_bytes(ordinal);
        push_all(&mut input, tail.as_slice());
    }
    assert(input@ =~= spec_id_input(source@, ordinal));
    let hash = digest(input.as_slice());
    encode_short_id(hash)
}

/// The models of a list of unnamed clusters.
pub open spec fn drafts_view(drafts: Seq<Unnamed>) -> Seq<UnnamedView> {
    drafts.map_values(|draft: Unnamed| draft@)
}

/// The source of every draft.
pub open spec fn draft_sources(drafts: Seq<UnnamedView>, file_paths: Seq<FilePath>) -> Seq<SourceView> {
    drafts.map_values(|draft: UnnamedView| spec_source(draft.members, file_paths))
}

/// The position of every draft.
pub open spec fn draft_positions(drafts: Seq<UnnamedView>, file_paths: Seq<FilePath>) -> Seq<Seq<(Seq<u8>, usize, usize)>> {
    drafts.map_values(|draft: UnnamedView| spec_position(draft.members, file_paths))
}

/// Draft `i`'s rank among the drafts sharing its source.
pub open spec fn spec_ordinal(drafts: Seq<UnnamedView>, file_paths: Seq<FilePath>, i: int) -> nat {
    spec_rank(draft_sources(drafts, file_paths), draft_positions(drafts, file_paths), i, drafts.len() as int)
}

/// Draft `i` with its id.
pub open spec fn spec_named(drafts: Seq<UnnamedView>, file_paths: Seq<FilePath>, i: int) -> ClusterView {
    ClusterView {
        id: spec_cluster_id(spec_source(drafts[i].members, file_paths), spec_ordinal(drafts, file_paths, i) as u64),
        members: drafts[i].members,
        mass: drafts[i].mass,
        kind: drafts[i].kind,
        shape_family: drafts[i].shape_family,
    }
}

/// Names every cluster. The id digests the smallest member digest and
/// every member path in path order and, for every cluster after the first
/// sharing both, its rank among them by position. A file the path list
/// does not cover contributes an empty path.
pub fn name_clusters(drafts: Vec<Unnamed>, file_paths: &[FilePath]) -> (named: Vec<Cluster>)
    ensures
        named@.len() == drafts@.len(),
        forall|i: int| 0 <= i < drafts@.len() ==> #[trigger] named@[i]@ == spec_named(drafts_view(drafts@), file_paths@, i),
        forall|i: int| 0 <= i < named@.len() ==> spec_is_short_id(#[trigger] named@[i].id@),
{
    let ghost dv = drafts_view(drafts@);
    let mut sources: Vec<Source> = Vec::new();
    let mut positions: Vec<Vec<PositionEntry>> = Vec::new();
    let mut index: usize = 0;
    while index < drafts.len()
        invariant
            index <= drafts@.len(),
            dv == drafts_view(drafts@),
            sources@.len() == index,
            positions@.len() == index,
            forall|j: int| 0 <= j < index ==> #[trigger] sources@[j]@ == spec_source(dv[j].members, file_paths@),
            forall|j: int| 0 <= j < index ==> position_view(#[trigger] positions@[j]@) == spec_position(dv[j].members, file_paths@),
        decreases drafts@.len() - index,
    {
        sources.push(source(drafts[index].members.as_slice(), file_paths));
        positions.push(position(drafts[index].members.as_slice(), file_paths));
        index = index + 1;
    }
    assert(sources_view(sources@) =~= draft_sources(dv, file_paths@));
    assert(positions_view(positions@) =~= draft_positions(dv, file_paths@));
    let ranks = ordinals(&sources, &positions);
    let mut named: Vec<Cluster> = Vec::new();
    let mut index: usize = 0;
    while index < drafts.len()
        invariant
            index <= drafts@.len(),
            dv == drafts_view(drafts@),
            sources@.len() == drafts@.len(),
            positions@.len() == drafts@.len(),
            ranks@.len() == drafts@.len(),
            forall|i: int| 0 <= i < drafts@.len() ==>
                #[trigger] ranks@[i] == spec_rank(sources_view(sources@), positions_view(positions@), i, sources@.len() as int),
            sources_view(sources@) == draft_sources(dv, file_paths@),
            positions_view(positions@) == draft_positions(dv, file_paths@),
            named@.len() == index,
            forall|j: int| 0 <= j < index ==> #[trigger] named@[j]@ == spec_named(dv, file_paths@, j),
            forall|j: int| 0 <= j < index ==> spec_is_short_id(#[trigger] named@[j].id@),
        decreases drafts@.len() - index,
    {
        let ordinal = ranks[index];
        let id = cluster_id(&sources[index], ordinal);
        let draft = &drafts[index];
        assert(sources@[index as int]@ == sources_view(sources@)[index as int]);
        named.push(Cluster {
            id,
            members: copy_fingerprints(&draft.members),
            mass: draft.mass,
            kind: draft.kind,
            shape_family: draft.shape_family,
        });
        index = index + 1;
    }
    named
}

} // verus!
