//! The decorator block immediately above a Python function, read off the
//! source lines: the language's own abstract marker.
//!
//! The text before the function is read as UTF-8; whitespace is Unicode's
//! `White_Space`, recognised here by its UTF-8 encodings, which on valid
//! UTF-8 text is the same as trimming its characters.

use vstd::prelude::*;

use crate::cluster_filters::{contains_bytes, spec_contains_bytes, SyntaxNode};

verus! {

/// Whether `std::str::from_utf8` accepts the bytes: it does exactly when
/// they are a well-formed UTF-8 encoding of Unicode scalars.
#[verifier::external_body]
fn is_utf8(bytes: &[u8]) -> (valid: bool)
    ensures
        valid == vstd::utf8::valid_utf8(bytes@),
{
    std::str::from_utf8(bytes).is_ok()
}

/// An ASCII `White_Space` byte: tab, line feed, vertical tab, form feed,
/// carriage return or space.
pub open spec fn spec_is_ascii_space(byte: u8) -> bool {
    (0x09 <= byte && byte <= 0x0D) || byte == 0x20
}

/// Whether three bytes encode a three-byte `White_Space` scalar: U+1680,
/// U+2000 to U+200A, U+2028, U+2029, U+202F, U+205F or U+3000.
pub open spec fn spec_is_wide_space(a: u8, b: u8, c: u8) -> bool {
    ||| (a == 0xE1 && b == 0x9A && c == 0x80)
    ||| (a == 0xE2 && b == 0x80 && ((0x80 <= c && c <= 0x8A) || c == 0xA8 || c == 0xA9 || c == 0xAF))
    ||| (a == 0xE2 && b == 0x81 && c == 0x9F)
    ||| (a == 0xE3 && b == 0x80 && c == 0x80)
}

/// The byte length of a `White_Space` scalar that starts `bytes`; zero
/// when none does. U+0085 and U+00A0 are the two-byte ones.
pub open spec fn spec_leading_space(bytes: Seq<u8>) -> int {
    if bytes.len() >= 1 && spec_is_ascii_space(bytes[0]) {
        1
    } else if bytes.len() >= 2 && bytes[0] == 0xC2 && (bytes[1] == 0x85 || bytes[1] == 0xA0) {
        2
    } else if bytes.len() >= 3 && spec_is_wide_space(bytes[0], bytes[1], bytes[2]) {
        3
    } else {
        0
    }
}

/// The byte length of a `White_Space` scalar that ends `bytes`; zero when
/// none does.
pub open spec fn spec_trailing_space(bytes: Seq<u8>) -> int {
    let n = bytes.len() as int;
    if n >= 1 && spec_is_ascii_space(bytes[n - 1]) {
        1
    } else if n >= 2 && bytes[n - 2] == 0xC2 && (bytes[n - 1] == 0x85 || bytes[n - 1] == 0xA0) {
        2
    } else if n >= 3 && spec_is_wide_space(bytes[n - 3], bytes[n - 2], bytes[n - 1]) {
        3
    } else {
        0
    }
}

/// `bytes` without its leading whitespace.
pub open spec fn spec_trim_start(bytes: Seq<u8>) -> Seq<u8>
    decreases bytes.len(),
{
    let n = spec_leading_space(bytes);
    if n <= 0 || n > bytes.len() {
        bytes
    } else {
        spec_trim_start(bytes.subrange(n, bytes.len() as int))
    }
}

/// `bytes` without its trailing whitespace.
pub open spec fn spec_trim_end(bytes: Seq<u8>) -> Seq<u8>
    decreases bytes.len(),
{
    let n = spec_trailing_space(bytes);
    if n <= 0 || n > bytes.len() {
        bytes
    } else {
        spec_trim_end(bytes.subrange(0, bytes.len() - n))
    }
}

/// `bytes` without whitespace at either end.
pub open spec fn spec_trim(bytes: Seq<u8>) -> Seq<u8> {
    spec_trim_end(spec_trim_start(bytes))
}

fn leading_space(bytes: &[u8]) -> (n: usize)
    ensures
        n == spec_leading_space(bytes@),
{
    let len = bytes.len();
    if len >= 1 && ((0x09 <= bytes[0] && bytes[0] <= 0x0D) || bytes[0] == 0x20) {
        1
    } else if len >= 2 && bytes[0] == 0xC2 && (bytes[1] == 0x85 || bytes[1] == 0xA0) {
        2
    } else if len >= 3 && is_wide_space(bytes[0], bytes[1], bytes[2]) {
        3
    } else {
        0
    }
}

fn trailing_space(bytes: &[u8]) -> (n: usize)
    ensures
        n == spec_trailing_space(bytes@),
{
    let len = bytes.len();
    if len >= 1 && ((0x09 <= bytes[len - 1] && bytes[len - 1] <= 0x0D) || bytes[len - 1] == 0x20) {
        1
    } else if len >= 2 && bytes[len - 2] == 0xC2 && (bytes[len - 1] == 0x85 || bytes[len - 1] == 0xA0) {
        2
    } else if len >= 3 && is_wide_space(bytes[len - 3], bytes[len - 2], bytes[len - 1]) {
        3
    } else {
        0
    }
}

fn is_wide_space(a: u8, b: u8, c: u8) -> (wide: bool)
    ensures
        wide == spec_is_wide_space(a, b, c),
{
    (a == 0xE1 && b == 0x9A && c == 0x80)
        || (a == 0xE2 && b == 0x80 && ((0x80 <= c && c <= 0x8A) || c == 0xA8 || c == 0xA9 || c == 0xAF))
        || (a == 0xE2 && b == 0x81 && c == 0x9F)
        || (a == 0xE3 && b == 0x80 && c == 0x80)
}

/// `bytes` without its leading whitespace.
pub fn trim_start_space(bytes: &[u8]) -> (trimmed: &[u8])
    ensures
        trimmed@ == spec_trim_start(bytes@),
{
    let mut rest = bytes;
    loop
        invariant
            spec_trim_start(rest@) == spec_trim_start(bytes@),
        decreases rest@.len(),
    {
        let n = leading_space(rest);
        if n == 0 {
            return rest;
        }
        rest = vstd::slice::slice_subrange(rest, n, rest.len());
    }
}

/// `bytes` without its trailing whitespace.
pub fn trim_end_space(bytes: &[u8]) -> (trimmed: &[u8])
    ensures
        trimmed@ == spec_trim_end(bytes@),
{
    let mut rest = bytes;
    loop
        invariant
            spec_trim_end(rest@) == spec_trim_end(bytes@),
        decreases rest@.len(),
    {
        let n = trailing_space(rest);
        if n == 0 {
            return rest;
        }
        rest = vstd::slice::slice_subrange(rest, 0, rest.len() - n);
    }
}

/// The ASCII bytes of `abstractmethod`.
pub open spec fn abstract_marker_bytes() -> Seq<u8> {
    seq![97u8, 98, 115, 116, 114, 97, 99, 116, 109, 101, 116, 104, 111, 100]
}

/// What one line says, read from the bottom of the block up: a line that
/// is not a decorator ends the block with `Some(false)`, a decorator whose
/// callee mentions `abstractmethod` ends it with `Some(true)`, and any
/// other decorator lets the scan go on.
pub open spec fn spec_line_verdict(line: Seq<u8>) -> Option<bool> {
    let trimmed = spec_trim(line);
    if trimmed.len() == 0 || trimmed[0] != 64u8 {
        Some(false)
    } else if spec_contains_bytes(trimmed.subrange(1, trimmed.len() as int), abstract_marker_bytes()) {
        Some(true)
    } else {
        None
    }
}

fn line_verdict(line: &[u8]) -> (verdict: Option<bool>)
    ensures
        verdict == spec_line_verdict(line@),
{
    let trimmed = trim_end_space(trim_start_space(line));
    if trimmed.len() == 0 || trimmed[0] != 64u8 {
        return Some(false);
    }
    let marker: [u8; 14] = [97, 98, 115, 116, 114, 97, 99, 116, 109, 101, 116, 104, 111, 100];
    assert(marker@ =~= abstract_marker_bytes());
    let callee = vstd::slice::slice_subrange(trimmed, 1, trimmed.len());
    if contains_bytes(callee, &marker) {
        Some(true)
    } else {
        None
    }
}

/// Position of the last line feed among the first `k` bytes; -1 when
/// there is none.
pub open spec fn spec_last_newline_before(text: Seq<u8>, k: int) -> int
    decreases k,
{
    if k <= 0 || k > text.len() {
        -1
    } else if text[k - 1] == 10u8 {
        k - 1
    } else {
        spec_last_newline_before(text, k - 1)
    }
}

pub proof fn lemma_newline_bounds(text: Seq<u8>, k: int)
    requires
        0 <= k <= text.len(),
    ensures
        -1 <= spec_last_newline_before(text, k) < k,
    decreases k,
{
    if k > 0 && text[k - 1] != 10u8 {
        lemma_newline_bounds(text, k - 1);
    }
}

/// The verdict of the lines of `text` that end at `end`, last line first.
pub open spec fn spec_scan_lines(text: Seq<u8>, end: int) -> bool
    decreases end,
{
    if end < 0 || end > text.len() {
        false
    } else {
        let newline = spec_last_newline_before(text, end);
        proof {
            lemma_newline_bounds(text, end);
        }
        match spec_line_verdict(text.subrange(newline + 1, end)) {
            Some(verdict) => verdict,
            None => if newline < 0 {
                false
            } else {
                spec_scan_lines(text, newline)
            },
        }
    }
}

/// The Python function carries an `abstractmethod` decorator in the block
/// of decorator lines immediately above it: the text before the function
/// is valid UTF-8, and reading its lines from the bottom up, every line up
/// to the marker is a decorator.
pub open spec fn spec_python_abstract_method(function: SyntaxNode, source: Seq<u8>) -> bool {
    &&& function.start_byte <= source.len()
    &&& vstd::utf8::valid_utf8(source.subrange(0, function.start_byte as int))
    &&& {
        let text = spec_trim_end(source.subrange(0, function.start_byte as int));
        text.len() > 0 && spec_scan_lines(text, text.len() as int)
    }
}

fn last_newline_before(text: &[u8], k: usize) -> (newline: Option<usize>)
    requires
        k <= text@.len(),
    ensures
        match newline {
            Some(position) => position == spec_last_newline_before(text@, k as int),
            None => spec_last_newline_before(text@, k as int) == -1,
        },
{
    let mut index = k;
    while index > 0
        invariant
            index <= k <= text@.len(),
            spec_last_newline_before(text@, k as int) == spec_last_newline_before(text@, index as int),
        decreases index,
    {
        if text[index - 1] == 10u8 {
            return Some(index - 1);
        }
        index = index - 1;
    }
    None
}

/// True when the Python function carries an `abstractmethod` decorator in
/// the decorator block immediately above it.
pub fn python_abstract_method(function: &SyntaxNode, source: &[u8]) -> (marked: bool)
    ensures
        marked == spec_python_abstract_method(*function, source@),
{
    if function.start_byte > source.len() {
        return false;
    }
    let prefix = vstd::slice::slice_subrange(source, 0, function.start_byte);
    if !is_utf8(prefix) {
        return false;
    }
    let text = trim_end_space(prefix);
    if text.len() == 0 {
        return false;
    }
    let mut end = text.len();
    loop
        invariant
            0 <= end <= text@.len(),
            text@.len() > 0,
            function.start_byte <= source@.len(),
            prefix@ == source@.subrange(0, function.start_byte as int),
            vstd::utf8::valid_utf8(prefix@),
            text@ == spec_trim_end(prefix@),
            spec_scan_lines(text@, end as int) == spec_scan_lines(text@, text@.len() as int),
        decreases end,
    {
        let newline = last_newline_before(text, end);
        proof {
            lemma_newline_bounds(text@, end as int);
        }
        let start = match newline {
            Some(position) => position + 1,
            None => 0,
        };
        let line = vstd::slice::slice_subrange(text, start, end);
        assert(line@ == text@.subrange(spec_last_newline_before(text@, end as int) + 1, end as int));
        match line_verdict(line) {
            Some(verdict) => return verdict,
            None => {},
        }
        match newline {
            Some(position) => end = position,
            None => return false,
        }
    }
}

} // verus!
