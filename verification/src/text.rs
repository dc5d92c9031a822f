//! Exact comparison of strings and byte strings.

use vstd::prelude::*;
use vstd::string::*;

verus! {

/// True exactly when the two strings hold the same characters.
pub fn same_text(left: &str, right: &str) -> (same: bool)
    ensures
        same == (left@ == right@),
{
    let length = left.unicode_len();
    if length != right.unicode_len() {
        return false;
    }
    let mut index: usize = 0;
    while index < length
        invariant
            length == left@.len(),
            length == right@.len(),
            index <= length,
            forall|j: int| 0 <= j < index ==> left@[j] == right@[j],
        decreases length - index,
    {
        if left.get_char(index) != right.get_char(index) {
            return false;
        }
        index = index + 1;
    }
    assert(left@ =~= right@);
    true
}

/// True exactly when the two byte strings are equal.
pub fn same_bytes(left: &[u8], right: &[u8]) -> (same: bool)
    ensures
        same == (left@ == right@),
{
    if left.len() != right.len() {
        return false;
    }
    let mut index: usize = 0;
    while index < left.len()
        invariant
            index <= left@.len(),
            left@.len() == right@.len(),
            forall|j: int| 0 <= j < index ==> left@[j] == right@[j],
        decreases left@.len() - index,
    {
        if left[index] != right[index] {
            return false;
        }
        index = index + 1;
    }
    assert(left@ =~= right@);
    true
}

/// The models of a list of borrowed byte strings.
pub open spec fn slices_view(names: Seq<&[u8]>) -> Seq<Seq<u8>> {
    names.map_values(|name: &[u8]| name@)
}

/// Whether `needle` is one of `names`.
pub fn slice_listed(names: &Vec<&[u8]>, needle: &[u8]) -> (listed: bool)
    ensures
        listed == slices_view(names@).contains(needle@),
{
    let ghost view = slices_view(names@);
    let mut index: usize = 0;
    while index < names.len()
        invariant
            index <= names@.len(),
            view == slices_view(names@),
            view.len() == names@.len(),
            forall|j: int| 0 <= j < index ==> view[j] != needle@,
        decreases names@.len() - index,
    {
        assert(view[index as int] == names@[index as int]@);
        if same_bytes(names[index], needle) {
            return true;
        }
        index = index + 1;
    }
    false
}

/// The models of a list of owned byte strings.
pub open spec fn byte_strings_view(strings: Seq<Vec<u8>>) -> Seq<Seq<u8>> {
    strings.map_values(|bytes: Vec<u8>| bytes@)
}

/// Whether `needle` is one of the owned `names`.
pub fn owned_listed(names: &Vec<Vec<u8>>, needle: &[u8]) -> (listed: bool)
    ensures
        listed == byte_strings_view(names@).contains(needle@),
{
    let ghost view = byte_strings_view(names@);
    let mut index: usize = 0;
    while index < names.len()
        invariant
            index <= names@.len(),
            view == byte_strings_view(names@),
            view.len() == names@.len(),
            forall|j: int| 0 <= j < index ==> view[j] != needle@,
        decreases names@.len() - index,
    {
        assert(view[index as int] == names@[index as int]@);
        if same_bytes(names[index].as_slice(), needle) {
            return true;
        }
        index = index + 1;
    }
    false
}

} // verus!
