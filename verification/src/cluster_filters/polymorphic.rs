//! The abstract/interface implementation pattern: every cluster member is
//! about one function definition whose declared name is the same across
//! at least two files while the bodies differ. The contract forces the
//! signatures to agree, and nothing that differs can share a refactor.

use vstd::prelude::*;

use crate::text::byte_strings_view;
use super::contract_index::{spec_declares, types_view, ContractIndex};
use super::snippets::Snippet;
use super::{spans_multiple_files, spec_spans_files};
use crate::ast::FileId;
use crate::text::same_bytes;

pub mod decorator_lines;
pub mod subject;

verus! {

/// What one cluster member contributes to the polymorphic decision.
pub struct OwnedSubject {
    /// The subject function's declared name.
    pub name: Vec<u8>,
    /// Simple names of the bases the subject's enclosing type declares,
    /// empty for a free function.
    pub bases: Vec<Vec<u8>>,
    /// Digest of the subject body's shape stream; only ever compared for
    /// inequality.
    pub shape_digest: [u8; 32],
    /// Whether the language's own override marker qualifies the subject.
    pub overrides: bool,
    /// Whether the subject is the abstract declaration of the contract
    /// itself rather than an implementation.
    pub abstract_declaration: bool,
}

/// The files of the members, in order.
pub open spec fn snippet_files(snippets: Seq<Snippet>) -> Seq<FileId> {
    snippets.map_values(|snippet: Snippet| snippet.file_id)
}

/// Whether a subject is bound to its signature by a contract: its own
/// override marker, being the abstract declaration, or a transitive base
/// that declares its name.
pub open spec fn spec_contract_bound(subject: OwnedSubject, contracts: ContractIndex) -> bool {
    subject.overrides || subject.abstract_declaration
        || spec_declares(types_view(contracts.types@), byte_strings_view(subject.bases@), subject.name@)
}

/// The polymorphic-signature pattern: the members span two files, every
/// member resolved to a subject, all subjects share one declared name,
/// some body differs from the first, and every subject is bound to its
/// signature by a contract.
pub open spec fn spec_is_polymorphic_signature_cluster(
    snippets: Seq<Snippet>,
    subjects: Option<Seq<OwnedSubject>>,
    contracts: ContractIndex,
) -> bool {
    &&& spec_spans_files(snippet_files(snippets))
    &&& subjects is Some
    &&& {
        let subjects = subjects.unwrap();
        &&& subjects.len() > 0
        &&& forall|i: int| 0 <= i < subjects.len() ==> (#[trigger] subjects[i]).name@ == subjects[0].name@
        &&& exists|i: int| 0 <= i < subjects.len() && (#[trigger] subjects[i]).shape_digest@ != subjects[0].shape_digest@
        &&& forall|i: int| 0 <= i < subjects.len() ==> spec_contract_bound(#[trigger] subjects[i], contracts)
    }
}

/// The files of the members, in order.
fn files_of(snippets: &[Snippet]) -> (files: Vec<FileId>)
    ensures
        files@ == snippet_files(snippets@),
{
    let mut files: Vec<FileId> = Vec::new();
    let mut index: usize = 0;
    while index < snippets.len()
        invariant
            index <= snippets@.len(),
            files@ == snippet_files(snippets@).take(index as int),
        decreases snippets@.len() - index,
    {
        files.push(snippets[index].file_id);
        assert(files@ =~= snippet_files(snippets@).take(index as int + 1));
        index = index + 1;
    }
    assert(snippet_files(snippets@).take(snippets@.len() as int) =~= snippet_files(snippets@));
    files
}

/// The optional models of an optional list of subjects.
pub open spec fn optional_subjects(subjects: Option<Vec<OwnedSubject>>) -> Option<Seq<OwnedSubject>> {
    match subjects {
        Some(subjects) => Some(subjects@),
        None => None,
    }
}

/// Detects the polymorphic-signature pattern: every member resolves to a
/// function definition with one shared declared name, the members span at
/// least two distinct files, the bodies differ, and every subject method
/// is declared by a contract its enclosing type derives from, or carries
/// the language's own override marker, or is the abstract declaration.
/// A free function is never an interface implementation. The file-spread
/// gate runs first; `subjects` is `None` where some member resolves to no
/// function.
#[verifier::loop_isolation(false)]
pub fn is_polymorphic_signature_cluster(
    snippets: &[Snippet],
    subjects: Option<Vec<OwnedSubject>>,
    contracts: &ContractIndex,
) -> (polymorphic: bool)
    ensures
        polymorphic == spec_is_polymorphic_signature_cluster(snippets@, optional_subjects(subjects), *contracts),
{
    let files = files_of(snippets);
    if !spans_multiple_files(files.as_slice()) {
        return false;
    }
    let subjects = match subjects {
        Some(subjects) => subjects,
        None => return false,
    };
    if subjects.len() == 0 {
        return false;
    }
    let ghost all = subjects@;
    let first = &subjects[0];
    let mut index: usize = 0;
    while index < subjects.len()
        invariant
            index <= subjects@.len(),
            all == subjects@,
            all.len() > 0,
            *first == all[0],
            forall|i: int| 0 <= i < index ==> (#[trigger] all[i]).name@ == all[0].name@,
        decreases subjects@.len() - index,
    {
        if !same_bytes(subjects[index].name.as_slice(), first.name.as_slice()) {
            assert(all[index as int].name@ != all[0].name@);
            return false;
        }
        index = index + 1;
    }
    assert(forall|i: int| 0 <= i < all.len() ==> (#[trigger] all[i]).name@ == all[0].name@);
    let mut differs = false;
    let mut index: usize = 0;
    while index < subjects.len()
        invariant
            index <= subjects@.len(),
            all == subjects@,
            all.len() > 0,
            *first == all[0],
            differs == exists|i: int| 0 <= i < index && (#[trigger] all[i]).shape_digest@ != all[0].shape_digest@,
        decreases subjects@.len() - index,
    {
        if !same_bytes(&subjects[index].shape_digest, &first.shape_digest) {
            differs = true;
        }
        index = index + 1;
    }
    if !differs {
        return false;
    }
    assert(exists|i: int| 0 <= i < all.len() && (#[trigger] all[i]).shape_digest@ != all[0].shape_digest@);
    let mut index: usize = 0;
    while index < subjects.len()
        invariant
            index <= subjects@.len(),
            all == subjects@,
            forall|i: int| 0 <= i < index ==> spec_contract_bound(#[trigger] all[i], *contracts),
        decreases subjects@.len() - index,
    {
        let subject = &subjects[index];
        if !(subject.overrides || subject.abstract_declaration
            || contracts.declares(subject.bases.as_slice(), subject.name.as_slice())) {
            assert(!spec_contract_bound(all[index as int], *contracts));
            return false;
        }
        index = index + 1;
    }
    assert(forall|i: int| 0 <= i < all.len() ==> spec_contract_bound(#[trigger] all[i], *contracts));
    assert(optional_subjects(Some(subjects)) == Some(all));
    true
}

} // verus!
