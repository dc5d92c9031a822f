//! The noise decision over a cluster's re-read members, dispatched the way
//! the filters are keyed: the contract-bound polymorphic signature, the
//! literal-variation call rule and the constant table run for every
//! language; each idiom filter only for its own language. The result names
//! the filter that fired.
//!
//! The polymorphic test reads each member's resolved subject and the
//! corpus contract index, and the call rule reads each member's extracted
//! call and call sequence. [`noise_filter`] takes those as arguments;
//! [`is_noise_pattern`] re-reads a cluster's members from their files,
//! resolves and extracts all of them, and decides.

use vstd::prelude::*;

use super::calls::callee::optional_call_view;
use super::calls::sequence::{is_literal_variation_call_cluster, spec_is_literal_variation_call_sequence, CallSequence};
use super::calls::{
    call_sequence, call_shape, optional_calls_view, owned_calls_view, spec_call_sequence, spec_call_shape,
    spec_is_literal_variation_call_set, CallShape, CallShapeView,
};
use super::contract_index::{spec_build, types_view};
use super::polymorphic::subject::{spec_subject_matches, spec_subject_of, subjects_of};
use super::constant_table::{is_constant_table_cluster, spec_is_constant_table_cluster};
use super::contract_index::ContractIndex;
use super::dart::{is_dart_widget_scaffold_cluster, spec_is_dart_widget_scaffold_cluster};
use super::ecmascript::{is_ecmascript_data_shape_cluster, spec_is_ecmascript_data_shape_cluster};
use super::noise::{is_monkeypatch_scaffolding_literal_cluster, spec_is_monkeypatch_cluster};
use super::polymorphic::{is_polymorphic_signature_cluster, optional_subjects, spec_is_polymorphic_signature_cluster, OwnedSubject};
use super::python::{
    is_parametric_invariant_test_cluster, is_pytest_fixture_boilerplate_cluster, is_python_assertion_only_cluster,
    is_test_dict_literal_cluster, spec_is_parametric_invariant_test_cluster, spec_is_pytest_fixture_boilerplate_cluster,
    spec_is_python_assertion_only_cluster, spec_is_test_dict_literal_cluster,
};
use super::python_class_shapes::{
    is_pydantic_partial_update_cluster, is_strenum_class_shape_cluster, spec_is_pydantic_partial_update_cluster,
    spec_is_strenum_class_shape_cluster,
};
use super::python_collection_cells::{is_collection_sibling_cell_cluster, spec_is_collection_sibling_cell_cluster};
use super::python_dict_assert::{is_chained_dict_assert_cluster, spec_is_chained_dict_assert_cluster};
use super::python_idioms::{
    is_generated_template_output_cluster, is_jwt_hmac_independent_verifier_cluster, is_python_all_exports_cluster,
    spec_is_generated_template_output_cluster, spec_is_jwt_hmac_independent_verifier_cluster,
    spec_is_python_all_exports_cluster,
};
use super::snippets::{collect_snippets, snippets_view, spec_snippet_matches, spec_uniform_language, uniform_language, Snippet};
use crate::ast::{fingerprints_view, Fingerprint};
use crate::cluster::exact_runs::{spec_source_of, SourceFile};
use crate::cluster::scope::FileLanguage;
use crate::text::same_text;

verus! {

/// Which noise filter judged a cluster to be noise.
#[derive(Clone, Copy, Debug, PartialEq, Eq, Structural)]
pub enum NoiseFilter {
    /// One contract's implementations, bound to one signature.
    Polymorphic,
    /// One call, or one call sequence, varying only its literal payload.
    LiteralCalls,
    /// A table of constants.
    ConstantTable,
    /// An idiom of the cluster's own language.
    LanguageSpecific,
}

/// The Python idiom filters.
pub open spec fn spec_python_noise(snippets: Seq<Snippet>) -> bool {
    let views = snippets_view(snippets);
    ||| spec_is_generated_template_output_cluster(views)
    ||| spec_is_jwt_hmac_independent_verifier_cluster(views)
    ||| spec_is_monkeypatch_cluster(views)
    ||| spec_is_python_all_exports_cluster(views)
    ||| spec_is_python_assertion_only_cluster(views)
    ||| spec_is_chained_dict_assert_cluster(snippets)
    ||| spec_is_test_dict_literal_cluster(views)
    ||| spec_is_pytest_fixture_boilerplate_cluster(views)
    ||| spec_is_collection_sibling_cell_cluster(views)
    ||| spec_is_strenum_class_shape_cluster(snippets)
    ||| spec_is_pydantic_partial_update_cluster(snippets)
    ||| spec_is_parametric_invariant_test_cluster(views)
}

/// Every Python idiom noise filter.
pub fn python_noise(snippets: &[Snippet]) -> (noise: bool)
    ensures
        noise == spec_python_noise(snippets@),
{
    is_generated_template_output_cluster(snippets) || is_jwt_hmac_independent_verifier_cluster(snippets)
        || is_monkeypatch_scaffolding_literal_cluster(snippets) || is_python_all_exports_cluster(snippets)
        || is_python_assertion_only_cluster(snippets) || is_chained_dict_assert_cluster(snippets)
        || is_test_dict_literal_cluster(snippets) || is_pytest_fixture_boilerplate_cluster(snippets)
        || is_collection_sibling_cell_cluster(snippets) || is_strenum_class_shape_cluster(snippets)
        || is_pydantic_partial_update_cluster(snippets) || is_parametric_invariant_test_cluster(snippets)
}

/// The idiom filters of one language: Dart's widget scaffolds, Python's
/// idioms, ECMAScript's data shapes; none for any other language.
pub open spec fn spec_language_specific_noise(language: Seq<char>, snippets: Seq<Snippet>) -> bool {
    if language == "dart"@ {
        spec_is_dart_widget_scaffold_cluster(snippets_view(snippets))
    } else if language == "python"@ {
        spec_python_noise(snippets)
    } else if language == "javascript"@ || language == "typescript"@ || language == "tsx"@ {
        spec_is_ecmascript_data_shape_cluster(snippets_view(snippets))
    } else {
        false
    }
}

/// Language-specific idiom filters, dispatched by language so a cluster
/// is only walked by matchers that can fire for it.
pub fn language_specific_noise(language: &str, snippets: &[Snippet]) -> (noise: bool)
    ensures
        noise == spec_language_specific_noise(language@, snippets@),
{
    if same_text(language, "dart") {
        is_dart_widget_scaffold_cluster(snippets)
    } else if same_text(language, "python") {
        python_noise(snippets)
    } else if same_text(language, "javascript") || same_text(language, "typescript") || same_text(language, "tsx") {
        is_ecmascript_data_shape_cluster(snippets)
    } else {
        false
    }
}

/// The first filter, in dispatch order, that judges the cluster noise.
pub open spec fn spec_noise_filter(
    snippets: Seq<Snippet>,
    language: Seq<char>,
    subjects: Option<Seq<OwnedSubject>>,
    contracts: ContractIndex,
    calls: Option<Seq<CallShapeView>>,
    cells: Seq<CallSequence>,
) -> Option<NoiseFilter> {
    if spec_is_polymorphic_signature_cluster(snippets, subjects, contracts) {
        Some(NoiseFilter::Polymorphic)
    } else if spec_is_literal_variation_call_set(calls) || spec_is_literal_variation_call_sequence(cells) {
        Some(NoiseFilter::LiteralCalls)
    } else if spec_is_constant_table_cluster(snippets) {
        Some(NoiseFilter::ConstantTable)
    } else if spec_language_specific_noise(language, snippets) {
        Some(NoiseFilter::LanguageSpecific)
    } else {
        None
    }
}

/// Decides whether the re-read members of a cluster written in `language`
/// are a known noise pattern, and which filter says so. `subjects` are the
/// members' resolved subjects, `None` where one resolves to no function;
/// `calls` the one comparable call per member and `cells` each member's
/// call sequence.
pub fn noise_filter(
    snippets: &[Snippet],
    language: &str,
    subjects: Option<Vec<OwnedSubject>>,
    contracts: &ContractIndex,
    calls: Option<Vec<CallShape>>,
    cells: &[CallSequence],
) -> (filter: Option<NoiseFilter>)
    ensures
        filter == spec_noise_filter(snippets@, language@, optional_subjects(subjects), *contracts, optional_calls_view(calls), cells@),
{
    if is_polymorphic_signature_cluster(snippets, subjects, contracts) {
        return Some(NoiseFilter::Polymorphic);
    }
    if is_literal_variation_call_cluster(calls, cells) {
        return Some(NoiseFilter::LiteralCalls);
    }
    if is_constant_table_cluster(snippets) {
        return Some(NoiseFilter::ConstantTable);
    }
    if language_specific_noise(language, snippets) {
        return Some(NoiseFilter::LanguageSpecific);
    }
    None
}

/// The call every member is judged by, where every member has one.
pub open spec fn spec_member_calls(snippets: Seq<Snippet>) -> Option<Seq<CallShapeView>> {
    if forall|k: int| 0 <= k < snippets.len() ==> (#[trigger] spec_call_shape(snippets[k]@)) is Some {
        Some(snippets.map_values(|snippet: Snippet| spec_call_shape(snippet@).unwrap()))
    } else {
        None
    }
}

/// The one comparable call of every member; `None` where some member has
/// none.
pub fn member_calls(snippets: &[Snippet]) -> (calls: Option<Vec<CallShape>>)
    ensures
        optional_calls_view(calls) == spec_member_calls(snippets@),
{
    let ghost target = snippets@.map_values(|snippet: Snippet| spec_call_shape(snippet@).unwrap());
    let mut calls: Vec<CallShape> = Vec::new();
    let mut k: usize = 0;
    while k < snippets.len()
        invariant
            k <= snippets@.len(),
            target == snippets@.map_values(|snippet: Snippet| spec_call_shape(snippet@).unwrap()),
            forall|m: int| 0 <= m < k ==> (#[trigger] spec_call_shape(snippets@[m]@)) is Some,
            owned_calls_view(calls@) == target.take(k as int),
        decreases snippets@.len() - k,
    {
        match call_shape(&snippets[k]) {
            Some(shape) => {
                assert(target[k as int] == shape@);
                let ghost before = owned_calls_view(calls@);
                calls.push(shape);
                assert(owned_calls_view(calls@) =~= before.push(target[k as int]));
                assert(owned_calls_view(calls@) =~= target.take(k as int + 1));
            },
            None => {
                assert(spec_call_shape(snippets@[k as int]@) is None);
                return None;
            },
        }
        k = k + 1;
    }
    assert(target.take(snippets@.len() as int) =~= target);
    Some(calls)
}

/// Each member's call sequence cell, in order.
pub fn member_sequences(snippets: &[Snippet]) -> (cells: Vec<CallSequence>)
    ensures
        cells@.len() == snippets@.len(),
        forall|k: int| 0 <= k < snippets@.len() ==> spec_call_sequence(snippets@[k]@, #[trigger] cells@[k]),
{
    let mut cells: Vec<CallSequence> = Vec::new();
    let mut k: usize = 0;
    while k < snippets.len()
        invariant
            k <= snippets@.len(),
            cells@.len() == k,
            forall|m: int| 0 <= m < k ==> spec_call_sequence(snippets@[m]@, #[trigger] cells@[m]),
        decreases snippets@.len() - k,
    {
        cells.push(call_sequence(&snippets[k]));
        k = k + 1;
    }
    cells
}

/// Whether `subjects` are the members' resolved subjects: each member's
/// subject with the digest of its body's shape, or `None` where some
/// member resolves to no function.
pub open spec fn spec_subjects_read(snippets: Seq<Snippet>, subjects: Option<Seq<OwnedSubject>>) -> bool {
    match subjects {
        Some(found) => found.len() == snippets.len() && forall|i: int| 0 <= i < snippets.len() ==>
            spec_subject_of(#[trigger] snippets[i]) is Some
            && spec_subject_matches(found[i], spec_subject_of(snippets[i]).unwrap(), snippets[i].source@),
        None => exists|i: int| 0 <= i < snippets.len() && spec_subject_of(#[trigger] snippets[i]) is None,
    }
}

/// Whether these are what the noise decision reads of a cluster written in
/// `language`: each member re-read from its file's bytes, the members'
/// resolved subjects, the contract index of every file in the language,
/// and each member's call sequence cell.
pub open spec fn spec_cluster_reads(
    members: Seq<Fingerprint>,
    sources: Seq<SourceFile>,
    languages: Seq<FileLanguage>,
    language: Seq<char>,
    snippets: Seq<Snippet>,
    subjects: Option<Seq<OwnedSubject>>,
    contracts: ContractIndex,
    cells: Seq<CallSequence>,
) -> bool {
    &&& snippets.len() == members.len()
    &&& forall|i: int| 0 <= i < members.len() ==> spec_source_of(sources, (#[trigger] members[i]).file_id) is Some
        && spec_snippet_matches(snippets[i], members[i]@, spec_source_of(sources, members[i].file_id).unwrap(), language)
    &&& spec_subjects_read(snippets, subjects)
    &&& types_view(contracts.types@) == spec_build(sources, languages, language, sources.len() as int)
    &&& cells.len() == snippets.len()
    &&& forall|k: int| 0 <= k < snippets.len() ==> spec_call_sequence(snippets[k]@, #[trigger] cells[k])
}

/// Decides whether a cluster is a known noise pattern that must not be
/// surfaced as duplication, and which filter says so: the members share
/// one language and every member's file has bytes; each member is re-read
/// and parsed with its language plug-in's grammar, its subject resolved,
/// its call and call sequence extracted, the contract index built from
/// every file in the language, and the filters run in dispatch order. A
/// cluster whose members cannot be read falls through as `None`.
pub fn is_noise_pattern(members: &[Fingerprint], sources: &[SourceFile], languages: &[FileLanguage]) -> (filter: Option<NoiseFilter>)
    ensures
        match spec_uniform_language(fingerprints_view(members@), languages@) {
            None => filter is None,
            Some(language) => if exists|i: int| 0 <= i < members@.len() && spec_source_of(sources@, (#[trigger] members@[i]).file_id) is None {
                filter is None
            } else {
                exists|snippets: Seq<Snippet>, subjects: Option<Seq<OwnedSubject>>, contracts: ContractIndex, cells: Seq<CallSequence>|
                    #[trigger] spec_cluster_reads(members@, sources@, languages@, language, snippets, subjects, contracts, cells)
                    && filter == spec_noise_filter(snippets, language, subjects, contracts, spec_member_calls(snippets), cells)
            },
        },
{
    let language = match uniform_language(members, languages) {
        Some(language) => language,
        None => return None,
    };
    let snippets = match collect_snippets(members, sources, language) {
        Some(snippets) => snippets,
        None => return None,
    };
    let subjects = subjects_of(snippets.as_slice());
    let ghost subject_views = optional_subjects(subjects);
    let contracts = ContractIndex::build(sources, languages, language);
    let calls = member_calls(snippets.as_slice());
    let cells = member_sequences(snippets.as_slice());
    let filter = noise_filter(snippets.as_slice(), language, subjects, &contracts, calls, cells.as_slice());
    assert(spec_cluster_reads(members@, sources@, languages@, language@, snippets@, subject_views, contracts, cells@));
    filter
}

} // verus!
