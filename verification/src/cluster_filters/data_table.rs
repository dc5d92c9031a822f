//! Whether a cluster is a data table rather than duplicated logic.
//!
//! A data table is real repetition the user may act on (a builder, an
//! asset file), so the policy demotes or drops it per configuration
//! rather than hiding it. Two tests qualify: the language-agnostic one,
//! where the cluster's normalised leaves are overwhelmingly literal
//! positions, and Dart's collection literals of constructor rows, whose
//! identifier-heavy rows sit below that floor. Either way a byte-for-byte
//! copied table is genuine duplication and stays logic.

use vstd::prelude::*;

use super::dart_data_table::{is_dart_collection_data_table_cluster, spec_is_dart_collection_data_table_cluster};
use super::snippets::{snippets_view, Snippet};
use super::{raw_snippet_texts_differ, spec_raw_texts_differ};
use crate::clone_category::CloneCategory;
use crate::text::same_text;

verus! {

/// The language-agnostic table: the literal fraction measured over the
/// cluster's normalised leaves is at the data-literal floor, and at least
/// two members differ in raw bytes.
pub open spec fn spec_is_literal_dominated_table(literal_dominated: bool, snippets: Seq<Snippet>) -> bool {
    literal_dominated && snippets.len() >= 2 && spec_raw_texts_differ(snippets)
}

/// Language-agnostic data-table test. `literal_dominated` is the reading
/// of the measured literal fraction against the data-literal floor.
pub fn is_literal_dominated_table(literal_dominated: bool, snippets: &[Snippet]) -> (table: bool)
    ensures
        table == spec_is_literal_dominated_table(literal_dominated, snippets@),
{
    literal_dominated && snippets.len() >= 2 && raw_snippet_texts_differ(snippets)
}

/// Either table test, the Dart one only for Dart.
pub open spec fn spec_is_data_table_cluster(language: Seq<char>, literal_dominated: bool, snippets: Seq<Snippet>) -> bool {
    spec_is_literal_dominated_table(literal_dominated, snippets)
        || (language == "dart"@ && spec_is_dart_collection_data_table_cluster(snippets_view(snippets)))
}

/// Dispatches data-table detection.
pub fn is_data_table_cluster(language: &str, literal_dominated: bool, snippets: &[Snippet]) -> (table: bool)
    ensures
        table == spec_is_data_table_cluster(language@, literal_dominated, snippets@),
{
    if is_literal_dominated_table(literal_dominated, snippets) {
        return true;
    }
    same_text(language, "dart") && is_dart_collection_data_table_cluster(snippets)
}

/// The category of a cluster whose members were read back from their
/// files in their one language; `None` where the members share no
/// language or some member's file is unavailable, which keeps the
/// cluster ordinary logic.
pub open spec fn spec_clone_category_of(snippets: Option<Seq<Snippet>>, literal_dominated: bool) -> CloneCategory {
    match snippets {
        Some(members) => if members.len() > 0 && spec_is_data_table_cluster(members[0].language@, literal_dominated, members) {
            CloneCategory::DataTable
        } else {
            CloneCategory::Logic
        },
        None => CloneCategory::Logic,
    }
}

/// Decides whether a cluster is a data table rather than duplicated
/// logic; a byte-for-byte copied table stays logic.
pub fn classify_clone_category(snippets: Option<&[Snippet]>, literal_dominated: bool) -> (category: CloneCategory)
    ensures
        category == spec_clone_category_of(
            match snippets {
                Some(members) => Some(members@),
                None => None,
            },
            literal_dominated,
        ),
{
    match snippets {
        Some(members) => {
            if members.len() > 0 && is_data_table_cluster(members[0].language, literal_dominated, members) {
                CloneCategory::DataTable
            } else {
                CloneCategory::Logic
            }
        },
        None => CloneCategory::Logic,
    }
}

/// Dart's collection literals of constructor rows are data tables
/// whatever the literal-dominance reading says; a literal-dominated
/// reading only ever adds tables; and outside Dart no table is found
/// without it.
pub proof fn lemma_dart_rows_are_tables_on_any_literal_reading(language: Seq<char>, literal_dominated: bool, snippets: Seq<Snippet>)
    ensures
        language == "dart"@ && spec_is_dart_collection_data_table_cluster(snippets_view(snippets))
            ==> spec_is_data_table_cluster(language, literal_dominated, snippets),
        spec_is_data_table_cluster(language, false, snippets) ==> spec_is_data_table_cluster(language, true, snippets),
        language != "dart"@ ==> !spec_is_data_table_cluster(language, false, snippets),
        snippets.len() > 0 && snippets[0].language@ == "dart"@ && spec_is_dart_collection_data_table_cluster(snippets_view(snippets))
            ==> spec_clone_category_of(Some(snippets), literal_dominated) == CloneCategory::DataTable,
{
}

} // verus!
