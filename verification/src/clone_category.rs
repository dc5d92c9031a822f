//! Clone category: the "logic vs. data" axis of a cluster.
//!
//! Orthogonal to the similarity kind: the kind says how similar the copies
//! are, the category says whether the repetition is extractable logic or
//! data that cannot be refactored away. This module is the single source
//! of the wire label, the human chip and the action hint, so every
//! renderer agrees.

use vstd::prelude::*;

use crate::text::same_text;

verus! {

/// Whether a cluster's repetition is extractable logic or data.
#[derive(Debug, Clone, Copy, PartialEq, Eq, Structural, Hash)]
pub enum CloneCategory {
    /// Ordinary duplicated code; full ranking weight, the default.
    Logic,
    /// A data-structure literal repeated across sibling elements: real
    /// repetition, but the constructor enumerates per-row fields, so it is
    /// demoted rather than presented as duplicated logic.
    DataTable,
}

/// The stable wire label of a category.
pub open spec fn spec_category_label(category: CloneCategory) -> Seq<char> {
    match category {
        CloneCategory::Logic => "logic"@,
        CloneCategory::DataTable => "data"@,
    }
}

/// The chip a category shows, if any.
pub open spec fn spec_chip(category: CloneCategory) -> Option<Seq<char>> {
    match category {
        CloneCategory::Logic => None,
        CloneCategory::DataTable => Some("data table"@),
    }
}

impl CloneCategory {
    /// Every shipped variant in registry order.
    pub fn all() -> (categories: [CloneCategory; 2])
        ensures
            categories@ == seq![CloneCategory::Logic, CloneCategory::DataTable],
    {
        let categories = [CloneCategory::Logic, CloneCategory::DataTable];
        assert(categories@ =~= seq![CloneCategory::Logic, CloneCategory::DataTable]);
        categories
    }

    /// Plain group title: the chip when there is one, or "Code clones"
    /// for the chip-less logic category.
    pub fn group_title(self) -> (title: &'static str)
        ensures
            title@ == match spec_chip(self) {
                Some(chip) => chip,
                None => "Code clones"@,
            },
    {
        match self.chip() {
            Some(chip) => chip,
            None => "Code clones",
        }
    }

    /// Stable snake_case wire label.
    pub fn wire_label(self) -> (label: &'static str)
        ensures
            label@ == spec_category_label(self),
    {
        match self {
            CloneCategory::Logic => "logic",
            CloneCategory::DataTable => "data",
        }
    }

    /// Parses the wire label; anything but "data" is logic, so absent or
    /// unknown values resolve to the common case.
    pub fn from_wire_label(label: &str) -> (category: CloneCategory)
        ensures
            category == if label@ == "data"@ { CloneCategory::DataTable } else { CloneCategory::Logic },
    {
        if same_text(label, "data") {
            CloneCategory::DataTable
        } else {
            CloneCategory::Logic
        }
    }

    /// Short human chip shown beside the kind title; none for logic.
    pub fn chip(self) -> (chip: Option<&'static str>)
        ensures
            match chip {
                Some(text) => spec_chip(self) == Some(text@),
                None => spec_chip(self).is_none(),
            },
    {
        match self {
            CloneCategory::Logic => None,
            CloneCategory::DataTable => Some("data table"),
        }
    }

    /// Category-specific refactoring recommendation.
    pub fn action_sentence(self) -> (sentence: &'static str)
        ensures
            sentence@ == match self {
                CloneCategory::Logic => "Extract the duplicated logic into a shared function."@,
                CloneCategory::DataTable => "Repeated data rows, not duplicated logic. Consider a builder with default arguments, or move the rows to a JSON/CSV/asset file."@,
            },
    {
        match self {
            CloneCategory::Logic => "Extract the duplicated logic into a shared function.",
            CloneCategory::DataTable => "Repeated data rows, not duplicated logic. Consider a builder with default arguments, or move the rows to a JSON/CSV/asset file.",
        }
    }
}

/// Every category's wire label reads back as that category.
pub proof fn lemma_wire_label_round_trips(category: CloneCategory)
    ensures
        (if spec_category_label(category) == "data"@ { CloneCategory::DataTable } else { CloneCategory::Logic }) == category,
{
    reveal_strlit("data");
    reveal_strlit("logic");
    assert("logic"@.len() != "data"@.len());
}

} // verus!
