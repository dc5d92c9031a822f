//! The clone-kind registry: one label set per [`ClusterKind`], the
//! strength order the cluster fold reads, and the measured-tier
//! vocabulary.

use vstd::prelude::*;

pub mod gate;
pub mod grouping;
pub mod routing;

verus! {

/// How similar the copies of one cluster are, strongest first.
#[derive(Clone, Copy, PartialEq, Eq, Structural, Debug, Hash)]
pub enum ClusterKind {
    /// Byte-proven copies.
    Identical,
    /// Copies equal after renaming, or close near-misses.
    NearlyIdentical,
    /// Different code with the same behaviour.
    SameBehavior,
    /// Copies with larger edits.
    LooselySimilar,
    /// Same shape, different content: informational, not a clone.
    StructuralOnly,
}

/// How one pair comparison classified its two occurrences.
#[derive(Clone, Copy, PartialEq, Eq, Structural, Debug, Hash)]
pub enum PairClassification {
    /// Byte-proven copies.
    Identical,
    /// Copies equal after renaming, or close near-misses.
    NearlyIdentical,
    /// Different code with the same behaviour.
    SameBehavior,
    /// Same shape, different content.
    StructuralOnly,
    /// Copies with larger edits.
    LooselySimilar,
}

/// The human labels of one clone kind. Every surface that names a kind
/// reads them from here.
#[derive(Clone, Copy, Debug, PartialEq, Eq)]
pub struct KindLabels {
    /// The title a cluster surface shows. Never carries advice.
    pub title: &'static str,
    /// The clone-taxonomy name, for tooltips and agent context.
    pub taxonomy: &'static str,
    /// The CSS class suffix the HTML report keys its colours on.
    pub css_suffix: &'static str,
}

/// How much a kind claims: the byte-proven kind claims the most, a
/// relation carried only through other members the least.
pub open spec fn kind_strength(kind: ClusterKind) -> nat {
    match kind {
        ClusterKind::StructuralOnly => 0,
        ClusterKind::LooselySimilar => 1,
        ClusterKind::SameBehavior => 2,
        ClusterKind::NearlyIdentical => 3,
        ClusterKind::Identical => 4,
    }
}

/// The weaker of two kinds; `first` on a tie.
pub open spec fn spec_weaker(first: ClusterKind, second: ClusterKind) -> ClusterKind {
    if kind_strength(second) < kind_strength(first) { second } else { first }
}

/// Whether a kind reports duplication.
pub open spec fn spec_is_clone(kind: ClusterKind) -> bool {
    kind != ClusterKind::StructuralOnly
}

/// The kind a pair classification names.
pub open spec fn spec_from_pair(classification: Option<PairClassification>) -> Option<ClusterKind> {
    match classification {
        Some(PairClassification::Identical) => Some(ClusterKind::Identical),
        Some(PairClassification::NearlyIdentical) => Some(ClusterKind::NearlyIdentical),
        Some(PairClassification::SameBehavior) => Some(ClusterKind::SameBehavior),
        Some(PairClassification::StructuralOnly) => Some(ClusterKind::StructuralOnly),
        Some(PairClassification::LooselySimilar) => Some(ClusterKind::LooselySimilar),
        None => None,
    }
}

/// Every kind, strongest first.
pub open spec fn spec_all_kinds() -> Seq<ClusterKind> {
    seq![
        ClusterKind::Identical,
        ClusterKind::NearlyIdentical,
        ClusterKind::SameBehavior,
        ClusterKind::LooselySimilar,
        ClusterKind::StructuralOnly,
    ]
}

/// The stable wire spelling of a kind.
pub open spec fn spec_wire_label(kind: ClusterKind) -> Seq<char> {
    match kind {
        ClusterKind::Identical => "identical"@,
        ClusterKind::NearlyIdentical => "nearly_identical"@,
        ClusterKind::SameBehavior => "same_behavior"@,
        ClusterKind::StructuralOnly => "structural_only"@,
        ClusterKind::LooselySimilar => "loosely_similar"@,
    }
}

/// The default diagnostic severity of a kind.
pub open spec fn spec_severity(kind: ClusterKind) -> Seq<char> {
    match kind {
        ClusterKind::Identical | ClusterKind::NearlyIdentical => "warning"@,
        ClusterKind::SameBehavior | ClusterKind::LooselySimilar => "information"@,
        ClusterKind::StructuralOnly => "none"@,
    }
}

/// The labels a kind carries: `(title, taxonomy, css suffix)`.
pub open spec fn spec_labels(kind: ClusterKind) -> (Seq<char>, Seq<char>, Seq<char>) {
    match kind {
        ClusterKind::Identical => ("Identical code"@, "Type-1 exact clone"@, "identical"@),
        ClusterKind::NearlyIdentical => (
            "Nearly identical code"@,
            "Type-2 / close Type-3 clone"@,
            "nearly-identical"@,
        ),
        ClusterKind::SameBehavior => (
            "Same behavior, different code"@,
            "Type-4 semantic clone"@,
            "same-behavior"@,
        ),
        ClusterKind::StructuralOnly => (
            "Same shape, different content"@,
            "Informational non-clone"@,
            "structural-only"@,
        ),
        ClusterKind::LooselySimilar => (
            "Similar code"@,
            "Type-3 clone with larger edits"@,
            "loosely-similar"@,
        ),
    }
}

/// The demoted tier: the buckets a ranking policy demotes or the renderer hides.
pub open spec fn spec_is_demoted_tier(kind: ClusterKind) -> bool {
    kind == ClusterKind::StructuralOnly || kind == ClusterKind::LooselySimilar
}

impl ClusterKind {
    /// Shared default diagnostic severity; mass never selects it.
    pub fn default_diagnostic_severity(self) -> (severity: &'static str)
        ensures
            severity@ == spec_severity(self),
    {
        match self {
            ClusterKind::Identical | ClusterKind::NearlyIdentical => "warning",
            ClusterKind::SameBehavior | ClusterKind::LooselySimilar => "information",
            ClusterKind::StructuralOnly => "none",
        }
    }

    /// Shape-only is informational, not duplication.
    pub fn is_clone(self) -> (clone: bool)
        ensures
            clone == spec_is_clone(self),
    {
        !matches!(self, ClusterKind::StructuralOnly)
    }

    /// Every kind, strongest first — the order surfaces list kinds in.
    pub fn all() -> (kinds: [ClusterKind; 5])
        ensures
            kinds@ == spec_all_kinds(),
    {
        let kinds = [
            ClusterKind::Identical,
            ClusterKind::NearlyIdentical,
            ClusterKind::SameBehavior,
            ClusterKind::LooselySimilar,
            ClusterKind::StructuralOnly,
        ];
        assert(kinds@ =~= spec_all_kinds());
        kinds
    }

    /// An unclassified comparison supplies no clone kind.
    pub fn from_pair(classification: Option<PairClassification>) -> (kind: Option<ClusterKind>)
        ensures
            kind == spec_from_pair(classification),
    {
        match classification {
            Some(PairClassification::Identical) => Some(ClusterKind::Identical),
            Some(PairClassification::NearlyIdentical) => Some(ClusterKind::NearlyIdentical),
            Some(PairClassification::SameBehavior) => Some(ClusterKind::SameBehavior),
            Some(PairClassification::StructuralOnly) => Some(ClusterKind::StructuralOnly),
            Some(PairClassification::LooselySimilar) => Some(ClusterKind::LooselySimilar),
            None => None,
        }
    }

    /// The weaker of two kinds.
    pub fn weaker(self, other: ClusterKind) -> (kind: ClusterKind)
        ensures
            kind == spec_weaker(self, other),
    {
        if other.strength() < self.strength() {
            other
        } else {
            self
        }
    }

    /// How much a kind claims.
    pub fn strength(self) -> (strength: u8)
        ensures
            strength == kind_strength(self),
    {
        match self {
            ClusterKind::StructuralOnly => 0,
            ClusterKind::LooselySimilar => 1,
            ClusterKind::SameBehavior => 2,
            ClusterKind::NearlyIdentical => 3,
            ClusterKind::Identical => 4,
        }
    }

    /// The stable wire spelling, identical to the serde form.
    pub fn wire_label(self) -> (label: &'static str)
        ensures
            label@ == spec_wire_label(self),
    {
        match self {
            ClusterKind::Identical => "identical",
            ClusterKind::NearlyIdentical => "nearly_identical",
            ClusterKind::SameBehavior => "same_behavior",
            ClusterKind::StructuralOnly => "structural_only",
            ClusterKind::LooselySimilar => "loosely_similar",
        }
    }

    /// The human labels of this kind.
    pub fn labels(self) -> (labels: KindLabels)
        ensures
            (labels.title@, labels.taxonomy@, labels.css_suffix@) == spec_labels(self),
    {
        match self {
            ClusterKind::Identical => KindLabels {
                title: "Identical code",
                taxonomy: "Type-1 exact clone",
                css_suffix: "identical",
            },
            ClusterKind::NearlyIdentical => KindLabels {
                title: "Nearly identical code",
                taxonomy: "Type-2 / close Type-3 clone",
                css_suffix: "nearly-identical",
            },
            ClusterKind::SameBehavior => KindLabels {
                title: "Same behavior, different code",
                taxonomy: "Type-4 semantic clone",
                css_suffix: "same-behavior",
            },
            ClusterKind::StructuralOnly => KindLabels {
                title: "Same shape, different content",
                taxonomy: "Informational non-clone",
                css_suffix: "structural-only",
            },
            ClusterKind::LooselySimilar => KindLabels {
                title: "Similar code",
                taxonomy: "Type-3 clone with larger edits",
                css_suffix: "loosely-similar",
            },
        }
    }
}

/// True for the demoted tier — the buckets the ranking policy demotes or
/// the renderer hides outright.
pub fn is_demoted_tier(kind: ClusterKind) -> (demoted: bool)
    ensures
        demoted == spec_is_demoted_tier(kind),
{
    matches!(kind, ClusterKind::StructuralOnly | ClusterKind::LooselySimilar)
}

/// The fold keeps the weaker kind whichever side it is on: `weaker` is
/// commutative, idempotent and associative, and never claims more than
/// either input.
pub proof fn lemma_weaker_is_a_meet(first: ClusterKind, second: ClusterKind, third: ClusterKind)
    ensures
        spec_weaker(first, second) == spec_weaker(second, first),
        spec_weaker(first, first) == first,
        spec_weaker(spec_weaker(first, second), third) == spec_weaker(first, spec_weaker(second, third)),
        kind_strength(spec_weaker(first, second)) <= kind_strength(first),
        kind_strength(spec_weaker(first, second)) <= kind_strength(second),
        spec_weaker(first, second) == first || spec_weaker(first, second) == second,
{
}

/// Distinct kinds claim distinct strengths, and every kind is listed once,
/// strongest first.
pub proof fn lemma_kinds_listed_once_strongest_first(kind: ClusterKind, other: ClusterKind)
    ensures
        kind_strength(kind) == kind_strength(other) ==> kind == other,
        spec_all_kinds().contains(kind),
        forall|i: int, j: int| 0 <= i < j < 5 ==> kind_strength(spec_all_kinds()[i]) > kind_strength(spec_all_kinds()[j]),
{
    let position = 4 - kind_strength(kind) as int;
    assert(spec_all_kinds()[position] == kind);
}

/// A rejected pair has no clone kind, and every classification names a kind
/// of its own: two classifications never fold to one kind.
pub proof fn lemma_from_pair_preserves_the_classification(
    classification: Option<PairClassification>,
    other: Option<PairClassification>,
)
    ensures
        spec_from_pair(classification).is_none() <==> classification.is_none(),
        spec_from_pair(classification) == spec_from_pair(other) ==> classification == other,
{
}

} // verus!
