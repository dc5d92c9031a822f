//! Ordered-call scenario scaffolding: body-range members whose call
//! sequences share one header and vary their literal test data.

use vstd::prelude::*;
use vstd::slice::slice_subrange;

use super::{
    calls_at, owned_calls_view, same_call_headers, sequence_position_differs, sequences_view, spec_calls_at,
    spec_carries_body, spec_carries_string_literal, spec_is_literal_variation_call_set, spec_pair_is_copy_paste,
    spec_same_call_headers, spec_sequence_position_differs, optional_calls_view, is_literal_variation_call_set,
    pair_is_copy_paste, CallShape, CallShapeView,
};
use crate::text::{byte_strings_view, owned_listed, same_bytes};

verus! {

/// The length every sequence reaches: the shortest one's, none for no
/// sequences.
pub open spec fn spec_shared_len(sequences: Seq<Seq<CallShapeView>>) -> int
    decreases sequences.len(),
{
    if sequences.len() == 0 {
        0
    } else if sequences.len() == 1 {
        sequences[0].len() as int
    } else {
        let rest = spec_shared_len(sequences.drop_last());
        if (sequences.last().len() as int) < rest { sequences.last().len() as int } else { rest }
    }
}

/// Whether the call at `index` carries a body in any member. Such a
/// wrapper is neutral in the sequence: the calls of its body decide.
pub open spec fn spec_position_carries_body(sequences: Seq<Seq<CallShapeView>>, index: int) -> bool {
    exists|k: int| 0 <= k < sequences.len() && 0 <= index < sequences[k].len()
        && spec_carries_body(#[trigger] sequences[k][index])
}

/// Whether `sequence` binds the result of its literal-free call at `index`
/// and consumes that binding in a later varying position.
pub open spec fn spec_flows_in(sequence: Seq<CallShapeView>, varying: Seq<bool>, index: int) -> bool {
    &&& 0 <= index < sequence.len()
    &&& !spec_carries_string_literal(sequence[index])
    &&& sequence[index].result_binding is Some
    &&& exists|later: int| index + 1 <= later < sequence.len() && later < varying.len()
        && #[trigger] varying[later] && sequence[later].consumed_identifiers.contains(sequence[index].result_binding.unwrap())
}

/// Whether the invariant literal-free call at `index` only adapts a bound
/// value for a later varying call, in every member.
pub open spec fn spec_invariant_position_flows_to_variation(
    sequences: Seq<Seq<CallShapeView>>,
    varying: Seq<bool>,
    index: int,
) -> bool {
    forall|k: int| 0 <= k < sequences.len() ==> spec_flows_in(#[trigger] sequences[k], varying, index)
}

/// The sequence form of the copy-paste pair: two members, and at some
/// position of the first the pair of calls is a copy-pasted pair.
pub open spec fn spec_sequence_pair_is_copy_paste(sequences: Seq<Seq<CallShapeView>>) -> bool {
    sequences.len() == 2 && exists|index: int|
        0 <= index < sequences[0].len() && spec_pair_is_copy_paste(#[trigger] spec_calls_at(sequences, index))
}

/// Which of the first `count` positions vary.
pub open spec fn spec_varying(sequences: Seq<Seq<CallShapeView>>, count: int) -> Seq<bool> {
    Seq::new(count as nat, |index: int| spec_sequence_position_differs(sequences, index))
}

/// The members share one ordered call header over the length they all
/// reach; some position varies; every other position carries a body or
/// is a bound adapter into a later varying position; and the family is
/// no copy-pasted pair.
pub open spec fn spec_sequence_is_scenario_scaffolding(sequences: Seq<Seq<CallShapeView>>) -> bool {
    let shared = spec_shared_len(sequences);
    let varying = spec_varying(sequences, shared);
    &&& sequences.len() > 0
    &&& shared > 0
    &&& forall|k: int| 0 <= k < sequences.len() ==>
        spec_same_call_headers((#[trigger] sequences[k]).take(shared), sequences[0].take(shared))
    &&& exists|index: int| 0 <= index < shared && #[trigger] varying[index]
    &&& forall|index: int| 0 <= index < shared ==> #[trigger] varying[index]
        || spec_position_carries_body(sequences, index)
        || spec_invariant_position_flows_to_variation(sequences, varying, index)
    &&& !spec_sequence_pair_is_copy_paste(sequences)
}

proof fn lemma_shared_len_bounds(sequences: Seq<Seq<CallShapeView>>)
    ensures
        forall|k: int| 0 <= k < sequences.len() ==> spec_shared_len(sequences) <= #[trigger] sequences[k].len(),
        spec_shared_len(sequences) >= 0,
    decreases sequences.len(),
{
    if sequences.len() > 1 {
        lemma_shared_len_bounds(sequences.drop_last());
        assert forall|k: int| 0 <= k < sequences.len() implies spec_shared_len(sequences) <= #[trigger] sequences[k].len() by {
            if k < sequences.len() - 1 {
                assert(sequences.drop_last()[k] == sequences[k]);
            }
        }
    }
}

/// The length every sequence reaches.
fn shared_len(sequences: &[&[CallShape]]) -> (shared: usize)
    ensures
        shared == spec_shared_len(sequences_view(sequences@)),
{
    let ghost sv = sequences_view(sequences@);
    if sequences.len() == 0 {
        return 0;
    }
    let mut shared = sequences[0].len();
    assert(sv.take(1).drop_last() =~= Seq::<Seq<CallShapeView>>::empty());
    assert(sv[0].len() == sequences@[0]@.len());
    let mut k: usize = 1;
    while k < sequences.len()
        invariant
            1 <= k <= sequences@.len(),
            sv == sequences_view(sequences@),
            shared == spec_shared_len(sv.take(k as int)),
        decreases sequences@.len() - k,
    {
        assert(sv.take(k as int + 1).drop_last() =~= sv.take(k as int));
        assert(sv[k as int].len() == sequences@[k as int]@.len());
        if sequences[k].len() < shared {
            shared = sequences[k].len();
        }
        k = k + 1;
    }
    assert(sv.take(sequences@.len() as int) =~= sv);
    shared
}

/// Whether the call at `index` carries a body in any member.
pub fn position_carries_body(sequences: &[&[CallShape]], index: usize) -> (carries: bool)
    ensures
        carries == spec_position_carries_body(sequences_view(sequences@), index as int),
{
    let ghost sv = sequences_view(sequences@);
    let mut k: usize = 0;
    while k < sequences.len()
        invariant
            k <= sequences@.len(),
            sv == sequences_view(sequences@),
            sv.len() == sequences@.len(),
            forall|m: int| 0 <= m < k ==> !(0 <= index < sv[m].len() && spec_carries_body(#[trigger] sv[m][index as int])),
        decreases sequences@.len() - k,
    {
        let sequence = sequences[k];
        assert(sv[k as int] == owned_calls_view(sequence@));
        if index < sequence.len() {
            assert(sv[k as int][index as int] == sequence@[index as int]@);
            if sequence[index].carries_body() {
                return true;
            }
        }
        k = k + 1;
    }
    false
}

/// Whether `sequence` binds its call at `index` and a later varying call
/// consumes the binding.
fn flows_in(sequence: &[CallShape], varying: &Vec<bool>, index: usize) -> (flows: bool)
    ensures
        flows == spec_flows_in(owned_calls_view(sequence@), varying@, index as int),
{
    let ghost cv = owned_calls_view(sequence@);
    if index >= sequence.len() {
        return false;
    }
    let call = &sequence[index];
    assert(cv[index as int] == call@);
    if call.carries_string_literal() {
        return false;
    }
    let binding = match &call.result_binding {
        Some(binding) => binding,
        None => return false,
    };
    let mut later: usize = index + 1;
    while later < sequence.len()
        invariant
            index + 1 <= later <= sequence@.len(),
            index < sequence@.len(),
            cv == owned_calls_view(sequence@),
            cv[index as int].result_binding == Some(binding@),
            !spec_carries_string_literal(cv[index as int]),
            forall|m: int| index + 1 <= m < later ==> !(m < varying@.len() && #[trigger] varying@[m]
                && cv[m].consumed_identifiers.contains(binding@)),
        decreases sequence@.len() - later,
    {
        assert(cv[later as int] == sequence@[later as int]@);
        let varies = later < varying.len() && varying[later];
        if varies && owned_listed(&sequence[later].consumed_identifiers, binding.as_slice()) {
            assert(varying@[later as int] && cv[later as int].consumed_identifiers.contains(binding@));
            return true;
        }
        later = later + 1;
    }
    false
}

/// Whether one invariant literal-free call only adapts a bound value for
/// a later literal-varying call in every member.
pub fn invariant_position_flows_to_variation(sequences: &[&[CallShape]], varying: &Vec<bool>, index: usize) -> (flows: bool)
    ensures
        flows == spec_invariant_position_flows_to_variation(sequences_view(sequences@), varying@, index as int),
{
    let ghost sv = sequences_view(sequences@);
    let mut k: usize = 0;
    while k < sequences.len()
        invariant
            k <= sequences@.len(),
            sv == sequences_view(sequences@),
            sv.len() == sequences@.len(),
            forall|m: int| 0 <= m < k ==> spec_flows_in(#[trigger] sv[m], varying@, index as int),
        decreases sequences@.len() - k,
    {
        assert(sv[k as int] == owned_calls_view(sequences@[k as int]@));
        if !flows_in(sequences[k], varying, index) {
            return false;
        }
        k = k + 1;
    }
    true
}

/// The sequence form of the copy-paste pair.
pub fn sequence_pair_is_copy_paste(sequences: &[&[CallShape]]) -> (copy_paste: bool)
    ensures
        copy_paste == spec_sequence_pair_is_copy_paste(sequences_view(sequences@)),
{
    let ghost sv = sequences_view(sequences@);
    if sequences.len() != 2 {
        return false;
    }
    let first = sequences[0];
    assert(sv[0].len() == first@.len());
    let mut index: usize = 0;
    while index < first.len()
        invariant
            index <= first@.len(),
            sv == sequences_view(sequences@),
            sv.len() == 2,
            sv[0].len() == first@.len(),
            forall|i: int| 0 <= i < index ==> !spec_pair_is_copy_paste(#[trigger] spec_calls_at(sv, i)),
        decreases first@.len() - index,
    {
        let position = calls_at(sequences, index);
        if pair_is_copy_paste(position.as_slice()) {
            return true;
        }
        index = index + 1;
    }
    false
}

/// True when the members share one ordered call header over the length
/// they all reach and every invariant position is only a bound adapter
/// into a later varying position. The shared skeleton is the shortest
/// sequence: the overlap collapse keeps the widest window per run, so one
/// occurrence may sweep several scenario members, and the longer members
/// are more of the same scenario.
pub fn sequence_is_scenario_scaffolding(sequences: &[&[CallShape]]) -> (scaffolding: bool)
    ensures
        scaffolding == spec_sequence_is_scenario_scaffolding(sequences_view(sequences@)),
{
    let ghost sv = sequences_view(sequences@);
    if sequences.len() == 0 {
        return false;
    }
    let shared = shared_len(sequences);
    if shared == 0 {
        return false;
    }
    proof {
        lemma_shared_len_bounds(sv);
    }
    assert(sv[0].len() == sequences@[0]@.len());
    let first_header = slice_subrange(sequences[0], 0, shared);
    assert(owned_calls_view(first_header@) =~= sv[0].take(shared as int));
    let mut k: usize = 0;
    while k < sequences.len()
        invariant
            k <= sequences@.len(),
            sv == sequences_view(sequences@),
            sv.len() == sequences@.len(),
            shared == spec_shared_len(sv),
            forall|m: int| 0 <= m < sv.len() ==> shared <= #[trigger] sv[m].len(),
            owned_calls_view(first_header@) == sv[0].take(shared as int),
            forall|m: int| 0 <= m < k ==>
                spec_same_call_headers((#[trigger] sv[m]).take(shared as int), sv[0].take(shared as int)),
        decreases sequences@.len() - k,
    {
        let sequence = sequences[k];
        assert(sv[k as int] == owned_calls_view(sequence@));
        assert(shared <= sv[k as int].len());
        let header = slice_subrange(sequence, 0, shared);
        assert(owned_calls_view(header@) =~= sv[k as int].take(shared as int));
        if !same_call_headers(header, first_header) {
            return false;
        }
        k = k + 1;
    }
    let ghost spec_varying_seq = spec_varying(sv, shared as int);
    let mut varying: Vec<bool> = Vec::new();
    let mut any_varies = false;
    let mut index: usize = 0;
    while index < shared
        invariant
            index <= shared,
            sv == sequences_view(sequences@),
            shared == spec_shared_len(sv),
            spec_varying_seq == spec_varying(sv, shared as int),
            varying@ == spec_varying_seq.take(index as int),
            any_varies == exists|i: int| 0 <= i < index && #[trigger] spec_varying_seq[i],
        decreases shared - index,
    {
        let differs = sequence_position_differs(sequences, index);
        varying.push(differs);
        assert(spec_varying_seq[index as int] == differs);
        assert(varying@ =~= spec_varying_seq.take(index as int + 1));
        if differs {
            any_varies = true;
        }
        index = index + 1;
    }
    assert(varying@ =~= spec_varying_seq);
    if !any_varies {
        return false;
    }
    let mut index: usize = 0;
    while index < shared
        invariant
            index <= shared,
            sv == sequences_view(sequences@),
            shared == spec_shared_len(sv),
            varying@ == spec_varying(sv, shared as int),
            forall|i: int| 0 <= i < index ==> #[trigger] varying@[i]
                || spec_position_carries_body(sv, i)
                || spec_invariant_position_flows_to_variation(sv, varying@, i),
        decreases shared - index,
    {
        if !(varying[index] || position_carries_body(sequences, index)
            || invariant_position_flows_to_variation(sequences, &varying, index)) {
            return false;
        }
        index = index + 1;
    }
    !sequence_pair_is_copy_paste(sequences)
}

/// One member's ordered calls: whether every statement of its range is an
/// admissible scenario step, and its calls, where they could be read.
pub struct CallSequence {
    /// Every covered statement is a call statement the rule may judge.
    pub statements_admissible: bool,
    /// The member's calls in order, `None` where they could not be read.
    pub shapes: Option<Vec<CallShape>>,
}

/// Body-range members whose contained call sequences have the same
/// callees but intentionally different literal test data: every member's
/// statements are admissible, every member's calls were read, and the
/// sequences are scenario scaffolding.
pub open spec fn spec_is_literal_variation_call_sequence(cells: Seq<CallSequence>) -> bool {
    &&& forall|k: int| 0 <= k < cells.len() ==> (#[trigger] cells[k]).statements_admissible && cells[k].shapes is Some
    &&& spec_sequence_is_scenario_scaffolding(
        cells.map_values(|cell: CallSequence| owned_calls_view(cell.shapes.unwrap()@)),
    )
}

/// Detects body-range clusters whose call sequences share callees and
/// vary their literal test data.
pub fn is_literal_variation_call_sequence(cells: &[CallSequence]) -> (scaffolding: bool)
    ensures
        scaffolding == spec_is_literal_variation_call_sequence(cells@),
{
    let mut sequences: Vec<&[CallShape]> = Vec::new();
    let mut k: usize = 0;
    while k < cells.len()
        invariant
            k <= cells@.len(),
            sequences@.len() == k,
            forall|m: int| 0 <= m < k ==> (#[trigger] cells@[m]).statements_admissible && cells@[m].shapes is Some,
            forall|m: int| 0 <= m < k ==> (#[trigger] sequences@[m])@ == cells@[m].shapes.unwrap()@,
        decreases cells@.len() - k,
    {
        let cell = &cells[k];
        if !cell.statements_admissible {
            return false;
        }
        match &cell.shapes {
            Some(shapes) => sequences.push(shapes.as_slice()),
            None => return false,
        }
        k = k + 1;
    }
    assert(sequences_view(sequences@) =~= cells@.map_values(|cell: CallSequence| owned_calls_view(cell.shapes.unwrap()@)));
    sequence_is_scenario_scaffolding(sequences.as_slice())
}

/// The literal-variation rule over a cluster: the one comparable call per
/// member varies its literals, or the members' call sequences do.
pub fn is_literal_variation_call_cluster(calls: Option<Vec<CallShape>>, cells: &[CallSequence]) -> (scaffolding: bool)
    ensures
        scaffolding == (spec_is_literal_variation_call_set(optional_calls_view(calls))
            || spec_is_literal_variation_call_sequence(cells@)),
{
    is_literal_variation_call_set(calls) || is_literal_variation_call_sequence(cells)
}

} // verus!
