use deslop_core::cluster_filters::calls::sequence::{
    is_literal_variation_call_cluster, is_literal_variation_call_sequence, sequence_is_scenario_scaffolding,
    CallSequence,
};
use deslop_core::cluster_filters::calls::{
    call_kinds, has_differing_string_literals, literal_agreement, pair_is_copy_paste, is_literal_variation_call_set,
    same_call_headers, ArgShape, CallShape, CalleePart, LiteralAgreement,
};

fn callee(name: &str) -> Vec<CalleePart> {
    vec![CalleePart::Node("identifier".to_string()), CalleePart::Text(name.as_bytes().to_vec()), CalleePart::End]
}

fn call(name: &str, arguments: Vec<ArgShape>) -> CallShape {
    CallShape {
        callee: callee(name),
        arity: arguments.len(),
        keywords: vec![None; arguments.len()],
        arguments,
        result_binding: None,
        consumed_identifiers: Vec::new(),
    }
}

fn text(value: &str) -> ArgShape {
    ArgShape::StringLiteral(value.as_bytes().to_vec(), false)
}

fn interpolated(value: &str) -> ArgShape {
    ArgShape::StringLiteral(value.as_bytes().to_vec(), true)
}

#[test]
fn a_family_of_one_helper_with_different_strings_is_scaffolding() {
    let calls = vec![
        call("setenv", vec![text("HOME"), ArgShape::Other]),
        call("setenv", vec![text("PATH"), ArgShape::Other]),
        call("setenv", vec![text("USER"), ArgShape::Other]),
    ];
    assert!(is_literal_variation_call_set(Some(calls)));
}

#[test]
fn a_shared_literal_position_blocks_the_suppression() {
    let calls = vec![
        call("post", vec![text("/api"), text("a")]),
        call("post", vec![text("/api"), text("b")]),
    ];
    let refs: Vec<&CallShape> = calls.iter().collect();
    assert_eq!(literal_agreement(&refs, 0), LiteralAgreement::Same);
    assert_eq!(literal_agreement(&refs, 1), LiteralAgreement::Differs);
    assert_eq!(literal_agreement(&refs, 2), LiteralAgreement::NotAString);
    assert!(!has_differing_string_literals(&refs));
    assert!(!is_literal_variation_call_set(Some(calls)));
}

#[test]
fn different_callees_or_a_missing_call_are_not_one_family() {
    let calls = vec![call("parse", vec![text("x")]), call("resolve", vec![text("y")])];
    assert!(!is_literal_variation_call_set(Some(calls)));
    assert!(!is_literal_variation_call_set(None));
    assert!(!is_literal_variation_call_set(Some(Vec::new())));
}

#[test]
fn a_non_string_where_the_first_has_a_string_is_incomparable() {
    let calls = vec![call("f", vec![text("x")]), call("f", vec![ArgShape::Other])];
    let refs: Vec<&CallShape> = calls.iter().collect();
    assert_eq!(literal_agreement(&refs, 0), LiteralAgreement::Incomparable);
    assert!(!has_differing_string_literals(&refs));
}

#[test]
fn wrapped_literals_vary_only_under_one_constructor() {
    let wrap = |name: &str, value: &str| ArgShape::LiteralWrapper(callee(name), value.as_bytes().to_vec());
    let same = vec![call("f", vec![wrap("PathBuf", "a")]), call("f", vec![wrap("PathBuf", "b")])];
    let refs: Vec<&CallShape> = same.iter().collect();
    assert_eq!(literal_agreement(&refs, 0), LiteralAgreement::Differs);
    let mixed = vec![call("f", vec![wrap("Url", "a")]), call("f", vec![wrap("Uri", "b")])];
    let refs: Vec<&CallShape> = mixed.iter().collect();
    assert_eq!(literal_agreement(&refs, 0), LiteralAgreement::Incomparable);
}

#[test]
fn an_interpolated_pair_is_a_copy_paste_and_publishes() {
    let calls = vec![call("get", vec![interpolated("/users/{id}")]), call("get", vec![interpolated("/teams/{id}")])];
    let refs: Vec<&CallShape> = calls.iter().collect();
    assert!(pair_is_copy_paste(&refs));
    assert!(!is_literal_variation_call_set(Some(calls)));
    let plain = vec![call("get", vec![text("/users")]), call("get", vec![text("/teams")])];
    let refs: Vec<&CallShape> = plain.iter().collect();
    assert!(!pair_is_copy_paste(&refs));
    assert!(is_literal_variation_call_set(Some(plain)));
}

#[test]
fn a_call_carrying_a_body_is_judged_by_its_body() {
    let calls = vec![call("test", vec![text("a"), ArgShape::Body]), call("test", vec![text("b"), ArgShape::Body])];
    assert!(calls[0].carries_body());
    assert!(!is_literal_variation_call_set(Some(calls)));
}

fn bound(name: &str, arguments: Vec<ArgShape>, binding: &str) -> CallShape {
    CallShape { result_binding: Some(binding.as_bytes().to_vec()), ..call(name, arguments) }
}

fn consuming(name: &str, arguments: Vec<ArgShape>, consumed: &str) -> CallShape {
    CallShape { consumed_identifiers: vec![consumed.as_bytes().to_vec()], ..call(name, arguments) }
}

#[test]
fn a_bound_adapter_feeding_a_varying_call_is_scenario_plumbing() {
    let first = vec![bound("make", vec![ArgShape::Other], "x"), consuming("check", vec![text("one")], "x")];
    let second = vec![bound("make", vec![ArgShape::Other], "x"), consuming("check", vec![text("two")], "x")];
    let third = vec![bound("make", vec![ArgShape::Other], "x"), consuming("check", vec![text("three")], "x")];
    let sequences: Vec<&[CallShape]> = vec![&first, &second, &third];
    assert!(sequence_is_scenario_scaffolding(&sequences));
    assert!(same_call_headers(&first, &second));
}

#[test]
fn an_invariant_call_whose_result_is_unused_blocks_the_sequence() {
    let first = vec![call("make", vec![ArgShape::Other]), call("check", vec![text("one")])];
    let second = vec![call("make", vec![ArgShape::Other]), call("check", vec![text("two")])];
    let sequences: Vec<&[CallShape]> = vec![&first, &second];
    assert!(!sequence_is_scenario_scaffolding(&sequences));
}

#[test]
fn the_shortest_member_is_the_shared_skeleton() {
    let short = vec![call("check", vec![text("one")])];
    let long = vec![call("check", vec![text("two")]), call("other", vec![ArgShape::Other])];
    let other = vec![call("check", vec![text("three")])];
    let sequences: Vec<&[CallShape]> = vec![&short, &long, &other];
    assert!(sequence_is_scenario_scaffolding(&sequences));
    let empty: Vec<CallShape> = Vec::new();
    let with_empty: Vec<&[CallShape]> = vec![&short, &empty];
    assert!(!sequence_is_scenario_scaffolding(&with_empty));
}

#[test]
fn an_inadmissible_member_or_an_unread_one_blocks_the_sequence_rule() {
    let cells = vec![
        CallSequence { statements_admissible: true, shapes: Some(vec![call("check", vec![text("one")])]) },
        CallSequence { statements_admissible: true, shapes: Some(vec![call("check", vec![text("two")])]) },
        CallSequence { statements_admissible: true, shapes: Some(vec![call("check", vec![text("six")])]) },
    ];
    assert!(is_literal_variation_call_sequence(&cells));
    assert!(is_literal_variation_call_cluster(None, &cells));
    let blocked = vec![
        CallSequence { statements_admissible: false, shapes: Some(vec![call("check", vec![text("one")])]) },
        CallSequence { statements_admissible: true, shapes: Some(vec![call("check", vec![text("two")])]) },
    ];
    assert!(!is_literal_variation_call_sequence(&blocked));
    let unread = vec![
        CallSequence { statements_admissible: true, shapes: None },
        CallSequence { statements_admissible: true, shapes: Some(vec![call("check", vec![text("two")])]) },
    ];
    assert!(!is_literal_variation_call_sequence(&unread));
}

#[test]
fn call_productions_are_listed_per_language() {
    assert_eq!(call_kinds("python"), vec!["call"]);
    assert_eq!(call_kinds("rust"), vec!["call_expression", "macro_invocation"]);
    assert_eq!(call_kinds("tsx"), vec!["call_expression"]);
    assert!(call_kinds("cobol").is_empty());
}
