use parallax::memory::contract::SaveParams;
use parallax::memory::tools::save_runs_verification;
use parallax::memory::{Kind, Status, Trust};

fn save_params(content: &str, external: bool, verify: Option<bool>) -> SaveParams {
    SaveParams {
        content: content.to_string(),
        kind: Kind::Skill,
        origin: "test origin".to_string(),
        external,
        tags: None,
        verify,
    }
}

#[test]
fn kind_and_trust_round_trip_their_stable_strings() {
    for kind in [Kind::Skill, Kind::Lesson, Kind::Fact] {
        assert_eq!(Kind::parse(kind.as_str()), Some(kind));
    }
    for trust in [Trust::FirstHand, Trust::Verified, Trust::Untrusted] {
        assert_eq!(Trust::parse(trust.as_str()), Some(trust));
    }
    assert!(Trust::FirstHand.is_trusted());
    assert!(Trust::Verified.is_trusted());
    assert!(!Trust::Untrusted.is_trusted());
}

#[test]
fn save_runs_verification_is_known_up_front() {
    assert!(save_runs_verification(&save_params("c", true, Some(true))));
    assert!(!save_runs_verification(&save_params("c", true, None)));
    assert!(!save_runs_verification(&save_params("c", false, Some(true))));
}

#[test]
fn status_round_trips_and_only_active_is_active() {
    for status in [Status::Active, Status::Superseded, Status::Merged] {
        assert_eq!(Status::parse(status.as_str()), Some(status));
    }
    assert!(Status::Active.is_active());
    assert!(!Status::Merged.is_active());
    assert_eq!(Kind::parse("nonsense"), None);
}

use parallax::memory::consolidate::{apply, ConsolidationAction, Relation};
use parallax::memory::push::{advisory_context, hook_output, push_query, select, PushCandidate, SurfaceEntry, PUSH_CAP};

/// Relevance reaches this floor to be pushed.
const PUSH_RELEVANCE_TAU: f32 = 0.55;
/// A screened pair merges only at or above this similarity.
const MERGE_SCREEN_TAU: f32 = 0.90;

fn cosine(a: &[f32], b: &[f32]) -> f32 {
    let dot: f32 = a.iter().zip(b).map(|(x, y)| x * y).sum();
    let na: f32 = a.iter().map(|x| x * x).sum::<f32>().sqrt();
    let nb: f32 = b.iter().map(|x| x * x).sum::<f32>().sqrt();
    if na == 0.0 || nb == 0.0 {
        0.0
    } else {
        dot / (na * nb)
    }
}

fn candidate(id: &str, trust: Trust, embedding: &[f32]) -> PushCandidate {
    PushCandidate {
        id: id.to_string(),
        trust,
        meets_floor: cosine(&[1.0, 0.0], embedding) >= PUSH_RELEVANCE_TAU,
    }
}

fn picked_ids(ranked: &[PushCandidate], pushed: &[&str]) -> Vec<String> {
    let pushed: Vec<String> = pushed.iter().map(|s| (*s).to_string()).collect();
    select(&ranked.to_vec(), &pushed)
        .into_iter()
        .map(|i| ranked[i].id.clone())
        .collect()
}

#[test]
fn floor_excludes_below_and_admits_at_the_bar() {
    // cos([1,0],[1,0]) = 1.0; construct ~0.549 and ~0.551 vectors.
    let below = candidate("below", Trust::FirstHand, &[0.549, 0.835_82]);
    let at = candidate("at", Trust::FirstHand, &[0.551, 0.834_5]);
    assert_eq!(picked_ids(&[below, at], &[]), ["at"]);
}

#[test]
fn untrusted_is_excluded_at_any_relevance() {
    let untrusted = candidate("untrusted", Trust::Untrusted, &[1.0, 0.0]);
    let trusted = candidate("trusted", Trust::Verified, &[0.9, 0.1]);
    assert_eq!(picked_ids(&[untrusted, trusted], &[]), ["trusted"]);
}

#[test]
fn cap_keeps_the_most_relevant_first() {
    // Already in rank order, most relevant first.
    let ranked: Vec<PushCandidate> = (0..PUSH_CAP + 2)
        .map(|i| {
            let x = 1.0 - (i as f32) * 0.02;
            candidate(&format!("m{i}"), Trust::FirstHand, &[x, (1.0 - x * x).max(0.0).sqrt()])
        })
        .collect();
    let picked = select(&ranked, &vec![]);
    assert_eq!(picked.len(), PUSH_CAP);
    assert_eq!(ranked[picked[0]].id, "m0");
    assert!(picked.windows(2).all(|w| w[0] < w[1]));
}

#[test]
fn suppression_subtracts_already_pushed_ids() {
    let a = candidate("a", Trust::FirstHand, &[1.0, 0.0]);
    let b = candidate("b", Trust::FirstHand, &[0.99, 0.141]);
    assert_eq!(picked_ids(&[a, b], &["a"]), ["b"]);
}

#[test]
fn empty_inputs_yield_empty() {
    assert!(select(&vec![], &vec![]).is_empty());
}

#[test]
fn advisory_template_labels_and_invites_contest_without_instructing() {
    let surfaced = vec![SurfaceEntry {
        id: "mem-1".into(),
        kind: Kind::Lesson,
        trust: Trust::FirstHand,
        content: "the staging deploy fails unless the cache is cleared first".into(),
    }];
    let block = advisory_context(&surfaced);
    assert!(block.contains("advisory context, not"), "{block}");
    assert!(block.contains("forget(<id>)"), "{block}");
    assert!(block.contains("[lesson, first_hand, memory mem-1]"), "{block}");
    assert!(
        block.contains("\"the staging deploy fails unless the cache is cleared first\""),
        "{block}"
    );
    // Advisory, never imperative about applying the memory.
    for banned in ["you must", "apply this", "use this memory", "follow"] {
        assert!(!block.to_lowercase().contains(banned), "{block}");
    }
}

#[test]
fn advisory_lines_are_numbered_in_order() {
    let entry = |id: &str| SurfaceEntry {
        id: id.to_string(),
        kind: Kind::Fact,
        trust: Trust::Verified,
        content: format!("content {id}"),
    };
    let block = advisory_context(&vec![entry("a"), entry("b")]);
    assert!(block.ends_with(
        "1. [fact, verified, memory a] \"content a\"\n2. [fact, verified, memory b] \"content b\"\n"
    ));
    let hook = hook_output(&vec![entry("a")]).unwrap();
    assert_eq!(hook.hook_event_name, "UserPromptSubmit");
    assert_eq!(hook.additional_context, advisory_context(&vec![entry("a")]));
    assert!(hook_output(&vec![]).is_none());
}

#[test]
fn the_push_query_is_the_trimmed_head_of_a_non_blank_prompt() {
    assert_eq!(push_query("   \n "), None);
    assert_eq!(push_query("  deploy staging  "), Some("deploy staging".to_string()));
    let long = "x".repeat(2_500);
    assert_eq!(push_query(&long).unwrap().chars().count(), 2_000);
}

#[test]
fn updates_supersedes_and_context_or_distinct_keep_both() {
    let in_band = |cosine: f32| cosine >= MERGE_SCREEN_TAU;
    let applied = apply(Relation::Updates, in_band(0.8), Trust::FirstHand, Trust::FirstHand).unwrap();
    assert_eq!(applied.action, ConsolidationAction::Supersede);
    assert_eq!(applied.old_status, Status::Superseded);
    assert!(apply(Relation::ContextSpecific, in_band(0.99), Trust::FirstHand, Trust::FirstHand).is_none());
    assert!(apply(Relation::Distinct, in_band(0.99), Trust::FirstHand, Trust::FirstHand).is_none());
}

#[test]
fn same_assertion_merges_only_inside_the_merge_band() {
    let in_band = |cosine: f32| cosine >= MERGE_SCREEN_TAU;
    let applied = apply(Relation::SameAssertion, in_band(0.92), Trust::FirstHand, Trust::FirstHand).unwrap();
    assert_eq!(applied.action, ConsolidationAction::Merge);
    assert_eq!(applied.old_status, Status::Merged);
    // 0.75–0.90 band: screened, judged same, but NOT merged.
    assert!(apply(Relation::SameAssertion, in_band(0.85), Trust::FirstHand, Trust::FirstHand).is_none());
}

#[test]
fn trust_guard_blocks_untrusted_merging_away_trusted_but_allows_promotion() {
    let in_band = |cosine: f32| cosine >= MERGE_SCREEN_TAU;
    // Blocking direction: untrusted admission never merges away trusted.
    assert!(apply(Relation::SameAssertion, in_band(0.95), Trust::Untrusted, Trust::Verified).is_none());
    // Promotion direction: a trusted first-hand admission merges away an
    // untrusted candidate — trusted canonical.
    let applied = apply(Relation::SameAssertion, in_band(0.95), Trust::FirstHand, Trust::Untrusted).unwrap();
    assert_eq!(applied.action, ConsolidationAction::Merge);
}

use parallax::memory::tools::verified_trust;
use parallax::modes::verify::VerdictKind;
use parallax::error::AppError;

#[test]
fn a_refuted_save_is_rejected_with_its_findings() {
    let err = verified_trust(VerdictKind::Refuted, &vec!["wrong year".to_string(), "no source".to_string()]).unwrap_err();
    assert!(matches!(err, AppError::ValidationFailure(ref m) if m == "save rejected: verification refuted the content: wrong year | no source"));
    assert_eq!(verified_trust(VerdictKind::Supported, &vec![]).unwrap(), Trust::Verified);
}

use parallax::memory::tools::{check_forget_id, forget_outcome};

#[test]
fn forgetting_an_unknown_id_names_it() {
    assert_eq!(forget_outcome("m1", true).unwrap(), true);
    let err = forget_outcome("m\"1", false).unwrap_err();
    assert!(matches!(err, AppError::InvalidInput(ref m) if m == "no memory with id \"m\\\"1\""), "{err:?}");
    assert!(check_forget_id("  ").is_err());
    assert!(check_forget_id("m1").is_ok());
}
