use parallax::error::AppError;
use parallax::modes::decide::{
    self, assemble, DecidePass, DecideParams, Methodology,
};
use parallax::modes::diverge::{self, dedup, DivergePass, DivergeParams, Perspective};
use parallax::modes::elicit::{self, ElicitParams, ElicitPass, SignalLevel};
use parallax::modes::grounded_compute::{
    agreed_spec, count_property, settle, ComputeSpec, Op, Property, RawUnit,
};
use parallax::modes::grounded_verify::{
    self, GroundedPass, GroundedVerdictKind,
};
use parallax::modes::unstick::{self, normalize, NextStep, UnstickParams};
use parallax::modes::verify::VerdictKind;
use parallax::memory::Trust;

fn decide_params(decision: &str, options: &[&str]) -> DecideParams {
    DecideParams {
        decision: decision.to_string(),
        options: options.iter().map(|s| (*s).to_string()).collect(),
        options_text: None,
        context: None,
    }
}

#[test]
fn prompt_has_only_subject_and_violation_slots_no_stance() {
    let p = decide_params("pick one", &["A", "B"]);
    let prompt = decide::build_prompt(decide::PROMPT_TEMPLATE, &p, None);
    assert!(prompt.contains("1. A") && prompt.contains("2. B"));
    assert_eq!(decide::PROMPT_TEMPLATE.matches("<<").count(), 4);
    assert!(
        decide::PROMPT_TEMPLATE.contains("<<decision>>")
            && decide::PROMPT_TEMPLATE.contains("<<options>>")
            && decide::PROMPT_TEMPLATE.contains("<<context>>")
            && decide::PROMPT_TEMPLATE.contains("<<violation_clause>>")
    );
    assert!(!prompt.contains("WAS REJECTED"));
}

#[test]
fn a_retry_prompt_names_the_violation() {
    let p = decide_params("pick one", &["A", "B"]);
    let prompt = decide::build_prompt(decide::PROMPT_TEMPLATE, &p, Some("bad arity"));
    assert!(prompt.contains("WAS REJECTED for this exact reason: bad arity."));
}

#[test]
fn margin_to_confidence_map() {
    let p = decide_params("d", &["x", "y"]);
    let mk = |a: i64, b: i64| {
        let r = assemble(
            &p,
            DecidePass {
                methodology: Methodology::Weigh,
                option_scores: vec![a, b],
                option_rationales: vec!["a".into(), "b".into()],
                deciding_factors: vec!["f".into()],
            },
        )
        .unwrap();
        f64::from(r.confidence_per_mille) / 1000.0
    };
    assert!((mk(50, 50) - 0.5).abs() < f64::EPSILON);
    assert!((mk(75, 25) - 0.75).abs() < 1e-9);
    assert!((mk(100, 0) - 1.0).abs() < f64::EPSILON);
}

#[test]
fn the_winner_is_computed_from_the_scores_with_the_runner_up_reason() {
    let p = decide_params("d", &["slow", "fast", "middle"]);
    let r = assemble(
        &p,
        DecidePass {
            methodology: Methodology::Causal,
            option_scores: vec![40, 85, 60],
            option_rationales: vec!["too slow".into(), "quick".into(), "fine".into()],
            deciding_factors: vec!["speed".into()],
        },
    )
    .unwrap();
    assert_eq!(r.recommended, "fast");
    assert_eq!(r.runner_up, "middle");
    assert_eq!(r.margin, 25);
    assert_eq!(r.runner_up_reason, "scored 25 below fast: fine");
    assert_eq!(r.assessments.len(), 3);
    assert_eq!(r.assessments[0].score, 40);
}

#[test]
fn tied_scores_keep_the_earlier_option_first() {
    let p = decide_params("d", &["first", "second"]);
    let r = assemble(
        &p,
        DecidePass {
            methodology: Methodology::Probabilistic,
            option_scores: vec![70, 70],
            option_rationales: vec!["a".into(), "b".into()],
            deciding_factors: vec!["f".into()],
        },
    )
    .unwrap();
    assert_eq!((r.recommended.as_str(), r.runner_up.as_str()), ("first", "second"));
    assert_eq!(r.confidence_per_mille, 500);
}

#[test]
fn malformed_assessments_are_rejected_by_name() {
    let p = decide_params("d", &["x", "y"]);
    let arity = assemble(
        &p,
        DecidePass {
            methodology: Methodology::Weigh,
            option_scores: vec![1],
            option_rationales: vec!["a".into(), "b".into()],
            deciding_factors: vec!["f".into()],
        },
    )
    .unwrap_err();
    assert!(matches!(arity, AppError::ValidationFailure(ref m) if m == "assessment arity mismatch: 2 options but 1 scores / 2 rationales"));
    let range = assemble(
        &p,
        DecidePass {
            methodology: Methodology::Weigh,
            option_scores: vec![50, 101],
            option_rationales: vec!["a".into(), "b".into()],
            deciding_factors: vec!["f".into()],
        },
    )
    .unwrap_err();
    assert!(matches!(range, AppError::ValidationFailure(ref m) if m.starts_with("score 101 is outside the 0-100 range")));
    let factors = assemble(
        &p,
        DecidePass {
            methodology: Methodology::Weigh,
            option_scores: vec![50, 10],
            option_rationales: vec!["a".into(), "b".into()],
            deciding_factors: vec![" ".into()],
        },
    )
    .unwrap_err();
    assert!(matches!(factors, AppError::ValidationFailure(_)));
}

#[test]
fn options_text_fills_an_omitted_option_list() {
    let mut p = DecideParams {
        decision: "d".into(),
        options: vec![],
        options_text: Some("  first \n\n second\r\n".into()),
        context: None,
    };
    p.normalize();
    assert_eq!(p.options, vec!["first".to_string(), "second".to_string()]);
    assert!(p.options_text.is_none());
}

#[test]
fn decide_needs_two_options() {
    let err = decide::check_input(&decide_params("d", &["only"]), 100).unwrap_err();
    assert!(matches!(err, AppError::InvalidInput(ref m) if m == "decide requires at least two options; got 1"));
}

#[test]
fn lens_set_is_nonempty_with_unique_names_and_cycles() {
    let set = diverge::lenses();
    assert!(!set.is_empty());
    let mut names: Vec<&str> = set.iter().map(|l| l.name).collect();
    let count = names.len();
    names.sort_unstable();
    names.dedup();
    assert_eq!(names.len(), count, "lens names must be unique");
    assert_eq!(diverge::lens_for_pass(set.len()).name, set[0].name);
}

#[test]
fn each_pass_prompt_is_pairwise_distinct() {
    let set = diverge::lenses();
    let prompts: Vec<String> = (0..set.len())
        .map(|i| {
            let lens = set[i % set.len()];
            diverge::build_prompt(
                diverge::PROMPT_TEMPLATE,
                &format!("{}: {}", lens.name, lens.directive),
                "a problem",
                None,
            )
        })
        .collect();
    for a in 0..prompts.len() {
        for b in (a + 1)..prompts.len() {
            assert_ne!(prompts[a], prompts[b], "lenses {a},{b} produced identical prompts");
        }
    }
}

#[test]
fn dedup_collapses_near_identical_and_keeps_distinct() {
    let input = vec![
        Perspective {
            lens: "invert".into(),
            framing: "More steps actually build user trust".into(),
            implication: "x".into(),
        },
        Perspective {
            lens: "actor".into(),
            framing: "More steps actually build user trust now".into(),
            implication: "y".into(),
        },
        Perspective {
            lens: "class".into(),
            framing: "This is a naming problem not a flow problem".into(),
            implication: "z".into(),
        },
    ];
    let out = dedup(input);
    assert_eq!(out.len(), 2);
    assert_eq!(out[0].lens, "invert");
    assert_eq!(out[1].lens, "class");
}

#[test]
fn token_overlap_decides_near_duplicates() {
    let a = diverge::tokens("The quick, brown FOX!");
    let b = diverge::tokens("the quick brown fox");
    assert!(diverge::near_duplicate_tokens(&a, &b));
    let c = diverge::tokens("a totally different sentence");
    assert!(!diverge::near_duplicate_tokens(&a, &c));
    assert_eq!(a.len(), 4);
}

#[test]
fn prompt_has_only_lens_problem_and_context_slots() {
    let prompt = diverge::build_prompt(diverge::PROMPT_TEMPLATE, "L", "P", Some("C"));
    let expected = diverge::PROMPT_TEMPLATE
        .replace("<<lens>>", "L")
        .replace("<<problem>>", "P")
        .replace("<<context>>", "C");
    assert_eq!(prompt, expected);
    assert_eq!(diverge::PROMPT_TEMPLATE.matches("<<").count(), 3);
    assert!(
        diverge::PROMPT_TEMPLATE.contains("<<lens>>")
            && diverge::PROMPT_TEMPLATE.contains("<<problem>>")
            && diverge::PROMPT_TEMPLATE.contains("<<context>>")
    );
}

fn dpass(framing: &str) -> Result<(DivergePass, u64, u64), AppError> {
    Ok((
        DivergePass {
            framing: framing.into(),
            implication: "impl".into(),
        },
        100,
        10,
    ))
}

#[test]
fn a_failed_pass_never_shifts_later_lens_labels() {
    let run = diverge::aggregate(vec![
        dpass("real framing"),
        Err(AppError::Refusal("no".into())),
        dpass("another framing entirely"),
    ])
    .unwrap();
    assert_eq!(run.result.passes, 2);
    assert_eq!(run.result.perspectives[0].lens, "invert");
    assert_eq!(run.result.perspectives[1].lens, "horizon");
    assert_eq!(run.input_tokens, 200);
}

#[test]
fn zero_completed_passes_returns_the_dominant_failure() {
    let err = diverge::aggregate(vec![
        Err(AppError::Refusal("declined".into())),
        Err(AppError::Refusal("declined".into())),
    ])
    .unwrap_err();
    assert!(matches!(err, AppError::Refusal(_)));
}

#[test]
fn an_empty_framing_fails_its_pass_and_a_blank_problem_is_rejected() {
    let blank = DivergePass {
        framing: "   ".into(),
        implication: "x".into(),
    };
    assert!(matches!(diverge::check_pass(&blank), Err(AppError::ValidationFailure(_))));
    let p = DivergeParams {
        problem: " ".into(),
        context: None,
    };
    assert!(matches!(diverge::check_input(&p, 100), Err(AppError::InvalidInput(_))));
}

#[test]
fn prompt_has_only_task_context_preferences_slots() {
    assert_eq!(elicit::PROMPT_TEMPLATE.matches("<<").count(), 3);
    assert!(
        elicit::PROMPT_TEMPLATE.contains("<<task>>")
            && elicit::PROMPT_TEMPLATE.contains("<<context>>")
            && elicit::PROMPT_TEMPLATE.contains("<<preferences>>")
    );
    let p = ElicitParams {
        task: "T".into(),
        context: None,
    };
    let prompt = elicit::build_prompt(elicit::PROMPT_TEMPLATE, &p, "PREFS");
    assert_eq!(
        prompt,
        elicit::PROMPT_TEMPLATE
            .replace("<<task>>", "T")
            .replace("<<context>>", "")
            .replace("<<preferences>>", "PREFS")
    );
}

#[test]
fn only_trusted_memories_reach_the_preferences_block_capped() {
    let mut ms: Vec<(Trust, String)> = vec![(Trust::Untrusted, "nope".into())];
    for i in 0..7 {
        ms.push((Trust::Verified, format!("pref {i}")));
    }
    let block = elicit::preferences_block(&ms);
    assert!(block.starts_with("stored verified preferences"));
    assert!(!block.contains("nope"));
    assert!(block.contains("- pref 4") && !block.contains("pref 5"));
    assert_eq!(elicit::preferences_block(&vec![]), "(no relevant stored preferences found)");
}

fn elicit_pass(strengths: Vec<&str>) -> ElicitPass {
    ElicitPass {
        assumed_objective: "obj".into(),
        preference_texts: strengths.iter().map(|_| "p".to_string()).collect(),
        preference_signals: strengths.iter().map(|_| "s".to_string()).collect(),
        preference_strengths: strengths.iter().map(|s| (*s).to_string()).collect(),
        divergence_questions: vec!["q".into()],
        divergence_signals: vec!["sig".into()],
        signal_level: SignalLevel::Medium,
    }
}

#[test]
fn elicit_assembly_zips_and_rejects_a_bad_strength() {
    let ok = elicit::assemble(elicit_pass(vec!["revealed", "stated"]), true).unwrap();
    assert_eq!(ok.governing_preferences.len(), 2);
    assert_eq!(ok.governing_preferences[1].strength, "stated");
    assert_eq!(ok.divergence_points[0].question, "q");
    assert!(ok.memory_consulted);
    let err = elicit::assemble(elicit_pass(vec!["revealed", "strong"]), false).unwrap_err();
    assert!(matches!(err, AppError::ValidationFailure(ref m) if m.starts_with("preference strength \"strong\"")));
}

fn compute_pass(
    property: Option<&str>,
    op: Option<&str>,
    threshold: Option<i64>,
    literal: Option<&str>,
) -> GroundedPass {
    GroundedPass {
        verdict: VerdictKind::Supported,
        findings: vec![],
        missing_evidence: vec![],
        needs_computation: true,
        compute_property: property.map(str::to_string),
        compute_match_literal: literal.map(str::to_string),
        compute_operator: op.map(str::to_string),
        compute_threshold: threshold,
    }
}

#[test]
fn line_count_convention_lf_terminated_and_unterminated() {
    let lf = RawUnit {
        text: "a\nb\nc\n".to_string(),
        bytes: 6,
    };
    assert_eq!(count_property(&Property::Lines, &lf), 3);
    let no_nl = RawUnit {
        text: "a\nb\nc".to_string(),
        bytes: 5,
    };
    assert_eq!(count_property(&Property::Lines, &no_nl), 3);
    let empty = RawUnit {
        text: String::new(),
        bytes: 0,
    };
    assert_eq!(count_property(&Property::Lines, &empty), 0);
}

#[test]
fn byte_and_match_counts() {
    let unit = RawUnit {
        text: "foo bar foo baz foo".to_string(),
        bytes: 19,
    };
    assert_eq!(count_property(&Property::Bytes, &unit), 19);
    assert_eq!(count_property(&Property::Matches("foo".to_string()), &unit), 3);
}

#[test]
fn compute_spec_validates_property_and_operator_strings() {
    assert_eq!(
        ComputeSpec::from_pass(&compute_pass(Some("lines"), Some(">"), Some(1000), None)),
        Some(ComputeSpec {
            property: Property::Lines,
            operator: Op::Gt,
            threshold: 1000
        })
    );
    assert_eq!(
        ComputeSpec::from_pass(&compute_pass(Some("functions"), Some(">"), Some(5), None)),
        None
    );
    assert_eq!(
        ComputeSpec::from_pass(&compute_pass(Some("lines"), Some("=>"), Some(5), None)),
        None
    );
    assert_eq!(
        ComputeSpec::from_pass(&compute_pass(Some("matches"), Some(">"), Some(1), Some(""))),
        None
    );
    assert_eq!(
        ComputeSpec::from_pass(&compute_pass(Some("lines"), None, Some(1), None)),
        None
    );
}

#[test]
fn agreed_spec_needs_a_strict_majority() {
    let p1 = compute_pass(Some("lines"), Some(">"), Some(1000), None);
    let p2 = compute_pass(Some("lines"), Some(">"), Some(1000), None);
    let p3 = compute_pass(Some("bytes"), Some("<"), Some(50), None);
    assert!(agreed_spec(&[&p1, &p2, &p3]).is_some());
    assert_eq!(agreed_spec(&[&p1, &p3]), None);
}

#[test]
fn settle_decides_via_the_engine_over_the_counted_value() {
    let unit = RawUnit {
        text: "x\n".repeat(1224),
        bytes: 2448,
    };
    let spec = ComputeSpec {
        property: Property::Lines,
        operator: Op::Gt,
        threshold: 1000,
    };
    let settled = settle(&spec, &unit).expect("settles");
    assert_eq!(settled.verdict, GroundedVerdictKind::Supported);
    assert_eq!(settled.executed_form, "1224 > 1000");
    assert_eq!(settled.engine_result, "true");
    assert_eq!(settled.note, "counted 1224 lines");
}

#[test]
fn prompt_has_only_claim_and_evidence_slots() {
    assert_eq!(grounded_verify::PROMPT_TEMPLATE.matches("<<").count(), 2);
    assert!(
        grounded_verify::PROMPT_TEMPLATE.contains("<<claim>>")
            && grounded_verify::PROMPT_TEMPLATE.contains("<<evidence>>")
    );
}

#[test]
fn grounded_verdict_kind_maps_from_pass_verdict() {
    assert_eq!(
        GroundedVerdictKind::from(VerdictKind::Supported),
        GroundedVerdictKind::Supported
    );
    assert_eq!(
        GroundedVerdictKind::from(VerdictKind::Refuted),
        GroundedVerdictKind::Refuted
    );
}

fn gpass(v: VerdictKind, needs: bool, missing: &[&str]) -> Result<(GroundedPass, u64, u64), AppError> {
    let mut p = compute_pass(None, None, None, None);
    p.verdict = v;
    p.needs_computation = needs;
    p.findings = if v == VerdictKind::Refuted { vec!["contradiction in a.rs".into()] } else { vec![] };
    p.missing_evidence = missing.iter().map(|s| (*s).to_string()).collect();
    Ok((p, 100, 10))
}

#[test]
fn a_computable_majority_is_inconclusive_with_the_reason() {
    let run = grounded_verify::aggregate(
        vec![
            gpass(VerdictKind::Supported, true, &["the caller"]),
            gpass(VerdictKind::Supported, true, &["the caller", ""]),
            gpass(VerdictKind::Refuted, false, &[]),
        ],
        3,
    )
    .unwrap();
    assert_eq!(run.verdict.verdict, GroundedVerdictKind::Inconclusive);
    assert_eq!(run.verdict.reason.as_deref(), Some("computable property \u{2014} route to `check`"));
    assert_eq!(run.verdict.missing_evidence, vec!["the caller".to_string()]);
    let plain = grounded_verify::aggregate(
        vec![gpass(VerdictKind::Refuted, false, &[]), gpass(VerdictKind::Refuted, true, &[])],
        2,
    )
    .unwrap();
    assert_eq!(plain.verdict.verdict, GroundedVerdictKind::Refuted);
    assert!(plain.verdict.reason.is_none());
}

fn unstick_params(goal: &str, blocked: &str, tried: Option<Vec<&str>>) -> UnstickParams {
    UnstickParams {
        goal: goal.to_string(),
        blocked: blocked.to_string(),
        tried: tried.map(|items| items.into_iter().map(String::from).collect()),
    }
}

#[test]
fn dropped_blocked_is_recovered_from_a_marker_in_goal() {
    let mut p = unstick_params("figure out the deploy ||BLOCKED|| the CI step times out", "", None);
    p.normalize();
    assert_eq!(p.goal, "figure out the deploy");
    assert_eq!(p.blocked, "the CI step times out");
}

#[test]
fn marker_in_goal_is_stripped_even_when_blocked_arrived() {
    let mut p = unstick_params("do the thing ||BLOCKED|| stray text", "the real blocker", None);
    p.normalize();
    assert_eq!(p.goal, "do the thing");
    assert_eq!(p.blocked, "the real blocker");
}

#[test]
fn goal_without_a_marker_is_left_untouched() {
    let mut p = unstick_params("a plain goal with no marker", "a blocker", None);
    p.normalize();
    assert_eq!(p.goal, "a plain goal with no marker");
    assert_eq!(p.blocked, "a blocker");
}

#[test]
fn multi_marker_recovers_only_first_segment() {
    let mut p = unstick_params(
        "fix the deploy ||BLOCKED|| deadline tomorrow ||BLOCKED|| also DNS broken",
        "",
        None,
    );
    p.normalize();
    assert_eq!(p.goal, "fix the deploy");
    assert_eq!(p.blocked, "deadline tomorrow");
}

#[test]
fn prompt_contains_inputs_verbatim_and_nothing_else() {
    let p = unstick_params("ship it", "tests are red", Some(vec!["rerun CI"]));
    let prompt = unstick::build_prompt(unstick::PROMPT_TEMPLATE, &p);
    let expected = unstick::PROMPT_TEMPLATE
        .replace("<<goal>>", "ship it")
        .replace("<<blocked>>", "tests are red")
        .replace("<<tried>>", "- rerun CI");
    assert_eq!(prompt, expected);
    assert_eq!(unstick::PROMPT_TEMPLATE.matches("<<").count(), 3);
}

#[test]
fn empty_tried_renders_as_nothing_yet() {
    let p = unstick_params("g", "b", None);
    assert!(unstick::build_prompt(unstick::PROMPT_TEMPLATE, &p).contains("(nothing yet)"));
    let q = unstick_params("g", "b", Some(vec![]));
    assert!(unstick::build_prompt(unstick::PROMPT_TEMPLATE, &q).contains("(nothing yet)"));
}

#[test]
fn normalize_folds_case_whitespace_and_punctuation() {
    assert_eq!(normalize("Re-run   the CI, job!"), "rerun the ci job");
    assert_eq!(normalize("rerun the CI job"), "rerun the ci job");
    assert_ne!(normalize("rerun the CI job twice"), normalize("rerun the CI job"));
}

#[test]
fn a_restated_tried_item_is_a_failed_step() {
    let p = unstick_params("g", "b", Some(vec!["", "Rerun the CI job"]));
    let step = NextStep {
        next_step: "rerun the ci, job".into(),
        rationale: "r".into(),
        watch_for: None,
    };
    let err = unstick::check_step(&p, &step).unwrap_err();
    assert!(matches!(err, AppError::ValidationFailure(ref m) if m == "next_step restates an already-tried item: \"Rerun the CI job\""));
    let fresh = NextStep {
        next_step: "read the CI log".into(),
        rationale: "r".into(),
        watch_for: None,
    };
    assert!(unstick::check_step(&p, &fresh).is_ok());
}

#[test]
fn unstick_rejects_blank_goal_and_blocked() {
    let e = unstick::check_input(&unstick_params(" ", "b", None), 100).unwrap_err();
    assert!(matches!(e, AppError::InvalidInput(ref m) if m == "goal is empty or whitespace-only"));
    let e = unstick::check_input(&unstick_params("g", "\t", None), 100).unwrap_err();
    assert!(matches!(e, AppError::InvalidInput(ref m) if m == "blocked is empty or whitespace-only"));
}
