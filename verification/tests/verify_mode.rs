use parallax::error::AppError;
use parallax::modes::verify::{
    aggregate_core, build_prompt, check_input, check_pass, dominant_failure,
    dominant_failure_metered, lens_for_pass, lens_text, lenses, PassTuple, PassVerdict,
    VerdictKind, VerifyParams, LENS_COUNT, PROMPT_TEMPLATE,
};
use parallax::modes::{resolve_passes, combined_too_long};

fn params(claim: &str) -> VerifyParams {
    VerifyParams {
        claim: claim.to_string(),
        context: None,
        effort: None,
        passes: None,
    }
}

fn refuted(finding: &str) -> Result<PassTuple, AppError> {
    Ok((VerdictKind::Refuted, vec![finding.to_string()], 100, 10))
}

fn supported() -> Result<PassTuple, AppError> {
    Ok((VerdictKind::Supported, vec![], 100, 10))
}

#[test]
fn prompt_contains_lens_claim_and_context_verbatim_and_nothing_else() {
    let lens = "literal: read the claim at face value.";
    let claim = "The Battle of Hastings was fought in 1067.";
    let context = "From a history quiz.";
    let prompt = build_prompt(PROMPT_TEMPLATE, lens, claim, Some(context));
    let expected = PROMPT_TEMPLATE
        .replace("<<lens>>", lens)
        .replace("<<claim>>", claim)
        .replace("<<context>>", context);
    assert_eq!(prompt, expected);
    assert_eq!(PROMPT_TEMPLATE.matches("<<").count(), 3);
    assert!(
        PROMPT_TEMPLATE.contains("<<lens>>")
            && PROMPT_TEMPLATE.contains("<<claim>>")
            && PROMPT_TEMPLATE.contains("<<context>>")
    );
}

#[test]
fn each_pass_gets_a_pairwise_distinct_lens() {
    let claim = "Some contestable claim.";
    let set = lenses();
    let prompts: Vec<String> = (0..set.len())
        .map(|i| {
            let lens = set[i % set.len()];
            build_prompt(PROMPT_TEMPLATE, &lens_text(lens), claim, None)
        })
        .collect();
    for a in 0..prompts.len() {
        for b in (a + 1)..prompts.len() {
            assert_ne!(prompts[a], prompts[b], "lenses {a} and {b} produced identical prompts");
        }
    }
}

#[test]
fn lens_set_is_nonempty_with_unique_names() {
    let set = lenses();
    assert!(!set.is_empty());
    let mut names: Vec<&str> = set.iter().map(|l| l.name).collect();
    names.sort_unstable();
    let unique = names.len();
    names.dedup();
    assert_eq!(names.len(), unique, "lens names must be unique");
}

#[test]
fn lens_cycles_when_k_exceeds_the_lens_count() {
    let set = lenses();
    let i = set.len();
    assert_eq!(lens_for_pass(i).name, set[0].name);
    assert_eq!(LENS_COUNT, set.len());
}

#[test]
fn dominant_failure_picks_the_most_frequent_class() {
    let dominant = dominant_failure(vec![
        AppError::Timeout {
            what: "request".to_string(),
            ms: 1,
        },
        AppError::Refusal("a".into()),
        AppError::Refusal("b".into()),
    ]);
    assert!(matches!(dominant, AppError::Refusal(ref m) if m == "a"));
}

#[test]
fn dominant_failure_of_nothing_is_a_validation_failure() {
    let e = dominant_failure(vec![]);
    assert!(
        matches!(e, AppError::ValidationFailure(ref m) if m == "no passes completed and no failure recorded")
    );
}

#[test]
fn a_tie_between_classes_goes_to_the_first_seen() {
    let e = dominant_failure(vec![AppError::Cancelled, AppError::Refusal("r".into())]);
    assert!(matches!(e, AppError::Cancelled));
}

#[test]
fn majority_refuted_with_agreement_and_summed_usage() {
    let run = aggregate_core(
        vec![refuted("1066, not 1067"), refuted("1066, not 1067"), supported()],
        3,
    )
    .unwrap();
    assert_eq!(run.verdict.verdict, VerdictKind::Refuted);
    assert_eq!(run.verdict.findings, vec!["1066, not 1067".to_string()]);
    assert_eq!((run.verdict.agreeing, run.verdict.passes), (2, 3));
    assert_eq!(run.input_tokens, 300);
    assert_eq!(run.output_tokens, 30);
}

#[test]
fn unanimous_support_is_full_agreement() {
    let run = aggregate_core(vec![supported(), supported(), supported()], 3).unwrap();
    assert_eq!(run.verdict.verdict, VerdictKind::Supported);
    assert!(run.verdict.findings.is_empty());
    assert_eq!(run.verdict.agreeing, run.verdict.passes);
}

#[test]
fn tie_resolves_to_refuted_and_says_so() {
    let run = aggregate_core(vec![refuted("the error"), supported()], 2).unwrap();
    assert_eq!(run.verdict.verdict, VerdictKind::Refuted);
    assert_eq!(
        run.verdict.findings,
        vec![
            "the error".to_string(),
            "Note: passes split 1-1 between refuted and supported; resolving toward scrutiny (refuted)."
                .to_string()
        ]
    );
    assert_eq!((run.verdict.agreeing, run.verdict.passes), (1, 2));
}

#[test]
fn findings_are_deduplicated_from_the_majority_side_only() {
    let run = aggregate_core(
        vec![
            Ok((VerdictKind::Refuted, vec!["A".into(), "B".into()], 1, 1)),
            Ok((VerdictKind::Refuted, vec!["B".into(), "C".into(), "  ".into()], 1, 1)),
            Ok((VerdictKind::Supported, vec!["minority view".into()], 1, 1)),
        ],
        3,
    )
    .unwrap();
    assert_eq!(run.verdict.findings, vec!["A", "B", "C"]);
}

#[test]
fn below_quorum_returns_the_dominant_failure_carrying_the_billed_tokens() {
    let err = aggregate_core(
        vec![
            Err(AppError::Refusal("declined".into())),
            Err(AppError::Refusal("declined".into())),
            refuted("real finding"),
        ],
        3,
    )
    .unwrap_err();
    assert!(matches!(err.outcome(), parallax::error::Outcome::Refusal));
    assert_eq!(err.billed(), (100, 10));
    assert!(matches!(err.unmetered(), AppError::Refusal(_)));
}

#[test]
fn quorum_holds_with_reduced_passes_reported() {
    let run = aggregate_core(
        vec![Err(AppError::Refusal("declined".into())), refuted("err"), refuted("err")],
        3,
    )
    .unwrap();
    assert_eq!(run.verdict.passes, 2);
    assert_eq!(run.verdict.agreeing, 2);
    assert_eq!(run.verdict.verdict, VerdictKind::Refuted);
}

#[test]
fn metered_dominant_failure_sums_every_failure_and_the_completed_passes() {
    let e = dominant_failure_metered(
        vec![
            AppError::Refusal("x".into()).metered(5, 1),
            AppError::Cancelled.metered(7, 2),
            AppError::Refusal("y".into()),
        ],
        (100, 10),
    );
    assert_eq!(e.billed(), (112, 13));
    assert!(matches!(e.unmetered(), AppError::Refusal(ref m) if m == "x"));
}

#[test]
fn a_refutation_without_findings_is_a_failed_pass_not_evidence() {
    let bad = PassVerdict {
        verdict: VerdictKind::Refuted,
        findings: vec!["   ".into()],
    };
    let err = check_pass(&bad).unwrap_err();
    assert!(matches!(err, AppError::ValidationFailure(ref m) if m == "refutation without a named concrete error"));
    let ok = PassVerdict {
        verdict: VerdictKind::Supported,
        findings: vec![],
    };
    assert!(check_pass(&ok).is_ok());
}

#[test]
fn empty_claim_is_rejected_before_any_model_call() {
    let err = check_input(&params("   \n"), 50_000).unwrap_err();
    assert!(matches!(err, AppError::InvalidInput(ref m) if m == "claim is empty or whitespace-only"));
}

#[test]
fn oversized_claim_is_rejected_not_trimmed() {
    let big = "x".repeat(51);
    let err = check_input(&params(&big), 50).unwrap_err();
    assert!(matches!(err, AppError::InvalidInput(_)));
    let m = err.message();
    assert!(m.contains("51") && m.contains("50"), "{m}");
}

#[test]
fn oversized_context_is_rejected_not_trimmed() {
    let p = VerifyParams {
        context: Some("x".repeat(51)),
        ..params("a short claim")
    };
    let err = check_input(&p, 50).unwrap_err();
    assert_eq!(
        err.message(),
        "[invalid_input] combined input is 64 characters; the configured maximum is 50 (INPUT_MAX_CHARS); it was not trimmed"
    );
}

#[test]
fn passes_resolve_against_the_configured_count() {
    assert_eq!(resolve_passes(None, 3).unwrap(), 3);
    assert_eq!(resolve_passes(Some(1), 3).unwrap(), 1);
    assert_eq!(resolve_passes(Some(3), 3).unwrap(), 3);
    let zero = resolve_passes(Some(0), 3).unwrap_err();
    assert!(matches!(zero, AppError::InvalidInput(ref m) if m == "passes must be at least 1"));
    let over = resolve_passes(Some(9), 3).unwrap_err();
    assert!(matches!(over, AppError::InvalidInput(ref m) if m == "passes 9 exceeds the configured maximum of 3"));
}

#[test]
fn combined_length_error_names_both_numbers() {
    let e = combined_too_long(80_000, 50_000);
    assert!(matches!(e, AppError::InvalidInput(ref m) if m == "combined input is 80000 characters; the configured maximum is 50000 (INPUT_MAX_CHARS); it was not trimmed"));
}
