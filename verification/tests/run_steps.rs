use parallax::error::AppError;
use parallax::observability::provider_of;
use parallax::research::contract::StopReason;
use parallax::research::contract::{Constraints, ResearchParams};
use parallax::research::fetch::{admit_response, check_status, robots_body_readable, robots_gate, FetchPolicy};
use parallax::research::extract::{html_extraction_safe, readable_text};
use parallax::research::grounding::ground;
use parallax::research::outcome::assemble_core;
use parallax::research::run::{SearchHit, SourceClaims, NOTHING_FOUND_ANSWER};
use parallax::research::settings::RunSettings;
use parallax::research::stepper::{begin_run, run_step, RunAction, RunEvent, RunPhase, RunState};
use parallax::research::{claim_key, ScopePlan, Support};
use parallax::routing::{CallSite, RoutingTable};
use parallax::text::char_is_whitespace;

fn strings(items: &[&str]) -> Vec<String> {
    items.iter().map(|s| (*s).to_string()).collect()
}

fn settings(budget: u64, deadline: u64) -> RunSettings {
    RunSettings {
        angles: 3,
        max_sources: 10,
        verify_k: 2,
        deadline_ms: deadline,
        budget_tokens: budget,
        domains_allow: vec![],
        domains_deny: strings(&["spam.com"]),
    }
}

fn hit(url: &str) -> SearchHit {
    SearchHit { url: url.to_string(), title: format!("t {url}") }
}

fn plan(angles: &[&str], subs: &[&str]) -> ScopePlan {
    ScopePlan { angles: strings(angles), sub_questions: strings(subs) }
}

fn start(settings: RunSettings) -> RunState {
    let routing = RoutingTable::resolve(
        vec![("PARALLAX_MODEL_RESEARCH_VERIFY".to_string(), "verifier".to_string())],
        "opus",
    )
    .unwrap();
    RunState::start(settings, &routing)
}

fn step(s: RunState, e: RunEvent) -> (RunState, RunAction) {
    run_step(s, e)
}

#[test]
fn a_run_walks_every_phase_and_accounts_every_claim() {
    let s = start(settings(100_000, 60_000));
    let (s, a) = step(s, RunEvent::Usage(CallSite::ResearchScope, 300, 50));
    assert!(matches!(a, RunAction::Wait));
    let (s, a) = step(s, RunEvent::Scoped(plan(&["a1", "a2"], &["q1", "q2"])));
    match a {
        RunAction::Search { angles, per_angle } => {
            assert_eq!(angles, strings(&["a1", "a2"]));
            assert_eq!(per_angle, 10);
        },
        other => panic!("expected a search, got {other:?}"),
    }
    assert_eq!(s.phase, RunPhase::Search);
    let outcomes = vec![
        Ok(vec![hit("https://a.com/x"), hit("https://spam.com/y")]),
        Err(AppError::SearchProvider("down".to_string())),
        Ok(vec![hit("http://a.com/x/"), hit("https://b.org/z")]),
    ];
    let (s, a) = step(s, RunEvent::Searched(outcomes));
    match a {
        RunAction::Fetch(list) => {
            let ids: Vec<&str> = list.iter().map(|(id, _)| id.as_str()).collect();
            let urls: Vec<&str> = list.iter().map(|(_, h)| h.url.as_str()).collect();
            assert_eq!(ids, vec!["s1", "s2"]);
            assert_eq!(urls, vec!["https://a.com/x", "https://b.org/z"]);
        },
        other => panic!("expected a fetch, got {other:?}"),
    }
    assert_eq!((s.stats.searches, s.stats.sources_found), (2, 3));
    let (s, a) = step(s, RunEvent::Admit);
    assert!(matches!(a, RunAction::Proceed));
    let (s, _) = step(s, RunEvent::Usage(CallSite::ResearchExtract, 1_000, 200));
    let sources = vec![
        SourceClaims { id: "s1".to_string(), claims: strings(&["Zebras run.", "Sky is blue"]) },
        SourceClaims { id: "s2".to_string(), claims: strings(&["zebras  RUN", "Grass is green"]) },
    ];
    let (s, a) = step(s, RunEvent::Fetched(sources));
    let claims = match a {
        RunAction::Verify(c) => c,
        other => panic!("expected verification, got {other:?}"),
    };
    assert_eq!(claims.len(), 3);
    assert_eq!((s.stats.sources_fetched, s.stats.claims_extracted, s.stats.claims_after_dedup), (2, 4, 3));
    // One claim fails after billing, one is refuted, one is confirmed.
    let failed = AppError::Truncation("cut".to_string()).metered(40, 10);
    let (s, _) = step(s, RunEvent::UnitFailed(CallSite::ResearchVerify, failed));
    assert_eq!((s.input_tokens, s.output_tokens), (1_340, 260));
    let (s, a) = step(s, RunEvent::Verified(vec![None, Some(Support::Refuted), Some(Support::Confirmed)]));
    assert!(matches!(a, RunAction::Synthesize));
    assert_eq!((s.stats.claims_verified, s.stats.claims_dropped), (2, 2));
    let (s, _) = step(s, RunEvent::Tick(9_000));
    let (s, a) = step(s, RunEvent::Synthesized(false));
    match a {
        RunAction::Finish { stats: st, usage, gaps: None } => {
            assert_eq!(
                usage,
                vec![("opus".to_string(), 1_300, 250), ("verifier".to_string(), 40, 10)]
            );
            assert_eq!(st.tokens, 1_600);
            assert_eq!(st.elapsed_ms, 9_000);
            assert!(!st.stopped_early);
            assert_eq!(st.stop_reason, None);
            assert_eq!(st.claims_dropped, 2);
        },
        other => panic!("expected the finish, got {other:?}"),
    }
    assert_eq!(s.phase, RunPhase::Done);
}

#[test]
fn a_budget_blown_by_the_scope_skips_the_search_fan_out() {
    let s = start(settings(1_000, 60_000));
    let (s, _) = step(s, RunEvent::Usage(CallSite::ResearchScope, 900, 200));
    let (s, a) = step(s, RunEvent::Scoped(plan(&["a1"], &["q1"])));
    match a {
        RunAction::Fetch(list) => assert!(list.is_empty()),
        other => panic!("expected an empty fetch, got {other:?}"),
    }
    assert_eq!((s.stats.angles, s.stats.searches, s.stats.sources_found), (1, 0, 0));
    // Every later unit is skipped; the trip is latched.
    let (s, a) = step(s, RunEvent::Admit);
    assert!(matches!(a, RunAction::Skip));
    let (s, a) = step(s, RunEvent::Fetched(vec![SourceClaims { id: "s1".to_string(), claims: strings(&["x y"]) }]));
    match a {
        RunAction::Verify(c) => assert!(c.is_empty()),
        other => panic!("expected no verification, got {other:?}"),
    }
    assert_eq!(s.deferred, 1);
    let (_, a) = step(s, RunEvent::Verified(vec![]));
    match a {
        RunAction::Finish { stats: st, gaps: Some(g), .. } => {
            assert_eq!(st.claims_dropped, 1);
            assert!(st.stopped_early);
            assert_eq!(st.stop_reason, Some(StopReason::Budget));
            assert_eq!(g.answer, NOTHING_FOUND_ANSWER);
            assert_eq!(g.gaps, strings(&["q1"]));
            assert_eq!(g.gap_targets, vec![1]);
        },
        other => panic!("expected the honest-gap finish, got {other:?}"),
    }
}

#[test]
fn a_deadline_trips_mid_phase_and_stops_the_remaining_units() {
    let s = start(settings(1_000_000, 5_000));
    let (s, _) = step(s, RunEvent::Scoped(plan(&["a1"], &["q1"])));
    let (s, a) = step(s, RunEvent::Admit);
    assert!(matches!(a, RunAction::Proceed));
    let (s, _) = step(s, RunEvent::Tick(5_000));
    let (s, a) = step(s, RunEvent::Admit);
    assert!(matches!(a, RunAction::Skip));
    // Time cannot untrip it.
    let (s, _) = step(s, RunEvent::Tick(1));
    let (_, a) = step(s, RunEvent::Admit);
    assert!(matches!(a, RunAction::Skip));
}

#[test]
fn every_search_failing_fails_the_run_with_the_first_failure_metered() {
    let s = start(settings(1_000_000, 60_000));
    let (s, _) = step(s, RunEvent::Usage(CallSite::ResearchScope, 70, 30));
    let (s, _) = step(s, RunEvent::Scoped(plan(&["a1", "a2"], &[])));
    let outcomes = vec![
        Err(AppError::SearchProvider("first".to_string())),
        Err(AppError::SearchProvider("second".to_string())),
    ];
    let (s, a) = step(s, RunEvent::Searched(outcomes));
    assert_eq!(s.phase, RunPhase::Done);
    match a {
        RunAction::Fail(e) => {
            assert_eq!(e.billed(), (70, 30));
            assert!(matches!(e.unmetered(), AppError::SearchProvider(m) if m == "first"));
        },
        other => panic!("expected a failure, got {other:?}"),
    }
}

#[test]
fn a_demoted_synthesis_records_the_grounding_stop() {
    let s = start(settings(1_000_000, 60_000));
    let (s, _) = step(s, RunEvent::Scoped(plan(&["a1"], &["q1"])));
    let (s, _) = step(s, RunEvent::Searched(vec![Ok(vec![hit("https://a.com/")])]));
    let (s, _) = step(s, RunEvent::Fetched(vec![SourceClaims { id: "s1".to_string(), claims: strings(&["c"]) }]));
    let (s, _) = step(s, RunEvent::Verified(vec![Some(Support::Confirmed)]));
    let (_, a) = step(s, RunEvent::Synthesized(true));
    match a {
        RunAction::Finish { stats: st, gaps: None, .. } => {
            assert!(st.stopped_early);
            assert_eq!(st.stop_reason, Some(StopReason::Grounding));
        },
        other => panic!("expected the finish, got {other:?}"),
    }
}

#[test]
fn an_event_out_of_phase_changes_nothing() {
    let s = start(settings(1_000_000, 60_000));
    let (s, a) = step(s, RunEvent::Synthesized(true));
    assert!(matches!(a, RunAction::Wait));
    assert_eq!(s.phase, RunPhase::Scope);
    let (s, a) = step(s, RunEvent::Failed(AppError::Client("boom".to_string())));
    assert_eq!(s.phase, RunPhase::Done);
    assert!(matches!(a, RunAction::Fail(e) if e.billed() == (0, 0)));
}

#[test]
fn only_a_success_status_lets_a_fetch_go_on() {
    assert!(check_status(200, "OK", "https://e.com/").is_ok());
    assert!(check_status(299, "", "https://e.com/").is_ok());
    for status in [199u16, 300, 404, 503] {
        match check_status(status, "Reason", "https://e.com/x") {
            Err(AppError::SearchProvider(m)) => assert_eq!(m, format!("HTTP {status} Reason for https://e.com/x")),
            other => panic!("status {status}: {other:?}"),
        }
    }
}

#[test]
fn response_checks_run_status_then_redirect_then_content_type() {
    let policy = FetchPolicy {
        timeout_ms: 1_000,
        domains_allow: vec![],
        domains_deny: strings(&["bad.com"]),
        domain_spacing_ms: 0,
    };
    let ok = admit_response(&policy, 200, "OK", "https://e.com/", Some("e.com"), "text/html; charset=utf-8");
    assert!(ok.is_ok());
    let msg = |r: Result<(), AppError>| match r {
        Err(AppError::SearchProvider(m)) => m,
        other => panic!("{other:?}"),
    };
    assert_eq!(
        msg(admit_response(&policy, 404, "Not Found", "https://e.com/", Some("x.bad.com"), "image/png")),
        "HTTP 404 Not Found for https://e.com/"
    );
    assert_eq!(
        msg(admit_response(&policy, 200, "OK", "https://e.com/", Some("x.bad.com"), "image/png")),
        "redirected-to domain x.bad.com is denied"
    );
    assert_eq!(
        msg(admit_response(&policy, 200, "OK", "https://e.com/", None, "text/html")),
        "redirected to a hostless url"
    );
    assert_eq!(
        msg(admit_response(&policy, 200, "OK", "https://e.com/", Some("e.com"), "Image/PNG")),
        "content-type \"image/png\" is not extractable"
    );
}

#[test]
fn telemetry_names_the_provider_by_model_prefix() {
    assert_eq!(provider_of("voyage-3-large"), "voyageai");
    assert_eq!(provider_of("voyage"), "voyageai");
    assert_eq!(provider_of("opus-4-1"), "anthropic");
    assert_eq!(provider_of("voyag"), "anthropic");
    assert_eq!(provider_of(""), "anthropic");
}

#[test]
fn assembly_caps_gap_text_without_moving_coverage_or_statuses() {
    let subs = strings(&["q1", "q2", "q3"]);
    let gaps: Vec<String> = (1..=12).map(|i| format!("gap {i}")).collect();
    // Only the twelfth gap (dropped by the cap) names sub-question 3.
    let mut targets = vec![1u32; 11];
    targets.push(3);
    let kept = strings(&["s2", "s9", "s1"]);
    let ids = strings(&["s1", "s2", "s3"]);
    let core = assemble_core(&subs, gaps, &targets, &kept, &ids);
    assert_eq!(core.gaps.len(), 10);
    assert_eq!(core.gaps[9], "gap 10");
    let settled: Vec<bool> = core.sub_question_status.iter().map(|s| s.settled).collect();
    assert_eq!(settled, vec![false, true, false]);
    assert_eq!(core.coverage, (1, 3));
    assert_eq!(core.sources, vec![1, 0]);
    let none = assemble_core(&vec![], vec![], &vec![], &vec![], &ids);
    assert_eq!(none.coverage, (1, 1));
}

#[test]
fn resolution_does_not_depend_on_variable_order() {
    let pairs = [
        ("PARALLAX_MODEL_BULK", "haiku"),
        ("PARALLAX_MODEL_VERIFY", "sonnet"),
        ("PARALLAX_EFFORT_JUDGMENT", "high"),
        ("OTHER", "x"),
    ];
    let fwd: Vec<(String, String)> = pairs.iter().map(|(k, v)| (k.to_string(), v.to_string())).collect();
    let mut rev = fwd.clone();
    rev.reverse();
    let a = RoutingTable::resolve(fwd, "opus").unwrap();
    let b = RoutingTable::resolve(rev, "opus").unwrap();
    for site in [CallSite::Verify, CallSite::ResearchExtract, CallSite::Decide] {
        assert_eq!(a.model_for(site), b.model_for(site));
        assert_eq!(a.effort_for(site), b.effort_for(site));
    }
    let bad = [("PARALLAX_MODEL_ZZZ", "m"), ("PARALLAX_MODEL_AAA", "m"), ("PARALLAX_EFFORT_VERIFY", "loud")];
    let fwd: Vec<(String, String)> = bad.iter().map(|(k, v)| (k.to_string(), v.to_string())).collect();
    let mut rev = fwd.clone();
    rev.reverse();
    let ea = RoutingTable::resolve(fwd, "opus").unwrap_err().message();
    let eb = RoutingTable::resolve(rev, "opus").unwrap_err().message();
    assert_eq!(ea, eb);
    assert!(ea.contains("PARALLAX_MODEL_AAA"), "{ea}");
}

#[test]
fn call_site_suffixes_are_their_ids_uppercased() {
    let all = [
        CallSite::Verify,
        CallSite::Unstick,
        CallSite::Diverge,
        CallSite::Decide,
        CallSite::Elicit,
        CallSite::GroundedVerify,
        CallSite::CheckTranslate,
        CallSite::ResearchScope,
        CallSite::ResearchExtract,
        CallSite::ResearchVerify,
        CallSite::ResearchSynthesize,
        CallSite::CheckpointReview,
    ];
    for s in all {
        assert_eq!(s.suffix(), s.id().to_uppercase());
    }
}

#[test]
fn a_claim_key_keys_to_itself() {
    for text in ["  Zebras,  RUN fast!! ", "a--b  c", "", "...", "Sky is BLUE"] {
        let k = claim_key(text);
        assert_eq!(claim_key(&k), k);
        assert!(!k.starts_with(' ') && !k.ends_with(' ') && !k.contains("  "), "{k:?}");
    }
}

#[test]
fn grounding_keeps_cited_sources_first_without_repeats() {
    let findings = vec![strings(&["s3", "s1"]), strings(&["s2"])];
    let fetched = strings(&["s1", "s2", "s3"]);
    let g = ground("A [s2] and [s1], again [s2].", &findings, &fetched).unwrap();
    assert_eq!(g.kept_source_ids, strings(&["s2", "s1", "s3"]));
    // A near miss, an unfetched citation or an empty finding each refuses.
    assert!(ground("See [S2].", &findings, &fetched).is_err());
    assert!(ground("See [s7].", &findings, &fetched).is_err());
    assert!(ground("See [s1].", &vec![vec![]], &fetched).is_err());
}

#[test]
fn whitespace_agrees_with_the_standard_library_on_every_char() {
    for n in 0u32..=0x10FFFF {
        if let Some(c) = char::from_u32(n) {
            assert_eq!(char_is_whitespace(c), c.is_whitespace(), "U+{n:04X}");
        }
    }
}

fn params(question: &str) -> ResearchParams {
    ResearchParams { question: question.to_string(), depth: None, focus: None, constraints: None }
}

#[test]
fn invalid_inputs_are_rejected_before_any_provider_call() {
    let routing = RoutingTable::resolve(vec![], "opus").unwrap();
    let with = |c: Constraints| ResearchParams { constraints: Some(c), ..params("q?") };
    for (build, marker) in [
        (params("   "), "empty"),
        (params(&"x".repeat(50_001)), "INPUT_MAX_CHARS"),
        (with(Constraints { max_sources: Some(0), ..Constraints::default() }), "max_sources"),
        (with(Constraints { budget_tokens: Some(10), ..Constraints::default() }), "budget_tokens"),
        (with(Constraints { deadline_ms: Some(10), ..Constraints::default() }), "deadline_ms"),
        (ResearchParams { focus: Some(vec![String::new()]), ..params("q?") }, "focus"),
    ] {
        // A refused request never yields a run: there is no state to step.
        let err = begin_run(50_000, &build, &routing).unwrap_err();
        assert!(matches!(err, AppError::InvalidInput(_)), "{marker}: {err:?}");
        assert!(err.message().contains(marker), "{marker}: {err:?}");
    }
    let run = begin_run(50_000, &params("q?"), &routing).unwrap();
    assert_eq!(run.phase, RunPhase::Scope);
    assert_eq!((run.input_tokens, run.output_tokens), (0, 0));
    assert!(run.usage.is_empty());
}

#[test]
fn a_robots_body_the_parser_would_misread_is_refused() {
    let mut body = "a".repeat(16_663);
    body.push('€');
    body.push('\n');
    body.push('é');
    assert!(!robots_body_readable(&body));
    match robots_gate(Some(&body), "https://e.com/x") {
        Err(AppError::SearchProvider(m)) => {
            assert_eq!(m, "robots.txt for https://e.com/x has a line too long to read")
        },
        other => panic!("{other:?}"),
    }
    // A long ASCII line is read whole by character count, so it is fine.
    let ascii = format!("{}\nUser-agent: *\nDisallow: /private/\n", "#".repeat(20_000));
    assert!(robots_body_readable(&ascii));
    assert!(robots_gate(Some(&ascii), "https://e.com/private/x").is_err());
    assert!(robots_gate(Some(&ascii), "https://e.com/public/x").is_ok());
    // Short non-ASCII lines are fine too.
    let short = format!("# café\n{}é\nUser-agent: *\nAllow: /\n", "b".repeat(16_000));
    assert!(robots_body_readable(&short));
    assert!(!robots_body_readable(&format!("{}é", "b".repeat(16_660))));
}

#[test]
fn a_page_the_extractor_could_fault_on_is_dropped() {
    let para = "The benchmark answered every query in single-digit milliseconds on commodity hardware, fast enough for interactive use.";
    let plain = format!("<html><body><article><p>{para}</p><p>{para}</p><p>{para}</p></article></body></html>");
    assert!(html_extraction_safe(&plain));
    let accented = plain.replace("benchmark", "bénchmark");
    assert!(!html_extraction_safe(&accented));
    assert!(readable_text("https://e.com/a", &accented).is_none());
    let entity = plain.replace("benchmark", "bench&amp;mark");
    assert!(!html_extraction_safe(&entity));
    assert!(readable_text("https://e.com/b", &entity).is_none());
}
