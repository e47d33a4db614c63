use parallax::error::AppError;
use parallax::research::contract::{effective_concurrency, Constraints, ResearchParams};
use parallax::research::evidence::evidence_excerpt;
use parallax::research::grounding::{citation_tokens, ground};
use parallax::research::settings::{per_angle_count, validate_params};
use parallax::research::{claim_key, domain_matches, url_key, Depth};

fn fetched(ids: &[&str]) -> Vec<String> {
    ids.iter().map(|s| (*s).to_string()).collect()
}

#[test]
fn short_text_returns_whole() {
    let text = "Rust 1.97.0 was released on July 9, 2026.";
    assert_eq!(evidence_excerpt(text, "irrelevant claim", 4_000), text);
}

#[test]
fn anchor_is_the_overlapping_paragraph_deep_in_the_text() {
    let filler = "unrelated filler prose about something else entirely.";
    let mut lines: Vec<String> = (0..200).map(|i| format!("{filler} ({i})")).collect();
    lines.push("The compiler version 1.97.0 shipped on 2026-07-09.".to_string());
    let text = lines.join("\n");
    let excerpt = evidence_excerpt(&text, "Rust 1.97.0 was released on 2026-07-09", 200);
    assert!(excerpt.contains("1.97.0 shipped"), "{excerpt}");
}

#[test]
fn cap_is_respected_and_growth_prefers_neighbors() {
    let paragraphs: Vec<String> = (0..50)
        .map(|i| {
            if i == 25 {
                format!("item {i} special marker tokens")
            } else {
                format!("item {i} plain body")
            }
        })
        .collect();
    let text = paragraphs.join("\n");
    let excerpt = evidence_excerpt(&text, "special marker tokens", 100);
    assert!(excerpt.chars().count() <= 100);
    assert!(excerpt.contains("special marker"));
    assert!(excerpt.contains("item 24") || excerpt.contains("item 26"));
    assert!(!excerpt.contains("item 0 "));
    assert!(!excerpt.contains("item 49"));
}

#[test]
fn zero_overlap_anchors_at_the_head() {
    let lines: Vec<String> = (0..100).map(|i| format!("line {i} content here")).collect();
    let text = lines.join("\n");
    let excerpt = evidence_excerpt(&text, "zzz qqq xxx", 80);
    assert!(excerpt.starts_with("line 0"), "{excerpt}");
}

#[test]
fn oversized_single_paragraph_returns_its_head() {
    let text = format!("alpha {}", "word ".repeat(2_000));
    let excerpt = evidence_excerpt(&text, "alpha", 50);
    assert_eq!(excerpt.chars().count(), 50);
    assert!(excerpt.starts_with("alpha"));
}

#[test]
fn ties_resolve_to_the_earliest_paragraph() {
    let text = format!(
        "match target early\n{}\nmatch target late",
        "filler line without overlap\n".repeat(60)
    );
    let excerpt = evidence_excerpt(&text, "match target", 40);
    assert!(excerpt.contains("early"), "{excerpt}");
    assert!(!excerpt.contains("late"), "{excerpt}");
}

#[test]
fn growth_takes_the_next_paragraph_then_the_previous_one() {
    let text = "aaaa\nbbbb key words\ncccc\ndddd";
    let excerpt = evidence_excerpt(text, "key words", 20);
    assert_eq!(excerpt, "bbbb key words\ncccc");
    let wider = evidence_excerpt(text, "key words", 25);
    assert_eq!(wider, "aaaa\nbbbb key words\ncccc");
}

#[test]
fn tokens_parse_in_order_deduplicated() {
    let answer = "Per [s3], X holds [s1]; [s3] repeats. [s] and [x2] are not citations.";
    assert_eq!(citation_tokens(answer), ["s3", "s1"]);
}

#[test]
fn a_fabricated_citation_token_is_a_named_violation() {
    let err = ground("Cited [s9].", &vec![], &fetched(&["s1", "s2"])).unwrap_err();
    assert_eq!(err.len(), 1);
    assert!(err[0].contains("[s9]") && err[0].contains("was fetched"), "{}", err[0]);
}

#[test]
fn near_miss_citations_are_violations_not_ignored() {
    for (answer, marker) in [
        ("Holds [S3].", "[S3]"),
        ("Holds [s1, s2].", "[s1,"),
        ("Holds [s12 and more text here", "[s12"),
        ("Holds [s4x].", "[s4x]"),
    ] {
        let err = ground(answer, &vec![], &fetched(&["s1", "s2", "s3", "s4", "s12"])).unwrap_err();
        assert!(
            err.iter().any(|v| v.contains("malformed") && v.contains(marker)),
            "{answer}: {err:?}"
        );
    }
}

#[test]
fn a_finding_with_an_unfetched_or_missing_source_is_a_violation() {
    let err = ground(
        "All grounded [s1].",
        &vec![vec!["s1".into()], vec![], vec!["s7".into()]],
        &fetched(&["s1"]),
    )
    .unwrap_err();
    assert_eq!(err.len(), 2);
    assert!(err[0].contains("finding 1") && err[0].contains("no source"));
    assert!(err[1].contains("finding 2") && err[1].contains("s7"));
}

#[test]
fn uncited_sources_are_pruned_and_order_is_citation_first() {
    let grounded = ground(
        "B first [s2], then A [s1].",
        &vec![vec!["s1".into()], vec!["s4".into()]],
        &fetched(&["s1", "s2", "s3", "s4"]),
    )
    .unwrap();
    assert_eq!(grounded.kept_source_ids, ["s2", "s1", "s4"]);
}

#[test]
fn clean_pass_with_no_citations_keeps_nothing() {
    let grounded = ground("No citations at all.", &vec![], &fetched(&["s1"])).unwrap();
    assert!(grounded.kept_source_ids.is_empty());
}

#[test]
fn a_malformed_excerpt_runs_to_the_first_bracket_within_twenty_characters() {
    let err = ground("See [s12 and more text here, long", &vec![], &fetched(&["s12"])).unwrap_err();
    assert_eq!(
        err,
        vec!["the answer contains a malformed citation \"[s12 and more text h\" \u{2014} cite exactly one source per token in the form [s3]".to_string()]
    );
}

#[test]
fn tier_table_matches_the_design() {
    assert_eq!(Depth::Quick.tier().angles, 3);
    assert_eq!(Depth::Quick.tier().verify_k, 1);
    assert_eq!(Depth::Standard.tier().max_sources, 25);
    assert_eq!(Depth::Deep.tier().angles, 8);
    assert_eq!(Depth::Deep.tier().verify_k, 3);
    assert_eq!(Depth::Quick.tier().default_budget_tokens, 350_000);
    assert_eq!(Depth::Quick.as_str(), "quick");
    assert_eq!(Depth::Standard.as_str(), "standard");
    assert_eq!(Depth::Deep.as_str(), "deep");
    for (lo, hi) in [(Depth::Quick, Depth::Standard), (Depth::Standard, Depth::Deep)] {
        assert!(lo.tier().angles < hi.tier().angles);
        assert!(lo.tier().max_sources < hi.tier().max_sources);
        assert!(lo.tier().verify_k <= hi.tier().verify_k);
        assert!(lo.tier().default_budget_tokens < hi.tier().default_budget_tokens);
    }
}

#[test]
fn structural_ceiling_multiplies_the_tier() {
    assert_eq!(Depth::Quick.structural_max_tokens(), 8 * 12 * 2_508);
    assert_eq!(Depth::Deep.structural_max_tokens(), 60 * 12 * 3 * 2_508);
}

#[test]
fn claim_key_normalizes_case_whitespace_and_punctuation() {
    assert_eq!(
        claim_key("The  Moon landing was in 1969."),
        claim_key("the moon landing was in 1969")
    );
    assert_eq!(claim_key("A\u{2014}B"), "a b");
    assert_ne!(claim_key("rust is fast"), claim_key("rust is safe"));
}

#[test]
fn url_key_dedups_scheme_fragment_and_trailing_slash() {
    assert_eq!(url_key("https://Example.com/Path/"), url_key("http://example.com/Path"));
    assert_eq!(url_key("https://example.com/a#section"), url_key("https://example.com/a"));
    assert_ne!(url_key("https://example.com/Path"), url_key("https://example.com/path"));
    assert_eq!(url_key("https://Example.com/Path/"), "example.com/Path");
}

#[test]
fn domain_matching_is_suffix_at_dot_boundaries() {
    assert!(domain_matches("example.com", "example.com"));
    assert!(domain_matches("docs.example.com", "example.com"));
    assert!(domain_matches("Docs.Example.COM", "example.com"));
    assert!(!domain_matches("notexample.com", "example.com"));
    assert!(!domain_matches("example.com.evil.net", "example.com"));
}

#[test]
fn a_caller_may_lower_concurrency_and_a_raise_is_reduced_to_the_ceiling() {
    assert_eq!(effective_concurrency(None, 8).unwrap(), 8);
    assert_eq!(effective_concurrency(Some(2), 8).unwrap(), 2);
    assert_eq!(effective_concurrency(Some(1), 8).unwrap(), 1);
    assert_eq!(effective_concurrency(Some(8), 8).unwrap(), 8);
    assert_eq!(effective_concurrency(Some(16), 8).unwrap(), 8);
    assert_eq!(effective_concurrency(Some(u32::MAX), 8).unwrap(), 8);
    assert!(effective_concurrency(Some(0), 8).is_err());
    assert_eq!(effective_concurrency(Some(16), 32).unwrap(), 16);
    assert_eq!(effective_concurrency(Some(16), 4).unwrap(), 4);
}

fn research(question: &str, constraints: Option<Constraints>) -> ResearchParams {
    ResearchParams {
        question: question.into(),
        depth: None,
        focus: None,
        constraints,
    }
}

#[test]
fn settings_take_the_tier_and_the_callers_constraints() {
    let s = validate_params(1_000, &research("why?", None)).unwrap();
    assert_eq!((s.angles, s.max_sources, s.verify_k), (5, 25, 2));
    assert_eq!((s.deadline_ms, s.budget_tokens), (240_000, 1_600_000));
    let c = Constraints {
        max_sources: Some(10),
        budget_tokens: Some(5_000),
        ..Constraints::default()
    };
    let s = validate_params(1_000, &research("why?", Some(c))).unwrap();
    assert_eq!((s.max_sources, s.budget_tokens), (10, 5_000));
    assert_eq!(per_angle_count(&s, 3), 7);
    assert_eq!(per_angle_count(&s, 0), 20);
}

#[test]
fn out_of_range_settings_are_rejected_by_name() {
    let e = validate_params(1_000, &research("  ", None)).unwrap_err();
    assert!(matches!(e, AppError::InvalidInput(ref m) if m == "question is empty or whitespace-only"));
    let c = Constraints {
        max_sources: Some(61),
        ..Constraints::default()
    };
    let e = validate_params(1_000, &research("q", Some(c))).unwrap_err();
    assert!(matches!(e, AppError::InvalidInput(ref m) if m == "max_sources 61 is out of range 1..=60"));
    let c = Constraints {
        deadline_ms: Some(10),
        ..Constraints::default()
    };
    let e = validate_params(1_000, &research("q", Some(c))).unwrap_err();
    assert!(matches!(e, AppError::InvalidInput(ref m) if m == "deadline_ms 10 is below the minimum of 5000"));
    let mut p = research("q", None);
    p.focus = Some(vec!["a".into(); 9]);
    let e = validate_params(1_000, &p).unwrap_err();
    assert!(matches!(e, AppError::InvalidInput(ref m) if m == "9 focus entries exceed the maximum of 8"));
}

use parallax::modes::verify::VerdictKind;
use parallax::research::extract::{build_prompt, clean_claims, readable_text, ReadablePage, EXTRACT_TEXT_MAX_CHARS};
use parallax::research::fetch::{
    check_body_growth, check_content_type, check_domain, check_scheme, robots_gate, spacing_wait,
    status_error, FetchPolicy,
};
use parallax::research::pipeline::{claim_context, plan_from, scope_prompt, EvidenceSource};
use parallax::research::synthesis::{
    bullet_block, contested, finding_line, label, retry_clause, synth_step, SynthStep, DEMOTED_ANSWER,
    DEMOTED_GAP,
};
use parallax::research::verdict::{coverage, is_doc_class_host, settled_mask, support};
use parallax::research::Support;

fn strings(items: &[&str]) -> Vec<String> {
    items.iter().map(|s| (*s).to_string()).collect()
}

fn provider_message(e: AppError) -> String {
    match e {
        AppError::SearchProvider(m) => m,
        other => panic!("not a provider error: {other:?}"),
    }
}

// The vote share enters as whole votes: `agreeing` of `completed` passes.
#[test]
fn split_votes_are_contested_before_the_aggregate_verdict_is_trusted() {
    // K=2, 1–1: verify aggregates to refuted at agreement 0.5.
    assert_eq!(support(2, 1, VerdictKind::Refuted, 2), Support::Contested);
    // K=3, 2–1 refuted: share exactly 2/3 — still contested.
    assert_eq!(support(3, 2, VerdictKind::Refuted, 2), Support::Contested);
    // K=3, 2–1 supported: same band from the other side.
    assert_eq!(support(3, 2, VerdictKind::Supported, 2), Support::Contested);
}

#[test]
fn decisive_votes_map_by_verdict_and_source_count() {
    // K=1 can never be contested (share 1).
    assert_eq!(support(1, 1, VerdictKind::Refuted, 1), Support::Refuted);
    assert_eq!(support(1, 1, VerdictKind::Supported, 1), Support::Unverified);
    assert_eq!(support(1, 1, VerdictKind::Supported, 2), Support::Confirmed);
    // K=3 unanimous.
    assert_eq!(support(3, 3, VerdictKind::Refuted, 3), Support::Refuted);
    assert_eq!(support(3, 3, VerdictKind::Supported, 3), Support::Confirmed);
    // K=5, 4–1: share 0.8 > 2/3 — decided.
    assert_eq!(support(5, 4, VerdictKind::Supported, 1), Support::Unverified);
}

// Coverage is the exact fraction (settled, scoped).
#[test]
fn coverage_counts_unclaimed_sub_questions_deterministically() {
    let share = |n: usize, targets: &[u32]| {
        let (settled, scoped) = coverage(n, &targets.to_vec());
        settled as f32 / scoped as f32
    };
    // Nothing was scoped, so nothing is unsettled.
    assert!((share(0, &[]) - 1.0).abs() < f32::EPSILON);
    // No gap targets anything: fully settled.
    assert!((share(3, &[]) - 1.0).abs() < f32::EPSILON);
    // Every sub-question claimed: nothing settled.
    assert!((share(3, &[1, 2, 3]) - 0.0).abs() < f32::EPSILON);
    // Partial.
    assert!((share(4, &[2, 3]) - 0.5).abs() < f32::EPSILON);
    // Several gaps on one sub-question count it unsettled once.
    assert!((share(3, &[2, 2, 2, 2, 2]) - (2.0 / 3.0)).abs() < 1e-6);
    // An out-of-range key identifies no sub-question and is discarded.
    assert!((share(2, &[9]) - 1.0).abs() < f32::EPSILON);
    assert!((share(2, &[1, 42]) - 0.5).abs() < f32::EPSILON);
    // 0 concerns no single sub-question and must not suppress coverage.
    assert!((share(2, &[0, 0]) - 1.0).abs() < f32::EPSILON);
    // Always a proportion.
    for targets in [vec![], vec![1], vec![1, 1, 2], vec![0, 7]] {
        assert!((0.0..=1.0).contains(&share(2, &targets)), "{targets:?}");
    }
}

#[test]
fn coverage_is_the_settled_share_of_the_mask() {
    for (n, targets) in [(3usize, vec![]), (3, vec![2]), (3, vec![1, 2, 3]), (2, vec![2, 2, 2]), (2, vec![9, 0])] {
        let mask = settled_mask(n, &targets);
        let (settled, scoped) = coverage(n, &targets);
        assert_eq!(scoped, n);
        assert_eq!(settled, mask.iter().filter(|s| **s).count());
    }
    assert_eq!(settled_mask(3, &vec![2]), vec![true, false, true]);
    assert_eq!(coverage(0, &vec![1]), (1, 1));
}

#[test]
fn documentation_class_hosts_are_recognized_ignoring_case() {
    assert!(is_doc_class_host("nist.gov"));
    assert!(is_doc_class_host("ons.gov.uk"));
    assert!(is_doc_class_host("MIT.EDU"));
    assert!(is_doc_class_host("wikipedia.org"));
    assert!(!is_doc_class_host("example.com"));
    assert!(!is_doc_class_host("government.com"));
}

#[test]
fn empty_or_unextractable_html_is_none_not_an_error() {
    assert!(readable_text("https://example.com/empty", "<html><body></body></html>").is_none());
}

#[test]
fn oversized_text_is_capped() {
    let body = "word ".repeat(20_000);
    let html = format!("<html><body><article><h1>T</h1><p>{body}</p></article></body></html>");
    let readable = readable_text("https://example.com/long", &html).unwrap();
    assert!(readable.text.chars().count() <= EXTRACT_TEXT_MAX_CHARS);
}

#[test]
fn an_article_reduces_to_its_main_text() {
    let para = "The benchmark ran the brute-force search over one million vectors and answered every query in single-digit milliseconds on commodity hardware, which is fast enough for most interactive uses.";
    let html = format!(
        "<html><head><title>Brute-Force Search Is Fine</title></head><body><nav>Home About</nav><article><h1>Brute-Force Search Is Fine</h1><p>{para}</p><p>{para}</p><p>{para}</p></article></body></html>"
    );
    let readable = readable_text("https://example.com/post", &html).unwrap();
    assert!(readable.text.contains("single-digit milliseconds"), "{}", readable.text);
    assert!(!readable.title.trim().is_empty());
}

#[test]
fn the_extraction_prompt_fills_title_and_text_once() {
    let page = ReadablePage { title: "T".to_string(), text: "body".to_string() };
    assert_eq!(build_prompt("Page title: <<title>>\n<<text>>", &page), "Page title: T\nbody");
}

#[test]
fn claims_are_trimmed_filtered_and_capped() {
    let mut claims = strings(&[" padded ", "  "]);
    claims.extend((0..20).map(|i| format!("claim {i}")));
    let cleaned = clean_claims(&claims);
    assert_eq!(cleaned.len(), 12);
    assert_eq!(cleaned[0], "padded");
    assert!(!cleaned.iter().any(String::is_empty));
}

fn policy(allow: &[&str], deny: &[&str]) -> FetchPolicy {
    FetchPolicy {
        timeout_ms: 1_000,
        domains_allow: strings(allow),
        domains_deny: strings(deny),
        domain_spacing_ms: 300,
    }
}

#[test]
fn domain_policy_denies_first_then_applies_the_allow_list() {
    let p = policy(&["example.com"], &["bad.example.com"]);
    assert!(check_domain(&p, "docs.example.com", "requested").is_ok());
    assert_eq!(
        provider_message(check_domain(&p, "bad.example.com", "requested").unwrap_err()),
        "requested domain bad.example.com is denied"
    );
    assert_eq!(
        provider_message(check_domain(&p, "other.org", "redirected-to").unwrap_err()),
        "redirected-to domain other.org is outside the allow list"
    );
    assert!(check_domain(&policy(&[], &[]), "anything.net", "requested").is_ok());
}

#[test]
fn robots_rules_decide_for_the_fetchers_agent() {
    assert!(robots_gate(None, "https://example.com/private/x").is_ok());
    let body = "User-agent: *\nDisallow: /private/\n";
    assert!(robots_gate(Some(body), "https://example.com/public/x").is_ok());
    assert_eq!(
        provider_message(robots_gate(Some(body), "https://example.com/private/x").unwrap_err()),
        "robots.txt disallows https://example.com/private/x"
    );
}

#[test]
fn schemes_content_types_and_body_size_are_checked() {
    assert!(check_scheme("https").is_ok());
    assert!(check_scheme("http").is_ok());
    assert_eq!(provider_message(check_scheme("ftp").unwrap_err()), "unsupported scheme \"ftp\"");
    assert!(check_content_type("Text/HTML; charset=utf-8").is_ok());
    assert!(check_content_type("application/xhtml+xml").is_ok());
    assert_eq!(
        provider_message(check_content_type("Application/PDF").unwrap_err()),
        "content-type \"application/pdf\" is not extractable"
    );
    assert!(check_body_growth(1_999_000, 1_000).is_ok());
    assert_eq!(
        provider_message(check_body_growth(1_999_000, 1_001).unwrap_err()),
        "body exceeds the 2000000-byte cap"
    );
}

#[test]
fn spacing_waits_out_the_rest_of_the_interval() {
    assert_eq!(spacing_wait(None, 300), 0);
    assert_eq!(spacing_wait(Some(100), 300), 200);
    assert_eq!(spacing_wait(Some(300), 300), 0);
    assert_eq!(
        provider_message(status_error(404, "Not Found", "https://e.com/x")),
        "HTTP 404 Not Found for https://e.com/x"
    );
}

#[test]
fn the_scope_prompt_fills_cap_focus_and_trimmed_question() {
    let t = "max <<angles_max>>.<<focus_clause>> Q: <<question>>";
    assert_eq!(scope_prompt(t, 4, &None, "  why?  "), "max 4. Q: why?");
    assert_eq!(
        scope_prompt(t, 2, &Some(strings(&["cost", "speed"])), "why?"),
        "max 2. Bias the angles toward these caller-named facets: cost; speed. Q: why?"
    );
}

#[test]
fn a_scope_answer_with_nothing_left_keeps_the_question_as_its_angle() {
    let plan = plan_from(&strings(&["  ", ""]), &strings(&[" s1 ", " "]), 3, "  the question ");
    assert_eq!(plan.angles, strings(&["the question"]));
    assert_eq!(plan.sub_questions, strings(&["s1"]));
    let plan = plan_from(&strings(&["a", " b ", "c", "d"]), &strings(&[]), 2, "q");
    assert_eq!(plan.angles, strings(&["a", "b"]));
}

fn source(id: &str, text: &str) -> EvidenceSource {
    EvidenceSource {
        id: id.to_string(),
        title: format!("Title {id}"),
        host: "example.com".to_string(),
        text: text.to_string(),
    }
}

#[test]
fn the_claim_context_quotes_each_known_backing_source() {
    let sources = vec![source("s1", "alpha text"), source("s2", "beta text")];
    let ctx = claim_context(&sources, &strings(&["s2", "s9", "s1"]), "claim");
    assert_eq!(
        ctx,
        "Source excerpts the claim was extracted from:\n\n[s2] Title s2 (example.com):\nbeta text\n\n[s1] Title s1 (example.com):\nalpha text"
    );
}

#[test]
fn finding_lines_and_blocks_render_exactly() {
    let sources = vec![source("s1", "x"), source("s2", "y")];
    assert_eq!(
        finding_line(Support::Confirmed, "0.90", "Water boils.", &strings(&["s1", "s2"]), &sources),
        "- (confirmed, confidence 0.90) Water boils. [s1][s2] \u{2014} Title s1; Title s2"
    );
    assert_eq!(label(Support::Unverified), "unverified, single-source");
    assert_eq!(bullet_block(&strings(&["a", "b"]), "(none)"), "- a\n- b");
    assert_eq!(bullet_block(&strings(&[]), "(none)"), "(none)");
    assert_eq!(
        retry_clause(&strings(&["v1", "v2"])),
        " YOUR PREVIOUS ATTEMPT WAS REJECTED for citation violations: v1; v2. Cite only the listed source tokens."
    );
}

#[test]
fn a_grounded_synthesis_is_accepted_then_an_ungrounded_one_retried_then_demoted() {
    let findings = vec![strings(&["s1"])];
    let fetched = strings(&["s1", "s2"]);
    let subs = strings(&["sub a"]);
    match synth_step(1, "Fact [s1].".to_string(), strings(&["g"]), &findings, &fetched, &subs) {
        SynthStep::Accept { answer, gaps, kept_source_ids } => {
            assert_eq!(answer, "Fact [s1].");
            assert_eq!(gaps, strings(&["g"]));
            assert_eq!(kept_source_ids, strings(&["s1"]));
        },
        other => panic!("{other:?}"),
    }
    match synth_step(1, "Fact [s9].".to_string(), vec![], &findings, &fetched, &subs) {
        SynthStep::Retry { retry_clause } => assert!(retry_clause.contains("[s9]"), "{retry_clause}"),
        other => panic!("{other:?}"),
    }
    match synth_step(2, "Fact [s9].".to_string(), vec![], &findings, &fetched, &subs) {
        SynthStep::Demote { answer, gaps, kept_source_ids } => {
            assert_eq!(answer, DEMOTED_ANSWER);
            assert_eq!(gaps, vec![DEMOTED_GAP.to_string(), "sub a".to_string()]);
            assert_eq!(kept_source_ids, strings(&["s1"]));
        },
        other => panic!("{other:?}"),
    }
}

#[test]
fn a_contested_claim_records_both_positions() {
    let d = contested("c", &strings(&["s1"]), &strings(&["f1", "f2"]));
    assert_eq!(d.claim, "c");
    assert_eq!(d.positions.len(), 2);
    assert_eq!(d.positions[0].stance, "supported by part of the verification panel");
    assert_eq!(d.positions[1].stance, "challenged: f1 | f2");
    assert_eq!(d.positions[1].sources, strings(&["s1"]));
    let quiet = contested("c", &strings(&["s1"]), &vec![]);
    assert_eq!(quiet.positions[1].stance, "challenged by part of the verification panel");
}

use parallax::research::contract::StopReason;
use parallax::research::fetch::{admit_request, check_redirect, url_host};
use parallax::research::pipeline::Ceiling;
use parallax::research::run::{
    dedup_claims, merge_searches, nothing_verified, prefilter, source_id, SearchHit, SourceClaims,
    ALL_REFUTED_ANSWER, NOTHING_FOUND_ANSWER,
};

fn hit(url: &str) -> SearchHit {
    SearchHit { url: url.to_string(), title: format!("t {url}") }
}

#[test]
fn the_first_trip_latches_budget_before_deadline() {
    let mut c = Ceiling::new(100, 1_000);
    assert_eq!(c.probe(50, 10), None);
    assert_eq!(c.current(), None);
    assert_eq!(c.probe(100, 2_000), Some(StopReason::Budget));
    // Latched: later probes report the first trip whatever they see.
    assert_eq!(c.probe(0, 0), Some(StopReason::Budget));
    assert_eq!(c.current(), Some(StopReason::Budget));
    let mut d = Ceiling::new(100, 1_000);
    assert_eq!(d.probe(99, 1_000), Some(StopReason::Deadline));
}

#[test]
fn requests_are_admitted_only_with_a_scheme_a_host_and_an_allowed_domain() {
    let open = policy(&[], &["evil.com"]);
    let ok = admit_request(&open, "https://Docs.Example.com/a?b#c").unwrap();
    assert_eq!(ok.host, "docs.example.com");
    assert_eq!(ok.origin, "https://docs.example.com");
    assert_eq!(
        provider_message(admit_request(&open, "ftp://example.com/x").unwrap_err()),
        "unsupported scheme \"ftp\""
    );
    assert_eq!(
        provider_message(admit_request(&open, "https://www.evil.com/").unwrap_err()),
        "requested domain www.evil.com is denied"
    );
    assert!(provider_message(admit_request(&open, "not a url").unwrap_err()).starts_with("unfetchable url \"not a url\": "));
    assert_eq!(url_host("https://a.b.org:8080/x"), Some("a.b.org".to_string()));
    assert_eq!(url_host("mailto:x@y.z"), None);
    assert_eq!(
        provider_message(check_redirect(&open, None).unwrap_err()),
        "redirected to a hostless url"
    );
    assert_eq!(
        provider_message(check_redirect(&policy(&["example.com"], &[]), Some("other.net")).unwrap_err()),
        "redirected-to domain other.net is outside the allow list"
    );
}

#[test]
fn searches_merge_by_url_key_and_fail_only_when_none_succeeded() {
    let outcomes = vec![
        Ok(vec![hit("https://a.com/x"), hit("http://A.com/x/")]),
        Err(AppError::SearchProvider("down".to_string())),
        Ok(vec![hit("https://b.com/y#frag"), hit("https://a.com/x")]),
    ];
    let (candidates, searches) = merge_searches(outcomes).unwrap();
    assert_eq!(searches, 2);
    let urls: Vec<&str> = candidates.iter().map(|h| h.url.as_str()).collect();
    assert_eq!(urls, ["https://a.com/x", "https://b.com/y#frag"]);

    let all_failed = vec![
        Err(AppError::SearchProvider("first".to_string())),
        Err(AppError::SearchProvider("second".to_string())),
    ];
    assert_eq!(provider_message(merge_searches(all_failed).unwrap_err()), "first");
    let (none, n) = merge_searches(vec![]).unwrap();
    assert!(none.is_empty() && n == 0);
}

#[test]
fn the_prefilter_drops_denied_and_hostless_candidates_then_caps() {
    let candidates = vec![hit("https://a.com/1"), hit("https://x.evil.com/2"), hit("nonsense"), hit("https://b.com/3"), hit("https://c.com/4")];
    let kept = prefilter(&candidates, &vec![], &strings(&["evil.com"]), 2);
    let urls: Vec<&str> = kept.iter().map(|h| h.url.as_str()).collect();
    assert_eq!(urls, ["https://a.com/1", "https://b.com/3"]);
    let allowed = prefilter(&candidates, &strings(&["c.com"]), &vec![], 10);
    assert_eq!(allowed.len(), 1);
    assert_eq!(source_id(0), "s1");
    assert_eq!(source_id(11), "s12");
}

#[test]
fn claims_deduplicate_by_key_in_key_order_with_each_source_once() {
    let sources = vec![
        SourceClaims { id: "s1".to_string(), claims: strings(&["Zebra stripes.", "Apples are red!"]) },
        SourceClaims { id: "s2".to_string(), claims: strings(&["apples are RED", "zebra stripes", "zebra  stripes"]) },
    ];
    let claims = dedup_claims(&sources);
    assert_eq!(claims.len(), 2);
    assert_eq!(claims[0].text, "Apples are red!");
    assert_eq!(claims[0].source_ids, strings(&["s1", "s2"]));
    assert_eq!(claims[1].text, "Zebra stripes.");
    assert_eq!(claims[1].source_ids, strings(&["s1", "s2"]));
    assert!(dedup_claims(&vec![]).is_empty());
}

#[test]
fn a_run_with_nothing_verified_answers_with_every_sub_question_as_a_gap() {
    let none = nothing_verified(false, &strings(&["a", "b"]));
    assert_eq!(none.answer, NOTHING_FOUND_ANSWER);
    assert_eq!(none.gaps, strings(&["a", "b"]));
    assert_eq!(none.gap_targets, vec![1, 2]);
    let refuted = nothing_verified(true, &vec![]);
    assert_eq!(refuted.answer, ALL_REFUTED_ANSWER);
    assert!(refuted.gap_targets.is_empty());
}

#[test]
fn invalid_input_stays_invalid_params_under_attached_usage() {
    let e = AppError::InvalidInput("x".to_string());
    assert!(e.is_invalid_params());
    assert!(e.metered(5, 6).is_invalid_params());
    assert!(!AppError::Client("boom".to_string()).metered(1, 1).is_invalid_params());
}

#[test]
fn quoted_values_in_messages_are_debug_escaped() {
    assert_eq!(
        provider_message(check_scheme("f\"t\\p").unwrap_err()),
        "unsupported scheme \"f\\\"t\\\\p\""
    );
    assert_eq!(
        provider_message(check_content_type("a\tb").unwrap_err()),
        "content-type \"a\\tb\" is not extractable"
    );
}

use parallax::modes::ModeRegistry;
use parallax::research::pipeline::{research_verify_mode, RESEARCH_VERIFY_TEMPLATE};
use parallax::research::synthesis::stop_after_demotion;
use parallax::schema::json::Json;

#[test]
fn a_demotion_keeps_an_earlier_stop_reason() {
    assert_eq!(stop_after_demotion(None), Some(StopReason::Grounding));
    assert_eq!(stop_after_demotion(Some(StopReason::Budget)), Some(StopReason::Budget));
    assert!(RESEARCH_VERIFY_TEMPLATE.contains("<<claim>>") && RESEARCH_VERIFY_TEMPLATE.contains("<<context>>"));
}

#[test]
fn the_research_verify_mode_swaps_only_the_template() {
    let schema = Json::Object(vec![
        ("type".to_string(), Json::Str("object".to_string())),
        (
            "properties".to_string(),
            Json::Object(vec![("verdict".to_string(), Json::Object(vec![("type".to_string(), Json::Str("string".to_string()))]))]),
        ),
    ]);
    let mut registry = ModeRegistry::new();
    registry.register("verify", "d", "plain <<claim>>", schema, 3).unwrap();
    let base = registry.get("verify").unwrap();
    let research = research_verify_mode(base);
    assert_eq!(research.prompt_template, RESEARCH_VERIFY_TEMPLATE);
    assert_eq!(research.id, "verify");
    assert_eq!(research.ensemble_k, 3);
    assert_eq!(research.output_schema.to_text(), base.output_schema.to_text());
    assert_eq!(research.sanitized_schema.to_text(), base.sanitized_schema.to_text());
}
