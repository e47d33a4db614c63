use parallax::routing::{CallSite, Effort, RouteSource, RoutingTable, Tier, PREFIX};
use std::collections::BTreeSet;

fn vars(pairs: &[(&str, &str)]) -> Vec<(String, String)> {
    pairs
        .iter()
        .map(|(k, v)| ((*k).to_string(), (*v).to_string()))
        .collect()
}

/// 022: unset means unset. The whole feature is off by default, and the
/// proof is that no route carries an effort when the namespace is empty —
/// which is what keeps the request body byte-identical to pre-022.
#[test]
fn an_empty_effort_namespace_leaves_every_call_site_without_one() {
    let table = RoutingTable::resolve(vars(&[]), "opus-4-8").unwrap();
    for route in table.routes() {
        assert_eq!(route.effort, None, "{}", route.site.id());
        assert_eq!(route.effort_source, None);
    }
    // One model, one effort (none) — still exactly one client.
    assert_eq!(table.distinct_clients().len(), 1);
}

/// 028 T020 / FR-002: the per-call layer sits above both configured ones,
/// and the table below it is unchanged by an override.
///
/// The table answers "what did configuration decide" and must keep
/// answering that truthfully while a call overrides it — an override is
/// not a mutation. This pins the composition the server performs
/// (`override.or(configured)`) at the level where both halves are visible,
/// because the server-side test can only observe the result.
#[test]
fn a_per_call_effort_outranks_both_configured_layers() {
    let table = RoutingTable::resolve(
        vars(&[
            ("PARALLAX_MODEL_BULK", "haiku-4-5"),
            ("PARALLAX_EFFORT_JUDGMENT", "medium"),
            ("PARALLAX_EFFORT_VERIFY", "high"),
        ]),
        "opus-5",
    )
    .unwrap();

    // Configured: site beats tier, tier covers the rest, bulk has neither.
    assert_eq!(table.effort_for(CallSite::Verify), Some(Effort::High));
    assert_eq!(table.effort_for(CallSite::Decide), Some(Effort::Medium));
    assert_eq!(table.effort_for(CallSite::ResearchExtract), None);

    // The server composes `override.or(configured)`. Each layer wins in
    // turn, and absent at every layer stays absent.
    let resolve = |site, over: Option<Effort>| over.or(table.effort_for(site));
    assert_eq!(
        resolve(CallSite::Verify, Some(Effort::Low)),
        Some(Effort::Low),
        "per-call beats a site setting"
    );
    assert_eq!(
        resolve(CallSite::Decide, Some(Effort::Low)),
        Some(Effort::Low),
        "per-call beats a tier setting"
    );
    assert_eq!(
        resolve(CallSite::ResearchExtract, Some(Effort::Max)),
        Some(Effort::Max),
        "per-call needs no configuration to take effect"
    );
    assert_eq!(resolve(CallSite::Verify, None), Some(Effort::High));
    assert_eq!(resolve(CallSite::ResearchExtract, None), None);

    // An override changes nothing about what the table reports, which is
    // what keeps the startup report true for the deployment's lifetime.
    assert_eq!(table.effort_for(CallSite::Verify), Some(Effort::High));
}

/// Model and effort resolve independently: a call site may take its model
/// from a tier and its effort from its own variable, or either from the
/// default. Collapsing them into one lookup would make the cheap tier
/// unable to carry a cheap effort without also naming a model.
#[test]
fn effort_and_model_resolve_most_specific_first_and_independently() {
    let table = RoutingTable::resolve(
        vars(&[
            ("PARALLAX_MODEL_BULK", "haiku-4-5"),
            ("PARALLAX_EFFORT_BULK", "low"),
            ("PARALLAX_EFFORT_VERIFY", "max"),
        ]),
        "opus-4-8",
    )
    .unwrap();

    let route = |id: &str| {
        table
            .routes()
            .iter()
            .find(|r| r.site.id() == id)
            .expect("call site")
            .clone()
    };

    // Bulk tier: model and effort both from the tier variables.
    let extract = route("research_extract");
    assert_eq!(extract.model, "haiku-4-5");
    assert_eq!(extract.effort, Some(Effort::Low));
    assert_eq!(extract.effort_source, Some(RouteSource::Tier));

    // Per-site effort on a default-model site: the two are independent.
    let verify = route("verify");
    assert_eq!(verify.model, "opus-4-8");
    assert_eq!(verify.source, RouteSource::Default);
    assert_eq!(verify.effort, Some(Effort::Max));
    assert_eq!(verify.effort_source, Some(RouteSource::Site));

    // Untouched site: neither.
    let unstick = route("unstick");
    assert_eq!(unstick.model, "opus-4-8");
    assert_eq!(unstick.effort, None);
}

/// A per-site effort beats its tier's, the same precedence the model
/// namespace uses.
#[test]
fn a_per_site_effort_overrides_its_tier() {
    let table = RoutingTable::resolve(
        vars(&[
            ("PARALLAX_EFFORT_JUDGMENT", "low"),
            ("PARALLAX_EFFORT_DECIDE", "xhigh"),
        ]),
        "opus-4-8",
    )
    .unwrap();
    let effort = |id: &str| {
        table
            .routes()
            .iter()
            .find(|r| r.site.id() == id)
            .and_then(|r| r.effort)
    };
    assert_eq!(effort("decide"), Some(Effort::XHigh));
    assert_eq!(effort("verify"), Some(Effort::Low));
    // Bulk is a different tier and the judgment setting must not reach it.
    assert_eq!(effort("research_extract"), None);
}

/// A typo in the effort namespace is a startup error naming the variable —
/// the same treatment the model namespace gets, and for the same reason: a
/// misspelled setting that silently does nothing is worse than a refusal
/// to start.
#[test]
fn an_unknown_or_unparseable_effort_variable_is_a_startup_error() {
    let unknown = RoutingTable::resolve(
        vars(&[("PARALLAX_EFFORT_VERFIY", "low")]),
        "opus-4-8",
    )
    .unwrap_err();
    assert!(
        unknown.message().contains("PARALLAX_EFFORT_VERFIY"),
        "{unknown:?}"
    );

    let bad_level = RoutingTable::resolve(
        vars(&[("PARALLAX_EFFORT_VERIFY", "cheap")]),
        "opus-4-8",
    )
    .unwrap_err();
    let message = bad_level.message();
    assert!(message.contains("PARALLAX_EFFORT_VERIFY"), "{message}");
    assert!(message.contains("cheap"), "{message}");
    // The message must list what was expected, not just reject.
    for level in ["low", "medium", "high", "max", "xhigh"] {
        assert!(message.contains(level), "{message} is missing {level}");
    }

    // An empty value is caught by the model namespace's own rule; the
    // effort namespace rejects it as unparseable rather than silently
    // treating it as unset.
    let empty =
        RoutingTable::resolve(vars(&[("PARALLAX_EFFORT_VERIFY", "  ")]), "opus-4-8")
            .unwrap_err();
    assert!(empty.message().contains("PARALLAX_EFFORT_VERIFY"));
}

/// Effort is part of the request body, so two call sites on one model at
/// different efforts cannot share a client. Getting this wrong would send
/// one site's effort on the other's calls.
#[test]
fn distinct_clients_keys_on_model_and_effort_together() {
    let table = RoutingTable::resolve(
        vars(&[
            ("PARALLAX_EFFORT_VERIFY", "max"),
            ("PARALLAX_EFFORT_DECIDE", "low"),
        ]),
        "opus-4-8",
    )
    .unwrap();
    // One model, three effort states (max, low, none) → three clients.
    assert_eq!(table.distinct_models().len(), 1);
    assert_eq!(table.distinct_clients().len(), 3);

    // Same effort on the same model collapses to one entry.
    let shared = RoutingTable::resolve(
        vars(&[
            ("PARALLAX_EFFORT_VERIFY", "low"),
            ("PARALLAX_EFFORT_DECIDE", "low"),
        ]),
        "opus-4-8",
    )
    .unwrap();
    assert_eq!(shared.distinct_clients().len(), 2); // low, and none
}

#[test]
fn effort_parses_case_insensitively_and_round_trips() {
    assert_eq!(Effort::parse("LOW"), Some(Effort::Low));
    assert_eq!(Effort::parse(" xhigh "), Some(Effort::XHigh));
    assert_eq!(Effort::parse("enormous"), None);
    for level in Effort::ALL {
        assert_eq!(Effort::parse(level.as_str()), Some(level));
    }
}

#[test]
fn the_startup_report_names_every_call_site_with_its_model_and_source() {
    let table = RoutingTable::resolve(
        vars(&[
            ("PARALLAX_MODEL_BULK", "haiku-4-5"),
            ("PARALLAX_MODEL_VERIFY", "opus-5"),
        ]),
        "opus-4-8",
    )
    .unwrap();
    let report = table.report();

    // Every site, exactly once, in the canonical order.
    assert_eq!(report.len(), CallSite::ALL.len());
    let listed: Vec<&str> = report.iter().map(|row| row.0).collect();
    let expected: Vec<&str> = CallSite::ALL.iter().map(|s| s.id()).collect();
    assert_eq!(listed, expected);

    // Each row names a non-empty model and the setting that supplied it,
    // and the setting named is one that actually exists.
    for (site, tier, model, source) in &report {
        assert!(!model.is_empty(), "{site}: empty model");
        assert!(
            source == "ANTHROPIC_MODEL" || source.starts_with(PREFIX),
            "{site}: source {source} is not a real setting"
        );
        assert!(*tier == "bulk" || *tier == "judgment", "{site}: {tier}");
    }

    // The three resolution paths each appear, named by their own variable.
    let row = |id: &str| {
        report
            .iter()
            .find(|r| r.0 == id)
            .map(|r| (r.2.clone(), r.3.clone()))
            .unwrap()
    };
    assert_eq!(
        row("verify"),
        ("opus-5".to_string(), "PARALLAX_MODEL_VERIFY".into()),
        "a per-site override must be reported as itself, not as its tier"
    );
    assert_eq!(
        row("research_extract"),
        ("haiku-4-5".to_string(), "PARALLAX_MODEL_BULK".into()),
        "a tier route must name the tier variable"
    );
    assert_eq!(
        row("unstick"),
        ("opus-4-8".to_string(), "ANTHROPIC_MODEL".into()),
        "an unrouted site must name the default, never blank"
    );
}

#[test]
fn unset_namespace_resolves_every_site_to_the_default() {
    let table = RoutingTable::resolve(vars(&[]), "opus-4-8").unwrap();
    assert_eq!(table.routes().len(), CallSite::ALL.len());
    for route in table.routes() {
        assert_eq!(route.model, "opus-4-8");
        assert_eq!(route.source, RouteSource::Default);
    }
    // FR-002: one model everywhere means exactly one client.
    assert_eq!(table.distinct_models(), vec!["opus-4-8".to_string()]);
}

#[test]
fn tier_setting_fans_out_to_its_members_only() {
    let table = RoutingTable::resolve(
        vars(&[("PARALLAX_MODEL_BULK", "haiku-4-5")]),
        "opus-5",
    )
    .unwrap();

    assert_eq!(
        table.model_for(CallSite::ResearchExtract),
        "haiku-4-5"
    );
    for site in CallSite::ALL {
        if site == CallSite::ResearchExtract {
            continue;
        }
        assert_eq!(table.model_for(site), "opus-5", "{}", site.id());
    }
    assert_eq!(table.distinct_models().len(), 2);
}

#[test]
fn site_setting_beats_tier_beats_default() {
    let table = RoutingTable::resolve(
        vars(&[
            ("PARALLAX_MODEL_JUDGMENT", "sonnet-5"),
            ("PARALLAX_MODEL_VERIFY", "opus-5"),
        ]),
        "opus-4-8",
    )
    .unwrap();

    // Site override wins.
    assert_eq!(table.model_for(CallSite::Verify), "opus-5");
    // Tier governs the rest of its members.
    assert_eq!(table.model_for(CallSite::Decide), "sonnet-5");
    // The untouched tier still falls through to the default.
    assert_eq!(
        table.model_for(CallSite::ResearchExtract),
        "opus-4-8"
    );

    let verify = table
        .routes()
        .iter()
        .find(|r| r.site == CallSite::Verify)
        .unwrap();
    assert_eq!(verify.source, RouteSource::Site);
    assert_eq!(
        verify.source.variable(CallSite::Verify),
        "PARALLAX_MODEL_VERIFY"
    );
}

#[test]
fn unknown_suffix_is_rejected_by_name() {
    // The misspelled-route case: without namespace validation this would
    // be silently ignored and the only symptom is a bill that never drops.
    let error = RoutingTable::resolve(
        vars(&[("PARALLAX_MODEL_EXTRCT", "haiku-4-5")]),
        "opus-4-8",
    )
    .unwrap_err();
    let message = error.message();
    assert!(message.contains("PARALLAX_MODEL_EXTRCT"), "{message}");
    assert!(message.contains("unknown variable"), "{message}");
}

#[test]
fn empty_value_is_rejected_by_name_never_defaulted() {
    for value in ["", "   "] {
        let error =
            RoutingTable::resolve(vars(&[("PARALLAX_MODEL_BULK", value)]), "opus-4-8")
                .unwrap_err();
        let message = error.message();
        assert!(message.contains("PARALLAX_MODEL_BULK"), "{message}");
        assert!(message.contains("present but empty"), "{message}");
    }
}

#[test]
fn non_routing_variables_are_ignored() {
    let table = RoutingTable::resolve(
        vars(&[
            ("ANTHROPIC_MODEL", "ignored-here"),
            ("PATH", "/usr/bin"),
            ("PARALLAX_UNRELATED", "not-in-the-namespace"),
        ]),
        "opus-4-8",
    )
    .unwrap();
    assert_eq!(table.model_for(CallSite::Verify), "opus-4-8");
}

#[test]
fn values_are_trimmed() {
    let table = RoutingTable::resolve(
        vars(&[("PARALLAX_MODEL_BULK", "  haiku-4-5  ")]),
        "opus-4-8",
    )
    .unwrap();
    assert_eq!(
        table.model_for(CallSite::ResearchExtract),
        "haiku-4-5"
    );
}

#[test]
fn every_site_routed_alike_collapses_to_one_client() {
    let mut pairs: Vec<(String, String)> = CallSite::ALL
        .iter()
        .map(|site| {
            (
                format!("{PREFIX}{}", site.suffix()),
                "sonnet-5".to_string(),
            )
        })
        .collect();
    pairs.push(("PARALLAX_MODEL_BULK".into(), "sonnet-5".into()));

    let table = RoutingTable::resolve(pairs, "opus-4-8").unwrap();
    assert_eq!(table.distinct_models(), vec!["sonnet-5".to_string()]);
}

#[test]
fn ids_and_suffixes_are_unique_and_paired() {
    let ids: BTreeSet<&str> = CallSite::ALL.iter().map(|s| s.id()).collect();
    let suffixes: BTreeSet<&str> = CallSite::ALL.iter().map(|s| s.suffix()).collect();
    assert_eq!(ids.len(), CallSite::ALL.len());
    assert_eq!(suffixes.len(), CallSite::ALL.len());
    // The suffix is the id uppercased — the contract config.md documents.
    for site in CallSite::ALL {
        assert_eq!(site.suffix(), site.id().to_uppercase(), "{}", site.id());
    }
    for tier in Tier::ALL {
        assert_eq!(tier.suffix(), tier.id().to_uppercase());
    }
}

// `index` keys a fixed-size array in the client pool; if it drifts from
// ALL, a call site silently gets another site's client.
/// `ALL` must be written in declaration order, because [`CallSite::index`]
/// is the discriminant and `ClientPool` keys its per-site array on it.
///
/// Narrower than it used to be, and deliberately kept. Before 035 this
/// guarded two hand-written orderings against each other; now the index is
/// derived, so the only thing left that *can* disagree is `ALL` itself.
/// A failure here means a call site would receive another site's client —
/// silent, since both are valid clients, and visible only as an invocation
/// record attributing cost to a model that never ran.
#[test]
fn all_is_in_declaration_order_so_index_keys_it_correctly() {
    for (position, site) in CallSite::ALL.iter().enumerate() {
        assert_eq!(site.index(), position, "{}", site.id());
    }
    // Every site is present exactly once: a duplicate would give two sites
    // the same index and leave a slot unreachable.
    let mut seen: Vec<usize> = CallSite::ALL.iter().map(|s| s.index()).collect();
    seen.sort_unstable();
    seen.dedup();
    assert_eq!(seen.len(), CallSite::ALL.len(), "ALL contains a duplicate");
    assert_eq!(
        seen.last(),
        Some(&(CallSite::ALL.len() - 1)),
        "index escapes ALL"
    );
}

#[test]
fn only_research_extract_is_bulk() {
    let bulk: Vec<&str> = CallSite::ALL
        .iter()
        .filter(|s| s.tier() == Tier::Bulk)
        .map(|s| s.id())
        .collect();
    assert_eq!(bulk, vec!["research_extract"]);
}
