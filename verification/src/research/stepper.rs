//! A research run as a state machine. The outside work (the model calls, the
//! searches, the fetches) is done by the caller; every decision between
//! them is a step here, from the run's state and what just happened to the
//! next state and what to do next: scope, search, fetch and extract, verify,
//! synthesize. The budget and deadline ceilings are probed between phases
//! and before every unit of work, and the first trip is latched, so a
//! ceiling blown mid-phase stops the remaining units; the run's accounting
//! counts every claim that was dropped, whether refuted, failed or never
//! processed.
use vstd::prelude::*;
use crate::error::{sat_add, spec_billed, spec_unmetered, AppError};
use crate::research::contract::{Stats, StopReason};
use crate::research::pipeline::{probe_step, Ceiling};
use crate::research::run::{
    admitted, dedup_claims, dedup_of, first_failure, found, hits_of, is_gap_outcome, merge_searches,
    nothing_verified, pairs, prefilter, source_id, succeeded, unique_urls, GapOutcome, SearchHit,
    SourceClaims,
};
use crate::research::settings::{per_angle_count, spec_per_angle, RunSettings};
use crate::research::synthesis::stop_after_demotion;
use crate::research::contract::ResearchParams;
use crate::research::outcome::first_with_id;
use crate::research::settings::{settings_are, settings_error, validate_params};
use crate::research::{Claim, ScopePlan, Support};
use crate::error::invalid_input_is;
use crate::routing::{site_index, CallSite, RoutingTable};
use crate::text::{decimal, str_eq, strs_of};

verus! {

/// Where a run stands.
#[derive(Debug, Clone, Copy, PartialEq, Eq, Structural)]
pub enum RunPhase {
    /// Waiting for the scope plan.
    Scope,
    /// Waiting for the angle searches.
    Search,
    /// Waiting for the fetched and extracted sources.
    Fetch,
    /// Waiting for the claims' verification.
    Verify,
    /// Waiting for the synthesis.
    Synthesize,
    /// Finished or failed.
    Done,
}

/// What happened outside since the last step.
#[derive(Debug)]
pub enum RunEvent {
    /// The scope call produced this plan.
    Scoped(ScopePlan),
    /// The angle searches finished, one outcome per angle, in angle order.
    Searched(Vec<Result<Vec<SearchHit>, AppError>>),
    /// The sources that were fetched and had claims extracted, in candidate
    /// order.
    Fetched(Vec<SourceClaims>),
    /// One outcome per claim handed out for verification, in order: the
    /// support it was given, or `None` when it was dropped.
    Verified(Vec<Option<Support>>),
    /// The synthesis finished; `true` when it was demoted.
    Synthesized(bool),
    /// A call from this call site succeeded and billed these (input,
    /// output) tokens.
    Usage(CallSite, u64, u64),
    /// A unit of work from this call site failed and was dropped; the
    /// tokens the error carries as billed were spent all the same.
    UnitFailed(CallSite, AppError),
    /// This many milliseconds have passed since the run started.
    Tick(u64),
    /// A unit of work is about to start.
    Admit,
    /// The run fails with this error (its own billed tokens are not yet
    /// counted).
    Failed(AppError),
}

/// What to do next.
#[derive(Debug)]
pub enum RunAction {
    /// Search each angle for this many results.
    Search { angles: Vec<String>, per_angle: u8 },
    /// Fetch and extract these candidates, each under its citation id.
    Fetch(Vec<(String, SearchHit)>),
    /// Verify these claims.
    Verify(Vec<Claim>),
    /// Synthesize the answer from the surviving claims.
    Synthesize,
    /// The run is over, with this accounting and the tokens spent per model
    /// (model id, input, output, in first-use order); when nothing survived
    /// verification, with the honest-gap outcome in place of a synthesis.
    Finish { stats: Stats, usage: Vec<(String, u64, u64)>, gaps: Option<GapOutcome> },
    /// The run fails with this error.
    Fail(AppError),
    /// Start the unit of work.
    Proceed,
    /// Drop the unit of work: a ceiling has tripped.
    Skip,
    /// Nothing to do until the next event.
    Wait,
}

/// A run in progress.
#[derive(Debug)]
pub struct RunState {
    /// Where it stands.
    pub phase: RunPhase,
    /// What it was asked to do.
    pub settings: RunSettings,
    /// Its budget and deadline, with the first trip latched.
    pub ceiling: Ceiling,
    /// Input tokens spent.
    pub input_tokens: u64,
    /// Output tokens spent.
    pub output_tokens: u64,
    /// Milliseconds since it started.
    pub elapsed_ms: u64,
    /// The accounting so far.
    pub stats: Stats,
    /// The plan's sub-questions.
    pub sub_questions: Vec<String>,
    /// Claims never handed out for verification because a ceiling tripped.
    pub deferred: u32,
    /// Claims whose verification failed or was skipped.
    pub failed: u32,
    /// Claims verification refuted.
    pub refuted: u32,
    /// The model each call site uses, in call-site order.
    pub site_models: Vec<String>,
    /// Tokens spent per model: (model id, input, output), in first-use
    /// order.
    pub usage: Vec<(String, u64, u64)>,
}

/// A count as a `u32`, saturating.
pub open spec fn sat_u32(n: nat) -> u32 {
    if n > u32::MAX {
        u32::MAX
    } else {
        n as u32
    }
}

/// Tokens a run has spent, input and output together (saturating).
pub open spec fn spent(s: RunState) -> u64 {
    sat_add(s.input_tokens, s.output_tokens)
}

/// What probing the ceilings in state `s` reports.
pub open spec fn probe_of(s: RunState) -> Option<StopReason> {
    probe_step(s.ceiling.tripped(), spent(s), s.elapsed_ms, s.ceiling.budget(), s.ceiling.deadline())
}

/// `n`'s ceiling is `s`'s after a probe.
pub open spec fn probed(s: RunState, n: RunState) -> bool {
    &&& n.ceiling.tripped() == probe_of(s)
    &&& n.ceiling.budget() == s.ceiling.budget()
    &&& n.ceiling.deadline() == s.ceiling.deadline()
}

/// A per-model tally as plain values.
pub open spec fn tally_view(t: Seq<(String, u64, u64)>) -> Seq<(Seq<char>, u64, u64)> {
    t.map_values(|e: (String, u64, u64)| (e.0@, e.1, e.2))
}

/// The models of a tally, in order.
pub open spec fn tally_names(t: Seq<(Seq<char>, u64, u64)>) -> Seq<Seq<char>> {
    t.map_values(|e: (Seq<char>, u64, u64)| e.0)
}

/// The tally with `(i, o)` more tokens spent on `model`: added to its entry
/// (saturating), or a new entry at the end when it has none yet.
pub open spec fn add_usage(t: Seq<(Seq<char>, u64, u64)>, model: Seq<char>, i: u64, o: u64) -> Seq<(Seq<char>, u64, u64)> {
    match first_with_id(tally_names(t), model) {
        Some(k) => t.update(k, (model, sat_add(t[k].1, i), sat_add(t[k].2, o))),
        None => t.push((model, i, o)),
    }
}

/// The model call site `site` uses in this run.
pub open spec fn model_of(s: RunState, site: CallSite) -> Seq<char> {
    s.site_models@[site_index(site)]@
}

/// `n` keeps `s`'s settings, spending and clock.
pub open spec fn same_meter(s: RunState, n: RunState) -> bool {
    &&& n.usage == s.usage
    &&& n.site_models == s.site_models
    &&& n.settings == s.settings
    &&& n.input_tokens == s.input_tokens
    &&& n.output_tokens == s.output_tokens
    &&& n.elapsed_ms == s.elapsed_ms
}

/// `n` keeps `s`'s sub-questions and claim counters.
pub open spec fn same_counts(s: RunState, n: RunState) -> bool {
    &&& n.sub_questions == s.sub_questions
    &&& n.deferred == s.deferred
    &&& n.failed == s.failed
    &&& n.refuted == s.refuted
}

/// `n` is `s` in phase `p`, with nothing else changed.
pub open spec fn moved_to(s: RunState, n: RunState, p: RunPhase) -> bool {
    &&& n.phase == p
    &&& same_meter(s, n)
    &&& same_counts(s, n)
    &&& n.ceiling == s.ceiling
    &&& n.stats == s.stats
}

/// The accounting with the searches counted.
pub open spec fn with_search(st: Stats, searches: u32, found: u32) -> Stats {
    Stats {
        angles: st.angles,
        searches,
        sources_found: found,
        sources_fetched: st.sources_fetched,
        claims_extracted: st.claims_extracted,
        claims_after_dedup: st.claims_after_dedup,
        claims_verified: st.claims_verified,
        claims_dropped: st.claims_dropped,
        tokens: st.tokens,
        elapsed_ms: st.elapsed_ms,
        stopped_early: st.stopped_early,
        stop_reason: st.stop_reason,
    }
}

/// The accounting with the fetched sources and their claims counted.
pub open spec fn with_fetch(st: Stats, fetched: u32, extracted: u32, after_dedup: u32) -> Stats {
    Stats {
        angles: st.angles,
        searches: st.searches,
        sources_found: st.sources_found,
        sources_fetched: fetched,
        claims_extracted: extracted,
        claims_after_dedup: after_dedup,
        claims_verified: st.claims_verified,
        claims_dropped: st.claims_dropped,
        tokens: st.tokens,
        elapsed_ms: st.elapsed_ms,
        stopped_early: st.stopped_early,
        stop_reason: st.stop_reason,
    }
}

/// The accounting with the verification counted and the stop reason so
/// far recorded.
pub open spec fn with_verify(st: Stats, verified: u32, dropped: u32, stop: Option<StopReason>) -> Stats {
    Stats {
        angles: st.angles,
        searches: st.searches,
        sources_found: st.sources_found,
        sources_fetched: st.sources_fetched,
        claims_extracted: st.claims_extracted,
        claims_after_dedup: st.claims_after_dedup,
        claims_verified: verified,
        claims_dropped: dropped,
        tokens: st.tokens,
        elapsed_ms: st.elapsed_ms,
        stopped_early: st.stopped_early,
        stop_reason: stop,
    }
}

/// The final accounting: the tokens spent, the time taken, and whether and
/// why the run stopped early.
pub open spec fn finished(st: Stats, tokens: u64, elapsed_ms: u64, stop: Option<StopReason>) -> Stats {
    Stats {
        angles: st.angles,
        searches: st.searches,
        sources_found: st.sources_found,
        sources_fetched: st.sources_fetched,
        claims_extracted: st.claims_extracted,
        claims_after_dedup: st.claims_after_dedup,
        claims_verified: st.claims_verified,
        claims_dropped: st.claims_dropped,
        tokens,
        elapsed_ms,
        stopped_early: stop is Some,
        stop_reason: stop,
    }
}

/// The candidates handed to the fetch, as plain values.
pub open spec fn fetch_view(v: Seq<(String, SearchHit)>) -> Seq<(Seq<char>, (Seq<char>, Seq<char>))> {
    v.map_values(|p: (String, SearchHit)| (p.0@, (p.1.url@, p.1.title@)))
}

/// The citation id of the candidate at `i`: `s1`, `s2`, ...
pub open spec fn citation_id(i: int) -> Seq<char> {
    "s"@ + decimal((i + 1) as nat)
}

/// The candidates, each under its citation id.
pub open spec fn numbered(f: Seq<(Seq<char>, Seq<char>)>) -> Seq<(Seq<char>, (Seq<char>, Seq<char>))> {
    Seq::new(f.len(), |i: int| (citation_id(i), f[i]))
}

/// At most `max` of the candidates, from the front.
pub open spec fn capped(a: Seq<(Seq<char>, Seq<char>)>, max: nat) -> Seq<(Seq<char>, Seq<char>)> {
    if a.len() <= max {
        a
    } else {
        a.take(max as int)
    }
}

/// How many claims the sources hold together.
pub open spec fn claims_in(ss: Seq<SourceClaims>) -> nat
    decreases ss.len(),
{
    if ss.len() == 0 {
        0
    } else {
        claims_in(ss.drop_last()) + ss.last().claims@.len()
    }
}

/// The claims handed out are the deduplicated entries `d`, in order.
pub open spec fn claims_are(v: Seq<Claim>, d: Seq<(Seq<char>, Seq<char>, Seq<Seq<char>>)>) -> bool {
    &&& v.len() == d.len()
    &&& forall|i: int|
        0 <= i < v.len() ==> #[trigger] v[i].text@ == d[i].1 && strs_of(v[i].source_ids@) == d[i].2
}

/// Claims that completed verification.
pub open spec fn completed(o: Seq<Option<Support>>) -> nat
    decreases o.len(),
{
    if o.len() == 0 {
        0
    } else {
        completed(o.drop_last()) + if o.last() is Some {
            1nat
        } else {
            0nat
        }
    }
}

/// Claims verification refuted.
pub open spec fn refuted_in(o: Seq<Option<Support>>) -> nat
    decreases o.len(),
{
    if o.len() == 0 {
        0
    } else {
        refuted_in(o.drop_last()) + if o.last() == Some(Support::Refuted) {
            1nat
        } else {
            0nat
        }
    }
}

/// Claims dropped during verification.
pub open spec fn dropped_in(o: Seq<Option<Support>>) -> nat
    decreases o.len(),
{
    if o.len() == 0 {
        0
    } else {
        dropped_in(o.drop_last()) + if o.last() is None {
            1nat
        } else {
            0nat
        }
    }
}

/// `f` is `e` with the run's spending added to what it carries as billed.
pub open spec fn metered_by(f: AppError, e: AppError, s: RunState) -> bool {
    &&& spec_unmetered(f) == spec_unmetered(e)
    &&& spec_billed(f) == (sat_add(spec_billed(e).0, s.input_tokens), sat_add(spec_billed(e).1, s.output_tokens))
}

/// The accounting with the angles counted.
pub open spec fn with_angles(st: Stats, angles: u32) -> Stats {
    Stats {
        angles,
        searches: st.searches,
        sources_found: st.sources_found,
        sources_fetched: st.sources_fetched,
        claims_extracted: st.claims_extracted,
        claims_after_dedup: st.claims_after_dedup,
        claims_verified: st.claims_verified,
        claims_dropped: st.claims_dropped,
        tokens: st.tokens,
        elapsed_ms: st.elapsed_ms,
        stopped_early: st.stopped_early,
        stop_reason: st.stop_reason,
    }
}

/// The step on a scope plan: record the angles and sub-questions, then
/// probe; under the ceilings, search each angle, and with a ceiling
/// tripped by the scope alone, skip the whole search fan-out.
pub open spec fn scoped_step(s: RunState, plan: ScopePlan, n: RunState, a: RunAction) -> bool {
    if s.phase != RunPhase::Scope {
        n == s && a is Wait
    } else {
        let st = with_angles(s.stats, sat_u32(plan.angles@.len()));
        &&& same_meter(s, n)
        &&& probed(s, n)
        &&& strs_of(n.sub_questions@) == strs_of(plan.sub_questions@)
        &&& n.deferred == s.deferred && n.failed == s.failed && n.refuted == s.refuted
        &&& if probe_of(s) is None {
            &&& n.phase == RunPhase::Search
            &&& n.stats == st
            &&& a matches RunAction::Search { angles, per_angle } && strs_of(angles@) == strs_of(plan.angles@)
                && per_angle == spec_per_angle(s.settings.max_sources as nat, plan.angles@.len())
        } else {
            &&& n.phase == RunPhase::Fetch
            &&& n.stats == with_search(st, 0, 0)
            &&& a matches RunAction::Fetch(v) && v@.len() == 0
        }
    }
}

/// The step on the angle searches: when every search failed, the run fails
/// with the first failure; otherwise the candidates are merged, counted
/// before the domain filter, filtered and capped, and, under the ceilings,
/// handed to the fetch under their citation ids.
pub open spec fn searched_step(s: RunState, o: Seq<Result<Vec<SearchHit>, AppError>>, n: RunState, a: RunAction) -> bool {
    if s.phase != RunPhase::Search {
        n == s && a is Wait
    } else if succeeded(o) == 0 && first_failure(o) is Some {
        &&& moved_to(s, n, RunPhase::Done)
        &&& a matches RunAction::Fail(f) && match o[first_failure(o).unwrap()] {
            Err(e) => metered_by(f, e, s),
            Ok(_) => false,
        }
    } else {
        let c = unique_urls(found(o));
        let f = capped(
            admitted(c, strs_of(s.settings.domains_allow@), strs_of(s.settings.domains_deny@)),
            s.settings.max_sources as nat,
        );
        &&& n.phase == RunPhase::Fetch
        &&& same_meter(s, n)
        &&& same_counts(s, n)
        &&& probed(s, n)
        &&& n.stats == with_search(s.stats, sat_u32(succeeded(o)), sat_u32(c.len()))
        &&& a matches RunAction::Fetch(v) && fetch_view(v@) == if probe_of(s) is None {
            numbered(f)
        } else {
            Seq::empty()
        }
    }
}

/// The step on the fetched sources: count them and their claims,
/// deduplicate the claims, and, under the ceilings, hand them all out for
/// verification; with a ceiling tripped, none is, and all are deferred.
pub open spec fn fetched_step(s: RunState, ss: Seq<SourceClaims>, n: RunState, a: RunAction) -> bool {
    if s.phase != RunPhase::Fetch {
        n == s && a is Wait
    } else {
        let d = dedup_of(pairs(ss));
        &&& n.phase == RunPhase::Verify
        &&& same_meter(s, n)
        &&& probed(s, n)
        &&& n.sub_questions == s.sub_questions && n.failed == s.failed && n.refuted == s.refuted
        &&& n.stats == with_fetch(s.stats, sat_u32(ss.len()), sat_u32(claims_in(ss)), sat_u32(d.len()))
        &&& if probe_of(s) is None {
            n.deferred == 0 && (a matches RunAction::Verify(v) && claims_are(v@, d))
        } else {
            n.deferred == sat_u32(d.len()) && (a matches RunAction::Verify(v) && v@.len() == 0)
        }
    }
}

/// The step on the verification outcomes: count what completed, what was
/// refuted and what was dropped; every claim not carried into the answer
/// (deferred, dropped or refuted) is counted as dropped. With nothing left
/// standing the run finishes with the honest-gap outcome and no synthesis;
/// otherwise the answer is synthesized.
pub open spec fn verified_step(s: RunState, o: Seq<Option<Support>>, n: RunState, a: RunAction) -> bool {
    if s.phase != RunPhase::Verify {
        n == s && a is Wait
    } else {
        let stop = s.ceiling.tripped();
        let st = with_verify(s.stats, sat_u32(completed(o)), sat_u32(s.deferred as nat + dropped_in(o) + refuted_in(o)), stop);
        &&& same_meter(s, n)
        &&& n.ceiling == s.ceiling
        &&& n.sub_questions == s.sub_questions && n.deferred == s.deferred
        &&& n.failed == sat_u32(dropped_in(o)) && n.refuted == sat_u32(refuted_in(o))
        &&& if completed(o) == refuted_in(o) {
            &&& n.phase == RunPhase::Done
            &&& n.stats == finished(st, spent(s), s.elapsed_ms, stop)
            &&& a matches RunAction::Finish { stats: fs, usage: u, gaps: Some(g) } && fs == n.stats
                && tally_view(u@) == tally_view(s.usage@) && is_gap_outcome(
                g,
                refuted_in(o) > 0,
                s.sub_questions@,
            )
        } else {
            n.phase == RunPhase::Synthesize && n.stats == st && a is Synthesize
        }
    }
}

/// The stop reason after the synthesis: a demotion records the grounding
/// reason unless a ceiling had already stopped the run.
pub open spec fn stop_after(stop: Option<StopReason>, demoted: bool) -> Option<StopReason> {
    if demoted {
        Some(
            match stop {
                Some(r) => r,
                None => StopReason::Grounding,
            },
        )
    } else {
        stop
    }
}

/// The step on the synthesis: the run finishes with its final accounting.
pub open spec fn synthesized_step(s: RunState, demoted: bool, n: RunState, a: RunAction) -> bool {
    if s.phase != RunPhase::Synthesize {
        n == s && a is Wait
    } else {
        &&& n.phase == RunPhase::Done
        &&& same_meter(s, n)
        &&& same_counts(s, n)
        &&& n.ceiling == s.ceiling
        &&& n.stats == finished(s.stats, spent(s), s.elapsed_ms, stop_after(s.stats.stop_reason, demoted))
        &&& a matches RunAction::Finish { stats: fs, usage: u, gaps: None } && fs == n.stats
            && tally_view(u@) == tally_view(s.usage@)
    }
}

/// `n` is `s` with its spending raised by `(i, o)`, saturating, and those
/// tokens added to the entry of the model `site` uses.
pub open spec fn spent_more(s: RunState, site: CallSite, i: u64, o: u64, n: RunState) -> bool {
    &&& n.phase == s.phase
    &&& n.site_models == s.site_models
    &&& tally_view(n.usage@) == add_usage(tally_view(s.usage@), model_of(s, site), i, o)
    &&& n.settings == s.settings
    &&& n.ceiling == s.ceiling
    &&& n.stats == s.stats
    &&& same_counts(s, n)
    &&& n.elapsed_ms == s.elapsed_ms
    &&& n.input_tokens == sat_add(s.input_tokens, i)
    &&& n.output_tokens == sat_add(s.output_tokens, o)
}

/// What each event does to a run.
pub open spec fn step_is(s: RunState, e: RunEvent, n: RunState, a: RunAction) -> bool {
    match e {
        RunEvent::Scoped(plan) => scoped_step(s, plan, n, a),
        RunEvent::Searched(o) => searched_step(s, o@, n, a),
        RunEvent::Fetched(ss) => fetched_step(s, ss@, n, a),
        RunEvent::Verified(o) => verified_step(s, o@, n, a),
        RunEvent::Synthesized(demoted) => synthesized_step(s, demoted, n, a),
        RunEvent::Usage(site, i, o) => spent_more(s, site, i, o, n) && a is Wait,
        RunEvent::UnitFailed(site, err) => spent_more(s, site, spec_billed(err).0, spec_billed(err).1, n) && a is Wait,
        RunEvent::Tick(ms) => {
            &&& n.phase == s.phase
            &&& n.usage == s.usage
            &&& n.site_models == s.site_models
            &&& n.settings == s.settings
            &&& n.ceiling == s.ceiling
            &&& n.stats == s.stats
            &&& same_counts(s, n)
            &&& n.input_tokens == s.input_tokens && n.output_tokens == s.output_tokens
            &&& n.elapsed_ms == ms
            &&& a is Wait
        },
        RunEvent::Admit => {
            &&& n.phase == s.phase
            &&& same_meter(s, n)
            &&& same_counts(s, n)
            &&& n.stats == s.stats
            &&& probed(s, n)
            &&& if probe_of(s) is None {
                a is Proceed
            } else {
                a is Skip
            }
        },
        RunEvent::Failed(err) => moved_to(s, n, RunPhase::Done) && (a matches RunAction::Fail(f) && metered_by(f, err, s)),
    }
}

/// The accounting of a run that has done nothing yet.
pub open spec fn no_stats() -> Stats {
    Stats {
        angles: 0,
        searches: 0,
        sources_found: 0,
        sources_fetched: 0,
        claims_extracted: 0,
        claims_after_dedup: 0,
        claims_verified: 0,
        claims_dropped: 0,
        tokens: 0,
        elapsed_ms: 0,
        stopped_early: false,
        stop_reason: None,
    }
}

/// `r` is a run about to scope with these settings and the models this
/// routing table gives each call site: nothing spent, nothing counted, the
/// ceilings untripped.
pub open spec fn is_fresh_run(r: RunState, settings: RunSettings, routing: RoutingTable) -> bool {
    &&& r.wf()
    &&& r.phase == RunPhase::Scope
    &&& r.settings == settings
    &&& r.ceiling.budget() == settings.budget_tokens
    &&& r.ceiling.deadline() == settings.deadline_ms
    &&& r.ceiling.tripped() is None
    &&& r.input_tokens == 0 && r.output_tokens == 0 && r.elapsed_ms == 0
    &&& r.stats == no_stats()
    &&& r.sub_questions@.len() == 0
    &&& r.deferred == 0 && r.failed == 0 && r.refuted == 0
    &&& r.usage@.len() == 0
    &&& forall|k: int| 0 <= k < 12 ==> (#[trigger] r.site_models@[k])@ == routing.spec_routes()[k].model@
}

impl RunState {
    /// The settings leave room to spread twice the source cap over the
    /// angles.
    pub open spec fn wf(self) -> bool {
        &&& self.settings.max_sources * 2 <= usize::MAX
        &&& self.site_models@.len() == 12
    }

    /// A run about to scope, with nothing spent and the ceilings untripped.
    pub fn start(settings: RunSettings, routing: &RoutingTable) -> (r: RunState)
        requires
            settings.max_sources * 2 <= usize::MAX,
        ensures
            is_fresh_run(r, settings, *routing),
    {
        let ceiling = Ceiling::new(settings.budget_tokens, settings.deadline_ms);
        let routes = routing.routes();
        let mut site_models: Vec<String> = Vec::new();
        let mut k: usize = 0;
        while k < routes.len()
            invariant
                0 <= k <= routes@.len(),
                routes@ == routing.spec_routes(),
                routes@.len() == 12,
                site_models@.len() == k,
                forall|j: int| 0 <= j < k ==> (#[trigger] site_models@[j])@ == routing.spec_routes()[j].model@,
            decreases routes@.len() - k,
        {
            site_models.push(routes[k].model.clone());
            k = k + 1;
        }
        RunState {
            phase: RunPhase::Scope,
            settings,
            ceiling,
            input_tokens: 0,
            output_tokens: 0,
            elapsed_ms: 0,
            stats: Stats {
                angles: 0,
                searches: 0,
                sources_found: 0,
                sources_fetched: 0,
                claims_extracted: 0,
                claims_after_dedup: 0,
                claims_verified: 0,
                claims_dropped: 0,
                tokens: 0,
                elapsed_ms: 0,
                stopped_early: false,
                stop_reason: None,
            },
            sub_questions: Vec::new(),
            deferred: 0,
            failed: 0,
            refuted: 0,
            site_models,
            usage: Vec::new(),
        }
    }
}

/// Begin a research run: the parameters are validated before anything
/// else, and a run exists only when they are accepted, so a refused request
/// is answered before any search, fetch or model call can be made for it.
pub fn begin_run(input_max_chars: usize, params: &ResearchParams, routing: &RoutingTable) -> (r: Result<RunState, AppError>)
    ensures
        settings_error(*params, input_max_chars) matches Some(m) ==> (r matches Err(e) && invalid_input_is(e, m)),
        settings_error(*params, input_max_chars) is None ==> (r matches Ok(s) && settings_are(s.settings, *params)
            && is_fresh_run(s, s.settings, *routing)),
{
    match validate_params(input_max_chars, params) {
        Err(e) => Err(e),
        Ok(settings) => Ok(RunState::start(settings, routing)),
    }
}

/// A length as a `u32`, saturating.
fn count_u32(n: usize) -> (r: u32)
    ensures
        r == sat_u32(n as nat),
{
    if (n as u64) > (u32::MAX as u64) {
        u32::MAX
    } else {
        n as u32
    }
}

/// A wide count as a `u32`, saturating.
fn wide_u32(n: u128) -> (r: u32)
    ensures
        r == sat_u32(n as nat),
{
    if n > (u32::MAX as u128) {
        u32::MAX
    } else {
        n as u32
    }
}

/// A copy of an accounting.
fn copy_stats(st: &Stats) -> (r: Stats)
    ensures
        r == *st,
{
    Stats {
        angles: st.angles,
        searches: st.searches,
        sources_found: st.sources_found,
        sources_fetched: st.sources_fetched,
        claims_extracted: st.claims_extracted,
        claims_after_dedup: st.claims_after_dedup,
        claims_verified: st.claims_verified,
        claims_dropped: st.claims_dropped,
        tokens: st.tokens,
        elapsed_ms: st.elapsed_ms,
        stopped_early: st.stopped_early,
        stop_reason: st.stop_reason,
    }
}

/// Probe the ceilings with what the run has spent and how long it has run.
fn probe_now(s: &mut RunState) -> (r: Option<StopReason>)
    ensures
        r == probe_of(*old(s)),
        probed(*old(s), *final(s)),
        final(s).phase == old(s).phase,
        same_meter(*old(s), *final(s)),
        same_counts(*old(s), *final(s)),
        final(s).stats == old(s).stats,
{
    let total = s.input_tokens.saturating_add(s.output_tokens);
    s.ceiling.probe(total, s.elapsed_ms)
}

/// The candidates, each under its citation id.
fn number(hits: &Vec<SearchHit>) -> (r: Vec<(String, SearchHit)>)
    ensures
        fetch_view(r@) == numbered(hits_of(hits@)),
{
    let mut r: Vec<(String, SearchHit)> = Vec::new();
    let mut i: usize = 0;
    while i < hits.len()
        invariant
            0 <= i <= hits@.len(),
            fetch_view(r@) == numbered(hits_of(hits@)).take(i as int),
        decreases hits@.len() - i,
    {
        let id = source_id(i);
        let hit = SearchHit { url: hits[i].url.clone(), title: hits[i].title.clone() };
        let ghost before = fetch_view(r@);
        r.push((id, hit));
        assert(fetch_view(r@) =~= before.push((citation_id(i as int), hits_of(hits@)[i as int])));
        assert(numbered(hits_of(hits@)).take(i + 1) =~= numbered(hits_of(hits@)).take(i as int).push(
            (citation_id(i as int), hits_of(hits@)[i as int]),
        ));
        i = i + 1;
    }
    assert(numbered(hits_of(hits@)).take(hits@.len() as int) =~= numbered(hits_of(hits@)));
    r
}

/// How many claims the sources hold together, saturating.
fn count_claims(ss: &Vec<SourceClaims>) -> (r: u32)
    ensures
        r == sat_u32(claims_in(ss@)),
{
    let mut c: u128 = 0;
    let mut i: usize = 0;
    while i < ss.len()
        invariant
            0 <= i <= ss@.len(),
            c == if claims_in(ss@.take(i as int)) > u64::MAX {
                u64::MAX as nat
            } else {
                claims_in(ss@.take(i as int))
            },
        decreases ss@.len() - i,
    {
        assert(ss@.take(i + 1).drop_last() =~= ss@.take(i as int));
        let add = ss[i].claims.len() as u128;
        c = if c + add > (u64::MAX as u128) {
            u64::MAX as u128
        } else {
            c + add
        };
        i = i + 1;
    }
    assert(ss@.take(ss@.len() as int) =~= ss@);
    wide_u32(c)
}

/// Tally verification outcomes: (completed, refuted, dropped).
fn tally(o: &Vec<Option<Support>>) -> (r: (u64, u64, u64))
    ensures
        r.0 == completed(o@),
        r.1 == refuted_in(o@),
        r.2 == dropped_in(o@),
{
    let mut done: u64 = 0;
    let mut refuted: u64 = 0;
    let mut dropped: u64 = 0;
    let mut i: usize = 0;
    while i < o.len()
        invariant
            0 <= i <= o@.len(),
            done == completed(o@.take(i as int)),
            refuted == refuted_in(o@.take(i as int)),
            dropped == dropped_in(o@.take(i as int)),
            done <= i && refuted <= i && dropped <= i,
        decreases o@.len() - i,
    {
        assert(o@.take(i + 1).drop_last() =~= o@.take(i as int));
        assert(o@.take(i + 1).last() == o@[i as int]);
        match o[i] {
            Some(sup) => {
                done = done + 1;
                if sup == Support::Refuted {
                    refuted = refuted + 1;
                }
            },
            None => {
                dropped = dropped + 1;
            },
        }
        i = i + 1;
    }
    assert(o@.take(o@.len() as int) =~= o@);
    (done, refuted, dropped)
}

/// The final accounting, from the state as it stands, with `stop` as the
/// reason the run stopped early.
fn finish_stats(s: &mut RunState, stop: Option<StopReason>)
    ensures
        final(s).stats == finished(old(s).stats, spent(*old(s)), old(s).elapsed_ms, stop),
        final(s).phase == old(s).phase,
        same_meter(*old(s), *final(s)),
        same_counts(*old(s), *final(s)),
        final(s).ceiling == old(s).ceiling,
{
    s.stats.tokens = s.input_tokens.saturating_add(s.output_tokens);
    s.stats.elapsed_ms = s.elapsed_ms;
    s.stats.stopped_early = stop.is_some();
    s.stats.stop_reason = stop;
}

fn on_scoped(s: RunState, plan: ScopePlan) -> (r: (RunState, RunAction))
    requires
        s.wf(),
    ensures
        scoped_step(s, plan, r.0, r.1),
{
    if s.phase != RunPhase::Scope {
        return (s, RunAction::Wait);
    }
    let mut s = s;
    let ghost s0 = s;
    s.stats.angles = count_u32(plan.angles.len());
    let ScopePlan { angles, sub_questions } = plan;
    s.sub_questions = sub_questions;
    let ghost s1 = s;
    let hit = probe_now(&mut s);
    assert(probe_of(s1) == probe_of(s0));
    match hit {
        None => {
            let per_angle = per_angle_count(&s.settings, angles.len());
            s.phase = RunPhase::Search;
            (s, RunAction::Search { angles, per_angle })
        },
        Some(_) => {
            s.stats.searches = 0;
            s.stats.sources_found = 0;
            s.phase = RunPhase::Fetch;
            (s, RunAction::Fetch(Vec::new()))
        },
    }
}

fn on_searched(s: RunState, outcomes: Vec<Result<Vec<SearchHit>, AppError>>) -> (r: (RunState, RunAction))
    requires
        s.wf(),
    ensures
        searched_step(s, outcomes@, r.0, r.1),
{
    if s.phase != RunPhase::Search {
        return (s, RunAction::Wait);
    }
    let ghost o = outcomes@;
    let mut s = s;
    match merge_searches(outcomes) {
        Err(e) => {
            let f = e.metered(s.input_tokens, s.output_tokens);
            s.phase = RunPhase::Done;
            (s, RunAction::Fail(f))
        },
        Ok((cands, n)) => {
            let ghost s0 = s;
            s.stats.searches = count_u32(n);
            s.stats.sources_found = count_u32(cands.len());
            let filtered = prefilter(&cands, &s.settings.domains_allow, &s.settings.domains_deny, s.settings.max_sources);
            let ghost s1 = s;
            let hit = probe_now(&mut s);
            assert(probe_of(s1) == probe_of(s0));
            let list = if hit.is_none() {
                number(&filtered)
            } else {
                let e: Vec<(String, SearchHit)> = Vec::new();
                assert(fetch_view(e@) =~= Seq::empty());
                e
            };
            s.phase = RunPhase::Fetch;
            (s, RunAction::Fetch(list))
        },
    }
}

fn on_fetched(s: RunState, sources: Vec<SourceClaims>) -> (r: (RunState, RunAction))
    requires
        s.wf(),
    ensures
        fetched_step(s, sources@, r.0, r.1),
{
    if s.phase != RunPhase::Fetch {
        return (s, RunAction::Wait);
    }
    let mut s = s;
    let ghost s0 = s;
    s.stats.sources_fetched = count_u32(sources.len());
    s.stats.claims_extracted = count_claims(&sources);
    let claims = dedup_claims(&sources);
    s.stats.claims_after_dedup = count_u32(claims.len());
    let ghost s1 = s;
    let hit = probe_now(&mut s);
    assert(probe_of(s1) == probe_of(s0));
    s.phase = RunPhase::Verify;
    if hit.is_none() {
        s.deferred = 0;
        (s, RunAction::Verify(claims))
    } else {
        s.deferred = count_u32(claims.len());
        (s, RunAction::Verify(Vec::new()))
    }
}

fn on_verified(s: RunState, outcomes: Vec<Option<Support>>) -> (r: (RunState, RunAction))
    requires
        s.wf(),
    ensures
        verified_step(s, outcomes@, r.0, r.1),
{
    if s.phase != RunPhase::Verify {
        return (s, RunAction::Wait);
    }
    let mut s = s;
    let ghost s0 = s;
    let (done, refuted, dropped) = tally(&outcomes);
    let lost: u128 = s.deferred as u128 + dropped as u128 + refuted as u128;
    s.failed = wide_u32(dropped as u128);
    s.refuted = wide_u32(refuted as u128);
    let stop = s.ceiling.current();
    s.stats.claims_verified = wide_u32(done as u128);
    s.stats.claims_dropped = wide_u32(lost);
    s.stats.stop_reason = stop;
    if done == refuted {
        let g = nothing_verified(refuted > 0, &s.sub_questions);
        let ghost s1 = s;
        finish_stats(&mut s, stop);
        assert(spent(s1) == spent(s0));
        s.phase = RunPhase::Done;
        let fs = copy_stats(&s.stats);
        let u = copy_usage(&s.usage);
        (s, RunAction::Finish { stats: fs, usage: u, gaps: Some(g) })
    } else {
        s.phase = RunPhase::Synthesize;
        (s, RunAction::Synthesize)
    }
}

fn on_synthesized(s: RunState, demoted: bool) -> (r: (RunState, RunAction))
    requires
        s.wf(),
    ensures
        synthesized_step(s, demoted, r.0, r.1),
{
    if s.phase != RunPhase::Synthesize {
        return (s, RunAction::Wait);
    }
    let mut s = s;
    let stop = if demoted {
        stop_after_demotion(s.stats.stop_reason)
    } else {
        s.stats.stop_reason
    };
    finish_stats(&mut s, stop);
    s.phase = RunPhase::Done;
    let fs = copy_stats(&s.stats);
    let u = copy_usage(&s.usage);
    (s, RunAction::Finish { stats: fs, usage: u, gaps: None })
}

/// A copy of a per-model tally.
fn copy_usage(t: &Vec<(String, u64, u64)>) -> (r: Vec<(String, u64, u64)>)
    ensures
        tally_view(r@) == tally_view(t@),
{
    let mut r: Vec<(String, u64, u64)> = Vec::new();
    let mut i: usize = 0;
    while i < t.len()
        invariant
            0 <= i <= t@.len(),
            tally_view(r@) == tally_view(t@).take(i as int),
        decreases t@.len() - i,
    {
        let ghost before = tally_view(r@);
        r.push((t[i].0.clone(), t[i].1, t[i].2));
        assert(tally_view(r@) =~= before.push(tally_view(t@)[i as int]));
        assert(tally_view(t@).take(i + 1) =~= tally_view(t@).take(i as int).push(tally_view(t@)[i as int]));
        i = i + 1;
    }
    assert(tally_view(t@).take(t@.len() as int) =~= tally_view(t@));
    r
}

/// Add `(i, o)` tokens to `model`'s entry of the tally.
fn add_model_usage(t: &mut Vec<(String, u64, u64)>, model: &str, i: u64, o: u64)
    ensures
        tally_view(final(t)@) == add_usage(tally_view(old(t)@), model@, i, o),
{
    let ghost tv = tally_view(t@);
    let ghost names = tally_names(tv);
    let mut k: usize = 0;
    while k < t.len()
        invariant
            0 <= k <= t@.len(),
            tv == tally_view(t@),
            tv == tally_view(old(t)@),
            names == tally_names(tv),
            first_with_id(names.take(k as int), model@) is None,
        decreases t@.len() - k,
    {
        assert(names.take(k + 1).drop_last() =~= names.take(k as int));
        if str_eq(t[k].0.as_str(), model) {
            assert(names.take(k + 1).last() == model@);
            assert(first_with_id(names.take(k + 1), model@) == Some(k as int));
            proof {
                crate::research::outcome::lemma_first_prefix(names, k as int + 1);
            }
            let entry = (t[k].0.clone(), t[k].1.saturating_add(i), t[k].2.saturating_add(o));
            t.set(k, entry);
            assert(tally_view(t@) =~= tv.update(k as int, (model@, sat_add(tv[k as int].1, i), sat_add(tv[k as int].2, o))));
            assert(first_with_id(names, model@) == Some(k as int));
            return;
        }
        k = k + 1;
    }
    assert(names.take(names.len() as int) =~= names);
    t.push((model.to_string(), i, o));
    assert(tally_view(t@) =~= tv.push((model@, i, o)));
}

/// The state after a call from `site` billed `(i, o)` tokens.
fn spend(s: RunState, site: CallSite, i: u64, o: u64) -> (n: RunState)
    requires
        s.wf(),
    ensures
        spent_more(s, site, i, o, n),
        n.wf(),
{
    let mut s = s;
    s.input_tokens = s.input_tokens.saturating_add(i);
    s.output_tokens = s.output_tokens.saturating_add(o);
    let k = site.index();
    let model = s.site_models[k].clone();
    add_model_usage(&mut s.usage, model.as_str(), i, o);
    s
}

/// Take one step of a run: from its state and what just happened, the
/// next state and what to do next (see [`step_is`] for each event). An
/// event that does not belong to the run's phase changes nothing. Every
/// step keeps the budget and deadline, and a trip once latched.
pub fn run_step(state: RunState, event: RunEvent) -> (r: (RunState, RunAction))
    requires
        state.wf(),
    ensures
        r.0.wf(),
        step_is(state, event, r.0, r.1),
        r.0.ceiling.budget() == state.ceiling.budget(),
        r.0.ceiling.deadline() == state.ceiling.deadline(),
        state.ceiling.tripped() is Some ==> r.0.ceiling.tripped() == state.ceiling.tripped(),
{
    match event {
        RunEvent::Scoped(plan) => on_scoped(state, plan),
        RunEvent::Searched(o) => on_searched(state, o),
        RunEvent::Fetched(ss) => on_fetched(state, ss),
        RunEvent::Verified(o) => on_verified(state, o),
        RunEvent::Synthesized(demoted) => on_synthesized(state, demoted),
        RunEvent::Usage(site, i, o) => (spend(state, site, i, o), RunAction::Wait),
        RunEvent::UnitFailed(site, err) => {
            let (i, o) = err.billed();
            (spend(state, site, i, o), RunAction::Wait)
        },
        RunEvent::Tick(ms) => {
            let mut s = state;
            s.elapsed_ms = ms;
            (s, RunAction::Wait)
        },
        RunEvent::Admit => {
            let mut s = state;
            match probe_now(&mut s) {
                None => (s, RunAction::Proceed),
                Some(_) => (s, RunAction::Skip),
            }
        },
        RunEvent::Failed(err) => {
            let mut s = state;
            let f = err.metered(s.input_tokens, s.output_tokens);
            s.phase = RunPhase::Done;
            (s, RunAction::Fail(f))
        },
    }
}

/// Each verification outcome either completed or was dropped, and only a
/// completed one can be a refutation.
proof fn lemma_tally_parts(o: Seq<Option<Support>>)
    ensures
        completed(o) + dropped_in(o) == o.len(),
        refuted_in(o) <= completed(o),
    decreases o.len(),
{
    if o.len() > 0 {
        lemma_tally_parts(o.drop_last());
    }
}

/// Once a ceiling has tripped, no step starts or hands out any more work:
/// the trip stays latched, every unit about to start is skipped, no search
/// is asked for, and no candidate or claim is handed out.
pub proof fn lemma_tripped_run_starts_nothing(s: RunState, e: RunEvent, n: RunState, a: RunAction)
    requires
        step_is(s, e, n, a),
        s.ceiling.tripped() is Some,
    ensures
        n.ceiling.tripped() == s.ceiling.tripped(),
        e is Admit ==> a is Skip,
        !(a is Proceed),
        !(a is Search),
        a matches RunAction::Fetch(v) ==> v@.len() == 0,
        a matches RunAction::Verify(v) ==> v@.len() == 0,
{
    assert(probe_of(s) == s.ceiling.tripped());
    if let RunAction::Fetch(v) = a {
        assert(fetch_view(v@).len() == v@.len());
    }
}

/// A finished run's accounting is its final state: the tokens spent, the
/// time taken, and `stopped_early` exactly when a stop reason is given.
pub proof fn lemma_finish_accounts(s: RunState, e: RunEvent, n: RunState, a: RunAction)
    requires
        step_is(s, e, n, a),
        a is Finish,
    ensures
        n.phase == RunPhase::Done,
        a->stats == n.stats,
        n.stats.stopped_early == (n.stats.stop_reason is Some),
        n.stats.tokens == spent(s),
        n.stats.elapsed_ms == s.elapsed_ms,
{
}

/// No claim silently disappears: when every claim handed out for
/// verification has an outcome, the claims carried into the answer (those
/// verified and not refuted) and the claims counted as dropped add up to
/// every deduplicated claim (counts below the `u32` ceiling).
pub proof fn lemma_every_claim_counted(s: RunState, o: Seq<Option<Support>>, n: RunState, a: RunAction)
    requires
        s.phase == RunPhase::Verify,
        verified_step(s, o, n, a),
        s.deferred + o.len() == s.stats.claims_after_dedup,
        s.stats.claims_after_dedup < u32::MAX,
    ensures
        n.stats.claims_verified - n.refuted + n.stats.claims_dropped == n.stats.claims_after_dedup,
        n.stats.claims_after_dedup == s.stats.claims_after_dedup,
{
    lemma_tally_parts(o);
}

/// The input tokens a tally holds, over every model.
pub open spec fn tally_in(t: Seq<(Seq<char>, u64, u64)>) -> nat
    decreases t.len(),
{
    if t.len() == 0 {
        0
    } else {
        tally_in(t.drop_last()) + t.last().1 as nat
    }
}

/// The output tokens a tally holds, over every model.
pub open spec fn tally_out(t: Seq<(Seq<char>, u64, u64)>) -> nat
    decreases t.len(),
{
    if t.len() == 0 {
        0
    } else {
        tally_out(t.drop_last()) + t.last().2 as nat
    }
}

/// The per-model record of a run accounts for exactly the tokens the run
/// has spent.
pub open spec fn tally_matches(s: RunState) -> bool {
    &&& tally_in(tally_view(s.usage@)) == s.input_tokens
    &&& tally_out(tally_view(s.usage@)) == s.output_tokens
}

/// Replacing one entry changes the sums by the difference.
proof fn lemma_tally_update(t: Seq<(Seq<char>, u64, u64)>, k: int, x: (Seq<char>, u64, u64))
    requires
        0 <= k < t.len(),
    ensures
        tally_in(t.update(k, x)) == tally_in(t) - t[k].1 + x.1,
        tally_out(t.update(k, x)) == tally_out(t) - t[k].2 + x.2,
        t[k].1 <= tally_in(t),
        t[k].2 <= tally_out(t),
    decreases t.len(),
{
    let u = t.update(k, x);
    if k == t.len() - 1 {
        assert(u.drop_last() =~= t.drop_last());
    } else {
        lemma_tally_update(t.drop_last(), k, x);
        assert(u.drop_last() =~= t.drop_last().update(k, x));
        assert(u.last() == t.last());
    }
}

/// Spending recorded under a model raises the sums by what was spent, when
/// no count saturates.
proof fn lemma_add_usage_sums(t: Seq<(Seq<char>, u64, u64)>, model: Seq<char>, i: u64, o: u64)
    requires
        tally_in(t) + i <= u64::MAX,
        tally_out(t) + o <= u64::MAX,
    ensures
        tally_in(add_usage(t, model, i, o)) == tally_in(t) + i,
        tally_out(add_usage(t, model, i, o)) == tally_out(t) + o,
{
    match first_with_id(tally_names(t), model) {
        Some(k) => {
            crate::research::outcome::lemma_first_in_range(tally_names(t), model);
            lemma_tally_update(t, k, (model, sat_add(t[k].1, i), sat_add(t[k].2, o)));
        },
        None => {
            assert(t.push((model, i, o)).drop_last() =~= t);
        },
    }
}

/// The per-model record adds up to the run's totals at every step: a run
/// starts with both empty, and each step either leaves both alone or adds
/// the same tokens to the run's totals and to the entry of the model that
/// spent them (while no count saturates).
pub proof fn lemma_usage_adds_up(s: RunState, e: RunEvent, n: RunState, a: RunAction)
    requires
        step_is(s, e, n, a),
        tally_matches(s),
        e matches RunEvent::Usage(_, i, o) ==> s.input_tokens + i <= u64::MAX && s.output_tokens + o <= u64::MAX,
        e matches RunEvent::UnitFailed(_, err) ==> s.input_tokens + spec_billed(err).0 <= u64::MAX
            && s.output_tokens + spec_billed(err).1 <= u64::MAX,
    ensures
        tally_matches(n),
{
    match e {
        RunEvent::Usage(site, i, o) => {
            lemma_add_usage_sums(tally_view(s.usage@), model_of(s, site), i, o);
        },
        RunEvent::UnitFailed(site, err) => {
            lemma_add_usage_sums(tally_view(s.usage@), model_of(s, site), spec_billed(err).0, spec_billed(err).1);
        },
        _ => {},
    }
}

/// A fresh run's per-model record adds up to its (zero) totals.
pub proof fn lemma_fresh_run_usage_matches(r: RunState, settings: RunSettings, routing: RoutingTable)
    requires
        is_fresh_run(r, settings, routing),
    ensures
        tally_matches(r),
{
    assert(tally_view(r.usage@).len() == 0);
}

} // verus!
