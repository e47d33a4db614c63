//! The Verify corrective: k independent, stance-blind verification passes,
//! each under a distinct critical lens, aggregated into a majority verdict
//! whose confidence is the cross-pass agreement.
use vstd::prelude::*;
use crate::error::{
    invalid_input_is, sat_add, spec_billed, spec_outcome, spec_unmetered, validation_failure_is,
    AppError, Outcome,
};
use crate::routing::Effort;
use crate::text::{
    append_decimal, append_str, chars_of, decimal, is_blank_seq, replace_all, str_is_blank,
    string_of, strs_of,
};

verus! {

/// Tool id as exposed over MCP.
pub const VERIFY_ID: &'static str = "verify";

/// The MCP tool description; it does the routing work.
pub const VERIFY_DESCRIPTION: &'static str = "Independently verify a claim. Runs multiple parallel verification passes that see only the claim and optional context - never the requester's stance or conversation. Returns a structured verdict - supported or refuted, specific concrete findings (every refutation names the exact error), and a confidence score derived from cross-pass agreement. Use when an assertion matters and being confidently wrong is costly.";

/// The calibrated verifier profile. Placeholders exist for the lens, the
/// claim and the context only: the requester's stance has no slot to flow
/// through.
pub const PROMPT_TEMPLATE: &'static str = "You are an independent verifier. Judge the claim below on its own merits. You know nothing about who made it or how confident they are.\n\nCritical lens for this pass — it shapes HOW you scrutinize the claim, not what you assume about who asked:\n<<lens>>\n\nRules:\n1. Steelman first: consider the strongest reasonable reading of the claim before judging.\n2. Refute only on specific, concrete error: every finding in a refutation must name the exact error and the correct fact. Vague doubt (\"may be inaccurate\") is not a finding.\n3. If the claim is sound under its strongest reading, support it. Do not invent refutations to appear rigorous.\n4. Findings must be self-contained single sentences.\n\nClaim to verify:\n<<claim>>\n\nContext provided with the claim (may be empty):\n<<context>>\n";

/// A named critical perspective assigned to a verification pass. The lens
/// changes how a pass probes the claim, never what it knows about the asker.
#[derive(Debug, Clone, Copy)]
pub struct Lens {
    /// Short identifier, prepended to the directive.
    pub name: &'static str,
    /// The instruction injected at the `<<lens>>` slot.
    pub directive: &'static str,
}

/// Number of lenses; pass `i` uses lens `i % LENS_COUNT`.
pub const LENS_COUNT: usize = 5;

/// The name of lens `k`.
pub open spec fn lens_name(k: int) -> Seq<char> {
    if k == 0 {
        "literal"@
    } else if k == 1 {
        "counterexample"@
    } else if k == 2 {
        "definitional"@
    } else if k == 3 {
        "evidential"@
    } else {
        "scope"@
    }
}

/// Lens `k` of the fixed set.
pub fn lens_at(k: usize) -> (l: Lens)
    requires
        k < LENS_COUNT,
    ensures
        l.name@ == lens_name(k as int),
{
    if k == 0 {
        Lens {
            name: "literal",
            directive: "Read the claim at face value. Take the plain, ordinary meaning of its words and judge whether that literal reading holds — do not silently repair it into a more defensible claim than what was written.",
        }
    } else if k == 1 {
        Lens {
            name: "counterexample",
            directive: "Actively hunt for a single case, edge condition, or boundary where the claim fails. If you can name one concrete counterexample, the claim as stated is refuted; if a determined search finds none, that supports it.",
        }
    } else if k == 2 {
        Lens {
            name: "definitional",
            directive: "Scrutinize the key terms. Is the claim true only under a loose, shifted, or idiosyncratic definition of its words, and false under the standard one? Pin down what each term must mean for the claim to hold.",
        }
    } else if k == 3 {
        Lens {
            name: "evidential",
            directive: "Ask what would have to be true for this claim to hold, and whether that is actually established or merely assumed. Distinguish what is demonstrated from what is asserted without support.",
        }
    } else {
        Lens {
            name: "scope",
            directive: "Test for overgeneralization. Is the claim true in some cases but asserted as universal — quantifier creep from \"sometimes\" or \"often\" to \"always\"? Judge whether the breadth claimed is the breadth justified.",
        }
    }
}

/// The fixed lens set, in pass order.
pub fn lenses() -> (r: Vec<Lens>)
    ensures
        r@.len() == LENS_COUNT,
        forall|k: int| 0 <= k < 5 ==> (#[trigger] r@[k]).name@ == lens_name(k),
{
    let mut r: Vec<Lens> = Vec::new();
    let mut k: usize = 0;
    while k < LENS_COUNT
        invariant
            0 <= k <= 5,
            r@.len() == k,
            forall|j: int| 0 <= j < k ==> (#[trigger] r@[j]).name@ == lens_name(j),
        decreases 5 - k,
    {
        r.push(lens_at(k));
        k = k + 1;
    }
    r
}

/// The lens pass `i` uses: the set cycles deterministically.
pub fn lens_for_pass(i: usize) -> (l: Lens)
    ensures
        l.name@ == lens_name((i % LENS_COUNT) as int),
{
    lens_at(i % LENS_COUNT)
}

/// Lens names are pairwise distinct, so the first five passes scrutinize
/// under five different lenses, and pass `i` reuses lens `i % 5`.
pub proof fn lemma_lens_names_distinct(a: int, b: int)
    requires
        0 <= a < 5,
        0 <= b < 5,
        a != b,
    ensures
        lens_name(a) != lens_name(b),
{
    reveal_strlit("literal");
    reveal_strlit("counterexample");
    reveal_strlit("definitional");
    reveal_strlit("evidential");
    reveal_strlit("scope");
    assert("literal"@.len() != "counterexample"@.len());
    assert("literal"@.len() != "definitional"@.len());
    assert("literal"@.len() != "evidential"@.len());
    assert("literal"@.len() != "scope"@.len());
    assert("counterexample"@.len() != "definitional"@.len());
    assert("counterexample"@.len() != "evidential"@.len());
    assert("counterexample"@.len() != "scope"@.len());
    assert("definitional"@.len() != "evidential"@.len());
    assert("definitional"@.len() != "scope"@.len());
    assert("evidential"@.len() != "scope"@.len());
}

/// The text a pass's `<<lens>>` slot carries: `name: directive`.
pub fn lens_text(l: Lens) -> (r: String)
    ensures
        r@ == l.name@ + ": "@ + l.directive@,
{
    let mut v = chars_of(l.name);
    append_str(&mut v, ": ");
    append_str(&mut v, l.directive);
    string_of(v.as_slice())
}

/// Tool input.
#[derive(Debug, Clone)]
pub struct VerifyParams {
    /// The claim to verify, stated neutrally.
    pub claim: String,
    /// Optional supporting context the verifier may consult.
    pub context: Option<String>,
    /// Reasoning effort for this call alone.
    pub effort: Option<Effort>,
    /// Independent passes for this call alone (at least 1, at most the
    /// configured count).
    pub passes: Option<u8>,
}

/// Verdict status.
#[derive(Debug, Clone, Copy, PartialEq, Eq, Structural)]
pub enum VerdictKind {
    /// The claim holds under its strongest reading.
    Supported,
    /// The claim contains at least one named concrete error.
    Refuted,
}

/// What each pass is constrained to produce.
#[derive(Debug, Clone)]
pub struct PassVerdict {
    /// supported or refuted.
    pub verdict: VerdictKind,
    /// Specific findings; non-empty when refuting.
    pub findings: Vec<String>,
}

/// The aggregated tool output. The confidence is the agreement ratio
/// `agreeing / passes`, computed by the server, never self-reported.
#[derive(Debug, Clone)]
pub struct Verdict {
    /// Majority verdict across passes; ties resolve to refuted.
    pub verdict: VerdictKind,
    /// Deduplicated findings from the majority-side passes.
    pub findings: Vec<String>,
    /// Passes on the majority side.
    pub agreeing: u32,
    /// Number of verification passes that completed.
    pub passes: u32,
}

/// One Verify run: the aggregated verdict plus summed token usage.
#[derive(Debug)]
pub struct VerifyRun {
    /// The aggregated verdict.
    pub verdict: Verdict,
    /// Input tokens summed across completed passes.
    pub input_tokens: u64,
    /// Output tokens summed across completed passes.
    pub output_tokens: u64,
}

/// The prompt with its three slots filled, in order: lens, claim, context.
pub open spec fn spec_prompt(t: Seq<char>, lens: Seq<char>, claim: Seq<char>, context: Seq<char>) -> Seq<char> {
    replace_all(
        replace_all(replace_all(t, "<<lens>>"@, lens), "<<claim>>"@, claim),
        "<<context>>"@,
        context,
    )
}

/// The view of an optional text, empty when absent.
pub open spec fn opt_text(o: Option<&str>) -> Seq<char> {
    match o {
        Some(s) => s@,
        None => Seq::empty(),
    }
}

/// Build the per-pass prompt. The lens, the claim and the context are the
/// only dynamic content.
pub fn build_prompt(template: &str, lens: &str, claim: &str, context: Option<&str>) -> (r: String)
    ensures
        r@ == spec_prompt(template@, lens@, claim@, opt_text(context)),
{
    proof {
        reveal_strlit("<<lens>>");
        reveal_strlit("<<claim>>");
        reveal_strlit("<<context>>");
    }
    let t = chars_of(template);
    let t = super::fill(t.as_slice(), "<<lens>>", lens);
    let t = super::fill(t.as_slice(), "<<claim>>", claim);
    let t = match context {
        Some(c) => super::fill(t.as_slice(), "<<context>>", c),
        None => {
            proof {
                reveal_strlit("");
            }
            assert(""@ =~= Seq::<char>::empty());
            super::fill(t.as_slice(), "<<context>>", "")
        },
    };
    string_of(t.as_slice())
}

/// Character length of an optional text.
pub open spec fn opt_len(o: Option<String>) -> nat {
    match o {
        Some(s) => s@.len(),
        None => 0,
    }
}

/// Validate input before any model call: a blank claim is rejected, and the
/// claim and context together must fit the bound (never silently trimmed).
pub fn check_input(params: &VerifyParams, max_claim_chars: usize) -> (r: Result<(), AppError>)
    ensures
        r is Ok <==> !is_blank_seq(params.claim@) && params.claim@.len() + opt_len(params.context)
            <= max_claim_chars,
        r matches Err(e) ==> (is_blank_seq(params.claim@) ==> invalid_input_is(
            e,
            "claim is empty or whitespace-only"@,
        )) && (!is_blank_seq(params.claim@) ==> invalid_input_is(
            e,
            super::combined_message(
                params.claim@.len() + opt_len(params.context),
                max_claim_chars as nat,
            ),
        )),
{
    if str_is_blank(params.claim.as_str()) {
        return Err(AppError::InvalidInput("claim is empty or whitespace-only".to_string()));
    }
    let claim_len = crate::text::char_count(params.claim.as_str()) as u128;
    let context_len = match &params.context {
        Some(c) => crate::text::char_count(c.as_str()) as u128,
        None => 0,
    };
    let total = claim_len + context_len;
    if total > max_claim_chars as u128 {
        return Err(super::combined_too_long(total, max_claim_chars));
    }
    Ok(())
}

/// Every finding is blank.
pub open spec fn all_blank(fs: Seq<Seq<char>>) -> bool {
    forall|i: int| 0 <= i < fs.len() ==> is_blank_seq(#[trigger] fs[i])
}

/// The calibrated profile's hard rule: a refutation with no named error is
/// not evidence, so the pass failed.
pub fn check_pass(pass: &PassVerdict) -> (r: Result<(), AppError>)
    ensures
        r is Err <==> pass.verdict == VerdictKind::Refuted && all_blank(strs_of(pass.findings@)),
        r matches Err(e) ==> validation_failure_is(e, "refutation without a named concrete error"@),
{
    if pass.verdict == VerdictKind::Refuted {
        let mut i: usize = 0;
        while i < pass.findings.len()
            invariant
                0 <= i <= pass.findings@.len(),
                forall|j: int| 0 <= j < i ==> is_blank_seq(#[trigger] strs_of(pass.findings@)[j]),
            decreases pass.findings@.len() - i,
        {
            if !str_is_blank(pass.findings[i].as_str()) {
                assert(!is_blank_seq(strs_of(pass.findings@)[i as int]));
                return Ok(());
            }
            i = i + 1;
        }
        return Err(AppError::ValidationFailure("refutation without a named concrete error".to_string()));
    }
    Ok(())
}


/// Number of failures whose outcome class is `o`.
pub open spec fn class_count(fs: Seq<AppError>, o: Outcome) -> nat
    decreases fs.len(),
{
    if fs.len() == 0 {
        0
    } else {
        class_count(fs.drop_last(), o) + (if spec_outcome(fs.last()) == o {
            1nat
        } else {
            0nat
        })
    }
}

/// Failure `i` is of a most frequent class, and no earlier failure is.
pub open spec fn is_dominant_at(fs: Seq<AppError>, i: int) -> bool {
    &&& 0 <= i < fs.len()
    &&& forall|j: int|
        0 <= j < fs.len() ==> class_count(fs, spec_outcome(#[trigger] fs[j])) <= class_count(
            fs,
            spec_outcome(fs[i]),
        )
    &&& forall|j: int|
        0 <= j < i ==> class_count(fs, spec_outcome(#[trigger] fs[j])) < class_count(
            fs,
            spec_outcome(fs[i]),
        )
}

/// The index of the first failure of a most frequent class.
pub open spec fn dominant_index(fs: Seq<AppError>) -> int {
    choose|i: int| is_dominant_at(fs, i)
}

/// At most one index is dominant.
pub proof fn lemma_dominant_unique(fs: Seq<AppError>, i: int, j: int)
    requires
        is_dominant_at(fs, i),
        is_dominant_at(fs, j),
    ensures
        i == j,
{
    if i < j {
        assert(class_count(fs, spec_outcome(fs[i])) < class_count(fs, spec_outcome(fs[j])));
    } else if j < i {
        assert(class_count(fs, spec_outcome(fs[j])) < class_count(fs, spec_outcome(fs[i])));
    }
}

/// The message when there is no failure to report.
pub open spec fn no_failure_message() -> Seq<char> {
    "no passes completed and no failure recorded"@
}

/// `r` is the dominant failure of `fs`: the first failure of a most
/// frequent class, or a validation failure when there is none.
pub open spec fn dominant_is(r: AppError, fs: Seq<AppError>) -> bool {
    &&& fs.len() == 0 ==> validation_failure_is(r, no_failure_message())
    &&& fs.len() > 0 ==> r == fs[dominant_index(fs)]
}

/// Saturating sum of the billed input tokens of `fs`, starting from `acc`.
pub open spec fn billed_in_sum(fs: Seq<AppError>, acc: u64) -> u64
    decreases fs.len(),
{
    if fs.len() == 0 {
        acc
    } else {
        sat_add(billed_in_sum(fs.drop_last(), acc), spec_billed(fs.last()).0)
    }
}

/// Saturating sum of the billed output tokens of `fs`, starting from `acc`.
pub open spec fn billed_out_sum(fs: Seq<AppError>, acc: u64) -> u64
    decreases fs.len(),
{
    if fs.len() == 0 {
        acc
    } else {
        sat_add(billed_out_sum(fs.drop_last(), acc), spec_billed(fs.last()).1)
    }
}

/// `r` is the dominant failure of `fs`, stripped of its own usage, carrying
/// every token billed by the round: those of `fs` and the completed ones.
pub open spec fn dominant_metered_is(r: AppError, fs: Seq<AppError>, cin: u64, cout: u64) -> bool {
    let tin = billed_in_sum(fs, cin);
    let tout = billed_out_sum(fs, cout);
    &&& fs.len() == 0 ==> validation_failure_is(spec_unmetered(r), no_failure_message())
        && spec_billed(r) == (tin, tout)
    &&& fs.len() > 0 ==> {
        let u = spec_unmetered(fs[dominant_index(fs)]);
        &&& spec_unmetered(r) == spec_unmetered(u)
        &&& spec_billed(r) == (sat_add(spec_billed(u).0, tin), sat_add(spec_billed(u).1, tout))
    }
}

/// Count the failures of class `o`.
fn count_class(fs: &Vec<AppError>, o: Outcome) -> (c: usize)
    ensures
        c == class_count(fs@, o),
{
    let mut c: usize = 0;
    let mut j: usize = 0;
    while j < fs.len()
        invariant
            0 <= j <= fs@.len(),
            c <= j,
            c == class_count(fs@.subrange(0, j as int), o),
        decreases fs@.len() - j,
    {
        assert(fs@.subrange(0, j + 1).drop_last() =~= fs@.subrange(0, j as int));
        if fs[j].outcome() == o {
            c = c + 1;
        }
        j = j + 1;
    }
    assert(fs@.subrange(0, fs@.len() as int) =~= fs@);
    c
}

/// Pick the first failure of the most frequent class, ignoring usage; a
/// validation failure when the set is empty.
pub fn dominant_failure(failures: Vec<AppError>) -> (r: AppError)
    ensures
        dominant_is(r, failures@),
{
    let n = failures.len();
    if n == 0 {
        return AppError::ValidationFailure("no passes completed and no failure recorded".to_string());
    }
    let mut best_i: usize = 0;
    let mut best_c: usize = count_class(&failures, failures[0].outcome());
    let mut i: usize = 1;
    while i < n
        invariant
            n == failures@.len(),
            1 <= i <= n,
            best_i < i,
            best_c == class_count(failures@, spec_outcome(failures@[best_i as int])),
            forall|j: int|
                0 <= j < i ==> class_count(failures@, spec_outcome(#[trigger] failures@[j]))
                    <= best_c,
            forall|j: int|
                0 <= j < best_i ==> class_count(failures@, spec_outcome(#[trigger] failures@[j]))
                    < best_c,
        decreases n - i,
    {
        let c = count_class(&failures, failures[i].outcome());
        if c > best_c {
            best_i = i;
            best_c = c;
        }
        i = i + 1;
    }
    proof {
        assert(is_dominant_at(failures@, best_i as int));
        lemma_dominant_unique(failures@, best_i as int, dominant_index(failures@));
    }
    let mut failures = failures;
    failures.remove(best_i)
}

/// The dominant failure with any usage it carried stripped.
pub fn dominant_failure_unmetered(failures: Vec<AppError>) -> (r: AppError)
    ensures
        failures@.len() == 0 ==> validation_failure_is(r, no_failure_message()),
        failures@.len() > 0 ==> r == spec_unmetered(failures@[dominant_index(failures@)]),
{
    dominant_failure(failures).unmetered()
}

/// The dominant failure carrying every token of the round: the completed
/// passes' tokens plus all that the failures carried, saturating.
pub fn dominant_failure_metered(failures: Vec<AppError>, completed: (u64, u64)) -> (r: AppError)
    ensures
        dominant_metered_is(r, failures@, completed.0, completed.1),
{
    let mut tin: u64 = completed.0;
    let mut tout: u64 = completed.1;
    let mut j: usize = 0;
    while j < failures.len()
        invariant
            0 <= j <= failures@.len(),
            tin == billed_in_sum(failures@.subrange(0, j as int), completed.0),
            tout == billed_out_sum(failures@.subrange(0, j as int), completed.1),
        decreases failures@.len() - j,
    {
        assert(failures@.subrange(0, j + 1).drop_last() =~= failures@.subrange(0, j as int));
        let b = failures[j].billed();
        tin = tin.saturating_add(b.0);
        tout = tout.saturating_add(b.1);
        j = j + 1;
    }
    assert(failures@.subrange(0, failures@.len() as int) =~= failures@);
    let ghost fs = failures@;
    let u = dominant_failure_unmetered(failures);
    u.metered(tin, tout)
}


/// One completed pass reduced to what aggregation needs: its verdict, its
/// findings, and its (input, output) token usage.
pub type PassTuple = (VerdictKind, Vec<String>, u64, u64);

/// Number of completed passes.
pub open spec fn completed_count(ps: Seq<Result<PassTuple, AppError>>) -> nat
    decreases ps.len(),
{
    if ps.len() == 0 {
        0
    } else {
        completed_count(ps.drop_last()) + (if ps.last() is Ok {
            1nat
        } else {
            0nat
        })
    }
}

/// Number of completed passes that refuted.
pub open spec fn refuted_count(ps: Seq<Result<PassTuple, AppError>>) -> nat
    decreases ps.len(),
{
    if ps.len() == 0 {
        0
    } else {
        refuted_count(ps.drop_last()) + (if ps.last() matches Ok(t) && t.0 == VerdictKind::Refuted {
            1nat
        } else {
            0nat
        })
    }
}

/// Input tokens summed over completed passes.
pub open spec fn input_sum(ps: Seq<Result<PassTuple, AppError>>) -> nat
    decreases ps.len(),
{
    if ps.len() == 0 {
        0
    } else {
        input_sum(ps.drop_last()) + match ps.last() {
            Ok(t) => t.2 as nat,
            Err(_) => 0nat,
        }
    }
}

/// Output tokens summed over completed passes.
pub open spec fn output_sum(ps: Seq<Result<PassTuple, AppError>>) -> nat
    decreases ps.len(),
{
    if ps.len() == 0 {
        0
    } else {
        output_sum(ps.drop_last()) + match ps.last() {
            Ok(t) => t.3 as nat,
            Err(_) => 0nat,
        }
    }
}

/// The failed passes' errors, in order.
pub open spec fn failures_of(ps: Seq<Result<PassTuple, AppError>>) -> Seq<AppError>
    decreases ps.len(),
{
    if ps.len() == 0 {
        Seq::empty()
    } else {
        match ps.last() {
            Ok(_) => failures_of(ps.drop_last()),
            Err(e) => failures_of(ps.drop_last()).push(e),
        }
    }
}

/// Append to `acc`, in order, each finding of `fs` that is not blank and not
/// already present.
pub open spec fn add_findings(acc: Seq<Seq<char>>, fs: Seq<Seq<char>>) -> Seq<Seq<char>>
    decreases fs.len(),
{
    if fs.len() == 0 {
        acc
    } else {
        let a = add_findings(acc, fs.drop_last());
        let f = fs.last();
        if !is_blank_seq(f) && !a.contains(f) {
            a.push(f)
        } else {
            a
        }
    }
}

/// The findings of the completed passes whose verdict is `v`, deduplicated
/// in first-seen order, blanks dropped.
pub open spec fn side_findings(ps: Seq<Result<PassTuple, AppError>>, v: VerdictKind) -> Seq<Seq<char>>
    decreases ps.len(),
{
    if ps.len() == 0 {
        Seq::empty()
    } else {
        let a = side_findings(ps.drop_last(), v);
        match ps.last() {
            Ok(t) => if t.0 == v {
                add_findings(a, strs_of(t.1@))
            } else {
                a
            },
            Err(_) => a,
        }
    }
}

/// Ceiling of half the ensemble: the completed passes a verdict needs.
pub open spec fn quorum(k: u8) -> nat {
    ((k as nat) + 1) / 2
}

/// The quorum is half the ensemble rounded up: the fewest completed passes
/// that are at least half of `k`. So an aggregate needs completed passes
/// making up at least half the ensemble, and no more (two passes with one
/// failed still give a verdict).
pub proof fn lemma_quorum_is_half_up(k: u8)
    ensures
        quorum(k) * 2 >= k,
        (quorum(k) - 1) * 2 < k,
        forall|n: nat| n >= quorum(k) <==> #[trigger] (n * 2) >= k,
{
    assert forall|n: nat| n >= quorum(k) <==> #[trigger] (n * 2) >= k by {
        if n >= quorum(k) {
            assert(n * 2 >= quorum(k) * 2);
        } else {
            assert(n <= quorum(k) - 1);
            assert(n * 2 <= (quorum(k) - 1) * 2);
        }
    }
}

/// The majority verdict; a tie resolves toward scrutiny.
pub open spec fn majority_verdict(refuted: nat, supported: nat) -> VerdictKind {
    if refuted >= supported {
        VerdictKind::Refuted
    } else {
        VerdictKind::Supported
    }
}

/// The note appended to the findings when the passes split evenly.
pub open spec fn tie_note(refuted: nat, supported: nat) -> Seq<char> {
    "Note: passes split "@ + decimal(refuted) + "-"@ + decimal(supported)
        + " between refuted and supported; resolving toward scrutiny (refuted)."@
}

/// The aggregated findings: the majority side's, plus the tie note on a tie.
pub open spec fn verdict_findings(ps: Seq<Result<PassTuple, AppError>>) -> Seq<Seq<char>> {
    let r = refuted_count(ps);
    let s = (completed_count(ps) - r) as nat;
    let f = side_findings(ps, majority_verdict(r, s));
    if r == s {
        f.push(tie_note(r, s))
    } else {
        f
    }
}

/// `run` is the aggregate of the completed passes of `ps`.
pub open spec fn run_is(run: VerifyRun, ps: Seq<Result<PassTuple, AppError>>) -> bool {
    let r = refuted_count(ps);
    let s = (completed_count(ps) - r) as nat;
    &&& run.verdict.verdict == majority_verdict(r, s)
    &&& strs_of(run.verdict.findings@) == verdict_findings(ps)
    &&& run.verdict.agreeing == (if r >= s {
        r
    } else {
        s
    })
    &&& run.verdict.passes == completed_count(ps)
    &&& run.input_tokens == input_sum(ps)
    &&& run.output_tokens == output_sum(ps)
}

/// Refuted passes are among the completed ones.
pub proof fn lemma_refuted_le_completed(ps: Seq<Result<PassTuple, AppError>>)
    ensures
        refuted_count(ps) <= completed_count(ps) <= ps.len(),
    decreases ps.len(),
{
    if ps.len() > 0 {
        lemma_refuted_le_completed(ps.drop_last());
    }
}

/// Deduplicate the findings of `fs` into `acc`.
pub(crate) fn push_findings(acc: &mut Vec<String>, fs: &Vec<String>)
    ensures
        strs_of(final(acc)@) == add_findings(strs_of(old(acc)@), strs_of(fs@)),
{
    let ghost a0 = strs_of(acc@);
    let mut i: usize = 0;
    while i < fs.len()
        invariant
            0 <= i <= fs@.len(),
            strs_of(acc@) == add_findings(a0, strs_of(fs@).subrange(0, i as int)),
        decreases fs@.len() - i,
    {
        assert(strs_of(fs@).subrange(0, i + 1).drop_last() =~= strs_of(fs@).subrange(0, i as int));
        let f = &fs[i];
        if !str_is_blank(f.as_str()) {
            let mut present = false;
            let mut j: usize = 0;
            while j < acc.len()
                invariant
                    0 <= j <= acc@.len(),
                    present <==> strs_of(acc@).subrange(0, j as int).contains(f@),
                decreases acc@.len() - j,
            {
                if acc[j] == *f {
                    assert(strs_of(acc@).subrange(0, j + 1)[j as int] == f@);
                    present = true;
                } else {
                    assert(strs_of(acc@).subrange(0, j + 1) =~= strs_of(acc@).subrange(
                        0,
                        j as int,
                    ).push(acc@[j as int]@));
                }
                j = j + 1;
            }
            assert(strs_of(acc@).subrange(0, acc@.len() as int) =~= strs_of(acc@));
            if !present {
                let ghost before = strs_of(acc@);
                acc.push(f.clone());
                assert(strs_of(acc@) =~= before.push(f@));
            }
        }
        i = i + 1;
    }
    assert(strs_of(fs@).subrange(0, fs@.len() as int) =~= strs_of(fs@));
}

/// Aggregate the passes: below a quorum of completed passes the dominant
/// failure is returned carrying every billed token; otherwise the majority
/// verdict (ties toward refuted, noted), the majority side's deduplicated
/// findings, the agreeing count over the completed count, and summed usage.
pub fn aggregate_core(passes: Vec<Result<PassTuple, AppError>>, k: u8) -> (r: Result<VerifyRun, AppError>)
    requires
        passes@.len() <= u32::MAX,
        input_sum(passes@) <= u64::MAX,
        output_sum(passes@) <= u64::MAX,
    ensures
        completed_count(passes@) < quorum(k) ==> (r matches Err(e) && dominant_metered_is(
            e,
            failures_of(passes@),
            input_sum(passes@) as u64,
            output_sum(passes@) as u64,
        )),
        completed_count(passes@) >= quorum(k) ==> (r matches Ok(run) && run_is(run, passes@)),
        r is Ok <==> completed_count(passes@) * 2 >= k,
{
    proof {
        lemma_quorum_is_half_up(k);
    }
    let ghost ps = passes@;
    let n = passes.len();
    let mut completed: usize = 0;
    let mut refuted: usize = 0;
    let mut tin: u64 = 0;
    let mut tout: u64 = 0;
    let mut i: usize = 0;
    while i < n
        invariant
            n == ps.len(),
            ps == passes@,
            ps.len() <= u32::MAX,
            input_sum(ps) <= u64::MAX,
            output_sum(ps) <= u64::MAX,
            0 <= i <= n,
            completed == completed_count(ps.subrange(0, i as int)),
            refuted == refuted_count(ps.subrange(0, i as int)),
            tin == input_sum(ps.subrange(0, i as int)),
            tout == output_sum(ps.subrange(0, i as int)),
        decreases n - i,
    {
        let ghost pre = ps.subrange(0, i as int);
        let ghost nxt = ps.subrange(0, i + 1);
        assert(nxt.drop_last() =~= pre);
        proof {
            lemma_refuted_le_completed(pre);
            lemma_sum_prefix_le(ps, i + 1);
        }
        match &passes[i] {
            Ok(t) => {
                completed = completed + 1;
                if t.0 == VerdictKind::Refuted {
                    refuted = refuted + 1;
                }
                tin = tin + t.2;
                tout = tout + t.3;
            },
            Err(_) => {},
        }
        i = i + 1;
    }
    assert(ps.subrange(0, n as int) =~= ps);
    proof {
        lemma_refuted_le_completed(ps);
    }
    let q: usize = ((k as usize) + 1) / 2;
    if completed < q {
        let mut failures: Vec<AppError> = Vec::new();
        let mut rest = passes;
        let mut j: usize = 0;
        while j < n
            invariant
                n == ps.len(),
                0 <= j <= n,
                rest@ == ps.subrange(j as int, n as int),
                failures@ == failures_of(ps.subrange(0, j as int)),
            decreases n - j,
        {
            assert(ps.subrange(0, j + 1).drop_last() =~= ps.subrange(0, j as int));
            let p = rest.remove(0);
            assert(rest@ =~= ps.subrange(j + 1, n as int));
            match p {
                Ok(_) => {},
                Err(e) => {
                    failures.push(e);
                },
            }
            j = j + 1;
        }
        return Err(dominant_failure_metered(failures, (tin, tout)));
    }
    let supported: usize = completed - refuted;
    let verdict = if refuted >= supported {
        VerdictKind::Refuted
    } else {
        VerdictKind::Supported
    };
    let mut findings: Vec<String> = Vec::new();
    let mut i: usize = 0;
    while i < n
        invariant
            n == ps.len(),
            ps == passes@,
            0 <= i <= n,
            strs_of(findings@) == side_findings(ps.subrange(0, i as int), verdict),
        decreases n - i,
    {
        assert(ps.subrange(0, i + 1).drop_last() =~= ps.subrange(0, i as int));
        match &passes[i] {
            Ok(t) => {
                if t.0 == verdict {
                    push_findings(&mut findings, &t.1);
                }
            },
            Err(_) => {},
        }
        i = i + 1;
    }
    if refuted == supported {
        let mut m: Vec<char> = Vec::new();
        append_str(&mut m, "Note: passes split ");
        append_decimal(&mut m, refuted as u64);
        append_str(&mut m, "-");
        append_decimal(&mut m, supported as u64);
        append_str(&mut m, " between refuted and supported; resolving toward scrutiny (refuted).");
        let ghost before = strs_of(findings@);
        let note = string_of(m.as_slice());
        findings.push(note);
        assert(strs_of(findings@) =~= before.push(note@));
    }
    let agreeing: usize = if refuted >= supported {
        refuted
    } else {
        supported
    };
    Ok(
        VerifyRun {
            verdict: Verdict {
                verdict,
                findings,
                agreeing: agreeing as u32,
                passes: completed as u32,
            },
            input_tokens: tin,
            output_tokens: tout,
        },
    )
}

/// Token sums over a prefix never exceed those over the whole.
pub proof fn lemma_sum_prefix_le(ps: Seq<Result<PassTuple, AppError>>, i: int)
    requires
        0 <= i <= ps.len(),
    ensures
        input_sum(ps.subrange(0, i)) <= input_sum(ps),
        output_sum(ps.subrange(0, i)) <= output_sum(ps),
    decreases ps.len() - i,
{
    if i < ps.len() {
        lemma_sum_prefix_le(ps, i + 1);
        assert(ps.subrange(0, i + 1).drop_last() =~= ps.subrange(0, i));
    } else {
        assert(ps.subrange(0, i) =~= ps);
    }
}


/// Adding findings keeps the list free of blanks and repeats.
pub proof fn lemma_add_findings_clean(acc: Seq<Seq<char>>, fs: Seq<Seq<char>>)
    requires
        acc.no_duplicates(),
        forall|i: int| 0 <= i < acc.len() ==> !is_blank_seq(#[trigger] acc[i]),
    ensures
        add_findings(acc, fs).no_duplicates(),
        forall|i: int|
            0 <= i < add_findings(acc, fs).len() ==> !is_blank_seq(#[trigger] add_findings(acc, fs)[i]),
    decreases fs.len(),
{
    if fs.len() > 0 {
        lemma_add_findings_clean(acc, fs.drop_last());
        let a = add_findings(acc, fs.drop_last());
        let f = fs.last();
        if !is_blank_seq(f) && !a.contains(f) {
            let q = a.push(f);
            assert forall|x: int, y: int| 0 <= x < q.len() && 0 <= y < q.len() && x != y implies q[x]
                != q[y] by {
                if x == a.len() {
                    assert(a[y] != f);
                } else if y == a.len() {
                    assert(a[x] != f);
                }
            }
        }
    }
}

/// The findings of one side are never blank and never repeated, whichever
/// passes produced them.
pub proof fn lemma_side_findings_clean(ps: Seq<Result<PassTuple, AppError>>, v: VerdictKind)
    ensures
        side_findings(ps, v).no_duplicates(),
        forall|i: int|
            0 <= i < side_findings(ps, v).len() ==> !is_blank_seq(#[trigger] side_findings(ps, v)[i]),
    decreases ps.len(),
{
    if ps.len() > 0 {
        lemma_side_findings_clean(ps.drop_last(), v);
        match ps.last() {
            Ok(t) => {
                if t.0 == v {
                    lemma_add_findings_clean(side_findings(ps.drop_last(), v), strs_of(t.1@));
                }
            },
            Err(_) => {},
        }
    }
}

/// The majority side holds at least half the completed passes, a tie
/// resolves toward scrutiny (refuted), and a unanimous panel agrees fully.
pub proof fn lemma_majority(ps: Seq<Result<PassTuple, AppError>>)
    ensures
        ({
            let r = refuted_count(ps);
            let s = (completed_count(ps) - r) as nat;
            let agreeing = if r >= s {
                r
            } else {
                s
            };
            &&& 2 * agreeing >= completed_count(ps)
            &&& agreeing <= completed_count(ps)
            &&& r == s ==> majority_verdict(r, s) == VerdictKind::Refuted
            &&& (r == 0 || s == 0) ==> agreeing == completed_count(ps)
        }),
{
    lemma_refuted_le_completed(ps);
}

/// The first failure of a most frequent class among the first `n`, counts
/// taken over the whole list.
proof fn first_max_index(fs: Seq<AppError>, n: int) -> (i: int)
    requires
        0 < n <= fs.len(),
    ensures
        0 <= i < n,
        forall|j: int|
            0 <= j < n ==> class_count(fs, spec_outcome(#[trigger] fs[j])) <= class_count(
                fs,
                spec_outcome(fs[i]),
            ),
        forall|j: int|
            0 <= j < i ==> class_count(fs, spec_outcome(#[trigger] fs[j])) < class_count(
                fs,
                spec_outcome(fs[i]),
            ),
    decreases n,
{
    if n == 1 {
        0
    } else {
        let k = first_max_index(fs, n - 1);
        if class_count(fs, spec_outcome(fs[n - 1])) > class_count(fs, spec_outcome(fs[k])) {
            n - 1
        } else {
            k
        }
    }
}

/// Every non-empty failure list has a dominant failure: one of a most
/// frequent class, the first of that class.
pub proof fn lemma_dominant_exists(fs: Seq<AppError>)
    requires
        fs.len() > 0,
    ensures
        is_dominant_at(fs, dominant_index(fs)),
        forall|j: int|
            0 <= j < fs.len() ==> class_count(fs, spec_outcome(#[trigger] fs[j])) <= class_count(
                fs,
                spec_outcome(fs[dominant_index(fs)]),
            ),
{
    let i = first_max_index(fs, fs.len() as int);
    assert(is_dominant_at(fs, i));
}

} // verus!
