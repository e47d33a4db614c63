//! The grounded Verify corrective: a claim judged against verbatim source the
//! server read itself, aggregated like Verify, with the missing evidence the
//! passes name and an inconclusive verdict when a computation decides it.
use vstd::prelude::*;
use vstd::std_specs::convert::FromSpecImpl;
use crate::error::{invalid_input_is, validation_failure_is, AppError};
use crate::modes::verify::{
    add_findings, aggregate_core, completed_count, dominant_metered_is, failures_of, input_sum,
    output_sum, quorum, run_is, PassTuple, VerdictKind, VerifyRun,
};
use crate::text::{
    append_decimal, append_str, char_count, chars_of, decimal, is_blank_seq, replace_all,
    str_is_blank, string_of, strs_of,
};

verus! {

/// Tool id as exposed over MCP.
pub const GROUNDED_VERIFY_ID: &'static str = "grounded_verify";

/// The MCP tool description.
pub const GROUNDED_VERIFY_DESCRIPTION: &'static str = "Verify a claim against verbatim source you name. You give a claim and a set of source locators (file paths or file/line ranges within the configured root); the server reads that exact text and runs independent stance-blind passes over it - you cannot paraphrase or bias the evidence. Returns a verdict (supported/refuted), findings citing the source, a confidence from cross-pass agreement, an evidence manifest of exactly what was read, and a completeness signal naming any evidence you did not provide. Use when a claim must be checked against source you should not be trusted to summarize.";

/// The grounded verifier profile: slots for the claim and the evidence only.
pub const PROMPT_TEMPLATE: &'static str = "You are an independent verifier. Judge the claim below strictly against the SOURCE EVIDENCE provided - verbatim excerpts from named files. You know nothing about who made the claim or how confident they are.\n\nRules:\n1. Judge ONLY against the evidence shown. If the evidence supports the claim under its strongest reading, support it; if it contradicts the claim, refute it.\n2. Every finding in a refutation must name the specific contradiction and point to the file (and lines) in the evidence. Vague doubt is not a finding.\n3. In `missing_evidence`, name any source you would need to judge the claim fully that is NOT present in the evidence (for example, \"the definition of the function under test\"). Leave it empty when the evidence is sufficient. Do not refuse for missing evidence - judge on what is present and list what is missing.\n4. Set `needs_computation` to true ONLY when the claim's truth hinges on an exact computation over the source that you cannot perform reliably by reading - a precise line count, a count of matches, a byte/size measure, or a numeric comparison that depends on such a count. In that case a deterministic engine, not a reader's estimate, must decide it. Set it false for ordinary judgment claims about what the source says or does.\n5. Findings and missing_evidence entries are self-contained single sentences.\n\nClaim to verify:\n<<claim>>\n\nSource evidence (verbatim):\n<<evidence>>\n";

/// A source the caller names: a path or a glob under the configured root,
/// optionally narrowed to a line range.
#[derive(Debug, Clone)]
pub struct SourceLocator {
    /// A file path relative to the root.
    pub path: Option<String>,
    /// A glob relative to the root.
    pub glob: Option<String>,
    /// First line of the range (1-based, inclusive).
    pub start_line: Option<u32>,
    /// Last line of the range (inclusive).
    pub end_line: Option<u32>,
}

/// Tool input.
#[derive(Debug, Clone)]
pub struct GroundedVerifyParams {
    /// The claim to verify, stated neutrally.
    pub claim: String,
    /// The sources to judge it against.
    pub locators: Vec<SourceLocator>,
}

/// What each pass is constrained to produce.
#[derive(Debug, Clone)]
pub struct GroundedPass {
    /// supported or refuted.
    pub verdict: VerdictKind,
    /// Findings citing the source; non-empty when refuting.
    pub findings: Vec<String>,
    /// Evidence the pass needed and was not given.
    pub missing_evidence: Vec<String>,
    /// The claim hinges on an exact computation over the source.
    pub needs_computation: bool,
    /// What to count: "lines", "bytes" or "matches".
    pub compute_property: Option<String>,
    /// The literal to count, for "matches".
    pub compute_match_literal: Option<String>,
    /// The comparison: ">", ">=", "<", "<=", "==" or "!=".
    pub compute_operator: Option<String>,
    /// The value the count is compared with.
    pub compute_threshold: Option<i64>,
}

/// The grounded verdict, where a computable claim is inconclusive.
#[derive(Debug, Clone, Copy, PartialEq, Eq, Structural)]
pub enum GroundedVerdictKind {
    /// The evidence supports the claim.
    Supported,
    /// The evidence contradicts the claim.
    Refuted,
    /// A majority of passes found the claim to hinge on a computation.
    Inconclusive,
}

/// The grounded verdict of a pass verdict.
pub open spec fn grounded_of(v: VerdictKind) -> GroundedVerdictKind {
    match v {
        VerdictKind::Supported => GroundedVerdictKind::Supported,
        VerdictKind::Refuted => GroundedVerdictKind::Refuted,
    }
}

impl From<VerdictKind> for GroundedVerdictKind {
    fn from(v: VerdictKind) -> (r: Self) {
        match v {
            VerdictKind::Supported => GroundedVerdictKind::Supported,
            VerdictKind::Refuted => GroundedVerdictKind::Refuted,
        }
    }
}

impl FromSpecImpl<VerdictKind> for GroundedVerdictKind {
    open spec fn obeys_from_spec() -> bool {
        true
    }

    open spec fn from_spec(v: VerdictKind) -> Self {
        grounded_of(v)
    }
}

/// The aggregated output. The evidence manifest of what was read is
/// attached by the reader that assembled it.
#[derive(Debug, Clone)]
pub struct GroundedVerdict {
    /// Majority verdict, or inconclusive for a computable claim.
    pub verdict: GroundedVerdictKind,
    /// Deduplicated findings from the majority-side passes.
    pub findings: Vec<String>,
    /// Passes on the majority side.
    pub agreeing: u32,
    /// Number of passes that completed.
    pub passes: u32,
    /// Deduplicated missing evidence named by completed passes.
    pub missing_evidence: Vec<String>,
    /// Why the verdict is inconclusive, when it is.
    pub reason: Option<String>,
}

/// One grounded run: the verdict plus summed token usage.
#[derive(Debug)]
pub struct GroundedRun {
    /// The aggregated verdict.
    pub verdict: GroundedVerdict,
    /// Input tokens summed across completed passes.
    pub input_tokens: u64,
    /// Output tokens summed across completed passes.
    pub output_tokens: u64,
}

/// Build the prompt: the claim and the assembled evidence are the only
/// dynamic content.
pub fn build_prompt(template: &str, claim: &str, evidence: &str) -> (r: String)
    ensures
        r@ == replace_all(replace_all(template@, "<<claim>>"@, claim@), "<<evidence>>"@, evidence@),
{
    proof {
        reveal_strlit("<<claim>>");
        reveal_strlit("<<evidence>>");
    }
    let t = chars_of(template);
    let t = super::fill(t.as_slice(), "<<claim>>", claim);
    let t = super::fill(t.as_slice(), "<<evidence>>", evidence);
    string_of(t.as_slice())
}

/// The message for an over-long claim.
pub open spec fn claim_too_long_message(len: nat, max: nat) -> Seq<char> {
    "claim is "@ + decimal(len) + " characters; the configured maximum is "@ + decimal(max)
        + " (INPUT_MAX_CHARS); it was not trimmed"@
}

/// Validate the claim before any read or model call.
pub fn check_claim(claim: &str, max_claim_chars: usize) -> (r: Result<(), AppError>)
    ensures
        r is Ok <==> !is_blank_seq(claim@) && claim@.len() <= max_claim_chars,
        r matches Err(e) ==> (is_blank_seq(claim@) ==> invalid_input_is(
            e,
            "claim is empty or whitespace-only"@,
        )) && (!is_blank_seq(claim@) ==> invalid_input_is(
            e,
            claim_too_long_message(claim@.len(), max_claim_chars as nat),
        )),
{
    if str_is_blank(claim) {
        return Err(AppError::InvalidInput("claim is empty or whitespace-only".to_string()));
    }
    let len = char_count(claim);
    if len > max_claim_chars {
        let mut m: Vec<char> = Vec::new();
        append_str(&mut m, "claim is ");
        append_decimal(&mut m, len as u64);
        append_str(&mut m, " characters; the configured maximum is ");
        append_decimal(&mut m, max_claim_chars as u64);
        append_str(&mut m, " (INPUT_MAX_CHARS); it was not trimmed");
        return Err(AppError::InvalidInput(string_of(m.as_slice())));
    }
    Ok(())
}

/// A refutation must name a concrete contradiction.
pub fn check_pass(pass: &GroundedPass) -> (r: Result<(), AppError>)
    ensures
        r is Err <==> pass.verdict == VerdictKind::Refuted && super::verify::all_blank(
            strs_of(pass.findings@),
        ),
        r matches Err(e) ==> validation_failure_is(e, "refutation without a named concrete error"@),
{
    if pass.verdict == VerdictKind::Refuted {
        let mut i: usize = 0;
        while i < pass.findings.len()
            invariant
                0 <= i <= pass.findings@.len(),
                forall|j: int| 0 <= j < i ==> is_blank_seq(#[trigger] strs_of(pass.findings@)[j]),
            decreases pass.findings@.len() - i,
        {
            if !str_is_blank(pass.findings[i].as_str()) {
                assert(!is_blank_seq(strs_of(pass.findings@)[i as int]));
                return Ok(());
            }
            i = i + 1;
        }
        return Err(AppError::ValidationFailure("refutation without a named concrete error".to_string()));
    }
    Ok(())
}

/// A grounded pass with its (input, output) token usage.
pub type GroundedTuple = (GroundedPass, u64, u64);

/// The passes reduced to what the shared aggregation reads.
pub open spec fn core_of(ps: Seq<Result<GroundedTuple, AppError>>) -> Seq<Result<PassTuple, AppError>> {
    ps.map_values(
        |p: Result<GroundedTuple, AppError>|
            match p {
                Ok(t) => Ok((t.0.verdict, t.0.findings, t.1, t.2)),
                Err(e) => Err(e),
            },
    )
}

/// Completed passes that flagged the claim as needing computation.
pub open spec fn needs_count(ps: Seq<Result<GroundedTuple, AppError>>) -> nat
    decreases ps.len(),
{
    if ps.len() == 0 {
        0
    } else {
        needs_count(ps.drop_last()) + (if ps.last() matches Ok(t) && t.0.needs_computation {
            1nat
        } else {
            0nat
        })
    }
}

/// Missing evidence named by completed passes, deduplicated in first-seen
/// order, blanks dropped.
pub open spec fn missing_of(ps: Seq<Result<GroundedTuple, AppError>>) -> Seq<Seq<char>>
    decreases ps.len(),
{
    if ps.len() == 0 {
        Seq::empty()
    } else {
        let a = missing_of(ps.drop_last());
        match ps.last() {
            Ok(t) => add_findings(a, strs_of(t.0.missing_evidence@)),
            Err(_) => a,
        }
    }
}

/// The reason given for an inconclusive verdict.
pub open spec fn inconclusive_reason() -> Seq<char> {
    "computable property \u{2014} route to `check`"@
}

/// Completed passes counted on the reduced passes agree with the originals.
proof fn lemma_core_counts(ps: Seq<Result<GroundedTuple, AppError>>)
    ensures
        completed_count(core_of(ps)) >= needs_count(ps),
    decreases ps.len(),
{
    if ps.len() > 0 {
        lemma_core_counts(ps.drop_last());
        assert(core_of(ps).drop_last() =~= core_of(ps.drop_last()));
    }
}

/// Aggregate grounded passes: the shared quorum and majority aggregation,
/// the missing evidence of every completed pass, and an inconclusive verdict
/// when more than half the completed passes flagged a computation.
pub fn aggregate(passes: Vec<Result<GroundedTuple, AppError>>, k: u8) -> (r: Result<GroundedRun, AppError>)
    requires
        passes@.len() <= u32::MAX,
        input_sum(core_of(passes@)) <= u64::MAX,
        output_sum(core_of(passes@)) <= u64::MAX,
    ensures
        ({
            let core = core_of(passes@);
            &&& completed_count(core) < quorum(k) ==> (r matches Err(e) && dominant_metered_is(
                e,
                failures_of(core),
                input_sum(core) as u64,
                output_sum(core) as u64,
            ))
            &&& completed_count(core) >= quorum(k) ==> (r matches Ok(g) && exists|run: VerifyRun|
                {
                    &&& #[trigger] run_is(run, core)
                    &&& g.verdict.verdict == (if needs_count(passes@) * 2 > completed_count(
                        core,
                    ) {
                        GroundedVerdictKind::Inconclusive
                    } else {
                        grounded_of(run.verdict.verdict)
                    })
                    &&& g.verdict.findings == run.verdict.findings
                    &&& g.verdict.agreeing == run.verdict.agreeing
                    &&& g.verdict.passes == run.verdict.passes
                    &&& g.input_tokens == run.input_tokens
                    &&& g.output_tokens == run.output_tokens
                    &&& strs_of(g.verdict.missing_evidence@) == missing_of(passes@)
                    &&& (needs_count(passes@) * 2 > completed_count(core) <==> g.verdict.reason
                        is Some)
                    &&& (g.verdict.reason matches Some(m) ==> m@ == inconclusive_reason())
                })
        }),
{
    let ghost ps = passes@;
    let n = passes.len();
    let mut missing: Vec<String> = Vec::new();
    let mut needs: usize = 0;
    let mut i: usize = 0;
    while i < n
        invariant
            n == ps.len(),
            n <= u32::MAX,
            ps == passes@,
            0 <= i <= n,
            needs == needs_count(ps.subrange(0, i as int)),
            needs <= i,
            strs_of(missing@) == missing_of(ps.subrange(0, i as int)),
        decreases n - i,
    {
        assert(ps.subrange(0, i + 1).drop_last() =~= ps.subrange(0, i as int));
        match &passes[i] {
            Ok(t) => {
                if t.0.needs_computation {
                    needs = needs + 1;
                }
                super::verify::push_findings(&mut missing, &t.0.missing_evidence);
            },
            Err(_) => {},
        }
        i = i + 1;
    }
    assert(ps.subrange(0, n as int) =~= ps);
    let mut core: Vec<Result<PassTuple, AppError>> = Vec::new();
    let mut rest = passes;
    let mut j: usize = 0;
    while j < n
        invariant
            n == ps.len(),
            0 <= j <= n,
            rest@ == ps.subrange(j as int, n as int),
            core@ == core_of(ps).subrange(0, j as int),
        decreases n - j,
    {
        let p = rest.remove(0);
        assert(rest@ =~= ps.subrange(j + 1, n as int));
        let c = match p {
            Ok(t) => Ok((t.0.verdict, t.0.findings, t.1, t.2)),
            Err(e) => Err(e),
        };
        let ghost before = core@;
        core.push(c);
        assert(core@ =~= core_of(ps).subrange(0, j + 1));
        j = j + 1;
    }
    assert(core@ =~= core_of(ps));
    proof {
        lemma_core_counts(ps);
        super::verify::lemma_refuted_le_completed(core_of(ps));
    }
    let completed_bound = core.len();
    let run = match aggregate_core(core, k) {
        Ok(run) => run,
        Err(e) => {
            return Err(e);
        },
    };
    let completed = run.verdict.passes as usize;
    let (verdict, reason) = if (needs as u64) * 2 > completed as u64 {
        (GroundedVerdictKind::Inconclusive, Some("computable property \u{2014} route to `check`".to_string()))
    } else {
        (GroundedVerdictKind::from(run.verdict.verdict), None)
    };
    proof {
        reveal_strlit("computable property \u{2014} route to `check`");
    }
    let ghost run_v = run;
    let g = GroundedRun {
        verdict: GroundedVerdict {
            verdict,
            findings: run.verdict.findings,
            agreeing: run.verdict.agreeing,
            passes: run.verdict.passes,
            missing_evidence: missing,
            reason,
        },
        input_tokens: run.input_tokens,
        output_tokens: run.output_tokens,
    };
    assert(run_is(run_v, core_of(ps)));
    Ok(g)
}

} // verus!
