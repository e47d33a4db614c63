//! The deterministic steps of a research run around its model calls: the
//! scope prompt and the plan made of its answer, and the evidence context a
//! claim is verified against.
use vstd::prelude::*;
use crate::research::evidence::{evidence_excerpt, excerpt_of, EVIDENCE_EXCERPT_MAX_CHARS, EVIDENCE_SOURCES_MAX};
use crate::research::contract::StopReason;
use crate::research::{ScopePlan, MAX_SUB_QUESTIONS};
use crate::text::{
    append_chars, append_decimal, append_str, chars_of, decimal, join, join_chars, replace_all,
    seqs_of, string_of, strs_of, trim_seq, trim_str, trimmed_upto, trimmed_upto_of,
};

verus! {

/// Mode id of the scope decomposition.
pub const SCOPE_MODE_ID: &'static str = "research_scope";

/// Mode id of the claim extraction.
pub const EXTRACT_MODE_ID: &'static str = "research_extract";

/// Mode id of the synthesis.
pub const SYNTH_MODE_ID: &'static str = "research_synthesize";

/// The description the scope mode registers with.
pub const SCOPE_DESCRIPTION: &'static str = "internal: research scope decomposition";

/// The description the extraction mode registers with.
pub const EXTRACT_DESCRIPTION: &'static str = "internal: research claim extraction";

/// The description the synthesis mode registers with.
pub const SYNTH_DESCRIPTION: &'static str = "internal: research synthesis";

/// The scope profile: slots for the angle cap, the focus clause and the
/// question.
pub const SCOPE_PROMPT_TEMPLATE: &'static str = "You are scoping a web research run. Decompose the question into distinct search angles (each a search query a web search engine can answer, no more than <<angles_max>>) and the falsifiable sub-questions a good answer must settle (no more than 7). Angles must differ materially \u{2014} different terms, different facets \u{2014} not rephrasings.<<focus_clause>>\n\nQuestion: <<question>>";

/// The refute-biased verification profile research runs claims through.
pub const RESEARCH_VERIFY_TEMPLATE: &'static str = "You are an adversarial fact-checker. Attempt to REFUTE the claim below. Default to refuted when you cannot establish support: uncertainty is a refutation, and your refutation must name exactly what could not be established or what contradicts the claim. Return supported only when the claim withstands your attempt.\n\nClaim: <<claim>>\n\nContext: <<context>>";

/// The synthesis profile.
pub const SYNTH_PROMPT_TEMPLATE: &'static str = "You are writing the executive synthesis of a completed research run. Use ONLY the verified findings below \u{2014} cite them inline with their source tokens exactly as given (for example [s3]). Never cite a source not listed. Surface uncertainty honestly; never state refuted or unverified content as fact. List what remains unanswered as gaps (short phrases).<<retry_clause>>\n\nQuestion: <<question>>\n\nSub-questions a good answer settles:\n<<sub_questions>>\n\nVerified findings (cite by token):\n<<findings>>\n\nRefuted during verification (do NOT assert; you may note the refutation):\n<<refuted>>";

/// The clause that biases the angles toward the caller's focus, empty
/// without one.
pub open spec fn focus_clause_of(focus: Option<Seq<Seq<char>>>) -> Seq<char> {
    match focus {
        Some(f) => " Bias the angles toward these caller-named facets: "@ + join(f, "; "@) + "."@,
        None => Seq::empty(),
    }
}

/// The focus as plain values.
pub open spec fn focus_view(focus: Option<Vec<String>>) -> Option<Seq<Seq<char>>> {
    match focus {
        Some(v) => Some(strs_of(v@)),
        None => None,
    }
}

/// Build the scope prompt: the angle cap, the focus clause and the trimmed
/// question are the only dynamic content.
pub fn scope_prompt(template: &str, angles_max: u8, focus: &Option<Vec<String>>, question: &str) -> (r: String)
    ensures
        r@ == replace_all(
            replace_all(
                replace_all(template@, "<<angles_max>>"@, decimal(angles_max as nat)),
                "<<focus_clause>>"@,
                focus_clause_of(focus_view(*focus)),
            ),
            "<<question>>"@,
            trim_seq(question@),
        ),
{
    proof {
        reveal_strlit("<<angles_max>>");
        reveal_strlit("<<focus_clause>>");
        reveal_strlit("<<question>>");
        reveal_strlit("");
    }
    let mut n: Vec<char> = Vec::new();
    append_decimal(&mut n, angles_max as u64);
    let n = string_of(n.as_slice());
    let clause = match focus {
        Some(f) => {
            let parts = crate::text::chars_of_all(f);
            let sep = chars_of("; ");
            let mut c = chars_of(" Bias the angles toward these caller-named facets: ");
            let body = join_chars(&parts, sep.as_slice());
            append_chars(&mut c, body.as_slice());
            append_str(&mut c, ".");
            string_of(c.as_slice())
        },
        None => {
            assert(""@ =~= Seq::<char>::empty());
            "".to_string()
        },
    };
    let q = trim_str(question);
    let t = chars_of(template);
    let t = crate::modes::fill(t.as_slice(), "<<angles_max>>", n.as_str());
    let t = crate::modes::fill(t.as_slice(), "<<focus_clause>>", clause.as_str());
    let t = crate::modes::fill(t.as_slice(), "<<question>>", q.as_str());
    string_of(t.as_slice())
}

/// The plan a scope answer makes: its angles trimmed, blank ones dropped,
/// at most `angles_max` (the question itself when none is left), and its
/// sub-questions likewise, at most `MAX_SUB_QUESTIONS`.
pub open spec fn plan_of(angles: Seq<Seq<char>>, subs: Seq<Seq<char>>, angles_max: nat, question: Seq<char>) -> (Seq<Seq<char>>, Seq<Seq<char>>) {
    let a = trimmed_upto(angles, angles_max);
    (if a.len() == 0 {
        seq![trim_seq(question)]
    } else {
        a
    }, trimmed_upto(subs, MAX_SUB_QUESTIONS as nat))
}

/// Make the plan from a scope answer.
pub fn plan_from(angles: &Vec<String>, sub_questions: &Vec<String>, angles_max: u8, question: &str) -> (r: ScopePlan)
    ensures
        (strs_of(r.angles@), strs_of(r.sub_questions@)) == plan_of(
            strs_of(angles@),
            strs_of(sub_questions@),
            angles_max as nat,
            question@,
        ),
        r.angles@.len() >= 1,
{
    let mut a = trimmed_upto_of(angles, angles_max as usize);
    if a.len() == 0 {
        let q = trim_str(question);
        let ghost qv = q@;
        a.push(q);
        assert(strs_of(a@) =~= seq![qv]);
    }
    let s = trimmed_upto_of(sub_questions, MAX_SUB_QUESTIONS);
    ScopePlan { angles: a, sub_questions: s }
}

/// A fetched source as the evidence context reads it.
#[derive(Debug, Clone)]
pub struct EvidenceSource {
    /// The source id (`s1`, `s2`, ...).
    pub id: String,
    /// Its title.
    pub title: String,
    /// The host it was fetched from.
    pub host: String,
    /// Its readable text.
    pub text: String,
}

/// A source as plain values: (id, title, host, text).
pub open spec fn source_view(s: EvidenceSource) -> (Seq<char>, Seq<char>, Seq<char>, Seq<char>) {
    (s.id@, s.title@, s.host@, s.text@)
}

/// The first source with this id, if any.
pub open spec fn lookup(sources: Seq<EvidenceSource>, id: Seq<char>) -> Option<EvidenceSource>
    decreases sources.len(),
{
    if sources.len() == 0 {
        None
    } else {
        match lookup(sources.drop_last(), id) {
            Some(s) => Some(s),
            None => if sources.last().id@ == id {
                Some(sources.last())
            } else {
                None
            },
        }
    }
}

/// The claim's sources that were fetched, in the claim's order, at most
/// `EVIDENCE_SOURCES_MAX`.
pub open spec fn backing(sources: Seq<EvidenceSource>, ids: Seq<Seq<char>>) -> Seq<EvidenceSource>
    decreases ids.len(),
{
    if ids.len() == 0 {
        Seq::empty()
    } else {
        let prev = backing(sources, ids.drop_last());
        match lookup(sources, ids.last()) {
            Some(s) => if prev.len() < EVIDENCE_SOURCES_MAX {
                prev.push(s)
            } else {
                prev
            },
            None => prev,
        }
    }
}

/// One source's block: `[id] title (host):` then its excerpt.
pub open spec fn source_block(s: EvidenceSource, claim: Seq<char>) -> Seq<char> {
    "["@ + s.id@ + "] "@ + s.title@ + " ("@ + s.host@ + "):\n"@ + excerpt_of(
        s.text@,
        claim,
        EVIDENCE_EXCERPT_MAX_CHARS as nat,
    )
}

/// The context a claim is verified against: an excerpt of each backing
/// source, separated by blank lines, under a heading.
pub open spec fn context_of(sources: Seq<EvidenceSource>, ids: Seq<Seq<char>>, claim: Seq<char>) -> Seq<char> {
    "Source excerpts the claim was extracted from:\n\n"@ + join(
        backing(sources, ids).map_values(|s: EvidenceSource| source_block(s, claim)),
        "\n\n"@,
    )
}

fn find_source(sources: &Vec<EvidenceSource>, id: &str) -> (r: Option<usize>)
    ensures
        match r {
            Some(i) => i < sources@.len() && lookup(sources@, id@) == Some(sources@[i as int]),
            None => lookup(sources@, id@) is None,
        },
{
    let mut i: usize = 0;
    while i < sources.len()
        invariant
            0 <= i <= sources@.len(),
            lookup(sources@.take(i as int), id@) is None,
        decreases sources@.len() - i,
    {
        assert(sources@.take(i + 1).drop_last() =~= sources@.take(i as int));
        if crate::text::str_eq(sources[i].id.as_str(), id) {
            assert(lookup(sources@.take(i + 1), id@) == Some(sources@[i as int]));
            proof {
                lemma_lookup_prefix(sources@, i + 1, id@);
            }
            return Some(i);
        }
        i = i + 1;
    }
    assert(sources@.take(sources@.len() as int) =~= sources@);
    None
}

/// A match within a prefix is the first match overall.
pub proof fn lemma_lookup_prefix(sources: Seq<EvidenceSource>, n: int, id: Seq<char>)
    requires
        0 <= n <= sources.len(),
        lookup(sources.take(n), id) is Some,
    ensures
        lookup(sources, id) == lookup(sources.take(n), id),
    decreases sources.len() - n,
{
    if n < sources.len() {
        assert(sources.take(n + 1).drop_last() =~= sources.take(n));
        lemma_lookup_prefix(sources, n + 1, id);
    } else {
        assert(sources.take(n) =~= sources);
    }
}

/// Build the evidence context for a claim from the fetched sources.
pub fn claim_context(sources: &Vec<EvidenceSource>, source_ids: &Vec<String>, claim: &str) -> (r: String)
    ensures
        r@ == context_of(sources@, strs_of(source_ids@), claim@),
{
    let ghost ids = strs_of(source_ids@);
    let mut picked: Vec<usize> = Vec::new();
    let mut i: usize = 0;
    while i < source_ids.len()
        invariant
            0 <= i <= source_ids@.len(),
            ids == strs_of(source_ids@),
            picked@.len() == backing(sources@, ids.take(i as int)).len(),
            forall|k: int|
                0 <= k < picked@.len() ==> (#[trigger] picked@[k]) < sources@.len() && sources@[picked@[k] as int]
                    == backing(sources@, ids.take(i as int))[k],
        decreases source_ids@.len() - i,
    {
        assert(ids.take(i + 1).drop_last() =~= ids.take(i as int));
        assert(ids.take(i + 1).last() == source_ids@[i as int]@);
        match find_source(sources, source_ids[i].as_str()) {
            Some(j) => {
                if picked.len() < EVIDENCE_SOURCES_MAX {
                    picked.push(j);
                }
            },
            None => {},
        }
        i = i + 1;
    }
    assert(ids.take(source_ids@.len() as int) =~= ids);
    let ghost bk = backing(sources@, ids);
    let ghost blocks = bk.map_values(|s: EvidenceSource| source_block(s, claim@));
    let mut parts: Vec<Vec<char>> = Vec::new();
    let mut k: usize = 0;
    while k < picked.len()
        invariant
            0 <= k <= picked@.len(),
            picked@.len() == bk.len(),
            blocks == bk.map_values(|s: EvidenceSource| source_block(s, claim@)),
            blocks.len() == bk.len(),
            forall|x: int|
                0 <= x < picked@.len() ==> (#[trigger] picked@[x]) < sources@.len() && sources@[picked@[x] as int]
                    == bk[x],
            seqs_of(parts@) == blocks.take(k as int),
        decreases picked@.len() - k,
    {
        let s = &sources[picked[k]];
        let mut b = chars_of("[");
        append_str(&mut b, s.id.as_str());
        append_str(&mut b, "] ");
        append_str(&mut b, s.title.as_str());
        append_str(&mut b, " (");
        append_str(&mut b, s.host.as_str());
        append_str(&mut b, "):\n");
        let ex = evidence_excerpt(s.text.as_str(), claim, EVIDENCE_EXCERPT_MAX_CHARS);
        append_str(&mut b, ex.as_str());
        assert(b@ == source_block(bk[k as int], claim@));
        let ghost before = seqs_of(parts@);
        let ghost bv = b@;
        parts.push(b);
        assert(seqs_of(parts@) =~= before.push(bv));
        assert(blocks.take(k + 1) =~= blocks.take(k as int).push(blocks[k as int]));
        k = k + 1;
    }
    assert(blocks.take(picked@.len() as int) =~= blocks);
    let sep = chars_of("\n\n");
    let body = join_chars(&parts, sep.as_slice());
    let mut out = chars_of("Source excerpts the claim was extracted from:\n\n");
    append_chars(&mut out, body.as_slice());
    string_of(out.as_slice())
}

/// What the ceilings say of a run that has spent `total` tokens in
/// `elapsed` ms: the budget first, then the deadline.
pub open spec fn trip_of(total: u64, elapsed: u64, budget: u64, deadline: u64) -> Option<StopReason> {
    if total >= budget {
        Some(StopReason::Budget)
    } else if elapsed >= deadline {
        Some(StopReason::Deadline)
    } else {
        None
    }
}

/// A probe from latched state `tripped`: the latched reason when there is
/// one, else whatever the ceilings say now.
pub open spec fn probe_step(tripped: Option<StopReason>, total: u64, elapsed: u64, budget: u64, deadline: u64) -> Option<StopReason> {
    match tripped {
        Some(r) => Some(r),
        None => trip_of(total, elapsed, budget, deadline),
    }
}

/// The run's enforced ceilings, the token budget and the wall-clock
/// deadline, with the first trip latched for every later probe.
#[derive(Debug, Clone)]
pub struct Ceiling {
    budget_tokens: u64,
    deadline_ms: u64,
    tripped: Option<StopReason>,
}

impl Ceiling {
    /// The reason latched so far, if any.
    pub closed spec fn tripped(self) -> Option<StopReason> {
        self.tripped
    }

    /// Tokens the run may spend.
    pub closed spec fn budget(self) -> u64 {
        self.budget_tokens
    }

    /// Milliseconds the run may take.
    pub closed spec fn deadline(self) -> u64 {
        self.deadline_ms
    }

    /// Fresh ceilings, untripped.
    pub fn new(budget_tokens: u64, deadline_ms: u64) -> (r: Ceiling)
        ensures
            r.budget() == budget_tokens,
            r.deadline() == deadline_ms,
            r.tripped() is None,
    {
        Ceiling { budget_tokens, deadline_ms, tripped: None }
    }

    /// Probe the ceilings with the tokens spent so far and the time elapsed:
    /// the first trip is latched and returned by every later probe; `None`
    /// while under both limits.
    pub fn probe(&mut self, total_tokens: u64, elapsed_ms: u64) -> (r: Option<StopReason>)
        ensures
            r == probe_step(old(self).tripped(), total_tokens, elapsed_ms, old(self).budget(), old(self).deadline()),
            final(self).tripped() == r,
            final(self).budget() == old(self).budget(),
            final(self).deadline() == old(self).deadline(),
    {
        if let Some(reason) = self.tripped {
            return Some(reason);
        }
        let hit = if total_tokens >= self.budget_tokens {
            Some(StopReason::Budget)
        } else if elapsed_ms >= self.deadline_ms {
            Some(StopReason::Deadline)
        } else {
            None
        };
        self.tripped = hit;
        hit
    }

    /// The reason latched so far, without probing.
    pub fn current(&self) -> (r: Option<StopReason>)
        ensures
            r == self.tripped(),
    {
        self.tripped
    }
}

/// The first trip latches: once a probe reports a reason, every later
/// probe reports the same reason, whatever was spent or elapsed by then.
pub proof fn lemma_first_trip_latches(
    tripped: Option<StopReason>,
    total1: u64,
    elapsed1: u64,
    total2: u64,
    elapsed2: u64,
    budget: u64,
    deadline: u64,
)
    requires
        probe_step(tripped, total1, elapsed1, budget, deadline) is Some,
    ensures
        probe_step(probe_step(tripped, total1, elapsed1, budget, deadline), total2, elapsed2, budget, deadline)
            == probe_step(tripped, total1, elapsed1, budget, deadline),
{
}

/// The refute-biased verify mode research runs claims through: the verify
/// mode with the adversarial template, everything else the same.
pub fn research_verify_mode(verify_mode: &crate::modes::CorrectiveMode) -> (r: crate::modes::CorrectiveMode)
    ensures
        r.id == verify_mode.id,
        r.description == verify_mode.description,
        r.prompt_template@ == RESEARCH_VERIFY_TEMPLATE@,
        r.output_schema@ == verify_mode.output_schema@,
        r.sanitized_schema@ == verify_mode.sanitized_schema@,
        r.ensemble_k == verify_mode.ensemble_k,
{
    crate::modes::CorrectiveMode {
        id: verify_mode.id,
        description: verify_mode.description,
        prompt_template: RESEARCH_VERIFY_TEMPLATE,
        output_schema: verify_mode.output_schema.copy(),
        sanitized_schema: verify_mode.sanitized_schema.copy(),
        ensemble_k: verify_mode.ensemble_k,
    }
}

} // verus!
