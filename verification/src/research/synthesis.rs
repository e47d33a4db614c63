//! The synthesis step's deterministic parts: the blocks its prompt is made
//! of, the grounding gate's retry-then-demote decision, and the
//! disagreement a contested claim records.
use vstd::prelude::*;
use crate::research::contract::{Disagreement, Position, StopReason};
use crate::research::grounding::{add_all, citations, findings_view, ground, violations};
use crate::research::pipeline::{lemma_lookup_prefix, lookup, EvidenceSource};
use crate::research::Support;
use crate::text::{
    append_chars, append_str, chars_of, join, join_chars, replace_all, seqs_of, string_of,
    strs_of, trim_seq, trim_str,
};

verus! {

/// The label a finding carries in the synthesis prompt.
pub open spec fn support_label(s: Support) -> Seq<char> {
    match s {
        Support::Confirmed => "confirmed"@,
        Support::Contested => "contested"@,
        Support::Unverified => "unverified, single-source"@,
        Support::Refuted => "refuted"@,
    }
}

/// The label of a support level.
pub fn label(s: Support) -> (r: &'static str)
    ensures
        r@ == support_label(s),
{
    match s {
        Support::Confirmed => "confirmed",
        Support::Contested => "contested",
        Support::Unverified => "unverified, single-source",
        Support::Refuted => "refuted",
    }
}

/// A list as `- item` lines, or the placeholder when it is empty.
pub open spec fn bullets(items: Seq<Seq<char>>, empty: Seq<char>) -> Seq<char> {
    if items.len() == 0 {
        empty
    } else {
        join(items.map_values(|x: Seq<char>| "- "@ + x), "\n"@)
    }
}

/// Render a list as `- item` lines, or the placeholder when it is empty.
pub fn bullet_block(items: &Vec<String>, empty: &str) -> (r: String)
    ensures
        r@ == bullets(strs_of(items@), empty@),
{
    proof {
        reveal_strlit("- ");
        reveal_strlit("\n");
    }
    if items.len() == 0 {
        return empty.to_string();
    }
    let ghost xs = strs_of(items@);
    let mut lines: Vec<Vec<char>> = Vec::new();
    let mut i: usize = 0;
    while i < items.len()
        invariant
            0 <= i <= items@.len(),
            xs == strs_of(items@),
            seqs_of(lines@) == xs.take(i as int).map_values(|x: Seq<char>| "- "@ + x),
        decreases items@.len() - i,
    {
        let mut line = chars_of("- ");
        append_str(&mut line, items[i].as_str());
        let ghost before = seqs_of(lines@);
        let ghost lv = line@;
        lines.push(line);
        assert(xs.take(i + 1) =~= xs.take(i as int).push(items@[i as int]@));
        assert(seqs_of(lines@) =~= before.push(lv));
        assert(seqs_of(lines@) =~= xs.take(i + 1).map_values(|x: Seq<char>| "- "@ + x));
        i = i + 1;
    }
    assert(xs.take(items@.len() as int) =~= xs);
    let nl = chars_of("\n");
    string_of(join_chars(&lines, nl.as_slice()).as_slice())
}

/// The titles of a finding's fetched sources, in its order, joined by "; ".
pub open spec fn titles_of(sources: Seq<EvidenceSource>, ids: Seq<Seq<char>>) -> Seq<Seq<char>>
    decreases ids.len(),
{
    if ids.len() == 0 {
        Seq::empty()
    } else {
        let prev = titles_of(sources, ids.drop_last());
        match lookup(sources, ids.last()) {
            Some(s) => prev.push(s.title@),
            None => prev,
        }
    }
}

/// The citation tokens of a finding's sources: `[id]` each, unseparated.
pub open spec fn tokens_of(ids: Seq<Seq<char>>) -> Seq<char>
    decreases ids.len(),
{
    if ids.len() == 0 {
        Seq::empty()
    } else {
        tokens_of(ids.drop_last()) + "["@ + ids.last() + "]"@
    }
}

/// One finding's line: `- (label, confidence c) claim [s1][s2] — titles`,
/// the confidence already rendered to two decimals.
pub open spec fn finding_line_of(
    support: Support,
    confidence: Seq<char>,
    claim: Seq<char>,
    ids: Seq<Seq<char>>,
    sources: Seq<EvidenceSource>,
) -> Seq<char> {
    "- ("@ + support_label(support) + ", confidence "@ + confidence + ") "@ + claim + " "@
        + tokens_of(ids) + " \u{2014} "@ + join(titles_of(sources, ids), "; "@)
}

/// Render one finding's line for the synthesis prompt.
pub fn finding_line(
    support: Support,
    confidence: &str,
    claim: &str,
    source_ids: &Vec<String>,
    sources: &Vec<EvidenceSource>,
) -> (r: String)
    ensures
        r@ == finding_line_of(support, confidence@, claim@, strs_of(source_ids@), sources@),
{
    let ghost ids = strs_of(source_ids@);
    let mut toks: Vec<char> = Vec::new();
    let mut titles: Vec<Vec<char>> = Vec::new();
    let mut i: usize = 0;
    while i < source_ids.len()
        invariant
            0 <= i <= source_ids@.len(),
            ids == strs_of(source_ids@),
            toks@ == tokens_of(ids.take(i as int)),
            seqs_of(titles@) == titles_of(sources@, ids.take(i as int)),
        decreases source_ids@.len() - i,
    {
        assert(ids.take(i + 1).drop_last() =~= ids.take(i as int));
        assert(ids.take(i + 1).last() == source_ids@[i as int]@);
        let ghost t0 = toks@;
        toks.push('[');
        append_str(&mut toks, source_ids[i].as_str());
        toks.push(']');
        proof {
            reveal_strlit("[");
            reveal_strlit("]");
        }
        assert(toks@ =~= t0 + "["@ + source_ids@[i as int]@ + "]"@);
        match find_title(sources, source_ids[i].as_str()) {
            Some(t) => {
                let ghost before = seqs_of(titles@);
                let tv = chars_of(t);
                titles.push(tv);
                assert(seqs_of(titles@) =~= before.push(t@));
            },
            None => {},
        }
        i = i + 1;
    }
    assert(ids.take(source_ids@.len() as int) =~= ids);
    let mut out = chars_of("- (");
    append_str(&mut out, label(support));
    append_str(&mut out, ", confidence ");
    append_str(&mut out, confidence);
    append_str(&mut out, ") ");
    append_str(&mut out, claim);
    append_str(&mut out, " ");
    append_chars(&mut out, toks.as_slice());
    append_str(&mut out, " \u{2014} ");
    let sep = chars_of("; ");
    let joined = join_chars(&titles, sep.as_slice());
    append_chars(&mut out, joined.as_slice());
    string_of(out.as_slice())
}

fn find_title<'a>(sources: &'a Vec<EvidenceSource>, id: &str) -> (r: Option<&'a str>)
    ensures
        match r {
            Some(t) => lookup(sources@, id@) matches Some(s) && s.title@ == t@,
            None => lookup(sources@, id@) is None,
        },
{
    let mut i: usize = 0;
    while i < sources.len()
        invariant
            0 <= i <= sources@.len(),
            lookup(sources@.take(i as int), id@) is None,
        decreases sources@.len() - i,
    {
        assert(sources@.take(i + 1).drop_last() =~= sources@.take(i as int));
        if crate::text::str_eq(sources[i].id.as_str(), id) {
            assert(lookup(sources@.take(i + 1), id@) == Some(sources@[i as int]));
            proof {
                lemma_lookup_prefix(sources@, i + 1, id@);
            }
            return Some(sources[i].title.as_str());
        }
        i = i + 1;
    }
    assert(sources@.take(sources@.len() as int) =~= sources@);
    None
}

/// The feedback a rejected synthesis is retried with.
pub open spec fn retry_clause_of(vs: Seq<Seq<char>>) -> Seq<char> {
    " YOUR PREVIOUS ATTEMPT WAS REJECTED for citation violations: "@ + join(vs, "; "@)
        + ". Cite only the listed source tokens."@
}

/// Render the retry feedback for a rejected synthesis.
pub fn retry_clause(violations: &Vec<String>) -> (r: String)
    ensures
        r@ == retry_clause_of(strs_of(violations@)),
{
    let parts = crate::text::chars_of_all(violations);
    let sep = chars_of("; ");
    let mut out = chars_of(" YOUR PREVIOUS ATTEMPT WAS REJECTED for citation violations: ");
    let body = join_chars(&parts, sep.as_slice());
    append_chars(&mut out, body.as_slice());
    append_str(&mut out, ". Cite only the listed source tokens.");
    string_of(out.as_slice())
}

/// Synthesis attempts at most: the first and one retry.
pub const SYNTH_ATTEMPTS_MAX: u32 = 2;

/// The answer published when the synthesis could not be grounded.
pub const DEMOTED_ANSWER: &'static str = "The synthesis could not be grounded after a retry; see key_findings for the verified claims and gaps for what remains.";

/// The gap that explains a demoted synthesis.
pub const DEMOTED_GAP: &'static str = "the synthesis could not be grounded in the fetched sources and was demoted";

/// What follows a synthesis attempt.
#[derive(Debug)]
pub enum SynthStep {
    /// The answer is grounded: publish it with these gaps and kept sources.
    Accept { answer: String, gaps: Vec<String>, kept_source_ids: Vec<String> },
    /// Retry with this feedback in the prompt's retry slot.
    Retry { retry_clause: String },
    /// Publish the demoted answer with these gaps and the sources the
    /// findings alone ground.
    Demote { answer: String, gaps: Vec<String>, kept_source_ids: Vec<String> },
}

/// The sources the findings alone ground, none when even they cannot be.
pub open spec fn findings_only_sources(fs: Seq<Seq<Seq<char>>>, fetched: Seq<Seq<char>>) -> Seq<Seq<char>> {
    if violations(Seq::empty(), fs, fetched).len() == 0 {
        add_all(citations(Seq::empty()), fs)
    } else {
        Seq::empty()
    }
}

/// Decide what follows attempt `attempt` (counting from one) that produced
/// `answer` and `gaps`: a grounded answer is accepted; an ungrounded first
/// attempt is retried with its violations named; an ungrounded last attempt
/// is demoted, with the sub-questions as gaps after the explanation.
pub fn synth_step(
    attempt: u32,
    answer: String,
    gaps: Vec<String>,
    finding_sources: &Vec<Vec<String>>,
    fetched_ids: &Vec<String>,
    sub_questions: &Vec<String>,
) -> (r: SynthStep)
    requires
        1 <= attempt <= SYNTH_ATTEMPTS_MAX,
    ensures
        ({
            let fs = findings_view(finding_sources@);
            let fetched = strs_of(fetched_ids@);
            let v = violations(answer@, fs, fetched);
            &&& v.len() == 0 ==> (r matches SynthStep::Accept { answer: a, gaps: g, kept_source_ids: k }
                && a == answer && g == gaps && strs_of(k@) == add_all(citations(answer@), fs))
            &&& v.len() > 0 && attempt < SYNTH_ATTEMPTS_MAX ==> (r matches SynthStep::Retry {
                retry_clause: c,
            } && c@ == retry_clause_of(v))
            &&& v.len() > 0 && attempt == SYNTH_ATTEMPTS_MAX ==> (r matches SynthStep::Demote {
                answer: a,
                gaps: g,
                kept_source_ids: k,
            } && a@ == DEMOTED_ANSWER@ && strs_of(g@) == seq![DEMOTED_GAP@] + strs_of(
                sub_questions@,
            ) && strs_of(k@) == findings_only_sources(fs, fetched))
        }),
{
    match ground(answer.as_str(), finding_sources, fetched_ids) {
        Ok(g) => SynthStep::Accept { answer, gaps, kept_source_ids: g.kept_source_ids },
        Err(v) => {
            if attempt < SYNTH_ATTEMPTS_MAX {
                SynthStep::Retry { retry_clause: retry_clause(&v) }
            } else {
                let mut gs: Vec<String> = Vec::new();
                gs.push(DEMOTED_GAP.to_string());
                let mut i: usize = 0;
                while i < sub_questions.len()
                    invariant
                        0 <= i <= sub_questions@.len(),
                        strs_of(gs@) == seq![DEMOTED_GAP@] + strs_of(sub_questions@).take(i as int),
                    decreases sub_questions@.len() - i,
                {
                    let ghost before = strs_of(gs@);
                    gs.push(sub_questions[i].clone());
                    assert(strs_of(gs@) =~= before.push(sub_questions@[i as int]@));
                    assert(strs_of(sub_questions@).take(i + 1) =~= strs_of(sub_questions@).take(
                        i as int,
                    ).push(sub_questions@[i as int]@));
                    assert(strs_of(gs@) =~= seq![DEMOTED_GAP@] + strs_of(sub_questions@).take(i + 1));
                    i = i + 1;
                }
                assert(strs_of(sub_questions@).take(sub_questions@.len() as int) =~= strs_of(
                    sub_questions@,
                ));
                proof {
                    reveal_strlit("");
                }
                assert(""@ =~= Seq::<char>::empty());
                let kept = match ground("", finding_sources, fetched_ids) {
                    Ok(g) => g.kept_source_ids,
                    Err(_) => {
                        let e: Vec<String> = Vec::new();
                        assert(strs_of(e@) =~= Seq::<Seq<char>>::empty());
                        e
                    },
                };
                SynthStep::Demote { answer: DEMOTED_ANSWER.to_string(), gaps: gs, kept_source_ids: kept }
            }
        },
    }
}

/// The run's stop reason after a demotion: an earlier budget or deadline
/// reason is kept over the grounding one.
pub fn stop_after_demotion(stop: Option<StopReason>) -> (r: Option<StopReason>)
    ensures
        r == Some(
            match stop {
                Some(s) => s,
                None => StopReason::Grounding,
            },
        ),
{
    match stop {
        Some(s) => Some(s),
        None => Some(StopReason::Grounding),
    }
}

/// The disagreement a contested claim records: one position supporting it,
/// one challenging it (with the verification findings, when there are any),
/// both backed by the claim's sources.
pub open spec fn disagreement_of(claim: Seq<char>, ids: Seq<Seq<char>>, findings: Seq<Seq<char>>) -> (Seq<char>, Seq<char>, Seq<char>) {
    (
        claim,
        "supported by part of the verification panel"@,
        if findings.len() == 0 {
            "challenged by part of the verification panel"@
        } else {
            "challenged: "@ + join(findings, " | "@)
        },
    )
}

fn copy_strings(v: &Vec<String>) -> (r: Vec<String>)
    ensures
        strs_of(r@) == strs_of(v@),
{
    let mut r: Vec<String> = Vec::new();
    let mut i: usize = 0;
    while i < v.len()
        invariant
            0 <= i <= v@.len(),
            strs_of(r@) == strs_of(v@).take(i as int),
        decreases v@.len() - i,
    {
        let ghost before = strs_of(r@);
        r.push(v[i].clone());
        assert(strs_of(v@).take(i + 1) =~= strs_of(v@).take(i as int).push(v@[i as int]@));
        assert(strs_of(r@) =~= before.push(v@[i as int]@));
        i = i + 1;
    }
    assert(strs_of(v@).take(v@.len() as int) =~= strs_of(v@));
    r
}

/// Record the disagreement over a contested claim.
pub fn contested(claim: &str, source_ids: &Vec<String>, findings: &Vec<String>) -> (r: Disagreement)
    ensures
        ({
            let d = disagreement_of(claim@, strs_of(source_ids@), strs_of(findings@));
            &&& r.claim@ == d.0
            &&& r.positions@.len() == 2
            &&& r.positions@[0].stance@ == d.1
            &&& r.positions@[1].stance@ == d.2
            &&& strs_of(r.positions@[0].sources@) == strs_of(source_ids@)
            &&& strs_of(r.positions@[1].sources@) == strs_of(source_ids@)
        }),
{
    let challenge = if findings.len() == 0 {
        "challenged by part of the verification panel".to_string()
    } else {
        let parts = crate::text::chars_of_all(findings);
        let sep = chars_of(" | ");
        let mut c = chars_of("challenged: ");
        let body = join_chars(&parts, sep.as_slice());
        append_chars(&mut c, body.as_slice());
        string_of(c.as_slice())
    };
    let mut positions: Vec<Position> = Vec::new();
    positions.push(
        Position {
            stance: "supported by part of the verification panel".to_string(),
            sources: copy_strings(source_ids),
        },
    );
    positions.push(Position { stance: challenge, sources: copy_strings(source_ids) });
    Disagreement { claim: claim.to_string(), positions }
}


/// Build the synthesis prompt: the retry feedback, the trimmed question and
/// the three blocks are the only dynamic content.
pub fn synth_prompt(
    template: &str,
    retry: &str,
    question: &str,
    sub_questions: &str,
    findings: &str,
    refuted: &str,
) -> (r: String)
    ensures
        r@ == replace_all(
            replace_all(
                replace_all(
                    replace_all(
                        replace_all(template@, "<<retry_clause>>"@, retry@),
                        "<<question>>"@,
                        trim_seq(question@),
                    ),
                    "<<sub_questions>>"@,
                    sub_questions@,
                ),
                "<<findings>>"@,
                findings@,
            ),
            "<<refuted>>"@,
            refuted@,
        ),
{
    proof {
        reveal_strlit("<<retry_clause>>");
        reveal_strlit("<<question>>");
        reveal_strlit("<<sub_questions>>");
        reveal_strlit("<<findings>>");
        reveal_strlit("<<refuted>>");
    }
    let q = trim_str(question);
    let t = chars_of(template);
    let t = crate::modes::fill(t.as_slice(), "<<retry_clause>>", retry);
    let t = crate::modes::fill(t.as_slice(), "<<question>>", q.as_str());
    let t = crate::modes::fill(t.as_slice(), "<<sub_questions>>", sub_questions);
    let t = crate::modes::fill(t.as_slice(), "<<findings>>", findings);
    let t = crate::modes::fill(t.as_slice(), "<<refuted>>", refuted);
    string_of(t.as_slice())
}

} // verus!
