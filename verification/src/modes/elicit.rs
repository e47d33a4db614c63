//! The Elicit corrective: surface the objective a worker is about to pursue
//! and the preferences that should govern it, before they commit.
use vstd::prelude::*;
use crate::error::{invalid_input_is, validation_failure_is, AppError};
use crate::memory::Trust;
use crate::text::{
    append_chars, append_decimal, append_str, char_count, chars_of, decimal, is_blank_seq, join,
    join_chars, replace_all, seqs_of, str_eq, str_is_blank, string_of, strs_of,
};

verus! {

/// Tool id as exposed over MCP.
pub const ELICIT_ID: &'static str = "elicit";

/// The MCP tool description.
pub const ELICIT_DESCRIPTION: &'static str = "Surface the objective you're about to pursue and the preferences that should govern it, before you commit - the corrective for solving the assumed problem instead of the user's real one. Returns the objective a surface reading would assume, the governing preferences/constraints (each traced to its signal; revealed/stored ones outrank merely stated ones), and the divergence points where the assumed objective likely departs from the user's actual one - the questions worth resolving first. Inference, not interrogation: with little signal it says so rather than inventing preferences. When memory is configured it also consults your stored verified preferences. It surfaces only - it does not block or modify anything (that is the checkpoint layer).";

/// The elicitation profile: slots for the task, the context and the stored
/// preferences only.
pub const PROMPT_TEMPLATE: &'static str = "You are an external objective check. Before a worker commits to a task, surface what objective they are about to pursue and what should actually govern it, so they don't solve the assumed problem instead of the real one. You know nothing about who they are beyond what is below.\n\nRules:\n1. `assumed_objective`: state, in one sentence, the objective a surface reading of the task would silently commit to.\n2. Governing preferences (parallel arrays, one entry each): `preference_texts[i]` a preference/constraint that should shape the work; `preference_signals[i]` where you inferred it from (the request, the context, or a stored preference); `preference_strengths[i]` is \"revealed\" for a stored/verified or demonstrated preference, \"stated\" for one merely asserted in the request. Revealed outranks stated.\n3. Divergence points (parallel arrays): `divergence_questions[i]` an assumption in the assumed objective that a signal calls into question - a question worth resolving before proceeding; `divergence_signals[i]` the conflicting signal it cites. Only where a signal suggests a real gap - do NOT manufacture doubt.\n4. Inference, not interrogation: infer from the signals present; do NOT invent preferences or questions with no signal. Set `signal_level` to \"low\" when you have little preference signal (and return few/empty preferences and divergence), \"medium\"/\"high\" as it grows.\n5. Do not judge truth, do not choose an option, do not recommend an action - only surface.\n\nTask the worker is about to do:\n<<task>>\n\nContext provided with the task (may be empty):\n<<context>>\n\nStored preferences (server-supplied):\n<<preferences>>\n";

/// How much preference signal the inference had.
#[derive(Debug, Clone, Copy, PartialEq, Eq, Structural)]
pub enum SignalLevel {
    /// Little signal: few or no preferences.
    Low,
    /// Some signal.
    Medium,
    /// Strong signal.
    High,
}

/// Tool input.
#[derive(Debug, Clone)]
pub struct ElicitParams {
    /// The task the worker is about to do.
    pub task: String,
    /// Optional context.
    pub context: Option<String>,
}

/// What the pass is constrained to produce: parallel arrays.
#[derive(Debug, Clone)]
pub struct ElicitPass {
    /// The objective a surface reading commits to.
    pub assumed_objective: String,
    /// Preference texts.
    pub preference_texts: Vec<String>,
    /// Where each preference was inferred from.
    pub preference_signals: Vec<String>,
    /// "revealed" or "stated" for each preference.
    pub preference_strengths: Vec<String>,
    /// Questions worth resolving first.
    pub divergence_questions: Vec<String>,
    /// The conflicting signal each question cites.
    pub divergence_signals: Vec<String>,
    /// How much signal there was.
    pub signal_level: SignalLevel,
}

/// One governing preference, traced to its signal.
#[derive(Debug, Clone)]
pub struct GoverningPreference {
    /// The preference or constraint.
    pub preference: String,
    /// Where it was inferred from.
    pub signal: String,
    /// "revealed" or "stated".
    pub strength: String,
}

/// One divergence point.
#[derive(Debug, Clone)]
pub struct DivergencePoint {
    /// The question worth resolving.
    pub question: String,
    /// The conflicting signal it cites.
    pub signal: String,
}

/// The assembled output.
#[derive(Debug, Clone)]
pub struct ElicitResult {
    /// The objective a surface reading commits to.
    pub assumed_objective: String,
    /// The governing preferences.
    pub governing_preferences: Vec<GoverningPreference>,
    /// The divergence points.
    pub divergence_points: Vec<DivergencePoint>,
    /// How much signal there was.
    pub signal_level: SignalLevel,
    /// Whether stored preferences were consulted.
    pub memory_consulted: bool,
}

/// One Elicit run: the result plus token usage.
#[derive(Debug)]
pub struct ElicitRun {
    /// The assembled result.
    pub result: ElicitResult,
    /// Input tokens, recall included.
    pub input_tokens: u64,
    /// Output tokens, recall included.
    pub output_tokens: u64,
}

/// Stored preferences consulted at most.
pub const RECALL_LIMIT: usize = 5;

/// Recall width asked of memory before the trust filter.
pub const RECALL_WIDE: u32 = 20;

/// Build the prompt: the task, the context and the server-supplied
/// preferences block are the only dynamic content.
pub fn build_prompt(template: &str, params: &ElicitParams, preferences: &str) -> (r: String)
    ensures
        r@ == replace_all(
            replace_all(
                replace_all(template@, "<<task>>"@, params.task@),
                "<<context>>"@,
                opt_string(params.context),
            ),
            "<<preferences>>"@,
            preferences@,
        ),
{
    proof {
        reveal_strlit("<<task>>");
        reveal_strlit("<<context>>");
        reveal_strlit("<<preferences>>");
        reveal_strlit("");
    }
    let t = chars_of(template);
    let t = super::fill(t.as_slice(), "<<task>>", params.task.as_str());
    let t = match &params.context {
        Some(c) => super::fill(t.as_slice(), "<<context>>", c.as_str()),
        None => {
            assert(""@ =~= Seq::<char>::empty());
            super::fill(t.as_slice(), "<<context>>", "")
        },
    };
    let t = super::fill(t.as_slice(), "<<preferences>>", preferences);
    string_of(t.as_slice())
}

/// The view of an optional string, empty when absent.
pub open spec fn opt_string(o: Option<String>) -> Seq<char> {
    match o {
        Some(s) => s@,
        None => Seq::empty(),
    }
}

/// Validate input before any model call.
pub fn check_input(params: &ElicitParams, max_chars: usize) -> (r: Result<(), AppError>)
    ensures
        r is Ok <==> !is_blank_seq(params.task@) && params.task@.len() + super::verify::opt_len(
            params.context,
        ) <= max_chars,
        r matches Err(e) ==> (is_blank_seq(params.task@) ==> invalid_input_is(
            e,
            "task is empty or whitespace-only"@,
        )) && (!is_blank_seq(params.task@) ==> invalid_input_is(
            e,
            super::combined_message(
                params.task@.len() + super::verify::opt_len(params.context),
                max_chars as nat,
            ),
        )),
{
    if str_is_blank(params.task.as_str()) {
        return Err(AppError::InvalidInput("task is empty or whitespace-only".to_string()));
    }
    let task_len = char_count(params.task.as_str()) as u128;
    let context_len = match &params.context {
        Some(c) => char_count(c.as_str()) as u128,
        None => 0,
    };
    let total = task_len + context_len;
    if total > max_chars as u128 {
        return Err(super::combined_too_long(total, max_chars));
    }
    Ok(())
}

/// The contents of the first `RECALL_LIMIT` trusted memories, in recall
/// order.
pub open spec fn trusted_contents(ms: Seq<(Trust, Seq<char>)>) -> Seq<Seq<char>>
    decreases ms.len(),
{
    if ms.len() == 0 {
        Seq::empty()
    } else {
        let prev = trusted_contents(ms.drop_last());
        if crate::memory::trusted(ms.last().0) && prev.len() < RECALL_LIMIT {
            prev.push(ms.last().1)
        } else {
            prev
        }
    }
}

/// The memories as (trust, content) views.
pub open spec fn memories_view(ms: Seq<(Trust, String)>) -> Seq<(Trust, Seq<char>)> {
    ms.map_values(|m: (Trust, String)| (m.0, m.1@))
}

/// The block of stored preferences the prompt carries.
pub open spec fn preferences_text(trusted: Seq<Seq<char>>) -> Seq<char> {
    if trusted.len() == 0 {
        "(no relevant stored preferences found)"@
    } else {
        "stored verified preferences (revealed signal \u{2014} these outrank merely stated ones):\n"@
            + join(trusted.map_values(|x: Seq<char>| "- "@ + x), "\n"@)
    }
}

/// The block shown when memory is not configured.
pub const NO_MEMORY_BLOCK: &'static str = "(no stored preferences \u{2014} memory not configured)";

/// Render the recalled memories (trust, content), in recall order, into the
/// preferences block: only trusted ones, at most `RECALL_LIMIT`.
pub fn preferences_block(memories: &Vec<(Trust, String)>) -> (r: String)
    ensures
        r@ == preferences_text(trusted_contents(memories_view(memories@))),
{
    proof {
        reveal_strlit("- ");
        reveal_strlit("\n");
    }
    let ghost ms = memories_view(memories@);
    let mut lines: Vec<Vec<char>> = Vec::new();
    let mut i: usize = 0;
    while i < memories.len()
        invariant
            0 <= i <= memories@.len(),
            ms == memories_view(memories@),
            seqs_of(lines@) == trusted_contents(ms.take(i as int)).map_values(
                |x: Seq<char>| "- "@ + x,
            ),
            trusted_contents(ms.take(i as int)).len() == lines@.len(),
        decreases memories@.len() - i,
    {
        assert(ms.take(i + 1).drop_last() =~= ms.take(i as int));
        let m = &memories[i];
        assert(ms[i as int] == (m.0, m.1@));
        assert(ms.take(i + 1).last() == ms[i as int]);
        if m.0.is_trusted() && lines.len() < RECALL_LIMIT {
            let mut line = chars_of("- ");
            append_str(&mut line, m.1.as_str());
            let ghost before = seqs_of(lines@);
            lines.push(line);
            assert(crate::memory::trusted(m.0));
            assert(trusted_contents(ms.take(i + 1)) == trusted_contents(ms.take(i as int)).push(
                m.1@,
            ));
            assert(seqs_of(lines@) =~= before.push("- "@ + m.1@));
            assert(seqs_of(lines@) =~= trusted_contents(ms.take(i + 1)).map_values(
                |x: Seq<char>| "- "@ + x,
            ));
        }
        i = i + 1;
    }
    assert(ms.take(memories@.len() as int) =~= ms);
    if lines.len() == 0 {
        return "(no relevant stored preferences found)".to_string();
    }
    let mut out = chars_of(
        "stored verified preferences (revealed signal \u{2014} these outrank merely stated ones):\n",
    );
    let nl = chars_of("\n");
    let body = join_chars(&lines, nl.as_slice());
    append_chars(&mut out, body.as_slice());
    string_of(out.as_slice())
}

/// The strength is one of the two allowed words.
pub open spec fn strength_ok(s: Seq<char>) -> bool {
    s == "revealed"@ || s == "stated"@
}

/// The message for preference arrays of different lengths.
pub open spec fn preference_arity_message(np: nat, ns: nat, nt: nat) -> Seq<char> {
    "preference arrays disagree: "@ + decimal(np) + " texts, "@ + decimal(ns) + " signals, "@
        + decimal(nt) + " strengths"@
}

/// The message for divergence arrays of different lengths.
pub open spec fn divergence_arity_message(nd: nat, ns: nat) -> Seq<char> {
    "divergence arrays disagree: "@ + decimal(nd) + " questions, "@ + decimal(ns) + " signals"@
}

/// The message for a strength that is neither allowed word.
pub open spec fn strength_message(bad: Seq<char>) -> Seq<char> {
    "preference strength "@ + crate::text::debug_str(bad)
        + " is not \"revealed\" or \"stated\" \u{2014} a malformed inference is a failed pass"@
}

/// `r` holds the pass's arrays zipped, the objective and the signal level.
pub open spec fn assembled(r: ElicitResult, pass: ElicitPass, memory_consulted: bool) -> bool {
    &&& r.assumed_objective@ == pass.assumed_objective@
    &&& r.signal_level == pass.signal_level
    &&& r.memory_consulted == memory_consulted
    &&& r.governing_preferences@.len() == pass.preference_texts@.len()
    &&& forall|i: int|
        0 <= i < r.governing_preferences@.len() ==> {
            &&& (#[trigger] r.governing_preferences@[i]).preference@ == pass.preference_texts@[i]@
            &&& r.governing_preferences@[i].signal@ == pass.preference_signals@[i]@
            &&& r.governing_preferences@[i].strength@ == pass.preference_strengths@[i]@
        }
    &&& r.divergence_points@.len() == pass.divergence_questions@.len()
    &&& forall|i: int|
        0 <= i < r.divergence_points@.len() ==> {
            &&& (#[trigger] r.divergence_points@[i]).question@ == pass.divergence_questions@[i]@
            &&& r.divergence_points@[i].signal@ == pass.divergence_signals@[i]@
        }
}

/// Assemble the result: the parallel arrays must agree in length and every
/// strength must be "revealed" or "stated" (the first bad one is named).
pub fn assemble(pass: ElicitPass, memory_consulted: bool) -> (r: Result<ElicitResult, AppError>)
    ensures
        ({
            let np = pass.preference_texts@.len();
            let ns = pass.preference_signals@.len();
            let nt = pass.preference_strengths@.len();
            let nd = pass.divergence_questions@.len();
            let nds = pass.divergence_signals@.len();
            let st = strs_of(pass.preference_strengths@);
            &&& (ns != np || nt != np) ==> (r matches Err(e) && validation_failure_is(
                e,
                preference_arity_message(np, ns, nt),
            ))
            &&& (ns == np && nt == np && nds != nd) ==> (r matches Err(e) && validation_failure_is(
                e,
                divergence_arity_message(nd, nds),
            ))
            &&& (ns == np && nt == np && nds == nd) ==> ((r is Ok <==> forall|i: int|
                0 <= i < nt ==> strength_ok(#[trigger] st[i])) && (r matches Err(e)
                ==> exists|i: int|
                0 <= i < nt && !strength_ok(#[trigger] st[i]) && (forall|j: int|
                    0 <= j < i ==> strength_ok(st[j])) && validation_failure_is(
                    e,
                    strength_message(st[i]),
                )) && (r matches Ok(res) ==> assembled(res, pass, memory_consulted)))
        }),
{
    let np = pass.preference_texts.len();
    let ns = pass.preference_signals.len();
    let nt = pass.preference_strengths.len();
    if ns != np || nt != np {
        let mut m: Vec<char> = Vec::new();
        append_str(&mut m, "preference arrays disagree: ");
        append_decimal(&mut m, np as u64);
        append_str(&mut m, " texts, ");
        append_decimal(&mut m, ns as u64);
        append_str(&mut m, " signals, ");
        append_decimal(&mut m, nt as u64);
        append_str(&mut m, " strengths");
        return Err(AppError::ValidationFailure(string_of(m.as_slice())));
    }
    let nd = pass.divergence_questions.len();
    let nds = pass.divergence_signals.len();
    if nds != nd {
        let mut m: Vec<char> = Vec::new();
        append_str(&mut m, "divergence arrays disagree: ");
        append_decimal(&mut m, nd as u64);
        append_str(&mut m, " questions, ");
        append_decimal(&mut m, nds as u64);
        append_str(&mut m, " signals");
        return Err(AppError::ValidationFailure(string_of(m.as_slice())));
    }
    proof {
        reveal_strlit("revealed");
        reveal_strlit("stated");
    }
    let ghost st = strs_of(pass.preference_strengths@);
    let mut i: usize = 0;
    while i < nt
        invariant
            0 <= i <= nt,
            nt == pass.preference_strengths@.len(),
            nt == pass.preference_texts@.len(),
            nt == pass.preference_signals@.len(),
            pass.divergence_questions@.len() == pass.divergence_signals@.len(),
            st == strs_of(pass.preference_strengths@),
            forall|j: int| 0 <= j < i ==> strength_ok(#[trigger] st[j]),
        decreases nt - i,
    {
        let s = pass.preference_strengths[i].as_str();
        if !str_eq(s, "revealed") && !str_eq(s, "stated") {
            assert(!strength_ok(st[i as int]));
            let mut m: Vec<char> = Vec::new();
            append_str(&mut m, "preference strength ");
            let q = crate::text::debug_quote(s);
            append_str(&mut m, q.as_str());
            append_str(
                &mut m,
                " is not \"revealed\" or \"stated\" \u{2014} a malformed inference is a failed pass",
            );
            return Err(AppError::ValidationFailure(string_of(m.as_slice())));
        }
        i = i + 1;
    }
    let mut prefs: Vec<GoverningPreference> = Vec::new();
    let mut k: usize = 0;
    while k < np
        invariant
            0 <= k <= np,
            np == pass.preference_texts@.len(),
            np == pass.preference_signals@.len(),
            np == pass.preference_strengths@.len(),
            prefs@.len() == k,
            forall|j: int|
                0 <= j < k ==> {
                    &&& (#[trigger] prefs@[j]).preference@ == pass.preference_texts@[j]@
                    &&& prefs@[j].signal@ == pass.preference_signals@[j]@
                    &&& prefs@[j].strength@ == pass.preference_strengths@[j]@
                },
        decreases np - k,
    {
        prefs.push(
            GoverningPreference {
                preference: pass.preference_texts[k].clone(),
                signal: pass.preference_signals[k].clone(),
                strength: pass.preference_strengths[k].clone(),
            },
        );
        k = k + 1;
    }
    let mut points: Vec<DivergencePoint> = Vec::new();
    let mut k: usize = 0;
    while k < nd
        invariant
            0 <= k <= nd,
            nd == pass.divergence_questions@.len(),
            nd == pass.divergence_signals@.len(),
            points@.len() == k,
            forall|j: int|
                0 <= j < k ==> {
                    &&& (#[trigger] points@[j]).question@ == pass.divergence_questions@[j]@
                    &&& points@[j].signal@ == pass.divergence_signals@[j]@
                },
        decreases nd - k,
    {
        points.push(
            DivergencePoint {
                question: pass.divergence_questions[k].clone(),
                signal: pass.divergence_signals[k].clone(),
            },
        );
        k = k + 1;
    }
    Ok(
        ElicitResult {
            assumed_objective: pass.assumed_objective,
            governing_preferences: prefs,
            divergence_points: points,
            signal_level: pass.signal_level,
            memory_consulted,
        },
    )
}

} // verus!
