//! The Unstick corrective: commit a looping worker to exactly one concrete
//! next step, never a restatement of what was already tried.
use vstd::prelude::*;
use crate::error::{invalid_input_is, validation_failure_is, AppError};
use crate::text::{
    lemma_first_occurrence_exists, lemma_occurs_in_piece, lemma_trim_is_piece,
    append_chars, append_str, chars_of, find_from, fold_loose, fold_loose_chars, is_blank_seq,
    is_first_occurrence, join, join_chars, lemma_first_occurrence_unique, occurs_at, replace_all,
    seqs_of, split_words, str_is_blank, string_of, strs_of, sub_chars, total_chars, total_len,
    trim_chars, trim_seq, words,
};

verus! {

/// Tool id as exposed over MCP.
pub const UNSTICK_ID: &'static str = "unstick";

/// The MCP tool description.
pub const UNSTICK_DESCRIPTION: &'static str = "Break a stuck loop by committing to one concrete next step. Call when you have a goal, you have tried things, and you are producing plausible motion that goes nowhere. Provide the goal, where you are blocked, and what you already tried; you get back exactly one immediately actionable step with a rationale - never a menu of options, never a plan. An external frame breaks the loop you cannot see from inside.";

/// The unsticker profile: slots for the goal, the blocker and the tried list.
pub const PROMPT_TEMPLATE: &'static str = "You are an external unsticker. A worker is stuck on a task and cannot see the way forward from inside their loop. Commit them to exactly ONE next step.\n\nRules:\n1. Exactly one step: a single concrete, immediately actionable action. Never offer alternatives (\"either X or Y\"), never a multi-step plan, never \"consider...\".\n2. Do not repeat anything from the already-tried list, and do not rephrase a tried item as if it were new.\n3. Prefer the step that produces the most INFORMATION about the blocker if the cause is unclear; prefer the step that makes direct PROGRESS if the cause is clear.\n4. The rationale is one or two sentences: why this step breaks the loop.\n5. watch_for is the single most likely pitfall of the step, or null if none stands out.\n\nGoal:\n<<goal>>\n\nWhere they are blocked:\n<<blocked>>\n\nAlready tried:\n<<tried>>\n";

/// The marker a client that drops the `blocked` field uses to carry it
/// inside `goal`.
pub const BLOCKED_MARKER: &'static str = "||BLOCKED||";

/// Tool input.
#[derive(Debug, Clone)]
pub struct UnstickParams {
    /// What the worker is trying to achieve.
    pub goal: String,
    /// Where they are blocked (may arrive inside `goal` behind the marker).
    pub blocked: String,
    /// What they already tried.
    pub tried: Option<Vec<String>>,
}

/// The one committed step.
#[derive(Debug, Clone)]
pub struct NextStep {
    /// A single concrete, immediately actionable action.
    pub next_step: String,
    /// Why this step breaks the loop.
    pub rationale: String,
    /// The most likely pitfall, if one stands out.
    pub watch_for: Option<String>,
}

/// One Unstick run: the step plus token usage.
#[derive(Debug)]
pub struct UnstickRun {
    /// The committed step.
    pub step: NextStep,
    /// Input tokens of the call.
    pub input_tokens: u64,
    /// Output tokens of the call.
    pub output_tokens: u64,
}

/// The view of the marker.
pub open spec fn marker() -> Seq<char> {
    "||BLOCKED||"@
}

/// `s` up to the first marker, or all of `s` without one.
pub open spec fn before_marker(s: Seq<char>) -> Seq<char> {
    if exists|i: int| is_first_occurrence(s, marker(), i) {
        s.subrange(0, choose|i: int| is_first_occurrence(s, marker(), i))
    } else {
        s
    }
}

/// The (goal, blocked) pair after recovering a dropped `blocked`: with a
/// marker in `goal`, the goal is the trimmed text before it, and a blank
/// `blocked` becomes the trimmed segment after the first marker and before
/// any next one; without a marker nothing changes.
pub open spec fn normalized(goal: Seq<char>, blocked: Seq<char>) -> (Seq<char>, Seq<char>) {
    if exists|i: int| is_first_occurrence(goal, marker(), i) {
        let i = choose|i: int| is_first_occurrence(goal, marker(), i);
        let tail = goal.subrange(i + marker().len(), goal.len() as int);
        let recovered = trim_seq(before_marker(tail));
        (trim_seq(goal.subrange(0, i)), if is_blank_seq(blocked) {
            recovered
        } else {
            blocked
        })
    } else {
        (goal, blocked)
    }
}

/// The first occurrence of the marker in `v`, when there is one.
fn find_marker(v: &[char]) -> (r: Option<usize>)
    ensures
        r matches Some(i) ==> is_first_occurrence(v@, marker(), i as int) && i + marker().len()
            <= v@.len(),
        r is None ==> !exists|i: int| is_first_occurrence(v@, marker(), i),
{
    let m = chars_of(BLOCKED_MARKER);
    let r = find_from(v, m.as_slice(), 0);
    match r {
        Some(i) => {
            proof {
                lemma_first_occurrence_unique(v@, marker(), i as int);
            }
            Some(i)
        },
        None => {
            assert forall|i: int| !is_first_occurrence(v@, marker(), i) by {
                if 0 <= i {
                    assert(!occurs_at(v@, marker(), i));
                }
            }
            None
        },
    }
}

impl UnstickParams {
    /// Recover a dropped `blocked` from a marker block in `goal`; the marker
    /// text is always stripped from the goal, and a present `blocked` is
    /// never overwritten.
    pub fn normalize(&mut self)
        ensures
            (final(self).goal@, final(self).blocked@) == normalized(old(self).goal@, old(self).blocked@),
            final(self).tried == old(self).tried,
    {
        proof {
            reveal_strlit("||BLOCKED||");
        }
        assert(marker().len() == 11);
        let g = chars_of(self.goal.as_str());
        match find_marker(g.as_slice()) {
            None => {},
            Some(idx) => {
                let ghost gs = g@;
                proof {
                    lemma_first_occurrence_unique(gs, marker(), idx as int);
                }
                let glen = g.len();
                assert(idx + 11 <= glen);
                let head = sub_chars(g.as_slice(), 0, idx);
                let tail = sub_chars(g.as_slice(), idx + 11, glen);
                let seg = match find_marker(tail.as_slice()) {
                    Some(j) => {
                        proof {
                            lemma_first_occurrence_unique(tail@, marker(), j as int);
                        }
                        sub_chars(tail.as_slice(), 0, j)
                    },
                    None => tail,
                };
                let recovered = trim_chars(seg.as_slice());
                let new_goal = trim_chars(head.as_slice());
                self.goal = string_of(new_goal.as_slice());
                if str_is_blank(self.blocked.as_str()) {
                    self.blocked = string_of(recovered.as_slice());
                }
            },
        }
    }
}

/// What the `<<tried>>` slot carries: one `- item` line per tried item, or
/// a placeholder when nothing was tried.
pub open spec fn tried_text(tried: Option<Seq<Seq<char>>>) -> Seq<char> {
    match tried {
        Some(items) => if items.len() > 0 {
            join(items.map_values(|x: Seq<char>| "- "@ + x), "\n"@)
        } else {
            "(nothing yet)"@
        },
        None => "(nothing yet)"@,
    }
}

/// The tried items as character sequences.
pub open spec fn tried_view(tried: Option<Vec<String>>) -> Option<Seq<Seq<char>>> {
    match tried {
        Some(v) => Some(strs_of(v@)),
        None => None,
    }
}

/// Build the prompt: the goal, the blocker and the tried list are the only
/// dynamic content.
pub fn build_prompt(template: &str, params: &UnstickParams) -> (r: String)
    ensures
        r@ == replace_all(
            replace_all(replace_all(template@, "<<goal>>"@, params.goal@), "<<blocked>>"@, params.blocked@),
            "<<tried>>"@,
            tried_text(tried_view(params.tried)),
        ),
{
    proof {
        reveal_strlit("<<goal>>");
        reveal_strlit("<<blocked>>");
        reveal_strlit("<<tried>>");
        reveal_strlit("(nothing yet)");
        reveal_strlit("- ");
        reveal_strlit("\n");
    }
    let tried = match &params.tried {
        Some(items) => {
            if items.len() == 0 {
                chars_of("(nothing yet)")
            } else {
                let mut lines: Vec<Vec<char>> = Vec::new();
                let mut i: usize = 0;
                while i < items.len()
                    invariant
                        0 <= i <= items@.len(),
                        seqs_of(lines@) == strs_of(items@).take(i as int).map_values(
                            |x: Seq<char>| "- "@ + x,
                        ),
                    decreases items@.len() - i,
                {
                    let mut line = chars_of("- ");
                    let item = chars_of(items[i].as_str());
                    append_chars(&mut line, item.as_slice());
                    let ghost before = seqs_of(lines@);
                    lines.push(line);
                    assert(strs_of(items@).take(i + 1) =~= strs_of(items@).take(i as int).push(
                        items@[i as int]@,
                    ));
                    assert(seqs_of(lines@) =~= before.push("- "@ + items@[i as int]@));
                    assert(seqs_of(lines@) =~= strs_of(items@).take(i + 1).map_values(
                        |x: Seq<char>| "- "@ + x,
                    ));
                    i = i + 1;
                }
                assert(strs_of(items@).take(items@.len() as int) =~= strs_of(items@));
                let nl = chars_of("\n");
                join_chars(&lines, nl.as_slice())
            }
        },
        None => chars_of("(nothing yet)"),
    };
    let t = chars_of(template);
    let t = super::fill(t.as_slice(), "<<goal>>", params.goal.as_str());
    let t = super::fill(t.as_slice(), "<<blocked>>", params.blocked.as_str());
    let tried_s = string_of(tried.as_slice());
    let t = super::fill(t.as_slice(), "<<tried>>", tried_s.as_str());
    string_of(t.as_slice())
}

/// Characters over every input field that reaches the prompt.
pub open spec fn input_total(params: UnstickParams) -> nat {
    params.goal@.len() + params.blocked@.len() + match params.tried {
        Some(v) => total_len(strs_of(v@)),
        None => 0,
    }
}

/// Validate input before any model call.
pub fn check_input(params: &UnstickParams, max_chars: usize) -> (r: Result<(), AppError>)
    ensures
        r is Ok <==> !is_blank_seq(params.goal@) && !is_blank_seq(params.blocked@) && input_total(
            *params,
        ) <= max_chars,
        r matches Err(e) ==> {
            &&& is_blank_seq(params.goal@) ==> invalid_input_is(e, "goal is empty or whitespace-only"@)
            &&& !is_blank_seq(params.goal@) && is_blank_seq(params.blocked@) ==> invalid_input_is(
                e,
                "blocked is empty or whitespace-only"@,
            )
            &&& !is_blank_seq(params.goal@) && !is_blank_seq(params.blocked@) ==> invalid_input_is(
                e,
                super::combined_message(input_total(*params), max_chars as nat),
            )
        },
{
    if str_is_blank(params.goal.as_str()) {
        return Err(AppError::InvalidInput("goal is empty or whitespace-only".to_string()));
    }
    if str_is_blank(params.blocked.as_str()) {
        return Err(AppError::InvalidInput("blocked is empty or whitespace-only".to_string()));
    }
    let tried: u128 = match &params.tried {
        Some(v) => total_chars(v),
        None => 0,
    };
    let total: u128 = crate::text::char_count(params.goal.as_str()) as u128
        + crate::text::char_count(params.blocked.as_str()) as u128 + tried;
    if total > max_chars as u128 {
        return Err(super::combined_too_long(total, max_chars));
    }
    Ok(())
}

/// The loose form two steps are compared in: ASCII-lowercased letters and
/// digits, punctuation dropped, whitespace runs collapsed to one space.
pub open spec fn loose(s: Seq<char>) -> Seq<char> {
    join(words(fold_loose(s), false), " "@)
}

/// Normalize a step for the restatement comparison.
pub fn normalize(text: &str) -> (r: String)
    ensures
        r@ == loose(text@),
{
    proof {
        reveal_strlit(" ");
    }
    let v = chars_of(text);
    let f = fold_loose_chars(v.as_slice());
    let ws = split_words(f.as_slice(), false);
    let sp = chars_of(" ");
    let j = join_chars(&ws, sp.as_slice());
    string_of(j.as_slice())
}

/// Tried item `i` is restated by the step.
pub open spec fn restates(tried: Seq<Seq<char>>, i: int, step: Seq<char>) -> bool {
    !is_blank_seq(tried[i]) && loose(tried[i]) == loose(step)
}

/// The message for a step that restates a tried item.
pub open spec fn restated_message(item: Seq<char>) -> Seq<char> {
    "next_step restates an already-tried item: "@ + crate::text::debug_str(item)
}

/// The tried items, none when absent.
pub open spec fn tried_seq(tried: Option<Vec<String>>) -> Seq<Seq<char>> {
    match tried {
        Some(v) => strs_of(v@),
        None => Seq::empty(),
    }
}

/// Item `i` is the first tried item the step restates.
pub open spec fn first_restated(t: Seq<Seq<char>>, i: int, step: Seq<char>) -> bool {
    &&& 0 <= i < t.len()
    &&& restates(t, i, step)
    &&& forall|j: int| 0 <= j < i ==> !#[trigger] restates(t, j, step)
}

/// Validate the committed step: it is not blank, and it is not a
/// restatement of any non-blank tried item (the first one found is named).
pub fn check_step(params: &UnstickParams, step: &NextStep) -> (r: Result<(), AppError>)
    ensures
        r is Ok <==> !is_blank_seq(step.next_step@) && forall|i: int|
            0 <= i < tried_seq(params.tried).len() ==> !#[trigger] restates(
                tried_seq(params.tried),
                i,
                step.next_step@,
            ),
        is_blank_seq(step.next_step@) ==> (r matches Err(e) && validation_failure_is(
            e,
            "next_step is empty \u{2014} a committed step is required"@,
        )),
        !is_blank_seq(step.next_step@) && r is Err ==> (r matches Err(e) && exists|i: int|
            first_restated(tried_seq(params.tried), i, step.next_step@) && validation_failure_is(
                e,
                restated_message(tried_seq(params.tried)[i]),
            )),
{
    if str_is_blank(step.next_step.as_str()) {
        return Err(AppError::ValidationFailure("next_step is empty \u{2014} a committed step is required".to_string()));
    }
    let norm = normalize(step.next_step.as_str());
    match &params.tried {
        None => Ok(()),
        Some(items) => {
            let ghost t = strs_of(items@);
            assert(tried_seq(params.tried) == t);
            let mut i: usize = 0;
            while i < items.len()
                invariant
                    0 <= i <= items@.len(),
                    t == strs_of(items@),
                    tried_seq(params.tried) == t,
                    !is_blank_seq(step.next_step@),
                    norm@ == loose(step.next_step@),
                    forall|j: int| 0 <= j < i ==> !#[trigger] restates(t, j, step.next_step@),
                decreases items@.len() - i,
            {
                let item = &items[i];
                if !str_is_blank(item.as_str()) {
                    let n = normalize(item.as_str());
                    if crate::text::str_eq(n.as_str(), norm.as_str()) {
                        assert(t[i as int] == item@);
                        assert(restates(t, i as int, step.next_step@));
                        let mut m: Vec<char> = Vec::new();
                        append_str(&mut m, "next_step restates an already-tried item: ");
                        let q = crate::text::debug_quote(item.as_str());
                        append_str(&mut m, q.as_str());
                        let e = AppError::ValidationFailure(string_of(m.as_slice()));
                        assert(validation_failure_is(e, restated_message(t[i as int])));
                        assert(first_restated(t, i as int, step.next_step@));
                        return Err(e);
                    }
                }
                i = i + 1;
            }
            Ok(())
        },
    }
}


/// No occurrence of the marker before its first occurrence.
proof fn lemma_prefix_clear(s: Seq<char>, i: int)
    requires
        is_first_occurrence(s, marker(), i),
    ensures
        forall|j: int| !occurs_at(s.subrange(0, i), marker(), j),
{
    reveal_strlit("||BLOCKED||");
    assert(marker().len() == 11);
    assert forall|j: int| !occurs_at(s.subrange(0, i), marker(), j) by {
        if occurs_at(s.subrange(0, i), marker(), j) {
            lemma_occurs_in_piece(s, marker(), 0, i, j);
            assert(j < i);
            assert(!occurs_at(s, marker(), j));
        }
    }
}

/// Trimming a marker-free text keeps it marker-free.
proof fn lemma_trim_clear(s: Seq<char>)
    requires
        forall|j: int| !occurs_at(s, marker(), j),
    ensures
        forall|j: int| !occurs_at(trim_seq(s), marker(), j),
{
    lemma_trim_is_piece(s);
    let (a, b) = choose|a: int, b: int| 0 <= a <= b <= s.len() && trim_seq(s) == s.subrange(a, b);
    assert forall|j: int| !occurs_at(trim_seq(s), marker(), j) by {
        if occurs_at(trim_seq(s), marker(), j) {
            lemma_occurs_in_piece(s, marker(), a, b, j);
        }
    }
}

/// The text up to the first marker holds no marker.
proof fn lemma_before_marker_clear(s: Seq<char>)
    ensures
        forall|j: int| !occurs_at(before_marker(s), marker(), j),
{
    if exists|i: int| is_first_occurrence(s, marker(), i) {
        let i = choose|i: int| is_first_occurrence(s, marker(), i);
        lemma_prefix_clear(s, i);
    } else {
        assert forall|j: int| !occurs_at(s, marker(), j) by {
            if occurs_at(s, marker(), j) {
                lemma_first_occurrence_exists(s, marker(), j);
            }
        }
    }
}

/// The marker never leaks: after recovery neither the goal nor a recovered
/// blocker holds it, and a blocker that arrived is kept as it came.
pub proof fn lemma_marker_never_leaks(goal: Seq<char>, blocked: Seq<char>)
    requires
        exists|i: int| is_first_occurrence(goal, marker(), i),
    ensures
        forall|j: int| !occurs_at(normalized(goal, blocked).0, marker(), j),
        is_blank_seq(blocked) ==> forall|j: int| !occurs_at(normalized(goal, blocked).1, marker(), j),
        !is_blank_seq(blocked) ==> normalized(goal, blocked).1 == blocked,
{
    let i = choose|i: int| is_first_occurrence(goal, marker(), i);
    lemma_prefix_clear(goal, i);
    lemma_trim_clear(goal.subrange(0, i));
    let tail = goal.subrange(i + marker().len(), goal.len() as int);
    lemma_before_marker_clear(tail);
    lemma_trim_clear(before_marker(tail));
}

} // verus!
