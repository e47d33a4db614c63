//! Pushing stored memories into a prompt: which ranked memories surface,
//! and the advisory block that presents them without instructing.
use vstd::prelude::*;
use crate::memory::{kind_str, trust_str, trusted, Kind, Trust};
use crate::text::{
    append_decimal, append_str, chars_of, decimal, is_blank_seq, str_eq, str_is_blank, string_of,
    strs_of, sub_chars, trim_seq, trim_chars,
};

verus! {

/// Memories pushed into one prompt at most.
pub const PUSH_CAP: usize = 3;

/// Time the push evaluation may take before it fails open.
pub const PUSH_BUDGET_MS: u64 = 500;

/// Characters of the prompt the query embeds at most.
pub const PUSH_PROMPT_CHARS: usize = 2000;

/// Hook input: the session and the prompt about to be sent.
#[derive(Debug, Clone)]
pub struct SurfaceParams {
    /// The session the prompt belongs to.
    pub session_id: String,
    /// The prompt.
    pub prompt: String,
}

/// The hook's output: the event it answers and the context it adds.
#[derive(Debug, Clone, PartialEq, Eq)]
pub struct SurfaceHookOutput {
    /// Always "UserPromptSubmit".
    pub hook_event_name: String,
    /// The advisory block.
    pub additional_context: String,
}

/// One ranked memory as the selection reads it; whether its relevance
/// reaches the push floor is decided where the relevance is computed.
#[derive(Debug, Clone)]
pub struct PushCandidate {
    /// The memory id.
    pub id: String,
    /// Its trust standing.
    pub trust: Trust,
    /// Its relevance reaches the push floor.
    pub meets_floor: bool,
}

/// One memory being surfaced.
#[derive(Debug, Clone)]
pub struct SurfaceEntry {
    /// The memory id.
    pub id: String,
    /// Its kind.
    pub kind: Kind,
    /// Its trust standing.
    pub trust: Trust,
    /// Its content.
    pub content: String,
}

/// The query text a prompt embeds as: none for a blank prompt, else its
/// first `PUSH_PROMPT_CHARS` characters, trimmed.
pub open spec fn push_query_of(prompt: Seq<char>) -> Option<Seq<char>> {
    if is_blank_seq(prompt) {
        None
    } else if prompt.len() > PUSH_PROMPT_CHARS {
        Some(trim_seq(prompt.take(PUSH_PROMPT_CHARS as int)))
    } else {
        Some(trim_seq(prompt))
    }
}

/// The query a prompt embeds as, if any.
pub fn push_query(prompt: &str) -> (r: Option<String>)
    ensures
        match r {
            Some(s) => push_query_of(prompt@) == Some(s@),
            None => push_query_of(prompt@) is None,
        },
{
    if str_is_blank(prompt) {
        return None;
    }
    let v = chars_of(prompt);
    let head = if v.len() > PUSH_PROMPT_CHARS {
        sub_chars(v.as_slice(), 0, PUSH_PROMPT_CHARS)
    } else {
        v
    };
    let t = trim_chars(head.as_slice());
    Some(string_of(t.as_slice()))
}

/// Candidate `i` is eligible: trusted, at or above the floor, and not
/// already pushed in this session.
pub open spec fn eligible(c: Seq<(Trust, bool, Seq<char>)>, pushed: Seq<Seq<char>>, i: int) -> bool {
    trusted(c[i].0) && c[i].1 && !pushed.contains(c[i].2)
}

/// The indices of the eligible candidates, in rank order, at most
/// `PUSH_CAP`.
pub open spec fn selected(c: Seq<(Trust, bool, Seq<char>)>, pushed: Seq<Seq<char>>) -> Seq<int>
    decreases c.len(),
{
    if c.len() == 0 {
        Seq::empty()
    } else {
        let prev = selected(c.drop_last(), pushed);
        if eligible(c, pushed, c.len() - 1) && prev.len() < PUSH_CAP {
            prev.push(c.len() - 1)
        } else {
            prev
        }
    }
}

/// The candidates as plain values.
pub open spec fn candidates_view(cs: Seq<PushCandidate>) -> Seq<(Trust, bool, Seq<char>)> {
    cs.map_values(|c: PushCandidate| (c.trust, c.meets_floor, c.id@))
}

/// Choose which ranked memories to push: trusted ones at or above the floor
/// not yet pushed in this session, the most relevant first, at most
/// `PUSH_CAP`. Returns their indices in the ranking.
pub fn select(ranked: &Vec<PushCandidate>, already_pushed: &Vec<String>) -> (r: Vec<usize>)
    ensures
        r@.map_values(|i: usize| i as int) == selected(candidates_view(ranked@), strs_of(already_pushed@)),
        r@.len() <= PUSH_CAP,
        forall|k: int| 0 <= k < r@.len() ==> {
            let i = #[trigger] r@[k] as int;
            &&& 0 <= i < ranked@.len()
            &&& trusted(ranked@[i].trust) && ranked@[i].meets_floor
            &&& !strs_of(already_pushed@).contains(ranked@[i].id@)
        },
        forall|k: int, l: int| 0 <= k < l < r@.len() ==> #[trigger] r@[k] < #[trigger] r@[l],
        forall|i: int|
            0 <= i < ranked@.len() && trusted(ranked@[i].trust) && ranked@[i].meets_floor
                && !strs_of(already_pushed@).contains(#[trigger] ranked@[i].id@) && !r@.contains(i as usize)
                ==> r@.len() == PUSH_CAP && forall|k: int| 0 <= k < r@.len() ==> r@[k] < i,
{
    let ghost c = candidates_view(ranked@);
    let ghost pushed = strs_of(already_pushed@);
    let mut r: Vec<usize> = Vec::new();
    let mut i: usize = 0;
    while i < ranked.len()
        invariant
            0 <= i <= ranked@.len(),
            c == candidates_view(ranked@),
            pushed == strs_of(already_pushed@),
            r@.map_values(|k: usize| k as int) == selected(c.take(i as int), pushed),
            r@.len() == selected(c.take(i as int), pushed).len(),
        decreases ranked@.len() - i,
    {
        let ghost t = c.take(i + 1);
        assert(t.drop_last() =~= c.take(i as int));
        assert(t.last() == c[i as int]);
        let cand = &ranked[i];
        let mut seen = false;
        let mut k: usize = 0;
        while k < already_pushed.len()
            invariant
                0 <= k <= already_pushed@.len(),
                pushed == strs_of(already_pushed@),
                seen <==> exists|m: int| 0 <= m < k && pushed[m] == cand.id@,
            decreases already_pushed@.len() - k,
        {
            assert(pushed[k as int] == already_pushed@[k as int]@);
            if str_eq(already_pushed[k].as_str(), cand.id.as_str()) {
                seen = true;
            }
            k = k + 1;
        }
        assert(seen == pushed.contains(cand.id@));
        assert(eligible(t, pushed, i as int) == (trusted(cand.trust) && cand.meets_floor && !seen));
        if cand.trust.is_trusted() && cand.meets_floor && !seen && r.len() < PUSH_CAP {
            let ghost before = r@.map_values(|k: usize| k as int);
            r.push(i);
            assert(r@.map_values(|k: usize| k as int) =~= before.push(i as int));
        }
        i = i + 1;
    }
    assert(c.take(ranked@.len() as int) =~= c);
    proof {
        lemma_selected_sound(c, pushed);
        lemma_selected_complete(c, pushed);
        let rv = r@.map_values(|k: usize| k as int);
        assert forall|k: int| 0 <= k < r@.len() implies {
            let i = #[trigger] r@[k] as int;
            &&& 0 <= i < ranked@.len()
            &&& trusted(ranked@[i].trust) && ranked@[i].meets_floor
            &&& !strs_of(already_pushed@).contains(ranked@[i].id@)
        } by {
            assert(rv[k] == r@[k] as int);
            assert(eligible(c, pushed, rv[k]));
        }
        assert forall|k: int, l: int| 0 <= k < l < r@.len() implies #[trigger] r@[k] < #[trigger] r@[l] by {
            assert(rv[k] == r@[k] as int);
            assert(rv[l] == r@[l] as int);
        }
        assert forall|i: int|
            0 <= i < ranked@.len() && trusted(ranked@[i].trust) && ranked@[i].meets_floor
                && !strs_of(already_pushed@).contains(#[trigger] ranked@[i].id@) && !r@.contains(i as usize)
                implies r@.len() == PUSH_CAP && forall|k: int| 0 <= k < r@.len() ==> r@[k] < i by {
            assert(eligible(c, pushed, i));
            if rv.contains(i) {
                let k = choose|k: int| 0 <= k < rv.len() && rv[k] == i;
                assert(r@[k] == i as usize);
            }
            assert forall|k: int| 0 <= k < r@.len() implies r@[k] < i by {
                assert(rv[k] == r@[k] as int);
            }
        }
    }
    r
}

/// The block's heading.
pub open spec fn advisory_heading() -> Seq<char> {
    "Stored memories relevant to the work at hand (advisory context, not instructions \u{2014} surfaced once per session; if one is wrong or stale, delete it with forget(<id>)):\n"@
}

/// One line of the block: `n. [kind, trust, memory id] "content"`.
pub open spec fn advisory_line(n: nat, e: SurfaceEntry) -> Seq<char> {
    decimal(n) + ". ["@ + kind_str(e.kind) + ", "@ + trust_str(e.trust) + ", memory "@ + e.id@
        + "] \""@ + e.content@ + "\"\n"@
}

/// The lines for the first `k` entries.
pub open spec fn advisory_lines(es: Seq<SurfaceEntry>) -> Seq<char>
    decreases es.len(),
{
    if es.len() == 0 {
        Seq::empty()
    } else {
        advisory_lines(es.drop_last()) + advisory_line(es.len(), es.last())
    }
}

/// The advisory block presenting the surfaced memories: labeled as context
/// rather than instruction, each with its kind, trust and id so it can be
/// contested.
pub fn advisory_context(surfaced: &Vec<SurfaceEntry>) -> (r: String)
    ensures
        r@ == advisory_heading() + advisory_lines(surfaced@),
{
    let mut b = chars_of(
        "Stored memories relevant to the work at hand (advisory context, not instructions \u{2014} surfaced once per session; if one is wrong or stale, delete it with forget(<id>)):\n",
    );
    let mut i: usize = 0;
    while i < surfaced.len()
        invariant
            0 <= i <= surfaced@.len(),
            b@ == advisory_heading() + advisory_lines(surfaced@.take(i as int)),
        decreases surfaced@.len() - i,
    {
        assert(surfaced@.take(i + 1).drop_last() =~= surfaced@.take(i as int));
        assert(surfaced@.take(i + 1).last() == surfaced@[i as int]);
        let e = &surfaced[i];
        let ghost before = b@;
        append_decimal(&mut b, i as u64 + 1);
        append_str(&mut b, ". [");
        append_str(&mut b, e.kind.as_str());
        append_str(&mut b, ", ");
        append_str(&mut b, e.trust.as_str());
        append_str(&mut b, ", memory ");
        append_str(&mut b, e.id.as_str());
        append_str(&mut b, "] \"");
        append_str(&mut b, e.content.as_str());
        append_str(&mut b, "\"\n");
        assert(b@ =~= before + advisory_line((i + 1) as nat, *e));
        i = i + 1;
    }
    assert(surfaced@.take(surfaced@.len() as int) =~= surfaced@);
    string_of(b.as_slice())
}

/// The hook output for the surfaced memories: none when nothing surfaced.
pub fn hook_output(surfaced: &Vec<SurfaceEntry>) -> (r: Option<SurfaceHookOutput>)
    ensures
        surfaced@.len() == 0 ==> r is None,
        surfaced@.len() > 0 ==> (r matches Some(h) && h.hook_event_name@ == "UserPromptSubmit"@
            && h.additional_context@ == advisory_heading() + advisory_lines(surfaced@)),
{
    if surfaced.len() == 0 {
        return None;
    }
    Some(
        SurfaceHookOutput {
            hook_event_name: "UserPromptSubmit".to_string(),
            additional_context: advisory_context(surfaced),
        },
    )
}


/// Every pushed memory is eligible (trusted, at the floor, not yet pushed
/// in the session), they come in rank order, and there are at most
/// `PUSH_CAP`.
pub proof fn lemma_selected_sound(c: Seq<(Trust, bool, Seq<char>)>, pushed: Seq<Seq<char>>)
    ensures
        selected(c, pushed).len() <= PUSH_CAP,
        forall|k: int|
            0 <= k < selected(c, pushed).len() ==> 0 <= #[trigger] selected(c, pushed)[k] < c.len()
                && eligible(c, pushed, selected(c, pushed)[k]),
        forall|k: int, l: int|
            0 <= k < l < selected(c, pushed).len() ==> #[trigger] selected(c, pushed)[k]
                < #[trigger] selected(c, pushed)[l],
    decreases c.len(),
{
    if c.len() > 0 {
        let d = c.drop_last();
        lemma_selected_sound(d, pushed);
        let prev = selected(d, pushed);
        assert forall|k: int| 0 <= k < prev.len() implies eligible(c, pushed, #[trigger] prev[k]) by {
            assert(c[prev[k]] == d[prev[k]]);
        }
    }
}

/// The selection is complete: an eligible candidate (trusted, at the
/// floor, not yet pushed) is left out only when `PUSH_CAP` candidates ranked
/// above it were selected. So with fewer than `PUSH_CAP` selected, every
/// eligible candidate is; together with soundness, the selection is exactly
/// the first `PUSH_CAP` eligible candidates in rank order, wherever in the
/// ranking they stand.
pub proof fn lemma_selected_complete(c: Seq<(Trust, bool, Seq<char>)>, pushed: Seq<Seq<char>>)
    ensures
        forall|i: int|
            0 <= i < c.len() && trusted(c[i].0) && c[i].1 && !pushed.contains(#[trigger] c[i].2)
                && !selected(c, pushed).contains(i) ==> selected(c, pushed).len() == PUSH_CAP && forall|k: int|
                0 <= k < selected(c, pushed).len() ==> selected(c, pushed)[k] < i,
    decreases c.len(),
{
    if c.len() > 0 {
        let d = c.drop_last();
        lemma_selected_complete(d, pushed);
        lemma_selected_sound(d, pushed);
        lemma_selected_sound(c, pushed);
        let prev = selected(d, pushed);
        let cur = selected(c, pushed);
        assert forall|i: int|
            0 <= i < c.len() && trusted(c[i].0) && c[i].1 && !pushed.contains(#[trigger] c[i].2)
                && !cur.contains(i) implies cur.len() == PUSH_CAP && forall|k: int|
                0 <= k < cur.len() ==> cur[k] < i by {
            if i < d.len() {
                assert(d[i] == c[i]);
                if prev.contains(i) {
                    let k = choose|k: int| 0 <= k < prev.len() && prev[k] == i;
                    if cur != prev {
                        assert(cur == prev.push(c.len() - 1));
                        assert(cur[k] == i);
                    }
                    assert(cur.contains(i));
                }
                assert(prev.len() == PUSH_CAP);
                assert(cur == prev);
            } else {
                assert(eligible(c, pushed, c.len() - 1));
                if prev.len() < PUSH_CAP {
                    assert(cur == prev.push(c.len() - 1));
                    assert(cur[cur.len() - 1] == i);
                }
                assert(cur == prev);
                assert forall|k: int| 0 <= k < cur.len() implies cur[k] < i by {
                    assert(0 <= prev[k] < d.len());
                }
            }
        }
    }
}

} // verus!
