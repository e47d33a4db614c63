//! The Diverge corrective: independent passes each reframe the problem
//! through a distinct angle, and near-identical framings collapse to the
//! earliest.
use vstd::prelude::*;
use crate::error::{invalid_input_is, validation_failure_is, AppError};
use crate::modes::verify::{dominant_failure, dominant_is, Lens};
use crate::text::{
    append_decimal, append_str, char_count, chars_eq, chars_of, decimal, is_blank_seq, lowercase,
    replace_all, seqs_of, split_words, str_is_blank, str_to_lowercase, string_of, words,
};

verus! {

/// Tool id as exposed over MCP.
pub const DIVERGE_ID: &'static str = "diverge";

/// The MCP tool description.
pub const DIVERGE_DESCRIPTION: &'static str = "Break out of a single framing of a problem. Runs parallel stance-blind passes, each attacking the problem from a distinct angle (invert the goal, change whose problem it is, shift the time horizon, deny the load-bearing assumption, reframe the problem class), and returns a deduplicated set of genuinely different framings - each a one-line reframing plus what it changes, labeled with the angle that produced it. Use when you are anchored or tunnel-visioned and need real alternatives, not a more confident version of the framing you already hold. To judge whether a claim is true use verify; to commit to one next step use unstick.";

/// The reframing profile: slots for the lens, the problem and the context.
pub const PROMPT_TEMPLATE: &'static str = "You are helping someone who is stuck on ONE framing of a problem see it differently. You know nothing about who they are or which answer they prefer.\n\nDivergence lens for this pass \u{2014} reframe the problem THROUGH it, do not just restate the problem:\n<<lens>>\n\nRules:\n1. Produce ONE genuinely different framing of the problem under this lens \u{2014} a reframing the person locked on the obvious reading would not have reached on their own.\n2. `framing`: one self-contained sentence stating the alternative framing.\n3. `implication`: one self-contained sentence on what this framing changes or what it would mean to act on it.\n4. Do not judge whether anything is true and do not recommend a single action \u{2014} only open up a way of seeing the problem. If this lens genuinely yields nothing new, give the closest honest reframing rather than a hollow restatement.\n\nProblem the person is anchored on:\n<<problem>>\n\nContext provided with the problem (may be empty):\n<<context>>\n";

/// Number of divergence lenses; pass `i` uses lens `i % LENS_COUNT`.
pub const LENS_COUNT: usize = 5;

/// The name of divergence lens `k`.
pub open spec fn lens_name(k: int) -> Seq<char> {
    if k == 0 {
        "invert"@
    } else if k == 1 {
        "actor"@
    } else if k == 2 {
        "horizon"@
    } else if k == 3 {
        "assumption"@
    } else {
        "class"@
    }
}

/// Divergence lens `k` of the fixed set.
pub fn lens_at(k: usize) -> (l: Lens)
    requires
        k < LENS_COUNT,
    ensures
        l.name@ == lens_name(k as int),
{
    if k == 0 {
        Lens {
            name: "invert",
            directive: "Flip the goal. What if the opposite of the stated aim were the point \u{2014} what if the thing being treated as the problem is actually the solution, or the thing to protect? Reframe from the inversion.",
        }
    } else if k == 1 {
        Lens {
            name: "actor",
            directive: "Change whose problem this is. A different stakeholder, role, or user \u{2014} the person who maintains it, the newcomer, the one who pays, the adversary \u{2014} sees this situation as what, exactly? Reframe from their vantage.",
        }
    } else if k == 2 {
        Lens {
            name: "horizon",
            directive: "Shift the time scale. What does this look like at ten times shorter or ten times longer a horizon \u{2014} in an hour versus a decade? Reframe around the scale where the real stakes live.",
        }
    } else if k == 3 {
        Lens {
            name: "assumption",
            directive: "Name the single load-bearing assumption the stated framing quietly rests on, then deny it. If that assumption were false, what does the problem become? Reframe from its negation.",
        }
    } else {
        Lens {
            name: "class",
            directive: "Reframe the problem's category. What KIND of problem is this really \u{2014} is it actually a different class (a coordination problem dressed as a technical one, a naming problem dressed as a design one)? Reframe to the truer class.",
        }
    }
}

/// The fixed divergence lens set, in pass order.
pub fn lenses() -> (r: Vec<Lens>)
    ensures
        r@.len() == LENS_COUNT,
        forall|k: int| 0 <= k < 5 ==> (#[trigger] r@[k]).name@ == lens_name(k),
{
    let mut r: Vec<Lens> = Vec::new();
    let mut k: usize = 0;
    while k < LENS_COUNT
        invariant
            0 <= k <= 5,
            r@.len() == k,
            forall|j: int| 0 <= j < k ==> (#[trigger] r@[j]).name@ == lens_name(j),
        decreases 5 - k,
    {
        r.push(lens_at(k));
        k = k + 1;
    }
    r
}

/// The lens pass `i` uses: the set cycles deterministically.
pub fn lens_for_pass(i: usize) -> (l: Lens)
    ensures
        l.name@ == lens_name((i % LENS_COUNT) as int),
{
    lens_at(i % LENS_COUNT)
}

/// The divergence lens names are pairwise distinct.
pub proof fn lemma_lens_names_distinct(a: int, b: int)
    requires
        0 <= a < 5,
        0 <= b < 5,
        a != b,
    ensures
        lens_name(a) != lens_name(b),
{
    reveal_strlit("invert");
    reveal_strlit("actor");
    reveal_strlit("horizon");
    reveal_strlit("assumption");
    reveal_strlit("class");
    assert("invert"@[0] != "actor"@[0]);
    assert("invert"@[0] != "horizon"@[0]);
    assert("invert"@[0] != "assumption"@[0]);
    assert("invert"@[0] != "class"@[0]);
    assert("actor"@.len() != "horizon"@.len());
    assert("actor"@.len() != "assumption"@.len());
    assert("actor"@[0] != "class"@[0]);
    assert("horizon"@[0] != "assumption"@[0]);
    assert("horizon"@[0] != "class"@[0]);
    assert("assumption"@[0] != "class"@[0]);
}

/// Tool input.
#[derive(Debug, Clone)]
pub struct DivergeParams {
    /// The problem the person is anchored on.
    pub problem: String,
    /// Optional context.
    pub context: Option<String>,
}

/// What each pass is constrained to produce.
#[derive(Debug, Clone)]
pub struct DivergePass {
    /// The alternative framing.
    pub framing: String,
    /// What the framing changes.
    pub implication: String,
}

/// One framing, labeled with the lens of the pass that produced it.
#[derive(Debug, Clone)]
pub struct Perspective {
    /// The lens name.
    pub lens: String,
    /// The alternative framing.
    pub framing: String,
    /// What it changes.
    pub implication: String,
}

/// The aggregated output.
#[derive(Debug, Clone)]
pub struct DivergeResult {
    /// The deduplicated framings, earliest kept.
    pub perspectives: Vec<Perspective>,
    /// Passes that completed, before deduplication.
    pub passes: u32,
}

/// One Diverge run: the result plus summed token usage.
#[derive(Debug)]
pub struct DivergeRun {
    /// The aggregated result.
    pub result: DivergeResult,
    /// Input tokens summed across completed passes.
    pub input_tokens: u64,
    /// Output tokens summed across completed passes.
    pub output_tokens: u64,
}

/// Build the per-pass prompt: the lens, the problem and the context are the
/// only dynamic content.
pub fn build_prompt(template: &str, lens: &str, problem: &str, context: Option<&str>) -> (r: String)
    ensures
        r@ == replace_all(
            replace_all(replace_all(template@, "<<lens>>"@, lens@), "<<problem>>"@, problem@),
            "<<context>>"@,
            super::verify::opt_text(context),
        ),
{
    proof {
        reveal_strlit("<<lens>>");
        reveal_strlit("<<problem>>");
        reveal_strlit("<<context>>");
    }
    let t = chars_of(template);
    let t = super::fill(t.as_slice(), "<<lens>>", lens);
    let t = super::fill(t.as_slice(), "<<problem>>", problem);
    let t = match context {
        Some(c) => super::fill(t.as_slice(), "<<context>>", c),
        None => {
            proof {
                reveal_strlit("");
            }
            assert(""@ =~= Seq::<char>::empty());
            super::fill(t.as_slice(), "<<context>>", "")
        },
    };
    string_of(t.as_slice())
}

/// The message for an over-long problem.
pub open spec fn problem_too_long_message(len: nat, max: nat) -> Seq<char> {
    "problem is "@ + decimal(len) + " characters; the configured maximum is "@ + decimal(max)
        + " (INPUT_MAX_CHARS); it was not trimmed"@
}

/// Validate input before any model call.
pub fn check_input(params: &DivergeParams, max_chars: usize) -> (r: Result<(), AppError>)
    ensures
        r is Ok <==> !is_blank_seq(params.problem@) && params.problem@.len() <= max_chars,
        r matches Err(e) ==> (is_blank_seq(params.problem@) ==> invalid_input_is(
            e,
            "problem is empty or whitespace-only"@,
        )) && (!is_blank_seq(params.problem@) ==> invalid_input_is(
            e,
            problem_too_long_message(params.problem@.len(), max_chars as nat),
        )),
{
    if str_is_blank(params.problem.as_str()) {
        return Err(AppError::InvalidInput("problem is empty or whitespace-only".to_string()));
    }
    let len = char_count(params.problem.as_str());
    if len > max_chars {
        let mut m = chars_of("problem is ");
        append_decimal(&mut m, len as u64);
        append_str(&mut m, " characters; the configured maximum is ");
        append_decimal(&mut m, max_chars as u64);
        append_str(&mut m, " (INPUT_MAX_CHARS); it was not trimmed");
        return Err(AppError::InvalidInput(string_of(m.as_slice())));
    }
    Ok(())
}

/// A pass with a blank framing failed.
pub fn check_pass(pass: &DivergePass) -> (r: Result<(), AppError>)
    ensures
        r is Err <==> is_blank_seq(pass.framing@),
        r matches Err(e) ==> validation_failure_is(e, "perspective with an empty framing"@),
{
    if str_is_blank(pass.framing.as_str()) {
        return Err(AppError::ValidationFailure("perspective with an empty framing".to_string()));
    }
    Ok(())
}

/// The token set of a text: the lowercased text split on every character
/// that is not alphanumeric, empty pieces dropped.
pub open spec fn token_set(s: Seq<char>) -> Set<Seq<char>> {
    words(lowercase(s), true).to_set()
}

/// Two token sets are near-identical: their Jaccard similarity (intersection
/// over union; one for two empty sets) is at least 0.8.
pub open spec fn near_duplicate(a: Set<Seq<char>>, b: Set<Seq<char>>) -> bool {
    (a.len() == 0 && b.len() == 0) || 5 * a.intersect(b).len() >= 4 * a.union(b).len()
}

/// Items of `a` that `b` contains.
pub open spec fn count_in(a: Seq<Seq<char>>, b: Seq<Seq<char>>) -> nat
    decreases a.len(),
{
    if a.len() == 0 {
        0
    } else {
        count_in(a.drop_last(), b) + (if b.contains(a.last()) {
            1nat
        } else {
            0nat
        })
    }
}

pub proof fn lemma_count_in(a: Seq<Seq<char>>, b: Seq<Seq<char>>)
    requires
        a.no_duplicates(),
    ensures
        count_in(a, b) == a.to_set().intersect(b.to_set()).len(),
        a.to_set().intersect(b.to_set()).finite(),
    decreases a.len(),
{
    broadcast use vstd::seq_lib::seq_to_set_is_finite;
    if a.len() == 0 {
        assert(a.to_set().intersect(b.to_set()) =~= Set::empty());
    } else {
        let p = a.drop_last();
        let x = a.last();
        assert(p.no_duplicates());
        lemma_count_in(p, b);
        assert(a =~= p.push(x));
        p.lemma_push_to_set_commute(x);
        assert(!p.contains(x)) by {
            if p.contains(x) {
                let k = choose|k: int| 0 <= k < p.len() && p[k] == x;
                assert(a[k] == a[a.len() - 1]);
            }
        }
        if b.contains(x) {
            assert(a.to_set().intersect(b.to_set()) =~= p.to_set().intersect(b.to_set()).insert(x));
            assert(!p.to_set().intersect(b.to_set()).contains(x));
        } else {
            assert(a.to_set().intersect(b.to_set()) =~= p.to_set().intersect(b.to_set()));
        }
    }
}

/// The distinct tokens of a text, each once.
pub fn tokens(text: &str) -> (r: Vec<Vec<char>>)
    ensures
        seqs_of(r@).no_duplicates(),
        seqs_of(r@).to_set() == token_set(text@),
{
    let low = str_to_lowercase(text);
    let v = chars_of(low.as_str());
    let ws = split_words(v.as_slice(), true);
    let ghost w = seqs_of(ws@);
    let mut r: Vec<Vec<char>> = Vec::new();
    let mut i: usize = 0;
    while i < ws.len()
        invariant
            0 <= i <= ws@.len(),
            w == seqs_of(ws@),
            w == words(lowercase(text@), true),
            seqs_of(r@).no_duplicates(),
            seqs_of(r@).to_set() == w.take(i as int).to_set(),
        decreases ws@.len() - i,
    {
        let ghost before = seqs_of(r@);
        assert(w.take(i + 1) =~= w.take(i as int).push(w[i as int]));
        let mut found = false;
        let mut j: usize = 0;
        while j < r.len()
            invariant
                0 <= j <= r@.len(),
                0 <= i < ws@.len(),
                w == seqs_of(ws@),
                before == seqs_of(r@),
                found <==> exists|k: int| 0 <= k < j && before[k] == w[i as int],
            decreases r@.len() - j,
        {
            if chars_eq(r[j].as_slice(), ws[i].as_slice()) {
                assert(before[j as int] == w[i as int]);
                found = true;
            }
            j = j + 1;
        }
        if !found {
            let c = ws[i].clone();
            assert(c@ == w[i as int]);
            r.push(c);
            assert(seqs_of(r@) =~= before.push(w[i as int]));
            assert(!before.contains(w[i as int]));
            assert(before.push(w[i as int]).no_duplicates()) by {
                let q = before.push(w[i as int]);
                assert forall|x: int, y: int| 0 <= x < q.len() && 0 <= y < q.len() && x != y implies q[x] != q[y] by {
                    if x < before.len() && y < before.len() {
                    } else if x == before.len() {
                        assert(before[y] != w[i as int]);
                    } else {
                        assert(before[x] != w[i as int]);
                    }
                }
            }
            proof {
                before.lemma_push_to_set_commute(w[i as int]);
                w.take(i as int).lemma_push_to_set_commute(w[i as int]);
            }
            assert(seqs_of(r@).to_set() =~= w.take(i + 1).to_set());
        } else {
            assert(before.contains(w[i as int]));
            assert(w.take(i as int).to_set().contains(w[i as int]));
            proof {
                w.take(i as int).lemma_push_to_set_commute(w[i as int]);
            }
            assert(w.take(i + 1).to_set() =~= w.take(i as int).to_set());
        }
        i = i + 1;
    }
    assert(w.take(ws@.len() as int) =~= w);
    r
}

/// Whether two distinct-token lists are near-identical.
pub fn near_duplicate_tokens(a: &Vec<Vec<char>>, b: &Vec<Vec<char>>) -> (r: bool)
    requires
        seqs_of(a@).no_duplicates(),
        seqs_of(b@).no_duplicates(),
    ensures
        r == near_duplicate(seqs_of(a@).to_set(), seqs_of(b@).to_set()),
{
    let ghost sa = seqs_of(a@);
    let ghost sb = seqs_of(b@);
    proof {
        broadcast use vstd::seq_lib::seq_to_set_is_finite;
        sa.unique_seq_to_set();
        sb.unique_seq_to_set();
        lemma_count_in(sa, sb);
        vstd::set_lib::lemma_set_intersect_union_lens(sa.to_set(), sb.to_set());
    }
    let mut inter: usize = 0;
    let mut i: usize = 0;
    while i < a.len()
        invariant
            0 <= i <= a@.len(),
            sa == seqs_of(a@),
            sb == seqs_of(b@),
            inter <= i,
            inter == count_in(sa.take(i as int), sb),
        decreases a@.len() - i,
    {
        assert(sa.take(i + 1).drop_last() =~= sa.take(i as int));
        let mut found = false;
        let mut j: usize = 0;
        while j < b.len()
            invariant
                0 <= j <= b@.len(),
                0 <= i < a@.len(),
                sa == seqs_of(a@),
                sb == seqs_of(b@),
                found <==> exists|k: int| 0 <= k < j && sb[k] == sa[i as int],
            decreases b@.len() - j,
        {
            assert(sb[j as int] == b@[j as int]@);
            assert(sa[i as int] == a@[i as int]@);
            if chars_eq(b[j].as_slice(), a[i].as_slice()) {
                found = true;
            }
            j = j + 1;
        }
        assert(found == sb.contains(sa[i as int]));
        assert(sa.take(i + 1).last() == sa[i as int]);
        if found {
            inter = inter + 1;
        }
        i = i + 1;
    }
    assert(sa.take(a@.len() as int) =~= sa);
    let la = a.len() as u128;
    let lb = b.len() as u128;
    if la == 0 && lb == 0 {
        return true;
    }
    let union: u128 = la + lb - inter as u128;
    assert(sa.to_set().union(sb.to_set()) == sa.to_set() + sb.to_set());
    5 * (inter as u128) >= 4 * union
}

/// A perspective as plain values: (lens, framing, implication).
pub type PerspectiveView = (Seq<char>, Seq<char>, Seq<char>);

/// The view of a perspective.
pub open spec fn pview(p: Perspective) -> PerspectiveView {
    (p.lens@, p.framing@, p.implication@)
}

/// The views of a list of perspectives.
pub open spec fn pviews(ps: Seq<Perspective>) -> Seq<PerspectiveView> {
    ps.map_values(|p: Perspective| pview(p))
}

/// The perspectives kept by deduplication, in order: each is kept unless
/// its framing is near-identical to that of one already kept.
pub open spec fn kept(ps: Seq<PerspectiveView>) -> Seq<PerspectiveView>
    decreases ps.len(),
{
    if ps.len() == 0 {
        Seq::empty()
    } else {
        let prev = kept(ps.drop_last());
        let p = ps.last();
        if exists|k: int|
            0 <= k < prev.len() && near_duplicate(token_set(p.1), token_set(#[trigger] prev[k].1)) {
            prev
        } else {
            prev.push(p)
        }
    }
}

/// Drop framings near-identical to an earlier kept one; the earliest of a
/// near-identical group is the one kept.
pub fn dedup(perspectives: Vec<Perspective>) -> (r: Vec<Perspective>)
    ensures
        pviews(r@) == kept(pviews(perspectives@)),
{
    let ghost orig = perspectives@;
    let ghost ps = pviews(perspectives@);
    let n = perspectives.len();
    let mut rest = perspectives;
    let mut out: Vec<Perspective> = Vec::new();
    let mut toks: Vec<Vec<Vec<char>>> = Vec::new();
    let mut i: usize = 0;
    while i < n
        invariant
            0 <= i <= n,
            n == ps.len(),
            n == orig.len(),
            ps == pviews(orig),
            rest@ == orig.subrange(i as int, n as int),
            pviews(out@) == kept(ps.take(i as int)),
            toks@.len() == out@.len(),
            forall|k: int|
                0 <= k < toks@.len() ==> seqs_of(#[trigger] toks@[k]@).no_duplicates()
                    && seqs_of(toks@[k]@).to_set() == token_set(out@[k].framing@),
        decreases n - i,
    {
        let ghost prev = pviews(out@);
        assert(ps.take(i + 1).drop_last() =~= ps.take(i as int));
        let p = rest.remove(0);
        assert(rest@ =~= orig.subrange(i + 1, n as int));
        assert(p == orig[i as int]);
        assert(pview(p) == ps[i as int]);
        assert(ps.take(i + 1).last() == ps[i as int]);
        let t = tokens(p.framing.as_str());
        let mut dup = false;
        let mut k: usize = 0;
        while k < toks.len()
            invariant
                0 <= k <= toks@.len(),
                toks@.len() == out@.len(),
                prev == pviews(out@),
                seqs_of(t@).no_duplicates(),
                seqs_of(t@).to_set() == token_set(p.framing@),
                forall|x: int|
                    0 <= x < toks@.len() ==> seqs_of(#[trigger] toks@[x]@).no_duplicates()
                        && seqs_of(toks@[x]@).to_set() == token_set(out@[x].framing@),
                dup <==> exists|x: int|
                    0 <= x < k && near_duplicate(token_set(p.framing@), token_set(#[trigger] prev[x].1)),
            decreases toks@.len() - k,
        {
            let d = near_duplicate_tokens(&t, &toks[k]);
            if d {
                assert(prev[k as int].1 == out@[k as int].framing@);
                assert(near_duplicate(token_set(p.framing@), token_set(prev[k as int].1)));
                dup = true;
            } else {
                assert(prev[k as int].1 == out@[k as int].framing@);
            }
            k = k + 1;
        }
        if !dup {
            out.push(p);
            toks.push(t);
            assert(pviews(out@) =~= prev.push(ps[i as int]));
        }
        i = i + 1;
    }
    assert(ps.take(n as int) =~= ps);
    out
}

/// A diverge pass with its (input, output) token usage.
pub type DivergeTuple = (DivergePass, u64, u64);

/// The completed passes as labeled perspectives: pass `i` carries lens
/// `i % LENS_COUNT`, so a failed pass never shifts later labels.
pub open spec fn completed_views(ps: Seq<Result<DivergeTuple, AppError>>) -> Seq<PerspectiveView>
    decreases ps.len(),
{
    if ps.len() == 0 {
        Seq::empty()
    } else {
        let prev = completed_views(ps.drop_last());
        match ps.last() {
            Ok(t) => prev.push(
                (lens_name(((ps.len() - 1) as int) % 5), t.0.framing@, t.0.implication@),
            ),
            Err(_) => prev,
        }
    }
}

/// The failed passes' errors, in order.
pub open spec fn failures_of(ps: Seq<Result<DivergeTuple, AppError>>) -> Seq<AppError>
    decreases ps.len(),
{
    if ps.len() == 0 {
        Seq::empty()
    } else {
        match ps.last() {
            Ok(_) => failures_of(ps.drop_last()),
            Err(e) => failures_of(ps.drop_last()).push(e),
        }
    }
}

/// Input tokens summed over completed passes.
pub open spec fn input_sum(ps: Seq<Result<DivergeTuple, AppError>>) -> nat
    decreases ps.len(),
{
    if ps.len() == 0 {
        0
    } else {
        input_sum(ps.drop_last()) + match ps.last() {
            Ok(t) => t.1 as nat,
            Err(_) => 0nat,
        }
    }
}

/// Output tokens summed over completed passes.
pub open spec fn output_sum(ps: Seq<Result<DivergeTuple, AppError>>) -> nat
    decreases ps.len(),
{
    if ps.len() == 0 {
        0
    } else {
        output_sum(ps.drop_last()) + match ps.last() {
            Ok(t) => t.2 as nat,
            Err(_) => 0nat,
        }
    }
}

proof fn lemma_sum_prefix_le(ps: Seq<Result<DivergeTuple, AppError>>, i: int)
    requires
        0 <= i <= ps.len(),
    ensures
        input_sum(ps.take(i)) <= input_sum(ps),
        output_sum(ps.take(i)) <= output_sum(ps),
        completed_views(ps.take(i)).len() <= i,
    decreases ps.len() - i,
{
    lemma_completed_le(ps.take(i));
    if i < ps.len() {
        lemma_sum_prefix_le(ps, i + 1);
        assert(ps.take(i + 1).drop_last() =~= ps.take(i));
    } else {
        assert(ps.take(i) =~= ps);
        lemma_completed_le(ps);
    }
}

proof fn lemma_completed_le(ps: Seq<Result<DivergeTuple, AppError>>)
    ensures
        completed_views(ps).len() <= ps.len(),
    decreases ps.len(),
{
    if ps.len() > 0 {
        lemma_completed_le(ps.drop_last());
    }
}

/// Aggregate the passes: each completed pass becomes a perspective labeled
/// with its own pass's lens; with none completed the dominant failure is
/// returned; otherwise near-identical framings collapse and the completed
/// count and summed usage are reported.
pub fn aggregate(passes: Vec<Result<DivergeTuple, AppError>>) -> (r: Result<DivergeRun, AppError>)
    requires
        passes@.len() <= u32::MAX,
        input_sum(passes@) <= u64::MAX,
        output_sum(passes@) <= u64::MAX,
    ensures
        completed_views(passes@).len() == 0 ==> (r matches Err(e) && dominant_is(
            e,
            failures_of(passes@),
        )),
        completed_views(passes@).len() > 0 ==> (r matches Ok(run) && pviews(
            run.result.perspectives@,
        ) == kept(completed_views(passes@)) && run.result.passes == completed_views(passes@).len()
            && run.input_tokens == input_sum(passes@) && run.output_tokens == output_sum(passes@)),
{
    let ghost ps = passes@;
    let n = passes.len();
    let mut rest = passes;
    let mut perspectives: Vec<Perspective> = Vec::new();
    let mut failures: Vec<AppError> = Vec::new();
    let mut tin: u64 = 0;
    let mut tout: u64 = 0;
    let mut i: usize = 0;
    while i < n
        invariant
            0 <= i <= n,
            n == ps.len(),
            n <= u32::MAX,
            input_sum(ps) <= u64::MAX,
            output_sum(ps) <= u64::MAX,
            rest@ == ps.subrange(i as int, n as int),
            pviews(perspectives@) == completed_views(ps.take(i as int)),
            failures@ == failures_of(ps.take(i as int)),
            tin == input_sum(ps.take(i as int)),
            tout == output_sum(ps.take(i as int)),
        decreases n - i,
    {
        assert(ps.take(i + 1).drop_last() =~= ps.take(i as int));
        proof {
            lemma_sum_prefix_le(ps, i + 1);
        }
        let p = rest.remove(0);
        assert(rest@ =~= ps.subrange(i + 1, n as int));
        assert(p == ps[i as int]);
        match p {
            Ok(t) => {
                let lens = lens_for_pass(i);
                let ghost before = pviews(perspectives@);
                perspectives.push(
                    Perspective {
                        lens: lens.name.to_string(),
                        framing: t.0.framing,
                        implication: t.0.implication,
                    },
                );
                assert(pviews(perspectives@) =~= completed_views(ps.take(i + 1)));
                tin = tin + t.1;
                tout = tout + t.2;
            },
            Err(e) => {
                failures.push(e);
            },
        }
        i = i + 1;
    }
    assert(ps.take(n as int) =~= ps);
    proof {
        lemma_completed_le(ps);
    }
    if perspectives.len() == 0 {
        return Err(dominant_failure(failures));
    }
    let completed = perspectives.len() as u32;
    let kept_ps = dedup(perspectives);
    Ok(
        DivergeRun {
            result: DivergeResult { perspectives: kept_ps, passes: completed },
            input_tokens: tin,
            output_tokens: tout,
        },
    )
}


/// No two kept framings are near-identical: a later one is kept only when
/// it is near-identical to none kept before it.
pub proof fn lemma_kept_not_near_duplicates(ps: Seq<PerspectiveView>)
    ensures
        forall|i: int, j: int|
            0 <= i < j < kept(ps).len() ==> !near_duplicate(
                token_set(#[trigger] kept(ps)[j].1),
                token_set(#[trigger] kept(ps)[i].1),
            ),
    decreases ps.len(),
{
    if ps.len() > 0 {
        lemma_kept_not_near_duplicates(ps.drop_last());
        let prev = kept(ps.drop_last());
        let p = ps.last();
        if !exists|k: int|
            0 <= k < prev.len() && near_duplicate(token_set(p.1), token_set(#[trigger] prev[k].1)) {
            let q = prev.push(p);
            assert(kept(ps) == q);
            assert forall|i: int, j: int|
                0 <= i < j < q.len() implies !near_duplicate(
                    token_set(#[trigger] q[j].1),
                    token_set(#[trigger] q[i].1),
                ) by {
                if j == prev.len() {
                    assert(q[j] == p);
                    assert(q[i] == prev[i]);
                } else {
                    assert(q[j] == prev[j]);
                    assert(q[i] == prev[i]);
                }
            }
        }
    }
}

/// The first perspective is always kept, so of a near-identical group the
/// earliest survives.
pub proof fn lemma_first_is_kept(ps: Seq<PerspectiveView>)
    requires
        ps.len() > 0,
    ensures
        kept(ps).len() > 0,
        kept(ps)[0] == ps[0],
    decreases ps.len(),
{
    if ps.len() > 1 {
        lemma_first_is_kept(ps.drop_last());
        assert(ps.drop_last()[0] == ps[0]);
        let prev = kept(ps.drop_last());
        assert(kept(ps) == prev || kept(ps) == prev.push(ps.last()));
        assert(kept(ps)[0] == prev[0]);
    } else {
        assert(kept(ps.drop_last()).len() == 0);
        assert(kept(ps) == Seq::<PerspectiveView>::empty().push(ps[0]));
    }
}

} // verus!
