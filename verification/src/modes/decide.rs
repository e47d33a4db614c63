//! The Decide corrective: an explicit methodology scores every option, and
//! the server — not the model — picks the winner from the scores, with a
//! confidence calibrated to the margin.
use vstd::prelude::*;
use crate::error::{invalid_input_is, validation_failure_is, AppError};
use crate::text::{
    append_decimal, append_signed_decimal, append_str, char_count, chars_of, decimal, is_blank_seq,
    join, join_chars, nonblank_lines, nonblank_lines_of, replace_all, seqs_of, signed_decimal,
    str_is_blank, string_of, strs_of, total_chars, total_len,
};

verus! {

/// Tool id as exposed over MCP.
pub const DECIDE_ID: &'static str = "decide";

/// The MCP tool description.
pub const DECIDE_DESCRIPTION: &'static str = "Choose among two or more options under tradeoffs, with the reasoning shown. Applies an explicit decision methodology (weigh named criteria, trace what each option causes, or reason under uncertainty), scores every option, and returns the recommended option, the runner-up and why it lost, the deciding factors, the methodology used, and a confidence calibrated to how close the call is. The choice is computed from the scores, not asserted - never a menu handed back, never a hidden gut pick. To judge whether a claim is true use verify; for one next step when you are looping use unstick; for a computable comparison use check.";

/// The decision-aid profile: slots for the decision, the numbered options,
/// the context, and the retry's violation feedback only.
pub const PROMPT_TEMPLATE: &'static str = "You are an external decision aid. Someone must choose among the options below and is either stalling or about to pick on a gut feel. Assess the options explicitly and score them; you do not pick the winner \u{2014} the server does, from your scores.\n\nRules:\n1. Choose the decision methodology that fits this decision's shape and report it in `methodology`: \"weigh\" (the decision turns on several named criteria), \"causal\" (it turns on what each option causes or prevents downstream), or \"probabilistic\" (it turns on uncertainty about which outcome obtains).\n2. In `deciding_factors`, name the factors/criteria/effects/likelihoods your methodology uses \u{2014} the terms the decision actually turns on. Non-empty.\n3. Score every option from 0 to 100 on its overall standing under your methodology, in the SAME ORDER the options are listed: `option_scores[i]` and `option_rationales[i]` are for option i. Provide exactly one score and one rationale per option. A score is an integer in 0\u{2013}100.\n4. `option_rationales[i]` is one self-contained sentence on why option i scored as it did, in the methodology's terms.\n5. Do not state a verdict, and do not name a single winner \u{2014} only assess and score. The higher score is the better option.\n\nDecision:\n<<decision>>\n\nOptions (score in this order):\n<<options>>\n\nContext provided with the decision (may be empty):\n<<context>>\n<<violation_clause>>";

/// Model calls per invocation at most: the first attempt and one retry
/// carrying the violation.
pub const DECIDE_ATTEMPTS_MAX: u32 = 2;

/// The decision methodology the pass applied.
#[derive(Debug, Clone, Copy, PartialEq, Eq, Structural)]
pub enum Methodology {
    /// Weigh several named criteria.
    Weigh,
    /// Trace what each option causes downstream.
    Causal,
    /// Reason under uncertainty about outcomes.
    Probabilistic,
}

/// Tool input.
#[derive(Debug, Clone)]
pub struct DecideParams {
    /// The decision to make.
    pub decision: String,
    /// The options, at least two.
    pub options: Vec<String>,
    /// The options as one option per line, for clients that drop the array.
    pub options_text: Option<String>,
    /// Optional context.
    pub context: Option<String>,
}

/// What the pass is constrained to produce.
#[derive(Debug, Clone)]
pub struct DecidePass {
    /// The methodology applied.
    pub methodology: Methodology,
    /// One score per option, in option order.
    pub option_scores: Vec<i64>,
    /// One rationale per option, in option order.
    pub option_rationales: Vec<String>,
    /// The terms the decision turns on.
    pub deciding_factors: Vec<String>,
}

/// One option with its score and rationale.
#[derive(Debug, Clone)]
pub struct OptionAssessment {
    /// The option.
    pub option: String,
    /// Its score, 0 to 100.
    pub score: i64,
    /// Why it scored so.
    pub rationale: String,
}

/// The assembled output. The confidence is `(100 + margin) / 200`, carried
/// exactly in thousandths: 500 at a tie, 1000 at the widest margin.
#[derive(Debug, Clone)]
pub struct DecideResult {
    /// The highest-scored option (the earliest on a tie).
    pub recommended: String,
    /// The next-highest option.
    pub runner_up: String,
    /// Why the runner-up lost.
    pub runner_up_reason: String,
    /// The winner's score minus the runner-up's.
    pub margin: i64,
    /// The confidence in thousandths.
    pub confidence_per_mille: u32,
    /// The methodology applied.
    pub methodology: Methodology,
    /// The terms the decision turns on.
    pub deciding_factors: Vec<String>,
    /// Every option with its score and rationale, in option order.
    pub assessments: Vec<OptionAssessment>,
}

/// One Decide run: the result plus token usage.
#[derive(Debug)]
pub struct DecideRun {
    /// The assembled result.
    pub result: DecideResult,
    /// Input tokens over every attempt.
    pub input_tokens: u64,
    /// Output tokens over every attempt.
    pub output_tokens: u64,
}

impl DecideParams {
    /// Fill `options` from `options_text` when the array was omitted: one
    /// option per line, trimmed, blank lines dropped; the text is consumed.
    pub fn normalize(&mut self)
        ensures
            old(self).options@.len() == 0 && old(self).options_text is Some ==> {
                &&& strs_of(final(self).options@) == nonblank_lines(old(self).options_text->0@)
                &&& final(self).options_text is None
            },
            !(old(self).options@.len() == 0 && old(self).options_text is Some) ==> (
            final(self).options == old(self).options && final(self).options_text == old(
                self,
            ).options_text),
            final(self).decision == old(self).decision,
            final(self).context == old(self).context,
    {
        if self.options.len() == 0 {
            match self.options_text.take() {
                Some(text) => {
                    let v = chars_of(text.as_str());
                    self.options = nonblank_lines_of(v.as_slice());
                },
                None => {},
            }
        }
    }
}

/// One numbered line per option: `i. option`, counting from one.
pub open spec fn numbered(opts: Seq<Seq<char>>) -> Seq<Seq<char>> {
    Seq::new(opts.len(), |i: int| decimal((i + 1) as nat) + ". "@ + opts[i])
}

/// The retry's feedback naming the violation, empty on a first attempt.
pub open spec fn violation_clause(v: Option<Seq<char>>) -> Seq<char> {
    match v {
        Some(v) => "\nYOUR PREVIOUS ASSESSMENT WAS REJECTED for this exact reason: "@ + v
            + ". Produce a corrected assessment \u{2014} exactly one score and one rationale per option, every score an integer 0-100, and non-empty deciding_factors."@,
        None => Seq::empty(),
    }
}

/// The view of an optional text.
pub open spec fn opt_view(o: Option<&str>) -> Option<Seq<char>> {
    match o {
        Some(s) => Some(s@),
        None => None,
    }
}

/// Build the prompt: the decision, the numbered options, the context and
/// the violation feedback are the only dynamic content.
pub fn build_prompt(template: &str, params: &DecideParams, violation: Option<&str>) -> (r: String)
    ensures
        r@ == replace_all(
            replace_all(
                replace_all(
                    replace_all(template@, "<<decision>>"@, params.decision@),
                    "<<options>>"@,
                    join(numbered(strs_of(params.options@)), "\n"@),
                ),
                "<<context>>"@,
                super::elicit::opt_string(params.context),
            ),
            "<<violation_clause>>"@,
            violation_clause(opt_view(violation)),
        ),
{
    proof {
        reveal_strlit("<<decision>>");
        reveal_strlit("<<options>>");
        reveal_strlit("<<context>>");
        reveal_strlit("<<violation_clause>>");
        reveal_strlit(". ");
        reveal_strlit("\n");
        reveal_strlit("");
    }
    let ghost opts = strs_of(params.options@);
    let mut lines: Vec<Vec<char>> = Vec::new();
    let mut i: usize = 0;
    while i < params.options.len()
        invariant
            0 <= i <= params.options@.len(),
            opts == strs_of(params.options@),
            seqs_of(lines@) == numbered(opts).take(i as int),
        decreases params.options@.len() - i,
    {
        let mut line: Vec<char> = Vec::new();
        append_decimal(&mut line, i as u64 + 1);
        append_str(&mut line, ". ");
        append_str(&mut line, params.options[i].as_str());
        assert(line@ =~= decimal((i + 1) as nat) + ". "@ + opts[i as int]);
        let ghost before = seqs_of(lines@);
        let ghost l = line@;
        lines.push(line);
        assert(seqs_of(lines@) =~= before.push(l));
        assert(numbered(opts).take(i + 1) =~= numbered(opts).take(i as int).push(numbered(opts)[i as int]));
        assert(seqs_of(lines@) =~= numbered(opts).take(i + 1));
        i = i + 1;
    }
    assert(numbered(opts).take(params.options@.len() as int) =~= numbered(opts));
    let nl = chars_of("\n");
    let options_text = string_of(join_chars(&lines, nl.as_slice()).as_slice());
    let clause = match violation {
        Some(v) => {
            let mut c = chars_of("\nYOUR PREVIOUS ASSESSMENT WAS REJECTED for this exact reason: ");
            append_str(&mut c, v);
            append_str(
                &mut c,
                ". Produce a corrected assessment \u{2014} exactly one score and one rationale per option, every score an integer 0-100, and non-empty deciding_factors.",
            );
            string_of(c.as_slice())
        },
        None => {
            assert(""@ =~= Seq::<char>::empty());
            "".to_string()
        },
    };
    let t = chars_of(template);
    let t = super::fill(t.as_slice(), "<<decision>>", params.decision.as_str());
    let t = super::fill(t.as_slice(), "<<options>>", options_text.as_str());
    let t = match &params.context {
        Some(c) => super::fill(t.as_slice(), "<<context>>", c.as_str()),
        None => {
            assert(""@ =~= Seq::<char>::empty());
            super::fill(t.as_slice(), "<<context>>", "")
        },
    };
    let t = super::fill(t.as_slice(), "<<violation_clause>>", clause.as_str());
    string_of(t.as_slice())
}

/// Characters over every input field that reaches the prompt.
pub open spec fn input_total(params: DecideParams) -> nat {
    params.decision@.len() + total_len(strs_of(params.options@)) + super::verify::opt_len(
        params.context,
    )
}

/// The message for fewer than two options.
pub open spec fn too_few_message(n: nat) -> Seq<char> {
    "decide requires at least two options; got "@ + decimal(n)
}

/// Validate input before any model call.
pub fn check_input(params: &DecideParams, max_chars: usize) -> (r: Result<(), AppError>)
    ensures
        r is Ok <==> !is_blank_seq(params.decision@) && params.options@.len() >= 2 && input_total(
            *params,
        ) <= max_chars,
        r matches Err(e) ==> {
            &&& is_blank_seq(params.decision@) ==> invalid_input_is(
                e,
                "decision is empty or whitespace-only"@,
            )
            &&& !is_blank_seq(params.decision@) && params.options@.len() < 2 ==> invalid_input_is(
                e,
                too_few_message(params.options@.len()),
            )
            &&& !is_blank_seq(params.decision@) && params.options@.len() >= 2 ==> invalid_input_is(
                e,
                super::combined_message(input_total(*params), max_chars as nat),
            )
        },
{
    if str_is_blank(params.decision.as_str()) {
        return Err(AppError::InvalidInput("decision is empty or whitespace-only".to_string()));
    }
    if params.options.len() < 2 {
        let mut m = chars_of("decide requires at least two options; got ");
        append_decimal(&mut m, params.options.len() as u64);
        return Err(AppError::InvalidInput(string_of(m.as_slice())));
    }
    let opts = total_chars(&params.options);
    let ctx: u128 = match &params.context {
        Some(c) => char_count(c.as_str()) as u128,
        None => 0,
    };
    let total: u128 = char_count(params.decision.as_str()) as u128 + opts + ctx;
    if total > max_chars as u128 {
        return Err(super::combined_too_long(total, max_chars));
    }
    Ok(())
}

/// Option `t` has the highest score, and no earlier option ties it.
pub open spec fn is_top(s: Seq<i64>, t: int) -> bool {
    &&& 0 <= t < s.len()
    &&& forall|j: int| 0 <= j < s.len() ==> #[trigger] s[j] <= s[t]
    &&& forall|j: int| 0 <= j < t ==> #[trigger] s[j] < s[t]
}

/// Option `r` ranks second after `t`: the highest among the others, the
/// earliest on a tie (the order a stable descending sort gives).
pub open spec fn is_runner(s: Seq<i64>, t: int, r: int) -> bool {
    &&& 0 <= r < s.len()
    &&& r != t
    &&& forall|j: int| 0 <= j < s.len() && j != t ==> #[trigger] s[j] <= s[r]
    &&& forall|j: int| 0 <= j < r && j != t ==> #[trigger] s[j] < s[r]
}

/// The message for arrays whose lengths disagree with the options.
pub open spec fn arity_message(n: nat, ns: nat, nr: nat) -> Seq<char> {
    "assessment arity mismatch: "@ + decimal(n) + " options but "@ + decimal(ns) + " scores / "@
        + decimal(nr) + " rationales"@
}

/// The message for a score outside 0 to 100.
pub open spec fn range_message(bad: i64) -> Seq<char> {
    "score "@ + signed_decimal(bad as int)
        + " is outside the 0-100 range \u{2014} a malformed assessment is a failed pass"@
}

/// The message when no deciding factor is named.
pub open spec fn no_factors_message() -> Seq<char> {
    "deciding_factors is empty \u{2014} the methodology's terms are required"@
}

/// Why the runner-up lost.
pub open spec fn runner_reason(margin: i64, top: Seq<char>, rationale: Seq<char>) -> Seq<char> {
    "scored "@ + signed_decimal(margin as int) + " below "@ + top + ": "@ + rationale
}

/// `res` is the assembly of the options and the pass, with `t` the top
/// option and `r` the runner-up.
pub open spec fn assembled(res: DecideResult, params: DecideParams, pass: DecidePass, t: int, r: int) -> bool {
    let s = pass.option_scores@;
    let margin = s[t] - s[r];
    &&& res.recommended@ == params.options@[t]@
    &&& res.runner_up@ == params.options@[r]@
    &&& res.margin == margin
    &&& res.confidence_per_mille == 500 + 5 * margin
    &&& res.runner_up_reason@ == runner_reason(
        margin as i64,
        params.options@[t]@,
        pass.option_rationales@[r]@,
    )
    &&& res.methodology == pass.methodology
    &&& strs_of(res.deciding_factors@) == strs_of(pass.deciding_factors@)
    &&& res.assessments@.len() == params.options@.len()
    &&& forall|i: int|
        0 <= i < res.assessments@.len() ==> {
            &&& (#[trigger] res.assessments@[i]).option@ == params.options@[i]@
            &&& res.assessments@[i].score == s[i]
            &&& res.assessments@[i].rationale@ == pass.option_rationales@[i]@
        }
}

/// Assemble the result from the scores: the arrays must match the options
/// one for one, a deciding factor must be named, every score must lie in
/// 0 to 100 (the first bad one is named); then the highest-scored option is
/// recommended and the next one is the runner-up.
pub fn assemble(params: &DecideParams, pass: DecidePass) -> (r: Result<DecideResult, AppError>)
    requires
        params.options@.len() >= 2,
    ensures
        ({
            let n = params.options@.len();
            let s = pass.option_scores@;
            let nr = pass.option_rationales@.len();
            let arity = s.len() == n && nr == n;
            let factors = !super::verify::all_blank(strs_of(pass.deciding_factors@));
            let in_range = forall|i: int| 0 <= i < s.len() ==> 0 <= #[trigger] s[i] <= 100;
            &&& !arity ==> (r matches Err(e) && validation_failure_is(
                e,
                arity_message(n, s.len(), nr),
            ))
            &&& arity && !factors ==> (r matches Err(e) && validation_failure_is(
                e,
                no_factors_message(),
            ))
            &&& arity && factors && !in_range ==> (r matches Err(e) && exists|i: int|
                0 <= i < s.len() && !(0 <= #[trigger] s[i] <= 100) && (forall|j: int|
                    0 <= j < i ==> 0 <= #[trigger] s[j] <= 100) && validation_failure_is(
                    e,
                    range_message(s[i]),
                ))
            &&& arity && factors && in_range ==> (r matches Ok(res) && exists|t: int, u: int|
                is_top(s, t) && is_runner(s, t, u) && #[trigger] assembled(
                    res,
                    *params,
                    pass,
                    t,
                    u,
                ))
        }),
{
    let n = params.options.len();
    let ns = pass.option_scores.len();
    let nr = pass.option_rationales.len();
    if ns != n || nr != n {
        let mut m = chars_of("assessment arity mismatch: ");
        append_decimal(&mut m, n as u64);
        append_str(&mut m, " options but ");
        append_decimal(&mut m, ns as u64);
        append_str(&mut m, " scores / ");
        append_decimal(&mut m, nr as u64);
        append_str(&mut m, " rationales");
        return Err(AppError::ValidationFailure(string_of(m.as_slice())));
    }
    let mut any: bool = false;
    let mut i: usize = 0;
    while i < pass.deciding_factors.len()
        invariant
            0 <= i <= pass.deciding_factors@.len(),
            !any ==> forall|j: int|
                0 <= j < i ==> is_blank_seq(#[trigger] strs_of(pass.deciding_factors@)[j]),
            any ==> !super::verify::all_blank(strs_of(pass.deciding_factors@)),
        decreases pass.deciding_factors@.len() - i,
    {
        if !str_is_blank(pass.deciding_factors[i].as_str()) {
            assert(!is_blank_seq(strs_of(pass.deciding_factors@)[i as int]));
            any = true;
        }
        i = i + 1;
    }
    if !any {
        return Err(AppError::ValidationFailure("deciding_factors is empty \u{2014} the methodology's terms are required".to_string()));
    }
    let ghost s = pass.option_scores@;
    let mut k: usize = 0;
    while k < n
        invariant
            0 <= k <= n,
            n == s.len(),
            n == params.options@.len(),
            n == pass.option_rationales@.len(),
            s == pass.option_scores@,
            !super::verify::all_blank(strs_of(pass.deciding_factors@)),
            forall|j: int| 0 <= j < k ==> 0 <= #[trigger] s[j] <= 100,
        decreases n - k,
    {
        let sc = pass.option_scores[k];
        if sc < 0 || sc > 100 {
            let mut m = chars_of("score ");
            append_signed_decimal(&mut m, sc);
            append_str(
                &mut m,
                " is outside the 0-100 range \u{2014} a malformed assessment is a failed pass",
            );
            return Err(AppError::ValidationFailure(string_of(m.as_slice())));
        }
        k = k + 1;
    }
    let mut top: usize = 0;
    let mut j: usize = 1;
    while j < n
        invariant
            1 <= j <= n,
            n == s.len(),
            s == pass.option_scores@,
            top < j,
            forall|x: int| 0 <= x < j ==> #[trigger] s[x] <= s[top as int],
            forall|x: int| 0 <= x < top ==> #[trigger] s[x] < s[top as int],
        decreases n - j,
    {
        if pass.option_scores[j] > pass.option_scores[top] {
            top = j;
        }
        j = j + 1;
    }
    let mut run: usize = if top == 0 {
        1
    } else {
        0
    };
    let mut j: usize = run + 1;
    while j < n
        invariant
            run < j <= n,
            n == s.len(),
            s == pass.option_scores@,
            top < n,
            run != top,
            forall|x: int| 0 <= x < j && x != top ==> #[trigger] s[x] <= s[run as int],
            forall|x: int| 0 <= x < run && x != top ==> #[trigger] s[x] < s[run as int],
        decreases n - j,
    {
        if j != top && pass.option_scores[j] > pass.option_scores[run] {
            run = j;
        }
        j = j + 1;
    }
    assert(is_top(s, top as int));
    assert(is_runner(s, top as int, run as int));
    let mut assessments: Vec<OptionAssessment> = Vec::new();
    let mut k: usize = 0;
    while k < n
        invariant
            0 <= k <= n,
            n == s.len(),
            n == params.options@.len(),
            n == pass.option_rationales@.len(),
            s == pass.option_scores@,
            assessments@.len() == k,
            forall|x: int|
                0 <= x < k ==> {
                    &&& (#[trigger] assessments@[x]).option@ == params.options@[x]@
                    &&& assessments@[x].score == s[x]
                    &&& assessments@[x].rationale@ == pass.option_rationales@[x]@
                },
        decreases n - k,
    {
        assessments.push(
            OptionAssessment {
                option: params.options[k].clone(),
                score: pass.option_scores[k],
                rationale: pass.option_rationales[k].clone(),
            },
        );
        k = k + 1;
    }
    let margin: i64 = pass.option_scores[top] - pass.option_scores[run];
    let mut reason = chars_of("scored ");
    append_signed_decimal(&mut reason, margin);
    append_str(&mut reason, " below ");
    append_str(&mut reason, params.options[top].as_str());
    append_str(&mut reason, ": ");
    append_str(&mut reason, pass.option_rationales[run].as_str());
    let res = DecideResult {
        recommended: params.options[top].clone(),
        runner_up: params.options[run].clone(),
        runner_up_reason: string_of(reason.as_slice()),
        margin,
        confidence_per_mille: 500 + 5 * (margin as u32),
        methodology: pass.methodology,
        deciding_factors: pass.deciding_factors,
        assessments,
    };
    assert(assembled(res, *params, pass, top as int, run as int));
    Ok(res)
}

/// The error after the retry also failed, naming the last violation.
pub fn exhausted(violation: Option<String>) -> (e: AppError)
    ensures
        validation_failure_is(
            e,
            "decide produced a malformed assessment after the retry; last violation: "@ + match violation {
                Some(v) => v@,
                None => "(none recorded)"@,
            },
        ),
{
    let mut m = chars_of("decide produced a malformed assessment after the retry; last violation: ");
    match &violation {
        Some(v) => append_str(&mut m, v.as_str()),
        None => append_str(&mut m, "(none recorded)"),
    }
    AppError::ValidationFailure(string_of(m.as_slice()))
}


/// The recommendation is calibrated: the recommended option scores at least
/// as high as every other, and with scores in 0 to 100 the margin is in
/// 0 to 100, so the confidence lies between one half (a tie) and one.
pub proof fn lemma_decision_calibrated(s: Seq<i64>, t: int, r: int)
    requires
        is_top(s, t),
        is_runner(s, t, r),
        forall|i: int| 0 <= i < s.len() ==> 0 <= #[trigger] s[i] <= 100,
    ensures
        forall|j: int| 0 <= j < s.len() ==> #[trigger] s[j] <= s[t],
        0 <= s[t] - s[r] <= 100,
        500 <= 500 + 5 * (s[t] - s[r]) <= 1000,
{
}

} // verus!
