//! Validation of a research run's parameters into the settings it runs
//! with, and the per-angle search count.
use vstd::prelude::*;
use crate::error::{invalid_input_is, AppError};
use crate::research::contract::ResearchParams;
use crate::research::{tier_of, Depth};
use crate::text::{
    append_decimal, append_str, char_count, chars_of, decimal, is_blank_seq, str_is_blank,
    string_of, strs_of,
};

verus! {

/// Results asked of one search at most.
pub const SEARCH_COUNT_MAX: u8 = 20;

/// Focus entries at most.
pub const FOCUS_MAX: usize = 8;

/// Characters of one focus entry at most.
pub const FOCUS_ENTRY_MAX_CHARS: usize = 200;

/// Entries of a domain list at most.
pub const DOMAINS_MAX: usize = 32;

/// The settings a validated run uses.
#[derive(Debug, Clone)]
pub struct RunSettings {
    /// Search angles.
    pub angles: u8,
    /// Sources fetched at most.
    pub max_sources: usize,
    /// Verification passes per claim.
    pub verify_k: u8,
    /// Deadline.
    pub deadline_ms: u64,
    /// Token budget.
    pub budget_tokens: u64,
    /// Only these domains are fetched, when non-empty.
    pub domains_allow: Vec<String>,
    /// These domains are never fetched.
    pub domains_deny: Vec<String>,
}

/// The constraints, none set when omitted.
pub open spec fn constraints_of(p: ResearchParams) -> (Option<u32>, Option<Vec<String>>, Option<Vec<String>>, Option<u64>, Option<u64>) {
    match p.constraints {
        Some(c) => (c.max_sources, c.domains_allow, c.domains_deny, c.budget_tokens, c.deadline_ms),
        None => (None, None, None, None, None),
    }
}

/// The length of an optional list, zero when absent.
pub open spec fn opt_list_len(o: Option<Vec<String>>) -> nat {
    match o {
        Some(v) => v@.len(),
        None => 0,
    }
}

/// Every focus entry is non-blank and at most 200 characters.
pub open spec fn focus_entries_ok(f: Seq<Seq<char>>) -> bool {
    forall|i: int|
        0 <= i < f.len() ==> !is_blank_seq(#[trigger] f[i]) && f[i].len() <= FOCUS_ENTRY_MAX_CHARS
}

/// The first reason the parameters are rejected, in the order the checks
/// run, or none.
pub open spec fn settings_error(p: ResearchParams, input_max_chars: usize) -> Option<Seq<char>> {
    let c = constraints_of(p);
    if is_blank_seq(p.question@) {
        Some("question is empty or whitespace-only"@)
    } else if p.question@.len() > input_max_chars {
        Some(
            "question is "@ + decimal(p.question@.len()) + " characters; the configured maximum is "@
                + decimal(input_max_chars as nat) + " (INPUT_MAX_CHARS); it was not trimmed"@,
        )
    } else if p.focus matches Some(f) && f@.len() > FOCUS_MAX {
        Some(decimal(opt_list_len(p.focus)) + " focus entries exceed the maximum of 8"@)
    } else if p.focus matches Some(f) && !focus_entries_ok(strs_of(f@)) {
        Some("every focus entry must be non-empty and at most 200 characters"@)
    } else if c.0 matches Some(n) && !(1 <= n <= 60) {
        Some("max_sources "@ + decimal(c.0->0 as nat) + " is out of range 1..=60"@)
    } else if c.3 matches Some(b) && b < 1000 {
        Some("budget_tokens "@ + decimal(c.3->0 as nat) + " is below the minimum of 1000"@)
    } else if c.4 matches Some(d) && d < 5000 {
        Some("deadline_ms "@ + decimal(c.4->0 as nat) + " is below the minimum of 5000"@)
    } else if opt_list_len(c.1) > DOMAINS_MAX {
        Some("domains_allow exceeds the maximum of 32 entries"@)
    } else if opt_list_len(c.2) > DOMAINS_MAX {
        Some("domains_deny exceeds the maximum of 32 entries"@)
    } else {
        None
    }
}

/// The strings of an optional list, none when absent.
pub open spec fn opt_strs(o: Option<Vec<String>>) -> Seq<Seq<char>> {
    match o {
        Some(v) => strs_of(v@),
        None => Seq::empty(),
    }
}

/// `s` are the settings of the accepted parameters: the depth's tier
/// (standard when omitted), with each constraint the caller set in place of
/// the tier's default.
pub open spec fn settings_are(s: RunSettings, p: ResearchParams) -> bool {
    let d = match p.depth {
        Some(d) => d,
        None => Depth::Standard,
    };
    let t = tier_of(d);
    let c = constraints_of(p);
    &&& s.angles == t.0
    &&& s.verify_k == t.2
    &&& s.max_sources == match c.0 {
        Some(n) => n as usize,
        None => t.1,
    }
    &&& s.deadline_ms == match c.4 {
        Some(x) => x,
        None => t.3,
    }
    &&& s.budget_tokens == match c.3 {
        Some(x) => x,
        None => t.4,
    }
    &&& strs_of(s.domains_allow@) == opt_strs(c.1)
    &&& strs_of(s.domains_deny@) == opt_strs(c.2)
}

/// Copy an optional list, empty when absent.
fn list_or_empty(o: &Option<Vec<String>>) -> (r: Vec<String>)
    ensures
        strs_of(r@) == opt_strs(*o),
{
    match o {
        Some(v) => {
            let mut r: Vec<String> = Vec::new();
            let mut i: usize = 0;
            while i < v.len()
                invariant
                    0 <= i <= v@.len(),
                    strs_of(r@) == strs_of(v@).take(i as int),
                decreases v@.len() - i,
            {
                let ghost before = strs_of(r@);
                r.push(v[i].clone());
                assert(strs_of(v@).take(i + 1) =~= strs_of(v@).take(i as int).push(v@[i as int]@));
                assert(strs_of(r@) =~= strs_of(v@).take(i + 1));
                i = i + 1;
            }
            assert(strs_of(v@).take(v@.len() as int) =~= strs_of(v@));
            r
        },
        None => {
            let r: Vec<String> = Vec::new();
            assert(strs_of(r@) =~= Seq::<Seq<char>>::empty());
            r
        },
    }
}

/// Validate the parameters before any search, rejecting (never trimming)
/// what is out of bounds, and resolve the run's settings.
pub fn validate_params(input_max_chars: usize, params: &ResearchParams) -> (r: Result<RunSettings, AppError>)
    ensures
        settings_error(*params, input_max_chars) matches Some(m) ==> (r matches Err(e)
            && invalid_input_is(e, m)),
        settings_error(*params, input_max_chars) is None ==> (r matches Ok(s) && settings_are(
            s,
            *params,
        )),
{
    if str_is_blank(params.question.as_str()) {
        return Err(AppError::InvalidInput("question is empty or whitespace-only".to_string()));
    }
    let len = char_count(params.question.as_str());
    if len > input_max_chars {
        let mut m = chars_of("question is ");
        append_decimal(&mut m, len as u64);
        append_str(&mut m, " characters; the configured maximum is ");
        append_decimal(&mut m, input_max_chars as u64);
        append_str(&mut m, " (INPUT_MAX_CHARS); it was not trimmed");
        return Err(AppError::InvalidInput(string_of(m.as_slice())));
    }
    match &params.focus {
        Some(focus) => {
            if focus.len() > FOCUS_MAX {
                let mut m: Vec<char> = Vec::new();
                append_decimal(&mut m, focus.len() as u64);
                append_str(&mut m, " focus entries exceed the maximum of 8");
                return Err(AppError::InvalidInput(string_of(m.as_slice())));
            }
            let mut i: usize = 0;
            while i < focus.len()
                invariant
                    0 <= i <= focus@.len(),
                    !is_blank_seq(params.question@),
                    params.question@.len() <= input_max_chars,
                    params.focus == Some(*focus),
                    focus@.len() <= FOCUS_MAX,
                    forall|j: int|
                        0 <= j < i ==> !is_blank_seq(#[trigger] strs_of(focus@)[j]) && strs_of(
                            focus@,
                        )[j].len() <= FOCUS_ENTRY_MAX_CHARS,
                decreases focus@.len() - i,
            {
                let f = focus[i].as_str();
                if str_is_blank(f) || char_count(f) > FOCUS_ENTRY_MAX_CHARS {
                    assert(!(!is_blank_seq(strs_of(focus@)[i as int]) && strs_of(focus@)[i as int].len()
                        <= FOCUS_ENTRY_MAX_CHARS));
                    return Err(AppError::InvalidInput("every focus entry must be non-empty and at most 200 characters".to_string()));
                }
                i = i + 1;
            }
        },
        None => {},
    }
    let depth = match params.depth {
        Some(d) => d,
        None => Depth::Standard,
    };
    let tier = depth.tier();
    let (max_sources, allow, deny, budget, deadline) = match &params.constraints {
        Some(c) => (c.max_sources, &c.domains_allow, &c.domains_deny, c.budget_tokens, c.deadline_ms),
        None => (None, &None, &None, None, None),
    };
    match max_sources {
        Some(n) => {
            if n < 1 || n > 60 {
                let mut m = chars_of("max_sources ");
                append_decimal(&mut m, n as u64);
                append_str(&mut m, " is out of range 1..=60");
                return Err(AppError::InvalidInput(string_of(m.as_slice())));
            }
        },
        None => {},
    }
    match budget {
        Some(b) => {
            if b < 1000 {
                let mut m = chars_of("budget_tokens ");
                append_decimal(&mut m, b);
                append_str(&mut m, " is below the minimum of 1000");
                return Err(AppError::InvalidInput(string_of(m.as_slice())));
            }
        },
        None => {},
    }
    match deadline {
        Some(d) => {
            if d < 5000 {
                let mut m = chars_of("deadline_ms ");
                append_decimal(&mut m, d);
                append_str(&mut m, " is below the minimum of 5000");
                return Err(AppError::InvalidInput(string_of(m.as_slice())));
            }
        },
        None => {},
    }
    match allow {
        Some(l) => {
            if l.len() > DOMAINS_MAX {
                return Err(AppError::InvalidInput("domains_allow exceeds the maximum of 32 entries".to_string()));
            }
        },
        None => {},
    }
    match deny {
        Some(l) => {
            if l.len() > DOMAINS_MAX {
                return Err(AppError::InvalidInput("domains_deny exceeds the maximum of 32 entries".to_string()));
            }
        },
        None => {},
    }
    Ok(
        RunSettings {
            angles: tier.angles,
            max_sources: match max_sources {
                Some(n) => n as usize,
                None => tier.max_sources,
            },
            verify_k: tier.verify_k,
            deadline_ms: match deadline {
                Some(d) => d,
                None => tier.default_deadline_ms,
            },
            budget_tokens: match budget {
                Some(b) => b,
                None => tier.default_budget_tokens,
            },
            domains_allow: list_or_empty(allow),
            domains_deny: list_or_empty(deny),
        },
    )
}

/// Results to ask of each angle's search: enough for twice the source cap
/// spread over the angles (rounded up), between 1 and `SEARCH_COUNT_MAX`.
pub open spec fn spec_per_angle(max_sources: nat, angles: nat) -> nat {
    let a: int = if angles == 0 {
        1
    } else {
        angles as int
    };
    let want: int = (max_sources * 2 + a - 1) / a;
    if want < 1 {
        1
    } else if want > SEARCH_COUNT_MAX {
        SEARCH_COUNT_MAX as nat
    } else {
        want as nat
    }
}

/// Results to ask of each angle's search.
pub fn per_angle_count(settings: &RunSettings, angles: usize) -> (r: u8)
    requires
        settings.max_sources * 2 <= usize::MAX,
    ensures
        r == spec_per_angle(settings.max_sources as nat, angles as nat),
{
    let a: usize = if angles == 0 {
        1
    } else {
        angles
    };
    let total: u128 = settings.max_sources as u128 * 2;
    let want: u128 = (total + a as u128 - 1) / a as u128;
    if want < 1 {
        1
    } else if want > SEARCH_COUNT_MAX as u128 {
        SEARCH_COUNT_MAX
    } else {
        want as u8
    }
}


/// The per-angle count always lies between 1 and `SEARCH_COUNT_MAX`.
pub proof fn lemma_per_angle_bounded(max_sources: nat, angles: nat)
    ensures
        1 <= spec_per_angle(max_sources, angles) <= SEARCH_COUNT_MAX,
{
}

} // verus!
