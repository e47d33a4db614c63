//! The decisions of the save / recall / forget tools: input validation, the
//! recall limit, and trust derivation. Trust is derived, never caller-set:
//! first-hand content is `first_hand`; external content with verification is
//! `verified` unless the verification refutes it; external content without
//! verification is `untrusted`.
use vstd::prelude::*;
use crate::error::{invalid_input_is, AppError};
use crate::memory::contract::SaveParams;
use crate::memory::Trust;
use crate::modes::verify::VerdictKind;
use crate::text::{append_decimal, append_str, chars_of, decimal, is_blank_seq, str_is_blank, string_of};

verus! {

/// Maximum number of tags per memory.
pub const MAX_TAGS: usize = 20;

/// Maximum characters per tag.
pub const MAX_TAG_CHARS: usize = 100;

/// Should this save run verification? Known up front from the params.
pub open spec fn spec_save_runs_verification(p: SaveParams) -> bool {
    p.external && p.verify == Some(true)
}

/// Should this save run verification? Known up front from the params, so the
/// server can attribute the invocation record's model correctly.
pub fn save_runs_verification(params: &SaveParams) -> (r: bool)
    ensures
        r == spec_save_runs_verification(*params),
        r <==> params.external && params.verify == Some(true),
{
    params.external && match params.verify {
        Some(v) => v,
        None => false,
    }
}

/// The message for a blank field.
pub open spec fn blank_field_message(field: Seq<char>) -> Seq<char> {
    field + " is empty or whitespace-only"@
}

/// The message for an oversized field.
pub open spec fn oversized_field_message(field: Seq<char>, len: nat, max: nat) -> Seq<char> {
    field + " is "@ + decimal(len) + " characters; the configured maximum is "@ + decimal(max)
        + " (INPUT_MAX_CHARS); it was not trimmed"@
}

/// Shared input validation: non-empty after trim, and at most `max_chars`
/// characters.
pub fn check_text(field: &str, text: &str, max_chars: usize) -> (r: Result<(), AppError>)
    ensures
        r is Ok <==> !is_blank_seq(text@) && text@.len() <= max_chars,
        r matches Err(e) ==> (is_blank_seq(text@) ==> invalid_input_is(
            e,
            blank_field_message(field@),
        )) && (!is_blank_seq(text@) ==> invalid_input_is(
            e,
            oversized_field_message(field@, text@.len(), max_chars as nat),
        )),
{
    if str_is_blank(text) {
        let mut m: Vec<char> = chars_of(field);
        append_str(&mut m, " is empty or whitespace-only");
        return Err(AppError::InvalidInput(string_of(m.as_slice())));
    }
    let len = crate::text::char_count(text);
    if len > max_chars {
        let mut m: Vec<char> = chars_of(field);
        append_str(&mut m, " is ");
        append_decimal(&mut m, len as u64);
        append_str(&mut m, " characters; the configured maximum is ");
        append_decimal(&mut m, max_chars as u64);
        append_str(&mut m, " (INPUT_MAX_CHARS); it was not trimmed");
        return Err(AppError::InvalidInput(string_of(m.as_slice())));
    }
    Ok(())
}

/// The tag list is acceptable: at most [`MAX_TAGS`] tags, each non-blank and
/// at most [`MAX_TAG_CHARS`] characters.
pub open spec fn tags_ok(tags: Seq<String>) -> bool {
    tags.len() <= MAX_TAGS && forall|i: int|
        0 <= i < tags.len() ==> !is_blank_seq(#[trigger] tags[i]@) && tags[i]@.len()
            <= MAX_TAG_CHARS
}

/// The first tag (in order) that is blank or too long.
pub open spec fn first_bad_tag(tags: Seq<String>, i: int) -> bool {
    0 <= i < tags.len() && (is_blank_seq(tags[i]@) || tags[i]@.len() > MAX_TAG_CHARS) && forall|
        j: int,
    |
        0 <= j < i ==> !is_blank_seq(#[trigger] tags[j]@) && tags[j]@.len() <= MAX_TAG_CHARS
}

/// Tag validation: bounded count, each tag non-empty and bounded, so the
/// bound on content cannot be bypassed through tags.
pub fn check_tags(tags: Option<&Vec<String>>) -> (r: Result<(), AppError>)
    ensures
        r is Ok <==> (tags matches Some(t) ==> tags_ok(t@)),
        r matches Err(e) ==> tags matches Some(t) && (t@.len() > MAX_TAGS ==> invalid_input_is(
            e,
            decimal(t@.len()) + " tags exceed the maximum of 20"@,
        )) && (t@.len() <= MAX_TAGS ==> exists|i: int|
            first_bad_tag(t@, i) && (is_blank_seq(t@[i]@) ==> invalid_input_is(
                e,
                "a tag is empty or whitespace-only"@,
            )) && (!is_blank_seq(t@[i]@) ==> invalid_input_is(
                e,
                "a tag is "@ + decimal(t@[i]@.len()) + " characters; the maximum is 100"@,
            ))),
{
    let list = match tags {
        None => return Ok(()),
        Some(t) => t,
    };
    if list.len() > MAX_TAGS {
        let mut m: Vec<char> = Vec::new();
        append_decimal(&mut m, list.len() as u64);
        append_str(&mut m, " tags exceed the maximum of 20");
        return Err(AppError::InvalidInput(string_of(m.as_slice())));
    }
    let mut i: usize = 0;
    while i < list.len()
        invariant
            tags == Some(list),
            0 <= i <= list@.len(),
            list@.len() <= MAX_TAGS,
            forall|j: int|
                0 <= j < i ==> !is_blank_seq(#[trigger] list@[j]@) && list@[j]@.len()
                    <= MAX_TAG_CHARS,
        decreases list@.len() - i,
    {
        let tag = list[i].as_str();
        if str_is_blank(tag) {
            assert(first_bad_tag(list@, i as int));
            return Err(AppError::InvalidInput("a tag is empty or whitespace-only".to_string()));
        }
        let len = crate::text::char_count(tag);
        if len > MAX_TAG_CHARS {
            assert(first_bad_tag(list@, i as int));
            let mut m: Vec<char> = Vec::new();
            append_str(&mut m, "a tag is ");
            append_decimal(&mut m, len as u64);
            append_str(&mut m, " characters; the maximum is 100");
            proof {
                reveal_strlit("a tag is ");
            }
            return Err(AppError::InvalidInput(string_of(m.as_slice())));
        }
        i = i + 1;
    }
    Ok(())
}

/// The recall limit: the default when omitted, the requested count when it
/// is in `1..=max`, otherwise an error naming the range.
pub fn recall_limit(requested: Option<u32>, default_limit: u8, max: u8) -> (r: Result<usize, AppError>)
    ensures
        requested is None ==> r == Ok::<usize, AppError>(default_limit as usize),
        requested matches Some(n) ==> (1 <= n <= max ==> r == Ok::<usize, AppError>(n as usize)),
        requested matches Some(n) ==> (!(1 <= n <= max) ==> (r matches Err(e) && invalid_input_is(
            e,
            "limit "@ + decimal(n as nat) + " is out of range 1..="@ + decimal(max as nat),
        ))),
{
    match requested {
        None => Ok(default_limit as usize),
        Some(n) => {
            if 1 <= n && n <= max as u32 {
                Ok(n as usize)
            } else {
                let mut m: Vec<char> = Vec::new();
                append_str(&mut m, "limit ");
                append_decimal(&mut m, n as u64);
                append_str(&mut m, " is out of range 1..=");
                append_decimal(&mut m, max as u64);
                Err(AppError::InvalidInput(string_of(m.as_slice())))
            }
        },
    }
}

/// `forget` input validation: the id must not be blank.
pub fn check_forget_id(id: &str) -> (r: Result<(), AppError>)
    ensures
        r is Ok <==> !is_blank_seq(id@),
        r matches Err(e) ==> invalid_input_is(e, "id is empty"@),
{
    if str_is_blank(id) {
        return Err(AppError::InvalidInput("id is empty".to_string()));
    }
    Ok(())
}

/// `forget` outcome: a deletion that found nothing is its own error.
pub fn forget_outcome(id: &str, found: bool) -> (r: Result<bool, AppError>)
    ensures
        found ==> r == Ok::<bool, AppError>(true),
        !found ==> (r matches Err(e) && invalid_input_is(e, "no memory with id "@ + crate::text::debug_str(id@))),
{
    if found {
        Ok(true)
    } else {
        let mut m: Vec<char> = Vec::new();
        append_str(&mut m, "no memory with id ");
        let q = crate::text::debug_quote(id);
        append_str(&mut m, q.as_str());
        Err(AppError::InvalidInput(string_of(m.as_slice())))
    }
}

/// How a save derives its trust standing.
#[derive(Debug, Clone, Copy, PartialEq, Eq, Structural)]
pub enum TrustPlan {
    /// First-hand content: trusted as is.
    FirstHand,
    /// External content: run verification, which decides.
    Verify,
    /// External content without verification: quarantined.
    Untrusted,
}

/// The trust plan of a save.
pub open spec fn spec_trust_plan(p: SaveParams) -> TrustPlan {
    if !p.external {
        TrustPlan::FirstHand
    } else if p.verify == Some(true) {
        TrustPlan::Verify
    } else {
        TrustPlan::Untrusted
    }
}

/// Choose how this save derives trust. First-hand content never runs
/// verification, whatever the caller asked.
pub fn trust_plan(params: &SaveParams) -> (r: TrustPlan)
    ensures
        r == spec_trust_plan(*params),
        !params.external ==> r == TrustPlan::FirstHand,
        params.external && params.verify == Some(true) ==> r == TrustPlan::Verify,
        params.external && params.verify != Some(true) ==> r == TrustPlan::Untrusted,
        (r == TrustPlan::Verify) == spec_save_runs_verification(*params),
{
    if !params.external {
        TrustPlan::FirstHand
    } else if save_runs_verification(params) {
        TrustPlan::Verify
    } else {
        TrustPlan::Untrusted
    }
}

/// The refusal of a save whose content verification refuted.
pub open spec fn refuted_save_message(findings: Seq<Seq<char>>) -> Seq<char> {
    "save rejected: verification refuted the content: "@ + crate::text::join(findings, " | "@)
}

/// The trust a verified save earns: refuted content is rejected with the
/// findings and never stored; supported content is stored as verified.
pub fn verified_trust(verdict: VerdictKind, findings: &Vec<String>) -> (r: Result<Trust, AppError>)
    ensures
        verdict == VerdictKind::Refuted ==> (r matches Err(e) && crate::error::validation_failure_is(
            e,
            refuted_save_message(crate::text::strs_of(findings@)),
        )),
        verdict == VerdictKind::Supported ==> r == Ok::<Trust, AppError>(Trust::Verified),
{
    if verdict == VerdictKind::Refuted {
        let parts = crate::text::chars_of_all(findings);
        let sep = crate::text::chars_of(" | ");
        let mut m = crate::text::chars_of("save rejected: verification refuted the content: ");
        let body = crate::text::join_chars(&parts, sep.as_slice());
        crate::text::append_chars(&mut m, body.as_slice());
        Err(AppError::ValidationFailure(string_of(m.as_slice())))
    } else {
        Ok(Trust::Verified)
    }
}

/// A save runs verification only when the caller asked for it on external
/// content: first-hand content is trusted as is whatever was asked, and
/// external content the caller did not ask to verify (`verify` absent or
/// `false`) is stored untrusted without any verification.
pub proof fn lemma_verification_only_on_request(p: SaveParams)
    ensures
        spec_save_runs_verification(p) ==> p.verify == Some(true) && p.external,
        spec_trust_plan(p) == TrustPlan::Verify <==> p.external && p.verify == Some(true),
        p.external && p.verify == Some(false) ==> spec_trust_plan(p) == TrustPlan::Untrusted
            && !spec_save_runs_verification(p),
        !p.external ==> spec_trust_plan(p) == TrustPlan::FirstHand && !spec_save_runs_verification(p),
{
}

} // verus!
