//! Admission-time consolidation: supersession and merge decisions. The apply
//! rules are pure: `updates` supersedes, `same_assertion` merges inside the
//! merge band unless the trust guard blocks it, and everything else keeps both
//! memories. Stored content is never modified; only the older record's status
//! changes.
use vstd::prelude::*;
use crate::error::AppError;
use crate::memory::{trusted, Status, Trust};
use crate::text::{chars_of, find_from, is_first_occurrence, string_of};

verus! {

/// The consolidation judgment's registry id.
pub const CONSOLIDATION_MODE_ID: &'static str = "memory_consolidation";

/// Budget for the single judgment; an overrun keeps both memories.
pub const CONSOLIDATION_BUDGET_MS: u64 = 5_000;

/// Max capture proposals stored per session.
pub const CAPTURE_SESSION_CAP: u32 = 2;

/// How the judgment relates the new admission to the old active memory.
/// Uncertain means `Distinct`.
#[derive(Debug, Clone, Copy, PartialEq, Eq, Structural)]
pub enum Relation {
    /// Same knowledge in different words.
    SameAssertion,
    /// The new memory replaces the old as current truth.
    Updates,
    /// Situational; does not displace the standing memory.
    ContextSpecific,
    /// Different knowledge (also the uncertain default).
    Distinct,
}

/// The judgment's constrained output.
#[derive(Debug, Clone)]
pub struct ConsolidationOut {
    /// The relation of the new memory to the old.
    pub relation: Relation,
    /// One sentence of grounds.
    pub basis: String,
}

/// The consolidation audit actions.
#[derive(Debug, Clone, Copy, PartialEq, Eq, Structural)]
pub enum ConsolidationAction {
    /// An older memory was superseded by a newer admission.
    Supersede,
    /// An older memory was merged into a newer canonical admission.
    Merge,
    /// A capture candidate was proposed and stored (quarantined).
    CaptureProposed,
    /// A capture proposal was dropped by the per-session cap.
    CaptureDropped,
}

/// The stable string form of an audit action.
pub open spec fn action_str(a: ConsolidationAction) -> Seq<char> {
    match a {
        ConsolidationAction::Supersede => "supersede"@,
        ConsolidationAction::Merge => "merge"@,
        ConsolidationAction::CaptureProposed => "capture_proposed"@,
        ConsolidationAction::CaptureDropped => "capture_dropped"@,
    }
}

/// The audit action whose stable string form is `s`, if any.
pub open spec fn action_from_str(s: Seq<char>) -> Option<ConsolidationAction> {
    if s == "supersede"@ {
        Some(ConsolidationAction::Supersede)
    } else if s == "merge"@ {
        Some(ConsolidationAction::Merge)
    } else if s == "capture_proposed"@ {
        Some(ConsolidationAction::CaptureProposed)
    } else if s == "capture_dropped"@ {
        Some(ConsolidationAction::CaptureDropped)
    } else {
        None
    }
}

impl ConsolidationAction {
    /// Stable string form (the `action` column).
    pub fn as_str(self) -> (r: &'static str)
        ensures
            r@ == action_str(self),
    {
        match self {
            ConsolidationAction::Supersede => "supersede",
            ConsolidationAction::Merge => "merge",
            ConsolidationAction::CaptureProposed => "capture_proposed",
            ConsolidationAction::CaptureDropped => "capture_dropped",
        }
    }

    /// Parse the stable string form (storage read path).
    pub fn parse(s: &str) -> (r: Option<ConsolidationAction>)
        ensures
            r == action_from_str(s@),
    {
        if crate::text::str_eq(s, "supersede") {
            Some(ConsolidationAction::Supersede)
        } else if crate::text::str_eq(s, "merge") {
            Some(ConsolidationAction::Merge)
        } else if crate::text::str_eq(s, "capture_proposed") {
            Some(ConsolidationAction::CaptureProposed)
        } else if crate::text::str_eq(s, "capture_dropped") {
            Some(ConsolidationAction::CaptureDropped)
        } else {
            None
        }
    }
}

/// Every audit action parses from its stable string to itself.
pub proof fn lemma_action_round_trip(a: ConsolidationAction)
    ensures
        action_from_str(action_str(a)) == Some(a),
{
    reveal_strlit("supersede");
    reveal_strlit("merge");
    reveal_strlit("capture_proposed");
    reveal_strlit("capture_dropped");
    assert("supersede"@.len() != "merge"@.len());
    assert("supersede"@.len() != "capture_proposed"@.len());
    assert("supersede"@.len() != "capture_dropped"@.len());
    assert("merge"@.len() != "capture_proposed"@.len());
    assert("merge"@.len() != "capture_dropped"@.len());
    assert("capture_proposed"@.len() != "capture_dropped"@.len());
}

/// A pure apply decision: which status change the judgment implies.
#[derive(Debug, Clone, PartialEq, Eq, Structural)]
pub struct Applied {
    /// The audit action.
    pub action: ConsolidationAction,
    /// The old memory's new status.
    pub old_status: Status,
}

/// The apply rules: `updates` supersedes; `same_assertion` merges inside the
/// merge band unless an untrusted admission would merge away a trusted
/// record; everything else keeps both.
pub open spec fn spec_apply(relation: Relation, in_merge_band: bool, new_trust: Trust, old_trust: Trust) -> Option<Applied> {
    match relation {
        Relation::Updates => Some(
            Applied { action: ConsolidationAction::Supersede, old_status: Status::Superseded },
        ),
        Relation::SameAssertion => {
            if in_merge_band && (trusted(new_trust) || !trusted(old_trust)) {
                Some(Applied { action: ConsolidationAction::Merge, old_status: Status::Merged })
            } else {
                None
            }
        },
        _ => None,
    }
}

/// Decide the status change for a screened pair. `in_merge_band` says whether
/// the pair's raw cosine reached the merge band.
pub fn apply(relation: Relation, in_merge_band: bool, new_trust: Trust, old_trust: Trust) -> (r: Option<Applied>)
    ensures
        r == spec_apply(relation, in_merge_band, new_trust, old_trust),
{
    match relation {
        Relation::Updates => Some(
            Applied { action: ConsolidationAction::Supersede, old_status: Status::Superseded },
        ),
        Relation::SameAssertion => {
            if in_merge_band && (new_trust.is_trusted() || !old_trust.is_trusted()) {
                Some(Applied { action: ConsolidationAction::Merge, old_status: Status::Merged })
            } else {
                None
            }
        },
        _ => None,
    }
}

/// The trust guard and the keep-both default: an untrusted admission never
/// merges away a trusted record, a status change never reactivates anything,
/// and only `updates` or `same_assertion` change a status at all.
pub proof fn lemma_apply_guards(relation: Relation, in_merge_band: bool, new_trust: Trust, old_trust: Trust)
    ensures
        (!trusted(new_trust) && trusted(old_trust)) ==> !(spec_apply(
            relation,
            in_merge_band,
            new_trust,
            old_trust,
        ) matches Some(a) && a.action == ConsolidationAction::Merge),
        spec_apply(relation, in_merge_band, new_trust, old_trust) matches Some(a)
            ==> a.old_status != Status::Active,
        (relation == Relation::ContextSpecific || relation == Relation::Distinct) ==> spec_apply(
            relation,
            in_merge_band,
            new_trust,
            old_trust,
        ) is None,
        !in_merge_band && relation != Relation::Updates ==> spec_apply(
            relation,
            in_merge_band,
            new_trust,
            old_trust,
        ) is None,
{
}

/// The consolidation judgment's instructions: classify how a new memory
/// relates to one existing memory, defaulting to distinct when uncertain.
pub const CONSOLIDATION_PROMPT_TEMPLATE: &'static str = "You are an external memory curator judging how a NEWLY stored memory relates to one EXISTING stored memory. You see only the two contents \u{2014} no author, no stakes. Classify the relation:\n- same_assertion: the two state the SAME knowledge in different words.\n- updates: the NEW memory replaces the OLD as current truth (the old statement was true, the world changed).\n- context_specific: the NEW statement is situational or temporary and does NOT displace the OLD standing statement (e.g. a this-week circumstance beside a standing fact).\n- distinct: different knowledge.\nHARD RULE: when uncertain between any two classifications, answer distinct \u{2014} wrongly replacing or merging destroys knowledge; keeping both costs only a duplicate.\nReturn the relation and a one-sentence basis.\n\nEXISTING memory:\n<<existing>>\n\nNEW memory:\n<<new>>";

/// The description the consolidation mode registers with.
pub const CONSOLIDATION_DESCRIPTION: &'static str = "internal: admission-time memory consolidation";

/// The judgment prompt: the template with its existing-memory slot and then
/// its new-memory slot (searched after the first) filled.
pub open spec fn judgment_prompt(t: Seq<char>, i: int, j: int, old: Seq<char>, new: Seq<char>) -> Seq<char> {
    let rest = t.subrange(i + "<<existing>>"@.len(), t.len() as int);
    t.subrange(0, i) + old + rest.subrange(0, j) + new + rest.subrange(
        j + "<<new>>"@.len(),
        rest.len() as int,
    )
}

/// Fill the consolidation template in one pass: both placeholders are located
/// in the pristine template before any memory text is inserted.
pub fn build_judgment_prompt(template: &str, old_content: &str, new_content: &str) -> (r: Result<String, AppError>)
    ensures
        r matches Ok(p) ==> exists|i: int, j: int|
            is_first_occurrence(template@, "<<existing>>"@, i) && is_first_occurrence(
                template@.subrange(i + "<<existing>>"@.len(), template@.len() as int),
                "<<new>>"@,
                j,
            ) && p@ == judgment_prompt(template@, i, j, old_content@, new_content@),
        r is Err <==> (!exists|i: int| is_first_occurrence(template@, "<<existing>>"@, i)) || (
        exists|i: int|
            is_first_occurrence(template@, "<<existing>>"@, i) && !exists|j: int|
                #[trigger] is_first_occurrence(
                    template@.subrange(i + "<<existing>>"@.len(), template@.len() as int),
                    "<<new>>"@,
                    j,
                )),
        r matches Err(e) ==> e is ValidationFailure,
{
    let t = chars_of(template);
    let tn = t.len();
    let existing = chars_of("<<existing>>");
    let newp = chars_of("<<new>>");
    let i = match find_from(t.as_slice(), existing.as_slice(), 0) {
        Some(i) => i,
        None => {
            proof {
                crate::text::lemma_no_first_occurrence(t@, existing@);
            }
            return Err(AppError::ValidationFailure(
                "consolidation template lost its existing placeholder".to_string(),
            ));
        },
    };
    assert(crate::text::occurs_at(t@, existing@, i as int));
    proof {
        crate::text::lemma_first_occurrence_unique(t@, existing@, i as int);
    }
    let start = i + existing.len();
    let mut rest: Vec<char> = Vec::new();
    let mut k: usize = start;
    while k < t.len()
        invariant
            start <= k <= t@.len(),
            rest@ == t@.subrange(start as int, k as int),
        decreases t@.len() - k,
    {
        rest.push(t[k]);
        assert(t@.subrange(start as int, k + 1) == t@.subrange(start as int, k as int).push(t@[k as int]));
        k = k + 1;
    }
    let j = match find_from(rest.as_slice(), newp.as_slice(), 0) {
        Some(j) => j,
        None => {
            proof {
                crate::text::lemma_no_first_occurrence(rest@, newp@);
            }
            return Err(AppError::ValidationFailure(
                "consolidation template lost its new placeholder".to_string(),
            ));
        },
    };
    proof {
        crate::text::lemma_first_occurrence_unique(rest@, newp@, j as int);
    }
    let mut out: Vec<char> = Vec::new();
    let mut k: usize = 0;
    while k < i
        invariant
            0 <= k <= i,
            i <= t@.len(),
            out@ == t@.subrange(0, k as int),
        decreases i - k,
    {
        out.push(t[k]);
        assert(t@.subrange(0, k + 1) == t@.subrange(0, k as int).push(t@[k as int]));
        k = k + 1;
    }
    crate::text::append_str(&mut out, old_content);
    let mut k: usize = 0;
    while k < j
        invariant
            0 <= k <= j,
            j <= rest@.len(),
            out@ == t@.subrange(0, i as int) + old_content@ + rest@.subrange(0, k as int),
        decreases j - k,
    {
        out.push(rest[k]);
        assert(rest@.subrange(0, k + 1) == rest@.subrange(0, k as int).push(rest@[k as int]));
        k = k + 1;
    }
    crate::text::append_str(&mut out, new_content);
    let mut k: usize = j + newp.len();
    while k < rest.len()
        invariant
            j + newp@.len() <= k <= rest@.len(),
            out@ == t@.subrange(0, i as int) + old_content@ + rest@.subrange(0, j as int)
                + new_content@ + rest@.subrange(j + newp@.len(), k as int),
        decreases rest@.len() - k,
    {
        out.push(rest[k]);
        assert(rest@.subrange(j + newp@.len(), k + 1) == rest@.subrange(
            j + newp@.len(),
            k as int,
        ).push(rest@[k as int]));
        k = k + 1;
    }
    assert(out@ == judgment_prompt(template@, i as int, j as int, old_content@, new_content@));
    assert(rest@ == template@.subrange(i + "<<existing>>"@.len(), template@.len() as int));
    assert(is_first_occurrence(
        template@.subrange(i + "<<existing>>"@.len(), template@.len() as int),
        "<<new>>"@,
        j as int,
    ));
    assert(is_first_occurrence(template@, "<<existing>>"@, i as int));
    proof {
        crate::text::lemma_first_occurrence_unique(template@, "<<existing>>"@, i as int);
        assert forall|i2: int| is_first_occurrence(template@, "<<existing>>"@, i2) implies exists|
            j2: int,
        |
            #[trigger] is_first_occurrence(
                template@.subrange(i2 + "<<existing>>"@.len(), template@.len() as int),
                "<<new>>"@,
                j2,
            ) by {
            assert(i2 == i);
        }
    }
    Ok(string_of(out.as_slice()))
}

} // verus!
