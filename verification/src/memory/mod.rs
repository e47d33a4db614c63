//! The memory layer's records: what a memory is, its consolidation status,
//! and its derived trust standing, each with a stable string form used by
//! storage.
use vstd::prelude::*;

pub mod consolidate;
pub mod contract;
pub mod push;
pub mod tools;

verus! {

/// What a memory is.
#[derive(Debug, Clone, Copy, PartialEq, Eq, Structural)]
pub enum Kind {
    /// A reusable approach that worked (procedural).
    Skill,
    /// What failed and why (episodic to semantic).
    Lesson,
    /// Durable knowledge (semantic).
    Fact,
}

/// The stable string form of a kind.
pub open spec fn kind_str(k: Kind) -> Seq<char> {
    match k {
        Kind::Skill => "skill"@,
        Kind::Lesson => "lesson"@,
        Kind::Fact => "fact"@,
    }
}

/// The kind whose stable string form is `s`, if any.
pub open spec fn kind_from_str(s: Seq<char>) -> Option<Kind> {
    if s == "skill"@ {
        Some(Kind::Skill)
    } else if s == "lesson"@ {
        Some(Kind::Lesson)
    } else if s == "fact"@ {
        Some(Kind::Fact)
    } else {
        None
    }
}

impl Kind {
    /// Stable string form (the `kind` column).
    pub fn as_str(self) -> (r: &'static str)
        ensures
            r@ == kind_str(self),
    {
        match self {
            Kind::Skill => "skill",
            Kind::Lesson => "lesson",
            Kind::Fact => "fact",
        }
    }

    /// Parse the stable string form (storage read path).
    pub fn parse(s: &str) -> (r: Option<Kind>)
        ensures
            r == kind_from_str(s@),
    {
        if crate::text::str_eq(s, "skill") {
            Some(Kind::Skill)
        } else if crate::text::str_eq(s, "lesson") {
            Some(Kind::Lesson)
        } else if crate::text::str_eq(s, "fact") {
            Some(Kind::Fact)
        } else {
            None
        }
    }
}

/// Consolidation status: only `Active` records participate in retrieval;
/// content is never modified by a status change.
#[derive(Debug, Clone, Copy, PartialEq, Eq, Structural)]
pub enum Status {
    /// Participates in retrieval.
    Active,
    /// Replaced as current truth by a newer admission.
    Superseded,
    /// Unified into a canonical record.
    Merged,
}

/// The stable string form of a status.
pub open spec fn status_str(s: Status) -> Seq<char> {
    match s {
        Status::Active => "active"@,
        Status::Superseded => "superseded"@,
        Status::Merged => "merged"@,
    }
}

/// The status whose stable string form is `s`, if any.
pub open spec fn status_from_str(s: Seq<char>) -> Option<Status> {
    if s == "active"@ {
        Some(Status::Active)
    } else if s == "superseded"@ {
        Some(Status::Superseded)
    } else if s == "merged"@ {
        Some(Status::Merged)
    } else {
        None
    }
}

impl Status {
    /// Stable string form (the `status` column).
    pub fn as_str(self) -> (r: &'static str)
        ensures
            r@ == status_str(self),
    {
        match self {
            Status::Active => "active",
            Status::Superseded => "superseded",
            Status::Merged => "merged",
        }
    }

    /// Parse the stable string form (storage read path).
    pub fn parse(s: &str) -> (r: Option<Status>)
        ensures
            r == status_from_str(s@),
    {
        if crate::text::str_eq(s, "active") {
            Some(Status::Active)
        } else if crate::text::str_eq(s, "superseded") {
            Some(Status::Superseded)
        } else if crate::text::str_eq(s, "merged") {
            Some(Status::Merged)
        } else {
            None
        }
    }

    /// Whether this record participates in retrieval.
    pub fn is_active(self) -> (r: bool)
        ensures
            r == (self == Status::Active),
    {
        match self {
            Status::Active => true,
            _ => false,
        }
    }
}

/// Trust standing: derived from provenance and verification, never set by
/// the caller.
#[derive(Debug, Clone, Copy, PartialEq, Eq, Structural)]
pub enum Trust {
    /// First-hand experience of the calling session.
    FirstHand,
    /// External provenance, admitted through an independent verification pass.
    Verified,
    /// External provenance, unverified: stored quarantined and down-ranked.
    Untrusted,
}

/// The stable string form of a trust standing.
pub open spec fn trust_str(t: Trust) -> Seq<char> {
    match t {
        Trust::FirstHand => "first_hand"@,
        Trust::Verified => "verified"@,
        Trust::Untrusted => "untrusted"@,
    }
}

/// The trust standing whose stable string form is `s`, if any.
pub open spec fn trust_from_str(s: Seq<char>) -> Option<Trust> {
    if s == "first_hand"@ {
        Some(Trust::FirstHand)
    } else if s == "verified"@ {
        Some(Trust::Verified)
    } else if s == "untrusted"@ {
        Some(Trust::Untrusted)
    } else {
        None
    }
}

/// Trusted tiers never rank below `Untrusted` at comparable relevance.
pub open spec fn trusted(t: Trust) -> bool {
    t == Trust::FirstHand || t == Trust::Verified
}

impl Trust {
    /// Whether this standing is a trusted tier.
    pub fn is_trusted(self) -> (r: bool)
        ensures
            r == trusted(self),
    {
        match self {
            Trust::FirstHand | Trust::Verified => true,
            Trust::Untrusted => false,
        }
    }

    /// Stable string form (the `trust` column).
    pub fn as_str(self) -> (r: &'static str)
        ensures
            r@ == trust_str(self),
    {
        match self {
            Trust::FirstHand => "first_hand",
            Trust::Verified => "verified",
            Trust::Untrusted => "untrusted",
        }
    }

    /// Parse the stable string form (storage read path).
    pub fn parse(s: &str) -> (r: Option<Trust>)
        ensures
            r == trust_from_str(s@),
    {
        if crate::text::str_eq(s, "first_hand") {
            Some(Trust::FirstHand)
        } else if crate::text::str_eq(s, "verified") {
            Some(Trust::Verified)
        } else if crate::text::str_eq(s, "untrusted") {
            Some(Trust::Untrusted)
        } else {
            None
        }
    }
}

/// Reading back what was written: every kind, status and trust standing
/// parses from its stable string to itself.
pub proof fn lemma_stable_strings_round_trip(k: Kind, s: Status, t: Trust)
    ensures
        kind_from_str(kind_str(k)) == Some(k),
        status_from_str(status_str(s)) == Some(s),
        trust_from_str(trust_str(t)) == Some(t),
{
    reveal_strlit("skill");
    reveal_strlit("lesson");
    reveal_strlit("fact");
    reveal_strlit("active");
    reveal_strlit("superseded");
    reveal_strlit("merged");
    reveal_strlit("first_hand");
    reveal_strlit("verified");
    reveal_strlit("untrusted");
    assert("skill"@.len() != "lesson"@.len());
    assert("skill"@.len() != "fact"@.len());
    assert("lesson"@.len() != "fact"@.len());
    assert("active"@[0] != "merged"@[0]);
    assert("active"@.len() != "superseded"@.len());
    assert("merged"@.len() != "superseded"@.len());
    assert("first_hand"@.len() != "verified"@.len());
    assert("first_hand"@.len() != "untrusted"@.len());
    assert("verified"@.len() != "untrusted"@.len());
}

/// Distinct values have distinct stable strings, so storage never confuses
/// two kinds, statuses or trust standings.
pub proof fn lemma_stable_strings_distinct(k1: Kind, k2: Kind, s1: Status, s2: Status, t1: Trust, t2: Trust)
    ensures
        k1 != k2 ==> kind_str(k1) != kind_str(k2),
        s1 != s2 ==> status_str(s1) != status_str(s2),
        t1 != t2 ==> trust_str(t1) != trust_str(t2),
{
    lemma_stable_strings_round_trip(k1, s1, t1);
    lemma_stable_strings_round_trip(k2, s2, t2);
}

} // verus!
