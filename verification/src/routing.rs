//! Per-call-site model routing.
//!
//! Each of the server's model call sites runs on a model chosen for the work
//! it does. Resolution is most-specific-first, for the model and for the
//! reasoning effort independently: the call site's own setting, else its
//! tier's setting, else the server-wide default (for effort: else no effort
//! at all). The reserved namespaces are validated: an unrecognised suffix, an
//! empty model value or an unparseable effort is a startup error naming the
//! variable, never a silently ignored setting.
use vstd::prelude::*;
use crate::text::{
    append_str, chars_eq, chars_lt, chars_of, is_blank, is_blank_seq, lowercase,
    lemma_seq_lt_total, seq_lt, str_to_lowercase, string_of, trim_seq, trim_str,
};

verus! {

/// Reserved environment prefix for every model routing variable.
pub const PREFIX: &'static str = "PARALLAX_MODEL_";

/// Reserved namespace for per-call-site reasoning effort.
pub const EFFORT_PREFIX: &'static str = "PARALLAX_EFFORT_";

/// The model namespace prefix as characters.
pub open spec fn model_prefix() -> Seq<char> {
    "PARALLAX_MODEL_"@
}

/// The effort namespace prefix as characters.
pub open spec fn effort_prefix() -> Seq<char> {
    "PARALLAX_EFFORT_"@
}

// ---------------------------------------------------------------------------
// Effort
// ---------------------------------------------------------------------------
/// How much reasoning a call site should spend.
#[derive(Debug, Clone, Copy, PartialEq, Eq, PartialOrd, Ord, Hash, Structural)]
pub enum Effort {
    /// Minimal reasoning.
    Low,
    /// Moderate reasoning.
    Medium,
    /// Deep reasoning on complex tasks; the provider's default.
    High,
    /// Always thinks, no constraint on depth.
    Max,
    /// Always thinks deeply, with extended exploration.
    XHigh,
}

/// The wire spelling of an effort level.
pub open spec fn effort_str(e: Effort) -> Seq<char> {
    match e {
        Effort::Low => "low"@,
        Effort::Medium => "medium"@,
        Effort::High => "high"@,
        Effort::Max => "max"@,
        Effort::XHigh => "xhigh"@,
    }
}

/// The effort level whose wire spelling is exactly `s`.
pub open spec fn effort_named(s: Seq<char>) -> Option<Effort> {
    if s == "low"@ {
        Some(Effort::Low)
    } else if s == "medium"@ {
        Some(Effort::Medium)
    } else if s == "high"@ {
        Some(Effort::High)
    } else if s == "max"@ {
        Some(Effort::Max)
    } else if s == "xhigh"@ {
        Some(Effort::XHigh)
    } else {
        None
    }
}

/// What `Effort::parse` reads from an operator-supplied value: trimmed,
/// lowercased, then matched against the wire spellings.
pub open spec fn spec_parse_effort(value: Seq<char>) -> Option<Effort> {
    effort_named(lowercase(trim_seq(value)))
}

/// The rank of an effort level, cheapest first.
pub open spec fn effort_rank(e: Effort) -> int {
    match e {
        Effort::Low => 0,
        Effort::Medium => 1,
        Effort::High => 2,
        Effort::Max => 3,
        Effort::XHigh => 4,
    }
}

impl Effort {
    /// Every level, cheapest first.
    pub const ALL: [Effort; 5] = [Effort::Low, Effort::Medium, Effort::High, Effort::Max, Effort::XHigh];

    /// The wire spelling the provider expects.
    pub fn as_str(self) -> (r: &'static str)
        ensures
            r@ == effort_str(self),
    {
        match self {
            Effort::Low => "low",
            Effort::Medium => "medium",
            Effort::High => "high",
            Effort::Max => "max",
            Effort::XHigh => "xhigh",
        }
    }

    /// Parse an operator-supplied value, case-insensitively and ignoring
    /// surrounding whitespace.
    pub fn parse(value: &str) -> (r: Option<Effort>)
        ensures
            r == spec_parse_effort(value@),
    {
        let trimmed = trim_str(value);
        let lowered = str_to_lowercase(trimmed.as_str());
        let l = lowered.as_str();
        if crate::text::str_eq(l, "low") {
            Some(Effort::Low)
        } else if crate::text::str_eq(l, "medium") {
            Some(Effort::Medium)
        } else if crate::text::str_eq(l, "high") {
            Some(Effort::High)
        } else if crate::text::str_eq(l, "max") {
            Some(Effort::Max)
        } else if crate::text::str_eq(l, "xhigh") {
            Some(Effort::XHigh)
        } else {
            None
        }
    }
}

/// A sequence of lowercase ASCII letters is unchanged by trimming and
/// lowercasing.
proof fn lemma_lower_word_fixed(s: Seq<char>)
    requires
        s.len() > 0,
        forall|i: int| 0 <= i < s.len() ==> 'a' <= #[trigger] s[i] <= 'z',
    ensures
        lowercase(trim_seq(s)) == s,
{
    assert(!crate::text::is_whitespace_char(s[0]));
    assert(!crate::text::is_whitespace_char(s[s.len() - 1]));
    assert(crate::text::first_kept(s, 0) == 0);
    assert(crate::text::last_kept(s, s.len() as int) == s.len());
    assert(trim_seq(s) =~= s);
    assert(crate::text::all_ascii(s));
    assert(s.map_values(|c: char| crate::text::ascii_lower(c)) =~= s);
}

/// Every effort level's wire spelling parses back to that level.
pub proof fn lemma_effort_round_trip(e: Effort)
    ensures
        spec_parse_effort(effort_str(e)) == Some(e),
{
    reveal_strlit("low");
    reveal_strlit("medium");
    reveal_strlit("high");
    reveal_strlit("max");
    reveal_strlit("xhigh");
    lemma_lower_word_fixed(effort_str(e));
    assert("low"@.len() != "medium"@.len());
    assert("low"@.len() != "high"@.len());
    assert("low"@[0] != "max"@[0]);
    assert("low"@.len() != "xhigh"@.len());
    assert("medium"@.len() != "high"@.len());
    assert("medium"@.len() != "max"@.len());
    assert("medium"@.len() != "xhigh"@.len());
    assert("high"@.len() != "max"@.len());
    assert("high"@.len() != "xhigh"@.len());
    assert("max"@.len() != "xhigh"@.len());
}

// ---------------------------------------------------------------------------
// Tier and call site
// ---------------------------------------------------------------------------
/// A work-kind grouping of call sites.
#[derive(Debug, Clone, Copy, PartialEq, Eq, PartialOrd, Ord, Hash, Structural)]
pub enum Tier {
    /// Transcription work whose volume scales with the size of a run.
    Bulk,
    /// Everything that exercises judgment.
    Judgment,
}

/// The environment-variable suffix naming a tier.
pub open spec fn tier_suffix(t: Tier) -> Seq<char> {
    match t {
        Tier::Bulk => "BULK"@,
        Tier::Judgment => "JUDGMENT"@,
    }
}

/// The lowercase id of a tier.
pub open spec fn tier_id(t: Tier) -> Seq<char> {
    match t {
        Tier::Bulk => "bulk"@,
        Tier::Judgment => "judgment"@,
    }
}

impl Tier {
    /// Every tier.
    pub const ALL: [Tier; 2] = [Tier::Bulk, Tier::Judgment];

    /// The environment-variable suffix naming this tier.
    pub fn suffix(self) -> (r: &'static str)
        ensures
            r@ == tier_suffix(self),
    {
        match self {
            Tier::Bulk => "BULK",
            Tier::Judgment => "JUDGMENT",
        }
    }

    /// Lowercase id, used in the startup routing table.
    pub fn id(self) -> (r: &'static str)
        ensures
            r@ == tier_id(self),
    {
        match self {
            Tier::Bulk => "bulk",
            Tier::Judgment => "judgment",
        }
    }
}

/// One named place in the server that asks a model for a schema-constrained
/// answer: the routable unit. Declaration order is the order of
/// [`CallSite::ALL`] and of [`CallSite::index`].
#[derive(Debug, Clone, Copy, PartialEq, Eq, PartialOrd, Ord, Hash, Structural)]
pub enum CallSite {
    /// The `verify` corrective.
    Verify,
    /// The `unstick` corrective.
    Unstick,
    /// The `diverge` corrective.
    Diverge,
    /// The `decide` corrective.
    Decide,
    /// The `elicit` corrective.
    Elicit,
    /// The `grounded_verify` corrective.
    GroundedVerify,
    /// The deterministic layer's claim-to-formal-target translation.
    CheckTranslate,
    /// Research phase 1: decompose the question into angles.
    ResearchScope,
    /// Research phase 3: per-source claim extraction.
    ResearchExtract,
    /// Research phase 4: refute-biased per-claim verification.
    ResearchVerify,
    /// Research phase 5: write the answer prose.
    ResearchSynthesize,
    /// The end-of-turn checkpoint review hop.
    CheckpointReview,
}

/// Number of call sites.
pub const SITE_COUNT: usize = 12;

/// The call site at position `k` of [`CallSite::ALL`].
pub open spec fn site_at(k: int) -> CallSite {
    if k == 0 {
        CallSite::Verify
    } else if k == 1 {
        CallSite::Unstick
    } else if k == 2 {
        CallSite::Diverge
    } else if k == 3 {
        CallSite::Decide
    } else if k == 4 {
        CallSite::Elicit
    } else if k == 5 {
        CallSite::GroundedVerify
    } else if k == 6 {
        CallSite::CheckTranslate
    } else if k == 7 {
        CallSite::ResearchScope
    } else if k == 8 {
        CallSite::ResearchExtract
    } else if k == 9 {
        CallSite::ResearchVerify
    } else if k == 10 {
        CallSite::ResearchSynthesize
    } else {
        CallSite::CheckpointReview
    }
}

/// The position of a call site in [`CallSite::ALL`].
pub open spec fn site_index(s: CallSite) -> int {
    match s {
        CallSite::Verify => 0,
        CallSite::Unstick => 1,
        CallSite::Diverge => 2,
        CallSite::Decide => 3,
        CallSite::Elicit => 4,
        CallSite::GroundedVerify => 5,
        CallSite::CheckTranslate => 6,
        CallSite::ResearchScope => 7,
        CallSite::ResearchExtract => 8,
        CallSite::ResearchVerify => 9,
        CallSite::ResearchSynthesize => 10,
        CallSite::CheckpointReview => 11,
    }
}

/// The stable lowercase id of a call site.
pub open spec fn site_id(s: CallSite) -> Seq<char> {
    match s {
        CallSite::Verify => "verify"@,
        CallSite::Unstick => "unstick"@,
        CallSite::Diverge => "diverge"@,
        CallSite::Decide => "decide"@,
        CallSite::Elicit => "elicit"@,
        CallSite::GroundedVerify => "grounded_verify"@,
        CallSite::CheckTranslate => "check_translate"@,
        CallSite::ResearchScope => "research_scope"@,
        CallSite::ResearchExtract => "research_extract"@,
        CallSite::ResearchVerify => "research_verify"@,
        CallSite::ResearchSynthesize => "research_synthesize"@,
        CallSite::CheckpointReview => "checkpoint_review"@,
    }
}

/// The environment-variable suffix overriding one call site.
pub open spec fn site_suffix(s: CallSite) -> Seq<char> {
    match s {
        CallSite::Verify => "VERIFY"@,
        CallSite::Unstick => "UNSTICK"@,
        CallSite::Diverge => "DIVERGE"@,
        CallSite::Decide => "DECIDE"@,
        CallSite::Elicit => "ELICIT"@,
        CallSite::GroundedVerify => "GROUNDED_VERIFY"@,
        CallSite::CheckTranslate => "CHECK_TRANSLATE"@,
        CallSite::ResearchScope => "RESEARCH_SCOPE"@,
        CallSite::ResearchExtract => "RESEARCH_EXTRACT"@,
        CallSite::ResearchVerify => "RESEARCH_VERIFY"@,
        CallSite::ResearchSynthesize => "RESEARCH_SYNTHESIZE"@,
        CallSite::CheckpointReview => "CHECKPOINT_REVIEW"@,
    }
}

/// ASCII uppercasing of one character (`char::to_ascii_uppercase`).
pub open spec fn ascii_upper(c: char) -> char {
    if 'a' <= c && c <= 'z' {
        ((c as u32) - 32) as char
    } else {
        c
    }
}

/// Each character ASCII-uppercased.
pub open spec fn upper(s: Seq<char>) -> Seq<char> {
    s.map_values(|c: char| ascii_upper(c))
}

/// A call site's suffix is its id uppercased.
proof fn lemma_suffix_of(s: CallSite)
    ensures
        site_suffix(s) == upper(site_id(s)),
{
    reveal_strlit("verify");
    reveal_strlit("VERIFY");
    reveal_strlit("unstick");
    reveal_strlit("UNSTICK");
    reveal_strlit("diverge");
    reveal_strlit("DIVERGE");
    reveal_strlit("decide");
    reveal_strlit("DECIDE");
    reveal_strlit("elicit");
    reveal_strlit("ELICIT");
    reveal_strlit("grounded_verify");
    reveal_strlit("GROUNDED_VERIFY");
    reveal_strlit("check_translate");
    reveal_strlit("CHECK_TRANSLATE");
    reveal_strlit("research_scope");
    reveal_strlit("RESEARCH_SCOPE");
    reveal_strlit("research_extract");
    reveal_strlit("RESEARCH_EXTRACT");
    reveal_strlit("research_verify");
    reveal_strlit("RESEARCH_VERIFY");
    reveal_strlit("research_synthesize");
    reveal_strlit("RESEARCH_SYNTHESIZE");
    reveal_strlit("checkpoint_review");
    reveal_strlit("CHECKPOINT_REVIEW");
    match s {
        CallSite::Verify => {
            assert(site_suffix(s) =~= upper(site_id(s)));
        },
        CallSite::Unstick => {
            assert(site_suffix(s) =~= upper(site_id(s)));
        },
        CallSite::Diverge => {
            assert(site_suffix(s) =~= upper(site_id(s)));
        },
        CallSite::Decide => {
            assert(site_suffix(s) =~= upper(site_id(s)));
        },
        CallSite::Elicit => {
            assert(site_suffix(s) =~= upper(site_id(s)));
        },
        CallSite::GroundedVerify => {
            assert(site_suffix(s) =~= upper(site_id(s)));
        },
        CallSite::CheckTranslate => {
            assert(site_suffix(s) =~= upper(site_id(s)));
        },
        CallSite::ResearchScope => {
            assert(site_suffix(s) =~= upper(site_id(s)));
        },
        CallSite::ResearchExtract => {
            assert(site_suffix(s) =~= upper(site_id(s)));
        },
        CallSite::ResearchVerify => {
            assert(site_suffix(s) =~= upper(site_id(s)));
        },
        CallSite::ResearchSynthesize => {
            assert(site_suffix(s) =~= upper(site_id(s)));
        },
        CallSite::CheckpointReview => {
            assert(site_suffix(s) =~= upper(site_id(s)));
        },
    }
}

/// Call sites are named apart: each suffix is its site's id uppercased, and
/// no two sites share an id or a suffix.
pub proof fn lemma_sites_are_named_apart()
    ensures
        forall|s: CallSite| #[trigger] site_suffix(s) == upper(site_id(s)),
        forall|a: CallSite, b: CallSite| a != b ==> #[trigger] site_id(a) != #[trigger] site_id(b),
        forall|a: CallSite, b: CallSite| a != b ==> #[trigger] site_suffix(a) != #[trigger] site_suffix(b),
{
    assert forall|s: CallSite| #[trigger] site_suffix(s) == upper(site_id(s)) by {
        lemma_suffix_of(s);
    }
    reveal_strlit("verify");
    reveal_strlit("VERIFY");
    reveal_strlit("unstick");
    reveal_strlit("UNSTICK");
    reveal_strlit("diverge");
    reveal_strlit("DIVERGE");
    reveal_strlit("decide");
    reveal_strlit("DECIDE");
    reveal_strlit("elicit");
    reveal_strlit("ELICIT");
    reveal_strlit("grounded_verify");
    reveal_strlit("GROUNDED_VERIFY");
    reveal_strlit("check_translate");
    reveal_strlit("CHECK_TRANSLATE");
    reveal_strlit("research_scope");
    reveal_strlit("RESEARCH_SCOPE");
    reveal_strlit("research_extract");
    reveal_strlit("RESEARCH_EXTRACT");
    reveal_strlit("research_verify");
    reveal_strlit("RESEARCH_VERIFY");
    reveal_strlit("research_synthesize");
    reveal_strlit("RESEARCH_SYNTHESIZE");
    reveal_strlit("checkpoint_review");
    reveal_strlit("CHECKPOINT_REVIEW");
    assert forall|a: CallSite, b: CallSite| a != b implies #[trigger] site_id(a) != #[trigger] site_id(b) by {
        if site_id(a) == site_id(b) {
            assert(site_id(a).len() == site_id(b).len());
            assert(site_id(a)[0] == site_id(b)[0]);
            assert(site_id(a)[site_id(a).len() - 1] == site_id(b)[site_id(b).len() - 1]);
        }
    }
    assert forall|a: CallSite, b: CallSite| a != b implies #[trigger] site_suffix(a) != #[trigger] site_suffix(b) by {
        lemma_suffix_of(a);
        lemma_suffix_of(b);
        if site_suffix(a) == site_suffix(b) {
            assert(site_suffix(a).len() == site_suffix(b).len());
            assert(site_suffix(a)[0] == site_suffix(b)[0]);
            assert(site_suffix(a)[site_suffix(a).len() - 1] == site_suffix(b)[site_suffix(b).len() - 1]);
        }
    }
}

/// The tier a call site belongs to: only research extraction is bulk.
pub open spec fn site_tier(s: CallSite) -> Tier {
    match s {
        CallSite::ResearchExtract => Tier::Bulk,
        _ => Tier::Judgment,
    }
}

impl CallSite {
    /// Every call site, in declaration order.
    pub const ALL: [CallSite; 12] = [
        CallSite::Verify,
        CallSite::Unstick,
        CallSite::Diverge,
        CallSite::Decide,
        CallSite::Elicit,
        CallSite::GroundedVerify,
        CallSite::CheckTranslate,
        CallSite::ResearchScope,
        CallSite::ResearchExtract,
        CallSite::ResearchVerify,
        CallSite::ResearchSynthesize,
        CallSite::CheckpointReview,
    ];

    /// Position in [`CallSite::ALL`], so a caller can key a fixed-size array
    /// by call site.
    pub fn index(self) -> (r: usize)
        ensures
            r == site_index(self),
            r < SITE_COUNT,
            site_at(r as int) == self,
    {
        match self {
            CallSite::Verify => 0,
            CallSite::Unstick => 1,
            CallSite::Diverge => 2,
            CallSite::Decide => 3,
            CallSite::Elicit => 4,
            CallSite::GroundedVerify => 5,
            CallSite::CheckTranslate => 6,
            CallSite::ResearchScope => 7,
            CallSite::ResearchExtract => 8,
            CallSite::ResearchVerify => 9,
            CallSite::ResearchSynthesize => 10,
            CallSite::CheckpointReview => 11,
        }
    }

    /// The call site at position `k` of [`CallSite::ALL`].
    pub fn at(k: usize) -> (r: CallSite)
        requires
            k < SITE_COUNT,
        ensures
            r == site_at(k as int),
            site_index(r) == k,
    {
        if k == 0 {
            CallSite::Verify
        } else if k == 1 {
            CallSite::Unstick
        } else if k == 2 {
            CallSite::Diverge
        } else if k == 3 {
            CallSite::Decide
        } else if k == 4 {
            CallSite::Elicit
        } else if k == 5 {
            CallSite::GroundedVerify
        } else if k == 6 {
            CallSite::CheckTranslate
        } else if k == 7 {
            CallSite::ResearchScope
        } else if k == 8 {
            CallSite::ResearchExtract
        } else if k == 9 {
            CallSite::ResearchVerify
        } else if k == 10 {
            CallSite::ResearchSynthesize
        } else {
            CallSite::CheckpointReview
        }
    }

    /// Stable lowercase id, used in the startup routing table.
    pub fn id(self) -> (r: &'static str)
        ensures
            r@ == site_id(self),
    {
        match self {
            CallSite::Verify => "verify",
            CallSite::Unstick => "unstick",
            CallSite::Diverge => "diverge",
            CallSite::Decide => "decide",
            CallSite::Elicit => "elicit",
            CallSite::GroundedVerify => "grounded_verify",
            CallSite::CheckTranslate => "check_translate",
            CallSite::ResearchScope => "research_scope",
            CallSite::ResearchExtract => "research_extract",
            CallSite::ResearchVerify => "research_verify",
            CallSite::ResearchSynthesize => "research_synthesize",
            CallSite::CheckpointReview => "checkpoint_review",
        }
    }

    /// The environment-variable suffix overriding this call site alone.
    pub fn suffix(self) -> (r: &'static str)
        ensures
            r@ == site_suffix(self),
    {
        match self {
            CallSite::Verify => "VERIFY",
            CallSite::Unstick => "UNSTICK",
            CallSite::Diverge => "DIVERGE",
            CallSite::Decide => "DECIDE",
            CallSite::Elicit => "ELICIT",
            CallSite::GroundedVerify => "GROUNDED_VERIFY",
            CallSite::CheckTranslate => "CHECK_TRANSLATE",
            CallSite::ResearchScope => "RESEARCH_SCOPE",
            CallSite::ResearchExtract => "RESEARCH_EXTRACT",
            CallSite::ResearchVerify => "RESEARCH_VERIFY",
            CallSite::ResearchSynthesize => "RESEARCH_SYNTHESIZE",
            CallSite::CheckpointReview => "CHECKPOINT_REVIEW",
        }
    }

    /// Which tier this call site belongs to. Only research extraction is
    /// `Bulk`: it runs once per fetched source.
    pub fn tier(self) -> (r: Tier)
        ensures
            r == site_tier(self),
    {
        match self {
            CallSite::ResearchExtract => Tier::Bulk,
            _ => Tier::Judgment,
        }
    }
}

/// Positions and call sites correspond one to one.
pub proof fn lemma_index_is_position(k: int, s: CallSite)
    ensures
        0 <= k < 12 ==> site_index(site_at(k)) == k,
        0 <= site_index(s) < 12,
        site_at(site_index(s)) == s,
{
}

// ---------------------------------------------------------------------------
// Route sources
// ---------------------------------------------------------------------------
/// Which setting supplied a call site's model or effort.
#[derive(Debug, Clone, Copy, PartialEq, Eq, Structural)]
pub enum RouteSource {
    /// The call site's own setting.
    Site,
    /// The call site's tier setting.
    Tier,
    /// `ANTHROPIC_MODEL`.
    Default,
}

/// The variable name that supplied a model, for the startup table.
pub open spec fn source_variable(src: RouteSource, site: CallSite) -> Seq<char> {
    match src {
        RouteSource::Site => model_prefix() + site_suffix(site),
        RouteSource::Tier => model_prefix() + tier_suffix(site_tier(site)),
        RouteSource::Default => "ANTHROPIC_MODEL"@,
    }
}

impl RouteSource {
    /// The variable name that supplied the model, for the startup table.
    pub fn variable(self, site: CallSite) -> (r: String)
        ensures
            r@ == source_variable(self, site),
    {
        match self {
            RouteSource::Site => {
                let mut v = chars_of(PREFIX);
                append_str(&mut v, site.suffix());
                string_of(v.as_slice())
            },
            RouteSource::Tier => {
                let mut v = chars_of(PREFIX);
                append_str(&mut v, site.tier().suffix());
                string_of(v.as_slice())
            },
            RouteSource::Default => "ANTHROPIC_MODEL".to_string(),
        }
    }
}

// ---------------------------------------------------------------------------
// Namespace validation
// ---------------------------------------------------------------------------
/// A startup configuration error, naming the offending variable.
#[derive(Debug, Clone)]
pub enum ConfigError {
    /// A routing variable was unknown, empty or unparseable.
    Routing(String),
}

impl ConfigError {
    /// The message the operator sees.
    pub fn message(&self) -> (m: String)
        ensures
            self matches ConfigError::Routing(x) && m@ == x@,
    {
        match self {
            ConfigError::Routing(m) => m.clone(),
        }
    }
}

/// The character views of a list of (name, value) variables.
pub open spec fn var_views(vars: Seq<(String, String)>) -> Seq<(Seq<char>, Seq<char>)> {
    vars.map_values(|p: (String, String)| (p.0@, p.1@))
}

/// The suffix at position `k` of the known set: the tiers, then every call
/// site in [`CallSite::ALL`] order.
pub open spec fn known_suffix(k: int) -> Seq<char> {
    if k == 0 {
        tier_suffix(Tier::Bulk)
    } else if k == 1 {
        tier_suffix(Tier::Judgment)
    } else {
        site_suffix(site_at(k - 2))
    }
}

/// Number of known suffixes.
pub const KNOWN_COUNT: usize = 14;

/// `name` is a known variable of the namespace with prefix `prefix`.
pub open spec fn known_name(prefix: Seq<char>, name: Seq<char>) -> bool {
    exists|k: int| 0 <= k < 14 && name == prefix + #[trigger] known_suffix(k)
}

/// A model-namespace entry that fails validation: unknown suffix, or a value
/// that is empty after trimming.
pub open spec fn bad_model_var(e: (Seq<char>, Seq<char>)) -> bool {
    model_prefix().is_prefix_of(e.0) && (!known_name(model_prefix(), e.0) || is_blank_seq(e.1))
}

/// An effort-namespace entry that fails validation: unknown suffix, or a
/// value that is not an effort level.
pub open spec fn bad_effort_var(e: (Seq<char>, Seq<char>)) -> bool {
    effort_prefix().is_prefix_of(e.0) && (!known_name(effort_prefix(), e.0)
        || spec_parse_effort(e.1) is None)
}

/// Among the flagged entries, `i` has the smallest name, and is the earliest
/// of the flagged entries with that name: the entry a name-sorted stable scan
/// reports first.
pub open spec fn first_min_flagged(vs: Seq<(Seq<char>, Seq<char>)>, flags: Seq<bool>, i: int) -> bool {
    &&& 0 <= i < vs.len()
    &&& i < flags.len()
    &&& flags[i]
    &&& forall|j: int|
        0 <= j < vs.len() && j < flags.len() && #[trigger] flags[j] ==> !seq_lt(vs[j].0, vs[i].0)
            && (vs[j].0 == vs[i].0 ==> i <= j)
}

/// The model-namespace flags of each entry.
pub open spec fn model_flags(vs: Seq<(Seq<char>, Seq<char>)>) -> Seq<bool> {
    vs.map_values(|e: (Seq<char>, Seq<char>)| bad_model_var(e))
}

/// The effort-namespace flags of each entry.
pub open spec fn effort_flags(vs: Seq<(Seq<char>, Seq<char>)>) -> Seq<bool> {
    vs.map_values(|e: (Seq<char>, Seq<char>)| bad_effort_var(e))
}

/// Some entry is flagged.
pub open spec fn any_flagged(flags: Seq<bool>) -> bool {
    exists|i: int| 0 <= i < flags.len() && #[trigger] flags[i]
}

/// The message for an unknown model-namespace variable.
pub open spec fn unknown_model_message(name: Seq<char>) -> Seq<char> {
    "unknown variable `"@ + name
        + "` in the reserved `PARALLAX_MODEL_*` namespace — check the spelling against the call-site and tier names"@
}

/// The message for an empty model value.
pub open spec fn empty_model_message(name: Seq<char>) -> Seq<char> {
    "`"@ + name + "` is present but empty — set a model id or unset the variable"@
}

/// The message for an unknown effort-namespace variable.
pub open spec fn unknown_effort_message(name: Seq<char>) -> Seq<char> {
    "unknown variable `"@ + name
        + "` in the reserved `PARALLAX_EFFORT_*` namespace                  — check the spelling against the call-site and tier names"@
}

/// The message for an unparseable effort value.
pub open spec fn bad_level_message(name: Seq<char>, value: Seq<char>) -> Seq<char> {
    "`"@ + name + "` is `"@ + value + "` — expected one of low, medium, high, max, xhigh"@
}

/// The message reported for a flagged model entry.
pub open spec fn model_error_message(e: (Seq<char>, Seq<char>)) -> Seq<char> {
    if !known_name(model_prefix(), e.0) {
        unknown_model_message(e.0)
    } else {
        empty_model_message(e.0)
    }
}

/// The message reported for a flagged effort entry.
pub open spec fn effort_error_message(e: (Seq<char>, Seq<char>)) -> Seq<char> {
    if !known_name(effort_prefix(), e.0) {
        unknown_effort_message(e.0)
    } else {
        bad_level_message(e.0, e.1)
    }
}

/// The error is a routing error with message `m`.
pub open spec fn routing_error_is(e: ConfigError, m: Seq<char>) -> bool {
    e matches ConfigError::Routing(x) && x@ == m
}

/// The tier at position `k` of [`Tier::ALL`].
fn tier_at(k: usize) -> (t: Tier)
    requires
        k < 2,
    ensures
        tier_suffix(t) == known_suffix(k as int),
{
    if k == 0 {
        Tier::Bulk
    } else {
        Tier::Judgment
    }
}

/// Every known variable name of the namespace with `prefix`.
fn namespace_names(prefix: &str) -> (r: Vec<Vec<char>>)
    ensures
        r@.len() == KNOWN_COUNT,
        forall|k: int| 0 <= k < 14 ==> (#[trigger] r@[k])@ == prefix@ + known_suffix(k),
{
    let mut r: Vec<Vec<char>> = Vec::new();
    let mut k: usize = 0;
    while k < KNOWN_COUNT
        invariant
            0 <= k <= 14,
            r@.len() == k,
            forall|j: int| 0 <= j < k ==> (#[trigger] r@[j])@ == prefix@ + known_suffix(j),
        decreases 14 - k,
    {
        let mut name = chars_of(prefix);
        if k < 2 {
            append_str(&mut name, tier_at(k).suffix());
        } else {
            append_str(&mut name, CallSite::at(k - 2).suffix());
        }
        r.push(name);
        k = k + 1;
    }
    r
}

/// Whether `name` is one of `names`.
fn is_known(names: &Vec<Vec<char>>, prefix: Ghost<Seq<char>>, name: &[char]) -> (r: bool)
    requires
        names@.len() == 14,
        forall|k: int| 0 <= k < 14 ==> (#[trigger] names@[k])@ == prefix@ + known_suffix(k),
    ensures
        r == known_name(prefix@, name@),
{
    let mut k: usize = 0;
    while k < names.len()
        invariant
            0 <= k <= 14,
            names@.len() == 14,
            forall|j: int| 0 <= j < 14 ==> (#[trigger] names@[j])@ == prefix@ + known_suffix(j),
            forall|j: int| 0 <= j < k ==> name@ != prefix@ + #[trigger] known_suffix(j),
        decreases 14 - k,
    {
        if chars_eq(names[k].as_slice(), name) {
            assert(name@ == prefix@ + known_suffix(k as int));
            return true;
        }
        k = k + 1;
    }
    false
}

/// Pick the first-min flagged entry, if any is flagged.
fn pick_first_min(vars: &[(String, String)], flags: &Vec<bool>) -> (r: Option<usize>)
    requires
        flags@.len() == vars@.len(),
    ensures
        r is None ==> !any_flagged(flags@),
        r matches Some(i) ==> first_min_flagged(var_views(vars@), flags@, i as int),
{
    let ghost vs = var_views(vars@);
    let mut best: Option<usize> = None;
    let mut i: usize = 0;
    while i < vars.len()
        invariant
            0 <= i <= vars@.len(),
            flags@.len() == vars@.len(),
            vs == var_views(vars@),
            vs.len() == vars@.len(),
            best is None ==> forall|j: int| 0 <= j < i ==> !#[trigger] flags@[j],
            best matches Some(b) ==> b < i && flags@[b as int] && forall|j: int|
                0 <= j < i && #[trigger] flags@[j] ==> !seq_lt(vs[j].0, vs[b as int].0) && (vs[j].0
                    == vs[b as int].0 ==> b <= j),
        decreases vars@.len() - i,
    {
        if flags[i] {
            let name_i = chars_of(vars[i].0.as_str());
            assert(vs[i as int].0 == name_i@);
            match best {
                None => {
                    best = Some(i);
                    proof {
                        crate::text::lemma_seq_lt_strict(vs[i as int].0, vs[i as int].0, vs[i as int].0);
                    }
                },
                Some(b) => {
                    let name_b = chars_of(vars[b].0.as_str());
                    assert(vs[b as int].0 == name_b@);
                    if chars_lt(name_i.as_slice(), name_b.as_slice()) {
                        proof {
                            assert forall|j: int|
                                0 <= j < i + 1 && #[trigger] flags@[j] implies !seq_lt(
                                    vs[j].0,
                                    vs[i as int].0,
                                ) && (vs[j].0 == vs[i as int].0 ==> i <= j) by {
                                crate::text::lemma_seq_lt_strict(vs[j].0, vs[i as int].0, vs[b as int].0);
                                crate::text::lemma_seq_lt_strict(vs[i as int].0, vs[i as int].0, vs[i as int].0);
                            }
                        }
                        best = Some(i);
                    } else {
                        proof {
                            crate::text::lemma_seq_lt_total(vs[i as int].0, vs[b as int].0);
                        }
                    }
                },
            }
        }
        i = i + 1;
    }
    best
}

/// Flag every model-namespace entry that fails validation.
fn model_flags_of(vars: &[(String, String)]) -> (r: Vec<bool>)
    ensures
        r@ == model_flags(var_views(vars@)),
{
    let names = namespace_names(PREFIX);
    let prefix = chars_of(PREFIX);
    let mut r: Vec<bool> = Vec::new();
    let mut i: usize = 0;
    while i < vars.len()
        invariant
            0 <= i <= vars@.len(),
            names@.len() == 14,
            prefix@ == model_prefix(),
            forall|k: int| 0 <= k < 14 ==> (#[trigger] names@[k])@ == PREFIX@ + known_suffix(k),
            r@.len() == i,
            forall|j: int| 0 <= j < i ==> #[trigger] r@[j] == bad_model_var(var_views(vars@)[j]),
        decreases vars@.len() - i,
    {
        let name = chars_of(vars[i].0.as_str());
        let value = chars_of(vars[i].1.as_str());
        let in_ns = starts_with_chars(name.as_slice(), prefix.as_slice());
        let bad = in_ns && (!is_known(&names, Ghost(model_prefix()), name.as_slice()) || is_blank(
            value.as_slice(),
        ));
        r.push(bad);
        i = i + 1;
    }
    assert(r@ =~= model_flags(var_views(vars@)));
    r
}

/// Flag every effort-namespace entry that fails validation.
fn effort_flags_of(vars: &[(String, String)]) -> (r: Vec<bool>)
    ensures
        r@ == effort_flags(var_views(vars@)),
{
    let names = namespace_names(EFFORT_PREFIX);
    let prefix = chars_of(EFFORT_PREFIX);
    let mut r: Vec<bool> = Vec::new();
    let mut i: usize = 0;
    while i < vars.len()
        invariant
            0 <= i <= vars@.len(),
            names@.len() == 14,
            prefix@ == effort_prefix(),
            forall|k: int| 0 <= k < 14 ==> (#[trigger] names@[k])@ == EFFORT_PREFIX@ + known_suffix(k),
            r@.len() == i,
            forall|j: int| 0 <= j < i ==> #[trigger] r@[j] == bad_effort_var(var_views(vars@)[j]),
        decreases vars@.len() - i,
    {
        let name = chars_of(vars[i].0.as_str());
        let in_ns = starts_with_chars(name.as_slice(), prefix.as_slice());
        let bad = in_ns && (!is_known(&names, Ghost(effort_prefix()), name.as_slice())
            || Effort::parse(vars[i].1.as_str()).is_none());
        r.push(bad);
        i = i + 1;
    }
    assert(r@ =~= effort_flags(var_views(vars@)));
    r
}

/// Whether `prefix` is a prefix of `v`.
fn starts_with_chars(v: &[char], prefix: &[char]) -> (r: bool)
    ensures
        r == prefix@.is_prefix_of(v@),
{
    let r = crate::text::matches_at(v, 0, prefix);
    assert(prefix@.is_prefix_of(v@) == crate::text::occurs_at(v@, prefix@, 0));
    r
}

/// Build the message for a flagged model entry.
fn model_error(name: &str, known: bool) -> (r: ConfigError)
    ensures
        known ==> routing_error_is(r, empty_model_message(name@)),
        !known ==> routing_error_is(r, unknown_model_message(name@)),
{
    let mut m: Vec<char> = Vec::new();
    if !known {
        append_str(&mut m, "unknown variable `");
        append_str(&mut m, name);
        append_str(
            &mut m,
            "` in the reserved `PARALLAX_MODEL_*` namespace — check the spelling against the call-site and tier names",
        );
    } else {
        append_str(&mut m, "`");
        append_str(&mut m, name);
        append_str(&mut m, "` is present but empty — set a model id or unset the variable");
    }
    ConfigError::Routing(string_of(m.as_slice()))
}

/// Build the message for a flagged effort entry.
fn effort_error(name: &str, value: &str, known: bool) -> (r: ConfigError)
    ensures
        known ==> routing_error_is(r, bad_level_message(name@, value@)),
        !known ==> routing_error_is(r, unknown_effort_message(name@)),
{
    let mut m: Vec<char> = Vec::new();
    if !known {
        append_str(&mut m, "unknown variable `");
        append_str(&mut m, name);
        append_str(
            &mut m,
            "` in the reserved `PARALLAX_EFFORT_*` namespace                  — check the spelling against the call-site and tier names",
        );
    } else {
        append_str(&mut m, "`");
        append_str(&mut m, name);
        append_str(&mut m, "` is `");
        append_str(&mut m, value);
        append_str(&mut m, "` — expected one of low, medium, high, max, xhigh");
    }
    ConfigError::Routing(string_of(m.as_slice()))
}

/// Reject an unrecognised suffix or an unparseable level in the effort
/// namespace. Entries outside the namespace are ignored. With two bad
/// entries the one reported is the one with the smallest name.
pub fn validate_effort_namespace(efforts: &[(String, String)]) -> (r: Result<(), ConfigError>)
    ensures
        r is Ok <==> !any_flagged(effort_flags(var_views(efforts@))),
        r matches Err(e) ==> exists|i: int|
            first_min_flagged(var_views(efforts@), effort_flags(var_views(efforts@)), i)
                && routing_error_is(e, effort_error_message(#[trigger] var_views(efforts@)[i])),
{
    let flags = effort_flags_of(efforts);
    match pick_first_min(efforts, &flags) {
        None => Ok(()),
        Some(i) => {
            let names = namespace_names(EFFORT_PREFIX);
            let name = chars_of(efforts[i].0.as_str());
            let known = is_known(&names, Ghost(effort_prefix()), name.as_slice());
            let e = effort_error(efforts[i].0.as_str(), efforts[i].1.as_str(), known);
            assert(var_views(efforts@)[i as int] == (efforts@[i as int].0@, efforts@[i as int].1@));
            Err(e)
        },
    }
}

/// Reject an unrecognised suffix or an empty value in the model namespace.
fn validate_model_namespace(vars: &[(String, String)]) -> (r: Result<(), ConfigError>)
    ensures
        r is Ok <==> !any_flagged(model_flags(var_views(vars@))),
        r matches Err(e) ==> exists|i: int|
            first_min_flagged(var_views(vars@), model_flags(var_views(vars@)), i) && routing_error_is(
                e,
                model_error_message(#[trigger] var_views(vars@)[i]),
            ),
{
    let flags = model_flags_of(vars);
    match pick_first_min(vars, &flags) {
        None => Ok(()),
        Some(i) => {
            let names = namespace_names(PREFIX);
            let name = chars_of(vars[i].0.as_str());
            let known = is_known(&names, Ghost(model_prefix()), name.as_slice());
            let e = model_error(vars[i].0.as_str(), known);
            assert(var_views(vars@)[i as int] == (vars@[i as int].0@, vars@[i as int].1@));
            Err(e)
        },
    }
}


// ---------------------------------------------------------------------------
// Resolution
// ---------------------------------------------------------------------------
/// The value of the first entry (in input order) named `key`.
pub open spec fn spec_lookup(vs: Seq<(Seq<char>, Seq<char>)>, key: Seq<char>) -> Option<Seq<char>>
    decreases vs.len(),
{
    if vs.len() == 0 {
        None
    } else if vs[0].0 == key {
        Some(vs[0].1)
    } else {
        spec_lookup(vs.drop_first(), key)
    }
}

/// The effort named by the first entry called `key`, if that entry parses.
pub open spec fn spec_effort_lookup(vs: Seq<(Seq<char>, Seq<char>)>, key: Seq<char>) -> Option<Effort> {
    match spec_lookup(vs, key) {
        Some(v) => spec_parse_effort(v),
        None => None,
    }
}

/// A call site's model and the setting that supplied it: its own variable,
/// else its tier's, else the default; values are trimmed.
pub open spec fn spec_route_model(vs: Seq<(Seq<char>, Seq<char>)>, default_model: Seq<char>, s: CallSite) -> (Seq<char>, RouteSource) {
    match spec_lookup(vs, model_prefix() + site_suffix(s)) {
        Some(v) => (trim_seq(v), RouteSource::Site),
        None => match spec_lookup(vs, model_prefix() + tier_suffix(site_tier(s))) {
            Some(v) => (trim_seq(v), RouteSource::Tier),
            None => (default_model, RouteSource::Default),
        },
    }
}

/// A call site's effort and the setting that supplied it: its own variable,
/// else its tier's, else none at all.
pub open spec fn spec_route_effort(vs: Seq<(Seq<char>, Seq<char>)>, s: CallSite) -> (Option<Effort>, Option<RouteSource>) {
    match spec_effort_lookup(vs, effort_prefix() + site_suffix(s)) {
        Some(e) => (Some(e), Some(RouteSource::Site)),
        None => match spec_effort_lookup(vs, effort_prefix() + tier_suffix(site_tier(s))) {
            Some(e) => (Some(e), Some(RouteSource::Tier)),
            None => (None, None),
        },
    }
}

/// One call site's resolved model and where it came from.
#[derive(Debug, Clone)]
pub struct ResolvedRoute {
    /// The call site.
    pub site: CallSite,
    /// The model id it will use.
    pub model: String,
    /// Which setting supplied that model.
    pub source: RouteSource,
    /// The reasoning effort this call site will request, if one was set.
    pub effort: Option<Effort>,
    /// Which setting supplied the effort, when one was.
    pub effort_source: Option<RouteSource>,
}

/// `r` is the route the variables `vs` and the default give call site `s`.
pub open spec fn route_resolved(r: ResolvedRoute, vs: Seq<(Seq<char>, Seq<char>)>, default_model: Seq<char>, s: CallSite) -> bool {
    &&& r.site == s
    &&& (r.model@, r.source) == spec_route_model(vs, default_model, s)
    &&& (r.effort, r.effort_source) == spec_route_effort(vs, s)
}

proof fn lemma_lookup_first(vs: Seq<(Seq<char>, Seq<char>)>, key: Seq<char>, i: int)
    requires
        0 <= i < vs.len(),
        vs[i].0 == key,
        forall|j: int| 0 <= j < i ==> vs[j].0 != key,
    ensures
        spec_lookup(vs, key) == Some(vs[i].1),
    decreases i,
{
    if i > 0 {
        lemma_lookup_first(vs.drop_first(), key, i - 1);
    }
}

proof fn lemma_lookup_none(vs: Seq<(Seq<char>, Seq<char>)>, key: Seq<char>)
    requires
        forall|j: int| 0 <= j < vs.len() ==> vs[j].0 != key,
    ensures
        spec_lookup(vs, key) is None,
    decreases vs.len(),
{
    if vs.len() > 0 {
        lemma_lookup_none(vs.drop_first(), key);
    }
}

/// The index of the first entry named `key`.
fn lookup(vars: &[(String, String)], key: &[char]) -> (r: Option<usize>)
    ensures
        r matches Some(i) ==> i < vars@.len() && spec_lookup(var_views(vars@), key@) == Some(
            var_views(vars@)[i as int].1,
        ),
        r is None ==> spec_lookup(var_views(vars@), key@) is None,
{
    let ghost vs = var_views(vars@);
    let mut i: usize = 0;
    while i < vars.len()
        invariant
            0 <= i <= vars@.len(),
            vs == var_views(vars@),
            forall|j: int| 0 <= j < i ==> vs[j].0 != key@,
        decreases vars@.len() - i,
    {
        let name = chars_of(vars[i].0.as_str());
        if chars_eq(name.as_slice(), key) {
            proof {
                lemma_lookup_first(vs, key@, i as int);
            }
            return Some(i);
        }
        i = i + 1;
    }
    proof {
        lemma_lookup_none(vs, key@);
    }
    None
}

/// The effort named by the first entry called `key`, if it parses.
fn effort_lookup(vars: &[(String, String)], prefix: &str, suffix: &str) -> (r: Option<Effort>)
    ensures
        r == spec_effort_lookup(var_views(vars@), prefix@ + suffix@),
{
    let mut key = chars_of(prefix);
    append_str(&mut key, suffix);
    match lookup(vars, key.as_slice()) {
        Some(i) => Effort::parse(vars[i].1.as_str()),
        None => None,
    }
}

/// The trimmed value of the first entry called `key`.
fn model_lookup(vars: &[(String, String)], prefix: &str, suffix: &str) -> (r: Option<String>)
    ensures
        r matches Some(m) ==> spec_lookup(var_views(vars@), prefix@ + suffix@) matches Some(v) && m@
            == trim_seq(v),
        r is None ==> spec_lookup(var_views(vars@), prefix@ + suffix@) is None,
{
    let mut key = chars_of(prefix);
    append_str(&mut key, suffix);
    match lookup(vars, key.as_slice()) {
        Some(i) => Some(trim_str(vars[i].1.as_str())),
        None => None,
    }
}

/// Resolve one call site.
fn resolve_site(vars: &[(String, String)], default_model: &str, site: CallSite) -> (r: ResolvedRoute)
    ensures
        route_resolved(r, var_views(vars@), default_model@, site),
{
    proof {
        assert(PREFIX@ == model_prefix());
        assert(EFFORT_PREFIX@ == effort_prefix());
    }
    let (model, source) = match model_lookup(vars, PREFIX, site.suffix()) {
        Some(m) => (m, RouteSource::Site),
        None => match model_lookup(vars, PREFIX, site.tier().suffix()) {
            Some(m) => (m, RouteSource::Tier),
            None => (default_model.to_string(), RouteSource::Default),
        },
    };
    let (effort, effort_source) = match effort_lookup(vars, EFFORT_PREFIX, site.suffix()) {
        Some(e) => (Some(e), Some(RouteSource::Site)),
        None => match effort_lookup(vars, EFFORT_PREFIX, site.tier().suffix()) {
            Some(e) => (Some(e), Some(RouteSource::Tier)),
            None => (None, None),
        },
    };
    ResolvedRoute { site, model, source, effort, effort_source }
}

/// Every call site's resolved route, complete by construction: all twelve
/// always resolve, in [`CallSite::ALL`] order.
#[derive(Debug)]
pub struct RoutingTable {
    routes: Vec<ResolvedRoute>,
}

impl RoutingTable {
    /// The table holds one route per call site, in [`CallSite::ALL`] order.
    #[verifier::type_invariant]
    pub closed spec fn wf(&self) -> bool {
        &&& self.routes@.len() == 12
        &&& forall|k: int| 0 <= k < 12 ==> (#[trigger] self.routes@[k]).site == site_at(k)
    }

    /// The routes, in [`CallSite::ALL`] order.
    pub closed spec fn spec_routes(&self) -> Seq<ResolvedRoute> {
        self.routes@
    }

    /// Resolve from a variable set, as the process environment supplies it.
    /// Pure: no process environment, no I/O.
    ///
    /// A model-namespace error is reported before an effort-namespace one;
    /// within a namespace the offending entry with the smallest name is
    /// reported.
    pub fn resolve(vars: Vec<(String, String)>, default_model: &str) -> (r: Result<RoutingTable, ConfigError>)
        ensures
            any_flagged(model_flags(var_views(vars@))) ==> (r matches Err(e) && exists|i: int|
                first_min_flagged(var_views(vars@), model_flags(var_views(vars@)), i)
                    && routing_error_is(e, model_error_message(#[trigger] var_views(vars@)[i]))),
            !any_flagged(model_flags(var_views(vars@))) && any_flagged(
                effort_flags(var_views(vars@)),
            ) ==> (r matches Err(e) && exists|i: int|
                first_min_flagged(var_views(vars@), effort_flags(var_views(vars@)), i)
                    && routing_error_is(e, effort_error_message(#[trigger] var_views(vars@)[i]))),
            !any_flagged(model_flags(var_views(vars@))) && !any_flagged(
                effort_flags(var_views(vars@)),
            ) ==> (r matches Ok(t) && forall|k: int|
                0 <= k < 12 ==> route_resolved(
                    #[trigger] t.spec_routes()[k],
                    var_views(vars@),
                    default_model@,
                    site_at(k),
                )),
    {
        match validate_model_namespace(vars.as_slice()) {
            Ok(()) => {},
            Err(e) => return Err(e),
        }
        match validate_effort_namespace(vars.as_slice()) {
            Ok(()) => {},
            Err(e) => return Err(e),
        }
        let mut routes: Vec<ResolvedRoute> = Vec::new();
        let mut k: usize = 0;
        while k < SITE_COUNT
            invariant
                0 <= k <= 12,
                routes@.len() == k,
                forall|j: int|
                    0 <= j < k ==> route_resolved(
                        #[trigger] routes@[j],
                        var_views(vars@),
                        default_model@,
                        site_at(j),
                    ),
            decreases 12 - k,
        {
            routes.push(resolve_site(vars.as_slice(), default_model, CallSite::at(k)));
            k = k + 1;
        }
        Ok(RoutingTable { routes })
    }

    /// A table with every call site on one model and no effort: the unrouted
    /// shape, equivalent to resolving an empty variable set.
    pub fn single(model: &str) -> (r: RoutingTable)
        ensures
            forall|k: int|
                0 <= k < 12 ==> route_resolved(
                    #[trigger] r.spec_routes()[k],
                    Seq::empty(),
                    model@,
                    site_at(k),
                ),
    {
        let mut routes: Vec<ResolvedRoute> = Vec::new();
        let mut k: usize = 0;
        while k < SITE_COUNT
            invariant
                0 <= k <= 12,
                routes@.len() == k,
                forall|j: int|
                    0 <= j < k ==> route_resolved(#[trigger] routes@[j], Seq::empty(), model@, site_at(j)),
            decreases 12 - k,
        {
            routes.push(
                ResolvedRoute {
                    site: CallSite::at(k),
                    model: model.to_string(),
                    source: RouteSource::Default,
                    effort: None,
                    effort_source: None,
                },
            );
            k = k + 1;
        }
        RoutingTable { routes }
    }

    /// The reasoning effort a call site requests, if any.
    pub fn effort_for(&self, site: CallSite) -> (r: Option<Effort>)
        ensures
            r == self.spec_routes()[site_index(site)].effort,
    {
        proof {
            use_type_invariant(self);
        }
        self.routes[site.index()].effort
    }

    /// The model a call site resolved to.
    pub fn model_for(&self, site: CallSite) -> (r: &str)
        ensures
            r@ == self.spec_routes()[site_index(site)].model@,
    {
        proof {
            use_type_invariant(self);
        }
        self.routes[site.index()].model.as_str()
    }

    /// Every resolved route, in [`CallSite::ALL`] order.
    pub fn routes(&self) -> (r: &[ResolvedRoute])
        ensures
            r@ == self.spec_routes(),
            r@.len() == 12,
            forall|k: int| 0 <= k < 12 ==> (#[trigger] r@[k]).site == site_at(k),
    {
        proof {
            use_type_invariant(self);
        }
        self.routes.as_slice()
    }

    /// Every distinct `(model, effort)` pair in use, sorted (model first,
    /// then no effort before any effort, cheapest first): one client is built
    /// per entry.
    pub fn distinct_clients(&self) -> (r: Vec<(String, Option<Effort>)>)
        ensures
            strictly_sorted_clients(client_views(r@)),
            forall|p: (Seq<char>, Option<Effort>)|
                client_views(r@).contains(p) <==> exists|k: int|
                    0 <= k < 12 && p == (
                        (#[trigger] self.spec_routes()[k]).model@,
                        self.spec_routes()[k].effort,
                    ),
    {
        proof {
            use_type_invariant(self);
        }
        let mut out: Vec<(String, Option<Effort>)> = Vec::new();
        let mut k: usize = 0;
        while k < self.routes.len()
            invariant
                0 <= k <= 12,
                self.routes@.len() == 12,
                strictly_sorted_clients(client_views(out@)),
                forall|p: (Seq<char>, Option<Effort>)|
                    client_views(out@).contains(p) <==> exists|j: int|
                        0 <= j < k && p == ((#[trigger] self.routes@[j]).model@, self.routes@[j].effort),
            decreases 12 - k,
        {
            let ghost before = client_views(out@);
            insert_client(&mut out, &self.routes[k].model, self.routes[k].effort);
            proof {
                let p = (self.routes@[k as int].model@, self.routes@[k as int].effort);
                assert forall|q: (Seq<char>, Option<Effort>)|
                    client_views(out@).contains(q) implies exists|j: int|
                        0 <= j < k + 1 && q == ((#[trigger] self.routes@[j]).model@, self.routes@[j].effort) by {
                    if q != p {
                        assert(before.contains(q));
                    }
                }
                assert forall|q: (Seq<char>, Option<Effort>)|
                    (exists|j: int|
                        0 <= j < k + 1 && q == ((#[trigger] self.routes@[j]).model@, self.routes@[j].effort))
                        implies client_views(out@).contains(q) by {
                    let j = choose|j: int|
                        0 <= j < k + 1 && q == ((#[trigger] self.routes@[j]).model@, self.routes@[j].effort);
                    if j < k {
                        assert(before.contains(q));
                    }
                }
            }
            k = k + 1;
        }
        out
    }

    /// The distinct models in use, sorted: one client is built per entry.
    pub fn distinct_models(&self) -> (r: Vec<String>)
        ensures
            strictly_sorted_strings(string_views(r@)),
            forall|m: Seq<char>|
                string_views(r@).contains(m) <==> exists|k: int|
                    0 <= k < 12 && m == (#[trigger] self.spec_routes()[k]).model@,
    {
        proof {
            use_type_invariant(self);
        }
        let mut out: Vec<String> = Vec::new();
        let mut k: usize = 0;
        while k < self.routes.len()
            invariant
                0 <= k <= 12,
                self.routes@.len() == 12,
                strictly_sorted_strings(string_views(out@)),
                forall|m: Seq<char>|
                    string_views(out@).contains(m) <==> exists|j: int|
                        0 <= j < k && m == (#[trigger] self.routes@[j]).model@,
            decreases 12 - k,
        {
            let ghost before = string_views(out@);
            insert_string(&mut out, &self.routes[k].model);
            proof {
                let p = self.routes@[k as int].model@;
                assert forall|q: Seq<char>|
                    string_views(out@).contains(q) implies exists|j: int|
                        0 <= j < k + 1 && q == (#[trigger] self.routes@[j]).model@ by {
                    if q != p {
                        assert(before.contains(q));
                    }
                }
                assert forall|q: Seq<char>|
                    (exists|j: int| 0 <= j < k + 1 && q == (#[trigger] self.routes@[j]).model@)
                        implies string_views(out@).contains(q) by {
                    let j = choose|j: int| 0 <= j < k + 1 && q == (#[trigger] self.routes@[j]).model@;
                    if j < k {
                        assert(before.contains(q));
                    }
                }
            }
            k = k + 1;
        }
        out
    }

    /// The startup report, one row per call site in [`CallSite::ALL`] order:
    /// `(call site, tier, resolved model, supplying setting)`.
    pub fn report(&self) -> (r: Vec<(&'static str, &'static str, String, String)>)
        ensures
            r@.len() == 12,
            forall|k: int|
                0 <= k < 12 ==> {
                    let row = #[trigger] r@[k];
                    let route = self.spec_routes()[k];
                    &&& row.0@ == site_id(site_at(k))
                    &&& row.1@ == tier_id(site_tier(site_at(k)))
                    &&& row.2@ == route.model@
                    &&& row.3@ == source_variable(route.source, site_at(k))
                },
    {
        proof {
            use_type_invariant(self);
        }
        let mut r: Vec<(&'static str, &'static str, String, String)> = Vec::new();
        let mut k: usize = 0;
        while k < self.routes.len()
            invariant
                0 <= k <= 12,
                self.routes@.len() == 12,
                forall|j: int| 0 <= j < 12 ==> (#[trigger] self.routes@[j]).site == site_at(j),
                r@.len() == k,
                forall|j: int|
                    0 <= j < k ==> {
                        let row = #[trigger] r@[j];
                        let route = self.routes@[j];
                        &&& row.0@ == site_id(site_at(j))
                        &&& row.1@ == tier_id(site_tier(site_at(j)))
                        &&& row.2@ == route.model@
                        &&& row.3@ == source_variable(route.source, site_at(j))
                    },
            decreases 12 - k,
        {
            let route = &self.routes[k];
            r.push((route.site.id(), route.site.tier().id(), route.model.clone(), route.source.variable(route.site)));
            k = k + 1;
        }
        r
    }
}


// ---------------------------------------------------------------------------
// Sorted distinct collections
// ---------------------------------------------------------------------------
/// The rank of an optional effort: none first, then cheapest first.
pub open spec fn opt_effort_rank(e: Option<Effort>) -> int {
    match e {
        None => -1,
        Some(x) => effort_rank(x),
    }
}

/// The order on `(model, effort)` pairs: by model, then by effort rank.
pub open spec fn client_lt(a: (Seq<char>, Option<Effort>), b: (Seq<char>, Option<Effort>)) -> bool {
    seq_lt(a.0, b.0) || (a.0 == b.0 && opt_effort_rank(a.1) < opt_effort_rank(b.1))
}

/// The views of `(model, effort)` pairs.
pub open spec fn client_views(v: Seq<(String, Option<Effort>)>) -> Seq<(Seq<char>, Option<Effort>)> {
    v.map_values(|p: (String, Option<Effort>)| (p.0@, p.1))
}

/// Strictly increasing, so sorted and free of duplicates.
pub open spec fn strictly_sorted_clients(s: Seq<(Seq<char>, Option<Effort>)>) -> bool {
    forall|i: int, j: int| 0 <= i < j < s.len() ==> client_lt(#[trigger] s[i], #[trigger] s[j])
}

/// The views of strings.
pub open spec fn string_views(v: Seq<String>) -> Seq<Seq<char>> {
    v.map_values(|s: String| s@)
}

/// Strictly increasing, so sorted and free of duplicates.
pub open spec fn strictly_sorted_strings(s: Seq<Seq<char>>) -> bool {
    forall|i: int, j: int| 0 <= i < j < s.len() ==> seq_lt(#[trigger] s[i], #[trigger] s[j])
}

proof fn lemma_client_lt(a: (Seq<char>, Option<Effort>), b: (Seq<char>, Option<Effort>), c: (Seq<char>, Option<Effort>))
    ensures
        !client_lt(a, a),
        client_lt(a, b) && client_lt(b, c) ==> client_lt(a, c),
        a != b ==> client_lt(a, b) || client_lt(b, a),
{
    crate::text::lemma_seq_lt_strict(a.0, b.0, c.0);
    crate::text::lemma_seq_lt_strict(b.0, a.0, c.0);
    crate::text::lemma_seq_lt_strict(a.0, c.0, b.0);
    crate::text::lemma_seq_lt_total(a.0, b.0);
    if a.0 == b.0 && opt_effort_rank(a.1) == opt_effort_rank(b.1) {
        assert(a.1 == b.1);
    }
}

fn effort_rank_of(e: Option<Effort>) -> (r: i8)
    ensures
        r == opt_effort_rank(e),
{
    match e {
        None => -1,
        Some(Effort::Low) => 0,
        Some(Effort::Medium) => 1,
        Some(Effort::High) => 2,
        Some(Effort::Max) => 3,
        Some(Effort::XHigh) => 4,
    }
}

/// `(a.0, a.1) < (b_model, b_effort)`.
fn client_less(a_model: &String, a_effort: Option<Effort>, b_model: &String, b_effort: Option<Effort>) -> (r: bool)
    ensures
        r == client_lt((a_model@, a_effort), (b_model@, b_effort)),
{
    let am = chars_of(a_model.as_str());
    let bm = chars_of(b_model.as_str());
    if chars_lt(am.as_slice(), bm.as_slice()) {
        true
    } else if chars_eq(am.as_slice(), bm.as_slice()) {
        effort_rank_of(a_effort) < effort_rank_of(b_effort)
    } else {
        false
    }
}

/// Insert a pair into a strictly sorted vector unless already present.
fn insert_client(v: &mut Vec<(String, Option<Effort>)>, model: &String, effort: Option<Effort>)
    requires
        strictly_sorted_clients(client_views(old(v)@)),
    ensures
        strictly_sorted_clients(client_views(final(v)@)),
        forall|q: (Seq<char>, Option<Effort>)|
            client_views(final(v)@).contains(q) <==> (client_views(old(v)@).contains(q) || q == (
                model@,
                effort,
            )),
{
    let ghost p = (model@, effort);
    let ghost s0 = client_views(v@);
    let mut i: usize = 0;
    loop
        invariant
            0 <= i <= v@.len(),
            s0 == client_views(v@),
            p == (model@, effort),
            strictly_sorted_clients(s0),
            forall|j: int| 0 <= j < i ==> client_lt(#[trigger] s0[j], p),
        ensures
            0 <= i <= v@.len(),
            i < v@.len() ==> !client_lt(s0[i as int], p),
        decreases v@.len() - i,
    {
        if i >= v.len() {
            break;
        }
        let lt = client_less(&v[i].0, v[i].1, model, effort);
        assert(s0[i as int] == (v@[i as int].0@, v@[i as int].1));
        if !lt {
            break;
        }
        i = i + 1;
    }
    if i < v.len() {
        let present = client_less(model, effort, &v[i].0, v[i].1);
        if !present {
            // Neither is less than the other, so they are equal.
            proof {
                lemma_client_lt(s0[i as int], p, p);
                assert(s0[i as int] == p);
                assert forall|q: (Seq<char>, Option<Effort>)|
                    client_views(v@).contains(q) <==> (s0.contains(q) || q == p) by {
                    if q == p {
                        assert(s0[i as int] == q);
                    }
                }
            }
            return;
        }
    }
    let ghost old_s = s0;
    v.insert(i, (model.clone(), effort));
    proof {
        let s1 = client_views(v@);
        assert(s1 =~= old_s.insert(i as int, p));
        assert forall|a: int, b: int| 0 <= a < b < s1.len() implies client_lt(#[trigger] s1[a], #[trigger] s1[b]) by {
            if b < i {
            } else if a < i && b == i {
            } else if a < i && b > i {
                lemma_client_lt(s1[a], p, s1[b]);
                assert(s1[b] == old_s[b - 1]);
                if i < old_s.len() {
                    assert(client_lt(p, old_s[i as int]));
                    lemma_client_lt(p, old_s[i as int], old_s[b - 1]);
                    if b - 1 > i {
                        assert(client_lt(old_s[i as int], old_s[b - 1]));
                    }
                }
            } else if a == i {
                assert(s1[b] == old_s[b - 1]);
                assert(client_lt(p, old_s[i as int]));
                if b - 1 > i {
                    lemma_client_lt(p, old_s[i as int], old_s[b - 1]);
                    assert(client_lt(old_s[i as int], old_s[b - 1]));
                }
            } else {
                assert(s1[a] == old_s[a - 1]);
                assert(s1[b] == old_s[b - 1]);
            }
        }
        assert forall|q: (Seq<char>, Option<Effort>)|
            s1.contains(q) <==> (old_s.contains(q) || q == p) by {
            if s1.contains(q) {
                let j = choose|j: int| 0 <= j < s1.len() && s1[j] == q;
                if j < i {
                    assert(old_s[j] == q);
                } else if j > i {
                    assert(old_s[j - 1] == q);
                }
            }
            if old_s.contains(q) {
                let j = choose|j: int| 0 <= j < old_s.len() && old_s[j] == q;
                if j < i {
                    assert(s1[j] == q);
                } else {
                    assert(s1[j + 1] == q);
                }
            }
            if q == p {
                assert(s1[i as int] == q);
            }
        }
    }
}

/// Insert a string into a strictly sorted vector unless already present.
fn insert_string(v: &mut Vec<String>, model: &String)
    requires
        strictly_sorted_strings(string_views(old(v)@)),
    ensures
        strictly_sorted_strings(string_views(final(v)@)),
        forall|q: Seq<char>|
            string_views(final(v)@).contains(q) <==> (string_views(old(v)@).contains(q) || q
                == model@),
{
    let ghost p = model@;
    let ghost s0 = string_views(v@);
    let m = chars_of(model.as_str());
    let mut i: usize = 0;
    while i < v.len() && chars_lt(chars_of(v[i].as_str()).as_slice(), m.as_slice())
        invariant
            0 <= i <= v@.len(),
            s0 == string_views(v@),
            m@ == p,
            p == model@,
            strictly_sorted_strings(s0),
            forall|j: int| 0 <= j < i ==> seq_lt(#[trigger] s0[j], p),
        decreases v@.len() - i,
    {
        i = i + 1;
    }
    if i < v.len() {
        let present = !chars_lt(m.as_slice(), chars_of(v[i].as_str()).as_slice());
        if present {
            proof {
                crate::text::lemma_seq_lt_total(s0[i as int], p);
                assert(s0[i as int] == p);
                assert forall|q: Seq<char>| string_views(v@).contains(q) <==> (s0.contains(q) || q == p) by {
                    if q == p {
                        assert(s0[i as int] == q);
                    }
                }
            }
            return;
        }
    }
    let ghost old_s = s0;
    v.insert(i, model.clone());
    proof {
        let s1 = string_views(v@);
        assert(s1 =~= old_s.insert(i as int, p));
        assert forall|a: int, b: int| 0 <= a < b < s1.len() implies seq_lt(#[trigger] s1[a], #[trigger] s1[b]) by {
            if b < i {
            } else if a < i && b == i {
            } else if a < i && b > i {
                crate::text::lemma_seq_lt_strict(s1[a], p, s1[b]);
                assert(s1[b] == old_s[b - 1]);
                if i < old_s.len() {
                    assert(seq_lt(p, old_s[i as int]));
                    crate::text::lemma_seq_lt_strict(p, old_s[i as int], old_s[b - 1]);
                    if b - 1 > i {
                        assert(seq_lt(old_s[i as int], old_s[b - 1]));
                    }
                }
            } else if a == i {
                assert(s1[b] == old_s[b - 1]);
                assert(seq_lt(p, old_s[i as int]));
                if b - 1 > i {
                    crate::text::lemma_seq_lt_strict(p, old_s[i as int], old_s[b - 1]);
                    assert(seq_lt(old_s[i as int], old_s[b - 1]));
                }
            } else {
                assert(s1[a] == old_s[a - 1]);
                assert(s1[b] == old_s[b - 1]);
            }
        }
        assert forall|q: Seq<char>| s1.contains(q) <==> (old_s.contains(q) || q == p) by {
            if s1.contains(q) {
                let j = choose|j: int| 0 <= j < s1.len() && s1[j] == q;
                if j < i {
                    assert(old_s[j] == q);
                } else if j > i {
                    assert(old_s[j - 1] == q);
                }
            }
            if old_s.contains(q) {
                let j = choose|j: int| 0 <= j < old_s.len() && old_s[j] == q;
                if j < i {
                    assert(s1[j] == q);
                } else {
                    assert(s1[j + 1] == q);
                }
            }
            if q == p {
                assert(s1[i as int] == q);
            }
        }
    }
}

// ---------------------------------------------------------------------------
// Order independence
// ---------------------------------------------------------------------------
/// No two variables share a name.
pub open spec fn distinct_names(vs: Seq<(Seq<char>, Seq<char>)>) -> bool {
    forall|i: int, j: int| 0 <= i < j < vs.len() ==> #[trigger] vs[i].0 != #[trigger] vs[j].0
}

/// The two lists hold the same variables, in whatever order.
pub open spec fn same_entries(vs: Seq<(Seq<char>, Seq<char>)>, ws: Seq<(Seq<char>, Seq<char>)>) -> bool {
    forall|e: (Seq<char>, Seq<char>)| vs.contains(e) <==> ws.contains(e)
}

/// With distinct names, the lookup finds exactly the entry with that name.
proof fn lemma_lookup_is_entry(vs: Seq<(Seq<char>, Seq<char>)>, key: Seq<char>)
    requires
        distinct_names(vs),
    ensures
        forall|v: Seq<char>| spec_lookup(vs, key) == Some(v) <==> vs.contains((key, v)),
        spec_lookup(vs, key) is None <==> forall|i: int| 0 <= i < vs.len() ==> #[trigger] vs[i].0 != key,
{
    assert forall|v: Seq<char>| spec_lookup(vs, key) == Some(v) <==> vs.contains((key, v)) by {
        if vs.contains((key, v)) {
            let i = choose|i: int| 0 <= i < vs.len() && vs[i] == (key, v);
            lemma_lookup_first(vs, key, i);
        }
        if spec_lookup(vs, key) == Some(v) {
            lemma_lookup_found(vs, key);
        }
    }
    if forall|i: int| 0 <= i < vs.len() ==> #[trigger] vs[i].0 != key {
        lemma_lookup_none(vs, key);
    } else {
        let i = choose|i: int| 0 <= i < vs.len() && #[trigger] vs[i].0 == key;
        lemma_lookup_first(vs, key, i);
    }
}

/// What a lookup finds is an entry of the list.
proof fn lemma_lookup_found(vs: Seq<(Seq<char>, Seq<char>)>, key: Seq<char>)
    ensures
        spec_lookup(vs, key) matches Some(v) ==> vs.contains((key, v)),
    decreases vs.len(),
{
    if vs.len() > 0 && vs[0].0 != key {
        lemma_lookup_found(vs.drop_first(), key);
        if let Some(v) = spec_lookup(vs, key) {
            let i = choose|i: int| 0 <= i < vs.drop_first().len() && vs.drop_first()[i] == (key, v);
            assert(vs[i + 1] == (key, v));
        }
    }
}

/// Lists holding the same distinctly named variables look every name up
/// alike.
proof fn lemma_same_lookup(vs: Seq<(Seq<char>, Seq<char>)>, ws: Seq<(Seq<char>, Seq<char>)>, key: Seq<char>)
    requires
        distinct_names(vs),
        distinct_names(ws),
        same_entries(vs, ws),
    ensures
        spec_lookup(vs, key) == spec_lookup(ws, key),
{
    lemma_lookup_is_entry(vs, key);
    lemma_lookup_is_entry(ws, key);
    match spec_lookup(vs, key) {
        Some(v) => {
            assert(vs.contains((key, v)));
            assert(ws.contains((key, v)));
        },
        None => {
            if let Some(v) = spec_lookup(ws, key) {
                assert(ws.contains((key, v)));
                assert(vs.contains((key, v)));
                let i = choose|i: int| 0 <= i < vs.len() && vs[i] == (key, v);
                assert(vs[i].0 == key);
            }
        },
    }
}

/// Lists holding the same distinctly named variables report the same
/// flagged entry, whichever flags are in use.
proof fn lemma_same_first_flagged(
    vs: Seq<(Seq<char>, Seq<char>)>,
    ws: Seq<(Seq<char>, Seq<char>)>,
    bad: spec_fn((Seq<char>, Seq<char>)) -> bool,
    i: int,
    j: int,
)
    requires
        distinct_names(vs),
        same_entries(vs, ws),
        first_min_flagged(vs, vs.map_values(bad), i),
        first_min_flagged(ws, ws.map_values(bad), j),
    ensures
        vs[i] == ws[j],
{
    assert(ws.contains(ws[j]));
    assert(vs.contains(ws[j]));
    let p = choose|p: int| 0 <= p < vs.len() && vs[p] == ws[j];
    assert(vs.contains(vs[i]));
    assert(ws.contains(vs[i]));
    let q = choose|q: int| 0 <= q < ws.len() && ws[q] == vs[i];
    assert(vs.map_values(bad)[p]);
    assert(ws.map_values(bad)[q]);
    assert(!seq_lt(vs[p].0, vs[i].0));
    assert(!seq_lt(ws[q].0, ws[j].0));
    lemma_seq_lt_total(vs[p].0, vs[i].0);
    if p < i {
        assert(vs[p].0 != vs[i].0);
    } else if i < p {
        assert(vs[i].0 != vs[p].0);
    }
}

/// The order of the variables does not matter when their names are
/// distinct: any reordering flags an error exactly when the original does,
/// reports the same offending variable (the smallest flagged name, the model
/// namespace checked before the effort namespace), and resolves every call
/// site to the same model and effort from the same settings.
pub proof fn lemma_resolution_ignores_order(
    vs: Seq<(Seq<char>, Seq<char>)>,
    ws: Seq<(Seq<char>, Seq<char>)>,
    default_model: Seq<char>,
)
    requires
        distinct_names(vs),
        distinct_names(ws),
        same_entries(vs, ws),
    ensures
        any_flagged(model_flags(vs)) == any_flagged(model_flags(ws)),
        any_flagged(effort_flags(vs)) == any_flagged(effort_flags(ws)),
        forall|i: int, j: int|
            first_min_flagged(vs, model_flags(vs), i) && first_min_flagged(ws, model_flags(ws), j) ==> #[trigger] vs[i]
                == #[trigger] ws[j],
        forall|i: int, j: int|
            first_min_flagged(vs, effort_flags(vs), i) && first_min_flagged(ws, effort_flags(ws), j) ==> #[trigger] vs[i]
                == #[trigger] ws[j],
        forall|s: CallSite|
            #[trigger] spec_route_model(vs, default_model, s) == spec_route_model(ws, default_model, s) && spec_route_effort(vs, s)
                == spec_route_effort(ws, s),
{
    let mb = |e: (Seq<char>, Seq<char>)| bad_model_var(e);
    let eb = |e: (Seq<char>, Seq<char>)| bad_effort_var(e);
    assert(model_flags(vs) == vs.map_values(mb));
    assert(model_flags(ws) == ws.map_values(mb));
    assert(effort_flags(vs) == vs.map_values(eb));
    assert(effort_flags(ws) == ws.map_values(eb));
    assert forall|i: int, j: int|
        first_min_flagged(vs, model_flags(vs), i) && first_min_flagged(ws, model_flags(ws), j) implies #[trigger] vs[i]
            == #[trigger] ws[j] by {
        lemma_same_first_flagged(vs, ws, mb, i, j);
    }
    assert forall|i: int, j: int|
        first_min_flagged(vs, effort_flags(vs), i) && first_min_flagged(ws, effort_flags(ws), j) implies #[trigger] vs[i]
            == #[trigger] ws[j] by {
        lemma_same_first_flagged(vs, ws, eb, i, j);
    }
    if any_flagged(model_flags(vs)) {
        let i = choose|i: int| 0 <= i < model_flags(vs).len() && #[trigger] model_flags(vs)[i];
        assert(vs.contains(vs[i]));
        let q = choose|q: int| 0 <= q < ws.len() && ws[q] == vs[i];
        assert(model_flags(ws)[q]);
    }
    if any_flagged(model_flags(ws)) {
        let i = choose|i: int| 0 <= i < model_flags(ws).len() && #[trigger] model_flags(ws)[i];
        assert(ws.contains(ws[i]));
        let q = choose|q: int| 0 <= q < vs.len() && vs[q] == ws[i];
        assert(model_flags(vs)[q]);
    }
    if any_flagged(effort_flags(vs)) {
        let i = choose|i: int| 0 <= i < effort_flags(vs).len() && #[trigger] effort_flags(vs)[i];
        assert(vs.contains(vs[i]));
        let q = choose|q: int| 0 <= q < ws.len() && ws[q] == vs[i];
        assert(effort_flags(ws)[q]);
    }
    if any_flagged(effort_flags(ws)) {
        let i = choose|i: int| 0 <= i < effort_flags(ws).len() && #[trigger] effort_flags(ws)[i];
        assert(ws.contains(ws[i]));
        let q = choose|q: int| 0 <= q < vs.len() && vs[q] == ws[i];
        assert(effort_flags(vs)[q]);
    }
    assert forall|s: CallSite|
        #[trigger] spec_route_model(vs, default_model, s) == spec_route_model(ws, default_model, s) && spec_route_effort(vs, s)
            == spec_route_effort(ws, s) by {
        lemma_same_lookup(vs, ws, model_prefix() + site_suffix(s));
        lemma_same_lookup(vs, ws, model_prefix() + tier_suffix(site_tier(s)));
        lemma_same_lookup(vs, ws, effort_prefix() + site_suffix(s));
        lemma_same_lookup(vs, ws, effort_prefix() + tier_suffix(site_tier(s)));
    }
}

} // verus!
