//! The research layer's deterministic parts: the depth tiers, the keys that
//! deduplicate claims and sources, domain matching, the grounding gate, the
//! evidence excerpt, and the validation of a run's settings.
use vstd::prelude::*;
use crate::text::{
    all_ascii, append_chars, ascii_lower, chars_eq, chars_of, is_alphanumeric_char, is_ascii_char, join,
    join_chars, lemma_join_chars, lemma_join_single_spaced, lemma_words_of_join, lemma_words_shape,
    lowercase, single_spaced, split_words, str_to_lowercase, string_of, sub_chars, words,
};

pub mod contract;
pub mod evidence;
pub mod extract;
pub mod fetch;
pub mod grounding;
pub mod outcome;
pub mod pipeline;
pub mod run;
pub mod settings;
pub mod stepper;
pub mod synthesis;
pub mod verdict;

verus! {

/// Sub-questions a scope plan holds at most.
pub const MAX_SUB_QUESTIONS: usize = 7;

/// Claims extracted from one source at most.
pub const MAX_CLAIMS_PER_SOURCE: usize = 12;

/// Characters of a synthesized answer at most.
pub const MAX_ANSWER_CHARS: usize = 8000;

/// Gaps reported at most.
pub const MAX_GAPS: usize = 10;

/// Characters of one gap at most.
pub const MAX_GAP_CHARS: usize = 500;

/// Tokens one verification pass over one claim costs, as measured.
pub const TOKENS_PER_CLAIM_PASS: u64 = 2508;

/// How deep a research run goes.
#[derive(Debug, Clone, Copy, PartialEq, Eq, Structural)]
pub enum Depth {
    /// Few angles and sources.
    Quick,
    /// The default.
    Standard,
    /// Many angles and sources, triple verification.
    Deep,
}

/// What a depth scales.
#[derive(Debug, Clone, Copy)]
pub struct DepthTier {
    /// Search angles.
    pub angles: u8,
    /// Sources fetched at most.
    pub max_sources: usize,
    /// Verification passes per claim.
    pub verify_k: u8,
    /// Deadline when the caller sets none.
    pub default_deadline_ms: u64,
    /// Token budget when the caller sets none.
    pub default_budget_tokens: u64,
}

/// The tier table as plain values: (angles, max sources, verification
/// passes, default deadline, default budget).
pub open spec fn tier_of(d: Depth) -> (u8, usize, u8, u64, u64) {
    match d {
        Depth::Quick => (3, 8, 1, 120000, 350000),
        Depth::Standard => (5, 25, 2, 240000, 1600000),
        Depth::Deep => (8, 60, 3, 480000, 5500000),
    }
}

/// The stable name of a depth.
pub open spec fn depth_str(d: Depth) -> Seq<char> {
    match d {
        Depth::Quick => "quick"@,
        Depth::Standard => "standard"@,
        Depth::Deep => "deep"@,
    }
}

/// The tier as plain values.
pub open spec fn tier_view(t: DepthTier) -> (u8, usize, u8, u64, u64) {
    (t.angles, t.max_sources, t.verify_k, t.default_deadline_ms, t.default_budget_tokens)
}

impl Depth {
    /// The depth's tier.
    pub fn tier(self) -> (t: DepthTier)
        ensures
            tier_view(t) == tier_of(self),
    {
        match self {
            Depth::Quick => DepthTier {
                angles: 3,
                max_sources: 8,
                verify_k: 1,
                default_deadline_ms: 120000,
                default_budget_tokens: 350000,
            },
            Depth::Standard => DepthTier {
                angles: 5,
                max_sources: 25,
                verify_k: 2,
                default_deadline_ms: 240000,
                default_budget_tokens: 1600000,
            },
            Depth::Deep => DepthTier {
                angles: 8,
                max_sources: 60,
                verify_k: 3,
                default_deadline_ms: 480000,
                default_budget_tokens: 5500000,
            },
        }
    }

    /// The stable name.
    pub fn as_str(self) -> (r: &'static str)
        ensures
            r@ == depth_str(self),
    {
        match self {
            Depth::Quick => "quick",
            Depth::Standard => "standard",
            Depth::Deep => "deep",
        }
    }

    /// The tokens a run at this depth spends at most on verification alone:
    /// every claim of every source, every pass.
    pub fn structural_max_tokens(self) -> (r: u64)
        ensures
            r == tier_of(self).1 * MAX_CLAIMS_PER_SOURCE * tier_of(self).2 * TOKENS_PER_CLAIM_PASS,
    {
        let tier = self.tier();
        assert(tier_of(self).1 <= 60 && tier_of(self).2 <= 3);
        let claims: u64 = tier.max_sources as u64 * MAX_CLAIMS_PER_SOURCE as u64;
        claims * tier.verify_k as u64 * TOKENS_PER_CLAIM_PASS
    }
}

/// Deeper tiers scale strictly in angles, sources and budget, and never
/// lower the verification passes.
pub proof fn lemma_tiers_increase()
    ensures
        tier_of(Depth::Quick).0 < tier_of(Depth::Standard).0 < tier_of(Depth::Deep).0,
        tier_of(Depth::Quick).1 < tier_of(Depth::Standard).1 < tier_of(Depth::Deep).1,
        tier_of(Depth::Quick).2 <= tier_of(Depth::Standard).2 <= tier_of(Depth::Deep).2,
        tier_of(Depth::Quick).4 < tier_of(Depth::Standard).4 < tier_of(Depth::Deep).4,
{
}

/// Verification support for a claim.
#[derive(Debug, Clone, Copy, PartialEq, Eq, Structural)]
pub enum Support {
    /// Verification agreed it holds.
    Confirmed,
    /// Verification split.
    Contested,
    /// Verification agreed it fails.
    Refuted,
    /// Not verified.
    Unverified,
}

/// The planned search angles and the sub-questions they answer.
#[derive(Debug, Clone)]
pub struct ScopePlan {
    /// Search angles.
    pub angles: Vec<String>,
    /// Sub-questions.
    pub sub_questions: Vec<String>,
}

/// A claim extracted from sources.
#[derive(Debug, Clone)]
pub struct Claim {
    /// The claim text.
    pub text: String,
    /// The ids of the sources it came from.
    pub source_ids: Vec<String>,
}

/// The key claims are deduplicated by: the lowercased text's alphanumeric
/// words joined by single spaces.
pub open spec fn spec_claim_key(s: Seq<char>) -> Seq<char> {
    join(words(lowercase(s), true), " "@)
}

/// Normalize a claim for deduplication.
pub fn claim_key(text: &str) -> (r: String)
    ensures
        r@ == spec_claim_key(text@),
{
    proof {
        reveal_strlit(" ");
    }
    let low = str_to_lowercase(text);
    let v = chars_of(low.as_str());
    let ws = split_words(v.as_slice(), true);
    let sp = chars_of(" ");
    string_of(join_chars(&ws, sp.as_slice()).as_slice())
}

/// A character of a lowercased ASCII text: ASCII and unchanged by
/// lowercasing.
pub open spec fn lower_ascii(c: char) -> bool {
    is_ascii_char(c) && ascii_lower(c) == c
}

/// The claim key is a normal form (shown for ASCII text): the key is
/// single-spaced lowercase letters and digits, and keying a key gives it
/// back.
pub proof fn lemma_claim_key_is_normal(s: Seq<char>)
    requires
        all_ascii(s),
    ensures
        spec_claim_key(spec_claim_key(s)) == spec_claim_key(s),
        single_spaced(spec_claim_key(s)),
        forall|i: int|
            0 <= i < spec_claim_key(s).len() ==> {
                let c = #[trigger] spec_claim_key(s)[i];
                c == ' ' || ('a' <= c && c <= 'z') || ('0' <= c && c <= '9')
            },
{
    reveal_strlit(" ");
    let t = lowercase(s);
    assert(t == s.map_values(|c: char| ascii_lower(c)));
    let q = |c: char| lower_ascii(c);
    assert forall|i: int| 0 <= i < t.len() implies q(#[trigger] t[i]) by {
        assert(is_ascii_char(s[i]));
        assert(t[i] == ascii_lower(s[i]));
    }
    lemma_words_shape(t, q);
    let ws = words(t, true);
    let key = join(ws, " "@);
    let qk = |c: char| c == ' ' || (lower_ascii(c) && is_alphanumeric_char(c));
    assert forall|i: int, j: int| 0 <= i < ws.len() && 0 <= j < ws[i].len() implies qk(#[trigger] ws[i][j]) by {
        assert(q(ws[i][j]) && is_alphanumeric_char(ws[i][j]));
    }
    assert forall|i: int| 0 <= i < " "@.len() implies qk(#[trigger] " "@[i]) by {
    }
    lemma_join_chars(ws, " "@, qk);
    assert forall|i: int, j: int| 0 <= i < ws.len() && 0 <= j < ws[i].len() implies #[trigger] ws[i][j] != ' ' by {
        assert(is_alphanumeric_char(ws[i][j]));
    }
    lemma_join_single_spaced(ws);
    assert forall|i: int, j: int| 0 <= i < ws.len() && 0 <= j < ws[i].len() implies is_alphanumeric_char(
        #[trigger] ws[i][j],
    ) by {
        assert(q(ws[i][j]) && is_alphanumeric_char(ws[i][j]));
    }
    lemma_words_of_join(ws);
    assert forall|i: int| 0 <= i < key.len() implies is_ascii_char(#[trigger] key[i]) by {
        assert(qk(key[i]));
    }
    assert(all_ascii(key));
    assert forall|i: int| 0 <= i < key.len() implies #[trigger] ascii_lower(key[i]) == key[i] by {
        assert(qk(key[i]));
    }
    assert(lowercase(key) =~= key);
    assert(spec_claim_key(key) == join(words(key, true), " "@));
}

/// `p` is a prefix of `s`.
pub open spec fn has_prefix(s: Seq<char>, p: Seq<char>) -> bool {
    p.len() <= s.len() && s.subrange(0, p.len() as int) == p
}

/// `p` is a suffix of `s`.
pub open spec fn has_suffix(s: Seq<char>, p: Seq<char>) -> bool {
    p.len() <= s.len() && s.subrange(s.len() - p.len(), s.len() as int) == p
}

/// The first index at which `c` occurs in `s`, if any.
pub open spec fn first_index(s: Seq<char>, c: char) -> Option<int>
    decreases s.len(),
{
    if s.len() == 0 {
        None
    } else {
        match first_index(s.drop_last(), c) {
            Some(i) => Some(i),
            None => if s.last() == c {
                Some(s.len() - 1)
            } else {
                None
            },
        }
    }
}

/// `s` with trailing `c` characters removed.
pub open spec fn trim_end_char(s: Seq<char>, c: char) -> Seq<char>
    decreases s.len(),
{
    if s.len() > 0 && s.last() == c {
        trim_end_char(s.drop_last(), c)
    } else {
        s
    }
}

/// `s` without its scheme (`https://` or `http://`).
pub open spec fn strip_scheme(s: Seq<char>) -> Seq<char> {
    if has_prefix(s, "https://"@) {
        s.subrange(8, s.len() as int)
    } else if has_prefix(s, "http://"@) {
        s.subrange(7, s.len() as int)
    } else {
        s
    }
}

/// `s` up to its first `#`.
pub open spec fn strip_fragment(s: Seq<char>) -> Seq<char> {
    match first_index(s, '#') {
        Some(i) => s.subrange(0, i),
        None => s,
    }
}

/// The key sources are deduplicated by: no scheme, no fragment, no trailing
/// slash, and the host (but not the path) lowercased.
pub open spec fn spec_url_key(url: Seq<char>) -> Seq<char> {
    let t = trim_end_char(strip_fragment(strip_scheme(url)), '/');
    match first_index(t, '/') {
        Some(k) => lowercase(t.subrange(0, k)) + "/"@ + t.subrange(k + 1, t.len() as int),
        None => lowercase(t),
    }
}

proof fn lemma_first_index(s: Seq<char>, c: char)
    ensures
        first_index(s, c) matches Some(i) ==> 0 <= i < s.len() && s[i] == c && forall|j: int|
            0 <= j < i ==> s[j] != c,
        first_index(s, c) is None ==> forall|j: int| 0 <= j < s.len() ==> s[j] != c,
    decreases s.len(),
{
    if s.len() > 0 {
        lemma_first_index(s.drop_last(), c);
        assert(forall|j: int| 0 <= j < s.len() - 1 ==> s.drop_last()[j] == s[j]);
    }
}

/// Find the first `c` in `v`.
fn find_char(v: &[char], c: char) -> (r: Option<usize>)
    ensures
        r matches Some(i) ==> first_index(v@, c) == Some(i as int),
        r is None ==> first_index(v@, c) is None,
{
    let mut i: usize = 0;
    while i < v.len()
        invariant
            0 <= i <= v@.len(),
            first_index(v@.take(i as int), c) is None,
        decreases v@.len() - i,
    {
        assert(v@.take(i + 1).drop_last() =~= v@.take(i as int));
        if v[i] == c {
            assert(first_index(v@.take(i + 1), c) == Some(i as int));
            proof {
                lemma_first_index_prefix(v@, i + 1, c);
            }
            return Some(i);
        }
        i = i + 1;
    }
    assert(v@.take(v@.len() as int) =~= v@);
    None
}

/// A first occurrence within a prefix is the first occurrence overall.
proof fn lemma_first_index_prefix(s: Seq<char>, n: int, c: char)
    requires
        0 <= n <= s.len(),
        first_index(s.take(n), c) is Some,
    ensures
        first_index(s, c) == first_index(s.take(n), c),
    decreases s.len() - n,
{
    if n < s.len() {
        assert(s.take(n + 1).drop_last() =~= s.take(n));
        lemma_first_index_prefix(s, n + 1, c);
    } else {
        assert(s.take(n) =~= s);
    }
}

/// Whether `v` starts with the characters of `p`.
fn starts_with(v: &[char], p: &str) -> (r: bool)
    ensures
        r == has_prefix(v@, p@),
{
    let pv = chars_of(p);
    if pv.len() > v.len() {
        return false;
    }
    let head = sub_chars(v, 0, pv.len());
    chars_eq(head.as_slice(), pv.as_slice())
}

/// Normalize a URL for source deduplication.
pub fn url_key(url: &str) -> (r: String)
    ensures
        r@ == spec_url_key(url@),
{
    proof {
        reveal_strlit("https://");
        reveal_strlit("http://");
        reveal_strlit("/");
    }
    let v = chars_of(url);
    let no_scheme = if starts_with(v.as_slice(), "https://") {
        sub_chars(v.as_slice(), 8, v.len())
    } else if starts_with(v.as_slice(), "http://") {
        sub_chars(v.as_slice(), 7, v.len())
    } else {
        v
    };
    proof {
        lemma_first_index(no_scheme@, '#');
    }
    let no_fragment = match find_char(no_scheme.as_slice(), '#') {
        Some(i) => sub_chars(no_scheme.as_slice(), 0, i),
        None => no_scheme,
    };
    let mut end: usize = no_fragment.len();
    assert(no_fragment@.take(end as int) =~= no_fragment@);
    while end > 0 && no_fragment[end - 1] == '/'
        invariant
            0 <= end <= no_fragment@.len(),
            trim_end_char(no_fragment@, '/') == trim_end_char(no_fragment@.take(end as int), '/'),
        decreases end,
    {
        assert(no_fragment@.take(end as int).drop_last() =~= no_fragment@.take(end - 1));
        end = end - 1;
    }
    let t = sub_chars(no_fragment.as_slice(), 0, end);
    assert(t@ =~= no_fragment@.take(end as int));
    assert(trim_end_char(t@, '/') == t@);
    proof {
        lemma_first_index(t@, '/');
    }
    match find_char(t.as_slice(), '/') {
        Some(k) => {
            let host = string_of(sub_chars(t.as_slice(), 0, k).as_slice());
            let low = str_to_lowercase(host.as_str());
            let mut out = chars_of(low.as_str());
            out.push('/');
            let path = sub_chars(t.as_slice(), k + 1, t.len());
            append_chars(&mut out, path.as_slice());
            string_of(out.as_slice())
        },
        None => {
            let s = string_of(t.as_slice());
            str_to_lowercase(s.as_str())
        },
    }
}

/// `host` is `domain` or one of its subdomains, ignoring case.
pub open spec fn spec_domain_matches(host: Seq<char>, domain: Seq<char>) -> bool {
    lowercase(host) == lowercase(domain) || has_suffix(lowercase(host), "."@ + lowercase(domain))
}

/// Whether `host` is `domain` or a subdomain of it, at a dot boundary.
pub fn domain_matches(host: &str, domain: &str) -> (r: bool)
    ensures
        r == spec_domain_matches(host@, domain@),
{
    proof {
        reveal_strlit(".");
    }
    let h = str_to_lowercase(host);
    let d = str_to_lowercase(domain);
    let hv = chars_of(h.as_str());
    let dv = chars_of(d.as_str());
    if chars_eq(hv.as_slice(), dv.as_slice()) {
        return true;
    }
    let mut suffix = chars_of(".");
    append_chars(&mut suffix, dv.as_slice());
    if suffix.len() > hv.len() {
        return false;
    }
    let tail = sub_chars(hv.as_slice(), hv.len() - suffix.len(), hv.len());
    chars_eq(tail.as_slice(), suffix.as_slice())
}

} // verus!
