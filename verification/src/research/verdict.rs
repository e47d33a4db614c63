//! Per-claim support from the verification votes, the sub-questions the
//! answer settles, and the document-class test behind source credibility.
use vstd::prelude::*;
use crate::modes::verify::VerdictKind;
use crate::research::{has_suffix, Support};
use crate::text::{chars_of, find_from, lowercase, occurs_at, str_to_lowercase};

verus! {

/// The support a claim earns: a split panel (agreement at most two thirds)
/// is contested before the verdict is trusted; otherwise a refutation is
/// refuted, and a support is confirmed only with two or more sources.
pub open spec fn spec_support(completed: nat, agreeing: nat, verdict: VerdictKind, n_sources: nat) -> Support {
    if 3 * agreeing <= 2 * completed {
        Support::Contested
    } else if verdict == VerdictKind::Refuted {
        Support::Refuted
    } else if n_sources >= 2 {
        Support::Confirmed
    } else {
        Support::Unverified
    }
}

/// The support a claim earns from `agreeing` of `completed` passes on
/// `verdict`, with `n_sources` sources.
pub fn support(completed: u32, agreeing: u32, verdict: VerdictKind, n_sources: usize) -> (r: Support)
    ensures
        r == spec_support(completed as nat, agreeing as nat, verdict, n_sources as nat),
{
    if 3 * (agreeing as u64) <= 2 * (completed as u64) {
        Support::Contested
    } else if verdict == VerdictKind::Refuted {
        Support::Refuted
    } else if n_sources >= 2 {
        Support::Confirmed
    } else {
        Support::Unverified
    }
}

/// Sub-question `i` (zero-based) is named by a gap target (one-based).
pub open spec fn claimed(targets: Seq<u32>, i: int) -> bool {
    exists|k: int| 0 <= k < targets.len() && targets[k] as int == i + 1
}

/// Which sub-questions the answer settles: those no gap targets. Targets
/// outside `1..=sub_questions` name nothing.
pub fn settled_mask(sub_questions: usize, targets: &Vec<u32>) -> (r: Vec<bool>)
    ensures
        r@.len() == sub_questions,
        forall|i: int| 0 <= i < sub_questions ==> r@[i] == !claimed(targets@, i),
{
    let mut r: Vec<bool> = Vec::new();
    let mut i: usize = 0;
    while i < sub_questions
        invariant
            0 <= i <= sub_questions,
            r@.len() == i,
            forall|j: int| 0 <= j < i ==> r@[j] == !claimed(targets@, j),
        decreases sub_questions - i,
    {
        let mut hit = false;
        let mut k: usize = 0;
        while k < targets.len()
            invariant
                0 <= k <= targets@.len(),
                i < sub_questions,
                hit <==> exists|m: int| 0 <= m < k && targets@[m] as int == i + 1,
            decreases targets@.len() - k,
        {
            if targets[k] as u64 == i as u64 + 1 {
                hit = true;
            }
            k = k + 1;
        }
        r.push(!hit);
        i = i + 1;
    }
    r
}

/// Number of `true` entries.
pub open spec fn count_true(bs: Seq<bool>) -> nat
    decreases bs.len(),
{
    if bs.len() == 0 {
        0
    } else {
        count_true(bs.drop_last()) + (if bs.last() {
            1nat
        } else {
            0nat
        })
    }
}

/// Coverage as a fraction (settled, scoped): the share of scoped
/// sub-questions the answer settles, whole when none was scoped.
pub fn coverage(sub_questions: usize, targets: &Vec<u32>) -> (r: (usize, usize))
    ensures
        sub_questions == 0 ==> r == (1usize, 1usize),
        sub_questions > 0 ==> r.1 == sub_questions && r.0 == count_true(
            Seq::new(sub_questions as nat, |i: int| !claimed(targets@, i)),
        ),
{
    if sub_questions == 0 {
        return (1, 1);
    }
    let mask = settled_mask(sub_questions, targets);
    let ghost want = Seq::new(sub_questions as nat, |i: int| !claimed(targets@, i));
    assert(mask@ =~= want);
    let mut n: usize = 0;
    let mut i: usize = 0;
    while i < mask.len()
        invariant
            0 <= i <= mask@.len(),
            n <= i,
            n == count_true(mask@.take(i as int)),
        decreases mask@.len() - i,
    {
        assert(mask@.take(i + 1).drop_last() =~= mask@.take(i as int));
        if mask[i] {
            n = n + 1;
        }
        i = i + 1;
    }
    assert(mask@.take(mask@.len() as int) =~= mask@);
    (n, sub_questions)
}

/// `p` occurs somewhere in `s`.
pub open spec fn has_infix(s: Seq<char>, p: Seq<char>) -> bool {
    exists|i: int| occurs_at(s, p, i)
}

/// The host belongs to a documentation-class domain: it ends with `.gov`,
/// `.edu` or `.org`, or holds one followed by a dot (a country form such as
/// `.gov.uk`), ignoring case.
pub open spec fn doc_class(host: Seq<char>) -> bool {
    let h = lowercase(host);
    ||| has_suffix(h, ".gov"@) || has_infix(h, ".gov."@)
    ||| has_suffix(h, ".edu"@) || has_infix(h, ".edu."@)
    ||| has_suffix(h, ".org"@) || has_infix(h, ".org."@)
}

fn ends_with(v: &[char], p: &str) -> (r: bool)
    ensures
        r == has_suffix(v@, p@),
{
    let pv = chars_of(p);
    if pv.len() > v.len() {
        return false;
    }
    let tail = crate::text::sub_chars(v, v.len() - pv.len(), v.len());
    crate::text::chars_eq(tail.as_slice(), pv.as_slice())
}

fn contains(v: &[char], p: &str) -> (r: bool)
    ensures
        r == has_infix(v@, p@),
{
    let pv = chars_of(p);
    match find_from(v, pv.as_slice(), 0) {
        Some(i) => true,
        None => {
            assert forall|i: int| !occurs_at(v@, p@, i) by {
                if 0 <= i {
                    assert(!occurs_at(v@, pv@, i));
                }
            }
            false
        },
    }
}

/// Whether the host is of a documentation class (which earns sources a
/// credibility bonus).
pub fn is_doc_class_host(host: &str) -> (r: bool)
    ensures
        r == doc_class(host@),
{
    let low = str_to_lowercase(host);
    let h = chars_of(low.as_str());
    (ends_with(h.as_slice(), ".gov") || contains(h.as_slice(), ".gov."))
        || (ends_with(h.as_slice(), ".edu") || contains(h.as_slice(), ".edu."))
        || (ends_with(h.as_slice(), ".org") || contains(h.as_slice(), ".org."))
}


proof fn lemma_count_true_le(bs: Seq<bool>)
    ensures
        count_true(bs) <= bs.len(),
    decreases bs.len(),
{
    if bs.len() > 0 {
        lemma_count_true_le(bs.drop_last());
    }
}

/// Coverage is a share: the settled sub-questions are among the scoped.
pub proof fn lemma_coverage_is_a_share(sub_questions: nat, targets: Seq<u32>)
    ensures
        count_true(Seq::new(sub_questions, |i: int| !claimed(targets, i))) <= sub_questions,
{
    lemma_count_true_le(Seq::new(sub_questions, |i: int| !claimed(targets, i)));
}

/// Coverage always equals the settled share of the published statuses: for
/// any mask that marks exactly the unclaimed sub-questions (as
/// [`settled_mask`] gives), its settled count is coverage's numerator and
/// its length coverage's denominator.
pub proof fn lemma_coverage_is_the_settled_share(sub_questions: nat, targets: Seq<u32>, mask: Seq<bool>)
    requires
        sub_questions > 0,
        mask.len() == sub_questions,
        forall|i: int| 0 <= i < sub_questions ==> mask[i] == !claimed(targets, i),
    ensures
        count_true(mask) == count_true(Seq::new(sub_questions, |i: int| !claimed(targets, i))),
        count_true(mask) <= mask.len(),
{
    assert(mask =~= Seq::new(sub_questions, |i: int| !claimed(targets, i)));
    lemma_count_true_le(mask);
}

} // verus!
