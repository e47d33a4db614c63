//! The evidence excerpt a claim is verified against: the whole source when
//! it fits, otherwise the paragraph that shares the most words with the
//! claim, grown outward over its neighbours while the cap allows.
use vstd::prelude::*;
use crate::modes::diverge::{count_in, lemma_count_in};
use crate::text::{
    total_len, chars_eq, chars_of, join, join_chars, lowercase, nonblank_lines, nonblank_lines_of, seqs_of,
    split_words, str_to_lowercase, string_of, strs_of, sub_chars, trim_seq, trim_str, words,
};

verus! {

/// Characters of one evidence excerpt at most.
pub const EVIDENCE_EXCERPT_MAX_CHARS: usize = 4000;

/// Sources whose excerpts one claim is verified against at most.
pub const EVIDENCE_SOURCES_MAX: usize = 3;

/// Characters a word needs to count toward overlap.
pub const OVERLAP_WORD_MIN_CHARS: usize = 3;

/// The words that count toward overlap: the lowercased text's alphanumeric
/// words of at least three characters.
pub open spec fn overlap_set(s: Seq<char>) -> Set<Seq<char>> {
    long_words(words(lowercase(s), true)).to_set()
}

/// The words of at least `OVERLAP_WORD_MIN_CHARS` characters, in order.
pub open spec fn long_words(ws: Seq<Seq<char>>) -> Seq<Seq<char>>
    decreases ws.len(),
{
    if ws.len() == 0 {
        Seq::empty()
    } else if ws.last().len() >= OVERLAP_WORD_MIN_CHARS {
        long_words(ws.drop_last()).push(ws.last())
    } else {
        long_words(ws.drop_last())
    }
}

/// How many overlap words a paragraph shares with the claim.
pub open spec fn overlap_score(p: Seq<char>, claim: Seq<char>) -> nat {
    overlap_set(p).intersect(overlap_set(claim)).len()
}

/// Paragraph `a` shares the most words with the claim, and no earlier one
/// shares as many.
pub open spec fn is_anchor(ps: Seq<Seq<char>>, claim: Seq<char>, a: int) -> bool {
    &&& 0 <= a < ps.len()
    &&& forall|j: int|
        0 <= j < ps.len() ==> overlap_score(#[trigger] ps[j], claim) <= overlap_score(ps[a], claim)
    &&& forall|j: int| 0 <= j < a ==> overlap_score(#[trigger] ps[j], claim) < overlap_score(ps[a], claim)
}

/// Growth from the selected range `lo..=hi` with `budget` characters left:
/// each round first takes the next paragraph, then the previous one, each
/// when it fits with its separating newline; it stops when neither fits.
pub open spec fn grow(ps: Seq<Seq<char>>, lo: int, hi: int, budget: int) -> (int, int)
    decreases ps.len() - hi + lo,
{
    if !(0 <= lo && lo <= hi && hi < ps.len()) {
        (lo, hi)
    } else {
        let can_next = hi + 1 < ps.len() && ps[hi + 1].len() + 1 <= budget;
        let b1 = if can_next {
            budget - (ps[hi + 1].len() + 1)
        } else {
            budget
        };
        let hi1 = if can_next {
            hi + 1
        } else {
            hi
        };
        let can_prev = lo > 0 && ps[lo - 1].len() + 1 <= b1;
        let b2 = if can_prev {
            b1 - (ps[lo - 1].len() + 1)
        } else {
            b1
        };
        let lo1 = if can_prev {
            lo - 1
        } else {
            lo
        };
        if !can_next && !can_prev {
            (lo, hi)
        } else {
            grow(ps, lo1, hi1, b2)
        }
    }
}

/// The excerpt, given the anchor paragraph `a`: the trimmed text when it
/// fits; its head when it has no paragraph; the anchor's head when the
/// anchor alone does not fit; else the grown range joined by newlines.
pub open spec fn excerpt_with(text: Seq<char>, max: nat, a: int) -> Seq<char> {
    let t = trim_seq(text);
    let ps = nonblank_lines(t);
    if t.len() <= max {
        t
    } else if ps.len() == 0 {
        t.take(max as int)
    } else if ps[a].len() > max {
        ps[a].take(max as int)
    } else {
        let g = grow(ps, a, a, max - ps[a].len());
        join(ps.subrange(g.0, g.1 + 1), "\n"@)
    }
}

/// At most one paragraph is the anchor.
pub proof fn lemma_anchor_unique(ps: Seq<Seq<char>>, claim: Seq<char>, a: int, b: int)
    requires
        is_anchor(ps, claim, a),
        is_anchor(ps, claim, b),
    ensures
        a == b,
{
    if a < b {
        assert(overlap_score(ps[a], claim) < overlap_score(ps[b], claim));
    } else if b < a {
        assert(overlap_score(ps[b], claim) < overlap_score(ps[a], claim));
    }
}

/// The excerpt of `text` for `claim` within `max` characters.
pub open spec fn excerpt_of(text: Seq<char>, claim: Seq<char>, max: nat) -> Seq<char> {
    excerpt_with(
        text,
        max,
        choose|a: int| is_anchor(nonblank_lines(trim_seq(text)), claim, a),
    )
}

/// The distinct overlap words of a text.
fn overlap_tokens(text: &str) -> (r: Vec<Vec<char>>)
    ensures
        seqs_of(r@).no_duplicates(),
        seqs_of(r@).to_set() == overlap_set(text@),
{
    let low = str_to_lowercase(text);
    let v = chars_of(low.as_str());
    let ws = split_words(v.as_slice(), true);
    let ghost w = seqs_of(ws@);
    let mut r: Vec<Vec<char>> = Vec::new();
    let mut i: usize = 0;
    while i < ws.len()
        invariant
            0 <= i <= ws@.len(),
            w == seqs_of(ws@),
            w == words(lowercase(text@), true),
            seqs_of(r@).no_duplicates(),
            seqs_of(r@).to_set() == long_words(w.take(i as int)).to_set(),
        decreases ws@.len() - i,
    {
        let ghost before = seqs_of(r@);
        let ghost x = w[i as int];
        assert(w.take(i + 1).drop_last() =~= w.take(i as int));
        assert(w.take(i + 1).last() == x);
        if ws[i].len() >= OVERLAP_WORD_MIN_CHARS {
            assert(x.len() >= OVERLAP_WORD_MIN_CHARS);
            assert(long_words(w.take(i + 1)) == long_words(w.take(i as int)).push(x));
            proof {
                long_words(w.take(i as int)).lemma_push_to_set_commute(x);
            }
            let mut found = false;
            let mut j: usize = 0;
            while j < r.len()
                invariant
                    0 <= j <= r@.len(),
                    0 <= i < ws@.len(),
                    w == seqs_of(ws@),
                    x == w[i as int],
                    before == seqs_of(r@),
                    found <==> exists|k: int| 0 <= k < j && before[k] == x,
                decreases r@.len() - j,
            {
                if chars_eq(r[j].as_slice(), ws[i].as_slice()) {
                    assert(before[j as int] == x);
                    found = true;
                }
                j = j + 1;
            }
            if !found {
                let c = ws[i].clone();
                r.push(c);
                assert(seqs_of(r@) =~= before.push(x));
                assert(!before.contains(x));
                assert(before.push(x).no_duplicates()) by {
                    let q = before.push(x);
                    assert forall|y: int, z: int|
                        0 <= y < q.len() && 0 <= z < q.len() && y != z implies q[y] != q[z] by {
                        if y < before.len() && z < before.len() {
                        } else if y == before.len() {
                            assert(before[z] != x);
                        } else {
                            assert(before[y] != x);
                        }
                    }
                }
                proof {
                    before.lemma_push_to_set_commute(x);
                }
            } else {
                assert(before.contains(x));
                assert(seqs_of(r@).to_set() =~= long_words(w.take(i + 1)).to_set());
            }
        } else {
            assert(long_words(w.take(i + 1)) == long_words(w.take(i as int)));
        }
        i = i + 1;
    }
    assert(w.take(ws@.len() as int) =~= w);
    r
}

/// Shared overlap words of two distinct-word lists.
fn shared_count(a: &Vec<Vec<char>>, b: &Vec<Vec<char>>) -> (n: usize)
    requires
        seqs_of(a@).no_duplicates(),
    ensures
        n == seqs_of(a@).to_set().intersect(seqs_of(b@).to_set()).len(),
{
    let ghost sa = seqs_of(a@);
    let ghost sb = seqs_of(b@);
    proof {
        lemma_count_in(sa, sb);
    }
    let mut n: usize = 0;
    let mut i: usize = 0;
    while i < a.len()
        invariant
            0 <= i <= a@.len(),
            sa == seqs_of(a@),
            sb == seqs_of(b@),
            n <= i,
            n == count_in(sa.take(i as int), sb),
        decreases a@.len() - i,
    {
        assert(sa.take(i + 1).drop_last() =~= sa.take(i as int));
        assert(sa.take(i + 1).last() == sa[i as int]);
        let mut found = false;
        let mut j: usize = 0;
        while j < b.len()
            invariant
                0 <= j <= b@.len(),
                0 <= i < a@.len(),
                sa == seqs_of(a@),
                sb == seqs_of(b@),
                found <==> exists|k: int| 0 <= k < j && sb[k] == sa[i as int],
            decreases b@.len() - j,
        {
            assert(sb[j as int] == b@[j as int]@);
            assert(sa[i as int] == a@[i as int]@);
            if chars_eq(b[j].as_slice(), a[i].as_slice()) {
                found = true;
            }
            j = j + 1;
        }
        assert(found == sb.contains(sa[i as int]));
        if found {
            n = n + 1;
        }
        i = i + 1;
    }
    assert(sa.take(a@.len() as int) =~= sa);
    n
}

/// The first `max` characters of `v`.
fn head(v: &[char], max: usize) -> (r: Vec<char>)
    ensures
        r@ == v@.take(max as int) || (v@.len() <= max && r@ == v@),
        max <= v@.len() ==> r@ == v@.take(max as int),
{
    if max <= v.len() {
        sub_chars(v, 0, max)
    } else {
        let r = sub_chars(v, 0, v.len());
        assert(r@ =~= v@);
        r
    }
}

/// The excerpt of a source's text that a claim is verified against, at
/// most `max_chars` characters.
pub fn evidence_excerpt(text: &str, claim: &str, max_chars: usize) -> (r: String)
    ensures
        ({
            let t = trim_seq(text@);
            let ps = nonblank_lines(t);
            &&& t.len() <= max_chars ==> r@ == t
            &&& t.len() > max_chars && ps.len() == 0 ==> r@ == t.take(max_chars as int)
            &&& t.len() > max_chars && ps.len() > 0 ==> exists|a: int|
                is_anchor(ps, claim@, a) && r@ == #[trigger] excerpt_with(text@, max_chars as nat, a)
            &&& r@.len() <= max_chars
            &&& r@ == excerpt_of(text@, claim@, max_chars as nat)
        }),
{
    proof {
        reveal_strlit("\n");
    }
    let t = trim_str(text);
    let tv = chars_of(t.as_str());
    if tv.len() <= max_chars {
        return t;
    }
    let paras = nonblank_lines_of(tv.as_slice());
    let ghost ps = strs_of(paras@);
    if paras.len() == 0 {
        let h = head(tv.as_slice(), max_chars);
        let r = string_of(h.as_slice());
        return r;
    }
    let claim_words = overlap_tokens(claim);
    let n = paras.len();
    let first = overlap_tokens(paras[0].as_str());
    let mut best: usize = 0;
    let mut best_score: usize = shared_count(&first, &claim_words);
    let mut i: usize = 1;
    while i < n
        invariant
            1 <= i <= n,
            n == ps.len(),
            ps == strs_of(paras@),
            best < i,
            seqs_of(claim_words@).to_set() == overlap_set(claim@),
            best_score == overlap_score(ps[best as int], claim@),
            forall|j: int| 0 <= j < i ==> overlap_score(#[trigger] ps[j], claim@) <= best_score,
            forall|j: int| 0 <= j < best ==> overlap_score(#[trigger] ps[j], claim@) < best_score,
        decreases n - i,
    {
        let w = overlap_tokens(paras[i].as_str());
        let sc = shared_count(&w, &claim_words);
        assert(sc == overlap_score(ps[i as int], claim@));
        if sc > best_score {
            best = i;
            best_score = sc;
        }
        i = i + 1;
    }
    assert(is_anchor(ps, claim@, best as int));
    proof {
        let c = choose|a: int| is_anchor(ps, claim@, a);
        lemma_anchor_unique(ps, claim@, best as int, c);
        lemma_excerpt_within_cap(text@, max_chars as nat, best as int);
    }
    let anchor_chars = chars_of(paras[best].as_str());
    if anchor_chars.len() > max_chars {
        let h = head(anchor_chars.as_slice(), max_chars);
        let r = string_of(h.as_slice());
        assert(r@ == excerpt_with(text@, max_chars as nat, best as int));
        return r;
    }
    let ghost b0 = (max_chars - anchor_chars@.len()) as int;
    let mut budget: usize = max_chars - anchor_chars.len();
    let mut lo: usize = best;
    let mut hi: usize = best;
    loop
        invariant
            n == ps.len(),
            ps == strs_of(paras@),
            0 <= lo <= hi < n,
            grow(ps, lo as int, hi as int, budget as int) == grow(ps, best as int, best as int, b0),
        ensures
            0 <= lo <= hi < n,
            grow(ps, best as int, best as int, b0) == (lo as int, hi as int),
        decreases n - hi + lo,
    {
        let can_next = hi + 1 < n && char_len(&paras[hi + 1]) < budget;
        let mut b1 = budget;
        if can_next {
            b1 = budget - (char_len(&paras[hi + 1]) + 1);
        }
        let hi1 = if can_next {
            hi + 1
        } else {
            hi
        };
        let can_prev = lo > 0 && char_len(&paras[lo - 1]) < b1;
        let mut b2 = b1;
        if can_prev {
            b2 = b1 - (char_len(&paras[lo - 1]) + 1);
        }
        let lo1 = if can_prev {
            lo - 1
        } else {
            lo
        };
        if !can_next && !can_prev {
            break;
        }
        lo = lo1;
        hi = hi1;
        budget = b2;
    }
    let mut sel: Vec<Vec<char>> = Vec::new();
    let mut k: usize = lo;
    while k <= hi
        invariant
            0 <= lo <= k <= hi + 1,
            hi < n,
            n == ps.len(),
            ps == strs_of(paras@),
            seqs_of(sel@) == ps.subrange(lo as int, k as int),
        decreases hi + 1 - k,
    {
        let ghost before = seqs_of(sel@);
        sel.push(chars_of(paras[k].as_str()));
        assert(ps.subrange(lo as int, k + 1) =~= ps.subrange(lo as int, k as int).push(ps[k as int]));
        assert(seqs_of(sel@) =~= ps.subrange(lo as int, k + 1));
        k = k + 1;
    }
    let nl = chars_of("\n");
    let r = string_of(join_chars(&sel, nl.as_slice()).as_slice());
    assert(r@ == excerpt_with(text@, max_chars as nat, best as int));
    r
}

/// Characters of a string.
fn char_len(s: &String) -> (n: usize)
    ensures
        n == s@.len(),
{
    crate::text::char_count(s.as_str())
}


proof fn lemma_total_len_prepend(x: Seq<char>, ws: Seq<Seq<char>>)
    ensures
        total_len(seq![x] + ws) == x.len() + total_len(ws),
    decreases ws.len(),
{
    let s2 = seq![x] + ws;
    assert(total_len(s2) == total_len(s2.drop_last()) + s2.last().len());
    if ws.len() > 0 {
        lemma_total_len_prepend(x, ws.drop_last());
        assert(s2.drop_last() =~= seq![x] + ws.drop_last());
        assert(s2.last() == ws.last());
        assert(total_len(ws) == total_len(ws.drop_last()) + ws.last().len());
    } else {
        assert(s2.drop_last() =~= Seq::<Seq<char>>::empty());
        assert(s2.last() == x);
        assert(total_len(Seq::<Seq<char>>::empty()) == 0);
    }
}

proof fn lemma_join_len(ws: Seq<Seq<char>>)
    requires
        ws.len() >= 1,
    ensures
        join(ws, "\n"@).len() == total_len(ws) + ws.len() - 1,
    decreases ws.len(),
{
    reveal_strlit("\n");
    assert("\n"@.len() == 1);
    assert(total_len(ws) == total_len(ws.drop_last()) + ws.last().len());
    if ws.len() == 1 {
        assert(ws.drop_last() =~= Seq::<Seq<char>>::empty());
        assert(total_len(Seq::<Seq<char>>::empty()) == 0);
        assert(join(ws, "\n"@) == ws[0]);
        assert(ws.last() == ws[0]);
    } else {
        lemma_join_len(ws.drop_last());
        assert(join(ws, "\n"@) == join(ws.drop_last(), "\n"@) + "\n"@ + ws.last());
    }
}

proof fn lemma_range_right(ps: Seq<Seq<char>>, lo: int, hi: int)
    requires
        0 <= lo <= hi < ps.len(),
    ensures
        total_len(ps.subrange(lo, hi + 1)) == total_len(ps.subrange(lo, hi)) + ps[hi].len(),
{
    assert(ps.subrange(lo, hi + 1).drop_last() =~= ps.subrange(lo, hi));
}

proof fn lemma_range_left(ps: Seq<Seq<char>>, lo: int, hi: int)
    requires
        0 < lo <= hi + 1 <= ps.len(),
    ensures
        total_len(ps.subrange(lo - 1, hi + 1)) == ps[lo - 1].len() + total_len(ps.subrange(lo, hi + 1)),
{
    assert(ps.subrange(lo - 1, hi + 1) =~= seq![ps[lo - 1]] + ps.subrange(lo, hi + 1));
    lemma_total_len_prepend(ps[lo - 1], ps.subrange(lo, hi + 1));
}

/// Growth never spends more than the budget: the selected paragraphs and
/// their separators take at most what was held plus what was left.
proof fn lemma_grow_within(ps: Seq<Seq<char>>, lo: int, hi: int, budget: int, m: int)
    requires
        0 <= lo <= hi < ps.len(),
        budget >= 0,
        total_len(ps.subrange(lo, hi + 1)) + (hi - lo) + budget == m,
    ensures
        ({
            let g = grow(ps, lo, hi, budget);
            &&& 0 <= g.0 <= g.1 < ps.len()
            &&& total_len(ps.subrange(g.0, g.1 + 1)) + (g.1 - g.0) <= m
        }),
    decreases ps.len() - hi + lo,
{
    let can_next = hi + 1 < ps.len() && ps[hi + 1].len() + 1 <= budget;
    let b1 = if can_next {
        budget - (ps[hi + 1].len() + 1)
    } else {
        budget
    };
    let hi1 = if can_next {
        hi + 1
    } else {
        hi
    };
    let can_prev = lo > 0 && ps[lo - 1].len() + 1 <= b1;
    let b2 = if can_prev {
        b1 - (ps[lo - 1].len() + 1)
    } else {
        b1
    };
    let lo1 = if can_prev {
        lo - 1
    } else {
        lo
    };
    if can_next || can_prev {
        if can_next {
            lemma_range_right(ps, lo, hi + 1);
        }
        assert(total_len(ps.subrange(lo, hi1 + 1)) + (hi1 - lo) + b1 == m);
        if can_prev {
            lemma_range_left(ps, lo, hi1);
        }
        assert(total_len(ps.subrange(lo1, hi1 + 1)) + (hi1 - lo1) + b2 == m);
        lemma_grow_within(ps, lo1, hi1, b2, m);
    }
}

/// The excerpt never exceeds the cap, whichever paragraph anchors it.
pub proof fn lemma_excerpt_within_cap(text: Seq<char>, max: nat, a: int)
    requires
        nonblank_lines(trim_seq(text)).len() > 0 ==> 0 <= a < nonblank_lines(trim_seq(text)).len(),
    ensures
        excerpt_with(text, max, a).len() <= max,
{
    let t = trim_seq(text);
    let ps = nonblank_lines(t);
    if t.len() > max && ps.len() > 0 && ps[a].len() <= max {
        let s1 = ps.subrange(a, a + 1);
        assert(s1.drop_last() =~= Seq::<Seq<char>>::empty());
        assert(s1.last() == ps[a]);
        assert(total_len(s1) == total_len(s1.drop_last()) + s1.last().len());
        assert(total_len(Seq::<Seq<char>>::empty()) == 0);
        assert(total_len(ps.subrange(a, a + 1)) == ps[a].len());
        lemma_grow_within(ps, a, a, max - ps[a].len(), max as int);
        let g = grow(ps, a, a, max - ps[a].len());
        lemma_join_len(ps.subrange(g.0, g.1 + 1));
    }
}

} // verus!
