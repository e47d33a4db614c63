//! The grounding gate: every citation in the answer names a fetched source,
//! near-miss citation forms are violations rather than ignored text, every
//! finding carries a fetched source, and the sources kept are exactly those
//! cited, citation order first.
use vstd::prelude::*;
use crate::text::{append_chars, append_decimal, append_str, chars_eq, chars_of, decimal, seqs_of, string_of, strs_of, sub_chars};

verus! {

/// An ASCII digit.
pub open spec fn is_digit(c: char) -> bool {
    '0' <= c && c <= '9'
}

/// The first index at or after `j` that is not a digit.
pub open spec fn digits_end(s: Seq<char>, j: int) -> int
    decreases s.len() - j,
{
    if 0 <= j < s.len() && is_digit(s[j]) {
        digits_end(s, j + 1)
    } else {
        j
    }
}

/// The first `]` at or after `k` and before `end`.
pub open spec fn close_in(s: Seq<char>, k: int, end: int) -> Option<int>
    decreases end - k,
{
    if k >= end {
        None
    } else if 0 <= k < s.len() && s[k] == ']' {
        Some(k)
    } else {
        close_in(s, k + 1, end)
    }
}

/// A citation-like token starts at `i`: `[`, then `s` or `S`, then a digit.
pub open spec fn opens_token(s: Seq<char>, i: int) -> bool {
    0 <= i && i + 2 < s.len() && s[i] == '[' && (s[i + 1] == 's' || s[i + 1] == 'S') && is_digit(
        s[i + 2],
    )
}

pub proof fn lemma_digits_end(s: Seq<char>, j: int)
    requires
        0 <= j <= s.len(),
    ensures
        j <= digits_end(s, j) <= s.len(),
        forall|k: int| j <= k < digits_end(s, j) ==> is_digit(#[trigger] s[k]),
        digits_end(s, j) < s.len() ==> !is_digit(s[digits_end(s, j)]),
    decreases s.len() - j,
{
    if j < s.len() && is_digit(s[j]) {
        lemma_digits_end(s, j + 1);
    }
}

pub proof fn lemma_close_in(s: Seq<char>, k: int, end: int)
    requires
        0 <= k,
        end <= s.len(),
    ensures
        close_in(s, k, end) matches Some(c) ==> k <= c < end && s[c] == ']',
    decreases end - k,
{
    if k < end && s[k] != ']' {
        lemma_close_in(s, k + 1, end);
    }
}

/// The citation ids (with repeats) and the malformed excerpts found from
/// index `i` on. A well-formed citation is `[s` digits `]`; any other token
/// opening like one is malformed, and its excerpt runs to the first `]`
/// within 20 characters, or those 20 characters when there is none.
pub open spec fn scan_from(s: Seq<char>, i: int) -> (Seq<Seq<char>>, Seq<Seq<char>>)
    decreases s.len() - i,
{
    if i < 0 || i >= s.len() {
        (Seq::empty(), Seq::empty())
    } else if opens_token(s, i) {
        let j = digits_end(s, i + 2);
        proof {
            lemma_digits_end(s, i + 2);
        }
        if s[i + 1] == 's' && j < s.len() && s[j] == ']' {
            let rest = scan_from(s, j + 1);
            (seq![s.subrange(i + 1, j)] + rest.0, rest.1)
        } else {
            let end = if i + 20 < s.len() {
                i + 20
            } else {
                s.len() as int
            };
            proof {
                lemma_close_in(s, i, end);
            }
            let c = close_in(s, i, end);
            let excerpt = match c {
                Some(c) => s.subrange(i, c + 1),
                None => s.subrange(i, end),
            };
            let next = match c {
                Some(c) => c + 1,
                None => j,
            };
            let rest = scan_from(s, next);
            (rest.0, seq![excerpt] + rest.1)
        }
    } else {
        scan_from(s, i + 1)
    }
}

/// `ss` with later repeats dropped, first occurrences kept in order.
pub open spec fn dedup_first(ss: Seq<Seq<char>>) -> Seq<Seq<char>>
    decreases ss.len(),
{
    if ss.len() == 0 {
        Seq::empty()
    } else {
        let prev = dedup_first(ss.drop_last());
        if prev.contains(ss.last()) {
            prev
        } else {
            prev.push(ss.last())
        }
    }
}

/// The citation ids of an answer, in order, each once.
pub open spec fn citations(s: Seq<char>) -> Seq<Seq<char>> {
    dedup_first(scan_from(s, 0).0)
}

/// The malformed citation excerpts of an answer, in order.
pub open spec fn malformed(s: Seq<char>) -> Seq<Seq<char>> {
    scan_from(s, 0).1
}

fn digits_end_at(v: &[char], j: usize) -> (r: usize)
    requires
        j <= v@.len(),
    ensures
        r == digits_end(v@, j as int),
        j <= r <= v@.len(),
{
    let mut k: usize = j;
    while k < v.len() && '0' <= v[k] && v[k] <= '9'
        invariant
            j <= k <= v@.len(),
            digits_end(v@, j as int) == digits_end(v@, k as int),
        decreases v@.len() - k,
    {
        k = k + 1;
    }
    k
}

fn close_at(v: &[char], i: usize, end: usize) -> (r: Option<usize>)
    requires
        i <= end <= v@.len(),
    ensures
        r matches Some(c) ==> close_in(v@, i as int, end as int) == Some(c as int),
        r is None ==> close_in(v@, i as int, end as int) is None,
{
    let mut k: usize = i;
    while k < end
        invariant
            i <= k <= end <= v@.len(),
            close_in(v@, i as int, end as int) == close_in(v@, k as int, end as int),
        decreases end - k,
    {
        if v[k] == ']' {
            return Some(k);
        }
        k = k + 1;
    }
    None
}

/// Scan an answer for citation ids (with repeats) and malformed excerpts.
fn scan(v: &[char]) -> (r: (Vec<Vec<char>>, Vec<Vec<char>>))
    ensures
        seqs_of(r.0@) == scan_from(v@, 0).0,
        seqs_of(r.1@) == scan_from(v@, 0).1,
{
    let ghost s = v@;
    let n = v.len();
    let mut valid: Vec<Vec<char>> = Vec::new();
    let mut bad: Vec<Vec<char>> = Vec::new();
    let mut i: usize = 0;
    while i < n
        invariant
            n == s.len(),
            s == v@,
            0 <= i,
            seqs_of(valid@) + scan_from(s, i as int).0 == scan_from(s, 0).0,
            seqs_of(bad@) + scan_from(s, i as int).1 == scan_from(s, 0).1,
        decreases n - i,
    {
        if v[i] == '[' && n - i > 2 && (v[i + 1] == 's' || v[i + 1] == 'S') && '0' <= v[i + 2]
            && v[i + 2] <= '9' {
            assert(opens_token(s, i as int));
            let j = digits_end_at(v, i + 2);
            proof {
                lemma_digits_end(s, i + 2);
            }
            if v[i + 1] == 's' && j < n && v[j] == ']' {
                let id = sub_chars(v, i + 1, j);
                let ghost before = seqs_of(valid@);
                valid.push(id);
                assert(seqs_of(valid@) =~= before.push(s.subrange(i + 1, j as int)));
                assert(seqs_of(valid@) + scan_from(s, j + 1).0 =~= before + scan_from(s, i as int).0);
                i = j + 1;
            } else {
                let end: usize = if n - i > 20 {
                    i + 20
                } else {
                    n
                };
                proof {
                    lemma_close_in(s, i as int, end as int);
                }
                let c = close_at(v, i, end);
                let excerpt = match c {
                    Some(c) => sub_chars(v, i, c + 1),
                    None => sub_chars(v, i, end),
                };
                let next = match c {
                    Some(c) => c + 1,
                    None => j,
                };
                let ghost before = seqs_of(bad@);
                let ghost ex = excerpt@;
                bad.push(excerpt);
                assert(seqs_of(bad@) =~= before.push(ex));
                assert(seqs_of(bad@) + scan_from(s, next as int).1 =~= before + scan_from(s, i as int).1);
                i = next;
            }
        } else {
            i = i + 1;
        }
    }
    assert(scan_from(s, i as int).0 =~= Seq::<Seq<char>>::empty());
    assert(scan_from(s, i as int).1 =~= Seq::<Seq<char>>::empty());
    assert(seqs_of(valid@) + Seq::<Seq<char>>::empty() =~= seqs_of(valid@));
    assert(seqs_of(bad@) + Seq::<Seq<char>>::empty() =~= seqs_of(bad@));
    (valid, bad)
}

/// Whether `w` is one of `ws`.
fn contains_chars(ws: &Vec<Vec<char>>, w: &[char]) -> (r: bool)
    ensures
        r == seqs_of(ws@).contains(w@),
{
    let mut i: usize = 0;
    while i < ws.len()
        invariant
            0 <= i <= ws@.len(),
            forall|k: int| 0 <= k < i ==> seqs_of(ws@)[k] != w@,
        decreases ws@.len() - i,
    {
        if chars_eq(ws[i].as_slice(), w) {
            assert(seqs_of(ws@)[i as int] == w@);
            return true;
        }
        i = i + 1;
    }
    false
}

/// Drop later repeats from `ws`.
fn dedup_chars(ws: &Vec<Vec<char>>) -> (r: Vec<Vec<char>>)
    ensures
        seqs_of(r@) == dedup_first(seqs_of(ws@)),
{
    let ghost w = seqs_of(ws@);
    let mut r: Vec<Vec<char>> = Vec::new();
    let mut i: usize = 0;
    while i < ws.len()
        invariant
            0 <= i <= ws@.len(),
            w == seqs_of(ws@),
            seqs_of(r@) == dedup_first(w.take(i as int)),
        decreases ws@.len() - i,
    {
        assert(w.take(i + 1).drop_last() =~= w.take(i as int));
        assert(w.take(i + 1).last() == ws@[i as int]@);
        if !contains_chars(&r, ws[i].as_slice()) {
            let ghost before = seqs_of(r@);
            let c = ws[i].clone();
            r.push(c);
            assert(seqs_of(r@) =~= before.push(ws@[i as int]@));
        }
        i = i + 1;
    }
    assert(w.take(ws@.len() as int) =~= w);
    r
}

/// The citation tokens of an answer, in order, each once.
pub fn citation_tokens(answer: &str) -> (r: Vec<String>)
    ensures
        strs_of(r@) == citations(answer@),
{
    let v = chars_of(answer);
    let (valid, _bad) = scan(v.as_slice());
    let d = dedup_chars(&valid);
    strings_of(&d)
}

/// Strings holding each character vector.
fn strings_of(ws: &Vec<Vec<char>>) -> (r: Vec<String>)
    ensures
        strs_of(r@) == seqs_of(ws@),
{
    let mut r: Vec<String> = Vec::new();
    let mut i: usize = 0;
    while i < ws.len()
        invariant
            0 <= i <= ws@.len(),
            strs_of(r@) == seqs_of(ws@).take(i as int),
        decreases ws@.len() - i,
    {
        let ghost before = strs_of(r@);
        r.push(string_of(ws[i].as_slice()));
        assert(seqs_of(ws@).take(i + 1) =~= seqs_of(ws@).take(i as int).push(ws@[i as int]@));
        assert(strs_of(r@) =~= seqs_of(ws@).take(i + 1));
        i = i + 1;
    }
    assert(seqs_of(ws@).take(ws@.len() as int) =~= seqs_of(ws@));
    r
}

/// The sources a grounded answer keeps.
#[derive(Debug, Clone)]
pub struct Grounded {
    /// The cited sources: citation order first, then sources only findings
    /// name, each once.
    pub kept_source_ids: Vec<String>,
}

/// The violation for a malformed citation.
pub open spec fn malformed_message(m: Seq<char>) -> Seq<char> {
    "the answer contains a malformed citation "@ + crate::text::debug_str(m)
        + " \u{2014} cite exactly one source per token in the form [s3]"@
}

/// The violation for a citation of a source not fetched.
pub open spec fn uncited_message(id: Seq<char>) -> Seq<char> {
    "the answer cites ["@ + id + "] but no source "@ + id + " was fetched in this run"@
}

/// The violation for a finding with no source.
pub open spec fn no_source_message(i: nat) -> Seq<char> {
    "finding "@ + decimal(i) + " carries no source"@
}

/// The violation for a finding naming a source not fetched.
pub open spec fn unfetched_message(i: nat, id: Seq<char>) -> Seq<char> {
    "finding "@ + decimal(i) + " references source "@ + id + ", which was not fetched in this run"@
}

/// The violations for the answer's citations that were not fetched.
pub open spec fn citation_violations(cs: Seq<Seq<char>>, fetched: Seq<Seq<char>>) -> Seq<Seq<char>>
    decreases cs.len(),
{
    if cs.len() == 0 {
        Seq::empty()
    } else {
        let prev = citation_violations(cs.drop_last(), fetched);
        if fetched.contains(cs.last()) {
            prev
        } else {
            prev.push(uncited_message(cs.last()))
        }
    }
}

/// The violations for finding `i`'s sources that were not fetched.
pub open spec fn id_violations(i: nat, ids: Seq<Seq<char>>, fetched: Seq<Seq<char>>) -> Seq<Seq<char>>
    decreases ids.len(),
{
    if ids.len() == 0 {
        Seq::empty()
    } else {
        let prev = id_violations(i, ids.drop_last(), fetched);
        if fetched.contains(ids.last()) {
            prev
        } else {
            prev.push(unfetched_message(i, ids.last()))
        }
    }
}

/// The violations for every finding, in finding order.
pub open spec fn finding_violations(fs: Seq<Seq<Seq<char>>>, fetched: Seq<Seq<char>>) -> Seq<Seq<char>>
    decreases fs.len(),
{
    if fs.len() == 0 {
        Seq::empty()
    } else {
        let i = (fs.len() - 1) as nat;
        let ids = fs.last();
        finding_violations(fs.drop_last(), fetched) + (if ids.len() == 0 {
            seq![no_source_message(i)]
        } else {
            Seq::empty()
        }) + id_violations(i, ids, fetched)
    }
}

/// Every violation, in the order they are reported.
pub open spec fn violations(answer: Seq<char>, fs: Seq<Seq<Seq<char>>>, fetched: Seq<Seq<char>>) -> Seq<Seq<char>> {
    malformed(answer).map_values(|m: Seq<char>| malformed_message(m)) + citation_violations(
        citations(answer),
        fetched,
    ) + finding_violations(fs, fetched)
}

/// `acc` extended by the ids of `ids` it does not hold yet, in order.
pub open spec fn add_new(acc: Seq<Seq<char>>, ids: Seq<Seq<char>>) -> Seq<Seq<char>>
    decreases ids.len(),
{
    if ids.len() == 0 {
        acc
    } else {
        let prev = add_new(acc, ids.drop_last());
        if prev.contains(ids.last()) {
            prev
        } else {
            prev.push(ids.last())
        }
    }
}

/// `acc` extended by every finding's new ids, in finding order.
pub open spec fn add_all(acc: Seq<Seq<char>>, fs: Seq<Seq<Seq<char>>>) -> Seq<Seq<char>>
    decreases fs.len(),
{
    if fs.len() == 0 {
        acc
    } else {
        add_new(add_all(acc, fs.drop_last()), fs.last())
    }
}

/// The findings' source ids as plain values.
pub open spec fn findings_view(fs: Seq<Vec<String>>) -> Seq<Seq<Seq<char>>> {
    fs.map_values(|v: Vec<String>| strs_of(v@))
}

/// Whether `id` is one of the fetched ids.
fn is_fetched(fetched: &Vec<String>, id: &[char]) -> (r: bool)
    ensures
        r == strs_of(fetched@).contains(id@),
{
    let mut i: usize = 0;
    while i < fetched.len()
        invariant
            0 <= i <= fetched@.len(),
            forall|k: int| 0 <= k < i ==> strs_of(fetched@)[k] != id@,
        decreases fetched@.len() - i,
    {
        let f = chars_of(fetched[i].as_str());
        if chars_eq(f.as_slice(), id) {
            assert(strs_of(fetched@)[i as int] == id@);
            return true;
        }
        i = i + 1;
    }
    false
}

/// Check the answer and the findings against the sources fetched in this
/// run: every violation is reported, in order; with none, the kept sources
/// are the answer's citations, then the sources only findings name.
pub fn ground(answer: &str, finding_source_ids: &Vec<Vec<String>>, fetched_ids: &Vec<String>) -> (r: Result<Grounded, Vec<String>>)
    ensures
        ({
            let v = violations(
                answer@,
                findings_view(finding_source_ids@),
                strs_of(fetched_ids@),
            );
            &&& v.len() > 0 ==> (r matches Err(e) && strs_of(e@) == v)
            &&& v.len() == 0 ==> (r matches Ok(g) && strs_of(g.kept_source_ids@) == add_all(
                citations(answer@),
                findings_view(finding_source_ids@),
            ))
        }),
{
    let ghost fetched = strs_of(fetched_ids@);
    let ghost fv = findings_view(finding_source_ids@);
    let av = chars_of(answer);
    let (valid, bad) = scan(av.as_slice());
    let cites = dedup_chars(&valid);
    let mut out: Vec<Vec<char>> = Vec::new();
    let mut i: usize = 0;
    while i < bad.len()
        invariant
            0 <= i <= bad@.len(),
            seqs_of(bad@) == malformed(answer@),
            seqs_of(out@) == malformed(answer@).take(i as int).map_values(
                |m: Seq<char>| malformed_message(m),
            ),
        decreases bad@.len() - i,
    {
        let mut m = chars_of("the answer contains a malformed citation ");
        let excerpt = string_of(bad[i].as_slice());
        let q = crate::text::debug_quote(excerpt.as_str());
        append_str(&mut m, q.as_str());
        append_str(&mut m, " \u{2014} cite exactly one source per token in the form [s3]");
        let ghost before = seqs_of(out@);
        let ghost mv = m@;
        out.push(m);
        assert(seqs_of(out@) =~= before.push(mv));
        assert(malformed(answer@).take(i + 1) =~= malformed(answer@).take(i as int).push(
            bad@[i as int]@,
        ));
        assert(seqs_of(out@) =~= malformed(answer@).take(i + 1).map_values(
            |m: Seq<char>| malformed_message(m),
        ));
        i = i + 1;
    }
    assert(malformed(answer@).take(bad@.len() as int) =~= malformed(answer@));
    let ghost part1 = seqs_of(out@);
    let mut i: usize = 0;
    while i < cites.len()
        invariant
            0 <= i <= cites@.len(),
            seqs_of(cites@) == citations(answer@),
            fetched == strs_of(fetched_ids@),
            seqs_of(out@) == part1 + citation_violations(seqs_of(cites@).take(i as int), fetched),
        decreases cites@.len() - i,
    {
        assert(seqs_of(cites@).take(i + 1).drop_last() =~= seqs_of(cites@).take(i as int));
        assert(seqs_of(cites@).take(i + 1).last() == cites@[i as int]@);
        if !is_fetched(fetched_ids, cites[i].as_slice()) {
            let mut m = chars_of("the answer cites [");
            append_chars(&mut m, cites[i].as_slice());
            append_str(&mut m, "] but no source ");
            append_chars(&mut m, cites[i].as_slice());
            append_str(&mut m, " was fetched in this run");
            let ghost before = seqs_of(out@);
            let ghost mv = m@;
            out.push(m);
            assert(seqs_of(out@) =~= before.push(mv));
        }
        i = i + 1;
    }
    assert(seqs_of(cites@).take(cites@.len() as int) =~= seqs_of(cites@));
    let ghost part2 = seqs_of(out@);
    let mut f: usize = 0;
    while f < finding_source_ids.len()
        invariant
            0 <= f <= finding_source_ids@.len(),
            fv == findings_view(finding_source_ids@),
            fetched == strs_of(fetched_ids@),
            seqs_of(out@) == part2 + finding_violations(fv.take(f as int), fetched),
        decreases finding_source_ids@.len() - f,
    {
        let ids = &finding_source_ids[f];
        let ghost idv = strs_of(ids@);
        assert(fv.take(f + 1).drop_last() =~= fv.take(f as int));
        assert(fv.take(f + 1).last() == idv);
        let ghost base = seqs_of(out@);
        if ids.len() == 0 {
            let mut m = chars_of("finding ");
            append_decimal(&mut m, f as u64);
            append_str(&mut m, " carries no source");
            let ghost mv = m@;
            out.push(m);
            assert(seqs_of(out@) =~= base.push(mv));
        }
        let ghost mid = seqs_of(out@);
        assert(mid == base + (if idv.len() == 0 {
            seq![no_source_message(f as nat)]
        } else {
            Seq::<Seq<char>>::empty()
        }));
        let mut k: usize = 0;
        while k < ids.len()
            invariant
                0 <= k <= ids@.len(),
                idv == strs_of(ids@),
                fetched == strs_of(fetched_ids@),
                seqs_of(out@) == mid + id_violations(f as nat, idv.take(k as int), fetched),
            decreases ids@.len() - k,
        {
            assert(idv.take(k + 1).drop_last() =~= idv.take(k as int));
            assert(idv.take(k + 1).last() == ids@[k as int]@);
            let id = chars_of(ids[k].as_str());
            if !is_fetched(fetched_ids, id.as_slice()) {
                let mut m = chars_of("finding ");
                append_decimal(&mut m, f as u64);
                append_str(&mut m, " references source ");
                append_chars(&mut m, id.as_slice());
                append_str(&mut m, ", which was not fetched in this run");
                let ghost before = seqs_of(out@);
                let ghost mv = m@;
                out.push(m);
                assert(seqs_of(out@) =~= before.push(mv));
            }
            k = k + 1;
        }
        assert(idv.take(ids@.len() as int) =~= idv);
        assert(seqs_of(out@) =~= part2 + finding_violations(fv.take(f + 1), fetched));
        f = f + 1;
    }
    assert(fv.take(finding_source_ids@.len() as int) =~= fv);
    if out.len() > 0 {
        return Err(strings_of(&out));
    }
    let mut kept: Vec<Vec<char>> = cites;
    let mut f: usize = 0;
    while f < finding_source_ids.len()
        invariant
            0 <= f <= finding_source_ids@.len(),
            fv == findings_view(finding_source_ids@),
            seqs_of(kept@) == add_all(citations(answer@), fv.take(f as int)),
        decreases finding_source_ids@.len() - f,
    {
        let ids = &finding_source_ids[f];
        let ghost idv = strs_of(ids@);
        assert(fv.take(f + 1).drop_last() =~= fv.take(f as int));
        assert(fv.take(f + 1).last() == idv);
        let ghost base = seqs_of(kept@);
        let mut k: usize = 0;
        while k < ids.len()
            invariant
                0 <= k <= ids@.len(),
                idv == strs_of(ids@),
                seqs_of(kept@) == add_new(base, idv.take(k as int)),
            decreases ids@.len() - k,
        {
            assert(idv.take(k + 1).drop_last() =~= idv.take(k as int));
            assert(idv.take(k + 1).last() == ids@[k as int]@);
            let id = chars_of(ids[k].as_str());
            if !contains_chars(&kept, id.as_slice()) {
                let ghost before = seqs_of(kept@);
                let ghost iv = id@;
                kept.push(id);
                assert(seqs_of(kept@) =~= before.push(iv));
            }
            k = k + 1;
        }
        assert(idv.take(ids@.len() as int) =~= idv);
        f = f + 1;
    }
    assert(fv.take(finding_source_ids@.len() as int) =~= fv);
    Ok(Grounded { kept_source_ids: strings_of(&kept) })
}


proof fn lemma_no_citation_violation(cs: Seq<Seq<char>>, fetched: Seq<Seq<char>>)
    requires
        citation_violations(cs, fetched).len() == 0,
    ensures
        forall|k: int| 0 <= k < cs.len() ==> fetched.contains(#[trigger] cs[k]),
    decreases cs.len(),
{
    if cs.len() > 0 {
        lemma_no_citation_violation(cs.drop_last(), fetched);
        assert forall|k: int| 0 <= k < cs.len() implies fetched.contains(#[trigger] cs[k]) by {
            if k < cs.len() - 1 {
                assert(cs.drop_last()[k] == cs[k]);
            }
        }
    }
}

proof fn lemma_no_id_violation(i: nat, ids: Seq<Seq<char>>, fetched: Seq<Seq<char>>)
    requires
        id_violations(i, ids, fetched).len() == 0,
    ensures
        forall|k: int| 0 <= k < ids.len() ==> fetched.contains(#[trigger] ids[k]),
    decreases ids.len(),
{
    if ids.len() > 0 {
        lemma_no_id_violation(i, ids.drop_last(), fetched);
        assert forall|k: int| 0 <= k < ids.len() implies fetched.contains(#[trigger] ids[k]) by {
            if k < ids.len() - 1 {
                assert(ids.drop_last()[k] == ids[k]);
            }
        }
    }
}

proof fn lemma_no_finding_violation(fs: Seq<Seq<Seq<char>>>, fetched: Seq<Seq<char>>)
    requires
        finding_violations(fs, fetched).len() == 0,
    ensures
        forall|f: int, k: int|
            0 <= f < fs.len() && 0 <= k < fs[f].len() ==> fetched.contains(#[trigger] fs[f][k]),
        forall|f: int| 0 <= f < fs.len() ==> (#[trigger] fs[f]).len() > 0,
    decreases fs.len(),
{
    if fs.len() > 0 {
        let i = (fs.len() - 1) as nat;
        lemma_no_finding_violation(fs.drop_last(), fetched);
        lemma_no_id_violation(i, fs.last(), fetched);
        assert forall|f: int, k: int|
            0 <= f < fs.len() && 0 <= k < fs[f].len() implies fetched.contains(#[trigger] fs[f][k]) by {
            if f < fs.len() - 1 {
                assert(fs.drop_last()[f] == fs[f]);
            }
        }
        assert forall|f: int| 0 <= f < fs.len() implies (#[trigger] fs[f]).len() > 0 by {
            if f < fs.len() - 1 {
                assert(fs.drop_last()[f] == fs[f]);
            }
        }
    }
}

/// An id is one of the findings' sources.
pub open spec fn named_by_finding(fs: Seq<Seq<Seq<char>>>, id: Seq<char>) -> bool {
    exists|f: int| 0 <= f < fs.len() && (#[trigger] fs[f]).contains(id)
}

proof fn lemma_add_new_from(acc: Seq<Seq<char>>, ids: Seq<Seq<char>>)
    ensures
        forall|k: int|
            0 <= k < add_new(acc, ids).len() ==> acc.contains(#[trigger] add_new(acc, ids)[k])
                || ids.contains(add_new(acc, ids)[k]),
        add_new(acc, ids).len() >= acc.len(),
        forall|k: int| 0 <= k < acc.len() ==> add_new(acc, ids)[k] == acc[k],
    decreases ids.len(),
{
    if ids.len() > 0 {
        lemma_add_new_from(acc, ids.drop_last());
        let prev = add_new(acc, ids.drop_last());
        assert forall|k: int|
            0 <= k < add_new(acc, ids).len() implies acc.contains(#[trigger] add_new(acc, ids)[k])
                || ids.contains(add_new(acc, ids)[k]) by {
            if k < prev.len() {
                assert(add_new(acc, ids)[k] == prev[k]);
                if ids.drop_last().contains(prev[k]) {
                    let m = choose|m: int| 0 <= m < ids.drop_last().len() && ids.drop_last()[m] == prev[k];
                    assert(ids[m] == prev[k]);
                }
            } else {
                assert(add_new(acc, ids)[k] == ids.last());
                assert(ids[ids.len() - 1] == ids.last());
            }
        }
    }
}

proof fn lemma_add_all_from(acc: Seq<Seq<char>>, fs: Seq<Seq<Seq<char>>>)
    ensures
        forall|k: int|
            0 <= k < add_all(acc, fs).len() ==> acc.contains(#[trigger] add_all(acc, fs)[k])
                || named_by_finding(fs, add_all(acc, fs)[k]),
    decreases fs.len(),
{
    if fs.len() > 0 {
        lemma_add_all_from(acc, fs.drop_last());
        let prev = add_all(acc, fs.drop_last());
        lemma_add_new_from(prev, fs.last());
        assert forall|k: int|
            0 <= k < add_all(acc, fs).len() implies acc.contains(#[trigger] add_all(acc, fs)[k])
                || named_by_finding(fs, add_all(acc, fs)[k]) by {
            let x = add_all(acc, fs)[k];
            if prev.contains(x) {
                let m = choose|m: int| 0 <= m < prev.len() && prev[m] == x;
                if named_by_finding(fs.drop_last(), prev[m]) {
                    let f = choose|f: int|
                        0 <= f < fs.drop_last().len() && (#[trigger] fs.drop_last()[f]).contains(prev[m]);
                    assert(fs[f] == fs.drop_last()[f]);
                }
            } else {
                assert(fs.last().contains(x));
                assert(fs[fs.len() - 1] == fs.last());
            }
        }
    }
}

/// When no violation is found, every source the answer keeps was fetched in this
/// run and is cited by the answer or named by a finding; every finding
/// carries a source.
pub proof fn lemma_grounded_sources_were_fetched(
    answer: Seq<char>,
    fs: Seq<Seq<Seq<char>>>,
    fetched: Seq<Seq<char>>,
)
    requires
        violations(answer, fs, fetched).len() == 0,
    ensures
        ({
            let kept = add_all(citations(answer), fs);
            &&& forall|k: int| 0 <= k < kept.len() ==> fetched.contains(#[trigger] kept[k])
            &&& forall|k: int|
                0 <= k < kept.len() ==> citations(answer).contains(#[trigger] kept[k])
                    || named_by_finding(fs, kept[k])
            &&& forall|f: int| 0 <= f < fs.len() ==> (#[trigger] fs[f]).len() > 0
        }),
{
    let cs = citations(answer);
    let m = malformed(answer).map_values(|m: Seq<char>| malformed_message(m));
    let c = citation_violations(cs, fetched);
    let f = finding_violations(fs, fetched);
    assert(violations(answer, fs, fetched) == m + c + f);
    assert(c.len() == 0 && f.len() == 0);
    lemma_no_citation_violation(cs, fetched);
    lemma_no_finding_violation(fs, fetched);
    lemma_add_all_from(cs, fs);
    let kept = add_all(cs, fs);
    assert forall|k: int| 0 <= k < kept.len() implies fetched.contains(#[trigger] kept[k]) by {
        if cs.contains(kept[k]) {
            let j = choose|j: int| 0 <= j < cs.len() && cs[j] == kept[k];
            assert(fetched.contains(cs[j]));
        } else {
            let g = choose|g: int| 0 <= g < fs.len() && (#[trigger] fs[g]).contains(kept[k]);
            let j = choose|j: int| 0 <= j < fs[g].len() && fs[g][j] == kept[k];
            assert(fetched.contains(fs[g][j]));
        }
    }
}

/// Keeping first occurrences leaves no repeat.
proof fn lemma_dedup_first_distinct(ss: Seq<Seq<char>>)
    ensures
        dedup_first(ss).no_duplicates(),
    decreases ss.len(),
{
    if ss.len() > 0 {
        lemma_dedup_first_distinct(ss.drop_last());
    }
}

/// Adding only ids not held yet keeps a list free of repeats, and keeps
/// what it held in front.
proof fn lemma_add_new_distinct(acc: Seq<Seq<char>>, ids: Seq<Seq<char>>)
    requires
        acc.no_duplicates(),
    ensures
        add_new(acc, ids).no_duplicates(),
    decreases ids.len(),
{
    if ids.len() > 0 {
        lemma_add_new_distinct(acc, ids.drop_last());
    }
}

/// Adding every finding's new ids keeps a list free of repeats and keeps
/// what it held in front, in order.
proof fn lemma_add_all_keeps(acc: Seq<Seq<char>>, fs: Seq<Seq<Seq<char>>>)
    ensures
        acc.no_duplicates() ==> add_all(acc, fs).no_duplicates(),
        add_all(acc, fs).len() >= acc.len(),
        forall|k: int| 0 <= k < acc.len() ==> #[trigger] add_all(acc, fs)[k] == acc[k],
    decreases fs.len(),
{
    if fs.len() > 0 {
        lemma_add_all_keeps(acc, fs.drop_last());
        let prev = add_all(acc, fs.drop_last());
        lemma_add_new_from(prev, fs.last());
        if acc.no_duplicates() {
            lemma_add_new_distinct(prev, fs.last());
        }
        assert forall|k: int| 0 <= k < acc.len() implies #[trigger] add_all(acc, fs)[k] == acc[k] by {
            assert(add_all(acc, fs)[k] == prev[k]);
        }
    }
}

/// Citations that were all fetched raise no violation.
proof fn lemma_fetched_citations_pass(cs: Seq<Seq<char>>, fetched: Seq<Seq<char>>)
    requires
        forall|k: int| 0 <= k < cs.len() ==> fetched.contains(#[trigger] cs[k]),
    ensures
        citation_violations(cs, fetched).len() == 0,
    decreases cs.len(),
{
    if cs.len() > 0 {
        assert forall|k: int| 0 <= k < cs.drop_last().len() implies fetched.contains(#[trigger] cs.drop_last()[k]) by {
            assert(cs.drop_last()[k] == cs[k]);
        }
        lemma_fetched_citations_pass(cs.drop_last(), fetched);
        assert(fetched.contains(cs[cs.len() - 1]));
    }
}

/// A finding's ids that were all fetched raise no violation.
proof fn lemma_fetched_ids_pass(i: nat, ids: Seq<Seq<char>>, fetched: Seq<Seq<char>>)
    requires
        forall|k: int| 0 <= k < ids.len() ==> fetched.contains(#[trigger] ids[k]),
    ensures
        id_violations(i, ids, fetched).len() == 0,
    decreases ids.len(),
{
    if ids.len() > 0 {
        assert forall|k: int| 0 <= k < ids.drop_last().len() implies fetched.contains(#[trigger] ids.drop_last()[k]) by {
            assert(ids.drop_last()[k] == ids[k]);
        }
        lemma_fetched_ids_pass(i, ids.drop_last(), fetched);
        assert(fetched.contains(ids[ids.len() - 1]));
    }
}

/// Findings that each name sources, all fetched, raise no violation.
proof fn lemma_fetched_findings_pass(fs: Seq<Seq<Seq<char>>>, fetched: Seq<Seq<char>>)
    requires
        forall|f: int| 0 <= f < fs.len() ==> (#[trigger] fs[f]).len() > 0,
        forall|f: int, k: int| 0 <= f < fs.len() && 0 <= k < fs[f].len() ==> fetched.contains(#[trigger] fs[f][k]),
    ensures
        finding_violations(fs, fetched).len() == 0,
    decreases fs.len(),
{
    if fs.len() > 0 {
        let d = fs.drop_last();
        assert forall|f: int| 0 <= f < d.len() implies (#[trigger] d[f]).len() > 0 by {
            assert(d[f] == fs[f]);
        }
        assert forall|f: int, k: int| 0 <= f < d.len() && 0 <= k < d[f].len() implies fetched.contains(#[trigger] d[f][k]) by {
            assert(d[f] == fs[f]);
        }
        lemma_fetched_findings_pass(d, fetched);
        let last = fs.last();
        assert(last == fs[fs.len() - 1]);
        assert forall|k: int| 0 <= k < last.len() implies fetched.contains(#[trigger] last[k]) by {
            assert(fetched.contains(fs[fs.len() - 1][k]));
        }
        lemma_fetched_ids_pass((fs.len() - 1) as nat, last, fetched);
        assert(last.len() > 0);
    }
}

/// Grounding succeeds exactly when the answer holds no malformed citation
/// (a near miss of `[s<digits>]`), every source it cites was fetched, and
/// every finding names at least one source, all of them fetched.
pub proof fn lemma_grounding_succeeds_exactly_when(answer: Seq<char>, fs: Seq<Seq<Seq<char>>>, fetched: Seq<Seq<char>>)
    ensures
        violations(answer, fs, fetched).len() == 0 <==> {
            &&& malformed(answer).len() == 0
            &&& forall|k: int| 0 <= k < citations(answer).len() ==> fetched.contains(#[trigger] citations(answer)[k])
            &&& forall|f: int| 0 <= f < fs.len() ==> (#[trigger] fs[f]).len() > 0
            &&& forall|f: int, k: int|
                0 <= f < fs.len() && 0 <= k < fs[f].len() ==> fetched.contains(#[trigger] fs[f][k])
        },
{
    let cs = citations(answer);
    let m = malformed(answer).map_values(|m: Seq<char>| malformed_message(m));
    let c = citation_violations(cs, fetched);
    let f = finding_violations(fs, fetched);
    assert(violations(answer, fs, fetched) == m + c + f);
    if violations(answer, fs, fetched).len() == 0 {
        lemma_no_citation_violation(cs, fetched);
        lemma_no_finding_violation(fs, fetched);
    }
    if malformed(answer).len() == 0 && (forall|k: int| 0 <= k < cs.len() ==> fetched.contains(#[trigger] cs[k]))
        && (forall|g: int| 0 <= g < fs.len() ==> (#[trigger] fs[g]).len() > 0) && (forall|g: int, k: int|
        0 <= g < fs.len() && 0 <= k < fs[g].len() ==> fetched.contains(#[trigger] fs[g][k])) {
        lemma_fetched_citations_pass(cs, fetched);
        lemma_fetched_findings_pass(fs, fetched);
    }
}

/// The sources a grounded answer keeps: no id twice, the answer's
/// citations first and in citation order, then the ids only findings name;
/// every kept id was fetched and is cited or named by a finding.
pub proof fn lemma_kept_sources_are_ordered(answer: Seq<char>, fs: Seq<Seq<Seq<char>>>, fetched: Seq<Seq<char>>)
    requires
        violations(answer, fs, fetched).len() == 0,
    ensures
        ({
            let kept = add_all(citations(answer), fs);
            &&& kept.no_duplicates()
            &&& kept.len() >= citations(answer).len()
            &&& kept.take(citations(answer).len() as int) == citations(answer)
            &&& forall|k: int| 0 <= k < kept.len() ==> fetched.contains(#[trigger] kept[k])
            &&& forall|k: int|
                0 <= k < kept.len() ==> citations(answer).contains(#[trigger] kept[k])
                    || named_by_finding(fs, kept[k])
        }),
{
    let cs = citations(answer);
    lemma_dedup_first_distinct(scan_from(answer, 0).0);
    lemma_add_all_keeps(cs, fs);
    lemma_grounded_sources_were_fetched(answer, fs, fetched);
    assert(add_all(cs, fs).take(cs.len() as int) =~= cs);
}

} // verus!
