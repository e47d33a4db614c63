//! The deterministic steps between a research run's phases: merging the
//! angle searches into candidate sources, the domain pre-filter, source ids,
//! the claim deduplication the verification fans out over, and the answer
//! when nothing was verified.
use vstd::prelude::*;
use crate::error::AppError;
use crate::research::fetch::{any_domain_matches, any_matches, host_of, url_host};
use crate::research::{claim_key, spec_claim_key, spec_url_key, url_key, Claim};
use crate::text::{
    append_decimal, chars_lt, chars_of, decimal, lemma_seq_lt_strict, lemma_seq_lt_total, seq_lt,
    str_eq, string_of, strs_of,
};

verus! {

/// One search result.
#[derive(Debug, Clone)]
pub struct SearchHit {
    /// The result's URL.
    pub url: String,
    /// The result's title.
    pub title: String,
}

/// Search results as plain values.
pub open spec fn hits_of(v: Seq<SearchHit>) -> Seq<(Seq<char>, Seq<char>)> {
    v.map_values(|h: SearchHit| (h.url@, h.title@))
}

/// The results of the searches that succeeded, in order.
pub open spec fn found(o: Seq<Result<Vec<SearchHit>, AppError>>) -> Seq<(Seq<char>, Seq<char>)>
    decreases o.len(),
{
    if o.len() == 0 {
        Seq::empty()
    } else {
        found(o.drop_last()) + match o.last() {
            Ok(v) => hits_of(v@),
            Err(_) => Seq::empty(),
        }
    }
}

/// How many searches succeeded.
pub open spec fn succeeded(o: Seq<Result<Vec<SearchHit>, AppError>>) -> nat
    decreases o.len(),
{
    if o.len() == 0 {
        0
    } else {
        succeeded(o.drop_last()) + if o.last() is Ok {
            1nat
        } else {
            0nat
        }
    }
}

/// The index of the first failed search.
pub open spec fn first_failure(o: Seq<Result<Vec<SearchHit>, AppError>>) -> Option<int>
    decreases o.len(),
{
    if o.len() == 0 {
        None
    } else {
        match first_failure(o.drop_last()) {
            Some(i) => Some(i),
            None => if o.last() is Err {
                Some(o.len() - 1)
            } else {
                None
            },
        }
    }
}

/// Some result of `hs` has dedup key `k`.
pub open spec fn key_seen(hs: Seq<(Seq<char>, Seq<char>)>, k: Seq<char>) -> bool {
    exists|i: int| 0 <= i < hs.len() && spec_url_key(hs[i].0) == k
}

/// Each URL once by its dedup key, at its first occurrence.
pub open spec fn unique_urls(hs: Seq<(Seq<char>, Seq<char>)>) -> Seq<(Seq<char>, Seq<char>)>
    decreases hs.len(),
{
    if hs.len() == 0 {
        hs
    } else {
        let prev = unique_urls(hs.drop_last());
        if key_seen(prev, spec_url_key(hs.last().0)) {
            prev
        } else {
            prev.push(hs.last())
        }
    }
}

/// Merge the angle searches: the candidates are the results of the
/// searches that succeeded, each URL once by its dedup key at its first
/// occurrence, with the number of searches that succeeded. When none
/// succeeded, the first failure is the run's.
pub fn merge_searches(outcomes: Vec<Result<Vec<SearchHit>, AppError>>) -> (r: Result<(Vec<SearchHit>, usize), AppError>)
    ensures
        succeeded(outcomes@) == 0 && first_failure(outcomes@) is Some ==> ({
            let i = first_failure(outcomes@).unwrap();
            r matches Err(e) && outcomes@[i] == Err::<Vec<SearchHit>, AppError>(e)
        }),
        !(succeeded(outcomes@) == 0 && first_failure(outcomes@) is Some) ==> (r matches Ok((c, n))
            && hits_of(c@) == unique_urls(found(outcomes@)) && n == succeeded(outcomes@)),
{
    let ghost o = outcomes@;
    let mut out: Vec<SearchHit> = Vec::new();
    let mut seen: Vec<String> = Vec::new();
    let mut n: usize = 0;
    let mut first_err: Option<usize> = None;
    let mut i: usize = 0;
    while i < outcomes.len()
        invariant
            0 <= i <= o.len(),
            o == outcomes@,
            n == succeeded(o.take(i as int)),
            n <= i,
            first_err == match first_failure(o.take(i as int)) {
                Some(k) => Some(k as usize),
                None => None::<usize>,
            },
            first_failure(o.take(i as int)) matches Some(k) ==> 0 <= k < i,
            hits_of(out@) == unique_urls(found(o.take(i as int))),
            seen@.len() == out@.len(),
            forall|k: int| 0 <= k < seen@.len() ==> #[trigger] seen@[k]@ == spec_url_key(out@[k].url@),
        decreases o.len() - i,
    {
        let ghost t = o.take(i + 1);
        assert(t.drop_last() =~= o.take(i as int));
        assert(t.last() == o[i as int]);
        match &outcomes[i] {
            Ok(v) => {
                let ghost pre = found(o.take(i as int));
                let mut j: usize = 0;
                while j < v.len()
                    invariant
                        0 <= j <= v@.len(),
                        hits_of(out@) == unique_urls(pre + hits_of(v@).take(j as int)),
                        seen@.len() == out@.len(),
                        forall|k: int| 0 <= k < seen@.len() ==> #[trigger] seen@[k]@ == spec_url_key(out@[k].url@),
                    decreases v@.len() - j,
                {
                    let ghost next = pre + hits_of(v@).take(j + 1);
                    assert(next.drop_last() =~= pre + hits_of(v@).take(j as int));
                    assert(next.last() == (v@[j as int].url@, v@[j as int].title@));
                    let key = url_key(v[j].url.as_str());
                    let mut dup = false;
                    let mut k: usize = 0;
                    while k < seen.len()
                        invariant
                            0 <= k <= seen@.len(),
                            seen@.len() == out@.len(),
                            !dup ==> forall|m: int| 0 <= m < k ==> seen@[m]@ != key@,
                            dup ==> exists|m: int| 0 <= m < seen@.len() && seen@[m]@ == key@,
                        decreases seen@.len() - k,
                    {
                        if str_eq(seen[k].as_str(), key.as_str()) {
                            dup = true;
                        }
                        k = k + 1;
                    }
                    let ghost prev = hits_of(out@);
                    if dup {
                        proof {
                            let m = choose|m: int| 0 <= m < seen@.len() && seen@[m]@ == key@;
                            assert(spec_url_key(prev[m].0) == key@);
                        }
                    } else {
                        assert(!key_seen(prev, key@)) by {
                            if key_seen(prev, key@) {
                                let m = choose|m: int| 0 <= m < prev.len() && spec_url_key(prev[m].0) == key@;
                                assert(seen@[m]@ == spec_url_key(out@[m].url@));
                            }
                        }
                        let hit = SearchHit { url: v[j].url.clone(), title: v[j].title.clone() };
                        out.push(hit);
                        seen.push(key);
                        assert(hits_of(out@) =~= prev.push(next.last()));
                    }
                    j = j + 1;
                }
                assert(hits_of(v@).take(v@.len() as int) =~= hits_of(v@));
                n = n + 1;
            },
            Err(_) => {
                assert(found(t) =~= found(o.take(i as int)));
                if first_err.is_none() {
                    first_err = Some(i);
                }
            },
        }
        i = i + 1;
    }
    assert(o.take(o.len() as int) =~= o);
    if n == 0 {
        match first_err {
            Some(k) => {
                let mut rest = outcomes;
                let x = rest.remove(k);
                match x {
                    Err(e) => {
                        return Err(e);
                    },
                    Ok(_) => {
                        proof {
                            lemma_first_failure(o);
                        }
                        assert(false);
                        return Ok((out, n));
                    },
                }
            },
            None => {},
        }
    }
    Ok((out, n))
}

/// The first failure is a failure.
proof fn lemma_first_failure(o: Seq<Result<Vec<SearchHit>, AppError>>)
    ensures
        first_failure(o) matches Some(i) ==> 0 <= i < o.len() && o[i] is Err,
    decreases o.len(),
{
    if o.len() > 0 {
        lemma_first_failure(o.drop_last());
    }
}

/// No two merged candidates share a dedup key, and every candidate is one
/// of the results it was merged from.
pub proof fn lemma_unique_urls_distinct(hs: Seq<(Seq<char>, Seq<char>)>)
    ensures
        forall|i: int, j: int|
            0 <= i < j < unique_urls(hs).len() ==> spec_url_key(#[trigger] unique_urls(hs)[i].0)
                != spec_url_key(#[trigger] unique_urls(hs)[j].0),
        forall|i: int| 0 <= i < unique_urls(hs).len() ==> hs.contains(#[trigger] unique_urls(hs)[i]),
    decreases hs.len(),
{
    if hs.len() > 0 {
        let d = hs.drop_last();
        lemma_unique_urls_distinct(d);
        let prev = unique_urls(d);
        let u = unique_urls(hs);
        assert forall|i: int| 0 <= i < u.len() implies hs.contains(#[trigger] u[i]) by {
            if i < prev.len() {
                assert(d.contains(prev[i]));
                let w = choose|w: int| 0 <= w < d.len() && d[w] == prev[i];
                assert(hs[w] == d[w]);
            } else {
                assert(hs[hs.len() - 1] == u[i]);
            }
        }
        if !key_seen(prev, spec_url_key(hs.last().0)) {
            assert forall|i: int, j: int|
                0 <= i < j < u.len() implies spec_url_key(#[trigger] u[i].0) != spec_url_key(#[trigger] u[j].0) by {
                if j == u.len() - 1 {
                    assert(u[i] == prev[i]);
                }
            }
        }
    }
}

/// A host the domain lists admit: not denied, and inside a non-empty allow
/// list.
pub open spec fn admits(host: Option<Seq<char>>, allow: Seq<Seq<char>>, deny: Seq<Seq<char>>) -> bool {
    match host {
        Some(h) => !any_matches(h, deny) && (allow.len() == 0 || any_matches(h, allow)),
        None => false,
    }
}

/// The candidates whose URL has a host the domain lists admit.
pub open spec fn admitted(hs: Seq<(Seq<char>, Seq<char>)>, allow: Seq<Seq<char>>, deny: Seq<Seq<char>>) -> Seq<(Seq<char>, Seq<char>)>
    decreases hs.len(),
{
    if hs.len() == 0 {
        hs
    } else {
        let prev = admitted(hs.drop_last(), allow, deny);
        if admits(host_of(hs.last().0), allow, deny) {
            prev.push(hs.last())
        } else {
            prev
        }
    }
}

/// The domain pre-filter: denied or unadmitted domains never reach the
/// fetcher, and at most `max_sources` candidates go on.
pub fn prefilter(candidates: &Vec<SearchHit>, allow: &Vec<String>, deny: &Vec<String>, max_sources: usize) -> (r: Vec<SearchHit>)
    ensures
        ({
            let a = admitted(hits_of(candidates@), strs_of(allow@), strs_of(deny@));
            hits_of(r@) == if a.len() <= max_sources {
                a
            } else {
                a.take(max_sources as int)
            }
        }),
{
    let ghost hs = hits_of(candidates@);
    let mut out: Vec<SearchHit> = Vec::new();
    let mut i: usize = 0;
    while i < candidates.len()
        invariant
            0 <= i <= candidates@.len(),
            hs == hits_of(candidates@),
            hits_of(out@) == admitted(hs.take(i as int), strs_of(allow@), strs_of(deny@)),
        decreases candidates@.len() - i,
    {
        let ghost t = hs.take(i + 1);
        assert(t.drop_last() =~= hs.take(i as int));
        assert(t.last() == (candidates@[i as int].url@, candidates@[i as int].title@));
        let ok = match url_host(candidates[i].url.as_str()) {
            Some(h) => !any_domain_matches(h.as_str(), deny) && (allow.len() == 0
                || any_domain_matches(h.as_str(), allow)),
            None => false,
        };
        if ok {
            let ghost prev = hits_of(out@);
            out.push(SearchHit { url: candidates[i].url.clone(), title: candidates[i].title.clone() });
            assert(hits_of(out@) =~= prev.push(t.last()));
        }
        i = i + 1;
    }
    assert(hs.take(hs.len() as int) =~= hs);
    let ghost full = hits_of(out@);
    if out.len() > max_sources {
        out.truncate(max_sources);
        assert(hits_of(out@) =~= full.take(max_sources as int));
    }
    out
}

/// The citation id of the candidate at `index`: `s1`, `s2`, ...
pub fn source_id(index: usize) -> (r: String)
    requires
        index < u64::MAX,
    ensures
        r@ == "s"@ + decimal((index + 1) as nat),
{
    let mut v = chars_of("s");
    append_decimal(&mut v, index as u64 + 1);
    string_of(v.as_slice())
}

// ---------------------------------------------------------------------------
// Claim deduplication
// ---------------------------------------------------------------------------

/// One fetched source's extracted claims.
#[derive(Debug, Clone)]
pub struct SourceClaims {
    /// The source's citation id.
    pub id: String,
    /// Its claims, in extraction order.
    pub claims: Vec<String>,
}

/// The claims of one source, each with the source's id.
pub open spec fn tagged(id: Seq<char>, cs: Seq<String>) -> Seq<(Seq<char>, Seq<char>)>
    decreases cs.len(),
{
    if cs.len() == 0 {
        Seq::empty()
    } else {
        tagged(id, cs.drop_last()).push((id, cs.last()@))
    }
}

/// Every (source id, claim) pair, sources in order, claims in order.
pub open spec fn pairs(ss: Seq<SourceClaims>) -> Seq<(Seq<char>, Seq<char>)>
    decreases ss.len(),
{
    if ss.len() == 0 {
        Seq::empty()
    } else {
        pairs(ss.drop_last()) + tagged(ss.last().id@, ss.last().claims@)
    }
}

/// A deduplicated claim: its key, the text it was first seen with, and the
/// ids of the sources it came from, each once, in first-seen order.
pub type Entry = (Seq<char>, Seq<char>, Seq<Seq<char>>);

/// The first position whose key does not sort before `k`.
pub open spec fn first_not_before(acc: Seq<Entry>, k: Seq<char>) -> int
    decreases acc.len(),
{
    if acc.len() == 0 {
        0
    } else {
        let p = first_not_before(acc.drop_last(), k);
        if p < acc.len() - 1 {
            p
        } else if !seq_lt(acc.last().0, k) {
            acc.len() - 1
        } else {
            acc.len() as int
        }
    }
}

/// Add one (source id, claim) pair: a claim whose key is already present
/// gains the source, once; a new key is inserted in key order.
pub open spec fn add_claim(acc: Seq<Entry>, id: Seq<char>, text: Seq<char>) -> Seq<Entry> {
    let k = spec_claim_key(text);
    let i = first_not_before(acc, k);
    if i < acc.len() && acc[i].0 == k {
        if acc[i].2.contains(id) {
            acc
        } else {
            acc.update(i, (k, acc[i].1, acc[i].2.push(id)))
        }
    } else {
        acc.insert(i, (k, text, seq![id]))
    }
}

/// The deduplicated claims of the pairs, in key order.
pub open spec fn dedup_of(ps: Seq<(Seq<char>, Seq<char>)>) -> Seq<Entry>
    decreases ps.len(),
{
    if ps.len() == 0 {
        Seq::empty()
    } else {
        add_claim(dedup_of(ps.drop_last()), ps.last().0, ps.last().1)
    }
}

/// A claim as a deduplicated entry, with its key.
pub open spec fn entry_view(key: Vec<char>, c: Claim) -> Entry {
    (key@, c.text@, strs_of(c.source_ids@))
}

/// The claims as deduplicated entries, with their keys.
pub open spec fn entries_view(keys: Seq<Vec<char>>, cs: Seq<Claim>) -> Seq<Entry> {
    Seq::new(cs.len(), |i: int| entry_view(keys[i], cs[i]))
}

/// The position where a key belongs among sorted entries.
fn position(keys: &Vec<Vec<char>>, k: &Vec<char>, Ghost(acc): Ghost<Seq<Entry>>) -> (r: usize)
    requires
        acc.len() == keys@.len(),
        forall|i: int| 0 <= i < keys@.len() ==> #[trigger] acc[i].0 == keys@[i]@,
    ensures
        r as int == first_not_before(acc, k@),
        r <= keys@.len(),
{
    let mut i: usize = 0;
    while i < keys.len()
        invariant
            0 <= i <= keys@.len(),
            acc.len() == keys@.len(),
            forall|m: int| 0 <= m < keys@.len() ==> #[trigger] acc[m].0 == keys@[m]@,
            first_not_before(acc.take(i as int), k@) == i,
        decreases keys@.len() - i,
    {
        let ghost t = acc.take(i + 1);
        assert(t.drop_last() =~= acc.take(i as int));
        if !chars_lt(keys[i].as_slice(), k.as_slice()) {
            proof {
                lemma_first_not_before_prefix(acc, i + 1, k@);
            }
            return i;
        }
        i = i + 1;
    }
    assert(acc.take(acc.len() as int) =~= acc);
    i
}

/// A position found within a prefix is the position in the whole.
proof fn lemma_first_not_before_prefix(acc: Seq<Entry>, n: int, k: Seq<char>)
    requires
        0 <= n <= acc.len(),
        first_not_before(acc.take(n), k) < n,
    ensures
        first_not_before(acc, k) == first_not_before(acc.take(n), k),
    decreases acc.len() - n,
{
    if n < acc.len() {
        let t = acc.take(n + 1);
        assert(t.drop_last() =~= acc.take(n));
        lemma_first_not_before_prefix(acc, n + 1, k);
    } else {
        assert(acc.take(n) =~= acc);
    }
}

/// Whether `id` is among `ids`.
fn contains_id(ids: &Vec<String>, id: &str) -> (r: bool)
    ensures
        r == strs_of(ids@).contains(id@),
{
    let mut i: usize = 0;
    while i < ids.len()
        invariant
            0 <= i <= ids@.len(),
            forall|m: int| 0 <= m < i ==> ids@[m]@ != id@,
        decreases ids@.len() - i,
    {
        if str_eq(ids[i].as_str(), id) {
            assert(strs_of(ids@)[i as int] == id@);
            return true;
        }
        i = i + 1;
    }
    assert(!strs_of(ids@).contains(id@)) by {
        if strs_of(ids@).contains(id@) {
            let m = choose|m: int| 0 <= m < strs_of(ids@).len() && strs_of(ids@)[m] == id@;
            assert(ids@[m]@ == id@);
        }
    }
    false
}

/// A copy of a list of strings.
fn copy_strs(v: &Vec<String>) -> (r: Vec<String>)
    ensures
        strs_of(r@) == strs_of(v@),
{
    let mut r: Vec<String> = Vec::new();
    let mut i: usize = 0;
    while i < v.len()
        invariant
            0 <= i <= v@.len(),
            strs_of(r@) == strs_of(v@).take(i as int),
        decreases v@.len() - i,
    {
        let ghost before = strs_of(r@);
        r.push(v[i].clone());
        assert(strs_of(v@).take(i + 1) =~= strs_of(v@).take(i as int).push(v@[i as int]@));
        assert(strs_of(r@) =~= before.push(v@[i as int]@));
        i = i + 1;
    }
    assert(strs_of(v@).take(v@.len() as int) =~= strs_of(v@));
    r
}

/// Add one (source id, claim) pair to the deduplicated claims.
fn add_one(keys: &mut Vec<Vec<char>>, claims: &mut Vec<Claim>, id: &str, text: &str)
    requires
        old(keys)@.len() == old(claims)@.len(),
    ensures
        final(keys)@.len() == final(claims)@.len(),
        entries_view(final(keys)@, final(claims)@) == add_claim(
            entries_view(old(keys)@, old(claims)@),
            id@,
            text@,
        ),
{
    let ghost acc = entries_view(keys@, claims@);
    let k = chars_of(claim_key(text).as_str());
    let i = position(keys, &k, Ghost(acc));
    if i < keys.len() && crate::text::chars_eq(keys[i].as_slice(), k.as_slice()) {
        if contains_id(&claims[i].source_ids, id) {
            return;
        }
        let mut ids = copy_strs(&claims[i].source_ids);
        let ghost before = strs_of(ids@);
        ids.push(id.to_string());
        assert(strs_of(ids@) =~= before.push(id@));
        let c = Claim { text: claims[i].text.clone(), source_ids: ids };
        claims.set(i, c);
        assert(entries_view(keys@, claims@) =~= acc.update(i as int, (k@, acc[i as int].1, acc[i as int].2.push(id@))));
    } else {
        let ghost kv = k@;
        let mut ids: Vec<String> = Vec::new();
        ids.push(id.to_string());
        assert(strs_of(ids@) =~= seq![id@]);
        keys.insert(i, k);
        claims.insert(i, Claim { text: text.to_string(), source_ids: ids });
        assert(entries_view(keys@, claims@) =~= acc.insert(i as int, (kv, text@, seq![id@])));
    }
}

/// Deduplicate the sources' claims by claim key: each key once, in key
/// order, with the text it was first seen with and every source it came
/// from, once each, in first-seen order.
pub fn dedup_claims(sources: &Vec<SourceClaims>) -> (r: Vec<Claim>)
    ensures
        r@.len() == dedup_of(pairs(sources@)).len(),
        forall|i: int| 0 <= i < r@.len() ==> {
            &&& #[trigger] r@[i].text@ == dedup_of(pairs(sources@))[i].1
            &&& strs_of(r@[i].source_ids@) == dedup_of(pairs(sources@))[i].2
        },
{
    let mut keys: Vec<Vec<char>> = Vec::new();
    let mut claims: Vec<Claim> = Vec::new();
    assert(entries_view(keys@, claims@) =~= dedup_of(pairs(sources@.take(0))));
    let mut i: usize = 0;
    while i < sources.len()
        invariant
            0 <= i <= sources@.len(),
            keys@.len() == claims@.len(),
            entries_view(keys@, claims@) == dedup_of(pairs(sources@.take(i as int))),
        decreases sources@.len() - i,
    {
        let ghost pre = pairs(sources@.take(i as int));
        let src = &sources[i];
        let mut j: usize = 0;
        while j < src.claims.len()
            invariant
                0 <= j <= src.claims@.len(),
                keys@.len() == claims@.len(),
                entries_view(keys@, claims@) == dedup_of(pre + tagged(src.id@, src.claims@.take(j as int))),
            decreases src.claims@.len() - j,
        {
            let ghost next = pre + tagged(src.id@, src.claims@.take(j + 1));
            assert(src.claims@.take(j + 1).drop_last() =~= src.claims@.take(j as int));
            assert(next.drop_last() =~= pre + tagged(src.id@, src.claims@.take(j as int)));
            assert(next.last() == (src.id@, src.claims@[j as int]@));
            add_one(&mut keys, &mut claims, src.id.as_str(), src.claims[j].as_str());
            j = j + 1;
        }
        let ghost t = sources@.take(i + 1);
        assert(t.drop_last() =~= sources@.take(i as int));
        assert(src.claims@.take(src.claims@.len() as int) =~= src.claims@);
        i = i + 1;
    }
    assert(sources@.take(sources@.len() as int) =~= sources@);
    claims
}

/// Deduplicated claims as an ordered map: keys strictly increasing, each
/// the key of its text, each with at least one source and none twice.
pub open spec fn ordered_claims(acc: Seq<Entry>) -> bool {
    &&& forall|i: int, j: int| 0 <= i < j < acc.len() ==> seq_lt(#[trigger] acc[i].0, #[trigger] acc[j].0)
    &&& forall|i: int| 0 <= i < acc.len() ==> (#[trigger] acc[i]).0 == spec_claim_key(acc[i].1)
    &&& forall|i: int| 0 <= i < acc.len() ==> (#[trigger] acc[i]).2.len() > 0 && acc[i].2.no_duplicates()
}

/// What the insertion position is: every entry before it sorts before the
/// key, and the entry at it (if any) does not.
proof fn lemma_first_not_before(acc: Seq<Entry>, k: Seq<char>)
    ensures
        0 <= first_not_before(acc, k) <= acc.len(),
        forall|m: int| 0 <= m < first_not_before(acc, k) ==> seq_lt(#[trigger] acc[m].0, k),
        first_not_before(acc, k) < acc.len() ==> !seq_lt(acc[first_not_before(acc, k)].0, k),
    decreases acc.len(),
{
    if acc.len() > 0 {
        let d = acc.drop_last();
        lemma_first_not_before(d, k);
        assert forall|m: int| 0 <= m < first_not_before(acc, k) implies seq_lt(#[trigger] acc[m].0, k) by {
            if m < d.len() {
                assert(acc[m] == d[m]);
            }
        }
    }
}

/// Adding a claim keeps the deduplicated claims an ordered map.
proof fn lemma_add_claim_ordered(acc: Seq<Entry>, id: Seq<char>, text: Seq<char>)
    requires
        ordered_claims(acc),
    ensures
        ordered_claims(add_claim(acc, id, text)),
{
    let k = spec_claim_key(text);
    let i = first_not_before(acc, k);
    lemma_first_not_before(acc, k);
    let r = add_claim(acc, id, text);
    if i < acc.len() && acc[i].0 == k {
        if !acc[i].2.contains(id) {
            assert forall|a: int, b: int| 0 <= a < b < r.len() implies seq_lt(#[trigger] r[a].0, #[trigger] r[b].0) by {
                assert(r[a].0 == acc[a].0 && r[b].0 == acc[b].0);
            }
            assert forall|a: int| 0 <= a < r.len() implies (#[trigger] r[a]).2.len() > 0 && r[a].2.no_duplicates() by {
                if a == i {
                    assert forall|x: int, y: int| 0 <= x < y < r[a].2.len() implies r[a].2[x] != r[a].2[y] by {
                        if y == r[a].2.len() - 1 {
                            assert(acc[i].2[x] == r[a].2[x]);
                        }
                    }
                }
            }
        }
    } else {
        if i < acc.len() {
            lemma_seq_lt_total(acc[i].0, k);
        }
        assert forall|a: int, b: int| 0 <= a < b < r.len() implies seq_lt(#[trigger] r[a].0, #[trigger] r[b].0) by {
            if b == i {
                assert(r[a] == acc[a]);
            } else if a == i {
                assert(r[b] == acc[b - 1]);
                if b - 1 > i {
                    assert(seq_lt(acc[i].0, acc[b - 1].0));
                    lemma_seq_lt_strict(k, acc[i].0, acc[b - 1].0);
                }
            } else if a < i && b > i {
                assert(r[a] == acc[a]);
                assert(r[b] == acc[b - 1]);
                assert(seq_lt(acc[a].0, k));
                if b - 1 == i {
                    lemma_seq_lt_strict(acc[a].0, k, acc[i].0);
                } else {
                    assert(seq_lt(acc[i].0, acc[b - 1].0));
                    lemma_seq_lt_strict(k, acc[i].0, acc[b - 1].0);
                    lemma_seq_lt_strict(acc[a].0, k, acc[b - 1].0);
                }
            } else if b < i {
                assert(r[a] == acc[a] && r[b] == acc[b]);
            } else {
                assert(r[a] == acc[a - 1] && r[b] == acc[b - 1]);
            }
        }
        assert forall|a: int| 0 <= a < r.len() implies (#[trigger] r[a]).0 == spec_claim_key(r[a].1)
            && r[a].2.len() > 0 && r[a].2.no_duplicates() by {
            if a < i {
                assert(r[a] == acc[a]);
            } else if a > i {
                assert(r[a] == acc[a - 1]);
            }
        }
    }
}

/// The deduplicated claims form an ordered map: keys strictly increasing
/// (so each key once), each the claim key of its text, each claim with at
/// least one source and no source twice.
pub proof fn lemma_dedup_is_ordered(ps: Seq<(Seq<char>, Seq<char>)>)
    ensures
        ordered_claims(dedup_of(ps)),
    decreases ps.len(),
{
    if ps.len() > 0 {
        lemma_dedup_is_ordered(ps.drop_last());
        lemma_add_claim_ordered(dedup_of(ps.drop_last()), ps.last().0, ps.last().1);
    }
}

/// Some deduplicated claim has key `k` and lists source `id`.
pub open spec fn listed(acc: Seq<Entry>, k: Seq<char>, id: Seq<char>) -> bool {
    exists|i: int| 0 <= i < acc.len() && acc[i].0 == k && acc[i].2.contains(id)
}

/// Adding a claim loses no listing and lists the claim's source.
proof fn lemma_add_claim_lists(acc: Seq<Entry>, id: Seq<char>, text: Seq<char>, k2: Seq<char>, id2: Seq<char>)
    ensures
        listed(add_claim(acc, id, text), spec_claim_key(text), id),
        listed(acc, k2, id2) ==> listed(add_claim(acc, id, text), k2, id2),
{
    let k = spec_claim_key(text);
    let i = first_not_before(acc, k);
    lemma_first_not_before(acc, k);
    let r = add_claim(acc, id, text);
    if i < acc.len() && acc[i].0 == k {
        if acc[i].2.contains(id) {
        } else {
            assert(r[i].2.last() == id);
            assert(r[i].2.contains(id));
            if listed(acc, k2, id2) {
                let w = choose|w: int| 0 <= w < acc.len() && acc[w].0 == k2 && acc[w].2.contains(id2);
                if w == i {
                    let x = choose|x: int| 0 <= x < acc[i].2.len() && acc[i].2[x] == id2;
                    assert(r[i].2[x] == id2);
                }
                assert(r[w].0 == k2 && r[w].2.contains(id2));
            }
        }
    } else {
        assert(r[i] == (k, text, seq![id]));
        assert(seq![id][0] == id);
        assert(r[i].2.contains(id));
        if listed(acc, k2, id2) {
            let w = choose|w: int| 0 <= w < acc.len() && acc[w].0 == k2 && acc[w].2.contains(id2);
            if w < i {
                assert(r[w] == acc[w]);
            } else {
                assert(r[w + 1] == acc[w]);
            }
        }
    }
}

/// Every (source, claim) pair is listed: the claim's key has an entry that
/// names the source.
pub proof fn lemma_dedup_lists_every_pair(ps: Seq<(Seq<char>, Seq<char>)>)
    ensures
        forall|q: int| 0 <= q < ps.len() ==> listed(dedup_of(ps), spec_claim_key(#[trigger] ps[q].1), ps[q].0),
    decreases ps.len(),
{
    if ps.len() > 0 {
        let d = ps.drop_last();
        lemma_dedup_lists_every_pair(d);
        assert forall|q: int| 0 <= q < ps.len() implies listed(dedup_of(ps), spec_claim_key(#[trigger] ps[q].1), ps[q].0) by {
            lemma_add_claim_lists(dedup_of(d), ps.last().0, ps.last().1, spec_claim_key(ps[q].1), ps[q].0);
            if q < d.len() {
                assert(ps[q] == d[q]);
            }
        }
    }
}

// ---------------------------------------------------------------------------
// Nothing verified
// ---------------------------------------------------------------------------

/// The answer when no claim survived verification and none was refuted.
pub const NOTHING_FOUND_ANSWER: &'static str = "No verifiable findings could be established from the web for this question.";

/// The answer when every verified claim was refuted.
pub const ALL_REFUTED_ANSWER: &'static str = "Verification refuted the available claims for this question; nothing is asserted.";

/// The honest-gap outcome of a run with nothing verified: no synthesis call
/// and nothing to ground; every sub-question is a gap keyed to itself, so
/// nothing counts as settled.
#[derive(Debug)]
pub struct GapOutcome {
    /// The fixed answer.
    pub answer: String,
    /// The sub-questions, as gaps.
    pub gaps: Vec<String>,
    /// Each gap's sub-question, one-based.
    pub gap_targets: Vec<u32>,
}

/// `g` is the honest-gap outcome for these sub-questions: the fixed answer
/// (which one depends on whether verification refuted something), every
/// sub-question as a gap, and gap `i` keyed to sub-question `i + 1`.
pub open spec fn is_gap_outcome(g: GapOutcome, any_refuted: bool, sub_questions: Seq<String>) -> bool {
    &&& g.answer@ == (if any_refuted {
        ALL_REFUTED_ANSWER@
    } else {
        NOTHING_FOUND_ANSWER@
    })
    &&& strs_of(g.gaps@) == strs_of(sub_questions)
    &&& g.gap_targets@.len() == sub_questions.len()
    &&& forall|i: int|
        0 <= i < sub_questions.len() ==> #[trigger] g.gap_targets@[i] as int == if i + 1 <= u32::MAX {
            i + 1
        } else {
            u32::MAX as int
        }
}

/// The outcome of a run whose verification left nothing standing;
/// `any_refuted` says whether verification refuted something.
pub fn nothing_verified(any_refuted: bool, sub_questions: &Vec<String>) -> (r: GapOutcome)
    ensures
        is_gap_outcome(r, any_refuted, sub_questions@),
{
    let answer = if any_refuted {
        ALL_REFUTED_ANSWER.to_string()
    } else {
        NOTHING_FOUND_ANSWER.to_string()
    };
    let gaps = copy_strs(sub_questions);
    let mut targets: Vec<u32> = Vec::new();
    let mut i: usize = 0;
    while i < sub_questions.len()
        invariant
            0 <= i <= sub_questions@.len(),
            targets@.len() == i,
            forall|m: int|
                0 <= m < i ==> #[trigger] targets@[m] as int == if m + 1 <= u32::MAX {
                    m + 1
                } else {
                    u32::MAX as int
                },
        decreases sub_questions@.len() - i,
    {
        let t: u32 = if (i as u64) < (u32::MAX as u64) {
            (i + 1) as u32
        } else {
            u32::MAX
        };
        targets.push(t);
        i = i + 1;
    }
    GapOutcome { answer, gaps, gap_targets: targets }
}

} // verus!
