//! Result assembly's integer part: the per-sub-question statuses, coverage,
//! the gap cap and the pruning of sources to those the grounding kept.
use vstd::prelude::*;
use crate::research::verdict::{claimed, count_true, coverage, settled_mask};
use crate::research::MAX_GAPS;
use crate::text::{str_eq, strs_of};

verus! {

/// Whether the answer settles one sub-question.
#[derive(Debug, Clone)]
pub struct SubQuestionStatus {
    /// The sub-question.
    pub sub_question: String,
    /// No gap names it.
    pub settled: bool,
}

/// The published figures of a run that are not floating point.
#[derive(Debug)]
pub struct ResultCore {
    /// One status per scoped sub-question, in order.
    pub sub_question_status: Vec<SubQuestionStatus>,
    /// Coverage as (settled, scoped).
    pub coverage: (usize, usize),
    /// The published gaps, at most `MAX_GAPS`.
    pub gaps: Vec<String>,
    /// For each citation id the grounding kept that names a fetched source,
    /// that source's position, in the kept order.
    pub sources: Vec<usize>,
}

/// The statuses: each sub-question, settled when no gap target names it.
pub open spec fn spec_statuses(sq: Seq<Seq<char>>, targets: Seq<u32>) -> Seq<(Seq<char>, bool)> {
    Seq::new(sq.len(), |i: int| (sq[i], !claimed(targets, i)))
}

/// Coverage as (settled, scoped), whole when nothing was scoped.
pub open spec fn spec_coverage(n: nat, targets: Seq<u32>) -> (nat, nat) {
    if n == 0 {
        (1, 1)
    } else {
        (count_true(Seq::new(n, |i: int| !claimed(targets, i))), n)
    }
}

/// The gaps under the cap: the first `MAX_GAPS`.
pub open spec fn capped_gaps(g: Seq<Seq<char>>) -> Seq<Seq<char>> {
    if g.len() <= MAX_GAPS {
        g
    } else {
        g.take(MAX_GAPS as int)
    }
}

/// The first position of `id` among the source ids.
pub open spec fn first_with_id(ids: Seq<Seq<char>>, id: Seq<char>) -> Option<int>
    decreases ids.len(),
{
    if ids.len() == 0 {
        None
    } else {
        match first_with_id(ids.drop_last(), id) {
            Some(i) => Some(i),
            None => if ids.last() == id {
                Some(ids.len() - 1)
            } else {
                None
            },
        }
    }
}

/// The positions of the kept ids that name a source, in the kept order.
pub open spec fn kept_sources(kept: Seq<Seq<char>>, ids: Seq<Seq<char>>) -> Seq<int>
    decreases kept.len(),
{
    if kept.len() == 0 {
        Seq::empty()
    } else {
        kept_sources(kept.drop_last(), ids) + match first_with_id(ids, kept.last()) {
            Some(i) => seq![i],
            None => Seq::empty(),
        }
    }
}

/// The figures of a run with these sub-questions, gaps and gap targets,
/// kept citation ids and fetched source ids.
pub open spec fn core_of(
    sq: Seq<Seq<char>>,
    gaps: Seq<Seq<char>>,
    targets: Seq<u32>,
    kept: Seq<Seq<char>>,
    ids: Seq<Seq<char>>,
) -> (Seq<(Seq<char>, bool)>, (nat, nat), Seq<Seq<char>>, Seq<int>) {
    (spec_statuses(sq, targets), spec_coverage(sq.len(), targets), capped_gaps(gaps), kept_sources(kept, ids))
}

/// A result core as plain values.
pub open spec fn core_view(r: ResultCore) -> (Seq<(Seq<char>, bool)>, (nat, nat), Seq<Seq<char>>, Seq<int>) {
    (
        r.sub_question_status@.map_values(|s: SubQuestionStatus| (s.sub_question@, s.settled)),
        (r.coverage.0 as nat, r.coverage.1 as nat),
        strs_of(r.gaps@),
        r.sources@.map_values(|i: usize| i as int),
    )
}

/// The first position of `id` among the source ids.
fn find_id(ids: &Vec<String>, id: &str) -> (r: Option<usize>)
    ensures
        r matches Some(p) ==> first_with_id(strs_of(ids@), id@) == Some(p as int),
        r is None ==> first_with_id(strs_of(ids@), id@) is None,
{
    let ghost s = strs_of(ids@);
    let mut i: usize = 0;
    while i < ids.len()
        invariant
            0 <= i <= ids@.len(),
            s == strs_of(ids@),
            first_with_id(s.take(i as int), id@) is None,
        decreases ids@.len() - i,
    {
        assert(s.take(i + 1).drop_last() =~= s.take(i as int));
        if str_eq(ids[i].as_str(), id) {
            assert(s.take(i + 1).last() == id@);
            assert(first_with_id(s.take(i + 1), id@) == Some(i as int));
            proof {
                lemma_first_prefix(s, i as int + 1);
            }
            return Some(i);
        }
        i = i + 1;
    }
    assert(s.take(s.len() as int) =~= s);
    None
}

/// A first position is a position of that id.
pub(crate) proof fn lemma_first_in_range(s: Seq<Seq<char>>, id: Seq<char>)
    ensures
        first_with_id(s, id) matches Some(i) ==> 0 <= i < s.len() && s[i] == id,
    decreases s.len(),
{
    if s.len() > 0 {
        lemma_first_in_range(s.drop_last(), id);
    }
}

/// A first position found in a prefix is the first position in the whole.
pub(crate) proof fn lemma_first_prefix(s: Seq<Seq<char>>, k: int)
    requires
        0 <= k <= s.len(),
    ensures
        forall|id: Seq<char>| (#[trigger] first_with_id(s.take(k), id)) is Some ==> first_with_id(s, id)
            == first_with_id(s.take(k), id),
    decreases s.len() - k,
{
    if k < s.len() {
        lemma_first_prefix(s, k + 1);
        assert(s.take(k + 1).drop_last() =~= s.take(k));
        assert forall|id: Seq<char>| (#[trigger] first_with_id(s.take(k), id)) is Some implies first_with_id(s, id)
            == first_with_id(s.take(k), id) by {
            assert(first_with_id(s.take(k + 1), id) == first_with_id(s.take(k), id));
        }
    } else {
        assert(s.take(k) =~= s);
    }
}

/// Assemble the published figures from finished run state: the statuses
/// and coverage from every gap target the synthesis returned, the gap text
/// under the cap, and the sources pruned to those the grounding kept.
pub fn assemble_core(
    sub_questions: &Vec<String>,
    gaps: Vec<String>,
    gap_targets: &Vec<u32>,
    kept_ids: &Vec<String>,
    source_ids: &Vec<String>,
) -> (r: ResultCore)
    ensures
        core_view(r) == core_of(
            strs_of(sub_questions@),
            strs_of(gaps@),
            gap_targets@,
            strs_of(kept_ids@),
            strs_of(source_ids@),
        ),
{
    let mask = settled_mask(sub_questions.len(), gap_targets);
    let mut statuses: Vec<SubQuestionStatus> = Vec::new();
    let mut i: usize = 0;
    while i < sub_questions.len()
        invariant
            0 <= i <= sub_questions@.len(),
            mask@.len() == sub_questions@.len(),
            forall|j: int| 0 <= j < sub_questions@.len() ==> mask@[j] == !claimed(gap_targets@, j),
            statuses@.map_values(|s: SubQuestionStatus| (s.sub_question@, s.settled)) == spec_statuses(
                strs_of(sub_questions@),
                gap_targets@,
            ).take(i as int),
        decreases sub_questions@.len() - i,
    {
        let st = SubQuestionStatus { sub_question: sub_questions[i].clone(), settled: mask[i] };
        let ghost before = statuses@.map_values(|s: SubQuestionStatus| (s.sub_question@, s.settled));
        statuses.push(st);
        assert(statuses@.map_values(|s: SubQuestionStatus| (s.sub_question@, s.settled)) =~= before.push(
            (sub_questions@[i as int]@, mask@[i as int]),
        ));
        assert(spec_statuses(strs_of(sub_questions@), gap_targets@).take(i + 1) =~= spec_statuses(
            strs_of(sub_questions@),
            gap_targets@,
        ).take(i as int).push((sub_questions@[i as int]@, !claimed(gap_targets@, i as int))));
        i = i + 1;
    }
    assert(spec_statuses(strs_of(sub_questions@), gap_targets@).take(sub_questions@.len() as int)
        =~= spec_statuses(strs_of(sub_questions@), gap_targets@));
    let cov = coverage(sub_questions.len(), gap_targets);
    let mut gaps = gaps;
    let ghost g0 = strs_of(gaps@);
    if gaps.len() > MAX_GAPS {
        gaps.truncate(MAX_GAPS);
        assert(strs_of(gaps@) =~= g0.take(MAX_GAPS as int));
    }
    let ghost ks = strs_of(kept_ids@);
    let mut sources: Vec<usize> = Vec::new();
    let mut k: usize = 0;
    while k < kept_ids.len()
        invariant
            0 <= k <= kept_ids@.len(),
            ks == strs_of(kept_ids@),
            sources@.map_values(|i: usize| i as int) == kept_sources(ks.take(k as int), strs_of(source_ids@)),
        decreases kept_ids@.len() - k,
    {
        assert(ks.take(k + 1).drop_last() =~= ks.take(k as int));
        assert(ks.take(k + 1).last() == kept_ids@[k as int]@);
        let ghost before = sources@.map_values(|i: usize| i as int);
        assert(kept_sources(ks.take(k + 1), strs_of(source_ids@)) == kept_sources(ks.take(k as int), strs_of(source_ids@))
            + match first_with_id(strs_of(source_ids@), kept_ids@[k as int]@) {
            Some(i) => seq![i],
            None => Seq::<int>::empty(),
        });
        match find_id(source_ids, kept_ids[k].as_str()) {
            Some(p) => {
                sources.push(p);
                assert(sources@.map_values(|i: usize| i as int) =~= before + seq![p as int]);
            },
            None => {
                assert(before + Seq::<int>::empty() =~= before);
            },
        }
        k = k + 1;
    }
    assert(ks.take(ks.len() as int) =~= ks);
    ResultCore { sub_question_status: statuses, coverage: cov, gaps, sources }
}

/// The gap cap acts on the published gap text only: capping the gaps
/// changes neither the statuses nor coverage, and a sub-question named by a
/// gap the cap dropped stays unsettled.
pub proof fn lemma_gap_cap_moves_nothing(
    sq: Seq<Seq<char>>,
    gaps: Seq<Seq<char>>,
    targets: Seq<u32>,
    kept: Seq<Seq<char>>,
    ids: Seq<Seq<char>>,
)
    ensures
        core_of(sq, capped_gaps(gaps), targets, kept, ids).0 == core_of(sq, gaps, targets, kept, ids).0,
        core_of(sq, capped_gaps(gaps), targets, kept, ids).1 == core_of(sq, gaps, targets, kept, ids).1,
        capped_gaps(gaps).len() <= MAX_GAPS,
        forall|k: int|
            MAX_GAPS <= k < targets.len() && 1 <= #[trigger] targets[k] <= sq.len() ==> !core_of(
                sq,
                gaps,
                targets,
                kept,
                ids,
            ).0[targets[k] - 1].1,
{
    assert forall|k: int| MAX_GAPS <= k < targets.len() && 1 <= #[trigger] targets[k] <= sq.len() implies !core_of(
        sq,
        gaps,
        targets,
        kept,
        ids,
    ).0[targets[k] - 1].1 by {
        assert(claimed(targets, targets[k] - 1));
    }
}

} // verus!
