//! The tool catalog: which tools a server offers for the capabilities it was
//! given. A disabled capability is absent from the catalog, not present and
//! erroring.
use vstd::prelude::*;
use crate::text::strs_of;

verus! {

/// The tools a server offers, in catalog order: the correctives always; the
/// memory tools with a memory capability; research with a search
/// capability; grounded verification with a source root; then the
/// deterministic check and the checkpoints.
pub open spec fn catalog(memory: bool, research: bool, grounded: bool) -> Seq<Seq<char>> {
    seq!["verify"@, "unstick"@, "diverge"@, "decide"@, "elicit"@] + (if memory {
        seq!["save"@, "recall"@, "forget"@, "surface"@]
    } else {
        Seq::empty()
    }) + (if research {
        seq!["research"@]
    } else {
        Seq::empty()
    }) + (if grounded {
        seq!["grounded_verify"@]
    } else {
        Seq::empty()
    }) + seq!["check"@, "checkpoint_action"@, "checkpoint_batch"@, "checkpoint_turn"@]
}

/// Append the names to the catalog being built.
fn add_all(out: &mut Vec<String>, names: &[&str])
    ensures
        strs_of(final(out)@) == strs_of(old(out)@) + names@.map_values(|s: &str| s@),
{
    let ghost start = strs_of(out@);
    let mut i: usize = 0;
    while i < names.len()
        invariant
            0 <= i <= names@.len(),
            strs_of(out@) == start + names@.take(i as int).map_values(|s: &str| s@),
        decreases names@.len() - i,
    {
        let ghost before = strs_of(out@);
        out.push(names[i].to_string());
        assert(strs_of(out@) =~= before.push(names@[i as int]@));
        assert(names@.take(i + 1).map_values(|s: &str| s@) =~= names@.take(i as int).map_values(
            |s: &str| s@,
        ).push(names@[i as int]@));
        i = i + 1;
    }
    assert(names@.take(names@.len() as int) =~= names@);
}

/// The tools a server offers for its capabilities.
pub fn tool_catalog(memory: bool, research: bool, grounded: bool) -> (r: Vec<String>)
    ensures
        strs_of(r@) == catalog(memory, research, grounded),
{
    let mut out: Vec<String> = Vec::new();
    add_all(&mut out, &["verify", "unstick", "diverge", "decide", "elicit"]);
    if memory {
        add_all(&mut out, &["save", "recall", "forget", "surface"]);
    }
    if research {
        add_all(&mut out, &["research"]);
    }
    if grounded {
        add_all(&mut out, &["grounded_verify"]);
    }
    add_all(&mut out, &["check", "checkpoint_action", "checkpoint_batch", "checkpoint_turn"]);
    assert(strs_of(out@) =~= catalog(memory, research, grounded));
    out
}

/// A disabled capability's tools are absent from the catalog and an
/// enabled one's present; the correctives are always offered.
pub proof fn lemma_catalog_is_honest(memory: bool, research: bool, grounded: bool)
    ensures
        catalog(memory, research, grounded).contains("save"@) == memory,
        catalog(memory, research, grounded).contains("surface"@) == memory,
        catalog(memory, research, grounded).contains("research"@) == research,
        catalog(memory, research, grounded).contains("grounded_verify"@) == grounded,
        catalog(memory, research, grounded).contains("verify"@),
        catalog(memory, research, grounded).no_duplicates(),
{
    reveal_strlit("verify");
    reveal_strlit("unstick");
    reveal_strlit("diverge");
    reveal_strlit("decide");
    reveal_strlit("elicit");
    reveal_strlit("save");
    reveal_strlit("recall");
    reveal_strlit("forget");
    reveal_strlit("surface");
    reveal_strlit("research");
    reveal_strlit("grounded_verify");
    reveal_strlit("check");
    reveal_strlit("checkpoint_action");
    reveal_strlit("checkpoint_batch");
    reveal_strlit("checkpoint_turn");
    let c = catalog(memory, research, grounded);
    assert forall|i: int, j: int| 0 <= i < j < c.len() implies c[i] != c[j] by {
        assert(c[i].len() != c[j].len() || c[i][0] != c[j][0]);
    }
    if memory {
        assert(c[5] == "save"@ && c[8] == "surface"@);
    } else {
        assert forall|i: int| 0 <= i < c.len() implies c[i] != "save"@ && c[i] != "surface"@ by {
            assert(c[i].len() != 4 || c[i][0] != 's');
            assert(c[i].len() != 7 || c[i][0] != 's');
        }
    }
    if research {
        let k = if memory { 9int } else { 5int };
        assert(c[k] == "research"@);
    } else {
        assert forall|i: int| 0 <= i < c.len() implies c[i] != "research"@ by {
            assert(c[i].len() != 8 || c[i][0] != 'r');
        }
    }
    if grounded {
        let k = 5 + (if memory { 4int } else { 0int }) + (if research { 1int } else { 0int });
        assert(c[k] == "grounded_verify"@);
    } else {
        assert forall|i: int| 0 <= i < c.len() implies c[i] != "grounded_verify"@ by {
            assert(c[i].len() != 15 || c[i][0] != 'g');
        }
    }
    assert(c[0] == "verify"@);
}

} // verus!
