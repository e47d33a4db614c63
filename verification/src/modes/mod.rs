//! The corrective modes. A corrective is a prompt template with placeholders
//! for its declared inputs only, an output shape, and a number of independent
//! passes; each mode's deterministic parts (input checks, prompt filling,
//! validation of a pass, and aggregation) live in its module.
use vstd::prelude::*;
use crate::error::{invalid_input_is, AppError};
use crate::schema::flat::{assert_flat, flat_error, flat_message};
use crate::schema::json::Json;
use crate::schema::sanitize::{san, sanitize};
use crate::text::{
    append_decimal, append_decimal_wide, append_str, decimal, replace_all, str_eq, string_of,
};

pub mod decide;
pub mod diverge;
pub mod elicit;
pub mod grounded_compute;
pub mod grounded_verify;
pub mod unstick;
pub mod verify;

verus! {

/// Replace every occurrence of the placeholder `slot` in `t` by `value`.
pub fn fill(t: &[char], slot: &str, value: &str) -> (r: Vec<char>)
    requires
        slot@.len() > 0,
    ensures
        r@ == replace_all(t@, slot@, value@),
{
    let v = crate::text::chars_of(value);
    crate::text::replace_str(t, slot, v.as_slice())
}

/// The message for input whose combined length exceeds the bound.
pub open spec fn combined_message(total: nat, max: nat) -> Seq<char> {
    "combined input is "@ + decimal(total) + " characters; the configured maximum is "@ + decimal(
        max,
    ) + " (INPUT_MAX_CHARS); it was not trimmed"@
}

/// The error for input whose combined length exceeds the bound; never
/// trimmed.
pub fn combined_too_long(total: u128, max: usize) -> (e: AppError)
    ensures
        invalid_input_is(e, combined_message(total as nat, max as nat)),
{
    let mut m: Vec<char> = Vec::new();
    append_str(&mut m, "combined input is ");
    append_decimal_wide(&mut m, total);
    append_str(&mut m, " characters; the configured maximum is ");
    append_decimal(&mut m, max as u64);
    append_str(&mut m, " (INPUT_MAX_CHARS); it was not trimmed");
    AppError::InvalidInput(string_of(m.as_slice()))
}

/// The number of passes this call runs: the configured count when omitted;
/// a requested count may lower it, never raise it, and is at least one.
pub open spec fn spec_resolve_passes(requested: Option<u8>, configured: u8) -> Option<u8> {
    match requested {
        None => Some(configured),
        Some(n) => if 1 <= n <= configured {
            Some(n)
        } else {
            None
        },
    }
}

/// Resolve the per-call pass count against the configured ensemble size.
pub fn resolve_passes(requested: Option<u8>, configured: u8) -> (r: Result<u8, AppError>)
    ensures
        spec_resolve_passes(requested, configured) matches Some(k) ==> r == Ok::<u8, AppError>(k),
        spec_resolve_passes(requested, configured) is None ==> (r matches Err(e) && requested matches Some(n)
            && (n == 0 ==> invalid_input_is(e, "passes must be at least 1"@)) && (n > 0
            ==> invalid_input_is(
            e,
            "passes "@ + decimal(n as nat) + " exceeds the configured maximum of "@ + decimal(
                configured as nat,
            ),
        ))),
{
    match requested {
        None => Ok(configured),
        Some(n) => {
            if n == 0 {
                Err(AppError::InvalidInput("passes must be at least 1".to_string()))
            } else if n > configured {
                let mut m: Vec<char> = Vec::new();
                append_str(&mut m, "passes ");
                append_decimal(&mut m, n as u64);
                append_str(&mut m, " exceeds the configured maximum of ");
                append_decimal(&mut m, configured as u64);
                Err(AppError::InvalidInput(string_of(m.as_slice())))
            } else {
                Ok(n)
            }
        },
    }
}


/// A per-call pass count narrows, never widens: an accepted count is at
/// least one (for a configured count of at least one) and at most the
/// configured count.
pub proof fn lemma_passes_bounded(requested: Option<u8>, configured: u8)
    ensures
        spec_resolve_passes(requested, configured) matches Some(k) ==> k <= configured && (
        configured >= 1 ==> k >= 1),
{
}

// ---------------------------------------------------------------------------
// The registry
// ---------------------------------------------------------------------------

/// One corrective mode: the registry entry of every mode.
#[derive(Debug)]
pub struct CorrectiveMode {
    /// Tool name as exposed to callers.
    pub id: &'static str,
    /// The tool description; it does the routing work.
    pub description: &'static str,
    /// Instruction template with placeholders for the declared inputs only.
    pub prompt_template: &'static str,
    /// The unsanitized per-pass output schema (validator side).
    pub output_schema: Json,
    /// The grammar-subset form sent to the provider, derived once at
    /// registration.
    pub sanitized_schema: Json,
    /// Parallel passes per invocation.
    pub ensemble_k: u8,
}

/// The set of registered modes. Registration enforces the schema invariant
/// up front: a mode with an illegal schema fails startup, not its first call.
#[derive(Debug)]
pub struct ModeRegistry {
    modes: Vec<CorrectiveMode>,
}

/// Mode `i` is the first with id `id`.
pub open spec fn is_first_mode(ms: Seq<CorrectiveMode>, id: Seq<char>, i: int) -> bool {
    &&& 0 <= i < ms.len()
    &&& ms[i].id@ == id
    &&& forall|j: int| 0 <= j < i ==> ms[j].id@ != id
}

/// The mode registered under `id`.
pub open spec fn mode_named(ms: Seq<CorrectiveMode>, id: Seq<char>) -> Option<CorrectiveMode> {
    if exists|i: int| is_first_mode(ms, id, i) {
        Some(ms[choose|i: int| is_first_mode(ms, id, i)])
    } else {
        None
    }
}

/// There is at most one first mode with an id.
proof fn lemma_first_mode_unique(ms: Seq<CorrectiveMode>, id: Seq<char>, i: int)
    requires
        is_first_mode(ms, id, i),
    ensures
        mode_named(ms, id) == Some(ms[i]),
{
    let f = choose|f: int| is_first_mode(ms, id, f);
    if f < i {
        assert(ms[f].id@ != id);
    } else if f > i {
        assert(ms[i].id@ != id);
    }
}

/// Replacing or appending the mode under `id` leaves every other id's mode.
proof fn lemma_other_modes(
    ms: Seq<CorrectiveMode>,
    ns: Seq<CorrectiveMode>,
    id: Seq<char>,
    other: Seq<char>,
)
    requires
        other != id,
        ns.len() >= ms.len(),
        forall|j: int| 0 <= j < ms.len() ==> (#[trigger] ns[j]).id@ == ms[j].id@,
        forall|j: int| 0 <= j < ms.len() && ms[j].id@ != id ==> #[trigger] ns[j] == ms[j],
        forall|j: int| ms.len() <= j < ns.len() ==> (#[trigger] ns[j]).id@ == id,
    ensures
        mode_named(ns, other) == mode_named(ms, other),
{
    if exists|i: int| is_first_mode(ms, other, i) {
        let i = choose|i: int| is_first_mode(ms, other, i);
        assert(is_first_mode(ns, other, i));
        lemma_first_mode_unique(ms, other, i);
        lemma_first_mode_unique(ns, other, i);
    } else {
        assert(!exists|i: int| is_first_mode(ns, other, i)) by {
            if exists|i: int| is_first_mode(ns, other, i) {
                let i = choose|i: int| is_first_mode(ns, other, i);
                if i >= ms.len() {
                    assert(ns[i].id@ == id);
                }
                assert forall|j: int| 0 <= j < i implies ms[j].id@ != other by {
                    assert(ns[j].id@ == ms[j].id@);
                }
                assert(is_first_mode(ms, other, i));
            }
        }
    }
}

/// The refusal of a second mode under `id`.
pub open spec fn duplicate_message(id: Seq<char>) -> Seq<char> {
    "duplicate mode id '"@ + id + "' would shadow an existing tool"@
}

impl ModeRegistry {
    /// The registered modes, in registration order.
    pub closed spec fn modes(self) -> Seq<CorrectiveMode> {
        self.modes@
    }

    /// The mode registered under `id`.
    pub open spec fn lookup(self, id: Seq<char>) -> Option<CorrectiveMode> {
        mode_named(self.modes(), id)
    }

    /// An empty registry.
    pub fn new() -> (r: Self)
        ensures
            forall|id: Seq<char>| #[trigger] r.lookup(id) is None,
    {
        ModeRegistry { modes: Vec::new() }
    }

    /// Register a mode, deriving its sanitized schema. A schema that is not
    /// flat + closed is refused and nothing changes. A second mode under an
    /// id takes the first one's place and is reported, so startup fails
    /// instead of one tool silently shadowing another.
    pub fn register(
        &mut self,
        id: &'static str,
        description: &'static str,
        prompt_template: &'static str,
        output_schema: Json,
        ensemble_k: u8,
    ) -> (r: Result<(), AppError>)
        ensures
            flat_error(output_schema@) matches Some(w) ==> {
                &&& r matches Err(AppError::ValidationFailure(m)) && m@ == flat_message(id@, w)
                &&& final(self).modes() == old(self).modes()
            },
            flat_error(output_schema@) is None ==> {
                &&& final(self).lookup(id@) matches Some(mode) && mode.id@ == id@
                    && mode.description@ == description@ && mode.prompt_template@
                    == prompt_template@ && mode.output_schema == output_schema
                    && mode.sanitized_schema@ == san(output_schema@) && mode.ensemble_k
                    == ensemble_k
                &&& forall|other: Seq<char>|
                    other != id@ ==> #[trigger] final(self).lookup(other) == old(self).lookup(other)
                &&& old(self).lookup(id@) is None ==> r is Ok
                &&& old(self).lookup(id@) is Some ==> (r matches Err(AppError::ValidationFailure(m))
                    && m@ == duplicate_message(id@))
            },
    {
        match assert_flat(id, &output_schema) {
            Err(e) => {
                return Err(e);
            },
            Ok(()) => {},
        }
        let sanitized_schema = sanitize(&output_schema);
        let ghost before = self.modes@;
        let mode = CorrectiveMode {
            id,
            description,
            prompt_template,
            output_schema,
            sanitized_schema,
            ensemble_k,
        };
        let found = self.find(id);
        let i: usize = match found {
            Some(i) => i,
            None => self.modes.len(),
        };
        if i < self.modes.len() {
            let ghost m = mode;
            self.modes.set(i, mode);
            proof {
                lemma_first_mode_unique(before, id@, i as int);
                assert(is_first_mode(self.modes@, id@, i as int));
                lemma_first_mode_unique(self.modes@, id@, i as int);
                assert forall|other: Seq<char>| other != id@ implies #[trigger] self.lookup(other)
                    == mode_named(before, other) by {
                    lemma_other_modes(before, self.modes@, id@, other);
                }
            }
            let mut msg: Vec<char> = Vec::new();
            append_str(&mut msg, "duplicate mode id '");
            append_str(&mut msg, id);
            append_str(&mut msg, "' would shadow an existing tool");
            Err(AppError::ValidationFailure(string_of(msg.as_slice())))
        } else {
            let ghost m = mode;
            self.modes.push(mode);
            proof {
                assert(is_first_mode(self.modes@, id@, before.len() as int));
                lemma_first_mode_unique(self.modes@, id@, before.len() as int);
                assert forall|other: Seq<char>| other != id@ implies #[trigger] self.lookup(other)
                    == mode_named(before, other) by {
                    lemma_other_modes(before, self.modes@, id@, other);
                }
            }
            Ok(())
        }
    }

    /// The index of the first mode with id `id`.
    fn find(&self, id: &str) -> (r: Option<usize>)
        ensures
            match r {
                Some(i) => is_first_mode(self.modes@, id@, i as int),
                None => forall|j: int| 0 <= j < self.modes@.len() ==> self.modes@[j].id@ != id@,
            },
    {
        let mut i: usize = 0;
        while i < self.modes.len()
            invariant
                0 <= i <= self.modes@.len(),
                forall|j: int| 0 <= j < i ==> self.modes@[j].id@ != id@,
            decreases self.modes@.len() - i,
        {
            if str_eq(self.modes[i].id, id) {
                return Some(i);
            }
            i = i + 1;
        }
        None
    }

    /// The mode registered under `id`.
    pub fn get(&self, id: &str) -> (r: Option<&CorrectiveMode>)
        ensures
            match r {
                Some(m) => self.lookup(id@) == Some(*m),
                None => self.lookup(id@) is None,
            },
    {
        match self.find(id) {
            Some(i) => {
                proof {
                    lemma_first_mode_unique(self.modes@, id@, i as int);
                }
                Some(&self.modes[i])
            },
            None => None,
        }
    }
}

} // verus!
