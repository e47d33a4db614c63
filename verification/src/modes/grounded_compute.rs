//! Settling a computable claim: when the grounded passes agree on what to
//! count over the source, the server counts it and decides the comparison
//! itself; the model names what to count, never the value or the verdict.
use vstd::prelude::*;
use crate::modes::grounded_verify::{GroundedPass, GroundedVerdictKind};
use crate::text::{
    append_signed_decimal, append_str, chars_of, occurs_at, signed_decimal, str_eq,
    string_of,
};

verus! {

/// A computable property of a single source.
#[derive(Debug, Clone, PartialEq, Eq)]
pub enum Property {
    /// Number of lines.
    Lines,
    /// Size of the source in bytes.
    Bytes,
    /// Count of a literal string.
    Matches(String),
}

/// A numeric comparison.
#[derive(Debug, Clone, Copy, PartialEq, Eq, Structural)]
pub enum Op {
    /// Greater than.
    Gt,
    /// At least.
    Ge,
    /// Less than.
    Lt,
    /// At most.
    Le,
    /// Equal.
    Eq,
    /// Not equal.
    Ne,
}

/// The operator text of a comparison.
pub open spec fn op_str(o: Op) -> Seq<char> {
    match o {
        Op::Gt => ">"@,
        Op::Ge => ">="@,
        Op::Lt => "<"@,
        Op::Le => "<="@,
        Op::Eq => "=="@,
        Op::Ne => "!="@,
    }
}

/// The comparison parsed from its text, if it is one of the six.
pub open spec fn op_parse(s: Seq<char>) -> Option<Op> {
    if s == ">"@ {
        Some(Op::Gt)
    } else if s == ">="@ {
        Some(Op::Ge)
    } else if s == "<"@ {
        Some(Op::Lt)
    } else if s == "<="@ {
        Some(Op::Le)
    } else if s == "=="@ {
        Some(Op::Eq)
    } else if s == "!="@ {
        Some(Op::Ne)
    } else {
        None
    }
}

/// Whether `a op b` holds.
pub open spec fn op_holds(o: Op, a: int, b: int) -> bool {
    match o {
        Op::Gt => a > b,
        Op::Ge => a >= b,
        Op::Lt => a < b,
        Op::Le => a <= b,
        Op::Eq => a == b,
        Op::Ne => a != b,
    }
}

impl Op {
    /// The operator text.
    pub fn as_str(self) -> (r: &'static str)
        ensures
            r@ == op_str(self),
    {
        match self {
            Op::Gt => ">",
            Op::Ge => ">=",
            Op::Lt => "<",
            Op::Le => "<=",
            Op::Eq => "==",
            Op::Ne => "!=",
        }
    }

    /// Validate a model-supplied operator text.
    pub fn parse(s: &str) -> (r: Option<Op>)
        ensures
            r == op_parse(s@),
    {
        if str_eq(s, ">") {
            Some(Op::Gt)
        } else if str_eq(s, ">=") {
            Some(Op::Ge)
        } else if str_eq(s, "<") {
            Some(Op::Lt)
        } else if str_eq(s, "<=") {
            Some(Op::Le)
        } else if str_eq(s, "==") {
            Some(Op::Eq)
        } else if str_eq(s, "!=") {
            Some(Op::Ne)
        } else {
            None
        }
    }

    /// Decide `a op b`.
    pub fn holds(self, a: i64, b: i64) -> (r: bool)
        ensures
            r == op_holds(self, a as int, b as int),
    {
        match self {
            Op::Gt => a > b,
            Op::Ge => a >= b,
            Op::Lt => a < b,
            Op::Le => a <= b,
            Op::Eq => a == b,
            Op::Ne => a != b,
        }
    }
}

/// The agreed computation over the single source.
#[derive(Debug, Clone, PartialEq, Eq)]
pub struct ComputeSpec {
    /// What to count.
    pub property: Property,
    /// How the count compares.
    pub operator: Op,
    /// What it is compared with.
    pub threshold: i64,
}

/// A property as plain values: 0 lines, 1 bytes, 2 matches of the literal.
pub open spec fn property_key(p: Property) -> (int, Seq<char>) {
    match p {
        Property::Lines => (0, Seq::empty()),
        Property::Bytes => (1, Seq::empty()),
        Property::Matches(l) => (2, l@),
    }
}

/// Two specs describe the same computation.
pub open spec fn same_spec(a: ComputeSpec, b: ComputeSpec) -> bool {
    property_key(a.property) == property_key(b.property) && a.operator == b.operator
        && a.threshold == b.threshold
}

/// The optional text's view.
pub open spec fn opt_view(o: Option<String>) -> Option<Seq<char>> {
    match o {
        Some(s) => Some(s@),
        None => None,
    }
}

/// The property a pass names, when it is one of the supported class.
pub open spec fn property_of(pass: GroundedPass) -> Option<(int, Seq<char>)> {
    match opt_view(pass.compute_property) {
        Some(p) => if p == "lines"@ {
            Some((0, Seq::empty()))
        } else if p == "bytes"@ {
            Some((1, Seq::empty()))
        } else if p == "matches"@ {
            match opt_view(pass.compute_match_literal) {
                Some(l) => if l.len() > 0 {
                    Some((2, l))
                } else {
                    None
                },
                None => None,
            }
        } else {
            None
        },
        None => None,
    }
}

/// The pass's compute fields form an in-class spec.
pub open spec fn spec_valid(pass: GroundedPass) -> bool {
    &&& property_of(pass) is Some
    &&& opt_view(pass.compute_operator) matches Some(o) && op_parse(o) is Some
    &&& pass.compute_threshold is Some
}

/// `c` is the spec the pass's compute fields describe.
pub open spec fn spec_from(pass: GroundedPass, c: ComputeSpec) -> bool {
    &&& Some(property_key(c.property)) == property_of(pass)
    &&& opt_view(pass.compute_operator) matches Some(o) && op_parse(o) == Some(c.operator)
    &&& pass.compute_threshold == Some(c.threshold)
}

impl ComputeSpec {
    /// Build a spec from one pass's compute fields, validating the property
    /// and operator texts; `None` if a field is missing or out of class.
    pub fn from_pass(pass: &GroundedPass) -> (r: Option<ComputeSpec>)
        ensures
            r is Some <==> spec_valid(*pass),
            r matches Some(c) ==> spec_from(*pass, c),
    {
        proof {
            reveal_strlit("lines");
            reveal_strlit("bytes");
            reveal_strlit("matches");
        }
        let property = match &pass.compute_property {
            None => {
                return None;
            },
            Some(p) => {
                if str_eq(p.as_str(), "lines") {
                    Property::Lines
                } else if str_eq(p.as_str(), "bytes") {
                    Property::Bytes
                } else if str_eq(p.as_str(), "matches") {
                    match &pass.compute_match_literal {
                        Some(l) => {
                            if crate::text::char_count(l.as_str()) == 0 {
                                return None;
                            }
                            Property::Matches(l.clone())
                        },
                        None => {
                            return None;
                        },
                    }
                } else {
                    return None;
                }
            },
        };
        let operator = match &pass.compute_operator {
            Some(o) => match Op::parse(o.as_str()) {
                Some(op) => op,
                None => {
                    return None;
                },
            },
            None => {
                return None;
            },
        };
        let threshold = match pass.compute_threshold {
            Some(t) => t,
            None => {
                return None;
            },
        };
        Some(ComputeSpec { property, operator, threshold })
    }

    /// A copy of the spec.
    pub fn duplicate(&self) -> (r: ComputeSpec)
        ensures
            same_spec(r, *self),
    {
        let property = match &self.property {
            Property::Lines => Property::Lines,
            Property::Bytes => Property::Bytes,
            Property::Matches(l) => Property::Matches(l.clone()),
        };
        ComputeSpec { property, operator: self.operator, threshold: self.threshold }
    }

    /// Whether two specs describe the same computation.
    pub fn same_as(&self, other: &ComputeSpec) -> (r: bool)
        ensures
            r == same_spec(*self, *other),
    {
        let p = match (&self.property, &other.property) {
            (Property::Lines, Property::Lines) => true,
            (Property::Bytes, Property::Bytes) => true,
            (Property::Matches(a), Property::Matches(b)) => str_eq(a.as_str(), b.as_str()),
            _ => false,
        };
        p && self.operator == other.operator && self.threshold == other.threshold
    }
}

/// The valid specs of the passes, in order, as plain keys.
pub open spec fn valid_keys(ps: Seq<GroundedPass>) -> Seq<(int, Seq<char>, Op, i64)>
    decreases ps.len(),
{
    if ps.len() == 0 {
        Seq::empty()
    } else {
        let prev = valid_keys(ps.drop_last());
        let p = ps.last();
        if spec_valid(p) {
            let k = property_of(p)->0;
            prev.push((k.0, k.1, op_parse(opt_view(p.compute_operator)->0)->0, p.compute_threshold->0))
        } else {
            prev
        }
    }
}

/// The key of a spec.
pub open spec fn key_of(c: ComputeSpec) -> (int, Seq<char>, Op, i64) {
    (property_key(c.property).0, property_key(c.property).1, c.operator, c.threshold)
}

/// Occurrences of `k` in `ks`.
pub open spec fn key_count(ks: Seq<(int, Seq<char>, Op, i64)>, k: (int, Seq<char>, Op, i64)) -> nat
    decreases ks.len(),
{
    if ks.len() == 0 {
        0
    } else {
        key_count(ks.drop_last(), k) + (if ks.last() == k {
            1nat
        } else {
            0nat
        })
    }
}

/// The passes as values.
pub open spec fn passes_view(ps: Seq<&GroundedPass>) -> Seq<GroundedPass> {
    ps.map_values(|p: &GroundedPass| *p)
}

/// The spec held by a strict majority of the passes, if any: the first valid
/// spec, in pass order, that more than half the passes name.
pub fn agreed_spec(passes: &[&GroundedPass]) -> (r: Option<ComputeSpec>)
    ensures
        ({
            let ks = valid_keys(passes_view(passes@));
            let n = passes@.len();
            &&& r is Some <==> exists|i: int| 0 <= i < ks.len() && key_count(ks, #[trigger] ks[i]) * 2 > n
            &&& r matches Some(c) ==> exists|i: int|
                0 <= i < ks.len() && #[trigger] ks[i] == key_of(c) && key_count(ks, ks[i]) * 2 > n
                    && forall|j: int| 0 <= j < i ==> key_count(ks, #[trigger] ks[j]) * 2 <= n
        }),
{
    let ghost pv = passes_view(passes@);
    let n = passes.len();
    let mut specs: Vec<ComputeSpec> = Vec::new();
    let mut i: usize = 0;
    while i < n
        invariant
            0 <= i <= n,
            n == passes@.len(),
            pv == passes_view(passes@),
            specs@.len() == valid_keys(pv.take(i as int)).len(),
            forall|j: int|
                0 <= j < specs@.len() ==> key_of(#[trigger] specs@[j]) == valid_keys(
                    pv.take(i as int),
                )[j],
        decreases n - i,
    {
        assert(pv.take(i + 1).drop_last() =~= pv.take(i as int));
        assert(pv.take(i + 1).last() == *passes@[i as int]);
        match ComputeSpec::from_pass(passes[i]) {
            Some(c) => {
                specs.push(c);
            },
            None => {},
        }
        i = i + 1;
    }
    assert(pv.take(n as int) =~= pv);
    let ghost ks = valid_keys(pv);
    let m = specs.len();
    let mut a: usize = 0;
    while a < m
        invariant
            0 <= a <= m,
            m == specs@.len(),
            m == ks.len(),
            n == passes@.len(),
            ks == valid_keys(passes_view(passes@)),
            forall|j: int| 0 <= j < m ==> key_of(#[trigger] specs@[j]) == ks[j],
            forall|j: int| 0 <= j < a ==> key_count(ks, #[trigger] ks[j]) * 2 <= n,
        decreases m - a,
    {
        let mut c: usize = 0;
        let mut b: usize = 0;
        while b < m
            invariant
                0 <= b <= m,
                0 <= a < m,
                m == specs@.len(),
                m == ks.len(),
                c <= b,
                forall|j: int| 0 <= j < m ==> key_of(#[trigger] specs@[j]) == ks[j],
                c == key_count(ks.take(b as int), ks[a as int]),
            decreases m - b,
        {
            assert(ks.take(b + 1).drop_last() =~= ks.take(b as int));
            if specs[b].same_as(&specs[a]) {
                c = c + 1;
            }
            b = b + 1;
        }
        assert(ks.take(m as int) =~= ks);
        if (c as u128) * 2 > n as u128 {
            let r = specs[a].duplicate();
            assert(key_of(r) == ks[a as int]);
            return Some(r);
        }
        a = a + 1;
    }
    None
}

/// One source unit as read: its text and its size in bytes.
#[derive(Debug, Clone)]
pub struct RawUnit {
    /// The text read.
    pub text: String,
    /// Its size as the reader measured it.
    pub bytes: u64,
}

/// Occurrences of the character `c` in `s`.
pub open spec fn char_count_of(s: Seq<char>, c: char) -> nat
    decreases s.len(),
{
    if s.len() == 0 {
        0
    } else {
        char_count_of(s.drop_last(), c) + (if s.last() == c {
            1nat
        } else {
            0nat
        })
    }
}

/// Lines of `s`: newlines, plus one for a non-empty unterminated last line.
pub open spec fn line_count(s: Seq<char>) -> nat {
    if s.len() == 0 {
        0
    } else {
        char_count_of(s, '\n') + (if s.last() != '\n' {
            1nat
        } else {
            0nat
        })
    }
}

/// Leftmost non-overlapping occurrences of a non-empty `pat` in `s`; an
/// empty pattern matches at each of the `s.len() + 1` positions.
pub open spec fn match_count(s: Seq<char>, pat: Seq<char>) -> nat
    decreases s.len(),
{
    if pat.len() == 0 {
        s.len() + 1
    } else if s.len() == 0 {
        0
    } else if occurs_at(s, pat, 0) {
        1 + match_count(s.subrange(pat.len() as int, s.len() as int), pat)
    } else {
        match_count(s.subrange(1, s.len() as int), pat)
    }
}

/// A count as `i64`, saturating.
pub open spec fn cap(n: int) -> i64 {
    if n > i64::MAX {
        i64::MAX
    } else {
        n as i64
    }
}

/// The property counted over the unit.
pub open spec fn counted(p: Property, unit: RawUnit) -> i64 {
    match p {
        Property::Bytes => cap(unit.bytes as int),
        Property::Lines => cap(line_count(unit.text@) as int),
        Property::Matches(l) => cap(match_count(unit.text@, l@) as int),
    }
}

proof fn lemma_occurs_shift(s: Seq<char>, pat: Seq<char>, i: int)
    requires
        0 <= i <= s.len(),
    ensures
        occurs_at(s, pat, i) == occurs_at(s.subrange(i, s.len() as int), pat, 0),
{
    let t = s.subrange(i, s.len() as int);
    if i + pat.len() <= s.len() {
        assert(t.subrange(0, pat.len() as int) =~= s.subrange(i, i + pat.len()));
    }
}

proof fn lemma_match_count_le(s: Seq<char>, pat: Seq<char>)
    requires
        pat.len() > 0,
    ensures
        match_count(s, pat) <= s.len(),
    decreases s.len(),
{
    if s.len() > 0 {
        if occurs_at(s, pat, 0) {
            lemma_match_count_le(s.subrange(pat.len() as int, s.len() as int), pat);
        } else {
            lemma_match_count_le(s.subrange(1, s.len() as int), pat);
        }
    }
}

/// Count the leftmost non-overlapping occurrences of `pat` in `v`.
fn count_matches(v: &[char], pat: &[char]) -> (r: u128)
    ensures
        r == match_count(v@, pat@),
{
    if pat.len() == 0 {
        return v.len() as u128 + 1;
    }
    let ghost s = v@;
    let mut n: usize = 0;
    let mut i: usize = 0;
    assert(s.subrange(0, s.len() as int) =~= s);
    while i < v.len()
        invariant
            0 <= i <= s.len(),
            s == v@,
            pat@.len() > 0,
            n <= i,
            match_count(s, pat@) == n + match_count(s.subrange(i as int, s.len() as int), pat@),
        decreases s.len() - i,
    {
        let ghost t = s.subrange(i as int, s.len() as int);
        proof {
            lemma_occurs_shift(s, pat@, i as int);
        }
        if crate::text::matches_at(v, i, pat) {
            assert(t.subrange(pat@.len() as int, t.len() as int) =~= s.subrange(
                i + pat@.len(),
                s.len() as int,
            ));
            n = n + 1;
            i = i + pat.len();
        } else {
            assert(t.subrange(1, t.len() as int) =~= s.subrange(i + 1, s.len() as int));
            i = i + 1;
        }
    }
    assert(s.subrange(s.len() as int, s.len() as int).len() == 0);
    n as u128
}

/// Count the property over one source unit.
pub fn count_property(property: &Property, unit: &RawUnit) -> (r: i64)
    ensures
        r == counted(*property, *unit),
{
    match property {
        Property::Bytes => {
            if unit.bytes > i64::MAX as u64 {
                i64::MAX
            } else {
                unit.bytes as i64
            }
        },
        Property::Lines => {
            let v = chars_of(unit.text.as_str());
            if v.len() == 0 {
                return 0;
            }
            let mut nl: usize = 0;
            let mut i: usize = 0;
            while i < v.len()
                invariant
                    0 <= i <= v@.len(),
                    nl <= i,
                    nl == char_count_of(v@.take(i as int), '\n'),
                decreases v@.len() - i,
            {
                assert(v@.take(i + 1).drop_last() =~= v@.take(i as int));
                if v[i] == '\n' {
                    nl = nl + 1;
                }
                i = i + 1;
            }
            assert(v@.take(v@.len() as int) =~= v@);
            let last = v[v.len() - 1];
            let total: u128 = nl as u128 + if last != '\n' {
                1u128
            } else {
                0u128
            };
            if total > i64::MAX as u128 {
                i64::MAX
            } else {
                total as i64
            }
        },
        Property::Matches(literal) => {
            let v = chars_of(unit.text.as_str());
            let p = chars_of(literal.as_str());
            let c = count_matches(v.as_slice(), p.as_slice());
            if c > i64::MAX as u128 {
                i64::MAX
            } else {
                c as i64
            }
        },
    }
}

/// The outcome of a settled computable claim.
#[derive(Debug, Clone)]
pub struct Settled {
    /// Supported when the comparison holds, else refuted.
    pub verdict: GroundedVerdictKind,
    /// The comparison as executed: `value op threshold`.
    pub executed_form: String,
    /// The comparison's result: "true" or "false".
    pub engine_result: String,
    /// What was counted, for the reader.
    pub note: String,
}

/// The human-readable count note.
pub open spec fn note_text(p: Property, value: i64) -> Seq<char> {
    match p {
        Property::Lines => "counted "@ + signed_decimal(value as int) + " lines"@,
        Property::Bytes => "measured "@ + signed_decimal(value as int) + " bytes"@,
        Property::Matches(l) => "counted "@ + signed_decimal(value as int) + " occurrences of \""@ + l@
            + "\""@,
    }
}

/// Count the property and decide the comparison over the counted value.
pub fn settle(spec: &ComputeSpec, unit: &RawUnit) -> (r: Option<Settled>)
    ensures
        r matches Some(s) && ({
            let value = counted(spec.property, *unit);
            let holds = op_holds(spec.operator, value as int, spec.threshold as int);
            &&& s.executed_form@ == signed_decimal(value as int) + " "@ + op_str(spec.operator) + " "@
                + signed_decimal(spec.threshold as int)
            &&& s.verdict == (if holds {
                GroundedVerdictKind::Supported
            } else {
                GroundedVerdictKind::Refuted
            })
            &&& s.engine_result@ == (if holds {
                "true"@
            } else {
                "false"@
            })
            &&& s.note@ == note_text(spec.property, value)
        }),
{
    let value = count_property(&spec.property, unit);
    let mut form: Vec<char> = Vec::new();
    append_signed_decimal(&mut form, value);
    append_str(&mut form, " ");
    append_str(&mut form, spec.operator.as_str());
    append_str(&mut form, " ");
    append_signed_decimal(&mut form, spec.threshold);
    let holds = spec.operator.holds(value, spec.threshold);
    let verdict = if holds {
        GroundedVerdictKind::Supported
    } else {
        GroundedVerdictKind::Refuted
    };
    let engine_result = if holds {
        "true".to_string()
    } else {
        "false".to_string()
    };
    let mut note: Vec<char> = Vec::new();
    match &spec.property {
        Property::Lines => {
            append_str(&mut note, "counted ");
            append_signed_decimal(&mut note, value);
            append_str(&mut note, " lines");
        },
        Property::Bytes => {
            append_str(&mut note, "measured ");
            append_signed_decimal(&mut note, value);
            append_str(&mut note, " bytes");
        },
        Property::Matches(l) => {
            append_str(&mut note, "counted ");
            append_signed_decimal(&mut note, value);
            append_str(&mut note, " occurrences of \"");
            append_str(&mut note, l.as_str());
            append_str(&mut note, "\"");
        },
    }
    Some(
        Settled {
            verdict,
            executed_form: string_of(form.as_slice()),
            engine_result,
            note: string_of(note.as_slice()),
        },
    )
}

} // verus!
