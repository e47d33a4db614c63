//! Defense-in-depth validation against the unsanitized schema. The provider's
//! grammar guarantees shape but drops value constraints (numeric ranges,
//! string and array lengths); this check re-imposes them on returned values.
use vstd::prelude::*;
use crate::error::AppError;
use crate::schema::json::{json_text, Json};
use crate::text::{append_str, chars_of, join, join_chars, seqs_of, string_of};

verus! {

/// What `jsonschema` reports for the JSON texts of a schema and a value:
/// each violation as its message and its instance path, in the order the
/// validator gives them; or, when a text does not read or the schema does
/// not compile, `(true, reason)` for the schema and `(false, reason)` for
/// the value.
pub uninterp spec fn schema_check(schema: Seq<char>, value: Seq<char>) -> Result<Seq<(Seq<char>, Seq<char>)>, (bool, Seq<char>)>;

/// A report as plain values.
pub open spec fn report_view(r: Result<Vec<(String, String)>, (bool, String)>) -> Result<Seq<(Seq<char>, Seq<char>)>, (bool, Seq<char>)> {
    match r {
        Ok(v) => Ok(v@.map_values(|p: (String, String)| (p.0@, p.1@))),
        Err((schema_side, e)) => Err((schema_side, e@)),
    }
}

/// `serde_json::from_str` on both texts, `jsonschema::validator_for` on the
/// schema and the validator's `iter_errors` on the value. Trusted: the
/// report for these two texts, named [`schema_check`] (it depends on them
/// alone: remote references are not fetched). Each violation is handed back
/// as the error's display text and its instance path; a failure names its
/// side and carries the error's display text.
#[verifier::external_body]
fn check_texts(schema: &str, value: &str) -> (r: Result<Vec<(String, String)>, (bool, String)>)
    ensures
        report_view(r) == schema_check(schema@, value@),
{
    let schema: serde_json::Value = serde_json::from_str(schema).map_err(|e| (true, e.to_string()))?;
    let validator = jsonschema::validator_for(&schema).map_err(|e| (true, e.to_string()))?;
    let value: serde_json::Value = serde_json::from_str(value).map_err(|e| (false, e.to_string()))?;
    Ok(validator.iter_errors(&value).map(|e| (e.to_string(), e.instance_path().to_string())).collect())
}

/// One violation as a line: its message, `" at "`, and where it occurred.
pub open spec fn violation_line(v: (Seq<char>, Seq<char>)) -> Seq<char> {
    v.0 + " at "@ + v.1
}

/// Every violation as a line, in order.
pub open spec fn violation_lines(vs: Seq<(Seq<char>, Seq<char>)>) -> Seq<Seq<char>> {
    vs.map_values(|v: (Seq<char>, Seq<char>)| violation_line(v))
}

/// The failure a report amounts to, if any: a schema that does not compile
/// is a loud error, a value text that does not read is named as such, and
/// otherwise every violation is listed.
pub open spec fn report_failure(report: Result<Seq<(Seq<char>, Seq<char>)>, (bool, Seq<char>)>) -> Option<Seq<char>> {
    match report {
        Err((true, e)) => Some("schema does not compile: "@ + e),
        Err((false, e)) => Some("value does not read as JSON: "@ + e),
        Ok(vs) => if vs.len() == 0 {
            None
        } else {
            Some(join(violation_lines(vs), "; "@))
        },
    }
}

/// One violation as a line (see [`violation_line`]).
pub fn violation_text(message: &str, path: &str) -> (r: Vec<char>)
    ensures
        r@ == violation_line((message@, path@)),
{
    let mut r = chars_of(message);
    append_str(&mut r, " at ");
    append_str(&mut r, path);
    r
}

/// Turn a validator's report into the result.
pub fn report_result(report: Result<Vec<(String, String)>, (bool, String)>) -> (r: Result<(), AppError>)
    ensures
        match report_failure(report_view(report)) {
            None => r is Ok,
            Some(m) => r matches Err(AppError::ValidationFailure(x)) && x@ == m,
        },
{
    match report {
        Err((schema_side, e)) => {
            let mut m = if schema_side {
                chars_of("schema does not compile: ")
            } else {
                chars_of("value does not read as JSON: ")
            };
            append_str(&mut m, e.as_str());
            Err(AppError::ValidationFailure(string_of(m.as_slice())))
        },
        Ok(vs) => {
            if vs.len() == 0 {
                Ok(())
            } else {
                let ghost pv = vs@.map_values(|p: (String, String)| (p.0@, p.1@));
                let mut lines: Vec<Vec<char>> = Vec::new();
                let mut i: usize = 0;
                while i < vs.len()
                    invariant
                        0 <= i <= vs@.len(),
                        pv == vs@.map_values(|p: (String, String)| (p.0@, p.1@)),
                        seqs_of(lines@) == violation_lines(pv.take(i as int)),
                    decreases vs@.len() - i,
                {
                    let line = violation_text(vs[i].0.as_str(), vs[i].1.as_str());
                    let ghost before = seqs_of(lines@);
                    lines.push(line);
                    assert(seqs_of(lines@) =~= before.push(line@));
                    assert(violation_lines(pv.take(i + 1)) =~= violation_lines(pv.take(i as int)).push(violation_line(pv[i as int])));
                    i = i + 1;
                }
                assert(pv.take(vs@.len() as int) =~= pv);
                let sep = chars_of("; ");
                let joined = join_chars(&lines, sep.as_slice());
                Err(AppError::ValidationFailure(string_of(joined.as_slice())))
            }
        },
    }
}

/// Validate `value` against the unsanitized `schema`, listing every
/// violation.
pub fn validate(schema: &Json, value: &Json) -> (r: Result<(), AppError>)
    ensures
        match report_failure(schema_check(json_text(schema@), json_text(value@))) {
            None => r is Ok,
            Some(m) => r matches Err(AppError::ValidationFailure(x)) && x@ == m,
        },
{
    let s = schema.to_text();
    let v = value.to_text();
    let report = check_texts(s.as_str(), v.as_str());
    report_result(report)
}

} // verus!
