//! The flat + closed invariant of a mode's output schema: the root is an
//! object whose properties are scalars (optionally enum-constrained), nullable
//! scalars (`type: [scalar, "null"]`), or arrays of scalars — one level of
//! named fields, no `$ref`, no non-scalar unions.
use vstd::prelude::*;
use crate::error::AppError;
use crate::schema::json::{
    as_str, get, has_key, is_compound, jv, jv_entries, jv_list, lemma_jv_entries, lemma_jv_list,
    obj_get, Entries, Json, JsonV,
};
use crate::text::{append_str, str_eq, string_of};

verus! {

/// A scalar type name.
pub open spec fn scalar_name(t: Seq<char>) -> bool {
    t == "string"@ || t == "number"@ || t == "integer"@ || t == "boolean"@
}

/// A string value naming a scalar type.
pub open spec fn names_scalar(j: JsonV) -> bool {
    j matches JsonV::Str(t) && scalar_name(t)
}

/// No value is an object or an array.
pub open spec fn all_scalar(vs: Seq<JsonV>) -> bool {
    forall|i: int| 0 <= i < vs.len() ==> !is_compound(#[trigger] vs[i])
}

/// A branch fixing one scalar constant.
pub open spec fn is_scalar_const(b: JsonV) -> bool {
    get(b, "const"@) matches Some(c) && !is_compound(c)
}

/// Every branch fixes one scalar constant.
pub open spec fn all_scalar_consts(bs: Seq<JsonV>) -> bool {
    forall|i: int| 0 <= i < bs.len() ==> is_scalar_const(#[trigger] bs[i])
}

/// An enumeration of scalar values: `enum: [..]` of scalars, or a non-empty
/// `oneOf: [{const: ..}, ..]` whose every branch is a scalar constant.
pub open spec fn is_scalar_enum(p: JsonV) -> bool {
    match get(p, "enum"@) {
        Some(JsonV::Array(vs)) => all_scalar(vs),
        _ => match get(p, "oneOf"@) {
            Some(JsonV::Array(bs)) => bs.len() > 0 && all_scalar_consts(bs),
            _ => false,
        },
    }
}

/// A two-type union of `"null"` and a scalar type name.
pub open spec fn is_nullable_scalar(u: Seq<JsonV>) -> bool {
    &&& u.len() == 2
    &&& (u[0] == JsonV::Str("null"@) || u[1] == JsonV::Str("null"@))
    &&& (names_scalar(u[0]) || names_scalar(u[1]))
}

/// `property '<name>'` followed by `rest`.
pub open spec fn about(name: Seq<char>, rest: Seq<char>) -> Seq<char> {
    "property '"@ + name + "'"@ + rest
}

/// The item type named by an array property.
pub open spec fn item_type(p: JsonV) -> Option<Seq<char>> {
    match get(p, "items"@) {
        Some(items) => as_str(get(items, "type"@)),
        None => None,
    }
}

/// What makes property `name` illegal, if anything.
pub open spec fn property_error(name: Seq<char>, p: JsonV) -> Option<Seq<char>> {
    if is_scalar_enum(p) {
        None
    } else {
        match get(p, "type"@) {
            Some(JsonV::Array(u)) => if is_nullable_scalar(u) {
                None
            } else {
                Some(about(name, " has a type union that is not a nullable scalar"@))
            },
            Some(JsonV::Str(t)) => if scalar_name(t) {
                None
            } else if t == "array"@ {
                match item_type(p) {
                    Some(it) => if scalar_name(it) {
                        None
                    } else {
                        Some(about(name, " is not an array of scalars"@))
                    },
                    None => Some(about(name, " is not an array of scalars"@)),
                }
            } else {
                Some(about(name, " has non-scalar type '"@ + t + "' (one level only)"@))
            },
            _ => Some(about(name, " has no concrete type"@)),
        }
    }
}

/// The first illegal property's complaint, in entry order.
pub open spec fn properties_error(e: Entries) -> Option<Seq<char>>
    decreases e.len(),
{
    if e.len() == 0 {
        None
    } else {
        match properties_error(e.subrange(0, e.len() - 1)) {
            Some(w) => Some(w),
            None => property_error(e[e.len() - 1].0, e[e.len() - 1].1),
        }
    }
}

/// What makes a schema not flat + closed, if anything.
pub open spec fn flat_error(schema: JsonV) -> Option<Seq<char>> {
    match schema {
        JsonV::Object(root) => if as_str(obj_get(root, "type"@)) != Some("object"@) {
            Some("root type must be 'object'"@)
        } else if has_key(root, "$ref"@) || has_key(root, "$defs"@) || has_key(root, "anyOf"@) {
            Some("references and object/union schemas are not allowed (nullable scalars are)"@)
        } else {
            match obj_get(root, "properties"@) {
                Some(JsonV::Object(props)) => properties_error(props),
                _ => Some("root has no properties"@),
            }
        },
        _ => Some("root is not an object schema"@),
    }
}

/// The refusal of mode `id`'s schema for `what`.
pub open spec fn flat_message(id: Seq<char>, what: Seq<char>) -> Seq<char> {
    "mode '"@ + id + "' output schema is not flat+closed: "@ + what
}

/// No element is an object or an array.
fn all_scalar_exec(vs: &Vec<Json>) -> (r: bool)
    ensures
        r == all_scalar(jv_list(vs@)),
{
    proof {
        lemma_jv_list(vs@);
    }
    let mut i: usize = 0;
    while i < vs.len()
        invariant
            0 <= i <= vs@.len(),
            jv_list(vs@).len() == vs@.len(),
            forall|j: int| 0 <= j < vs@.len() ==> #[trigger] jv_list(vs@)[j] == jv(vs@[j]),
            forall|j: int| 0 <= j < i ==> !is_compound(#[trigger] jv_list(vs@)[j]),
        decreases vs@.len() - i,
    {
        if vs[i].is_compound() {
            assert(is_compound(jv_list(vs@)[i as int]));
            return false;
        }
        i = i + 1;
    }
    true
}

/// Every branch fixes one scalar constant.
pub(crate) fn all_scalar_consts_exec(bs: &Vec<Json>) -> (r: bool)
    ensures
        r == all_scalar_consts(jv_list(bs@)),
{
    proof {
        lemma_jv_list(bs@);
    }
    let mut i: usize = 0;
    while i < bs.len()
        invariant
            0 <= i <= bs@.len(),
            jv_list(bs@).len() == bs@.len(),
            forall|j: int| 0 <= j < bs@.len() ==> #[trigger] jv_list(bs@)[j] == jv(bs@[j]),
            forall|j: int| 0 <= j < i ==> is_scalar_const(#[trigger] jv_list(bs@)[j]),
        decreases bs@.len() - i,
    {
        let ok = match bs[i].get("const") {
            Some(c) => !c.is_compound(),
            None => false,
        };
        if !ok {
            assert(!is_scalar_const(jv_list(bs@)[i as int]));
            return false;
        }
        i = i + 1;
    }
    true
}

/// An enumeration of scalar values.
pub fn is_scalar_enum_exec(p: &Json) -> (r: bool)
    ensures
        r == is_scalar_enum(p@),
{
    if let Some(e) = p.get("enum") {
        if let Some(vs) = e.as_array() {
            return all_scalar_exec(vs);
        }
    }
    if let Some(o) = p.get("oneOf") {
        if let Some(bs) = o.as_array() {
            proof {
                lemma_jv_list(bs@);
            }
            return bs.len() > 0 && all_scalar_consts_exec(bs);
        }
    }
    false
}

/// A scalar type name.
fn scalar_name_exec(t: &str) -> (r: bool)
    ensures
        r == scalar_name(t@),
{
    str_eq(t, "string") || str_eq(t, "number") || str_eq(t, "integer") || str_eq(t, "boolean")
}

/// A string value naming a scalar type.
fn names_scalar_exec(j: &Json) -> (r: bool)
    ensures
        r == names_scalar(j@),
{
    match j.as_str() {
        Some(t) => scalar_name_exec(t),
        None => false,
    }
}

/// `property '<name>'` followed by `rest`.
fn about_exec(name: &str, rest: &str) -> (r: Vec<char>)
    ensures
        r@ == about(name@, rest@),
{
    let mut out: Vec<char> = Vec::new();
    append_str(&mut out, "property '");
    append_str(&mut out, name);
    append_str(&mut out, "'");
    append_str(&mut out, rest);
    out
}

/// What makes property `name` illegal, if anything.
fn property_error_exec(name: &str, p: &Json) -> (r: Option<Vec<char>>)
    ensures
        match r {
            Some(w) => property_error(name@, p@) == Some(w@),
            None => property_error(name@, p@) is None,
        },
{
    if is_scalar_enum_exec(p) {
        return None;
    }
    match p.get("type") {
        Some(ty) => {
            if let Some(u) = ty.as_array() {
                proof {
                    lemma_jv_list(u@);
                }
                let nullable = u.len() == 2 && (match (u[0].as_str(), u[1].as_str()) {
                    (Some(a), _) if str_eq(a, "null") => true,
                    (_, Some(b)) if str_eq(b, "null") => true,
                    _ => false,
                }) && (names_scalar_exec(&u[0]) || names_scalar_exec(&u[1]));
                if nullable {
                    return None;
                }
                return Some(about_exec(name, " has a type union that is not a nullable scalar"));
            }
            match ty.as_str() {
                Some(t) => {
                    if scalar_name_exec(t) {
                        None
                    } else if str_eq(t, "array") {
                        let it = match p.get("items") {
                            Some(items) => match items.get("type") {
                                Some(x) => x.as_str(),
                                None => None,
                            },
                            None => None,
                        };
                        match it {
                            Some(x) => if scalar_name_exec(x) {
                                None
                            } else {
                                Some(about_exec(name, " is not an array of scalars"))
                            },
                            None => Some(about_exec(name, " is not an array of scalars")),
                        }
                    } else {
                        let mut rest: Vec<char> = Vec::new();
                        append_str(&mut rest, " has non-scalar type '");
                        append_str(&mut rest, t);
                        append_str(&mut rest, "' (one level only)");
                        let rest_s = string_of(rest.as_slice());
                        let out = about_exec(name, rest_s.as_str());
                        Some(out)
                    }
                },
                None => Some(about_exec(name, " has no concrete type")),
            }
        },
        None => Some(about_exec(name, " has no concrete type")),
    }
}

/// The first illegal property's complaint, in entry order.
fn properties_error_exec(props: &Vec<(String, Json)>) -> (r: Option<Vec<char>>)
    ensures
        match r {
            Some(w) => properties_error(jv_entries(props@)) == Some(w@),
            None => properties_error(jv_entries(props@)) is None,
        },
{
    proof {
        lemma_jv_entries(props@);
    }
    let ghost e = jv_entries(props@);
    let mut i: usize = 0;
    while i < props.len()
        invariant
            0 <= i <= props@.len(),
            e == jv_entries(props@),
            e.len() == props@.len(),
            forall|j: int| 0 <= j < e.len() ==> #[trigger] e[j] == (props@[j].0@, jv(props@[j].1)),
            properties_error(e.subrange(0, i as int)) is None,
        decreases props@.len() - i,
    {
        let ghost next = e.subrange(0, i + 1);
        assert(next.subrange(0, i as int) =~= e.subrange(0, i as int));
        match property_error_exec(props[i].0.as_str(), &props[i].1) {
            Some(w) => {
                proof {
                    assert(properties_error(next) == Some(w@));
                    lemma_first_error_stays(e, i as int + 1);
                }
                return Some(w);
            },
            None => {},
        }
        i = i + 1;
    }
    assert(e.subrange(0, e.len() as int) =~= e);
    None
}

/// A complaint found in a prefix is the complaint of the whole.
proof fn lemma_first_error_stays(e: Entries, n: int)
    requires
        0 <= n <= e.len(),
        properties_error(e.subrange(0, n)) is Some,
    ensures
        properties_error(e) == properties_error(e.subrange(0, n)),
    decreases e.len() - n,
{
    if n < e.len() {
        let next = e.subrange(0, n + 1);
        assert(next.subrange(0, n) =~= e.subrange(0, n));
        lemma_first_error_stays(e, n + 1);
    } else {
        assert(e.subrange(0, n) =~= e);
    }
}

/// Enforce the flat + closed invariant on mode `id`'s output schema.
pub fn assert_flat(id: &str, schema: &Json) -> (r: Result<(), AppError>)
    ensures
        match flat_error(schema@) {
            None => r is Ok,
            Some(w) => r matches Err(AppError::ValidationFailure(m)) && m@ == flat_message(id@, w),
        },
{
    let what: Option<Vec<char>> = match schema.as_object() {
        None => Some(crate::text::chars_of("root is not an object schema")),
        Some(root) => {
            let is_object = match schema.get("type") {
                Some(t) => match t.as_str() {
                    Some(s) => str_eq(s, "object"),
                    None => false,
                },
                None => false,
            };
            if !is_object {
                Some(crate::text::chars_of("root type must be 'object'"))
            } else if schema.get("$ref").is_some() || schema.get("$defs").is_some()
                || schema.get("anyOf").is_some() {
                Some(
                    crate::text::chars_of(
                        "references and object/union schemas are not allowed (nullable scalars are)",
                    ),
                )
            } else {
                match schema.get("properties") {
                    Some(p) => match p.as_object() {
                        Some(props) => properties_error_exec(props),
                        None => Some(crate::text::chars_of("root has no properties")),
                    },
                    None => Some(crate::text::chars_of("root has no properties")),
                }
            }
        },
    };
    match what {
        None => Ok(()),
        Some(w) => {
            let mut msg: Vec<char> = Vec::new();
            append_str(&mut msg, "mode '");
            append_str(&mut msg, id);
            append_str(&mut msg, "' output schema is not flat+closed: ");
            crate::text::append_chars(&mut msg, w.as_slice());
            Err(AppError::ValidationFailure(string_of(msg.as_slice())))
        },
    }
}

} // verus!
