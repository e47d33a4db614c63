//! The grammar-subset form of a schema. The provider's structured-output
//! grammar requires `additionalProperties: false` and a complete `required`
//! list on every object, and rejects numeric and length constraints and
//! draft metadata. The constraints stripped here stay in the unsanitized
//! schema, where the local validator re-checks them on returned values.
//!
//! Each child schema (under `properties`, `$defs`, `definitions`, `items`,
//! `additionalItems`, `contains`, `anyOf`, `allOf`, `oneOf`, `prefixItems`) is
//! sanitized, then the level itself: the unsupported keywords and the
//! metadata go, a `oneOf` of scalar constants becomes an `enum`, `minItems`
//! stays only as 0 or 1, and an object is closed with every property
//! required.
use vstd::prelude::*;
use crate::schema::flat::{all_scalar_consts, all_scalar_consts_exec, is_scalar_const};
use crate::schema::json::{
    as_str, as_u64, get, has_key, jv, jv_entries, jv_list, key_index, lemma_first_key,
    lemma_jv_entries, lemma_jv_entries_push, lemma_jv_list, lemma_jv_list_push, obj_get,
    obj_insert, obj_remove, entries_get, entries_insert, is_first_key, lemma_key_index_is,
    Entries, Json, JsonV,
};
use crate::text::str_eq;

verus! {

/// Keywords the grammar does not support, and metadata it has no use for;
/// `description` stays.
pub open spec fn is_stripped(k: Seq<char>) -> bool {
    ||| k == "minimum"@
    ||| k == "maximum"@
    ||| k == "exclusiveMinimum"@
    ||| k == "exclusiveMaximum"@
    ||| k == "multipleOf"@
    ||| k == "minLength"@
    ||| k == "maxLength"@
    ||| k == "pattern"@
    ||| k == "maxItems"@
    ||| k == "minProperties"@
    ||| k == "maxProperties"@
    ||| k == "$schema"@
    ||| k == "title"@
}

/// Keywords whose value maps names to schemas.
pub open spec fn is_map_position(k: Seq<char>) -> bool {
    k == "properties"@ || k == "$defs"@ || k == "definitions"@
}

/// Keywords whose value is one schema.
pub open spec fn is_single_position(k: Seq<char>) -> bool {
    k == "items"@ || k == "additionalItems"@ || k == "contains"@
}

/// Keywords whose value is a list of schemas.
pub open spec fn is_list_position(k: Seq<char>) -> bool {
    k == "anyOf"@ || k == "allOf"@ || k == "oneOf"@ || k == "prefixItems"@
}

/// A schema in the grammar subset.
pub open spec fn san(j: JsonV) -> JsonV
    decreases j, 0nat,
{
    match j {
        JsonV::Object(m) => {
            proof {
                assert(decreases_to!(j => j->Object_0));
            }
            JsonV::Object(finish(m, san_entries(m)))
        },
        _ => j,
    }
}

/// Each entry's child schemas sanitized.
pub open spec fn san_entries(m: Entries) -> Entries
    decreases m, 0nat,
{
    if m.len() == 0 {
        m
    } else {
        let last = m[m.len() - 1];
        proof {
            assert(decreases_to!(m => m[m.len() - 1]));
            assert(decreases_to!(m[m.len() - 1] => m[m.len() - 1].1));
            assert(decreases_to!(m => m.subrange(0, m.len() - 1)));
        }
        san_entries(m.subrange(0, m.len() - 1)).push((last.0, san_child(last.0, last.1)))
    }
}

/// The value under key `k` with its child schemas sanitized.
pub open spec fn san_child(k: Seq<char>, v: JsonV) -> JsonV
    decreases v, 1nat,
{
    if is_map_position(k) {
        match v {
            JsonV::Object(c) => {
                proof {
                    assert(decreases_to!(v => v->Object_0));
                }
                JsonV::Object(san_values(c))
            },
            _ => v,
        }
    } else if is_single_position(k) {
        san(v)
    } else if is_list_position(k) {
        match v {
            JsonV::Array(a) => {
                proof {
                    assert(decreases_to!(v => v->Array_0));
                }
                JsonV::Array(san_list(a))
            },
            _ => v,
        }
    } else {
        v
    }
}

/// Each entry's value sanitized.
pub open spec fn san_values(c: Entries) -> Entries
    decreases c, 0nat,
{
    if c.len() == 0 {
        c
    } else {
        proof {
            assert(decreases_to!(c => c[c.len() - 1]));
            assert(decreases_to!(c[c.len() - 1] => c[c.len() - 1].1));
            assert(decreases_to!(c => c.subrange(0, c.len() - 1)));
        }
        san_values(c.subrange(0, c.len() - 1)).push(
            (c[c.len() - 1].0, san(c[c.len() - 1].1)),
        )
    }
}

/// Each schema sanitized.
pub open spec fn san_list(a: Seq<JsonV>) -> Seq<JsonV>
    decreases a, 0nat,
{
    if a.len() == 0 {
        a
    } else {
        proof {
            assert(decreases_to!(a => a[a.len() - 1]));
            assert(decreases_to!(a => a.subrange(0, a.len() - 1)));
        }
        san_list(a.subrange(0, a.len() - 1)).push(san(a[a.len() - 1]))
    }
}

/// The entries without the stripped keywords.
pub open spec fn strip(e: Entries) -> Entries
    decreases e.len(),
{
    if e.len() == 0 {
        e
    } else {
        let rest = strip(e.subrange(0, e.len() - 1));
        if is_stripped(e[e.len() - 1].0) {
            rest
        } else {
            rest.push(e[e.len() - 1])
        }
    }
}

/// The branches of a level's `oneOf` when every one is a scalar constant.
pub open spec fn const_branches(m: Entries) -> Option<Seq<JsonV>> {
    match obj_get(m, "oneOf"@) {
        Some(JsonV::Array(bs)) => if all_scalar_consts(bs) {
            Some(bs)
        } else {
            None
        },
        _ => None,
    }
}

/// The constants of the branches, in order.
pub open spec fn consts_of(bs: Seq<JsonV>) -> Seq<JsonV>
    decreases bs.len(),
{
    if bs.len() == 0 {
        Seq::empty()
    } else {
        consts_of(bs.subrange(0, bs.len() - 1)).push(get(bs[bs.len() - 1], "const"@).unwrap())
    }
}

/// The first string `type` a branch names.
pub open spec fn first_type(bs: Seq<JsonV>) -> Option<Seq<char>>
    decreases bs.len(),
{
    if bs.len() == 0 {
        None
    } else {
        match first_type(bs.subrange(0, bs.len() - 1)) {
            Some(t) => Some(t),
            None => as_str(get(bs[bs.len() - 1], "type"@)),
        }
    }
}

/// A `oneOf` of scalar constants rewritten as the equivalent `enum`.
pub open spec fn with_enum(e: Entries, bs: Seq<JsonV>) -> Entries {
    let dropped = obj_remove(e, "oneOf"@);
    let typed = match first_type(bs) {
        Some(t) => obj_insert(dropped, "type"@, JsonV::Str(t)),
        None => dropped,
    };
    obj_insert(typed, "enum"@, JsonV::Array(consts_of(bs)))
}

/// The level's `minItems` is a number above 1.
pub open spec fn min_items_over_one(e: Entries) -> bool {
    match obj_get(e, "minItems"@) {
        Some(v) => match as_u64(v) {
            Some(n) => n > 1,
            None => false,
        },
        None => false,
    }
}

/// The keys of entries, as string values.
pub open spec fn key_values(e: Entries) -> Seq<JsonV>
    decreases e.len(),
{
    if e.len() == 0 {
        Seq::empty()
    } else {
        key_values(e.subrange(0, e.len() - 1)).push(JsonV::Str(e[e.len() - 1].0))
    }
}

/// The level's property names, as string values.
pub open spec fn property_names(e: Entries) -> Seq<JsonV> {
    match obj_get(e, "properties"@) {
        Some(JsonV::Object(p)) => key_values(p),
        _ => Seq::empty(),
    }
}

/// An object level closed, with every property required.
pub open spec fn close(e: Entries) -> Entries {
    if as_str(obj_get(e, "type"@)) == Some("object"@) {
        obj_insert(
            obj_insert(e, "additionalProperties"@, JsonV::Bool(false)),
            "required"@,
            JsonV::Array(property_names(e)),
        )
    } else {
        e
    }
}

/// The level itself brought into the grammar subset: `m` is the level as
/// given, `r` its entries with their child schemas sanitized.
pub open spec fn finish(m: Entries, r: Entries) -> Entries {
    let stripped = strip(r);
    let collapsed = match const_branches(m) {
        Some(bs) => with_enum(stripped, bs),
        None => stripped,
    };
    let bounded = if min_items_over_one(collapsed) {
        obj_remove(collapsed, "minItems"@)
    } else {
        collapsed
    };
    close(bounded)
}

// ---------------------------------------------------------------------------
// The level itself
// ---------------------------------------------------------------------------

/// One of the stripped keywords.
fn is_stripped_exec(k: &str) -> (r: bool)
    ensures
        r == is_stripped(k@),
{
    str_eq(k, "minimum") || str_eq(k, "maximum") || str_eq(k, "exclusiveMinimum")
        || str_eq(k, "exclusiveMaximum") || str_eq(k, "multipleOf") || str_eq(k, "minLength")
        || str_eq(k, "maxLength") || str_eq(k, "pattern") || str_eq(k, "maxItems")
        || str_eq(k, "minProperties") || str_eq(k, "maxProperties") || str_eq(k, "$schema")
        || str_eq(k, "title")
}

/// A copy of an entry.
fn copy_entry(x: &(String, Json)) -> (r: (String, Json))
    ensures
        r.0@ == x.0@,
        r.1@ == x.1@,
{
    (x.0.clone(), x.1.copy())
}

/// The entries without the stripped keywords.
fn strip_exec(e: &Vec<(String, Json)>) -> (r: Vec<(String, Json)>)
    ensures
        jv_entries(r@) == strip(jv_entries(e@)),
{
    proof {
        lemma_jv_entries(e@);
    }
    let ghost m = jv_entries(e@);
    let mut out: Vec<(String, Json)> = Vec::new();
    let mut i: usize = 0;
    while i < e.len()
        invariant
            0 <= i <= e@.len(),
            m == jv_entries(e@),
            m.len() == e@.len(),
            forall|j: int| 0 <= j < m.len() ==> #[trigger] m[j] == (e@[j].0@, jv(e@[j].1)),
            jv_entries(out@) == strip(m.subrange(0, i as int)),
        decreases e@.len() - i,
    {
        let ghost next = m.subrange(0, i + 1);
        assert(next.subrange(0, i as int) =~= m.subrange(0, i as int));
        if !is_stripped_exec(e[i].0.as_str()) {
            let x = copy_entry(&e[i]);
            proof {
                lemma_jv_entries_push(out@, x);
            }
            out.push(x);
        }
        i = i + 1;
    }
    assert(m.subrange(0, m.len() as int) =~= m);
    out
}

/// The entries without any entry under `k`.
fn remove_exec(e: &Vec<(String, Json)>, k: &str) -> (r: Vec<(String, Json)>)
    ensures
        jv_entries(r@) == obj_remove(jv_entries(e@), k@),
{
    proof {
        lemma_jv_entries(e@);
    }
    let ghost m = jv_entries(e@);
    let mut out: Vec<(String, Json)> = Vec::new();
    let mut i: usize = 0;
    while i < e.len()
        invariant
            0 <= i <= e@.len(),
            m == jv_entries(e@),
            m.len() == e@.len(),
            forall|j: int| 0 <= j < m.len() ==> #[trigger] m[j] == (e@[j].0@, jv(e@[j].1)),
            jv_entries(out@) == obj_remove(m.subrange(0, i as int), k@),
        decreases e@.len() - i,
    {
        let ghost next = m.subrange(0, i + 1);
        assert(next.subrange(0, i as int) =~= m.subrange(0, i as int));
        if !str_eq(e[i].0.as_str(), k) {
            let x = copy_entry(&e[i]);
            proof {
                lemma_jv_entries_push(out@, x);
            }
            out.push(x);
        }
        i = i + 1;
    }
    assert(m.subrange(0, m.len() as int) =~= m);
    out
}

/// The branches of the level's `oneOf` when every one is a scalar constant.
fn const_branches_exec(m: &Vec<(String, Json)>) -> (r: Option<&Vec<Json>>)
    ensures
        match r {
            Some(bs) => const_branches(jv_entries(m@)) == Some(jv_list(bs@)),
            None => const_branches(jv_entries(m@)) is None,
        },
{
    match entries_get(m, "oneOf") {
        Some(o) => match o.as_array() {
            Some(bs) => if all_scalar_consts_exec(bs) {
                Some(bs)
            } else {
                None
            },
            None => None,
        },
        None => None,
    }
}

/// The constants of the branches, in order.
fn consts_of_exec(bs: &Vec<Json>) -> (r: Vec<Json>)
    requires
        all_scalar_consts(jv_list(bs@)),
    ensures
        jv_list(r@) == consts_of(jv_list(bs@)),
{
    proof {
        lemma_jv_list(bs@);
    }
    let ghost l = jv_list(bs@);
    let mut out: Vec<Json> = Vec::new();
    let mut i: usize = 0;
    while i < bs.len()
        invariant
            0 <= i <= bs@.len(),
            l == jv_list(bs@),
            l.len() == bs@.len(),
            forall|j: int| 0 <= j < l.len() ==> #[trigger] l[j] == jv(bs@[j]),
            all_scalar_consts(l),
            jv_list(out@) == consts_of(l.subrange(0, i as int)),
        decreases bs@.len() - i,
    {
        let ghost next = l.subrange(0, i + 1);
        assert(next.subrange(0, i as int) =~= l.subrange(0, i as int));
        assert(is_scalar_const(l[i as int]));
        match bs[i].get("const") {
            Some(c) => {
                let x = c.copy();
                proof {
                    lemma_jv_list_push(out@, x);
                }
                out.push(x);
            },
            None => {},
        }
        i = i + 1;
    }
    assert(l.subrange(0, l.len() as int) =~= l);
    out
}

/// A type found in a prefix of the branches is the first type of all.
proof fn lemma_first_type_stays(l: Seq<JsonV>, n: int)
    requires
        0 <= n <= l.len(),
        first_type(l.subrange(0, n)) is Some,
    ensures
        first_type(l) == first_type(l.subrange(0, n)),
    decreases l.len() - n,
{
    if n < l.len() {
        let next = l.subrange(0, n + 1);
        assert(next.subrange(0, n) =~= l.subrange(0, n));
        lemma_first_type_stays(l, n + 1);
    } else {
        assert(l.subrange(0, n) =~= l);
    }
}

/// The first string `type` a branch names.
fn first_type_exec(bs: &Vec<Json>) -> (r: Option<&str>)
    ensures
        match r {
            Some(t) => first_type(jv_list(bs@)) == Some(t@),
            None => first_type(jv_list(bs@)) is None,
        },
{
    proof {
        lemma_jv_list(bs@);
    }
    let ghost l = jv_list(bs@);
    let mut i: usize = 0;
    while i < bs.len()
        invariant
            0 <= i <= bs@.len(),
            l == jv_list(bs@),
            l.len() == bs@.len(),
            forall|j: int| 0 <= j < l.len() ==> #[trigger] l[j] == jv(bs@[j]),
            first_type(l.subrange(0, i as int)) is None,
        decreases bs@.len() - i,
    {
        let ghost next = l.subrange(0, i + 1);
        assert(next.subrange(0, i as int) =~= l.subrange(0, i as int));
        match bs[i].get("type") {
            Some(t) => match t.as_str() {
                Some(s) => {
                    proof {
                        lemma_first_type_stays(l, i + 1);
                    }
                    return Some(s);
                },
                None => {},
            },
            None => {},
        }
        i = i + 1;
    }
    assert(l.subrange(0, l.len() as int) =~= l);
    None
}

/// The keys of entries, as string values.
fn key_values_exec(p: &Vec<(String, Json)>) -> (r: Vec<Json>)
    ensures
        jv_list(r@) == key_values(jv_entries(p@)),
{
    proof {
        lemma_jv_entries(p@);
    }
    let ghost m = jv_entries(p@);
    let mut out: Vec<Json> = Vec::new();
    let mut i: usize = 0;
    while i < p.len()
        invariant
            0 <= i <= p@.len(),
            m == jv_entries(p@),
            m.len() == p@.len(),
            forall|j: int| 0 <= j < m.len() ==> #[trigger] m[j] == (p@[j].0@, jv(p@[j].1)),
            jv_list(out@) == key_values(m.subrange(0, i as int)),
        decreases p@.len() - i,
    {
        let ghost next = m.subrange(0, i + 1);
        assert(next.subrange(0, i as int) =~= m.subrange(0, i as int));
        let x = Json::Str(p[i].0.clone());
        proof {
            lemma_jv_list_push(out@, x);
        }
        out.push(x);
        i = i + 1;
    }
    assert(m.subrange(0, m.len() as int) =~= m);
    out
}

/// An object level closed, with every property required.
fn close_exec(e: Vec<(String, Json)>) -> (r: Vec<(String, Json)>)
    ensures
        jv_entries(r@) == close(jv_entries(e@)),
{
    let is_object = match entries_get(&e, "type") {
        Some(t) => match t.as_str() {
            Some(s) => str_eq(s, "object"),
            None => false,
        },
        None => false,
    };
    if !is_object {
        return e;
    }
    let names: Vec<Json> = match entries_get(&e, "properties") {
        Some(p) => match p.as_object() {
            Some(props) => key_values_exec(props),
            None => Vec::new(),
        },
        None => Vec::new(),
    };
    proof {
        if jv_list(names@).len() == 0 {
            assert(jv_list(names@) =~= Seq::<JsonV>::empty());
        }
    }
    let mut out = e;
    entries_insert(&mut out, "additionalProperties", Json::Bool(false));
    entries_insert(&mut out, "required", Json::Array(names));
    out
}

/// The level itself brought into the grammar subset, from the level as
/// given and its entries with their child schemas sanitized.
fn finish_exec(m: &Vec<(String, Json)>, r: &Vec<(String, Json)>) -> (out: Vec<(String, Json)>)
    ensures
        jv_entries(out@) == finish(jv_entries(m@), jv_entries(r@)),
{
    let stripped = strip_exec(r);
    let collapsed = match const_branches_exec(m) {
        Some(bs) => {
            let mut x = remove_exec(&stripped, "oneOf");
            match first_type_exec(bs) {
                Some(t) => {
                    let ts = crate::text::string_of(crate::text::chars_of(t).as_slice());
                    entries_insert(&mut x, "type", Json::Str(ts));
                },
                None => {},
            }
            let vs = consts_of_exec(bs);
            entries_insert(&mut x, "enum", Json::Array(vs));
            x
        },
        None => stripped,
    };
    let over = match entries_get(&collapsed, "minItems") {
        Some(v) => match v.as_u64() {
            Some(n) => n > 1,
            None => false,
        },
        None => false,
    };
    let bounded = if over {
        remove_exec(&collapsed, "minItems")
    } else {
        collapsed
    };
    close_exec(bounded)
}

// ---------------------------------------------------------------------------
// The recursion
// ---------------------------------------------------------------------------

/// The grammar-subset form of `schema`. The input is left as it is.
pub fn sanitize(schema: &Json) -> (r: Json)
    ensures
        r@ == san(schema@),
{
    sanitize_node(schema)
}

/// One schema brought into the grammar subset.
fn sanitize_node(node: &Json) -> (r: Json)
    ensures
        r@ == san(node@),
    decreases node, 0nat,
{
    match node {
        Json::Object(m) => {
            proof {
                assert(decreases_to!(*node => (*node)->Object_0));
            }
            let r = sanitize_entries(m);
            let out = finish_exec(m, &r);
            Json::Object(out)
        },
        _ => node.copy(),
    }
}

/// Each entry's child schemas sanitized.
fn sanitize_entries(m: &Vec<(String, Json)>) -> (r: Vec<(String, Json)>)
    ensures
        jv_entries(r@) == san_entries(jv_entries(m@)),
    decreases m, 0nat,
{
    proof {
        lemma_jv_entries(m@);
    }
    let ghost e = jv_entries(m@);
    let mut out: Vec<(String, Json)> = Vec::new();
    let mut i: usize = 0;
    while i < m.len()
        invariant
            0 <= i <= m@.len(),
            e == jv_entries(m@),
            e.len() == m@.len(),
            forall|j: int| 0 <= j < e.len() ==> #[trigger] e[j] == (m@[j].0@, jv(m@[j].1)),
            jv_entries(out@) == san_entries(e.subrange(0, i as int)),
        decreases m@.len() - i,
    {
        proof {
            assert(decreases_to!(*m => m@[i as int]));
            assert(decreases_to!(m@[i as int] => m@[i as int].1));
        }
        let ghost next = e.subrange(0, i + 1);
        assert(next.subrange(0, i as int) =~= e.subrange(0, i as int));
        let child = sanitize_child(m[i].0.as_str(), &m[i].1);
        let x = (m[i].0.clone(), child);
        proof {
            lemma_jv_entries_push(out@, x);
        }
        out.push(x);
        i = i + 1;
    }
    assert(e.subrange(0, e.len() as int) =~= e);
    out
}

/// The value under key `k` with its child schemas sanitized.
fn sanitize_child(k: &str, v: &Json) -> (r: Json)
    ensures
        r@ == san_child(k@, v@),
    decreases v, 1nat,
{
    if str_eq(k, "properties") || str_eq(k, "$defs") || str_eq(k, "definitions") {
        match v {
            Json::Object(c) => {
                proof {
                    assert(decreases_to!(*v => (*v)->Object_0));
                }
                Json::Object(sanitize_values(c))
            },
            _ => v.copy(),
        }
    } else if str_eq(k, "items") || str_eq(k, "additionalItems") || str_eq(k, "contains") {
        sanitize_node(v)
    } else if str_eq(k, "anyOf") || str_eq(k, "allOf") || str_eq(k, "oneOf") || str_eq(
        k,
        "prefixItems",
    ) {
        match v {
            Json::Array(a) => {
                proof {
                    assert(decreases_to!(*v => (*v)->Array_0));
                }
                Json::Array(sanitize_list(a))
            },
            _ => v.copy(),
        }
    } else {
        v.copy()
    }
}

/// Each entry's value sanitized.
fn sanitize_values(c: &Vec<(String, Json)>) -> (r: Vec<(String, Json)>)
    ensures
        jv_entries(r@) == san_values(jv_entries(c@)),
    decreases c, 0nat,
{
    proof {
        lemma_jv_entries(c@);
    }
    let ghost e = jv_entries(c@);
    let mut out: Vec<(String, Json)> = Vec::new();
    let mut i: usize = 0;
    while i < c.len()
        invariant
            0 <= i <= c@.len(),
            e == jv_entries(c@),
            e.len() == c@.len(),
            forall|j: int| 0 <= j < e.len() ==> #[trigger] e[j] == (c@[j].0@, jv(c@[j].1)),
            jv_entries(out@) == san_values(e.subrange(0, i as int)),
        decreases c@.len() - i,
    {
        proof {
            assert(decreases_to!(*c => c@[i as int]));
            assert(decreases_to!(c@[i as int] => c@[i as int].1));
        }
        let ghost next = e.subrange(0, i + 1);
        assert(next.subrange(0, i as int) =~= e.subrange(0, i as int));
        let child = sanitize_node(&c[i].1);
        let x = (c[i].0.clone(), child);
        proof {
            lemma_jv_entries_push(out@, x);
        }
        out.push(x);
        i = i + 1;
    }
    assert(e.subrange(0, e.len() as int) =~= e);
    out
}

/// Each schema sanitized.
fn sanitize_list(a: &Vec<Json>) -> (r: Vec<Json>)
    ensures
        jv_list(r@) == san_list(jv_list(a@)),
    decreases a, 0nat,
{
    proof {
        lemma_jv_list(a@);
    }
    let ghost l = jv_list(a@);
    let mut out: Vec<Json> = Vec::new();
    let mut i: usize = 0;
    while i < a.len()
        invariant
            0 <= i <= a@.len(),
            l == jv_list(a@),
            l.len() == a@.len(),
            forall|j: int| 0 <= j < l.len() ==> #[trigger] l[j] == jv(a@[j]),
            jv_list(out@) == san_list(l.subrange(0, i as int)),
        decreases a@.len() - i,
    {
        proof {
            assert(decreases_to!(*a => a@[i as int]));
        }
        let ghost next = l.subrange(0, i + 1);
        assert(next.subrange(0, i as int) =~= l.subrange(0, i as int));
        let x = sanitize_node(&a[i]);
        proof {
            lemma_jv_list_push(out@, x);
        }
        out.push(x);
        i = i + 1;
    }
    assert(l.subrange(0, l.len() as int) =~= l);
    out
}

// ---------------------------------------------------------------------------
// What the output is
// ---------------------------------------------------------------------------

/// No entry carries a stripped keyword.
pub open spec fn none_stripped(e: Entries) -> bool {
    forall|i: int| 0 <= i < e.len() ==> !is_stripped(#[trigger] e[i].0)
}

/// One level in the grammar subset: no stripped keyword, no `minItems`
/// above 1, and an object level closed with every property required.
pub open spec fn level_legal(e: Entries) -> bool {
    &&& none_stripped(e)
    &&& !min_items_over_one(e)
    &&& as_str(obj_get(e, "type"@)) == Some("object"@) ==> {
        &&& obj_get(e, "additionalProperties"@) == Some(JsonV::Bool(false))
        &&& obj_get(e, "required"@) == Some(JsonV::Array(property_names(e)))
    }
}

/// A schema in the grammar subset at every level the sanitizer visits.
pub open spec fn legal(j: JsonV) -> bool
    decreases j, 0nat,
{
    match j {
        JsonV::Object(e) => {
            proof {
                assert(decreases_to!(j => j->Object_0));
            }
            level_legal(e) && legal_entries(e)
        },
        _ => true,
    }
}

/// Every entry's child schemas are in the grammar subset.
pub open spec fn legal_entries(e: Entries) -> bool
    decreases e, 0nat,
{
    if e.len() == 0 {
        true
    } else {
        proof {
            assert(decreases_to!(e => e[e.len() - 1]));
            assert(decreases_to!(e[e.len() - 1] => e[e.len() - 1].1));
            assert(decreases_to!(e => e.subrange(0, e.len() - 1)));
        }
        legal_entries(e.subrange(0, e.len() - 1)) && legal_child(
            e[e.len() - 1].0,
            e[e.len() - 1].1,
        )
    }
}

/// The child schemas under key `k` are in the grammar subset.
pub open spec fn legal_child(k: Seq<char>, v: JsonV) -> bool
    decreases v, 1nat,
{
    if is_map_position(k) {
        match v {
            JsonV::Object(c) => {
                proof {
                    assert(decreases_to!(v => v->Object_0));
                }
                legal_values(c)
            },
            _ => true,
        }
    } else if is_single_position(k) {
        legal(v)
    } else if is_list_position(k) {
        match v {
            JsonV::Array(a) => {
                proof {
                    assert(decreases_to!(v => v->Array_0));
                }
                legal_list(a)
            },
            _ => true,
        }
    } else {
        true
    }
}

/// Every entry's value is in the grammar subset.
pub open spec fn legal_values(c: Entries) -> bool
    decreases c, 0nat,
{
    if c.len() == 0 {
        true
    } else {
        proof {
            assert(decreases_to!(c => c[c.len() - 1]));
            assert(decreases_to!(c[c.len() - 1] => c[c.len() - 1].1));
            assert(decreases_to!(c => c.subrange(0, c.len() - 1)));
        }
        legal_values(c.subrange(0, c.len() - 1)) && legal(c[c.len() - 1].1)
    }
}

/// Every schema is in the grammar subset.
pub open spec fn legal_list(a: Seq<JsonV>) -> bool
    decreases a, 0nat,
{
    if a.len() == 0 {
        true
    } else {
        proof {
            assert(decreases_to!(a => a[a.len() - 1]));
            assert(decreases_to!(a => a.subrange(0, a.len() - 1)));
        }
        legal_list(a.subrange(0, a.len() - 1)) && legal(a[a.len() - 1])
    }
}

/// Entry-wise legality.
proof fn lemma_legal_entries_all(e: Entries)
    ensures
        legal_entries(e) <==> (forall|i: int|
            0 <= i < e.len() ==> #[trigger] legal_child(e[i].0, e[i].1)),
    decreases e.len(),
{
    if e.len() > 0 {
        let p = e.subrange(0, e.len() - 1);
        lemma_legal_entries_all(p);
        assert forall|i: int| 0 <= i < p.len() implies p[i] == e[i] by {}
        if legal_entries(e) {
            assert forall|i: int| 0 <= i < e.len() implies #[trigger] legal_child(e[i].0, e[i].1) by {
                if i < p.len() {
                    assert(legal_child(p[i].0, p[i].1));
                }
            }
        } else {
            if legal_entries(p) {
                assert(!legal_child(e[e.len() - 1].0, e[e.len() - 1].1));
            } else {
                let w = choose|i: int| 0 <= i < p.len() && !#[trigger] legal_child(p[i].0, p[i].1);
                assert(!legal_child(e[w].0, e[w].1));
            }
        }
    }
}

/// What is stripped carries no stripped keyword, and keeps only entries it
/// was given.
proof fn lemma_strip(e: Entries)
    ensures
        none_stripped(strip(e)),
        forall|i: int| 0 <= i < strip(e).len() ==> e.contains(#[trigger] strip(e)[i]),
    decreases e.len(),
{
    if e.len() > 0 {
        let p = e.subrange(0, e.len() - 1);
        lemma_strip(p);
        assert forall|i: int| 0 <= i < strip(e).len() implies e.contains(#[trigger] strip(e)[i]) by {
            if i < strip(p).len() {
                assert(p.contains(strip(p)[i]));
                let j = choose|j: int| 0 <= j < p.len() && p[j] == strip(p)[i];
                assert(e[j] == p[j]);
            } else {
                assert(e[e.len() - 1] == strip(e)[i]);
            }
        }
    }
}

/// A removal leaves no entry with the key, and keeps only entries it was
/// given.
proof fn lemma_remove(e: Entries, k: Seq<char>)
    ensures
        forall|i: int| 0 <= i < obj_remove(e, k).len() ==> (#[trigger] obj_remove(e, k)[i]).0 != k,
        forall|i: int| 0 <= i < obj_remove(e, k).len() ==> e.contains(#[trigger] obj_remove(e, k)[i]),
        !has_key(obj_remove(e, k), k),
    decreases e.len(),
{
    if e.len() > 0 {
        let p = e.subrange(0, e.len() - 1);
        lemma_remove(p, k);
        assert forall|i: int| 0 <= i < obj_remove(e, k).len() implies e.contains(
            #[trigger] obj_remove(e, k)[i],
        ) by {
            if i < obj_remove(p, k).len() {
                assert(p.contains(obj_remove(p, k)[i]));
                let j = choose|j: int| 0 <= j < p.len() && p[j] == obj_remove(p, k)[i];
                assert(e[j] == p[j]);
            } else {
                assert(e[e.len() - 1] == obj_remove(e, k)[i]);
            }
        }
    }
}

/// After an insert, the key holds the new value, every other key its old
/// one, and every entry is an old entry or the new one.
proof fn lemma_insert(e: Entries, k: Seq<char>, v: JsonV, k2: Seq<char>)
    ensures
        obj_get(obj_insert(e, k, v), k2) == (if k2 == k {
            Some(v)
        } else {
            obj_get(e, k2)
        }),
        forall|i: int|
            0 <= i < obj_insert(e, k, v).len() ==> e.contains(#[trigger] obj_insert(e, k, v)[i])
                || obj_insert(e, k, v)[i] == (k, v),
{
    let ins = obj_insert(e, k, v);
    if has_key(e, k) {
        lemma_first_key(e, k);
        let i0 = key_index(e, k);
        assert forall|j: int| 0 <= j < ins.len() implies #[trigger] ins[j].0 == e[j].0 by {}
        if has_key(e, k2) {
            lemma_first_key(e, k2);
            let f = key_index(e, k2);
            assert(is_first_key(ins, k2, f));
            lemma_key_index_is(ins, k2, f);
            if k2 == k {
                lemma_key_index_is(e, k, f);
            }
        } else {
            assert(!has_key(ins, k2)) by {
                if has_key(ins, k2) {
                    let w = choose|w: int| 0 <= w < ins.len() && ins[w].0 == k2;
                    assert(e[w].0 == k2);
                }
            }
        }
        assert forall|i: int| 0 <= i < ins.len() implies e.contains(#[trigger] ins[i]) || ins[i] == (k, v) by {
            if i != i0 {
                assert(e[i] == ins[i]);
            }
        }
    } else {
        if k2 == k {
            assert(is_first_key(ins, k, e.len() as int));
            lemma_key_index_is(ins, k, e.len() as int);
        } else if has_key(e, k2) {
            lemma_first_key(e, k2);
            let f = key_index(e, k2);
            assert(is_first_key(ins, k2, f));
            lemma_key_index_is(ins, k2, f);
        } else {
            assert(!has_key(ins, k2)) by {
                if has_key(ins, k2) {
                    let w = choose|w: int| 0 <= w < ins.len() && ins[w].0 == k2;
                    assert(w < e.len());
                    assert(e[w].0 == k2);
                }
            }
        }
        assert forall|i: int| 0 <= i < ins.len() implies e.contains(#[trigger] ins[i]) || ins[i] == (k, v) by {
            if i < e.len() {
                assert(e[i] == ins[i]);
            }
        }
    }
}

/// Entries whose keys are not stripped and whose child schemas are legal.
spec fn good(e: Entries) -> bool {
    none_stripped(e) && legal_entries(e)
}

/// A sub-list of good entries is good.
proof fn lemma_good_sub(e: Entries, f: Entries)
    requires
        good(e),
        forall|i: int| 0 <= i < f.len() ==> e.contains(#[trigger] f[i]),
    ensures
        good(f),
{
    lemma_legal_entries_all(e);
    lemma_legal_entries_all(f);
    assert forall|i: int| 0 <= i < f.len() implies #[trigger] legal_child(f[i].0, f[i].1)
        && !is_stripped(f[i].0) by {
        assert(e.contains(f[i]));
        let j = choose|j: int| 0 <= j < e.len() && e[j] == f[i];
        assert(legal_child(e[j].0, e[j].1));
    }
}

/// The keys the level itself writes, revealed.
proof fn lemma_written_keys()
    ensures
        !is_stripped("type"@) && !is_map_position("type"@) && !is_single_position("type"@)
            && !is_list_position("type"@),
        !is_stripped("enum"@) && !is_map_position("enum"@) && !is_single_position("enum"@)
            && !is_list_position("enum"@),
        !is_stripped("additionalProperties"@) && !is_map_position("additionalProperties"@)
            && !is_single_position("additionalProperties"@) && !is_list_position(
            "additionalProperties"@,
        ),
        !is_stripped("required"@) && !is_map_position("required"@) && !is_single_position(
            "required"@,
        ) && !is_list_position("required"@),
        "minItems"@ != "additionalProperties"@ && "minItems"@ != "required"@,
        "type"@ != "additionalProperties"@ && "type"@ != "required"@,
        "properties"@ != "additionalProperties"@ && "properties"@ != "required"@,
        "additionalProperties"@ != "required"@,
{
    reveal_strlit("type");
    assert("type"@.len() == 4 && "type"@[0] == 't');
    reveal_strlit("enum");
    assert("enum"@.len() == 4 && "enum"@[0] == 'e');
    reveal_strlit("additionalProperties");
    assert("additionalProperties"@.len() == 20 && "additionalProperties"@[0] == 'a');
    reveal_strlit("required");
    assert("required"@.len() == 8 && "required"@[0] == 'r');
    reveal_strlit("minItems");
    assert("minItems"@.len() == 8 && "minItems"@[0] == 'm');
    reveal_strlit("properties");
    assert("properties"@.len() == 10 && "properties"@[0] == 'p');
    reveal_strlit("minimum");
    assert("minimum"@.len() == 7 && "minimum"@[0] == 'm');
    reveal_strlit("maximum");
    assert("maximum"@.len() == 7 && "maximum"@[0] == 'm');
    reveal_strlit("exclusiveMinimum");
    assert("exclusiveMinimum"@.len() == 16 && "exclusiveMinimum"@[0] == 'e');
    reveal_strlit("exclusiveMaximum");
    assert("exclusiveMaximum"@.len() == 16 && "exclusiveMaximum"@[0] == 'e');
    reveal_strlit("multipleOf");
    assert("multipleOf"@.len() == 10 && "multipleOf"@[0] == 'm');
    reveal_strlit("minLength");
    assert("minLength"@.len() == 9 && "minLength"@[0] == 'm');
    reveal_strlit("maxLength");
    assert("maxLength"@.len() == 9 && "maxLength"@[0] == 'm');
    reveal_strlit("pattern");
    assert("pattern"@.len() == 7 && "pattern"@[0] == 'p');
    reveal_strlit("maxItems");
    assert("maxItems"@.len() == 8 && "maxItems"@[0] == 'm');
    reveal_strlit("minProperties");
    assert("minProperties"@.len() == 13 && "minProperties"@[0] == 'm');
    reveal_strlit("maxProperties");
    assert("maxProperties"@.len() == 13 && "maxProperties"@[0] == 'm');
    reveal_strlit("$schema");
    assert("$schema"@.len() == 7 && "$schema"@[0] == '$');
    reveal_strlit("title");
    assert("title"@.len() == 5 && "title"@[0] == 't');
    reveal_strlit("$defs");
    assert("$defs"@.len() == 5 && "$defs"@[0] == '$');
    reveal_strlit("definitions");
    assert("definitions"@.len() == 11 && "definitions"@[0] == 'd');
    reveal_strlit("items");
    assert("items"@.len() == 5 && "items"@[0] == 'i');
    reveal_strlit("additionalItems");
    assert("additionalItems"@.len() == 15 && "additionalItems"@[0] == 'a');
    reveal_strlit("contains");
    assert("contains"@.len() == 8 && "contains"@[0] == 'c');
    reveal_strlit("anyOf");
    assert("anyOf"@.len() == 5 && "anyOf"@[0] == 'a');
    reveal_strlit("allOf");
    assert("allOf"@.len() == 5 && "allOf"@[0] == 'a');
    reveal_strlit("oneOf");
    assert("oneOf"@.len() == 5 && "oneOf"@[0] == 'o');
    reveal_strlit("prefixItems");
    assert("prefixItems"@.len() == 11 && "prefixItems"@[0] == 'p');
}

/// Inserting a key the level itself writes keeps entries good.
proof fn lemma_good_insert(e: Entries, k: Seq<char>, v: JsonV)
    requires
        good(e),
        !is_stripped(k),
        !is_map_position(k) && !is_single_position(k) && !is_list_position(k),
    ensures
        good(obj_insert(e, k, v)),
{
    let ins = obj_insert(e, k, v);
    lemma_insert(e, k, v, k);
    lemma_legal_entries_all(e);
    lemma_legal_entries_all(ins);
    assert forall|i: int| 0 <= i < ins.len() implies #[trigger] legal_child(ins[i].0, ins[i].1)
        && !is_stripped(ins[i].0) by {
        if ins[i] != (k, v) {
            assert(e.contains(ins[i]));
            let j = choose|j: int| 0 <= j < e.len() && e[j] == ins[i];
            assert(legal_child(e[j].0, e[j].1));
        }
    }
}

/// The level brought into the grammar subset is legal, given legal children.
proof fn lemma_finish_legal(m: Entries, r: Entries)
    requires
        legal_entries(r),
    ensures
        level_legal(finish(m, r)),
        legal_entries(finish(m, r)),
{
    lemma_written_keys();
    let stripped = strip(r);
    lemma_strip(r);
    lemma_legal_entries_all(r);
    assert(good(r) || true);
    assert forall|i: int| 0 <= i < stripped.len() implies #[trigger] legal_child(stripped[i].0, stripped[i].1) by {
        assert(r.contains(stripped[i]));
        let j = choose|j: int| 0 <= j < r.len() && r[j] == stripped[i];
        assert(legal_child(r[j].0, r[j].1));
    }
    lemma_legal_entries_all(stripped);
    assert(good(stripped));
    let collapsed = match const_branches(m) {
        Some(bs) => with_enum(stripped, bs),
        None => stripped,
    };
    match const_branches(m) {
        Some(bs) => {
            let dropped = obj_remove(stripped, "oneOf"@);
            lemma_remove(stripped, "oneOf"@);
            lemma_good_sub(stripped, dropped);
            let typed = match first_type(bs) {
                Some(t) => obj_insert(dropped, "type"@, JsonV::Str(t)),
                None => dropped,
            };
            match first_type(bs) {
                Some(t) => lemma_good_insert(dropped, "type"@, JsonV::Str(t)),
                None => {},
            }
            lemma_good_insert(typed, "enum"@, JsonV::Array(consts_of(bs)));
        },
        None => {},
    }
    assert(good(collapsed));
    let bounded = if min_items_over_one(collapsed) {
        obj_remove(collapsed, "minItems"@)
    } else {
        collapsed
    };
    if min_items_over_one(collapsed) {
        lemma_remove(collapsed, "minItems"@);
        lemma_good_sub(collapsed, bounded);
    }
    assert(good(bounded));
    assert(!min_items_over_one(bounded));
    let out = close(bounded);
    if as_str(obj_get(bounded, "type"@)) == Some("object"@) {
        let a = obj_insert(bounded, "additionalProperties"@, JsonV::Bool(false));
        lemma_good_insert(bounded, "additionalProperties"@, JsonV::Bool(false));
        lemma_good_insert(a, "required"@, JsonV::Array(property_names(bounded)));
        lemma_insert(bounded, "additionalProperties"@, JsonV::Bool(false), "minItems"@);
        lemma_insert(a, "required"@, JsonV::Array(property_names(bounded)), "minItems"@);
        lemma_insert(bounded, "additionalProperties"@, JsonV::Bool(false), "type"@);
        lemma_insert(a, "required"@, JsonV::Array(property_names(bounded)), "type"@);
        lemma_insert(bounded, "additionalProperties"@, JsonV::Bool(false), "properties"@);
        lemma_insert(a, "required"@, JsonV::Array(property_names(bounded)), "properties"@);
        lemma_insert(
            bounded,
            "additionalProperties"@,
            JsonV::Bool(false),
            "additionalProperties"@,
        );
        lemma_insert(
            a,
            "required"@,
            JsonV::Array(property_names(bounded)),
            "additionalProperties"@,
        );
        lemma_insert(a, "required"@, JsonV::Array(property_names(bounded)), "required"@);
        assert(property_names(out) == property_names(bounded));
    }
}

/// Whatever schema goes in, what comes out is in the grammar subset at every
/// level the sanitizer visits: no unsupported keyword or metadata remains,
/// `minItems` survives only as 0 or 1, and every object level carries
/// `additionalProperties: false` and a `required` list naming all of its
/// properties.
pub proof fn lemma_sanitized_is_legal(j: JsonV)
    ensures
        legal(san(j)),
    decreases j, 0nat,
{
    match j {
        JsonV::Object(m) => {
            assert(decreases_to!(j => j->Object_0));
            lemma_san_entries_legal(m);
            lemma_finish_legal(m, san_entries(m));
        },
        _ => {},
    }
}

/// Sanitized entries carry legal child schemas.
proof fn lemma_san_entries_legal(m: Entries)
    ensures
        legal_entries(san_entries(m)),
    decreases m, 0nat,
{
    if m.len() > 0 {
        let p = m.subrange(0, m.len() - 1);
        let last = m[m.len() - 1];
        assert(decreases_to!(m => m[m.len() - 1]));
        assert(decreases_to!(m[m.len() - 1] => m[m.len() - 1].1));
        assert(decreases_to!(m => m.subrange(0, m.len() - 1)));
        lemma_san_entries_legal(p);
        lemma_san_child_legal(last.0, last.1);
        let s = san_entries(m);
        assert(s.subrange(0, s.len() - 1) =~= san_entries(p));
    }
}

/// A sanitized child is legal.
proof fn lemma_san_child_legal(k: Seq<char>, v: JsonV)
    ensures
        legal_child(k, san_child(k, v)),
    decreases v, 1nat,
{
    if is_map_position(k) {
        match v {
            JsonV::Object(c) => {
                assert(decreases_to!(v => v->Object_0));
                lemma_san_values_legal(c);
            },
            _ => {},
        }
    } else if is_single_position(k) {
        lemma_sanitized_is_legal(v);
    } else if is_list_position(k) {
        match v {
            JsonV::Array(a) => {
                assert(decreases_to!(v => v->Array_0));
                lemma_san_list_legal(a);
            },
            _ => {},
        }
    }
}

/// Sanitized values are legal.
proof fn lemma_san_values_legal(c: Entries)
    ensures
        legal_values(san_values(c)),
    decreases c, 0nat,
{
    if c.len() > 0 {
        let p = c.subrange(0, c.len() - 1);
        assert(decreases_to!(c => c[c.len() - 1]));
        assert(decreases_to!(c[c.len() - 1] => c[c.len() - 1].1));
        assert(decreases_to!(c => c.subrange(0, c.len() - 1)));
        lemma_san_values_legal(p);
        lemma_sanitized_is_legal(c[c.len() - 1].1);
        let s = san_values(c);
        assert(s.subrange(0, s.len() - 1) =~= san_values(p));
    }
}

/// Sanitized schemas are legal.
proof fn lemma_san_list_legal(a: Seq<JsonV>)
    ensures
        legal_list(san_list(a)),
    decreases a, 0nat,
{
    if a.len() > 0 {
        let p = a.subrange(0, a.len() - 1);
        assert(decreases_to!(a => a[a.len() - 1]));
        assert(decreases_to!(a => a.subrange(0, a.len() - 1)));
        lemma_san_list_legal(p);
        lemma_sanitized_is_legal(a[a.len() - 1]);
        let s = san_list(a);
        assert(s.subrange(0, s.len() - 1) =~= san_list(p));
    }
}

} // verus!
