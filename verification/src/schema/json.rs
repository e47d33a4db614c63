//! A JSON value and its model. An object is an ordered list of entries; a
//! lookup finds the first entry with the key, an insert replaces that entry's
//! value in place or appends a new entry, and a removal drops every entry
//! with the key. A number is held as its JSON text.
use vstd::prelude::*;
use crate::text::str_eq;

verus! {

/// A JSON value.
#[derive(Debug)]
pub enum Json {
    /// `null`.
    Null,
    /// `true` or `false`.
    Bool(bool),
    /// A number, as its JSON text (`4`, `0.5`, `1e3`).
    Number(String),
    /// A string.
    Str(String),
    /// An array.
    Array(Vec<Json>),
    /// An object: its entries in order.
    Object(Vec<(String, Json)>),
}

/// The model of a JSON value.
pub enum JsonV {
    Null,
    Bool(bool),
    Number(Seq<char>),
    Str(Seq<char>),
    Array(Seq<JsonV>),
    Object(Seq<(Seq<char>, JsonV)>),
}

/// Object entries, as modelled.
pub type Entries = Seq<(Seq<char>, JsonV)>;

/// The model of a value.
pub open spec fn jv(j: Json) -> JsonV
    decreases j, 0nat,
{
    match j {
        Json::Null => JsonV::Null,
        Json::Bool(b) => JsonV::Bool(b),
        Json::Number(s) => JsonV::Number(s@),
        Json::Str(s) => JsonV::Str(s@),
        Json::Array(v) => {
            proof {
                assert(decreases_to!(v => v@));
            }
            JsonV::Array(jv_list(v@))
        },
        Json::Object(m) => {
            proof {
                assert(decreases_to!(m => m@));
            }
            JsonV::Object(jv_entries(m@))
        },
    }
}

/// The models of a list of values.
pub open spec fn jv_list(s: Seq<Json>) -> Seq<JsonV>
    decreases s, 0nat,
{
    if s.len() == 0 {
        Seq::empty()
    } else {
        proof {
            assert(decreases_to!(s => s[s.len() - 1]));
            assert(decreases_to!(s => s.subrange(0, s.len() - 1)));
        }
        jv_list(s.subrange(0, s.len() - 1)).push(jv(s[s.len() - 1]))
    }
}

/// The models of a list of object entries.
pub open spec fn jv_entries(s: Seq<(String, Json)>) -> Entries
    decreases s, 0nat,
{
    if s.len() == 0 {
        Seq::empty()
    } else {
        proof {
            assert(decreases_to!(s => s[s.len() - 1]));
            assert(decreases_to!(s => s.subrange(0, s.len() - 1)));
        }
        jv_entries(s.subrange(0, s.len() - 1)).push(
            (s[s.len() - 1].0@, jv(s[s.len() - 1].1)),
        )
    }
}

/// Each entry's model is the model of that entry.
pub proof fn lemma_jv_entries(s: Seq<(String, Json)>)
    ensures
        jv_entries(s).len() == s.len(),
        forall|i: int|
            0 <= i < s.len() ==> #[trigger] jv_entries(s)[i] == (s[i].0@, jv(s[i].1)),
    decreases s.len(),
{
    if s.len() > 0 {
        lemma_jv_entries(s.subrange(0, s.len() - 1));
    }
}

/// Each element's model is the model of that element.
pub proof fn lemma_jv_list(s: Seq<Json>)
    ensures
        jv_list(s).len() == s.len(),
        forall|i: int| 0 <= i < s.len() ==> #[trigger] jv_list(s)[i] == jv(s[i]),
    decreases s.len(),
{
    if s.len() > 0 {
        lemma_jv_list(s.subrange(0, s.len() - 1));
    }
}

/// The models of a list extended by one value.
pub proof fn lemma_jv_list_push(s: Seq<Json>, x: Json)
    ensures
        jv_list(s.push(x)) == jv_list(s).push(jv(x)),
{
    assert(s.push(x).subrange(0, s.len() as int) =~= s);
}

/// The models of a list of entries extended by one entry.
pub proof fn lemma_jv_entries_push(s: Seq<(String, Json)>, x: (String, Json))
    ensures
        jv_entries(s.push(x)) == jv_entries(s).push((x.0@, jv(x.1))),
{
    assert(s.push(x).subrange(0, s.len() as int) =~= s);
}

// ---------------------------------------------------------------------------
// Objects
// ---------------------------------------------------------------------------

/// Entry `i` is the first with key `k`.
pub open spec fn is_first_key(e: Entries, k: Seq<char>, i: int) -> bool {
    &&& 0 <= i < e.len()
    &&& e[i].0 == k
    &&& forall|j: int| 0 <= j < i ==> e[j].0 != k
}

/// Some entry has key `k`.
pub open spec fn has_key(e: Entries, k: Seq<char>) -> bool {
    exists|i: int| 0 <= i < e.len() && e[i].0 == k
}

/// The index of the first entry with key `k`, or -1.
pub open spec fn key_index(e: Entries, k: Seq<char>) -> int {
    if has_key(e, k) {
        choose|i: int| is_first_key(e, k, i)
    } else {
        -1
    }
}

/// The value under key `k`: that of the first entry with the key.
pub open spec fn obj_get(e: Entries, k: Seq<char>) -> Option<JsonV> {
    if has_key(e, k) {
        Some(e[key_index(e, k)].1)
    } else {
        None
    }
}

/// `e` with the value under `k` set to `v`: the first entry with the key is
/// replaced in place, or a new entry is appended.
pub open spec fn obj_insert(e: Entries, k: Seq<char>, v: JsonV) -> Entries {
    if has_key(e, k) {
        e.update(key_index(e, k), (k, v))
    } else {
        e.push((k, v))
    }
}

/// `e` without any entry with key `k`.
pub open spec fn obj_remove(e: Entries, k: Seq<char>) -> Entries
    decreases e.len(),
{
    if e.len() == 0 {
        e
    } else {
        let rest = obj_remove(e.subrange(0, e.len() - 1), k);
        if e[e.len() - 1].0 == k {
            rest
        } else {
            rest.push(e[e.len() - 1])
        }
    }
}

/// The keys of the entries, in order.
pub open spec fn keys_of(e: Entries) -> Seq<Seq<char>>
    decreases e.len(),
{
    if e.len() == 0 {
        Seq::empty()
    } else {
        keys_of(e.subrange(0, e.len() - 1)).push(e[e.len() - 1].0)
    }
}

/// When some entry has the key, a first one does, and the lookup finds it.
pub proof fn lemma_first_key(e: Entries, k: Seq<char>)
    requires
        has_key(e, k),
    ensures
        is_first_key(e, k, key_index(e, k)),
    decreases e.len(),
{
    let w = choose|i: int| 0 <= i < e.len() && e[i].0 == k;
    let p = e.subrange(0, e.len() - 1);
    if w < e.len() - 1 || has_key(p, k) {
        if w < e.len() - 1 {
            assert(p[w].0 == k);
        }
        lemma_first_key(p, k);
        let f = key_index(p, k);
        assert forall|j: int| 0 <= j < f implies e[j].0 != k by {
            assert(p[j] == e[j]);
        }
        assert(p[f] == e[f]);
        assert(is_first_key(e, k, f));
    } else {
        assert forall|j: int| 0 <= j < e.len() - 1 implies e[j].0 != k by {
            assert(p[j] == e[j]);
        }
        assert(is_first_key(e, k, e.len() - 1));
    }
}

/// A first entry with the key is the one the lookup finds.
pub proof fn lemma_key_index_is(e: Entries, k: Seq<char>, i: int)
    requires
        is_first_key(e, k, i),
    ensures
        key_index(e, k) == i,
        obj_get(e, k) == Some(e[i].1),
{
    lemma_first_key(e, k);
    let f = key_index(e, k);
    if f < i {
        assert(e[f].0 != k);
    } else if f > i {
        assert(e[i].0 != k);
    }
}

// ---------------------------------------------------------------------------
// Values
// ---------------------------------------------------------------------------

/// The value under `k` of an object; nothing for any other value.
pub open spec fn get(j: JsonV, k: Seq<char>) -> Option<JsonV> {
    match j {
        JsonV::Object(e) => obj_get(e, k),
        _ => None,
    }
}

/// The text of a string value.
pub open spec fn as_str(j: Option<JsonV>) -> Option<Seq<char>> {
    match j {
        Some(JsonV::Str(s)) => Some(s),
        _ => None,
    }
}

/// An object or an array.
pub open spec fn is_compound(j: JsonV) -> bool {
    j is Object || j is Array
}

/// A decimal digit.
pub open spec fn is_digit(c: char) -> bool {
    '0' <= c <= '9'
}

/// Every character is a decimal digit.
pub open spec fn all_digits(s: Seq<char>) -> bool {
    forall|i: int| 0 <= i < s.len() ==> is_digit(#[trigger] s[i])
}

/// The number a run of decimal digits writes.
pub open spec fn digits_value(s: Seq<char>) -> nat
    decreases s.len(),
{
    if s.len() == 0 {
        0
    } else {
        digits_value(s.subrange(0, s.len() - 1)) * 10 + ((s[s.len() - 1] as nat) - ('0' as nat)) as nat
    }
}

/// A number as an unsigned 64-bit integer: a number written with digits
/// alone whose value fits.
pub open spec fn as_u64(j: JsonV) -> Option<u64> {
    match j {
        JsonV::Number(t) => if t.len() > 0 && all_digits(t) && digits_value(t) <= u64::MAX {
            Some(digits_value(t) as u64)
        } else {
            None
        },
        _ => None,
    }
}

/// A longer run of digits writes no smaller number.
proof fn lemma_digits_grow(s: Seq<char>, i: int)
    requires
        all_digits(s),
        0 <= i <= s.len(),
    ensures
        digits_value(s.subrange(0, i)) <= digits_value(s),
    decreases s.len() - i,
{
    if i < s.len() {
        lemma_digits_grow(s, i + 1);
        let a = s.subrange(0, i + 1);
        assert(a.subrange(0, i) =~= s.subrange(0, i));
        assert(is_digit(s[i]));
    } else {
        assert(s.subrange(0, i) =~= s);
    }
}

/// The model of an optional borrowed value.
pub open spec fn opt_view(o: Option<&Json>) -> Option<JsonV> {
    match o {
        Some(x) => Some(x@),
        None => None,
    }
}

/// The index of the first entry with key `key`.
fn find_key(entries: &Vec<(String, Json)>, key: &str) -> (r: Option<usize>)
    ensures
        match r {
            Some(i) => is_first_key(jv_entries(entries@), key@, i as int),
            None => !has_key(jv_entries(entries@), key@),
        },
{
    proof {
        lemma_jv_entries(entries@);
    }
    let ghost e = jv_entries(entries@);
    let mut i: usize = 0;
    while i < entries.len()
        invariant
            0 <= i <= entries@.len(),
            e == jv_entries(entries@),
            e.len() == entries@.len(),
            forall|j: int| 0 <= j < e.len() ==> #[trigger] e[j] == (entries@[j].0@, jv(entries@[j].1)),
            forall|j: int| 0 <= j < i ==> e[j].0 != key@,
        decreases entries@.len() - i,
    {
        if str_eq(entries[i].0.as_str(), key) {
            assert(e[i as int].0 == key@);
            return Some(i);
        }
        i = i + 1;
    }
    None
}

/// The value under `key` among object entries.
pub fn entries_get<'a>(entries: &'a Vec<(String, Json)>, key: &str) -> (r: Option<&'a Json>)
    ensures
        opt_view(r) == obj_get(jv_entries(entries@), key@),
{
    match find_key(entries, key) {
        Some(i) => {
            proof {
                lemma_jv_entries(entries@);
                lemma_key_index_is(jv_entries(entries@), key@, i as int);
            }
            Some(&entries[i].1)
        },
        None => None,
    }
}

/// The entries with the value under `key` set to `value`: the first entry
/// with the key is replaced in place, or a new entry is appended.
pub fn entries_insert(entries: &mut Vec<(String, Json)>, key: &str, value: Json)
    ensures
        jv_entries(final(entries)@) == obj_insert(jv_entries(old(entries)@), key@, value@),
{
    proof {
        lemma_jv_entries(entries@);
    }
    let ghost before = jv_entries(entries@);
    let k = crate::text::string_of(crate::text::chars_of(key).as_slice());
    match find_key(entries, key) {
        Some(i) => {
            proof {
                lemma_key_index_is(before, key@, i as int);
            }
            let ghost x = (k, value);
            entries.set(i, (k, value));
            proof {
                lemma_jv_entries(entries@);
                assert(jv_entries(entries@) =~= before.update(i as int, (key@, x.1@)));
            }
        },
        None => {
            proof {
                lemma_jv_entries_push(entries@, (k, value));
            }
            entries.push((k, value));
        },
    }
}

impl Json {
    /// The value under `key` of an object; nothing for any other value.
    pub fn get(&self, key: &str) -> (r: Option<&Json>)
        ensures
            opt_view(r) == get(self@, key@),
    {
        match self {
            Json::Object(entries) => entries_get(entries, key),
            _ => None,
        }
    }

    /// A copy of the value.
    pub fn copy(&self) -> (r: Json)
        ensures
            r@ == self@,
        decreases self,
    {
        match self {
            Json::Null => Json::Null,
            Json::Bool(b) => Json::Bool(*b),
            Json::Number(t) => Json::Number(t.clone()),
            Json::Str(t) => Json::Str(t.clone()),
            Json::Array(v) => {
                let mut out: Vec<Json> = Vec::new();
                let mut i: usize = 0;
                while i < v.len()
                    invariant
                        0 <= i <= v@.len(),
                        *self == Json::Array(*v),
                        jv_list(out@) == jv_list(v@.subrange(0, i as int)),
                    decreases v@.len() - i,
                {
                    proof {
                        assert(decreases_to!(*self => (*self)->Array_0));
                        assert(decreases_to!(*v => v@[i as int]));
                        assert(decreases_to!(*self => v@[i as int]));
                    }
                    let c = v[i].copy();
                    proof {
                        lemma_jv_list_push(out@, c);
                        let next = v@.subrange(0, i + 1);
                        assert(next.subrange(0, i as int) =~= v@.subrange(0, i as int));
                    }
                    out.push(c);
                    i = i + 1;
                }
                assert(v@.subrange(0, v@.len() as int) =~= v@);
                Json::Array(out)
            },
            Json::Object(m) => {
                let mut out: Vec<(String, Json)> = Vec::new();
                let mut i: usize = 0;
                while i < m.len()
                    invariant
                        0 <= i <= m@.len(),
                        *self == Json::Object(*m),
                        jv_entries(out@) == jv_entries(m@.subrange(0, i as int)),
                    decreases m@.len() - i,
                {
                    proof {
                        assert(decreases_to!(*self => (*self)->Object_0));
                        assert(decreases_to!(*m => m@[i as int]));
                        assert(decreases_to!(m@[i as int] => m@[i as int].1));
                        assert(decreases_to!(*self => m@[i as int].1));
                    }
                    let c = m[i].1.copy();
                    let k = m[i].0.clone();
                    proof {
                        lemma_jv_entries_push(out@, (k, c));
                        let next = m@.subrange(0, i + 1);
                        assert(next.subrange(0, i as int) =~= m@.subrange(0, i as int));
                    }
                    out.push((k, c));
                    i = i + 1;
                }
                assert(m@.subrange(0, m@.len() as int) =~= m@);
                Json::Object(out)
            },
        }
    }

    /// The text of a string value.
    pub fn as_str(&self) -> (r: Option<&str>)
        ensures
            match r {
                Some(t) => self@ == JsonV::Str(t@),
                None => !(self@ is Str),
            },
    {
        match self {
            Json::Str(s) => Some(s.as_str()),
            _ => None,
        }
    }

    /// The elements of an array.
    pub fn as_array(&self) -> (r: Option<&Vec<Json>>)
        ensures
            match r {
                Some(v) => self@ == JsonV::Array(jv_list(v@)),
                None => !(self@ is Array),
            },
    {
        match self {
            Json::Array(v) => Some(v),
            _ => None,
        }
    }

    /// The entries of an object.
    pub fn as_object(&self) -> (r: Option<&Vec<(String, Json)>>)
        ensures
            match r {
                Some(m) => self@ == JsonV::Object(jv_entries(m@)),
                None => !(self@ is Object),
            },
    {
        match self {
            Json::Object(m) => Some(m),
            _ => None,
        }
    }

    /// An object or an array.
    pub fn is_compound(&self) -> (r: bool)
        ensures
            r == is_compound(self@),
    {
        match self {
            Json::Object(_) => true,
            Json::Array(_) => true,
            _ => false,
        }
    }

    /// A number written with digits alone whose value fits in 64 bits.
    pub fn as_u64(&self) -> (r: Option<u64>)
        ensures
            r == as_u64(self@),
    {
        let text = match self {
            Json::Number(t) => t.as_str(),
            _ => return None,
        };
        let cs = crate::text::chars_of(text);
        if cs.len() == 0 {
            return None;
        }
        let mut v: u64 = 0;
        let mut i: usize = 0;
        while i < cs.len()
            invariant
                0 <= i <= cs@.len(),
                cs@ == text@,
                self@ == JsonV::Number(text@),
                cs@.len() > 0,
                forall|j: int| 0 <= j < i ==> is_digit(#[trigger] cs@[j]),
                v == digits_value(cs@.subrange(0, i as int)),
            decreases cs@.len() - i,
        {
            let c = cs[i];
            if !('0' <= c && c <= '9') {
                assert(!all_digits(cs@));
                return None;
            }
            let d: u64 = (c as u64) - ('0' as u64);
            let ghost next = cs@.subrange(0, i + 1);
            assert(next.subrange(0, i as int) =~= cs@.subrange(0, i as int));
            assert(digits_value(next) == v * 10 + d);
            if v > 1844674407370955161 || (v == 1844674407370955161 && d > 5) {
                proof {
                    if all_digits(cs@) {
                        lemma_digits_grow(cs@, i + 1);
                    }
                }
                return None;
            }
            v = v * 10 + d;
            i = i + 1;
        }
        assert(cs@.subrange(0, cs@.len() as int) =~= cs@);
        Some(v)
    }
}

// ---------------------------------------------------------------------------
// JSON text
// ---------------------------------------------------------------------------

/// A lowercase hexadecimal digit.
pub open spec fn hex_digit(n: nat) -> char {
    if n < 10 {
        (('0' as nat) + n) as char
    } else {
        (('a' as nat) + n - 10) as char
    }
}

/// How one character is written inside a JSON string.
pub open spec fn escape_char(c: char) -> Seq<char> {
    if c == '"' {
        seq!['\\', '"']
    } else if c == '\\' {
        seq!['\\', '\\']
    } else if c == '\n' {
        seq!['\\', 'n']
    } else if c == '\r' {
        seq!['\\', 'r']
    } else if c == '\t' {
        seq!['\\', 't']
    } else if c == '\u{8}' {
        seq!['\\', 'b']
    } else if c == '\u{c}' {
        seq!['\\', 'f']
    } else if (c as nat) < 32 {
        seq!['\\', 'u', '0', '0', hex_digit((c as nat) / 16), hex_digit((c as nat) % 16)]
    } else {
        seq![c]
    }
}

/// A text written inside a JSON string.
pub open spec fn escaped(s: Seq<char>) -> Seq<char>
    decreases s.len(),
{
    if s.len() == 0 {
        Seq::empty()
    } else {
        escaped(s.subrange(0, s.len() - 1)) + escape_char(s[s.len() - 1])
    }
}

/// A text as a JSON string.
pub open spec fn quoted(s: Seq<char>) -> Seq<char> {
    seq!['"'] + escaped(s) + seq!['"']
}

/// The JSON text of a value: no whitespace, entries and elements in order,
/// a number as it is held.
pub open spec fn json_text(j: JsonV) -> Seq<char>
    decreases j,
{
    match j {
        JsonV::Null => seq!['n', 'u', 'l', 'l'],
        JsonV::Bool(b) => if b {
            seq!['t', 'r', 'u', 'e']
        } else {
            seq!['f', 'a', 'l', 's', 'e']
        },
        JsonV::Number(t) => t,
        JsonV::Str(s) => quoted(s),
        JsonV::Array(a) => {
            proof {
                assert(decreases_to!(j => j->Array_0));
            }
            seq!['['] + text_list(a) + seq![']']
        },
        JsonV::Object(e) => {
            proof {
                assert(decreases_to!(j => j->Object_0));
            }
            seq!['{'] + text_entries(e) + seq!['}']
        },
    }
}

/// The texts of the elements, comma-separated.
pub open spec fn text_list(a: Seq<JsonV>) -> Seq<char>
    decreases a,
{
    if a.len() == 0 {
        Seq::empty()
    } else {
        proof {
            assert(decreases_to!(a => a[a.len() - 1]));
            assert(decreases_to!(a => a.subrange(0, a.len() - 1)));
        }
        if a.len() == 1 {
            json_text(a[a.len() - 1])
        } else {
            text_list(a.subrange(0, a.len() - 1)) + seq![','] + json_text(a[a.len() - 1])
        }
    }
}

/// The texts of the entries (`"key":value`), comma-separated.
pub open spec fn text_entries(e: Entries) -> Seq<char>
    decreases e,
{
    if e.len() == 0 {
        Seq::empty()
    } else {
        proof {
            assert(decreases_to!(e => e[e.len() - 1]));
            assert(decreases_to!(e[e.len() - 1] => e[e.len() - 1].1));
            assert(decreases_to!(e => e.subrange(0, e.len() - 1)));
        }
        let last = quoted(e[e.len() - 1].0) + seq![':'] + json_text(e[e.len() - 1].1);
        if e.len() == 1 {
            last
        } else {
            text_entries(e.subrange(0, e.len() - 1)) + seq![','] + last
        }
    }
}

/// Write one character as it stands inside a JSON string.
fn write_escaped_char(c: char, out: &mut Vec<char>)
    ensures
        final(out)@ == old(out)@ + escape_char(c),
{
    let ghost start = out@;
    if c == '"' {
        out.push('\\');
        out.push('"');
    } else if c == '\\' {
        out.push('\\');
        out.push('\\');
    } else if c == '\n' {
        out.push('\\');
        out.push('n');
    } else if c == '\r' {
        out.push('\\');
        out.push('r');
    } else if c == '\t' {
        out.push('\\');
        out.push('t');
    } else if c == '\u{8}' {
        out.push('\\');
        out.push('b');
    } else if c == '\u{c}' {
        out.push('\\');
        out.push('f');
    } else if (c as u32) < 32 {
        let n: u32 = c as u32;
        let hi: u32 = n / 16;
        let lo: u32 = n % 16;
        out.push('\\');
        out.push('u');
        out.push('0');
        out.push('0');
        out.push(hex_char(hi));
        out.push(hex_char(lo));
    } else {
        out.push(c);
    }
    assert(out@ =~= start + escape_char(c));
}

/// A lowercase hexadecimal digit.
fn hex_char(n: u32) -> (c: char)
    requires
        n < 16,
    ensures
        c == hex_digit(n as nat),
{
    let digits: [char; 16] = [
        '0', '1', '2', '3', '4', '5', '6', '7', '8', '9', 'a', 'b', 'c', 'd', 'e', 'f',
    ];
    let c = digits[n as usize];
    assert(c == hex_digit(n as nat)) by {
        assert(digits@ =~= seq!['0', '1', '2', '3', '4', '5', '6', '7', '8', '9', 'a', 'b', 'c', 'd', 'e', 'f']);
    }
    c
}

/// Write a text as a JSON string.
fn write_quoted(s: &str, out: &mut Vec<char>)
    ensures
        final(out)@ == old(out)@ + quoted(s@),
{
    let ghost start = out@;
    let cs = crate::text::chars_of(s);
    out.push('"');
    let mut i: usize = 0;
    while i < cs.len()
        invariant
            0 <= i <= cs@.len(),
            cs@ == s@,
            out@ == start + seq!['"'] + escaped(cs@.subrange(0, i as int)),
        decreases cs@.len() - i,
    {
        let ghost next = cs@.subrange(0, i + 1);
        assert(next.subrange(0, i as int) =~= cs@.subrange(0, i as int));
        write_escaped_char(cs[i], out);
        i = i + 1;
    }
    assert(cs@.subrange(0, cs@.len() as int) =~= cs@);
    out.push('"');
    assert(out@ =~= start + quoted(s@));
}

/// Write the JSON text of a value.
pub fn write_json(j: &Json, out: &mut Vec<char>)
    ensures
        final(out)@ == old(out)@ + json_text(j@),
    decreases j,
{
    let ghost start = out@;
    match j {
        Json::Null => {
            out.push('n');
            out.push('u');
            out.push('l');
            out.push('l');
            assert(out@ =~= start + json_text(j@));
        },
        Json::Bool(b) => {
            if *b {
                out.push('t');
                out.push('r');
                out.push('u');
                out.push('e');
            } else {
                out.push('f');
                out.push('a');
                out.push('l');
                out.push('s');
                out.push('e');
            }
            assert(out@ =~= start + json_text(j@));
        },
        Json::Number(t) => {
            crate::text::append_str(out, t.as_str());
        },
        Json::Str(t) => {
            write_quoted(t.as_str(), out);
        },
        Json::Array(v) => {
            proof {
                lemma_jv_list(v@);
            }
            let ghost l = jv_list(v@);
            out.push('[');
            let mut i: usize = 0;
            while i < v.len()
                invariant
                    0 <= i <= v@.len(),
                    *j == Json::Array(*v),
                    l == jv_list(v@),
                    l.len() == v@.len(),
                    forall|k: int| 0 <= k < l.len() ==> #[trigger] l[k] == jv(v@[k]),
                    out@ == start + seq!['['] + text_list(l.subrange(0, i as int)),
                decreases v@.len() - i,
            {
                proof {
                    assert(decreases_to!(*j => (*j)->Array_0));
                    assert(decreases_to!(*v => v@[i as int]));
                    assert(decreases_to!(*j => v@[i as int]));
                }
                let ghost next = l.subrange(0, i + 1);
                assert(next.subrange(0, i as int) =~= l.subrange(0, i as int));
                if i > 0 {
                    out.push(',');
                }
                write_json(&v[i], out);
                assert(out@ =~= start + seq!['['] + text_list(next));
                i = i + 1;
            }
            assert(l.subrange(0, l.len() as int) =~= l);
            out.push(']');
            assert(out@ =~= start + json_text(j@));
        },
        Json::Object(m) => {
            proof {
                lemma_jv_entries(m@);
            }
            let ghost e = jv_entries(m@);
            out.push('{');
            let mut i: usize = 0;
            while i < m.len()
                invariant
                    0 <= i <= m@.len(),
                    *j == Json::Object(*m),
                    e == jv_entries(m@),
                    e.len() == m@.len(),
                    forall|k: int| 0 <= k < e.len() ==> #[trigger] e[k] == (m@[k].0@, jv(m@[k].1)),
                    out@ == start + seq!['{'] + text_entries(e.subrange(0, i as int)),
                decreases m@.len() - i,
            {
                proof {
                    assert(decreases_to!(*j => (*j)->Object_0));
                    assert(decreases_to!(*m => m@[i as int]));
                    assert(decreases_to!(m@[i as int] => m@[i as int].1));
                    assert(decreases_to!(*j => m@[i as int].1));
                }
                let ghost next = e.subrange(0, i + 1);
                assert(next.subrange(0, i as int) =~= e.subrange(0, i as int));
                if i > 0 {
                    out.push(',');
                }
                write_quoted(m[i].0.as_str(), out);
                out.push(':');
                write_json(&m[i].1, out);
                assert(out@ =~= start + seq!['{'] + text_entries(next));
                i = i + 1;
            }
            assert(e.subrange(0, e.len() as int) =~= e);
            out.push('}');
            assert(out@ =~= start + json_text(j@));
        },
    }
}

impl Json {
    /// The JSON text of the value.
    pub fn to_text(&self) -> (r: String)
        ensures
            r@ == json_text(self@),
    {
        let mut out: Vec<char> = Vec::new();
        write_json(self, &mut out);
        assert(out@ =~= json_text(self@));
        crate::text::string_of(out.as_slice())
    }
}

impl View for Json {
    type V = JsonV;

    open spec fn view(&self) -> JsonV {
        jv(*self)
    }
}

} // verus!
