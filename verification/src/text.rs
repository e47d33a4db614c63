//! Character-level text handling shared by every module: views of strings as
//! character sequences, trimming, word splitting, joining, substring search
//! and replacement, and decimal rendering of counts.
use vstd::prelude::*;

verus! {

/// The Unicode alphabetic-or-numeric property of a non-ASCII character.
pub uninterp spec fn unicode_alphanumeric(c: char) -> bool;

/// What `str::to_lowercase` returns for a sequence holding a non-ASCII
/// character.
pub uninterp spec fn unicode_lowercase(s: Seq<char>) -> Seq<char>;

/// The character is ASCII.
pub open spec fn is_ascii_char(c: char) -> bool {
    (c as u32) < 128
}

/// What `char::is_whitespace` answers: the Unicode `White_Space` property,
/// which holds of tab through carriage return, the space, U+0085, U+00A0,
/// U+1680, U+2000 through U+200A, U+2028, U+2029, U+202F, U+205F and U+3000.
pub open spec fn is_whitespace_char(c: char) -> bool {
    let n = c as u32;
    ||| 9 <= n && n <= 13
    ||| n == 32 || n == 0x85 || n == 0xA0 || n == 0x1680
    ||| 0x2000 <= n && n <= 0x200A
    ||| n == 0x2028 || n == 0x2029 || n == 0x202F || n == 0x205F || n == 0x3000
}

/// What `char::is_alphanumeric` answers: in ASCII, the letters and digits.
pub open spec fn is_alphanumeric_char(c: char) -> bool {
    if is_ascii_char(c) {
        ('a' <= c && c <= 'z') || ('A' <= c && c <= 'Z') || ('0' <= c && c <= '9')
    } else {
        unicode_alphanumeric(c)
    }
}

/// ASCII lowercasing of one character (`char::to_ascii_lowercase`).
pub open spec fn ascii_lower(c: char) -> char {
    if 'A' <= c && c <= 'Z' {
        ((c as u32) + 32) as char
    } else {
        c
    }
}

/// Every character of `s` is ASCII.
pub open spec fn all_ascii(s: Seq<char>) -> bool {
    forall|i: int| 0 <= i < s.len() ==> is_ascii_char(#[trigger] s[i])
}

/// What `str::to_lowercase` returns: on an ASCII sequence, each letter
/// lowercased.
pub open spec fn lowercase(s: Seq<char>) -> Seq<char> {
    if all_ascii(s) {
        s.map_values(|c: char| ascii_lower(c))
    } else {
        unicode_lowercase(s)
    }
}

/// Whether `c` is whitespace, as `char::is_whitespace` answers.
pub fn char_is_whitespace(c: char) -> (r: bool)
    ensures
        r == is_whitespace_char(c),
{
    let n = c as u32;
    (9 <= n && n <= 13) || n == 32 || n == 0x85 || n == 0xA0 || n == 0x1680 || (0x2000 <= n && n <= 0x200A)
        || n == 0x2028 || n == 0x2029 || n == 0x202F || n == 0x205F || n == 0x3000
}

/// `char::is_alphanumeric`. Trusted: the result is the Unicode alphabetic or
/// numeric property of `c`, which in ASCII holds of the letters and digits.
#[verifier::external_body]
pub(crate) fn char_is_alphanumeric(c: char) -> (r: bool)
    ensures
        r == is_alphanumeric_char(c),
        !is_ascii_char(c) ==> r == unicode_alphanumeric(c),
{
    c.is_alphanumeric()
}

/// `str::to_lowercase`. Trusted: on ASCII input each letter is lowercased and
/// nothing else changes; other input is mapped by Unicode case rules, named
/// [`unicode_lowercase`] and not restated.
#[verifier::external_body]
pub(crate) fn str_to_lowercase(s: &str) -> (r: String)
    ensures
        r@ == lowercase(s@),
        !all_ascii(s@) ==> r@ == unicode_lowercase(s@),
{
    s.to_lowercase()
}

/// How `Debug` renders a string: quoted, with its special characters
/// escaped, as the standard library writes it.
pub uninterp spec fn debug_str(s: Seq<char>) -> Seq<char>;

/// `<str as Debug>::fmt`, through `format!`. Trusted: the rendering of this
/// string, named [`debug_str`].
#[verifier::external_body]
pub(crate) fn debug_quote(s: &str) -> (r: String)
    ensures
        r@ == debug_str(s@),
{
    format!("{s:?}")
}

/// `String::push`. Trusted: appends one character.
#[verifier::external_body]
pub(crate) fn string_push(s: &mut String, c: char)
    ensures
        final(s)@ == old(s)@.push(c),
{
    s.push(c)
}

/// The characters of `s`, in order.
pub fn chars_of(s: &str) -> (v: Vec<char>)
    ensures
        v@ == s@,
{
    let mut v: Vec<char> = Vec::new();
    for c in it: s.chars()
        invariant
            v@ == it.seq().take(it.index() as int),
    {
        v.push(c);
    }
    v
}

/// A `String` holding exactly the given characters.
pub fn string_of(v: &[char]) -> (s: String)
    ensures
        s@ == v@,
{
    let mut s = String::new();
    let mut i: usize = 0;
    while i < v.len()
        invariant
            0 <= i <= v@.len(),
            s@ == v@.take(i as int),
        decreases v@.len() - i,
    {
        string_push(&mut s, v[i]);
        assert(v@.take(i + 1) == v@.take(i as int).push(v@[i as int]));
        i = i + 1;
    }
    assert(v@.take(v@.len() as int) == v@);
    s
}

/// Number of characters (not bytes) in `s`.
pub fn char_count(s: &str) -> (n: usize)
    ensures
        n == s@.len(),
{
    s.unicode_len()
}

/// Equality of two character slices.
pub fn chars_eq(a: &[char], b: &[char]) -> (r: bool)
    ensures
        r == (a@ == b@),
{
    if a.len() != b.len() {
        return false;
    }
    let mut i: usize = 0;
    while i < a.len()
        invariant
            a@.len() == b@.len(),
            0 <= i <= a@.len(),
            forall|j: int| 0 <= j < i ==> a@[j] == b@[j],
        decreases a@.len() - i,
    {
        if a[i] != b[i] {
            return false;
        }
        i = i + 1;
    }
    assert(a@ =~= b@);
    true
}

/// Equality of a character slice with a string.
pub fn chars_eq_str(a: &[char], b: &str) -> (r: bool)
    ensures
        r == (a@ == b@),
{
    let bv = chars_of(b);
    chars_eq(a, bv.as_slice())
}

/// Equality of two strings.
pub fn str_eq(a: &str, b: &str) -> (r: bool)
    ensures
        r == (a@ == b@),
{
    let av = chars_of(a);
    let bv = chars_of(b);
    chars_eq(av.as_slice(), bv.as_slice())
}

// ---------------------------------------------------------------------------
// Trimming
// ---------------------------------------------------------------------------
/// The first index at or after `i` whose character is not whitespace, or the
/// length when there is none.
pub open spec fn first_kept(s: Seq<char>, i: int) -> int
    decreases s.len() - i,
{
    if i >= s.len() {
        s.len() as int
    } else if !is_whitespace_char(s[i]) {
        i
    } else {
        first_kept(s, i + 1)
    }
}

/// One past the last index before `j` whose character is not whitespace, or
/// zero when there is none.
pub open spec fn last_kept(s: Seq<char>, j: int) -> int
    decreases j,
{
    if j <= 0 {
        0
    } else if !is_whitespace_char(s[j - 1]) {
        j
    } else {
        last_kept(s, j - 1)
    }
}

/// `s` with leading and trailing whitespace removed (`str::trim`).
pub open spec fn trim_seq(s: Seq<char>) -> Seq<char> {
    let a = first_kept(s, 0);
    if a >= s.len() {
        Seq::empty()
    } else {
        s.subrange(a, last_kept(s, s.len() as int))
    }
}

/// Every character of `s` is whitespace (so `str::trim` leaves nothing).
pub open spec fn is_blank_seq(s: Seq<char>) -> bool {
    forall|i: int| 0 <= i < s.len() ==> is_whitespace_char(#[trigger] s[i])
}

proof fn lemma_first_kept(s: Seq<char>, i: int)
    requires
        0 <= i <= s.len(),
    ensures
        i <= first_kept(s, i) <= s.len(),
        forall|k: int| i <= k < first_kept(s, i) ==> is_whitespace_char(#[trigger] s[k]),
        first_kept(s, i) < s.len() ==> !is_whitespace_char(s[first_kept(s, i)]),
    decreases s.len() - i,
{
    if i < s.len() && is_whitespace_char(s[i]) {
        lemma_first_kept(s, i + 1);
    }
}

proof fn lemma_last_kept(s: Seq<char>, j: int)
    requires
        0 <= j <= s.len(),
    ensures
        0 <= last_kept(s, j) <= j,
        forall|k: int| last_kept(s, j) <= k < j ==> is_whitespace_char(#[trigger] s[k]),
        last_kept(s, j) > 0 ==> !is_whitespace_char(s[last_kept(s, j) - 1]),
    decreases j,
{
    if j > 0 && is_whitespace_char(s[j - 1]) {
        lemma_last_kept(s, j - 1);
    }
}

/// The trimmed sequence is empty exactly when every character is whitespace.
pub proof fn lemma_trim_empty_iff_blank(s: Seq<char>)
    ensures
        (trim_seq(s).len() == 0) == is_blank_seq(s),
{
    lemma_first_kept(s, 0);
    lemma_last_kept(s, s.len() as int);
    let a = first_kept(s, 0);
    if a < s.len() {
        let b = last_kept(s, s.len() as int);
        if b <= a {
            assert(is_whitespace_char(s[a]));
        }
        assert(!is_whitespace_char(s[a]));
    }
}

/// Trimming keeps a contiguous piece of the sequence.
pub proof fn lemma_trim_is_piece(s: Seq<char>)
    ensures
        exists|a: int, b: int| 0 <= a <= b <= s.len() && trim_seq(s) == s.subrange(a, b),
{
    lemma_first_kept(s, 0);
    lemma_last_kept(s, s.len() as int);
    let a = first_kept(s, 0);
    if a >= s.len() {
        assert(trim_seq(s) =~= s.subrange(0, 0));
    } else {
        let b = last_kept(s, s.len() as int);
        if b <= a {
            assert(is_whitespace_char(s[a]));
        }
        assert(trim_seq(s) == s.subrange(a, b));
    }
}

/// Whether `v` is empty or holds only whitespace.
pub fn is_blank(v: &[char]) -> (r: bool)
    ensures
        r == is_blank_seq(v@),
        r == (trim_seq(v@).len() == 0),
{
    proof {
        lemma_trim_empty_iff_blank(v@);
    }
    let mut i: usize = 0;
    while i < v.len()
        invariant
            0 <= i <= v@.len(),
            forall|k: int| 0 <= k < i ==> is_whitespace_char(#[trigger] v@[k]),
        decreases v@.len() - i,
    {
        if !char_is_whitespace(v[i]) {
            assert(!is_whitespace_char(v@[i as int]));
            proof {
                lemma_trim_empty_iff_blank(v@);
            }
            return false;
        }
        i = i + 1;
    }
    proof {
        lemma_trim_empty_iff_blank(v@);
    }
    true
}

/// Whether the string `s` is empty or holds only whitespace.
pub fn str_is_blank(s: &str) -> (r: bool)
    ensures
        r == is_blank_seq(s@),
        r == (trim_seq(s@).len() == 0),
{
    let v = chars_of(s);
    is_blank(v.as_slice())
}

/// The characters of `v` with leading and trailing whitespace removed.
pub fn trim_chars(v: &[char]) -> (r: Vec<char>)
    ensures
        r@ == trim_seq(v@),
{
    let ghost s = v@;
    let mut a: usize = 0;
    while a < v.len() && char_is_whitespace(v[a])
        invariant
            0 <= a <= s.len(),
            v@ == s,
            first_kept(s, 0) == first_kept(s, a as int),
        decreases s.len() - a,
    {
        a = a + 1;
    }
    if a >= v.len() {
        return Vec::new();
    }
    let mut b: usize = v.len();
    while b > 0 && char_is_whitespace(v[b - 1])
        invariant
            0 <= b <= s.len(),
            v@ == s,
            last_kept(s, s.len() as int) == last_kept(s, b as int),
        decreases b,
    {
        b = b - 1;
    }
    proof {
        lemma_last_kept(s, b as int);
        lemma_first_kept(s, 0);
        if b <= a {
            // s[a] is not whitespace and a < s.len(), so the backward scan
            // stops after it.
            lemma_last_kept(s, s.len() as int);
            assert(!is_whitespace_char(s[a as int]));
            assert(last_kept(s, s.len() as int) == b);
            assert(is_whitespace_char(s[a as int]));
        }
    }
    let mut r: Vec<char> = Vec::new();
    let mut i: usize = a;
    while i < b
        invariant
            a <= i <= b <= s.len(),
            v@ == s,
            r@ == s.subrange(a as int, i as int),
        decreases b - i,
    {
        r.push(v[i]);
        assert(s.subrange(a as int, i + 1) == s.subrange(a as int, i as int).push(s[i as int]));
        i = i + 1;
    }
    r
}

/// `s` with leading and trailing whitespace removed, as a `String`.
pub fn trim_str(s: &str) -> (r: String)
    ensures
        r@ == trim_seq(s@),
{
    let v = chars_of(s);
    let t = trim_chars(v.as_slice());
    string_of(t.as_slice())
}


// ---------------------------------------------------------------------------
// Appending, words and joining
// ---------------------------------------------------------------------------
/// Append the characters of `src` to `out`.
pub fn append_chars(out: &mut Vec<char>, src: &[char])
    ensures
        final(out)@ == old(out)@ + src@,
{
    let ghost start = out@;
    let mut i: usize = 0;
    while i < src.len()
        invariant
            0 <= i <= src@.len(),
            out@ == start + src@.take(i as int),
        decreases src@.len() - i,
    {
        out.push(src[i]);
        assert(src@.take(i + 1) == src@.take(i as int).push(src@[i as int]));
        i = i + 1;
    }
    assert(src@.take(src@.len() as int) == src@);
}

/// Append the characters of `src` to `out`.
pub fn append_str(out: &mut Vec<char>, src: &str)
    ensures
        final(out)@ == old(out)@ + src@,
{
    let v = chars_of(src);
    append_chars(out, v.as_slice());
}

/// Whether `c` belongs to a word: alphanumeric when `alnum`, else any
/// non-whitespace character.
pub open spec fn word_char(alnum: bool, c: char) -> bool {
    if alnum {
        is_alphanumeric_char(c)
    } else {
        !is_whitespace_char(c)
    }
}

/// Scanning state after reading `s`: the completed words and the word in
/// progress.
pub open spec fn scan_words(s: Seq<char>, alnum: bool) -> (Seq<Seq<char>>, Seq<char>)
    decreases s.len(),
{
    if s.len() == 0 {
        (Seq::empty(), Seq::empty())
    } else {
        let prev = scan_words(s.drop_last(), alnum);
        let c = s.last();
        if word_char(alnum, c) {
            (prev.0, prev.1.push(c))
        } else if prev.1.len() > 0 {
            (prev.0.push(prev.1), Seq::empty())
        } else {
            prev
        }
    }
}

/// The maximal runs of word characters of `s`, in order (splitting on every
/// non-word character and dropping empty pieces).
pub open spec fn words(s: Seq<char>, alnum: bool) -> Seq<Seq<char>> {
    let st = scan_words(s, alnum);
    if st.1.len() > 0 {
        st.0.push(st.1)
    } else {
        st.0
    }
}

/// The character sequences held by a vector of character vectors.
pub open spec fn seqs_of(ws: Seq<Vec<char>>) -> Seq<Seq<char>> {
    ws.map_values(|w: Vec<char>| w@)
}

/// The character sequences held by a vector of strings.
pub open spec fn strs_of(ss: Seq<String>) -> Seq<Seq<char>> {
    ss.map_values(|s: String| s@)
}

/// The character vectors of a list of strings.
pub fn chars_of_all(ss: &Vec<String>) -> (r: Vec<Vec<char>>)
    ensures
        seqs_of(r@) == strs_of(ss@),
{
    let mut r: Vec<Vec<char>> = Vec::new();
    let mut i: usize = 0;
    while i < ss.len()
        invariant
            0 <= i <= ss@.len(),
            seqs_of(r@) == strs_of(ss@.take(i as int)),
        decreases ss@.len() - i,
    {
        r.push(chars_of(ss[i].as_str()));
        assert(strs_of(ss@.take(i + 1)) =~= strs_of(ss@.take(i as int)).push(ss@[i as int]@));
        i = i + 1;
    }
    assert(ss@.take(ss@.len() as int) =~= ss@);
    r
}

/// Split `v` into its words (see [`words`]).
pub fn split_words(v: &[char], alnum: bool) -> (r: Vec<Vec<char>>)
    ensures
        seqs_of(r@) == words(v@, alnum),
{
    let mut done: Vec<Vec<char>> = Vec::new();
    let mut cur: Vec<char> = Vec::new();
    let mut i: usize = 0;
    while i < v.len()
        invariant
            0 <= i <= v@.len(),
            (seqs_of(done@), cur@) == scan_words(v@.take(i as int), alnum),
        decreases v@.len() - i,
    {
        let c = v[i];
        let keep = if alnum {
            char_is_alphanumeric(c)
        } else {
            !char_is_whitespace(c)
        };
        let ghost old_done = seqs_of(done@);
        let ghost old_cur = cur@;
        assert(v@.take(i + 1).drop_last() == v@.take(i as int));
        if keep {
            cur.push(c);
        } else if cur.len() > 0 {
            let w = cur;
            done.push(w);
            cur = Vec::new();
            assert(seqs_of(done@) =~= old_done.push(old_cur));
        }
        i = i + 1;
    }
    assert(v@.take(v@.len() as int) == v@);
    if cur.len() > 0 {
        let ghost old_done = seqs_of(done@);
        let ghost old_cur = cur@;
        done.push(cur);
        assert(seqs_of(done@) =~= old_done.push(old_cur));
    }
    done
}

/// The words joined with `sep` between consecutive words.
pub open spec fn join(ws: Seq<Seq<char>>, sep: Seq<char>) -> Seq<char>
    decreases ws.len(),
{
    if ws.len() == 0 {
        Seq::empty()
    } else if ws.len() == 1 {
        ws[0]
    } else {
        join(ws.drop_last(), sep) + sep + ws.last()
    }
}

/// A text is single-spaced: it neither starts nor ends with a space, and no
/// space follows another.
pub open spec fn single_spaced(t: Seq<char>) -> bool {
    &&& t.len() > 0 ==> t[0] != ' ' && t[t.len() - 1] != ' '
    &&& forall|i: int| 0 <= i < t.len() - 1 && #[trigger] t[i] == ' ' ==> t[i + 1] != ' '
}

/// Appending word characters to a scan extends the word in progress.
proof fn lemma_scan_append_word(p: Seq<char>, q: Seq<char>)
    requires
        forall|i: int| 0 <= i < q.len() ==> is_alphanumeric_char(#[trigger] q[i]),
    ensures
        scan_words(p + q, true) == (scan_words(p, true).0, scan_words(p, true).1 + q),
    decreases q.len(),
{
    if q.len() == 0 {
        assert(p + q =~= p);
        assert(scan_words(p, true).1 + q =~= scan_words(p, true).1);
    } else {
        lemma_scan_append_word(p, q.drop_last());
        assert((p + q).drop_last() =~= p + q.drop_last());
        assert((p + q).last() == q[q.len() - 1]);
        assert((scan_words(p, true).1 + q.drop_last()).push(q.last()) =~= scan_words(p, true).1 + q);
    }
}

/// A space after a text closes the word in progress.
proof fn lemma_scan_space(p: Seq<char>)
    ensures
        scan_words(p.push(' '), true) == (words(p, true), Seq::<char>::empty()),
{
    assert(p.push(' ').drop_last() =~= p);
    assert(!is_alphanumeric_char(' '));
}

/// Splitting words joined by single spaces gives the words back, when each
/// is a non-empty run of letters and digits.
pub proof fn lemma_words_of_join(ws: Seq<Seq<char>>)
    requires
        forall|i: int| 0 <= i < ws.len() ==> (#[trigger] ws[i]).len() > 0,
        forall|i: int, j: int| 0 <= i < ws.len() && 0 <= j < ws[i].len() ==> is_alphanumeric_char(#[trigger] ws[i][j]),
    ensures
        words(join(ws, " "@), true) == ws,
    decreases ws.len(),
{
    reveal_strlit(" ");
    if ws.len() == 0 {
    } else if ws.len() == 1 {
        let w = ws[0];
        assert forall|j: int| 0 <= j < w.len() implies is_alphanumeric_char(#[trigger] w[j]) by {
            assert(is_alphanumeric_char(ws[0][j]));
        }
        lemma_scan_append_word(Seq::empty(), w);
        assert(Seq::<char>::empty() + w =~= w);
        assert(Seq::<Seq<char>>::empty().push(w) =~= ws);
    } else {
        let d = ws.drop_last();
        let w = ws.last();
        assert forall|i: int| 0 <= i < d.len() implies (#[trigger] d[i]).len() > 0 by {
            assert(d[i] == ws[i]);
        }
        assert forall|i: int, j: int| 0 <= i < d.len() && 0 <= j < d[i].len() implies is_alphanumeric_char(#[trigger] d[i][j]) by {
            assert(d[i] == ws[i]);
        }
        assert forall|j: int| 0 <= j < w.len() implies is_alphanumeric_char(#[trigger] w[j]) by {
            assert(w == ws[ws.len() - 1]);
        }
        let a = join(d, " "@);
        lemma_words_of_join(d);
        lemma_scan_space(a);
        lemma_scan_append_word(a.push(' '), w);
        assert(join(ws, " "@) =~= a.push(' ') + w);
        assert(w == ws[ws.len() - 1]);
        assert(w.len() > 0);
        assert(d.push(w) =~= ws);
    }
}

/// Whatever holds of every character of a text holds of every character of
/// its words, and each word is a non-empty run of word characters.
pub proof fn lemma_words_shape(t: Seq<char>, q: spec_fn(char) -> bool)
    requires
        forall|i: int| 0 <= i < t.len() ==> q(#[trigger] t[i]),
    ensures
        forall|k: int| 0 <= k < words(t, true).len() ==> (#[trigger] words(t, true)[k]).len() > 0,
        forall|k: int, j: int|
            0 <= k < words(t, true).len() && 0 <= j < words(t, true)[k].len() ==> q(#[trigger] words(t, true)[k][j])
                && is_alphanumeric_char(words(t, true)[k][j]),
{
    lemma_scan_shape(t, q);
}

proof fn lemma_scan_shape(t: Seq<char>, q: spec_fn(char) -> bool)
    requires
        forall|i: int| 0 <= i < t.len() ==> q(#[trigger] t[i]),
    ensures
        forall|k: int| 0 <= k < scan_words(t, true).0.len() ==> (#[trigger] scan_words(t, true).0[k]).len() > 0,
        forall|k: int, j: int|
            0 <= k < scan_words(t, true).0.len() && 0 <= j < scan_words(t, true).0[k].len() ==> q(
                #[trigger] scan_words(t, true).0[k][j],
            ) && is_alphanumeric_char(scan_words(t, true).0[k][j]),
        forall|j: int|
            0 <= j < scan_words(t, true).1.len() ==> q(#[trigger] scan_words(t, true).1[j])
                && is_alphanumeric_char(scan_words(t, true).1[j]),
        forall|k: int, j: int|
            0 <= k < words(t, true).len() && 0 <= j < words(t, true)[k].len() ==> q(#[trigger] words(t, true)[k][j])
                && is_alphanumeric_char(words(t, true)[k][j]),
        forall|k: int| 0 <= k < words(t, true).len() ==> (#[trigger] words(t, true)[k]).len() > 0,
    decreases t.len(),
{
    if t.len() > 0 {
        let d = t.drop_last();
        assert forall|i: int| 0 <= i < d.len() implies q(#[trigger] d[i]) by {
            assert(d[i] == t[i]);
        }
        lemma_scan_shape(d, q);
        assert(q(t[t.len() - 1]));
        let prev = scan_words(d, true);
        let c = t.last();
        assert(t.drop_last() == d);
        if word_char(true, c) {
            assert(scan_words(t, true) == (prev.0, prev.1.push(c)));
        } else if prev.1.len() > 0 {
            let now = prev.0.push(prev.1);
            assert(scan_words(t, true) == (now, Seq::<char>::empty()));
            assert forall|k: int| 0 <= k < now.len() implies (#[trigger] now[k]).len() > 0 by {
                if k < prev.0.len() {
                    assert(now[k] == prev.0[k]);
                }
            }
            assert forall|k: int, j: int| 0 <= k < now.len() && 0 <= j < now[k].len() implies q(#[trigger] now[k][j])
                && is_alphanumeric_char(now[k][j]) by {
                if k < prev.0.len() {
                    assert(now[k] == prev.0[k]);
                } else {
                    assert(now[k] == prev.1);
                }
            }
        } else {
            assert(scan_words(t, true) == prev);
        }
    }
}

/// A property of the separator and of every word's characters holds of
/// every character of the joined text.
pub proof fn lemma_join_chars(ws: Seq<Seq<char>>, sep: Seq<char>, q: spec_fn(char) -> bool)
    requires
        forall|i: int| 0 <= i < sep.len() ==> q(#[trigger] sep[i]),
        forall|i: int, j: int| 0 <= i < ws.len() && 0 <= j < ws[i].len() ==> q(#[trigger] ws[i][j]),
    ensures
        forall|i: int| 0 <= i < join(ws, sep).len() ==> q(#[trigger] join(ws, sep)[i]),
    decreases ws.len(),
{
    if ws.len() == 1 {
        assert forall|i: int| 0 <= i < join(ws, sep).len() implies q(#[trigger] join(ws, sep)[i]) by {
            assert(q(ws[0][i]));
        }
    } else if ws.len() > 1 {
        let d = ws.drop_last();
        assert forall|i: int, j: int| 0 <= i < d.len() && 0 <= j < d[i].len() implies q(#[trigger] d[i][j]) by {
            assert(d[i] == ws[i]);
        }
        lemma_join_chars(d, sep, q);
        let a = join(d, sep);
        let w = ws[ws.len() - 1];
        assert(join(ws, sep) == a + sep + w);
        assert forall|i: int| 0 <= i < join(ws, sep).len() implies q(#[trigger] join(ws, sep)[i]) by {
            if i < a.len() {
                assert(join(ws, sep)[i] == a[i]);
            } else if i < a.len() + sep.len() {
                assert(join(ws, sep)[i] == sep[i - a.len()]);
            } else {
                assert(join(ws, sep)[i] == w[i - a.len() - sep.len()]);
            }
        }
    }
}

/// Non-empty words without spaces, joined by single spaces, make a
/// single-spaced text (non-empty when there is a word).
pub proof fn lemma_join_single_spaced(ws: Seq<Seq<char>>)
    requires
        forall|i: int| 0 <= i < ws.len() ==> (#[trigger] ws[i]).len() > 0,
        forall|i: int, j: int| 0 <= i < ws.len() && 0 <= j < ws[i].len() ==> #[trigger] ws[i][j] != ' ',
    ensures
        single_spaced(join(ws, " "@)),
        ws.len() > 0 ==> join(ws, " "@).len() > 0,
    decreases ws.len(),
{
    reveal_strlit(" ");
    let t = join(ws, " "@);
    if ws.len() == 1 {
        assert(t == ws[0]);
        assert forall|i: int| 0 <= i < t.len() - 1 && #[trigger] t[i] == ' ' implies t[i + 1] != ' ' by {
            assert(ws[0][i] != ' ');
        }
        assert(ws[0][ws[0].len() - 1] != ' ');
        assert(ws[0][0] != ' ');
    } else if ws.len() > 1 {
        let d = ws.drop_last();
        assert forall|i: int| 0 <= i < d.len() implies (#[trigger] d[i]).len() > 0 by {
            assert(d[i] == ws[i]);
        }
        assert forall|i: int, j: int| 0 <= i < d.len() && 0 <= j < d[i].len() implies #[trigger] d[i][j] != ' ' by {
            assert(d[i] == ws[i]);
        }
        lemma_join_single_spaced(d);
        let a = join(d, " "@);
        let w = ws[ws.len() - 1];
        assert(w.len() > 0);
        assert(t == a + " "@ + w);
        assert(t.len() == a.len() + 1 + w.len());
        assert(t[0] == a[0]);
        assert(t[t.len() - 1] == w[w.len() - 1]);
        assert(w[w.len() - 1] != ' ');
        assert forall|i: int| 0 <= i < t.len() - 1 && #[trigger] t[i] == ' ' implies t[i + 1] != ' ' by {
            if i < a.len() - 1 {
                assert(t[i] == a[i]);
                assert(t[i + 1] == a[i + 1]);
            } else if i == a.len() - 1 {
                assert(t[i] == a[a.len() - 1]);
            } else if i == a.len() {
                assert(t[i + 1] == w[0]);
                assert(w[0] != ' ');
            } else {
                assert(t[i] == w[i - a.len() - 1]);
                assert(w[i - a.len() - 1] != ' ');
            }
        }
    }
}

/// Join `ws` with `sep` between consecutive items.
pub fn join_chars(ws: &Vec<Vec<char>>, sep: &[char]) -> (r: Vec<char>)
    ensures
        r@ == join(seqs_of(ws@), sep@),
{
    let ghost d = seqs_of(ws@);
    let mut out: Vec<char> = Vec::new();
    let mut i: usize = 0;
    while i < ws.len()
        invariant
            0 <= i <= ws@.len(),
            d == seqs_of(ws@),
            d.len() == ws@.len(),
            out@ == join(d.take(i as int), sep@),
        decreases ws@.len() - i,
    {
        assert(d.take(i + 1).drop_last() == d.take(i as int));
        assert(d[i as int] == ws@[i as int]@);
        if i > 0 {
            append_chars(&mut out, sep);
        }
        append_chars(&mut out, ws[i].as_slice());
        proof {
            if i == 0 {
                assert(d.take(1).len() == 1);
                assert(out@ =~= d.take(1)[0]);
            } else {
                assert(out@ =~= join(d.take(i as int), sep@) + sep@ + d.take(i + 1).last());
            }
        }
        i = i + 1;
    }
    assert(d.take(ws@.len() as int) == d);
    out
}

// ---------------------------------------------------------------------------
// Search and replacement
// ---------------------------------------------------------------------------
/// `pat` occurs in `s` starting at index `i`.
pub open spec fn occurs_at(s: Seq<char>, pat: Seq<char>, i: int) -> bool {
    0 <= i && i + pat.len() <= s.len() && s.subrange(i, i + pat.len()) == pat
}

/// `i` is the first index at which `pat` occurs in `s`.
pub open spec fn is_first_occurrence(s: Seq<char>, pat: Seq<char>, i: int) -> bool {
    occurs_at(s, pat, i) && forall|j: int| 0 <= j < i ==> !#[trigger] occurs_at(s, pat, j)
}

/// Without any occurrence there is no first occurrence.
pub proof fn lemma_no_first_occurrence(s: Seq<char>, pat: Seq<char>)
    requires
        forall|j: int| 0 <= j ==> !#[trigger] occurs_at(s, pat, j),
    ensures
        !exists|i: int| is_first_occurrence(s, pat, i),
{
}

/// An occurrence inside a piece of `s` is an occurrence in `s`.
pub proof fn lemma_occurs_in_piece(s: Seq<char>, pat: Seq<char>, a: int, b: int, j: int)
    requires
        0 <= a <= b <= s.len(),
        occurs_at(s.subrange(a, b), pat, j),
    ensures
        occurs_at(s, pat, a + j),
{
    assert(s.subrange(a, b).subrange(j, j + pat.len()) =~= s.subrange(a + j, a + j + pat.len()));
}

/// Where there is an occurrence there is a first one.
pub proof fn lemma_first_occurrence_exists(s: Seq<char>, pat: Seq<char>, j: int)
    requires
        occurs_at(s, pat, j),
    ensures
        exists|i: int| is_first_occurrence(s, pat, i),
    decreases j,
{
    if exists|k: int| 0 <= k < j && occurs_at(s, pat, k) {
        let k = choose|k: int| 0 <= k < j && occurs_at(s, pat, k);
        lemma_first_occurrence_exists(s, pat, k);
    } else {
        assert(is_first_occurrence(s, pat, j));
    }
}

/// The first occurrence is unique.
pub proof fn lemma_first_occurrence_unique(s: Seq<char>, pat: Seq<char>, i: int)
    requires
        is_first_occurrence(s, pat, i),
    ensures
        forall|k: int| is_first_occurrence(s, pat, k) ==> k == i,
{
    assert forall|k: int| is_first_occurrence(s, pat, k) implies k == i by {
        if k < i {
            assert(!occurs_at(s, pat, k));
        } else if k > i {
            assert(!occurs_at(s, pat, i));
        }
    }
}

/// Whether `pat` occurs in `v` at index `i`.
pub fn matches_at(v: &[char], i: usize, pat: &[char]) -> (r: bool)
    requires
        i <= v@.len(),
    ensures
        r == occurs_at(v@, pat@, i as int),
{
    let n = v.len();
    if pat.len() > n - i {
        return false;
    }
    let mut k: usize = 0;
    while k < pat.len()
        invariant
            0 <= k <= pat@.len(),
            n == v@.len(),
            i + pat@.len() <= n,
            forall|j: int| 0 <= j < k ==> v@[i + j] == pat@[j],
        decreases pat@.len() - k,
    {
        if v[i + k] != pat[k] {
            assert(v@.subrange(i as int, i + pat@.len())[k as int] != pat@[k as int]);
            return false;
        }
        k = k + 1;
    }
    assert(v@.subrange(i as int, i + pat@.len()) =~= pat@);
    true
}

/// The first index at or after `from` where `pat` occurs in `v`.
pub fn find_from(v: &[char], pat: &[char], from: usize) -> (r: Option<usize>)
    requires
        from <= v@.len(),
    ensures
        r matches Some(i) ==> from <= i && occurs_at(v@, pat@, i as int) && forall|j: int|
            from <= j < i ==> !#[trigger] occurs_at(v@, pat@, j),
        r is None ==> forall|j: int| from <= j ==> !#[trigger] occurs_at(v@, pat@, j),
{
    let n = v.len();
    let mut i: usize = from;
    loop
        invariant
            from <= i <= n,
            n == v@.len(),
            forall|j: int| from <= j < i ==> !#[trigger] occurs_at(v@, pat@, j),
        decreases n - i,
    {
        if matches_at(v, i, pat) {
            return Some(i);
        }
        if i == n {
            return None;
        }
        i = i + 1;
    }
}

/// Every non-overlapping, leftmost occurrence of a non-empty `pat` in `s`
/// replaced by `rep` (`str::replace`).
pub open spec fn replace_all(s: Seq<char>, pat: Seq<char>, rep: Seq<char>) -> Seq<char>
    decreases s.len(),
{
    if s.len() == 0 {
        Seq::empty()
    } else if pat.len() > 0 && occurs_at(s, pat, 0) {
        rep + replace_all(s.subrange(pat.len() as int, s.len() as int), pat, rep)
    } else {
        seq![s[0]] + replace_all(s.subrange(1, s.len() as int), pat, rep)
    }
}

proof fn lemma_occurs_at_shift(s: Seq<char>, pat: Seq<char>, i: int)
    requires
        0 <= i <= s.len(),
    ensures
        occurs_at(s, pat, i) == occurs_at(s.subrange(i, s.len() as int), pat, 0),
{
    let t = s.subrange(i, s.len() as int);
    if i + pat.len() <= s.len() {
        assert(t.subrange(0, pat.len() as int) =~= s.subrange(i, i + pat.len()));
    }
}

/// `v` with every leftmost non-overlapping occurrence of `pat` replaced by
/// `rep`.
pub fn replace_chars(v: &[char], pat: &[char], rep: &[char]) -> (r: Vec<char>)
    requires
        pat@.len() > 0,
    ensures
        r@ == replace_all(v@, pat@, rep@),
{
    let ghost s = v@;
    let mut out: Vec<char> = Vec::new();
    let mut i: usize = 0;
    assert(s.subrange(0, s.len() as int) =~= s);
    assert(out@ + replace_all(s, pat@, rep@) =~= replace_all(s, pat@, rep@));
    while i < v.len()
        invariant
            0 <= i <= s.len(),
            s == v@,
            pat@.len() > 0,
            replace_all(s, pat@, rep@) == out@ + replace_all(
                s.subrange(i as int, s.len() as int),
                pat@,
                rep@,
            ),
        decreases s.len() - i,
    {
        let ghost t = s.subrange(i as int, s.len() as int);
        proof {
            lemma_occurs_at_shift(s, pat@, i as int);
        }
        if matches_at(v, i, pat) {
            let ghost before = out@;
            append_chars(&mut out, rep);
            assert(t.subrange(pat@.len() as int, t.len() as int) =~= s.subrange(
                i + pat@.len(),
                s.len() as int,
            ));
            assert(out@ + replace_all(s.subrange(i + pat@.len(), s.len() as int), pat@, rep@)
                =~= before + replace_all(t, pat@, rep@));
            i = i + pat.len();
        } else {
            let ghost before = out@;
            out.push(v[i]);
            assert(t.subrange(1, t.len() as int) =~= s.subrange(i + 1, s.len() as int));
            assert(out@ + replace_all(s.subrange(i + 1, s.len() as int), pat@, rep@) =~= before
                + replace_all(t, pat@, rep@));
            i = i + 1;
        }
    }
    assert(s.subrange(s.len() as int, s.len() as int) =~= Seq::<char>::empty());
    assert(out@ + Seq::<char>::empty() =~= out@);
    out
}

/// `s` with every leftmost non-overlapping occurrence of `pat` replaced by
/// `rep`, as characters.
pub fn replace_str(s: &[char], pat: &str, rep: &[char]) -> (r: Vec<char>)
    requires
        pat@.len() > 0,
    ensures
        r@ == replace_all(s@, pat@, rep@),
{
    let p = chars_of(pat);
    replace_chars(s, p.as_slice(), rep)
}

// ---------------------------------------------------------------------------
// Lexicographic order
// ---------------------------------------------------------------------------
/// `a` sorts strictly before `b` character by character (the order `String`
/// compares in, since UTF-8 byte order is code point order).
pub open spec fn seq_lt(a: Seq<char>, b: Seq<char>) -> bool
    decreases a.len(),
{
    if a.len() == 0 {
        b.len() > 0
    } else if b.len() == 0 {
        false
    } else if a[0] != b[0] {
        a[0] < b[0]
    } else {
        seq_lt(a.drop_first(), b.drop_first())
    }
}

/// The order is irreflexive and transitive.
pub proof fn lemma_seq_lt_strict(a: Seq<char>, b: Seq<char>, c: Seq<char>)
    ensures
        !seq_lt(a, a),
        seq_lt(a, b) && seq_lt(b, c) ==> seq_lt(a, c),
        seq_lt(a, b) ==> !seq_lt(b, a),
    decreases a.len(),
{
    if a.len() > 0 {
        lemma_seq_lt_strict(a.drop_first(), a.drop_first(), a.drop_first());
        if b.len() > 0 && c.len() > 0 {
            lemma_seq_lt_strict(a.drop_first(), b.drop_first(), c.drop_first());
        } else if b.len() > 0 {
            lemma_seq_lt_strict(a.drop_first(), b.drop_first(), b.drop_first());
        }
    }
}

/// Two different sequences are ordered one way or the other.
pub proof fn lemma_seq_lt_total(a: Seq<char>, b: Seq<char>)
    ensures
        a != b ==> seq_lt(a, b) || seq_lt(b, a),
    decreases a.len(),
{
    if a.len() > 0 && b.len() > 0 && a[0] == b[0] {
        lemma_seq_lt_total(a.drop_first(), b.drop_first());
        if a.drop_first() == b.drop_first() {
            assert(a =~= seq![a[0]] + a.drop_first());
            assert(b =~= seq![b[0]] + b.drop_first());
        }
    } else if a.len() == 0 && b.len() == 0 {
        assert(a =~= b);
    }
}

/// Whether `a` sorts strictly before `b`.
pub fn chars_lt(a: &[char], b: &[char]) -> (r: bool)
    ensures
        r == seq_lt(a@, b@),
{
    assert(a@.skip(0) =~= a@);
    assert(b@.skip(0) =~= b@);
    let mut i: usize = 0;
    while i < a.len() && i < b.len() && a[i] == b[i]
        invariant
            0 <= i <= a@.len(),
            i <= b@.len(),
            seq_lt(a@, b@) == seq_lt(a@.skip(i as int), b@.skip(i as int)),
        decreases a@.len() - i,
    {
        assert(a@.skip(i as int).drop_first() =~= a@.skip(i + 1));
        assert(b@.skip(i as int).drop_first() =~= b@.skip(i + 1));
        i = i + 1;
    }
    if i == a.len() {
        i < b.len()
    } else if i == b.len() {
        false
    } else {
        a[i] < b[i]
    }
}

// ---------------------------------------------------------------------------
// Decimal rendering
// ---------------------------------------------------------------------------
/// The character of decimal digit `d` (`d < 10`).
pub open spec fn digit_char(d: nat) -> char {
    if d == 0 {
        '0'
    } else if d == 1 {
        '1'
    } else if d == 2 {
        '2'
    } else if d == 3 {
        '3'
    } else if d == 4 {
        '4'
    } else if d == 5 {
        '5'
    } else if d == 6 {
        '6'
    } else if d == 7 {
        '7'
    } else if d == 8 {
        '8'
    } else {
        '9'
    }
}

/// The decimal rendering of `n` (as `Display` prints an unsigned integer).
pub open spec fn decimal(n: nat) -> Seq<char>
    decreases n,
{
    if n < 10 {
        seq![digit_char(n)]
    } else {
        decimal(n / 10).push(digit_char(n % 10))
    }
}

/// The decimal rendering of a signed integer.
pub open spec fn signed_decimal(n: int) -> Seq<char> {
    if n < 0 {
        seq!['-'] + decimal((-n) as nat)
    } else {
        decimal(n as nat)
    }
}

fn digit(d: u128) -> (c: char)
    requires
        d < 10,
    ensures
        c == digit_char(d as nat),
{
    if d == 0 {
        '0'
    } else if d == 1 {
        '1'
    } else if d == 2 {
        '2'
    } else if d == 3 {
        '3'
    } else if d == 4 {
        '4'
    } else if d == 5 {
        '5'
    } else if d == 6 {
        '6'
    } else if d == 7 {
        '7'
    } else if d == 8 {
        '8'
    } else {
        '9'
    }
}

/// The decimal digits of `n`.
pub fn decimal_chars(n: u128) -> (r: Vec<char>)
    ensures
        r@ == decimal(n as nat),
    decreases n,
{
    if n < 10 {
        let mut v = Vec::new();
        v.push(digit(n));
        v
    } else {
        let mut v = decimal_chars(n / 10);
        v.push(digit(n % 10));
        v
    }
}

/// Append the decimal digits of `n` to `out`.
pub fn append_decimal(out: &mut Vec<char>, n: u64)
    ensures
        final(out)@ == old(out)@ + decimal(n as nat),
{
    let d = decimal_chars(n as u128);
    append_chars(out, d.as_slice());
}

/// Append the decimal digits of a wide `n` to `out`.
pub fn append_decimal_wide(out: &mut Vec<char>, n: u128)
    ensures
        final(out)@ == old(out)@ + decimal(n as nat),
{
    let d = decimal_chars(n);
    append_chars(out, d.as_slice());
}

/// Append the decimal rendering of the signed `n` to `out`.
pub fn append_signed_decimal(out: &mut Vec<char>, n: i64)
    ensures
        final(out)@ == old(out)@ + signed_decimal(n as int),
{
    if n < 0 {
        out.push('-');
        let m: u64 = if n == i64::MIN {
            9223372036854775808u64
        } else {
            (-n) as u64
        };
        let ghost mid = out@;
        append_decimal(out, m);
        assert(out@ =~= old(out)@ + signed_decimal(n as int));
    } else {
        append_decimal(out, n as u64);
    }
}


/// The characters of `v` from `a` up to `b`.
pub fn sub_chars(v: &[char], a: usize, b: usize) -> (r: Vec<char>)
    requires
        a <= b <= v@.len(),
    ensures
        r@ == v@.subrange(a as int, b as int),
{
    let mut r: Vec<char> = Vec::new();
    let mut i: usize = a;
    while i < b
        invariant
            a <= i <= b <= v@.len(),
            r@ == v@.subrange(a as int, i as int),
        decreases b - i,
    {
        r.push(v[i]);
        assert(v@.subrange(a as int, i + 1) =~= v@.subrange(a as int, i as int).push(v@[i as int]));
        i = i + 1;
    }
    r
}

/// Total number of characters over a list of texts.
pub open spec fn total_len(ss: Seq<Seq<char>>) -> nat
    decreases ss.len(),
{
    if ss.len() == 0 {
        0
    } else {
        total_len(ss.drop_last()) + ss.last().len()
    }
}

/// Total number of characters over a list of strings, widened so that it
/// cannot overflow.
pub fn total_chars(ss: &Vec<String>) -> (n: u128)
    ensures
        n == total_len(strs_of(ss@)),
        n <= (u64::MAX as nat) * (u64::MAX as nat),
{
    let mut n: u128 = 0;
    let mut i: usize = 0;
    while i < ss.len()
        invariant
            0 <= i <= ss@.len(),
            n == total_len(strs_of(ss@).take(i as int)),
            n <= i * (usize::MAX as nat),
        decreases ss@.len() - i,
    {
        assert(strs_of(ss@).take(i + 1).drop_last() =~= strs_of(ss@).take(i as int));
        let c = char_count(ss[i].as_str());
        assert(n + c <= (i + 1) * (usize::MAX as nat)) by (nonlinear_arith)
            requires
                n <= i * (usize::MAX as nat),
                c <= usize::MAX,
        ;
        assert((i + 1) * (usize::MAX as nat) <= (usize::MAX as nat) * (usize::MAX as nat)) by (nonlinear_arith)
            requires
                i < usize::MAX,
        ;
        assert((usize::MAX as nat) * (usize::MAX as nat) <= (u64::MAX as nat) * (u64::MAX as nat)) by (nonlinear_arith)
            requires
                usize::MAX <= u64::MAX,
        ;
        n = n + c as u128;
        i = i + 1;
    }
    assert(strs_of(ss@).take(ss@.len() as int) =~= strs_of(ss@));
    assert(n <= (u64::MAX as nat) * (u64::MAX as nat)) by (nonlinear_arith)
        requires
            n <= i * (usize::MAX as nat),
            i <= usize::MAX,
            usize::MAX <= u64::MAX,
    ;
    n
}

/// One character of the folding used to compare texts loosely: letters and
/// digits ASCII-lowercased, whitespace a space, everything else dropped.
pub open spec fn fold_loose(s: Seq<char>) -> Seq<char>
    decreases s.len(),
{
    if s.len() == 0 {
        Seq::empty()
    } else {
        let c = s.last();
        let prev = fold_loose(s.drop_last());
        if is_alphanumeric_char(c) {
            prev.push(ascii_lower(c))
        } else if is_whitespace_char(c) {
            prev.push(' ')
        } else {
            prev
        }
    }
}

/// ASCII lowercasing of one character.
pub fn ascii_lower_char(c: char) -> (r: char)
    ensures
        r == ascii_lower(c),
{
    if 'A' <= c && c <= 'Z' {
        let b: u8 = (c as u32 + 32) as u8;
        b as char
    } else {
        c
    }
}

/// Fold `v` as [`fold_loose`] says.
pub fn fold_loose_chars(v: &[char]) -> (r: Vec<char>)
    ensures
        r@ == fold_loose(v@),
{
    let mut r: Vec<char> = Vec::new();
    let mut i: usize = 0;
    while i < v.len()
        invariant
            0 <= i <= v@.len(),
            r@ == fold_loose(v@.take(i as int)),
        decreases v@.len() - i,
    {
        assert(v@.take(i + 1).drop_last() =~= v@.take(i as int));
        let c = v[i];
        if char_is_alphanumeric(c) {
            r.push(ascii_lower_char(c));
        } else if char_is_whitespace(c) {
            r.push(' ');
        }
        i = i + 1;
    }
    assert(v@.take(v@.len() as int) =~= v@);
    r
}

/// The pieces of `s` between newlines, in order (one more than the
/// newlines).
pub open spec fn split_lines(s: Seq<char>) -> Seq<Seq<char>>
    decreases s.len(),
{
    if s.len() == 0 {
        seq![Seq::empty()]
    } else {
        let prev = split_lines(s.drop_last());
        if s.last() == '\n' {
            prev.push(Seq::empty())
        } else {
            prev.update(prev.len() - 1, prev.last().push(s.last()))
        }
    }
}

/// The trimmed pieces that are not empty, in order.
pub open spec fn kept_trimmed(ps: Seq<Seq<char>>) -> Seq<Seq<char>>
    decreases ps.len(),
{
    if ps.len() == 0 {
        Seq::empty()
    } else {
        let prev = kept_trimmed(ps.drop_last());
        if trim_seq(ps.last()).len() > 0 {
            prev.push(trim_seq(ps.last()))
        } else {
            prev
        }
    }
}

/// The lines of `s`, each trimmed, blank ones dropped.
pub open spec fn nonblank_lines(s: Seq<char>) -> Seq<Seq<char>> {
    kept_trimmed(split_lines(s))
}

proof fn lemma_split_lines_nonempty(s: Seq<char>)
    ensures
        split_lines(s).len() >= 1,
    decreases s.len(),
{
    if s.len() > 0 {
        lemma_split_lines_nonempty(s.drop_last());
    }
}

/// Split `v` into its trimmed non-blank lines.
pub fn nonblank_lines_of(v: &[char]) -> (r: Vec<String>)
    ensures
        strs_of(r@) == nonblank_lines(v@),
{
    let mut done: Vec<String> = Vec::new();
    let mut cur: Vec<char> = Vec::new();
    let mut i: usize = 0;
    while i < v.len()
        invariant
            0 <= i <= v@.len(),
            split_lines(v@.take(i as int)).len() >= 1,
            strs_of(done@) == kept_trimmed(split_lines(v@.take(i as int)).drop_last()),
            cur@ == split_lines(v@.take(i as int)).last(),
        decreases v@.len() - i,
    {
        let ghost pre = v@.take(i as int);
        let ghost nxt = v@.take(i + 1);
        assert(nxt.drop_last() =~= pre);
        proof {
            lemma_split_lines_nonempty(pre);
        }
        let c = v[i];
        if c == '\n' {
            let t = trim_chars(cur.as_slice());
            let ghost before = strs_of(done@);
            assert(split_lines(nxt).drop_last() =~= split_lines(pre));
            assert(split_lines(pre) =~= split_lines(pre).drop_last().push(cur@));
            if t.len() > 0 {
                done.push(string_of(t.as_slice()));
                assert(strs_of(done@) =~= before.push(t@));
            }
            cur = Vec::new();
        } else {
            cur.push(c);
            assert(split_lines(nxt).drop_last() =~= split_lines(pre).drop_last());
        }
        i = i + 1;
    }
    assert(v@.take(v@.len() as int) =~= v@);
    let ghost sl = split_lines(v@);
    assert(sl =~= sl.drop_last().push(cur@));
    let t = trim_chars(cur.as_slice());
    if t.len() > 0 {
        let ghost before = strs_of(done@);
        done.push(string_of(t.as_slice()));
        assert(strs_of(done@) =~= before.push(t@));
    }
    done
}


/// The items trimmed, blank ones dropped, at most `limit`, in order.
pub open spec fn trimmed_upto(cs: Seq<Seq<char>>, limit: nat) -> Seq<Seq<char>>
    decreases cs.len(),
{
    if cs.len() == 0 {
        Seq::empty()
    } else {
        let prev = trimmed_upto(cs.drop_last(), limit);
        let t = trim_seq(cs.last());
        if t.len() > 0 && prev.len() < limit {
            prev.push(t)
        } else {
            prev
        }
    }
}

/// Trim each item, drop the blank ones, and keep at most `limit`.
pub fn trimmed_upto_of(items: &Vec<String>, limit: usize) -> (r: Vec<String>)
    ensures
        strs_of(r@) == trimmed_upto(strs_of(items@), limit as nat),
        r@.len() <= limit,
{
    let ghost cs = strs_of(items@);
    let mut r: Vec<String> = Vec::new();
    let mut i: usize = 0;
    while i < items.len()
        invariant
            0 <= i <= items@.len(),
            cs == strs_of(items@),
            strs_of(r@) == trimmed_upto(cs.take(i as int), limit as nat),
            r@.len() <= limit,
        decreases items@.len() - i,
    {
        assert(cs.take(i + 1).drop_last() =~= cs.take(i as int));
        assert(cs.take(i + 1).last() == items@[i as int]@);
        let t = trim_str(items[i].as_str());
        if char_count(t.as_str()) > 0 && r.len() < limit {
            let ghost before = strs_of(r@);
            let ghost tv = t@;
            r.push(t);
            assert(strs_of(r@) =~= before.push(tv));
        }
        i = i + 1;
    }
    assert(cs.take(items@.len() as int) =~= cs);
    r
}

} // verus!
