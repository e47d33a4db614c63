//! Reducing a fetched page to its readable text, and cleaning the claims a
//! model extracts from it.
use vstd::prelude::*;
use crate::research::MAX_CLAIMS_PER_SOURCE;
use crate::text::{
    char_count, chars_of, is_blank_seq, replace_all, str_is_blank, string_of, strs_of, sub_chars,
    trimmed_upto, trimmed_upto_of,
};

verus! {

/// Characters of readable text kept per page at most.
pub const EXTRACT_TEXT_MAX_CHARS: usize = 16000;

/// The claim-extraction profile: slots for the page title and text only.
pub const EXTRACT_PROMPT_TEMPLATE: &'static str = "You extract falsifiable claims from one web page. A falsifiable claim is a single, self-contained factual statement that could in principle be proven wrong \u{2014} not an opinion, recommendation, or vague generality. Rewrite each claim to stand alone without the page context. Extract only claims the page actually asserts. If the page asserts nothing falsifiable, return an empty list.\n\nPage title: <<title>>\n\nPage text:\n<<text>>";

/// What the main-content extractor returns for a page, as plain values: the
/// main text and the title it found, or nothing when extraction fails.
pub uninterp spec fn main_content(html: Seq<char>) -> Option<(Seq<char>, Option<Seq<char>>)>;

/// The plain view of an extraction.
pub open spec fn extraction_view(e: Option<(String, Option<String>)>) -> Option<(Seq<char>, Option<Seq<char>>)> {
    match e {
        Some(x) => Some(
            (
                x.0@,
                match x.1 {
                    Some(t) => Some(t@),
                    None => None,
                },
            ),
        ),
        None => None,
    }
}

/// A character the extractor is only ever handed: printable ASCII other
/// than `&`, or tab, line feed, form feed and carriage return.
pub open spec fn extraction_safe_char(c: char) -> bool {
    ((' ' <= c && c <= '~') && c != '&') || c == '\t' || c == '\n' || c == '\x0C' || c == '\r'
}

/// HTML the extractor reads without fault: every character is one of
/// [`extraction_safe_char`]. All the text it parses out of such a page is
/// ASCII (no character reference can be written without `&`), so the
/// extractor's byte-offset slicing of that text stays on character
/// boundaries; on other pages a slice can split a character and panic.
pub open spec fn extraction_safe(html: Seq<char>) -> bool {
    forall|i: int| 0 <= i < html.len() ==> extraction_safe_char(#[trigger] html[i])
}

/// Whether the extractor reads `html` without fault.
pub fn html_extraction_safe(html: &str) -> (r: bool)
    ensures
        r == extraction_safe(html@),
{
    let v = chars_of(html);
    let mut i: usize = 0;
    while i < v.len()
        invariant
            0 <= i <= v@.len(),
            v@ == html@,
            forall|k: int| 0 <= k < i ==> extraction_safe_char(#[trigger] v@[k]),
        decreases v@.len() - i,
    {
        let c = v[i];
        let ok = ((' ' <= c && c <= '~') && c != '&') || c == '\t' || c == '\n' || c == '\x0C' || c == '\r';
        if !ok {
            return false;
        }
        i = i + 1;
    }
    true
}

/// `rs_trafilatura::extract`. Trusted: its main text and metadata title for
/// the page, named [`main_content`] as a function of the HTML alone, or
/// nothing when it reports an error. Only called on HTML it reads without
/// fault (see [`extraction_safe`]).
#[verifier::external_body]
fn extract_main_content(html: &str) -> (r: Option<(String, Option<String>)>)
    requires
        extraction_safe(html@),
    ensures
        extraction_view(r) == main_content(html@),
{
    match rs_trafilatura::extract(html) {
        Ok(e) => Some((e.content_text, e.metadata.title)),
        Err(_) => None,
    }
}

/// A page reduced to its readable text.
#[derive(Debug, Clone, PartialEq, Eq)]
pub struct ReadablePage {
    /// The page title, or its URL when it has none.
    pub title: String,
    /// The main text, at most `EXTRACT_TEXT_MAX_CHARS` characters.
    pub text: String,
}

/// The readable page an extraction gives: none without a non-blank text;
/// the title when it is present and not blank, else the URL; the text's
/// first `EXTRACT_TEXT_MAX_CHARS` characters.
pub open spec fn readable_of(e: Option<(Seq<char>, Option<Seq<char>>)>, url: Seq<char>) -> Option<(Seq<char>, Seq<char>)> {
    match e {
        None => None,
        Some(x) => if is_blank_seq(x.0) {
            None
        } else {
            let title = match x.1 {
                Some(t) => if is_blank_seq(t) {
                    url
                } else {
                    t
                },
                None => url,
            };
            let text = if x.0.len() > EXTRACT_TEXT_MAX_CHARS {
                x.0.take(EXTRACT_TEXT_MAX_CHARS as int)
            } else {
                x.0
            };
            Some((title, text))
        },
    }
}

/// The plain view of a readable page.
pub open spec fn page_view(p: Option<ReadablePage>) -> Option<(Seq<char>, Seq<char>)> {
    match p {
        Some(p) => Some((p.title@, p.text@)),
        None => None,
    }
}

/// Reduce an extraction to the readable page.
pub fn readable_from(extracted: Option<(String, Option<String>)>, url: &str) -> (r: Option<ReadablePage>)
    ensures
        page_view(r) == readable_of(extraction_view(extracted), url@),
{
    match extracted {
        None => None,
        Some((text, title)) => {
            if str_is_blank(text.as_str()) {
                return None;
            }
            let title = match title {
                Some(t) => {
                    if str_is_blank(t.as_str()) {
                        url.to_string()
                    } else {
                        t
                    }
                },
                None => url.to_string(),
            };
            let text = if char_count(text.as_str()) > EXTRACT_TEXT_MAX_CHARS {
                let v = chars_of(text.as_str());
                string_of(sub_chars(v.as_slice(), 0, EXTRACT_TEXT_MAX_CHARS).as_slice())
            } else {
                text
            };
            Some(ReadablePage { title, text })
        },
    }
}

/// The readable text of a fetched page: its main content by the extractor,
/// reduced by [`readable_from`]. A page the extractor could fault on is
/// dropped, as an unextractable page is.
pub fn readable_text(url: &str, html: &str) -> (r: Option<ReadablePage>)
    ensures
        extraction_safe(html@) ==> page_view(r) == readable_of(main_content(html@), url@),
        !extraction_safe(html@) ==> r is None,
{
    if !html_extraction_safe(html) {
        return None;
    }
    let extracted = extract_main_content(html);
    readable_from(extracted, url)
}

/// What the extraction pass is constrained to produce.
#[derive(Debug, Clone)]
pub struct ExtractOut {
    /// The claims, one self-contained sentence each.
    pub claims: Vec<String>,
}

/// Build the extraction prompt: the title and the text are the only dynamic
/// content.
pub fn build_prompt(template: &str, page: &ReadablePage) -> (r: String)
    ensures
        r@ == replace_all(replace_all(template@, "<<title>>"@, page.title@), "<<text>>"@, page.text@),
{
    proof {
        reveal_strlit("<<title>>");
        reveal_strlit("<<text>>");
    }
    let t = chars_of(template);
    let t = crate::modes::fill(t.as_slice(), "<<title>>", page.title.as_str());
    let t = crate::modes::fill(t.as_slice(), "<<text>>", page.text.as_str());
    string_of(t.as_slice())
}

/// Clean extracted claims: trimmed, blank ones dropped, at most
/// `MAX_CLAIMS_PER_SOURCE`, in order.
pub fn clean_claims(claims: &Vec<String>) -> (r: Vec<String>)
    ensures
        strs_of(r@) == trimmed_upto(strs_of(claims@), MAX_CLAIMS_PER_SOURCE as nat),
{
    trimmed_upto_of(claims, MAX_CLAIMS_PER_SOURCE)
}

} // verus!
