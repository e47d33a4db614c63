//! The fetch hygiene rules: domain allow and deny lists, the robots.txt
//! gate, the schemes and content types that are fetched, the body cap and
//! the per-domain spacing. The network calls themselves stay with the
//! caller; every decision they wait on is here.
use vstd::prelude::*;
use crate::error::AppError;
use crate::research::spec_domain_matches;
use crate::text::{
    all_ascii, append_decimal, append_str, is_ascii_char, chars_eq, chars_of, debug_quote, debug_str, lowercase, str_eq,
    str_to_lowercase, string_of, strs_of,
};

verus! {

/// Bytes of one response body at most.
pub const FETCH_MAX_BYTES: usize = 2000000;

/// Redirects followed at most.
pub const FETCH_MAX_REDIRECTS: usize = 5;

/// Default spacing between requests to one domain.
pub const DOMAIN_SPACING_MS: u64 = 300;

/// The user agent the fetcher identifies as, to servers and to robots.txt.
pub const USER_AGENT: &'static str = "parallax-research";

/// How the fetcher treats domains and time.
#[derive(Debug, Clone)]
pub struct FetchPolicy {
    /// Per-request time ceiling.
    pub timeout_ms: u64,
    /// Only these domains (and subdomains) are fetched, when non-empty.
    pub domains_allow: Vec<String>,
    /// These domains (and subdomains) are never fetched.
    pub domains_deny: Vec<String>,
    /// Spacing between requests to one domain.
    pub domain_spacing_ms: u64,
}

/// Some domain of `ds` matches the host.
pub open spec fn any_matches(host: Seq<char>, ds: Seq<Seq<char>>) -> bool {
    exists|i: int| 0 <= i < ds.len() && spec_domain_matches(host, #[trigger] ds[i])
}

/// `e` is a search-provider error with message `m`.
pub open spec fn provider_error_is(e: AppError, m: Seq<char>) -> bool {
    e matches AppError::SearchProvider(x) && x@ == m
}

pub(crate) fn any_domain_matches(host: &str, ds: &Vec<String>) -> (r: bool)
    ensures
        r == any_matches(host@, strs_of(ds@)),
{
    let mut i: usize = 0;
    while i < ds.len()
        invariant
            0 <= i <= ds@.len(),
            forall|k: int| 0 <= k < i ==> !spec_domain_matches(host@, #[trigger] strs_of(ds@)[k]),
        decreases ds@.len() - i,
    {
        if crate::research::domain_matches(host, ds[i].as_str()) {
            assert(spec_domain_matches(host@, strs_of(ds@)[i as int]));
            return true;
        }
        i = i + 1;
    }
    false
}

/// Check a host against the policy: a denied domain is refused, and with a
/// non-empty allow list so is any domain outside it. `what` names the host's
/// role ("requested", "redirected-to").
pub fn check_domain(policy: &FetchPolicy, host: &str, what: &str) -> (r: Result<(), AppError>)
    ensures
        ({
            let deny = strs_of(policy.domains_deny@);
            let allow = strs_of(policy.domains_allow@);
            &&& any_matches(host@, deny) ==> (r matches Err(e) && provider_error_is(
                e,
                what@ + " domain "@ + host@ + " is denied"@,
            ))
            &&& !any_matches(host@, deny) && allow.len() > 0 && !any_matches(host@, allow) ==> (r matches Err(
                e,
            ) && provider_error_is(e, what@ + " domain "@ + host@ + " is outside the allow list"@))
            &&& !any_matches(host@, deny) && (allow.len() == 0 || any_matches(host@, allow)) ==> r is Ok
        }),
{
    if any_domain_matches(host, &policy.domains_deny) {
        let mut m = chars_of(what);
        append_str(&mut m, " domain ");
        append_str(&mut m, host);
        append_str(&mut m, " is denied");
        return Err(AppError::SearchProvider(string_of(m.as_slice())));
    }
    if policy.domains_allow.len() > 0 && !any_domain_matches(host, &policy.domains_allow) {
        let mut m = chars_of(what);
        append_str(&mut m, " domain ");
        append_str(&mut m, host);
        append_str(&mut m, " is outside the allow list");
        return Err(AppError::SearchProvider(string_of(m.as_slice())));
    }
    Ok(())
}

/// What a robots.txt body answers for one user agent and one URL (longest
/// match wins), as `robotstxt` decides it.
pub uninterp spec fn robots_allows(body: Seq<char>, agent: Seq<char>, url: Seq<char>) -> bool;

/// The number of bytes `c` takes in UTF-8.
pub open spec fn utf8_len(c: char) -> nat {
    if (c as u32) < 0x80 {
        1
    } else if (c as u32) < 0x800 {
        2
    } else if (c as u32) < 0x10000 {
        3
    } else {
        4
    }
}

/// A line break as the robots.txt parser counts one.
pub open spec fn is_line_break(c: char) -> bool {
    c == '\n' || c == '\r'
}

/// The bytes of the last line of `s` read so far.
pub open spec fn tail_line_bytes(s: Seq<char>) -> nat
    decreases s.len(),
{
    if s.len() == 0 {
        0
    } else if is_line_break(s.last()) {
        0
    } else {
        tail_line_bytes(s.drop_last()) + utf8_len(s.last())
    }
}

/// The longest line the robots.txt parser reads whole: longer lines are cut
/// by a count of characters, which is only a count of bytes in ASCII.
pub const ROBOTS_LINE_MAX_BYTES: usize = 16661;

/// No line of `s` is longer than [`ROBOTS_LINE_MAX_BYTES`] bytes.
pub open spec fn lines_fit(s: Seq<char>) -> bool
    decreases s.len(),
{
    s.len() == 0 || (lines_fit(s.drop_last()) && tail_line_bytes(s) <= ROBOTS_LINE_MAX_BYTES)
}

/// A robots.txt body the parser reads without fault: all ASCII, or no line
/// longer than [`ROBOTS_LINE_MAX_BYTES`] bytes. (A longer line with a
/// multi-byte character in its cut-off part makes the parser slice off a
/// character boundary and panic.)
pub open spec fn robots_readable(body: Seq<char>) -> bool {
    all_ascii(body) || lines_fit(body)
}

/// `robotstxt::DefaultMatcher::one_agent_allowed_by_robots`. Trusted: the
/// answer for this body, agent and URL, named [`robots_allows`]. The call
/// is only made on a body the parser reads without fault.
#[verifier::external_body]
fn robots_allow(body: &str, agent: &str, url: &str) -> (r: bool)
    requires
        robots_readable(body@),
    ensures
        r == robots_allows(body@, agent@, url@),
{
    robotstxt::DefaultMatcher::default().one_agent_allowed_by_robots(body, agent, url)
}

/// Whether the robots.txt parser reads `body` without fault.
pub fn robots_body_readable(body: &str) -> (r: bool)
    ensures
        r == robots_readable(body@),
{
    let v = chars_of(body);
    let mut ascii = true;
    let mut fits = true;
    let mut cur: usize = 0;
    let mut i: usize = 0;
    while i < v.len()
        invariant
            0 <= i <= v@.len(),
            ascii == all_ascii(v@.take(i as int)),
            fits == lines_fit(v@.take(i as int)),
            fits ==> cur == tail_line_bytes(v@.take(i as int)) && cur <= ROBOTS_LINE_MAX_BYTES,
        decreases v@.len() - i,
    {
        let c = v[i];
        let n = c as u32;
        let ghost t = v@.take(i + 1);
        assert(t.drop_last() =~= v@.take(i as int));
        assert(t.last() == c);
        assert(all_ascii(t) == (all_ascii(v@.take(i as int)) && is_ascii_char(c))) by {
            if all_ascii(t) {
                assert forall|k: int| 0 <= k < i implies is_ascii_char(#[trigger] v@.take(i as int)[k]) by {
                    assert(t[k] == v@.take(i as int)[k]);
                }
                assert(is_ascii_char(t[i as int]));
            }
        }
        if n >= 0x80 {
            ascii = false;
        }
        if fits {
            if c == '\n' || c == '\r' {
                cur = 0;
            } else {
                let w: usize = if n < 0x80 {
                    1
                } else if n < 0x800 {
                    2
                } else if n < 0x10000 {
                    3
                } else {
                    4
                };
                if cur + w > ROBOTS_LINE_MAX_BYTES {
                    fits = false;
                } else {
                    cur = cur + w;
                }
            }
        }
        i = i + 1;
    }
    assert(v@.take(v@.len() as int) =~= v@);
    ascii || fits
}

/// The robots gate: without a robots.txt body everything is allowed; a body
/// the parser cannot read without fault is refused; otherwise the URL must
/// be allowed for this fetcher's user agent.
pub fn robots_gate(body: Option<&str>, url: &str) -> (r: Result<(), AppError>)
    ensures
        match body {
            None => r is Ok,
            Some(b) => if !robots_readable(b@) {
                r matches Err(e) && provider_error_is(e, "robots.txt for "@ + url@ + " has a line too long to read"@)
            } else if robots_allows(b@, USER_AGENT@, url@) {
                r is Ok
            } else {
                r matches Err(e) && provider_error_is(e, "robots.txt disallows "@ + url@)
            },
        },
{
    match body {
        None => Ok(()),
        Some(b) => {
            if !robots_body_readable(b) {
                let mut m = chars_of("robots.txt for ");
                append_str(&mut m, url);
                append_str(&mut m, " has a line too long to read");
                return Err(AppError::SearchProvider(string_of(m.as_slice())));
            }
            if robots_allow(b, USER_AGENT, url) {
                Ok(())
            } else {
                let mut m = chars_of("robots.txt disallows ");
                append_str(&mut m, url);
                Err(AppError::SearchProvider(string_of(m.as_slice())))
            }
        },
    }
}

/// Only http and https URLs are fetched.
pub fn check_scheme(scheme: &str) -> (r: Result<(), AppError>)
    ensures
        (scheme@ == "http"@ || scheme@ == "https"@) ==> r is Ok,
        !(scheme@ == "http"@ || scheme@ == "https"@) ==> (r matches Err(e) && provider_error_is(
            e,
            "unsupported scheme "@ + debug_str(scheme@),
        )),
{
    if str_eq(scheme, "http") || str_eq(scheme, "https") {
        return Ok(());
    }
    let mut m = chars_of("unsupported scheme ");
    let q = debug_quote(scheme);
    append_str(&mut m, q.as_str());
    Err(AppError::SearchProvider(string_of(m.as_slice())))
}

/// `p` is a prefix of `s`.
pub open spec fn starts(s: Seq<char>, p: Seq<char>) -> bool {
    p.len() <= s.len() && s.subrange(0, p.len() as int) == p
}

/// A content type (lowercased) the extractor can read.
pub open spec fn extractable(ct: Seq<char>) -> bool {
    starts(ct, "text/html"@) || starts(ct, "text/plain"@) || starts(ct, "application/xhtml+xml"@)
}

fn starts_with(v: &[char], p: &str) -> (r: bool)
    ensures
        r == starts(v@, p@),
{
    let pv = chars_of(p);
    if pv.len() > v.len() {
        return false;
    }
    let head = crate::text::sub_chars(v, 0, pv.len());
    chars_eq(head.as_slice(), pv.as_slice())
}

/// Only HTML, plain text and XHTML responses are read; the header value is
/// compared lowercased (a missing header is the empty string).
pub fn check_content_type(content_type: &str) -> (r: Result<(), AppError>)
    ensures
        extractable(lowercase(content_type@)) ==> r is Ok,
        !extractable(lowercase(content_type@)) ==> (r matches Err(e) && provider_error_is(
            e,
            "content-type "@ + debug_str(lowercase(content_type@)) + " is not extractable"@,
        )),
{
    let low = str_to_lowercase(content_type);
    let v = chars_of(low.as_str());
    if starts_with(v.as_slice(), "text/html") || starts_with(v.as_slice(), "text/plain")
        || starts_with(v.as_slice(), "application/xhtml+xml") {
        return Ok(());
    }
    let mut m = chars_of("content-type ");
    let q = debug_quote(low.as_str());
    append_str(&mut m, q.as_str());
    append_str(&mut m, " is not extractable");
    Err(AppError::SearchProvider(string_of(m.as_slice())))
}

/// A body that would grow past the cap is refused, never truncated.
pub fn check_body_growth(current: usize, chunk: usize) -> (r: Result<(), AppError>)
    ensures
        current + chunk <= FETCH_MAX_BYTES ==> r is Ok,
        current + chunk > FETCH_MAX_BYTES ==> (r matches Err(e) && provider_error_is(
            e,
            "body exceeds the 2000000-byte cap"@,
        )),
{
    if current as u128 + chunk as u128 > FETCH_MAX_BYTES as u128 {
        return Err(AppError::SearchProvider("body exceeds the 2000000-byte cap".to_string()));
    }
    Ok(())
}

/// How long to wait before the next request to a domain: the rest of the
/// spacing since the last one, nothing once it has passed or when there
/// was none.
pub fn spacing_wait(since_last_ms: Option<u64>, spacing_ms: u64) -> (r: u64)
    ensures
        r == match since_last_ms {
            Some(e) => if e < spacing_ms {
                (spacing_ms - e) as u64
            } else {
                0
            },
            None => 0,
        },
{
    match since_last_ms {
        Some(e) => {
            if e < spacing_ms {
                spacing_ms - e
            } else {
                0
            }
        },
        None => 0,
    }
}

/// The message for an HTTP failure status.
pub fn status_error(status: u16, reason: &str, url: &str) -> (e: AppError)
    ensures
        provider_error_is(
            e,
            "HTTP "@ + crate::text::decimal(status as nat) + " "@ + reason@ + " for "@ + url@,
        ),
{
    let mut m = chars_of("HTTP ");
    append_decimal(&mut m, status as u64);
    append_str(&mut m, " ");
    append_str(&mut m, reason);
    append_str(&mut m, " for ");
    append_str(&mut m, url);
    AppError::SearchProvider(string_of(m.as_slice()))
}

/// What `url::Url::parse` makes of a URL: the parse error's text, or the
/// URL's scheme, its host when it has one, and the ASCII serialization of
/// its origin.
pub uninterp spec fn url_parsed(url: Seq<char>) -> Result<(Seq<char>, Option<Seq<char>>, Seq<char>), Seq<char>>;

/// The parts of a parsed URL the fetcher reads.
#[derive(Debug, Clone)]
pub struct UrlParts {
    /// The scheme, lowercased by the parser.
    pub scheme: String,
    /// The host, when the URL has one.
    pub host: Option<String>,
    /// The origin the robots.txt is fetched from.
    pub origin: String,
}

/// Parsed URL parts as plain values.
pub open spec fn parts_view(r: Result<UrlParts, String>) -> Result<(Seq<char>, Option<Seq<char>>, Seq<char>), Seq<char>> {
    match r {
        Ok(p) => Ok((
            p.scheme@,
            match p.host {
                Some(h) => Some(h@),
                None => None,
            },
            p.origin@,
        )),
        Err(e) => Err(e@),
    }
}

/// `url::Url::parse` with the scheme, host and origin read off the result.
/// Trusted: the outcome for this URL, named [`url_parsed`].
#[verifier::external_body]
fn parse_url(url: &str) -> (r: Result<UrlParts, String>)
    ensures
        parts_view(r) == url_parsed(url@),
{
    match url::Url::parse(url) {
        Ok(u) => Ok(UrlParts {
            scheme: u.scheme().to_string(),
            host: u.host_str().map(String::from),
            origin: u.origin().ascii_serialization(),
        }),
        Err(e) => Err(e.to_string()),
    }
}

/// The host of a URL, when it parses and has one.
pub open spec fn host_of(url: Seq<char>) -> Option<Seq<char>> {
    match url_parsed(url) {
        Ok(p) => p.1,
        Err(_) => None,
    }
}

/// The host of a URL, when it parses and has one.
pub fn url_host(url: &str) -> (r: Option<String>)
    ensures
        match r {
            Some(h) => host_of(url@) == Some(h@),
            None => host_of(url@) is None,
        },
{
    match parse_url(url) {
        Ok(p) => p.host,
        Err(_) => None,
    }
}

/// A request the policy lets through: the host it goes to and the origin
/// its robots.txt comes from.
#[derive(Debug, Clone)]
pub struct Admitted {
    /// The requested host.
    pub host: String,
    /// The requested origin.
    pub origin: String,
}

/// Admit a request for `url`: it parses, its scheme is http or https, it has
/// a host, and the domain policy allows the host.
pub fn admit_request(policy: &FetchPolicy, url: &str) -> (r: Result<Admitted, AppError>)
    ensures
        ({
            let deny = strs_of(policy.domains_deny@);
            let allow = strs_of(policy.domains_allow@);
            match url_parsed(url@) {
                Err(e) => r matches Err(x) && provider_error_is(
                    x,
                    "unfetchable url "@ + debug_str(url@) + ": "@ + e,
                ),
                Ok((scheme, host, origin)) => if !(scheme == "http"@ || scheme == "https"@) {
                    r matches Err(x) && provider_error_is(x, "unsupported scheme "@ + debug_str(scheme))
                } else {
                    match host {
                        None => r matches Err(x) && provider_error_is(
                            x,
                            "url "@ + debug_str(url@) + " has no host"@,
                        ),
                        Some(h) => if any_matches(h, deny) {
                            r matches Err(x) && provider_error_is(
                                x,
                                "requested"@ + " domain "@ + h + " is denied"@,
                            )
                        } else if allow.len() > 0 && !any_matches(h, allow) {
                            r matches Err(x) && provider_error_is(
                                x,
                                "requested"@ + " domain "@ + h + " is outside the allow list"@,
                            )
                        } else {
                            r matches Ok(a) && a.host@ == h && a.origin@ == origin
                        },
                    }
                },
            }
        }),
{
    let parts = match parse_url(url) {
        Ok(p) => p,
        Err(e) => {
            let mut m = chars_of("unfetchable url ");
            let q = debug_quote(url);
            append_str(&mut m, q.as_str());
            append_str(&mut m, ": ");
            append_str(&mut m, e.as_str());
            return Err(AppError::SearchProvider(string_of(m.as_slice())));
        },
    };
    match check_scheme(parts.scheme.as_str()) {
        Err(e) => return Err(e),
        Ok(()) => {},
    }
    let host = match parts.host {
        Some(h) => h,
        None => {
            let mut m = chars_of("url ");
            let q = debug_quote(url);
            append_str(&mut m, q.as_str());
            append_str(&mut m, " has no host");
            return Err(AppError::SearchProvider(string_of(m.as_slice())));
        },
    };
    match check_domain(policy, host.as_str(), "requested") {
        Err(e) => {
            return Err(e);
        },
        Ok(()) => {},
    }
    Ok(Admitted { host, origin: parts.origin })
}

/// The final URL after redirects must still have a host the domain policy
/// allows: a redirect cannot escape into a denied domain.
pub fn check_redirect(policy: &FetchPolicy, final_host: Option<&str>) -> (r: Result<(), AppError>)
    ensures
        ({
            let deny = strs_of(policy.domains_deny@);
            let allow = strs_of(policy.domains_allow@);
            match final_host {
                None => r matches Err(x) && provider_error_is(x, "redirected to a hostless url"@),
                Some(h) => if any_matches(h@, deny) {
                    r matches Err(x) && provider_error_is(
                        x,
                        "redirected-to"@ + " domain "@ + h@ + " is denied"@,
                    )
                } else if allow.len() > 0 && !any_matches(h@, allow) {
                    r matches Err(x) && provider_error_is(
                        x,
                        "redirected-to"@ + " domain "@ + h@ + " is outside the allow list"@,
                    )
                } else {
                    r is Ok
                },
            }
        }),
{
    match final_host {
        None => Err(AppError::SearchProvider("redirected to a hostless url".to_string())),
        Some(h) => check_domain(policy, h, "redirected-to"),
    }
}

/// A status in the success class, 200 to 299.
pub open spec fn is_success(status: u16) -> bool {
    200 <= status && status < 300
}

/// Why a response status stops the fetch, if it does.
pub open spec fn status_failure(status: u16, reason: Seq<char>, url: Seq<char>) -> Option<Seq<char>> {
    if is_success(status) {
        None
    } else {
        Some("HTTP "@ + crate::text::decimal(status as nat) + " "@ + reason + " for "@ + url)
    }
}

/// Why the final host after redirects stops the fetch, if it does.
pub open spec fn redirect_failure(policy: FetchPolicy, final_host: Option<Seq<char>>) -> Option<Seq<char>> {
    let deny = strs_of(policy.domains_deny@);
    let allow = strs_of(policy.domains_allow@);
    match final_host {
        None => Some("redirected to a hostless url"@),
        Some(h) => if any_matches(h, deny) {
            Some("redirected-to"@ + " domain "@ + h + " is denied"@)
        } else if allow.len() > 0 && !any_matches(h, allow) {
            Some("redirected-to"@ + " domain "@ + h + " is outside the allow list"@)
        } else {
            None
        },
    }
}

/// Why the content type stops the fetch, if it does.
pub open spec fn content_failure(content_type: Seq<char>) -> Option<Seq<char>> {
    if extractable(lowercase(content_type)) {
        None
    } else {
        Some("content-type "@ + debug_str(lowercase(content_type)) + " is not extractable"@)
    }
}

/// Why a response stops the fetch, if it does: the status first, then the
/// final host, then the content type.
pub open spec fn response_failure(
    policy: FetchPolicy,
    status: u16,
    reason: Seq<char>,
    url: Seq<char>,
    final_host: Option<Seq<char>>,
    content_type: Seq<char>,
) -> Option<Seq<char>> {
    if status_failure(status, reason, url) is Some {
        status_failure(status, reason, url)
    } else if redirect_failure(policy, final_host) is Some {
        redirect_failure(policy, final_host)
    } else {
        content_failure(content_type)
    }
}

/// Only a success status lets the fetch go on; any other fails it, naming
/// the status.
pub fn check_status(status: u16, reason: &str, url: &str) -> (r: Result<(), AppError>)
    ensures
        match status_failure(status, reason@, url@) {
            None => r is Ok,
            Some(m) => r matches Err(e) && provider_error_is(e, m),
        },
{
    if 200 <= status && status < 300 {
        Ok(())
    } else {
        Err(status_error(status, reason, url))
    }
}

/// The checks on a response before its body is read, in order: a success
/// status, a final URL (after redirects) whose host the policy allows, so
/// that no redirect escapes into a denied domain, and an extractable content
/// type.
pub fn admit_response(
    policy: &FetchPolicy,
    status: u16,
    reason: &str,
    url: &str,
    final_host: Option<&str>,
    content_type: &str,
) -> (r: Result<(), AppError>)
    ensures
        match response_failure(
            *policy,
            status,
            reason@,
            url@,
            match final_host {
                Some(h) => Some(h@),
                None => None,
            },
            content_type@,
        ) {
            None => r is Ok,
            Some(m) => r matches Err(e) && provider_error_is(e, m),
        },
{
    match check_status(status, reason, url) {
        Err(e) => {
            return Err(e);
        },
        Ok(()) => {},
    }
    match check_redirect(policy, final_host) {
        Err(e) => {
            return Err(e);
        },
        Ok(()) => {},
    }
    check_content_type(content_type)
}

} // verus!
