//! The embedded browser: the window label of a session and the URLs it may
//! open.
use vstd::prelude::*;
use crate::errors::AppError;
use crate::text::{chars_of, owned, push_str, str_eq, string_of};

verus! {

broadcast use vstd::string::group_string_axioms;

pub open spec fn is_ascii_alnum(c: char) -> bool {
    ('a' <= c <= 'z') || ('A' <= c <= 'Z') || ('0' <= c <= '9')
}

/// A session id with every character that is not an ASCII letter or digit
/// replaced by `-`.
pub open spec fn safe_label_chars(s: Seq<char>) -> Seq<char> {
    s.map_values(|c: char| if is_ascii_alnum(c) { c } else { '-' })
}

/// The window label of a session's embedded browser.
pub fn embedded_label(session_id: &str) -> (r: String)
    ensures
        r@ == "embedded-browser-"@ + safe_label_chars(session_id@),
{
    let v = chars_of(session_id);
    let mut safe: Vec<char> = Vec::new();
    let mut i: usize = 0;
    while i < v.len()
        invariant
            i <= v@.len(),
            safe@ == safe_label_chars(v@.take(i as int)),
        decreases v@.len() - i,
    {
        let c = v[i];
        let ok = ('a' <= c && c <= 'z') || ('A' <= c && c <= 'Z') || ('0' <= c && c <= '9');
        safe.push(if ok { c } else { '-' });
        i = i + 1;
        assert(safe@ =~= safe_label_chars(v@.take(i as int)));
    }
    assert(v@.take(v@.len() as int) =~= v@);
    let mut r = owned("embedded-browser-");
    let s = string_of(safe.as_slice());
    push_str(&mut r, s.as_str());
    r
}

/// A parsed URL by what the browser reads of it.
#[derive(Debug)]
pub struct ParsedUrl {
    /// The normalised URL.
    pub href: String,
    pub scheme: String,
}

/// What `url::Url::parse` gives for a text: the normalised URL and its
/// scheme, or the text of the parse error (a function of the input alone).
pub uninterp spec fn url_parse_result(s: Seq<char>) -> Result<(Seq<char>, Seq<char>), Seq<char>>;

pub open spec fn parsed_view(r: Result<ParsedUrl, String>) -> Result<(Seq<char>, Seq<char>), Seq<char>> {
    match r {
        Ok(p) => Ok((p.href@, p.scheme@)),
        Err(e) => Err(e@),
    }
}

/// `url::Url::parse`, the URL given by its text and scheme and the error by
/// its text. The result is only named.
#[verifier::external_body]
fn parse_url(s: &str) -> (r: Result<ParsedUrl, String>)
    ensures
        parsed_view(r) == url_parse_result(s@),
{
    match url::Url::parse(s) {
        Ok(u) => Ok(ParsedUrl { href: u.as_str().to_string(), scheme: u.scheme().to_string() }),
        Err(e) => Err(e.to_string()),
    }
}

/// What the browser accepts of a parse result: an `http` or `https` URL.
pub open spec fn browser_url_spec(parsed: Result<(Seq<char>, Seq<char>), Seq<char>>) -> Result<
    (Seq<char>, Seq<char>),
    Seq<char>,
> {
    match parsed {
        Err(e) => Err("Invalid browser URL: "@ + e),
        Ok(p) => if p.1 == "http"@ || p.1 == "https"@ {
            Ok(p)
        } else {
            Err("Embedded browser only supports HTTP(S) URLs, got "@ + p.1)
        },
    }
}

pub open spec fn accepted_view(r: Result<ParsedUrl, AppError>) -> Result<(Seq<char>, Seq<char>), Seq<char>> {
    match r {
        Ok(p) => Ok((p.href@, p.scheme@)),
        Err(e) => Err(e.message()),
    }
}

/// Accepts a parsed URL for the embedded browser.
pub fn check_browser_url(parsed: Result<ParsedUrl, String>) -> (r: Result<ParsedUrl, AppError>)
    ensures
        accepted_view(r) == browser_url_spec(parsed_view(parsed)),
{
    match parsed {
        Err(e) => {
            let mut m = owned("Invalid browser URL: ");
            push_str(&mut m, e.as_str());
            Err(AppError::Other(m))
        },
        Ok(p) => {
            if str_eq(p.scheme.as_str(), "http") || str_eq(p.scheme.as_str(), "https") {
                Ok(p)
            } else {
                let mut m = owned("Embedded browser only supports HTTP(S) URLs, got ");
                push_str(&mut m, p.scheme.as_str());
                Err(AppError::Other(m))
            }
        },
    }
}

/// Parses a URL the embedded browser may open.
pub fn parse_https_url(url: &str) -> (r: Result<ParsedUrl, AppError>)
    ensures
        accepted_view(r) == browser_url_spec(url_parse_result(url@)),
{
    check_browser_url(parse_url(url))
}

} // verus!
