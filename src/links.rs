use vstd::prelude::*;
use crate::analytics::{record_ops_spec, ClickOp};
use crate::clicks::{is_safe_char, random_token, track_click, CLICK_MEMBER_LEN};

verus! {

#[verifier::external_type_specification]
#[verifier::external_body]
pub struct ExUrl(url::Url);

#[verifier::external_type_specification]
#[verifier::external_body]
pub struct ExParseError(url::ParseError);

/// The length of a short code.
pub const SHORT_CODE_LEN: usize = 6;

/// How long a mapping, and the analytics of its code, are kept: thirty days.
pub const MAPPING_TTL_SECS: u64 = 60 * 60 * 24 * 30;

/// Whether `url::Url::parse` accepts the text.
pub uninterp spec fn url_parses(text: Seq<char>) -> bool;

/// Whether the URL that `url::Url::parse` makes of the text has a host.
pub uninterp spec fn url_has_host(text: Seq<char>) -> bool;

/// A parsed URL together with the text it was parsed from.
pub struct ParsedUrl {
    url: url::Url,
    source: Ghost<Seq<char>>,
}

/// Relies on url's `Url::parse`: whether it succeeds depends on the text alone.
#[verifier::external_body]
fn parse_url(text: &str) -> (r: Result<ParsedUrl, url::ParseError>)
    ensures
        r is Ok <==> url_parses(text@),
        r is Ok ==> r->Ok_0.source@ == text@,
{
    match url::Url::parse(text) {
        Ok(url) => Ok(ParsedUrl { url, source: Ghost(text@) }),
        Err(e) => Err(e),
    }
}

/// Relies on url's `Url::has_host`: whether the URL has a host depends on the
/// text it was parsed from alone.
#[verifier::external_body]
fn has_host(p: &ParsedUrl) -> (r: bool)
    ensures
        r == url_has_host(p.source@),
{
    p.url.has_host()
}

/// Why a URL given for shortening is refused.
pub enum UrlRejection {
    /// The text does not parse as a URL.
    Malformed(url::ParseError),
    /// The URL parses but names no host.
    NoHost,
}

/// Accepts a URL for shortening where it parses and has a host.
pub fn validate_url(text: &str) -> (r: Result<(), UrlRejection>)
    ensures
        r is Ok <==> url_parses(text@) && url_has_host(text@),
        r matches Err(UrlRejection::Malformed(_)) <==> !url_parses(text@),
        r matches Err(UrlRejection::NoHost) <==> url_parses(text@) && !url_has_host(text@),
{
    match parse_url(text) {
        Err(e) => Err(UrlRejection::Malformed(e)),
        Ok(parsed) => {
            if has_host(&parsed) {
                Ok(())
            } else {
                Err(UrlRejection::NoHost)
            }
        },
    }
}

/// A fresh random short code of `SHORT_CODE_LEN` URL-safe characters.
pub fn new_short_code() -> (r: String)
    ensures
        r@.len() == SHORT_CODE_LEN,
        forall|i: int| 0 <= i < r@.len() ==> is_safe_char(#[trigger] r@[i]),
{
    random_token(SHORT_CODE_LEN)
}

/// The public short URL of `code` under `base`: `base/code`.
pub fn short_url(base: &str, code: &str) -> (r: String)
    ensures
        r@ == base@ + seq!['/'] + code@,
{
    let mut r = String::from_str(base);
    proof {
        reveal_strlit("/");
    }
    r.append("/");
    r.append(code);
    r
}

/// What looking up a short code's mapping gave.
pub enum Lookup {
    /// The code maps to this target URL.
    Found(String),
    /// No mapping exists for the code.
    Missing,
    /// The store could not be read.
    Failed,
}

/// How a redirect request is answered.
pub enum RedirectOutcome {
    /// Send the client on to `location`; `clicks` records the click.
    Redirect { location: String, clicks: Vec<ClickOp> },
    /// No mapping: answer 404 and record nothing.
    NotFound,
    /// The store failed: answer with a server error and record nothing.
    Unavailable,
}

/// Answers a redirect request from the mapping lookup. A click is recorded
/// only where the mapping exists.
pub fn redirect_outcome(lookup: Lookup) -> (r: RedirectOutcome)
    ensures
        lookup is Missing <==> r is NotFound,
        lookup is Failed <==> r is Unavailable,
        lookup is Found <==> r is Redirect,
        lookup is Found ==> r->location@ == lookup->Found_0@ && exists|now: i64, member: String|
            member@.len() == CLICK_MEMBER_LEN && (forall|i: int|
                0 <= i < member@.len() ==> is_safe_char(#[trigger] member@[i])) && r->clicks@
                == record_ops_spec(now, member),
{
    match lookup {
        Lookup::Found(location) => RedirectOutcome::Redirect { location, clicks: track_click() },
        Lookup::Missing => RedirectOutcome::NotFound,
        Lookup::Failed => RedirectOutcome::Unavailable,
    }
}

} // verus!
