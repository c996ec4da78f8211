//! Resolving HTTP redirect targets while fetching a feed: a bounded number
//! of redirects is followed, and a Location header may be absolute,
//! scheme-relative, or relative to the current URL.

use vstd::prelude::*;
use vstd::string::StringExecFns;
use crate::errors::FetchError;
use crate::text::str_starts_with;

verus! {

/// Most redirects followed for one fetch.
pub const MAX_REDIRECTS: u32 = 10;

/// Whether the string parses as an absolute URL; `url::Url::parse`
/// succeeds or fails on the string alone.
pub uninterp spec fn url_parses(s: Seq<char>) -> bool;

/// The URL a parseable string denotes, in serialized, normalized form:
/// what `url::Url::parse` followed by `Url::as_str` gives back — a
/// function of the string alone.
pub uninterp spec fn url_norm_of(s: Seq<char>) -> Seq<char>;

/// The reference `rel` resolved against the base URL named by `base` and
/// rendered back as a string; `None` when `base` does not parse or the
/// resolution fails. A function of the two strings alone.
pub uninterp spec fn url_join_of(base: Seq<char>, rel: Seq<char>) -> Option<Seq<char>>;

/// Relies on `url::Url::parse` and `Url::as_str`: the URL in serialized,
/// normalized form when the string parses as an absolute URL.
#[verifier::external_body]
fn url_normalize(s: &str) -> (r: Option<String>)
    ensures
        r is Some == url_parses(s@),
        r matches Some(u) ==> u@ == url_norm_of(s@),
{
    url::Url::parse(s).ok().map(|u| u.as_str().to_string())
}

/// Relies on `url::Url::parse`, `Url::join` and `Url::as_str`: `rel`
/// resolved against the parsed `base` and rendered back as a string. A
/// base that does not parse resolves nothing.
#[verifier::external_body]
fn url_join_str(base: &str, rel: &str) -> (r: Option<String>)
    ensures
        r.deep_view() == url_join_of(base@, rel@),
        !url_parses(base@) ==> r is None,
{
    match url::Url::parse(base) {
        Ok(b) => b.join(rel).ok().map(|u| u.as_str().to_string()),
        Err(_) => None,
    }
}

/// The location begins with two slashes: a scheme-relative reference.
pub open spec fn scheme_relative(loc: Seq<char>) -> bool {
    "//"@.len() <= loc.len() && loc.subrange(0, "//"@.len() as int) == "//"@
}

/// The redirect location made absolute in scheme: a scheme-relative
/// location gets `https:` prefixed; anything else is kept as is.
pub open spec fn fixed_location(loc: Seq<char>) -> Seq<char> {
    if scheme_relative(loc) {
        "https:"@ + loc
    } else {
        loc
    }
}

fn fix_location(loc: &str) -> (r: String)
    ensures
        r@ == fixed_location(loc@),
{
    if str_starts_with(loc, "//") {
        let mut s = String::from_str("https:");
        s.append(loc);
        s
    } else {
        String::from_str(loc)
    }
}

/// Resolve one redirect target. The location is first made absolute in
/// scheme (`fixed_location`); if it then parses as an absolute URL, that
/// URL is the target; otherwise it is joined onto the current URL as a
/// base. The result string is fixed in every case: the normalized location
/// itself, or the join's outcome; resolution fails exactly when the
/// location is not absolute and the join gives nothing.
pub fn resolve_redirect(current_url: &String, location: &String) -> (r: Result<String, FetchError>)
    ensures
        url_parses(fixed_location(location@)) ==> (r matches Ok(u) && u@ == url_norm_of(
            fixed_location(location@),
        )),
        !url_parses(fixed_location(location@)) ==> (match url_join_of(
            current_url@,
            fixed_location(location@),
        ) {
            Some(joined) => r matches Ok(u) && u@ == joined,
            None => r is Err,
        }),
        !url_parses(fixed_location(location@)) && !url_parses(current_url@) ==> r is Err,
{
    let fixed = fix_location(location.as_str());
    match url_normalize(fixed.as_str()) {
        Some(u) => Ok(u),
        None => {
            match url_join_str(current_url.as_str(), fixed.as_str()) {
                Some(u) => Ok(u),
                None => {
                    if url_normalize(current_url.as_str()).is_none() {
                        let mut msg = String::from_str("Invalid base URL ");
                        msg.append(current_url.as_str());
                        Err(FetchError::Transport(msg))
                    } else {
                        Err(
                            FetchError::Transport(
                                String::from_str(
                                    "Failed to join base URL with relative redirect",
                                ),
                            ),
                        )
                    }
                },
            }
        },
    }
}

/// Whether one more redirect may be followed.
pub fn may_follow_redirect(redirect_count: u32) -> (r: bool)
    ensures
        r == (redirect_count < MAX_REDIRECTS),
{
    redirect_count < MAX_REDIRECTS
}

} // verus!
