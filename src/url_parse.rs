use vstd::prelude::*;

verus! {

#[verifier::external_type_specification]
#[verifier::external_body]
pub struct ExUrl(url::Url);

#[verifier::external_type_specification]
#[verifier::external_body]
pub struct ExParseError(url::ParseError);

/// Whether `s` is an absolute URL, as url's parser judges it.
pub uninterp spec fn is_url(s: Seq<char>) -> bool;

/// Relies on url's `Url::parse`: an absolute URL parsed from `input`, or the
/// reason it is not one; which of the two depends on the text alone.
pub assume_specification[ url::Url::parse ](input: &str) -> (r: Result<url::Url, url::ParseError>)
    ensures
        r is Ok <==> is_url(input@),
;

/// Relies on url's `Url::query`: the query string, if the URL has one.
pub assume_specification[ url::Url::query ](url: &url::Url) -> Option<&str>;

/// Relies on url's `Url::fragment`: the fragment, if the URL has one.
pub assume_specification[ url::Url::fragment ](url: &url::Url) -> Option<&str>;

/// Relies on url's `Url::path_segments`: the number of `/`-separated
/// segments of the path, or `None` for a URL that cannot be a base.
#[verifier::external_body]
fn path_segment_count(url: &url::Url) -> Option<usize> {
    match url.path_segments() {
        Some(segments) => Some(segments.count()),
        None => None,
    }
}

/// Why a server URL is refused.
#[derive(Clone, Copy, Debug, PartialEq, Eq, Structural)]
pub enum UrlError {
    /// The text is not an absolute URL.
    Invalid,
    /// The URL has a path of more than one segment.
    Path,
    /// The URL has a query string.
    Query,
    /// The URL has a fragment.
    Fragment,
}

/// Whether a URL with these parts names a server: a path of at most one
/// segment, no query and no fragment, checked in that order.
pub fn check_server_url(path_segments: Option<usize>, has_query: bool, has_fragment: bool) -> (r:
    Result<(), UrlError>)
    ensures
        path_segments matches Some(n) && n > 1 ==> r == Err::<(), UrlError>(UrlError::Path),
        !(path_segments matches Some(n) && n > 1) && has_query ==> r == Err::<(), UrlError>(
            UrlError::Query,
        ),
        !(path_segments matches Some(n) && n > 1) && !has_query && has_fragment ==> r == Err::<
            (),
            UrlError,
        >(UrlError::Fragment),
        !(path_segments matches Some(n) && n > 1) && !has_query && !has_fragment ==> r is Ok,
{
    if let Some(count) = path_segments {
        if count > 1 {
            return Err(UrlError::Path);
        }
    }
    if has_query {
        return Err(UrlError::Query);
    }
    if has_fragment {
        return Err(UrlError::Fragment);
    }
    Ok(())
}

/// Parses the URL of a server: an absolute URL with a path of at most one
/// segment, and no query or fragment. Text that is no URL is `Invalid`; a
/// URL is refused as `check_server_url` says of its parts.
pub fn parse_server_url(server_url_str: &str) -> (r: Result<url::Url, UrlError>)
    ensures
        !is_url(server_url_str@) <==> r == Err::<url::Url, UrlError>(UrlError::Invalid),
{
    let url = match url::Url::parse(server_url_str) {
        Ok(url) => url,
        Err(_) => {
            return Err(UrlError::Invalid);
        },
    };
    let verdict = check_server_url(
        path_segment_count(&url),
        url.query().is_some(),
        url.fragment().is_some(),
    );
    match verdict {
        Ok(()) => Ok(url),
        Err(e) => Err(e),
    }
}

/// Parses the URL of a server session, by the rules of `parse_server_url`.
/// A path of one segment is allowed: every URL that can be a base has a path
/// (`http://host` has `/`), so refusing any path at all would refuse them
/// all.
pub fn get_url(url_str: &str) -> (r: Result<url::Url, UrlError>)
    ensures
        !is_url(url_str@) <==> r == Err::<url::Url, UrlError>(UrlError::Invalid),
{
    parse_server_url(url_str)
}

} // verus!
