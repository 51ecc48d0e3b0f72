//! Web addresses, read and rewritten by the `url` crate.

use vstd::prelude::*;

verus! {

/// The parts of a parsed address that the rules look at, and its serialization.
pub struct UrlParts {
    pub scheme: String,
    pub host: Option<String>,
    pub path: String,
    pub serialized: String,
}

pub struct UrlPartsModel {
    pub scheme: Seq<char>,
    pub host: Option<Seq<char>>,
    pub path: Seq<char>,
    pub serialized: Seq<char>,
}

impl View for UrlParts {
    type V = UrlPartsModel;

    open spec fn view(&self) -> UrlPartsModel {
        UrlPartsModel {
            scheme: self.scheme@,
            host: match self.host {
                Some(h) => Some(h@),
                None => None,
            },
            path: self.path@,
            serialized: self.serialized@,
        }
    }
}

pub open spec fn url_parts_view(r: Option<UrlParts>) -> Option<UrlPartsModel> {
    match r {
        Some(p) => Some(p@),
        None => None,
    }
}

/// What `url::Url::parse` gives for a text: `None` when it does not parse.
pub uninterp spec fn url_parse_result(text: Seq<char>) -> Option<UrlPartsModel>;

/// Calls `url::Url::parse(text)` and reads its scheme, host, path and serialization
/// (`scheme`, `host_str`, `path`, `to_string`). The contract claims only that the result is
/// the named parse of the text.
#[verifier::external_body]
pub fn parse_url(text: &str) -> (r: Option<UrlParts>)
    ensures
        url_parts_view(r) == url_parse_result(text@),
{
    match url::Url::parse(text) {
        Ok(u) => Some(
            UrlParts {
                scheme: u.scheme().to_string(),
                host: u.host_str().map(|h| h.to_string()),
                path: u.path().to_string(),
                serialized: u.to_string(),
            },
        ),
        Err(_) => None,
    }
}

/// What `url::Url::set_path` followed by `to_string` gives for a parsed text.
pub uninterp spec fn url_set_path_result(text: Seq<char>, path: Seq<char>) -> Option<Seq<char>>;

/// Parses `text` with `url::Url::parse`, replaces the path with `Url::set_path` and returns
/// the serialization. The contract claims that the result is the named value and that it
/// exists exactly when the text parses (`set_path` cannot fail).
#[verifier::external_body]
pub fn url_with_path(text: &str, path: &str) -> (r: Option<String>)
    ensures
        r is Some <==> url_parse_result(text@) is Some,
        r matches Some(s) ==> url_set_path_result(text@, path@) == Some(s@),
{
    match url::Url::parse(text) {
        Ok(mut u) => {
            u.set_path(path);
            Some(u.to_string())
        },
        Err(_) => None,
    }
}

pub open spec fn opt_string_view(r: Option<String>) -> Option<Seq<char>> {
    match r {
        Some(s) => Some(s@),
        None => None,
    }
}

pub open spec fn join_view(r: Option<Option<String>>) -> Option<Option<Seq<char>>> {
    match r {
        Some(x) => Some(opt_string_view(x)),
        None => None,
    }
}

/// What `url::Url::join` gives for a base address and a reference: `None` when the base
/// does not parse, `Some(None)` when the reference does not resolve.
pub uninterp spec fn url_join_result(base: Seq<char>, href: Seq<char>) -> Option<Option<Seq<char>>>;

/// Calls `url::Url::parse(base)` and then `Url::join(href)` and returns the serialization.
/// The contract claims only that the result is the named value.
#[verifier::external_body]
pub fn join_url(base: &str, href: &str) -> (r: Option<Option<String>>)
    ensures
        join_view(r) == url_join_result(base@, href@),
{
    match url::Url::parse(base) {
        Ok(u) => Some(u.join(href).ok().map(|j| j.to_string())),
        Err(_) => None,
    }
}

/// What the `url` crate gives for a server address with its query and fragment removed,
/// its path set to `path` and then `segments` appended as path segments (`set_query`,
/// `set_fragment`, `set_path`, `path_segments_mut().extend`): `None` when the address does
/// not parse or cannot take path segments.
pub uninterp spec fn url_with_segments_result(server: Seq<char>, path: Seq<char>, segments: Seq<Seq<char>>) -> Option<Seq<char>>;

pub open spec fn segment_views(v: Seq<&str>) -> Seq<Seq<char>> {
    Seq::new(v.len(), |i: int| v[i]@)
}

/// The server address with its query and fragment removed, its path replaced by `path`
/// and the `segments` appended, serialized; `None` when the address does not parse or
/// cannot take path segments. The contract claims only that the result is the named value.
#[verifier::external_body]
pub(crate) fn url_with_segments(server: &str, path: &str, segments: &[&str]) -> (r: Option<String>)
    ensures
        opt_string_view(r) == url_with_segments_result(server@, path@, segment_views(segments@)),
{
    let mut u = url::Url::parse(server).ok()?;
    u.set_query(None);
    u.set_fragment(None);
    u.set_path(path);
    u.path_segments_mut().ok()?.extend(segments);
    Some(u.to_string())
}

} // verus!
