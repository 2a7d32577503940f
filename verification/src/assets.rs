//! The endpoint that serves the viewer's files.
//!
//! It answers a request for a file by its path, and a request for the root
//! with the viewer's entry page. This module decides which asset a request
//! names, with which content type it goes out, and what is answered when the
//! asset is missing; fetching the bytes and speaking HTTP is left to whoever
//! runs the endpoint.

use vstd::prelude::*;
use vstd::string::*;

verus! {

/// The value of the `Content-Type` header that `rocket` knows for a file
/// extension, compared without regard to case; `None` for an extension it
/// does not know.
pub uninterp spec fn content_type_of(extension: Seq<char>) -> Option<Seq<char>>;

/// A route of the endpoint.
#[derive(Clone, Copy, PartialEq, Eq, Structural, Debug)]
pub enum Route {
    /// The root: the viewer's entry page.
    Index,
    /// Any other path: the file of that path.
    Dist,
}

/// Where the endpoint's routes are mounted.
#[derive(Debug, PartialEq, Eq)]
pub struct Mount {
    /// The path below which the routes are served.
    pub base: String,
    /// The routes, in the order in which they are tried.
    pub routes: Vec<Route>,
}

/// An asset to fetch, and the content type to send it with.
#[derive(Debug, PartialEq, Eq)]
pub struct Lookup {
    /// The asset's name in the bundle.
    pub name: String,
    /// The value of the `Content-Type` header.
    pub content_type: String,
}

/// The answer to a request.
#[derive(Debug, PartialEq, Eq)]
pub enum Reply {
    /// The asset, with its content type.
    Found { content_type: String, body: Vec<u8> },
    /// The bundle holds no such asset.
    NotFound,
}

/// The last segment of `path` is the name `..`, whose second dot is at `k`.
pub open spec fn parent_at(path: Seq<char>, k: int) -> bool {
    &&& k + 1 == path.len()
    &&& path[k - 1] == '.'
    &&& (k == 1 || path[k - 2] == '/')
}

/// The dot at `k` starts the extension of `path`: nothing behind it is a dot
/// or a slash, it is not the first character of the last segment, and that
/// segment is not the name `..`.
pub open spec fn splits_at(path: Seq<char>, k: int) -> bool {
    &&& 0 < k < path.len()
    &&& path[k] == '.'
    &&& path[k - 1] != '/'
    &&& !parent_at(path, k)
    &&& forall|j: int| k < j < path.len() ==> path[j] != '.' && path[j] != '/'
}

/// The extension of a path: what follows the last dot of its last segment,
/// unless that dot is the segment's first character or the segment is the
/// name `..`.
///
/// This is the extension that `std::path::Path::extension` gives for a path
/// made of plain segments, as a request's path is. It departs from it where
/// a path ends in a slash or in a segment `.`: there the standard library
/// looks at the segment before, and here the path has no extension.
pub open spec fn extension_of(path: Seq<char>) -> Option<Seq<char>> {
    if exists|k: int| splits_at(path, k) {
        Some(path.skip((choose|k: int| splits_at(path, k)) + 1))
    } else {
        None
    }
}

/// The content type under which the file of a path is served, if it has an
/// extension and the extension is known.
pub open spec fn served_as(path: Seq<char>) -> Option<Seq<char>> {
    match extension_of(path) {
        Some(extension) => content_type_of(extension),
        None => None,
    }
}

/// Asks `rocket::http::ContentType::from_extension` for the content type of
/// a file extension and renders it as a header value.
///
/// Trusted: the answer depends on the extension alone, and this is the
/// extension's `content_type_of`.
#[verifier::external_body]
fn content_type_for(extension: &str) -> (found: Option<String>)
    ensures
        match found {
            Some(value) => content_type_of(extension@) == Some(value@),
            None => content_type_of(extension@) is None,
        },
{
    match rocket::http::ContentType::from_extension(extension) {
        Some(content_type) => Some(content_type.to_string()),
        None => None,
    }
}

/// Renders `rocket::http::ContentType::HTML` as a header value.
///
/// Trusted: `rocket` defines it as `text/html` with the parameter
/// `charset=utf-8`, and writes a known type as type, slash, subtype, then
/// each parameter after a semicolon and a space.
#[verifier::external_body]
fn html_content_type() -> (value: String)
    ensures
        value@ == "text/html; charset=utf-8"@,
{
    rocket::http::ContentType::HTML.to_string()
}

/// The endpoint's routes: mounted at the root, the entry page first, then
/// the files.
pub fn rocket() -> (mount: Mount)
    ensures
        mount.base@ == "/"@,
        mount.routes@ == seq![Route::Index, Route::Dist],
{
    let mut routes: Vec<Route> = Vec::new();
    routes.push(Route::Index);
    routes.push(Route::Dist);
    assert(routes@ =~= seq![Route::Index, Route::Dist]);
    Mount { base: String::from_str("/"), routes }
}

/// The asset behind the root: the entry page, served as HTML.
pub fn index() -> (lookup: Lookup)
    ensures
        lookup.name@ == "index.html"@,
        lookup.content_type@ == "text/html; charset=utf-8"@,
{
    Lookup { name: String::from_str("index.html"), content_type: html_content_type() }
}

/// The extension of a path, if it has one.
pub fn extension(path: &str) -> (found: Option<String>)
    ensures
        match found {
            Some(extension) => extension_of(path@) == Some(extension@),
            None => extension_of(path@) is None,
        },
{
    let len = path.unicode_len();
    let mut i: usize = len;
    while i > 0
        invariant
            i <= len,
            len == path@.len(),
            forall|j: int| i <= j < len ==> path@[j] != '.' && path@[j] != '/',
        decreases i,
    {
        let k: usize = i - 1;
        let c = path.get_char(k);
        if c == '/' {
            assert forall|at: int| !splits_at(path@, at) by {
                if splits_at(path@, at) {
                    if at < k {
                        assert(path@[k as int] != '/');
                    }
                }
            }
            return None;
        }
        if c == '.' {
            let hidden = if k == 0 {
                true
            } else {
                let before = path.get_char(k - 1);
                before == '/' || (before == '.' && i == len && (k == 1 || path.get_char(k - 2)
                    == '/'))
            };
            if hidden {
                assert forall|at: int| !splits_at(path@, at) by {
                    if splits_at(path@, at) {
                        if at < k {
                            assert(path@[k as int] != '.');
                        }
                    }
                }
                return None;
            }
            assert(splits_at(path@, k as int));
            assert forall|at: int| splits_at(path@, at) implies at == k by {
                if at < k {
                    assert(path@[k as int] != '.');
                }
            }
            let found = String::from_str(path.substring_char(i, len));
            assert(found@ =~= path@.skip(k + 1));
            return Some(found);
        }
        i = k;
    }
    assert forall|at: int| !splits_at(path@, at) by {}
    None
}

/// Pairs a file with its content type, if it has one.
pub fn file_lookup(file: &str, content_type: Option<String>) -> (lookup: Option<Lookup>)
    ensures
        match (lookup, content_type) {
            (Some(lookup), Some(value)) => lookup.name@ == file@ && lookup.content_type == value,
            (None, None) => true,
            _ => false,
        },
{
    match content_type {
        Some(value) => Some(Lookup { name: String::from_str(file), content_type: value }),
        None => None,
    }
}

/// The asset behind the path of a file: the file itself, served under the
/// content type of its extension. A path without an extension, or with one
/// that has no known content type, names no asset.
pub fn dist(file: &str) -> (lookup: Option<Lookup>)
    ensures
        match lookup {
            Some(lookup) => lookup.name@ == file@ && served_as(file@) == Some(
                lookup.content_type@,
            ),
            None => served_as(file@) is None,
        },
{
    match extension(file) {
        Some(found) => file_lookup(file, content_type_for(found.as_str())),
        None => None,
    }
}

/// Answers a request from the asset it names, if it names one, and from what
/// the bundle gave for it: the bytes under the asset's content type where
/// both are there, not found otherwise.
pub fn respond(lookup: Option<Lookup>, asset: Option<Vec<u8>>) -> (reply: Reply)
    ensures
        match (lookup, asset) {
            (Some(lookup), Some(body)) => reply == (Reply::Found {
                content_type: lookup.content_type,
                body,
            }),
            _ => reply == Reply::NotFound,
        },
{
    match (lookup, asset) {
        (Some(lookup), Some(body)) => Reply::Found { content_type: lookup.content_type, body },
        _ => Reply::NotFound,
    }
}

impl Reply {
    /// The HTTP status of the answer: 200 with the asset, 404 without.
    pub fn status(&self) -> (code: u16)
        ensures
            code == (if self is Found { 200int } else { 404int }),
    {
        match self {
            Reply::Found { .. } => 200,
            Reply::NotFound => 404,
        }
    }
}

} // verus!
