//! Serving the embedded frontend: which asset a request names, the content type it is
//! served with, whether the HTML security headers go with it, and the single-page
//! fallback to `index.html` for names that are not assets.
use crate::text::{chars_of, string_from_chars};
use crate::threemf::package::trim_leading_slashes;
use vstd::prelude::*;

verus! {

/// The first MIME type that `mime_guess` associates with the extension of `path`, if any.
pub uninterp spec fn mime_first(path: Seq<char>) -> Option<Seq<char>>;

/// `mime_guess::from_path(path).first_raw()`. Trusted: the result is [`mime_first`] of the
/// path (the guess looks at the path's extension only).
#[verifier::external_body]
fn guess_mime(path: &str) -> (m: Option<String>)
    ensures
        match m {
            Some(s) => mime_first(path@) == Some(s@),
            None => mime_first(path@) is None,
        },
{
    mime_guess::from_path(path).first_raw().map(|s| s.to_string())
}

/// The asset a request path names: the path without its leading `/`, or `index.html` for
/// the site's root.
pub open spec fn spec_asset_name(uri_path: Seq<char>) -> Seq<char> {
    if trim_leading_slashes(uri_path).len() == 0 {
        "index.html"@
    } else {
        trim_leading_slashes(uri_path)
    }
}

/// The content type a file is served with: its guessed MIME type, or
/// `application/octet-stream`.
pub open spec fn spec_mime_or_octet(path: Seq<char>) -> Seq<char> {
    match mime_first(path) {
        Some(m) => m,
        None => "application/octet-stream"@,
    }
}

/// A content type is HTML when it starts with `text/html`.
pub open spec fn spec_is_html(mime: Seq<char>) -> bool {
    mime.len() >= 9 && mime.take(9) == "text/html"@
}

/// How an asset is served: its content type, and whether the HTML security headers
/// (content security policy, frame and sniffing protection, permissions policy) go with it.
pub struct AssetHeaders {
    pub mime: String,
    pub html_headers: bool,
}

/// What to answer for a request of the frontend.
pub enum FrontendReply {
    /// Serve the named asset with these headers.
    Asset(AssetHeaders),
    /// The name is no asset: serve `index.html` with these headers (single-page routing).
    IndexFallback(AssetHeaders),
    /// Neither the asset nor `index.html` exists.
    NotFound,
}

/// The asset a request path names (see [`spec_asset_name`]).
pub fn asset_name(uri_path: &str) -> (n: String)
    ensures
        n@ == spec_asset_name(uri_path@),
{
    let cs = chars_of(uri_path);
    let mut start: usize = 0;
    assert(cs@.skip(0) =~= cs@);
    while start < cs.len() && cs[start] == '/'
        invariant
            start <= cs@.len(),
            cs@ == uri_path@,
            trim_leading_slashes(uri_path@) == trim_leading_slashes(cs@.skip(start as int)),
        decreases cs@.len() - start,
    {
        assert(cs@.skip(start as int).drop_first() =~= cs@.skip(start + 1));
        start = start + 1;
    }
    let mut rest: Vec<char> = Vec::new();
    let mut i = start;
    while i < cs.len()
        invariant
            start <= i <= cs@.len(),
            rest@ == cs@.subrange(start as int, i as int),
        decreases cs@.len() - i,
    {
        rest.push(cs[i]);
        i = i + 1;
        assert(rest@ =~= cs@.subrange(start as int, i as int));
    }
    assert(rest@ =~= cs@.skip(start as int));
    if rest.len() == 0 {
        string_from_chars(&chars_of("index.html"))
    } else {
        string_from_chars(&rest)
    }
}

/// The content type a file is served with (see [`spec_mime_or_octet`]).
pub fn mime_or_octet(path: &str) -> (m: String)
    ensures
        m@ == spec_mime_or_octet(path@),
{
    match guess_mime(path) {
        Some(m) => m,
        None => string_from_chars(&chars_of("application/octet-stream")),
    }
}

fn is_html(mime: &str) -> (r: bool)
    ensures
        r == spec_is_html(mime@),
{
    let cs = chars_of(mime);
    let html = chars_of("text/html");
    proof {
        reveal_strlit("text/html");
    }
    assert(html@.len() == 9);
    if cs.len() < html.len() {
        return false;
    }
    let mut i: usize = 0;
    while i < html.len()
        invariant
            i <= html@.len() <= cs@.len(),
            html@.len() == 9,
            html@ == "text/html"@,
            cs@ == mime@,
            forall|j: int| 0 <= j < i ==> cs@[j] == html@[j],
        decreases html@.len() - i,
    {
        if cs[i] != html[i] {
            assert(cs@.take(9)[i as int] != html@[i as int]);
            return false;
        }
        i = i + 1;
    }
    assert(cs@.take(9) =~= html@);
    true
}

/// The headers of an asset: its content type (see [`spec_mime_or_octet`]) and the HTML
/// security headers when that type is HTML.
pub fn asset_headers(name: &str) -> (h: AssetHeaders)
    ensures
        h.mime@ == spec_mime_or_octet(name@),
        h.html_headers == spec_is_html(h.mime@),
{
    let mime = mime_or_octet(name);
    let html_headers = is_html(mime.as_str());
    AssetHeaders { mime, html_headers }
}

/// The headers of `index.html` served in place of a name that is no asset.
pub fn fallback_headers() -> (h: AssetHeaders)
    ensures
        h.mime@ == "text/html; charset=utf-8"@,
        h.html_headers,
{
    AssetHeaders { mime: string_from_chars(&chars_of("text/html; charset=utf-8")), html_headers: true }
}

/// What to answer for the asset `name`, given whether it exists and whether `index.html`
/// exists: the asset itself, else `index.html`, else nothing.
pub fn frontend_reply(name: &str, asset_found: bool, index_found: bool) -> (r: FrontendReply)
    ensures
        asset_found ==> (r matches FrontendReply::Asset(h) && h.mime@ == spec_mime_or_octet(name@)
            && h.html_headers == spec_is_html(h.mime@)),
        !asset_found && index_found ==> (r matches FrontendReply::IndexFallback(h)
            && h.mime@ == "text/html; charset=utf-8"@ && h.html_headers),
        !asset_found && !index_found ==> r is NotFound,
{
    if asset_found {
        FrontendReply::Asset(asset_headers(name))
    } else if index_found {
        FrontendReply::IndexFallback(fallback_headers())
    } else {
        FrontendReply::NotFound
    }
}

} // verus!
