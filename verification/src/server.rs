//! What the dev-server answers a request with: which file of the output
//! tree, and as what kind of content.

use vstd::prelude::*;
use vstd::string::{StrSliceExecFns, StringExecFns};
use crate::fsutil::{
    assemble, components, css_ext, extension, has_extension, html_ext, is_parent_dir, joined_all,
    js_ext, lemma_components, lemma_joined_all_is_relative, parent_dir, split, SEPARATOR,
};
use crate::order::deep;
use crate::paths::{join, joined, starts_with};

verus! {

/// Why a request gets no file.
#[derive(Debug)]
pub enum ServeError {
    /// Nothing is at the path asked for.
    Missing(Vec<u8>),
    /// The path asked for is a directory without an index page.
    NoIndex(Vec<u8>),
    /// The path asked for climbs to a directory above: it may lead out of
    /// the output tree, and is not looked up.
    Outside,
}

/// The name of a directory's index page.
pub open spec fn index_name() -> Seq<u8> {
    seq![105u8, 110u8, 100u8, 101u8, 120u8, 46u8, 104u8, 116u8, 109u8, 108u8]
}

/// The place in the output tree `dist` that a request for `uri_path` asks
/// for: the output tree joined with the components of the request's path.
/// A path with the component `..` asks for no place.
pub open spec fn candidate_of(dist: Seq<u8>, uri_path: Seq<u8>) -> Option<Seq<u8>> {
    if components(uri_path).contains(parent_dir()) {
        None
    } else {
        Some(joined(dist, joined_all(components(uri_path))))
    }
}

/// Every place that a request asks for lies under the output tree.
pub proof fn lemma_candidate_stays_inside(dist: Seq<u8>, uri_path: Seq<u8>)
    requires
        candidate_of(dist, uri_path) is Some,
    ensures
        starts_with(candidate_of(dist, uri_path)->0, dist),
{
    lemma_components(uri_path);
    lemma_joined_all_is_relative(components(uri_path));
    let place = joined(dist, joined_all(components(uri_path)));
    assert(place.subrange(0, dist.len() as int) =~= dist);
}

/// The content type that a file is served with, by its extension; a file
/// of any other extension is served without one.
pub open spec fn content_type_of(path: Seq<u8>) -> Option<Seq<char>> {
    if extension(path) == Some(html_ext()) {
        Some("text/html"@)
    } else if extension(path) == Some(css_ext()) {
        Some("text/css"@)
    } else if extension(path) == Some(js_ext()) {
        Some("text/javascript"@)
    } else {
        None
    }
}

/// The place in the output tree `dist` that a request for `uri_path` asks
/// for. It lies under the output tree; a path that climbs is refused.
pub fn candidate(dist: &[u8], uri_path: &[u8]) -> (r: Result<Vec<u8>, ServeError>)
    ensures
        match candidate_of(dist@, uri_path@) {
            Some(place) => r matches Ok(found) && found@ == place && starts_with(found@, dist@),
            None => r matches Err(ServeError::Outside),
        },
{
    let comps = split(uri_path);
    let ghost all = deep(comps@);
    let mut i: usize = 0;
    while i < comps.len()
        invariant
            i <= comps.len(),
            all == deep(comps@),
            all == components(uri_path@),
            forall|j: int| 0 <= j < i ==> all[j] != parent_dir(),
        decreases comps.len() - i,
    {
        if is_parent_dir(comps[i].as_slice()) {
            assert(all[i as int] == parent_dir());
            assert(components(uri_path@).contains(parent_dir()));
            return Err(ServeError::Outside);
        }
        i += 1;
    }
    proof {
        lemma_candidate_stays_inside(dist@, uri_path@);
    }
    Ok(join(dist, assemble(false, &comps).as_slice()))
}

/// The file to serve for the place `candidate`, of which the file system
/// says whether anything is there and, if so, whether it is a directory:
/// the place itself, or the index page of the directory.
pub fn target(candidate: Vec<u8>, found: Option<bool>) -> (r: Result<Vec<u8>, ServeError>)
    ensures
        match found {
            None => r matches Err(ServeError::Missing(at)) && at@ == candidate@,
            Some(true) => r matches Ok(file) && file@ == joined(candidate@, index_name()),
            Some(false) => r matches Ok(file) && file@ == candidate@,
        },
{
    match found {
        None => Err(ServeError::Missing(candidate)),
        Some(true) => {
            let index: [u8; 10] = [105, 110, 100, 101, 120, 46, 104, 116, 109, 108];
            assert(index@ =~= index_name());
            Ok(join(candidate.as_slice(), index.as_slice()))
        },
        Some(false) => Ok(candidate),
    }
}

/// The file to serve, once the file system has said whether `file` is
/// there.
pub fn confirm(file: Vec<u8>, present: bool) -> (r: Result<Vec<u8>, ServeError>)
    ensures
        if present {
            r matches Ok(same) && same@ == file@
        } else {
            r matches Err(ServeError::NoIndex(at)) && at@ == file@
        },
{
    if present {
        Ok(file)
    } else {
        Err(ServeError::NoIndex(file))
    }
}

/// What stands for `c` in the text of a page: the three characters that
/// mark-up is made of are written by their names.
pub open spec fn escaped_char(c: char) -> Seq<char> {
    if c == '&' {
        "&amp;"@
    } else if c == '<' {
        "&lt;"@
    } else if c == '>' {
        "&gt;"@
    } else {
        seq![c]
    }
}

/// `text` as it stands in a page: each character as `escaped_char` has it.
pub open spec fn escaped(text: Seq<char>) -> Seq<char>
    decreases text.len(),
{
    if text.len() == 0 {
        Seq::empty()
    } else {
        escaped(text.drop_last()) + escaped_char(text.last())
    }
}

/// The page that answers a request which got no file: the path asked for
/// as its heading, and under it why nothing was served.
pub open spec fn diagnostic(query: Seq<char>, error: Seq<char>) -> Seq<char> {
    "<!doctype html><title>Not served</title><h1>"@ + escaped(query) + "</h1><pre>"@ + escaped(
        error,
    ) + "</pre>"@
}

/// `text` as it stands in a page.
pub fn escape(text: &str) -> (r: String)
    ensures
        r@ == escaped(text@),
{
    let mut out = String::new();
    let n = text.unicode_len();
    let mut i: usize = 0;
    assert(text@.take(0) =~= Seq::<char>::empty());
    while i < n
        invariant
            i <= n,
            n == text@.len(),
            out@ == escaped(text@.take(i as int)),
        decreases n - i,
    {
        let c = text.get_char(i);
        assert(text@.take(i + 1).drop_last() =~= text@.take(i as int));
        assert(text@.take(i + 1).last() == c);
        if c == '&' {
            out.append("&amp;");
        } else if c == '<' {
            out.append("&lt;");
        } else if c == '>' {
            out.append("&gt;");
        } else {
            out.append(text.substring_char(i, i + 1));
            assert(text@.subrange(i as int, i + 1) =~= seq![c]);
        }
        i += 1;
    }
    assert(text@.take(n as int) =~= text@);
    out
}

/// The page that answers a request for `query` which got no file, for the
/// reason `error`.
pub fn error_page(query: &str, error: &str) -> (r: String)
    ensures
        r@ == diagnostic(query@, error@),
{
    let mut page = String::from_str("<!doctype html><title>Not served</title><h1>");
    page.append(escape(query).as_str());
    page.append("</h1><pre>");
    page.append(escape(error).as_str());
    page.append("</pre>");
    page
}

/// The content type to serve `path` with, if any.
pub fn content_type(path: &[u8]) -> (r: Option<&'static str>)
    ensures
        match r {
            Some(text) => content_type_of(path@) == Some(text@),
            None => content_type_of(path@) is None,
        },
{
    let html: [u8; 4] = [104, 116, 109, 108];
    let css: [u8; 3] = [99, 115, 115];
    let js: [u8; 2] = [106, 115];
    assert(html@ =~= html_ext() && css@ =~= css_ext() && js@ =~= js_ext());
    if has_extension(path, html.as_slice()) {
        Some("text/html")
    } else if has_extension(path, css.as_slice()) {
        Some("text/css")
    } else if has_extension(path, js.as_slice()) {
        Some("text/javascript")
    } else {
        None
    }
}

} // verus!
