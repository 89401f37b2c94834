//! Choosing what to serve for a request path: the requested file, else the
//! error document, else a fixed message.

use vstd::prelude::*;
use vstd::string::*;

verus! {

/// Served in place of a file that cannot be read.
pub const ERROR_DOCUMENT: &'static str = "error.html";

/// Served where the error document cannot be read either.
pub const FALLBACK_MESSAGE: &'static str = "There was an error processing your request";

/// The MIME type guessed from a path's extension.
pub uninterp spec fn mime_type_of(path: Seq<char>) -> Seq<char>;

/// Relies on `mime_guess::from_path(..).first_or_octet_stream()`: the first
/// MIME type known for the path's extension, `application/octet-stream`
/// where none is known. The guess reads the path's text alone, not the disk.
#[verifier::external_body]
fn guess_mime_type(path: &str) -> (r: String)
    ensures
        r@ == mime_type_of(path@),
{
    mime_guess::from_path(path).first_or_octet_stream().to_string()
}

/// What is served: the name it was resolved to, its bytes, its MIME type.
pub struct Resolved {
    pub file: String,
    pub content: Vec<u8>,
    pub mime: String,
}

/// `p` without its leading slashes, so that it names a file relative to the
/// working directory.
pub open spec fn relative_name(p: Seq<char>) -> Seq<char>
    decreases p.len(),
{
    if p.len() > 0 && p[0] == '/' {
        relative_name(p.drop_first())
    } else {
        p
    }
}

/// The bytes of the fixed message.
pub open spec fn fallback_content() -> Seq<u8> {
    FALLBACK_MESSAGE.spec_bytes()
}

/// The name of the file, relative to the working directory, to read for a
/// request path.
pub fn file_to_read(path: &str) -> (r: String)
    ensures
        r@ == relative_name(path@),
{
    let n = path.unicode_len();
    let mut i: usize = 0;
    assert(path@.subrange(0, n as int) =~= path@);
    while i < n && path.get_char(i) == '/'
        invariant
            n == path@.len(),
            i <= n,
            relative_name(path@) == relative_name(path@.subrange(i as int, n as int)),
        decreases n - i,
    {
        assert(path@.subrange(i as int, n as int).drop_first() =~= path@.subrange(
            i + 1,
            n as int,
        ));
        i = i + 1;
    }
    path.substring_char(i, n).to_owned()
}

/// The first step: where the requested file was read, it is served under its
/// own path; where it was not (`None`), the error document is to be read next.
pub fn resolve_requested(path: &str, contents: Option<Vec<u8>>) -> (r: Option<Resolved>)
    ensures
        match contents {
            Some(b) => r matches Some(x) && x.file@ == path@ && x.content@ == b@ && x.mime@
                == mime_type_of(path@),
            None => r is None,
        },
{
    match contents {
        Some(content) => {
            let mime = guess_mime_type(path);
            Some(Resolved { file: path.to_owned(), content, mime })
        },
        None => None,
    }
}

/// The second step, after the requested file could not be read: the error
/// document where it was read, else the fixed message, under the error
/// document's name and MIME type either way.
pub fn resolve_error_document(contents: Option<Vec<u8>>) -> (r: Resolved)
    ensures
        r.file@ == ERROR_DOCUMENT@,
        r.mime@ == mime_type_of(ERROR_DOCUMENT@),
        r.content@ == match contents {
            Some(b) => b@,
            None => fallback_content(),
        },
{
    let content = match contents {
        Some(b) => b,
        None => vstd::slice::slice_to_vec(FALLBACK_MESSAGE.as_bytes()),
    };
    let mime = guess_mime_type(ERROR_DOCUMENT);
    Resolved { file: ERROR_DOCUMENT.to_owned(), content, mime }
}

} // verus!
