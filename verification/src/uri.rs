//! File URIs, as editors and assistants name workspace folders and files.

use vstd::prelude::*;

verus! {

/// The local path that the `url` crate reads from a URI, whatever its
/// scheme: `None` where the text is no URL, or the URL gives no local path.
pub uninterp spec fn file_uri_path(uri: Seq<char>) -> Option<Seq<char>>;

/// `url::Url::parse`, then `Url::to_file_path`: the local path that a URL
/// names. The scheme is not looked at: a caller that wants a `file` URI
/// tests for it before the call. There is no path where the text does not
/// parse as a URL, where the URL has a host other than the local one or
/// cannot have path segments, or where the decoded path holds a NUL byte. A
/// path that is not UTF-8 gives `None` as well, since the library holds
/// paths as strings.
#[verifier::external_body]
pub(crate) fn file_uri_to_path(uri: &str) -> (path: Option<String>)
    ensures
        match path {
            Some(p) => file_uri_path(uri@) == Some(p@),
            None => file_uri_path(uri@).is_none(),
        },
{
    let url = url::Url::parse(uri).ok()?;
    let path = url.to_file_path().ok()?;
    path.into_os_string().into_string().ok()
}

/// The URI under which the `url` crate puts a local path: `None` where the
/// path is not absolute.
pub uninterp spec fn path_file_uri(path: Seq<char>) -> Option<Seq<char>>;

/// `url::Url::from_file_path`, then `Url::as_str`: the `file://` URI of an
/// absolute path, percent-encoded as URLs are. There is none where the path
/// is not absolute.
#[verifier::external_body]
pub(crate) fn path_to_file_uri(path: &str) -> (uri: Option<String>)
    ensures
        match uri {
            Some(u) => path_file_uri(path@) == Some(u@),
            None => path_file_uri(path@).is_none(),
        },
{
    let url = url::Url::from_file_path(path).ok()?;
    Some(url.as_str().to_string())
}

/// What the `urlencoding` crate decodes a percent-encoded text to: `None`
/// where the decoded bytes are no UTF-8.
pub uninterp spec fn percent_decoded(text: Seq<char>) -> Option<Seq<char>>;

/// `urlencoding::decode`: each `%` with two hexadecimal digits stands for a
/// byte, everything else for itself; `+` stays as it is. There is no result
/// where the bytes that come out are no UTF-8.
#[verifier::external_body]
pub(crate) fn percent_decode(text: &str) -> (decoded: Option<String>)
    ensures
        match decoded {
            Some(d) => percent_decoded(text@) == Some(d@),
            None => percent_decoded(text@).is_none(),
        },
{
    urlencoding::decode(text).ok().map(|decoded| decoded.into_owned())
}

} // verus!
