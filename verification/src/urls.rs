//! The address of a template's raw file, under a base URL.

use vstd::prelude::*;

use crate::text::str_equals;
use vstd::string::StringSliceAdditionalSpecFns;

verus! {

/// What `url` makes of a base URL and one more path segment: `Err` with the
/// text of the parse error when the base does not parse as an absolute URL,
/// `Ok(None)` when it parses but cannot be a base, and otherwise the
/// serialization of the URL with the segment pushed onto its path (after an
/// empty last segment is popped), together with its scheme. It takes the URL
/// standard to state, so it is named.
pub uninterp spec fn url_join_segment(base: Seq<char>, segment: Seq<char>) -> Result<
    Option<(Seq<char>, Seq<char>)>,
    Seq<char>,
>;

/// The outcome of pushing a segment onto a base URL, as plain values.
pub enum JoinedUrl {
    /// The base did not parse; `cause` is the parse error's text.
    InvalidBase { cause: String },
    CannotBeABase,
    Joined { text: String, scheme: String },
}

/// The outcome as characters.
pub open spec fn joined_view(j: JoinedUrl) -> Result<Option<(Seq<char>, Seq<char>)>, Seq<char>> {
    match j {
        JoinedUrl::InvalidBase { cause } => Err(cause@),
        JoinedUrl::CannotBeABase => Ok(None),
        JoinedUrl::Joined { text, scheme } => Ok(Some((text@, scheme@))),
    }
}

/// The most bytes that a base URL and a file name may hold together. `url`
/// keeps positions in its serialization as `u32` and panics past `u32::MAX`
/// bytes; percent-encoding turns one byte into at most three, so inputs
/// within this bound stay far below that.
pub const MAX_URL_INPUT_BYTES: usize = 1_000_000_000;

/// The base URL and the file name are short enough for `url` to handle.
pub open spec fn within_url_limit(base: &str, segment: &str) -> bool {
    base.spec_bytes().len() + segment.spec_bytes().len() <= MAX_URL_INPUT_BYTES
}

/// Calls `url::Url::parse` on `base` (turning a parse error into its text),
/// then `path_segments_mut`, `pop_if_empty` and `push(segment)` on the URL,
/// and reads its `scheme` and its serialization. The contract claims that the
/// outcome depends on the two strings alone (named `url_join_segment`); what
/// the URL standard makes of them is left unsaid.
#[verifier::external_body]
fn join_segment(base: &str, segment: &str) -> (r: JoinedUrl)
    requires
        within_url_limit(base, segment),
    ensures
        joined_view(r) == url_join_segment(base@, segment@),
{
    let mut url = match url::Url::parse(base) {
        Ok(url) => url,
        Err(error) => return JoinedUrl::InvalidBase { cause: error.to_string() },
    };
    match url.path_segments_mut() {
        Ok(mut segments) => {
            segments.pop_if_empty().push(segment);
        },
        Err(()) => return JoinedUrl::CannotBeABase,
    }
    let scheme = url.scheme().to_string();
    JoinedUrl::Joined { text: url.into(), scheme }
}

/// Why no template URL came out of a base URL.
#[derive(Clone, Debug, PartialEq, Eq)]
pub enum UrlError {
    /// The base URL does not parse; `cause` says why.
    InvalidBase { cause: String },
    /// The base URL cannot be a base (such as `data:` URLs).
    CannotBeABase,
    /// The resulting URL is neither `http` nor `https`.
    UnsupportedScheme,
    /// The base URL and file name hold more than `MAX_URL_INPUT_BYTES` bytes.
    TooLong,
}

/// The error as characters.
pub open spec fn url_error_view(e: UrlError) -> UrlErrorView {
    match e {
        UrlError::InvalidBase { cause } => UrlErrorView::InvalidBase(cause@),
        UrlError::CannotBeABase => UrlErrorView::CannotBeABase,
        UrlError::UnsupportedScheme => UrlErrorView::UnsupportedScheme,
        UrlError::TooLong => UrlErrorView::TooLong,
    }
}

/// The characters of a `UrlError`.
pub enum UrlErrorView {
    InvalidBase(Seq<char>),
    CannotBeABase,
    UnsupportedScheme,
    TooLong,
}

impl UrlError {
    /// The error's text; a parse failure is followed by its cause.
    pub fn message(&self) -> (r: String)
        ensures
            r@ == match self {
                UrlError::InvalidBase { cause } => "invalid raw base URL: "@ + cause@,
                UrlError::CannotBeABase => "raw base URL cannot be a base"@,
                UrlError::UnsupportedScheme => "unsupported raw template URL scheme"@,
                UrlError::TooLong => "raw template URL is too long"@,
            },
    {
        match self {
            UrlError::InvalidBase { cause } => {
                let mut r = String::from_str("invalid raw base URL: ");
                r.append(cause.as_str());
                r
            },
            UrlError::CannotBeABase => String::from_str("raw base URL cannot be a base"),
            UrlError::UnsupportedScheme => String::from_str("unsupported raw template URL scheme"),
            UrlError::TooLong => String::from_str("raw template URL is too long"),
        }
    }
}

/// The template URL that a join outcome gives: only `http` and `https` URLs
/// are accepted.
pub open spec fn template_url_from(j: Result<Option<(Seq<char>, Seq<char>)>, Seq<char>>) -> Result<
    Seq<char>,
    UrlErrorView,
> {
    match j {
        Err(cause) => Err(UrlErrorView::InvalidBase(cause)),
        Ok(None) => Err(UrlErrorView::CannotBeABase),
        Ok(Some((text, scheme))) => if scheme == "http"@ || scheme == "https"@ {
            Ok(text)
        } else {
            Err(UrlErrorView::UnsupportedScheme)
        },
    }
}

/// The outcome as characters.
pub open spec fn url_result_view(r: Result<String, UrlError>) -> Result<Seq<char>, UrlErrorView> {
    match r {
        Ok(s) => Ok(s@),
        Err(e) => Err(url_error_view(e)),
    }
}

/// Checks a join outcome: the URL's text when it joined and its scheme is
/// `http` or `https`, the matching error otherwise.
pub fn check_template_url(joined: JoinedUrl) -> (r: Result<String, UrlError>)
    ensures
        url_result_view(r) == template_url_from(joined_view(joined)),
{
    match joined {
        JoinedUrl::InvalidBase { cause } => Err(UrlError::InvalidBase { cause }),
        JoinedUrl::CannotBeABase => Err(UrlError::CannotBeABase),
        JoinedUrl::Joined { text, scheme } => {
            if str_equals(scheme.as_str(), "http") || str_equals(scheme.as_str(), "https") {
                Ok(text)
            } else {
                Err(UrlError::UnsupportedScheme)
            }
        },
    }
}

/// The URL of the raw file `file_name` under `raw_base_url`: the base with a
/// trailing empty segment dropped and the file name pushed as a path segment.
/// Inputs too long for `url` are refused.
pub fn raw_template_url(raw_base_url: &str, file_name: &str) -> (r: Result<String, UrlError>)
    ensures
        within_url_limit(raw_base_url, file_name) ==> url_result_view(r) == template_url_from(
            url_join_segment(raw_base_url@, file_name@),
        ),
        !within_url_limit(raw_base_url, file_name) ==> r == Err::<String, UrlError>(
            UrlError::TooLong,
        ),
{
    let base_bytes = raw_base_url.as_bytes().len();
    let name_bytes = file_name.as_bytes().len();
    if base_bytes > MAX_URL_INPUT_BYTES || name_bytes > MAX_URL_INPUT_BYTES - base_bytes {
        return Err(UrlError::TooLong);
    }
    let joined = join_segment(raw_base_url, file_name);
    check_template_url(joined)
}

} // verus!
