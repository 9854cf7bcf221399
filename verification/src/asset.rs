//! Asset requests: from the URI of a request to the path of the asset below
//! the data directory, and from a file extension to a media type.

use vstd::prelude::*;
use vstd::string::StringSliceAdditionalSpecFns;
use vstd::utf8::{
    decode_utf8, encode_utf8, encode_utf8_decode_utf8, encode_utf8_valid_utf8, is_char_boundary,
    is_char_boundary_start_end_of_seq, valid_utf8,
};
use crate::boundary::slice_between;
use crate::matcher::{
    find_all_matches, lemma_occurrence_on_boundaries, lemma_spans_below_sound, match_spans,
    matches_at, occurs_at,
};
use crate::models::page::Page;
use crate::models::search::text_of;
use crate::text::same_text;

verus! {

/// Why a request for an asset is turned down before any file is looked at.
#[derive(Debug, Clone, Copy, PartialEq, Eq)]
pub enum AssetError {
    /// The URI does not consist of a scheme, `://` and a path.
    InvalidUri,
    /// The path holds percent escapes that give no UTF-8 text.
    UndecodablePath,
    /// The path leads outside the directory of page assets.
    OutsideAssets,
}

impl AssetError {
    /// The status of the response that answers such a request.
    pub open spec fn status_of(self) -> u16 {
        match self {
            AssetError::InvalidUri => 400,
            AssetError::UndecodablePath => 400,
            AssetError::OutsideAssets => 403,
        }
    }

    /// The HTTP status of the response that answers such a request.
    pub fn status(&self) -> (r: u16)
        ensures
            r == self.status_of(),
    {
        match self {
            AssetError::InvalidUri => 400,
            AssetError::UndecodablePath => 400,
            AssetError::OutsideAssets => 403,
        }
    }
}

/// The text that `urlencoding::decode` gives for a text, or `None` where it
/// gives an error.
pub uninterp spec fn percent_decoded(data: Seq<char>) -> Option<Seq<char>>;

/// Decodes the percent escapes of a text with `urlencoding::decode`. That
/// function computes its result from the text alone: the bytes that the
/// escapes stand for are put in their place, and it fails where the bytes
/// that come out are not UTF-8. The contract gives that result a name and
/// says nothing more of it.
#[verifier::external_body]
fn percent_decode(data: &str) -> (r: Option<String>)
    ensures
        text_of(r) == percent_decoded(data@),
{
    match urlencoding::decode(data) {
        Ok(text) => Some(text.into_owned()),
        Err(_) => None,
    }
}

/// The offset behind all repetitions of `prefix` that follow one another from `from` on.
pub open spec fn skip_repeated(s: Seq<u8>, prefix: Seq<u8>, from: int) -> int
    decreases s.len() - from,
{
    if prefix.len() > 0 && occurs_at(s, prefix, true, from) {
        skip_repeated(s, prefix, from + prefix.len())
    } else {
        from
    }
}

/// Where the encoded path begins in a URI: behind the one `://` that it
/// holds, behind every `localhost` that follows, and behind every `/` after
/// that. `None` where the URI holds no `://`, or more than one.
pub open spec fn encoded_path_start(uri: Seq<u8>) -> Option<int> {
    let separators = match_spans(uri, "://".spec_bytes(), true, false);
    if separators.len() == 1 {
        Some(
            skip_repeated(
                uri,
                "/".spec_bytes(),
                skip_repeated(uri, "localhost".spec_bytes(), separators[0].1 as int),
            ),
        )
    } else {
        None
    }
}

/// Whether a path lies in the directory of page assets, under either of its two names.
pub open spec fn in_asset_directory(path: Seq<u8>) -> bool {
    occurs_at(path, "page-assets/".spec_bytes(), true, 0) || occurs_at(
        path,
        "page_assets/".spec_bytes(),
        true,
        0,
    )
}

/// The answer for a decoded path: the path itself where it lies in the
/// directory of page assets.
pub open spec fn checked_path(decoded: Option<Seq<char>>) -> Result<Seq<char>, AssetError> {
    match decoded {
        None => Err(AssetError::UndecodablePath),
        Some(path) => if in_asset_directory(encode_utf8(path)) {
            Ok(path)
        } else {
            Err(AssetError::OutsideAssets)
        },
    }
}

/// The path of the asset that a URI asks for, relative to the data directory.
pub open spec fn asset_path_of(uri: Seq<u8>) -> Result<Seq<char>, AssetError> {
    match encoded_path_start(uri) {
        None => Err(AssetError::InvalidUri),
        Some(start) => checked_path(
            percent_decoded(decode_utf8(uri.subrange(start, uri.len() as int))),
        ),
    }
}

/// The value of the outcome of a request.
pub open spec fn outcome_of(r: Result<String, AssetError>) -> Result<Seq<char>, AssetError> {
    match r {
        Ok(path) => Ok(path@),
        Err(e) => Err(e),
    }
}

/// Tests whether `prefix` stands at the very start of `s`.
fn starts_with(s: &[u8], prefix: &str) -> (r: bool)
    ensures
        r == occurs_at(s@, prefix.spec_bytes(), true, 0),
{
    let p = prefix.as_bytes();
    if p.len() > s.len() {
        return false;
    }
    matches_at(s, p, true, 0)
}

/// Skips every repetition of `prefix` from `from` on.
fn skip_all(s: &[u8], prefix: &str, from: usize) -> (r: usize)
    requires
        from <= s@.len(),
        valid_utf8(s@),
        is_char_boundary(s@, from as int),
    ensures
        r == skip_repeated(s@, prefix.spec_bytes(), from as int),
        from <= r <= s@.len(),
        is_char_boundary(s@, r as int),
{
    let p = prefix.as_bytes();
    let n: usize = s.len();
    let m: usize = p.len();
    let mut at: usize = from;
    proof {
        encode_utf8_valid_utf8(prefix@);
    }
    while m > 0 && n - at >= m && matches_at(s, p, true, at)
        invariant
            n == s@.len(),
            m == p@.len(),
            p@ == prefix.spec_bytes(),
            valid_utf8(s@),
            valid_utf8(p@),
            from <= at <= n,
            is_char_boundary(s@, at as int),
            skip_repeated(s@, p@, at as int) == skip_repeated(s@, p@, from as int),
        decreases n - at,
    {
        proof {
            lemma_occurrence_on_boundaries(s@, p@, true, at as int);
        }
        at += m;
    }
    at
}

/// Decides on a path once its percent escapes are decoded: a path that
/// could not be decoded is refused, and so is one outside the directory of
/// page assets.
pub fn check_decoded(decoded: Option<String>) -> (r: Result<String, AssetError>)
    ensures
        outcome_of(r) == checked_path(text_of(decoded)),
{
    match decoded {
        None => Err(AssetError::UndecodablePath),
        Some(path) => {
            let inside = {
                let bytes = path.as_str().as_bytes();
                starts_with(bytes, "page-assets/") || starts_with(bytes, "page_assets/")
            };
            if inside {
                Ok(path)
            } else {
                Err(AssetError::OutsideAssets)
            }
        },
    }
}

/// Finds the path of the asset that a request asks for. The URI must hold
/// `://` exactly once; what follows it, without any leading `localhost` and
/// leading slashes, is the percent-encoded path, which must lead into
/// `page-assets/` or `page_assets/`.
pub fn asset_path(uri: &str) -> (r: Result<String, AssetError>)
    ensures
        outcome_of(r) == asset_path_of(uri.spec_bytes()),
{
    let bytes = uri.as_bytes();
    let n: usize = bytes.len();
    let separators = find_all_matches(uri, "://", true, false);
    if separators.len() != 1 {
        return Err(AssetError::InvalidUri);
    }
    proof {
        encode_utf8_valid_utf8(uri@);
        encode_utf8_valid_utf8("://"@);
        is_char_boundary_start_end_of_seq(bytes@);
        lemma_spans_below_sound(bytes@, "://".spec_bytes(), true, false, n as int);
        lemma_occurrence_on_boundaries(
            bytes@,
            "://".spec_bytes(),
            true,
            separators@[0].0 as int,
        );
    }
    let behind: usize = separators[0].1;
    let host_end = skip_all(bytes, "localhost", behind);
    let start = skip_all(bytes, "/", host_end);
    let encoded = slice_between(uri, start, n);
    proof {
        encode_utf8_decode_utf8(encoded@);
    }
    check_decoded(percent_decode(encoded))
}

/// The value of an optional text slice.
pub open spec fn slice_text_of(text: Option<&str>) -> Option<Seq<char>> {
    match text {
        Some(t) => Some(t@),
        None => None,
    }
}

/// The media type that goes with a file extension. The extension counts as it
/// is written; one that is unknown, or missing, gives the type of plain bytes.
pub open spec fn media_type_of(extension: Option<Seq<char>>) -> Seq<char> {
    match extension {
        Some(e) => if e == "png"@ {
            "image/png"@
        } else if e == "jpg"@ || e == "jpeg"@ {
            "image/jpeg"@
        } else if e == "webp"@ {
            "image/webp"@
        } else if e == "gif"@ {
            "image/gif"@
        } else if e == "svg"@ {
            "image/svg+xml"@
        } else if e == "ico"@ {
            "image/x-icon"@
        } else {
            "application/octet-stream"@
        },
        None => "application/octet-stream"@,
    }
}

/// Gives the media type under which a file with the given extension is served.
pub fn get_type(extension: Option<&str>) -> (r: &'static str)
    ensures
        r@ == media_type_of(slice_text_of(extension)),
{
    match extension {
        Some(e) => {
            if same_text(e, "png") {
                "image/png"
            } else if same_text(e, "jpg") || same_text(e, "jpeg") {
                "image/jpeg"
            } else if same_text(e, "webp") {
                "image/webp"
            } else if same_text(e, "gif") {
                "image/gif"
            } else if same_text(e, "svg") {
                "image/svg+xml"
            } else if same_text(e, "ico") {
                "image/x-icon"
            } else {
                "application/octet-stream"
            }
        },
        None => "application/octet-stream",
    }
}

/// Which of the two assets of a page a request names: the icon where it says
/// `icon`, and the cover for anything else.
pub open spec fn names_icon(asset_type: Seq<char>) -> bool {
    asset_type == "icon"@
}

/// The column of the page table that holds the assets of the given type.
pub fn asset_column(asset_type: &str) -> (r: &'static str)
    ensures
        r@ == if names_icon(asset_type@) {
            "icon"@
        } else {
            "cover"@
        },
{
    if same_text(asset_type, "icon") {
        "icon"
    } else {
        "cover"
    }
}

/// The asset that a page gives up when it takes a new one of the given type:
/// the file it has so far, unless it has none or the new one goes by the same name.
pub open spec fn stale_asset_of(page: Page, asset_type: Seq<char>, new_name: Seq<char>) -> Option<
    Seq<char>,
> {
    let held = if names_icon(asset_type) {
        page.icon
    } else {
        page.cover
    };
    match held {
        Some(name) => if name@ == new_name {
            None
        } else {
            Some(name@)
        },
        None => None,
    }
}

/// Finds the file that becomes superfluous for a page once `new_name` is its
/// icon or cover. Whether the file may be deleted is for the caller to
/// decide, who knows what other pages use.
pub fn stale_asset(page: &Page, asset_type: &str, new_name: &str) -> (r: Option<String>)
    ensures
        text_of(r) == stale_asset_of(*page, asset_type@, new_name@),
{
    let held = if same_text(asset_type, "icon") {
        &page.icon
    } else {
        &page.cover
    };
    match held {
        Some(name) => if same_text(name.as_str(), new_name) {
            None
        } else {
            Some(name.clone())
        },
        None => None,
    }
}

} // verus!
