//! The calls that this library makes into other crates, and into the parts of
//! std that come without a specification. Nothing in this file is proved:
//! each contract says what the called code is taken to do.

use vstd::prelude::*;

verus! {

/// Appends one character to a string. The body is std's `String::push`, which
/// is taken to add `c` at the end and change nothing else.
#[verifier::external_body]
pub(crate) fn push_char(s: &mut String, c: char)
    ensures
        final(s)@ == old(s)@.push(c),
{
    s.push(c);
}

/// Whether the version `version` satisfies the requirement `req`, as semver
/// decides it; `false` where one of the two cannot be parsed.
pub uninterp spec fn semver_matches(req: Seq<char>, version: Seq<char>) -> bool;

/// Asks semver: `VersionReq::parse`, `Version::parse`, `VersionReq::matches`.
/// The answer depends on the two texts alone. A text that does not parse
/// gives `false`.
#[verifier::external_body]
pub(crate) fn version_matches(req: &str, version: &str) -> (r: bool)
    ensures
        r == semver_matches(req@, version@),
{
    match (semver::VersionReq::parse(req), semver::Version::parse(version)) {
        (Ok(req), Ok(version)) => req.matches(&version),
        _ => false,
    }
}

/// The parts of a parsed URL that this library reads.
#[derive(Debug, PartialEq, Eq)]
pub struct UrlParts {
    pub scheme: String,
    pub domain: Option<String>,
    pub path: String,
    /// The pairs of the query string, decoded, in their order.
    pub query: Vec<(String, String)>,
    pub fragment: Option<String>,
    /// The URL written out without its query string and fragment.
    pub location: String,
}

pub struct UrlPartsView {
    pub scheme: Seq<char>,
    pub domain: Option<Seq<char>>,
    pub path: Seq<char>,
    pub query: Seq<(Seq<char>, Seq<char>)>,
    pub fragment: Option<Seq<char>>,
    pub location: Seq<char>,
}

impl DeepView for UrlParts {
    type V = UrlPartsView;

    open spec fn deep_view(&self) -> UrlPartsView {
        UrlPartsView {
            scheme: self.scheme@,
            domain: self.domain.deep_view(),
            path: self.path@,
            query: self.query.deep_view(),
            fragment: self.fragment.deep_view(),
            location: self.location@,
        }
    }
}

impl View for UrlParts {
    type V = UrlPartsView;

    open spec fn view(&self) -> UrlPartsView {
        self.deep_view()
    }
}

/// What the url crate makes of a text: its parts, or nothing where the text is no URL.
pub uninterp spec fn url_parts(text: Seq<char>) -> Option<UrlPartsView>;

/// Parses a text with the url crate (`Url::parse`) and reads the parts off
/// the result (`scheme`, `domain`, `path`, `query_pairs`, `fragment`, and
/// the text left by `set_query(None)` and `set_fragment(None)`). What comes
/// back depends on the text alone.
#[verifier::external_body]
pub(crate) fn parse_url(text: &str) -> (r: Option<UrlParts>)
    ensures
        r.deep_view() == url_parts(text@),
{
    let mut url = url::Url::parse(text).ok()?;
    let scheme = url.scheme().to_string();
    let domain = url.domain().map(|d| d.to_string());
    let path = url.path().to_string();
    let query = url.query_pairs().map(|(k, v)| (k.into_owned(), v.into_owned())).collect();
    let fragment = url.fragment().map(|f| f.to_string());
    url.set_query(None);
    url.set_fragment(None);
    Some(UrlParts { scheme, domain, path, query, fragment, location: url.to_string() })
}

/// The relative path that pathdiff gives from `base` to `path`, where it gives one.
pub uninterp spec fn path_difference(path: Seq<char>, base: Seq<char>) -> Option<Seq<char>>;

/// Asks pathdiff (`diff_paths`) for the way from `base` to `path`. It walks
/// the components of the two paths and touches no file system, so the
/// result depends on the two texts alone.
#[verifier::external_body]
pub(crate) fn diff_paths(path: &str, base: &str) -> (r: Option<String>)
    ensures
        r.deep_view() == path_difference(path@, base@),
{
    pathdiff::diff_paths(path, base).map(|p| p.to_string_lossy().into_owned())
}

/// What is left of `path` once the leading components `base` are taken off,
/// where `path` begins with them.
pub uninterp spec fn path_without_prefix(path: Seq<char>, base: Seq<char>) -> Option<Seq<char>>;

/// Takes the components of `base` off the front of `path` (std's
/// `Path::strip_prefix`); nothing where `path` does not begin with them.
#[verifier::external_body]
pub(crate) fn strip_path_prefix(path: &str, base: &str) -> (r: Option<String>)
    ensures
        r.deep_view() == path_without_prefix(path@, base@),
{
    std::path::Path::new(path).strip_prefix(base).ok().map(|p| p.to_string_lossy().into_owned())
}

/// The path without its last component, where it has a parent.
pub uninterp spec fn path_parent(path: Seq<char>) -> Option<Seq<char>>;

/// The directory that holds `path` (std's `Path::parent`).
#[verifier::external_body]
pub(crate) fn parent_of(path: &str) -> (r: Option<String>)
    ensures
        r.deep_view() == path_parent(path@),
{
    std::path::Path::new(path).parent().map(|p| p.to_string_lossy().into_owned())
}

/// The last component of a path, where it is a name.
pub uninterp spec fn path_file_name(path: Seq<char>) -> Option<Seq<char>>;

/// The last component of `path` (std's `Path::file_name`).
#[verifier::external_body]
pub(crate) fn file_name_of(path: &str) -> (r: Option<String>)
    ensures
        r.deep_view() == path_file_name(path@),
{
    std::path::Path::new(path).file_name().map(|n| n.to_string_lossy().into_owned())
}

/// The string that a JSON document holds under the key `field`, where the
/// document is an object and holds a string there.
pub uninterp spec fn json_field(json: Seq<char>, field: Seq<char>) -> Option<Seq<char>>;

/// Reads a JSON document with serde_json (`from_str` into a `Value`) and
/// takes the string under `field` out of it (`Value::get`, `Value::as_str`).
/// Nothing comes back where the text is no JSON, where it has no such
/// field, or where the field holds no string.
#[verifier::external_body]
pub(crate) fn json_text_field(json: &str, field: &str) -> (r: Option<String>)
    ensures
        r.deep_view() == json_field(json@, field@),
{
    let value: serde_json::Value = serde_json::from_str(json).ok()?;
    value.get(field)?.as_str().map(|text| text.to_string())
}

/// A text in lower case, as std's `str::to_lowercase` gives it.
pub uninterp spec fn lowercase_of(text: Seq<char>) -> Seq<char>;

/// Puts a text in lower case (std's `str::to_lowercase`, which goes by the
/// Unicode property Lowercase and looks at the text alone).
#[verifier::external_body]
pub(crate) fn to_lowercase(text: &str) -> (r: String)
    ensures
        r@ == lowercase_of(text@),
{
    text.to_lowercase()
}

/// The value of a hexadecimal digit; 16 for every other character.
pub open spec fn hex_value(c: char) -> int {
    if '0' <= c && c <= '9' {
        c as int - '0' as int
    } else if 'a' <= c && c <= 'f' {
        c as int - 'a' as int + 10
    } else if 'A' <= c && c <= 'F' {
        c as int - 'A' as int + 10
    } else {
        16
    }
}

/// Whether a text is made of pairs of hexadecimal digits.
pub open spec fn is_hex(text: Seq<char>) -> bool {
    text.len() % 2 == 0 && forall|i: int| 0 <= i < text.len() ==> hex_value(#[trigger] text[i]) < 16
}

/// The bytes that pairs of hexadecimal digits spell, the first digit of a pair counting sixteenfold.
pub open spec fn hex_bytes(text: Seq<char>) -> Seq<u8> {
    Seq::new(text.len() / 2, |i: int| (hex_value(text[2 * i]) * 16 + hex_value(text[2 * i + 1])) as u8)
}

/// Decodes pairs of hexadecimal digits into bytes with the hex crate
/// (`hex::decode`). Digits of both cases count. Nothing comes back where
/// the number of characters is odd or one of them is no digit.
#[verifier::external_body]
pub(crate) fn hex_decode(text: &str) -> (r: Option<Vec<u8>>)
    ensures
        r is Some <==> is_hex(text@),
        r matches Some(bytes) ==> bytes@ == hex_bytes(text@),
{
    hex::decode(text).ok()
}

/// Bytes in the base 32 notation of nix, as the nix-base32 crate writes them.
pub uninterp spec fn nix_base32(bytes: Seq<u8>) -> Seq<char>;

/// Writes bytes in the base 32 notation of nix (`nix_base32::to_nix_base32`).
/// The crate computes a length from the number of bytes less one bit, and
/// so cannot take an empty input.
#[verifier::external_body]
pub(crate) fn to_nix_base32(bytes: &Vec<u8>) -> (r: String)
    requires
        0 < bytes.len() <= usize::MAX / 8,
    ensures
        r@ == nix_base32(bytes@),
{
    nix_base32::to_nix_base32(bytes)
}

} // verus!
