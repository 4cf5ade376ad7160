//! Outside types and calls that the library relies on.

use vstd::prelude::*;

verus! {

/// `uuid::Uuid`, carried through the model as an opaque identifier.
#[verifier::external_type_specification]
#[verifier::external_body]
pub struct ExUuid(uuid::Uuid);

/// `serde_json::Value`, a JSON value carried through the model.
#[verifier::external_type_specification]
#[verifier::external_body]
pub struct ExJsonValue(serde_json::Value);

/// Calls `<uuid::Uuid as PartialEq>::eq`, which the crate derives: two
/// identifiers are equal exactly when they are the same value.
#[verifier::external_body]
pub(crate) fn uuid_eq(a: &uuid::Uuid, b: &uuid::Uuid) -> (r: bool)
    ensures
        r == (*a == *b),
{
    a == b
}

/// Calls `uuid::Uuid::new_v4`, which returns a random identifier: nothing is
/// promised of the value.
#[verifier::external_body]
pub(crate) fn new_v4_uuid() -> (id: uuid::Uuid) {
    uuid::Uuid::new_v4()
}

/// The UUID that `<uuid::Uuid as FromStr>::from_str` reads from the text, or
/// `None` where it reads none; a function of the text alone.
pub uninterp spec fn uuid_of(s: Seq<char>) -> Option<uuid::Uuid>;

/// Calls `<uuid::Uuid as FromStr>::from_str`, which reads a UUID in one of
/// its text forms; the result is the one that `uuid_of` names for the text.
#[verifier::external_body]
pub(crate) fn parse_uuid(s: &str) -> (r: Option<uuid::Uuid>)
    ensures
        r == uuid_of(s@),
{
    <uuid::Uuid as std::str::FromStr>::from_str(s).ok()
}

/// The text that `uuid::Uuid`'s `Display` writes for an identifier, its
/// hyphenated lower-case form; a function of the identifier alone.
pub uninterp spec fn uuid_string(id: uuid::Uuid) -> Seq<char>;

/// Calls `ToString::to_string` on a `uuid::Uuid`, which goes through its
/// `Display` (the hyphenated lower-case form); the text is the one that
/// `uuid_string` names.
#[verifier::external_body]
pub(crate) fn uuid_text(id: &uuid::Uuid) -> (r: String)
    ensures
        r@ == uuid_string(*id),
{
    id.to_string()
}

/// `url::Url`, a parsed URL.
#[verifier::external_type_specification]
#[verifier::external_body]
pub struct ExUrl(url::Url);

/// Whether `url::Url::parse` accepts the text; a function of the text alone.
pub uninterp spec fn url_parses(s: Seq<char>) -> bool;

/// The path segments that `url::Url::path_segments` gives for the URL parsed
/// from the text; a function of the text alone.
pub uninterp spec fn url_segments(s: Seq<char>) -> Option<Seq<Seq<char>>>;

/// The decoded query pairs that `url::Url::query_pairs` gives for the URL
/// parsed from the text, in order; a function of the text alone.
pub uninterp spec fn url_pairs(s: Seq<char>) -> Seq<(Seq<char>, Seq<char>)>;

/// A URL as the `url` crate parsed it, with the text it was parsed from.
pub struct ParsedUrl {
    url: url::Url,
    text: String,
}

impl View for ParsedUrl {
    type V = Seq<char>;

    /// The text the URL was parsed from.
    closed spec fn view(&self) -> Seq<char> {
        self.text@
    }
}

/// Calls `url::Url::parse`, which parses an absolute URL; the result is
/// `Some` exactly when the text parses.
#[verifier::external_body]
fn parse_url_raw(s: &str) -> (r: Option<url::Url>)
    ensures
        r is Some <==> url_parses(s@),
{
    url::Url::parse(s).ok()
}

/// Parses the text as a URL; `Some` exactly when it parses, and then the
/// parsed URL remembers the text.
pub fn parse_url(s: &str) -> (r: Option<ParsedUrl>)
    ensures
        r is Some <==> url_parses(s@),
        r matches Some(u) ==> u@ == s@,
{
    match parse_url_raw(s) {
        Some(url) => Some(ParsedUrl { url, text: String::from_str(s) }),
        None => None,
    }
}

/// The text of each string, in order.
pub open spec fn texts(v: Seq<String>) -> Seq<Seq<char>> {
    v.map_values(|x: String| x@)
}

/// The text of each pair of strings, in order.
pub open spec fn text_pairs(v: Seq<(String, String)>) -> Seq<(Seq<char>, Seq<char>)> {
    v.map_values(|p: (String, String)| (p.0@, p.1@))
}

/// Calls `url::Url::path_segments`, which splits the path after its leading
/// `/` at every `/`, or gives `None` for a URL that cannot be a base. The
/// segments are those that `url_segments` names for the parsed text.
#[verifier::external_body]
pub(crate) fn url_path_segments(u: &ParsedUrl) -> (r: Option<Vec<String>>)
    ensures
        match r {
            Some(v) => url_segments(u@) == Some(texts(v@)),
            None => url_segments(u@) is None,
        },
{
    u.url.path_segments().map(|segments| segments.map(|s| s.to_string()).collect())
}

/// Calls `url::Url::query_pairs`, which decodes the query into its
/// `key=value` pairs, in order. The pairs are those that `url_pairs` names
/// for the parsed text.
#[verifier::external_body]
pub(crate) fn url_query_pairs(u: &ParsedUrl) -> (r: Vec<(String, String)>)
    ensures
        text_pairs(r@) == url_pairs(u@),
{
    u.url.query_pairs().map(|(k, v)| (k.into_owned(), v.into_owned())).collect()
}

} // verus!
