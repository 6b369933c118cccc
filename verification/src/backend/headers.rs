//! HTTP headers in a `HeaderMap` of the HTTP client.

use vstd::prelude::*;

use crate::text::{ascii_lower, opt_view};

verus! {

/// `reqwest::header::HeaderMap`, the collection of headers that a request is
/// sent with.
#[verifier::external_type_specification]
#[verifier::external_body]
#[verifier::reject_recursive_types(T)]
pub struct ExHeaderMap<T>(reqwest::header::HeaderMap<T>);

/// `reqwest::header::HeaderValue`, what the map holds under a name.
#[verifier::external_type_specification]
#[verifier::external_body]
pub struct ExHeaderValue(reqwest::header::HeaderValue);

/// The map of the headers of a request.
pub type Headers = reqwest::header::HeaderMap<reqwest::header::HeaderValue>;

/// The value of a header, and whether it is kept out of debug output.
pub struct HeaderEntry {
    pub value: Seq<char>,
    pub sensitive: bool,
}

/// The headers that a map holds, by their lowercase names.
pub uninterp spec fn header_contents(
    map: reqwest::header::HeaderMap<reqwest::header::HeaderValue>,
) -> Map<Seq<char>, HeaderEntry>;

/// No headers at all.
pub open spec fn no_entries() -> Map<Seq<char>, HeaderEntry> {
    Map::empty()
}

/// Whether `c` may stand in the name of a header.
pub open spec fn is_name_char(c: char) -> bool {
    ||| '0' <= c <= '9'
    ||| 'a' <= c <= 'z'
    ||| 'A' <= c <= 'Z'
    ||| c == '!' || c == '#' || c == '$' || c == '%' || c == '&' || c == '\''
    ||| c == '*' || c == '+' || c == '-' || c == '.' || c == '^' || c == '_'
    ||| c == '`' || c == '|' || c == '~'
}

/// The name under which a map files a header called `name`.
pub open spec fn header_name_of(name: Seq<char>) -> Option<Seq<char>> {
    if 0 < name.len() <= 65_535 && forall|k: int|
        0 <= k < name.len() ==> is_name_char(#[trigger] name[k]) {
        Some(name.map_values(|c: char| ascii_lower(c)))
    } else {
        None
    }
}

/// Whether `value` may be the value of a header.
pub open spec fn is_header_value(value: Seq<char>) -> bool {
    forall|k: int|
        0 <= k < value.len() ==> (' ' <= #[trigger] value[k] && value[k] != '\u{7f}') || value[k]
            == '\t'
}

/// `HeaderName::from_bytes`: a name is refused where it is empty, longer than
/// 65535 bytes, or holds anything but letters, digits and the punctuation that
/// HTTP allows in a token; letters are turned into lower case.
#[verifier::external_body]
pub(crate) fn header_name(name: &str) -> (r: Option<String>)
    ensures
        opt_view(r) == header_name_of(name@),
{
    reqwest::header::HeaderName::from_bytes(name.as_bytes()).ok().map(|n| n.as_str().to_string())
}

/// `HeaderValue::from_str`: a value is refused where one of its bytes is a
/// control character other than a tab.
#[verifier::external_body]
pub(crate) fn header_value(value: &str) -> (r: bool)
    ensures
        r == is_header_value(value@),
{
    reqwest::header::HeaderValue::from_str(value).is_ok()
}

/// `HeaderMap::new`: the map without headers.
#[verifier::external_body]
pub(crate) fn no_headers() -> (r: Headers)
    ensures
        header_contents(r) == no_entries(),
{
    reqwest::header::HeaderMap::new()
}

/// `HeaderMap::try_insert`, with the value marked by `set_sensitive`: files the
/// value under the lowercase name in place of what was there. It fails only
/// where the map cannot grow any more, which takes more headers than the bound
/// here, and then changes nothing.
#[verifier::external_body]
pub(crate) fn insert_header(map: &mut Headers, name: &str, value: &str, sensitive: bool) -> (r: bool)
    requires
        header_name_of(name@) is Some,
        is_header_value(value@),
    ensures
        r ==> header_contents(*final(map)) == header_contents(*old(map)).insert(
            header_name_of(name@)->0,
            (HeaderEntry { value: value@, sensitive }),
        ),
        !r ==> header_contents(*final(map)) == header_contents(*old(map)),
        header_contents(*old(map)).dom().len() < 6_553 ==> r,
{
    let mut held = reqwest::header::HeaderValue::from_str(value).unwrap();
    held.set_sensitive(sensitive);
    let key = reqwest::header::HeaderName::from_bytes(name.as_bytes()).unwrap();
    map.try_insert(key, held).is_ok()
}

} // verus!
