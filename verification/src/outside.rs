//! What the library has from other crates, each call with the contract that is believed of it.
use base64::Engine;
use chrono::{LocalResult, TimeZone, Utc};
use headers::{
    ETag, HeaderMapExt, IfMatch, IfModifiedSince, IfNoneMatch, IfRange, IfUnmodifiedSince, LastModified,
};
use hyper::header::HeaderValue;
use hyper::{HeaderMap, Uri};
use sha2::Digest;
use std::cmp::Ordering;
use std::time::{Duration, SystemTime};
use vstd::prelude::*;
use vstd::utf8::*;

verus! {

/// Whether a character is a hexadecimal digit in lower case.
pub open spec fn is_lower_hex(c: char) -> bool {
    '0' <= c <= '9' || 'a' <= c <= 'f'
}

/// Whether a text has the form of a random identifier without hyphens: thirty-two lower-case
/// hexadecimal digits, of which the thirteenth tells the version and the seventeenth the variant.
pub open spec fn is_simple_id(s: Seq<char>) -> bool {
    &&& s.len() == 32
    &&& forall|i: int| 0 <= i < 32 ==> is_lower_hex(#[trigger] s[i])
    &&& s[12] == '4'
    &&& s[16] == '8' || s[16] == '9' || s[16] == 'a' || s[16] == 'b'
}

/// Whether a text has the form of a random identifier with hyphens: the digits in groups of eight,
/// four, four, four and twelve.
pub open spec fn is_hyphenated_id(s: Seq<char>) -> bool {
    &&& s.len() == 36
    &&& s[8] == '-' && s[13] == '-' && s[18] == '-' && s[23] == '-'
    &&& is_simple_id(
        s.subrange(0, 8) + s.subrange(9, 13) + s.subrange(14, 18) + s.subrange(19, 23)
            + s.subrange(24, 36),
    )
}

/// `uuid::Uuid::new_v4`, formatted by `simple`: a random identifier without hyphens. Which one it
/// is depends on chance; only its form is claimed.
#[verifier::external_body]
pub(crate) fn random_simple_id() -> (r: String)
    ensures
        is_simple_id(r@),
{
    uuid::Uuid::new_v4().simple().to_string()
}

/// `uuid::Uuid::new_v4`, formatted by `Display`: a random identifier with hyphens. Which one it is
/// depends on chance; only its form is claimed.
#[verifier::external_body]
pub(crate) fn random_hyphenated_id() -> (r: String)
    ensures
        is_hyphenated_id(r@),
{
    uuid::Uuid::new_v4().to_string()
}

/// How `alphanumeric_sort::compare_str` orders two texts.
pub uninterp spec fn alphanumeric_order(a: Seq<char>, b: Seq<char>) -> Ordering;

/// `alphanumeric_sort::compare_str`: compares two texts so that the numbers in them count by their
/// value. The order is a function of the two texts; nothing more is claimed of it.
#[verifier::external_body]
pub(crate) fn alphanumeric_compare(a: &str, b: &str) -> (r: Ordering)
    ensures
        r == alphanumeric_order(a@, b@),
{
    alphanumeric_sort::compare_str(a, b)
}

/// A text in lower case, as `str::to_lowercase` gives it.
pub uninterp spec fn lower_case(s: Seq<char>) -> Seq<char>;

/// `str::to_lowercase`: the lower-case form of a text by the rules of Unicode. The result is a
/// function of the text; nothing more is claimed of it.
#[verifier::external_body]
pub(crate) fn to_lowercase(s: &str) -> (r: String)
    ensures
        r@ == lower_case(s@),
{
    s.to_lowercase()
}

/// What stands for one character in escaped character data.
pub open spec fn escaped_char(c: char) -> Seq<char> {
    if c == '<' {
        seq!['&', 'l', 't', ';']
    } else if c == '>' {
        seq!['&', 'g', 't', ';']
    } else if c == '&' {
        seq!['&', 'a', 'm', 'p', ';']
    } else {
        seq![c]
    }
}

/// A text as escaped character data: `<`, `>` and `&` become entities, everything else stays.
pub open spec fn escaped(s: Seq<char>) -> Seq<char>
    decreases s.len(),
{
    if s.len() == 0 {
        Seq::empty()
    } else {
        escaped(s.drop_last()) + escaped_char(s.last())
    }
}

/// `xml::escape::escape_str_pcdata`: replaces `<`, `>` and `&` by their entities.
#[verifier::external_body]
pub(crate) fn escape_pcdata(s: &str) -> (r: String)
    ensures
        r@ == escaped(s@),
{
    xml::escape::escape_str_pcdata(s).into_owned()
}

/// The format of the dates in WebDAV properties.
pub const DAV_DATE_FORMAT: &'static str = "%a, %d %b %Y %H:%M:%S GMT";

/// A time in milliseconds since the epoch, in UTC and in a given format, where it is one that
/// `chrono` can represent.
pub uninterp spec fn utc_text(millis: i64, format: Seq<char>) -> Option<Seq<char>>;

/// `chrono::TimeZone::timestamp_millis_opt` of `Utc`, and `chrono::DateTime::format` of what it
/// gives: the text of a time, or nothing for a time out of range. The text is a function of the
/// time and the format; nothing more is claimed of it. Other formats than the one that is admitted
/// may have no text.
#[verifier::external_body]
pub(crate) fn format_utc(millis: i64, format: &str) -> (r: Option<String>)
    requires
        format@ == DAV_DATE_FORMAT@,
    ensures
        r is Some <==> utc_text(millis, format@) is Some,
        r is Some ==> Some(r->0@) == utc_text(millis, format@),
{
    match Utc.timestamp_millis_opt(millis) {
        LocalResult::Single(time) => Some(time.format(format).to_string()),
        LocalResult::Ambiguous(..) => None,
        LocalResult::None => None,
    }
}

/// `hyper::HeaderMap`, the headers of a message by name.
#[verifier::external_type_specification]
#[verifier::external_body]
#[verifier::reject_recursive_types(T)]
pub struct ExHeaderMap<T>(HeaderMap<T>);

/// `hyper::header::HeaderValue`, the value of one header.
#[verifier::external_type_specification]
#[verifier::external_body]
pub struct ExHeaderValue(HeaderValue);

/// The values that a header map holds under a name, in their order.
pub uninterp spec fn header_values(headers: HeaderMap<HeaderValue>, name: Seq<char>) -> Seq<Seq<u8>>;

/// The contents of a list of byte vectors.
pub open spec fn byte_views(v: Seq<Vec<u8>>) -> Seq<Seq<u8>> {
    v.map_values(|b: Vec<u8>| b@)
}

/// `hyper::HeaderMap::get_all`: the values under a name, in their order.
#[verifier::external_body]
pub(crate) fn header_all(headers: &HeaderMap<HeaderValue>, name: &str) -> (r: Vec<Vec<u8>>)
    ensures
        byte_views(r@) == header_values(*headers, name@),
{
    headers.get_all(name).iter().map(|v| v.as_bytes().to_vec()).collect()
}

/// Whether a byte may stand in the value of a header.
pub open spec fn is_header_byte(b: u8) -> bool {
    b == 9 || (32 <= b && b != 127)
}

/// Whether a text may be the value of a header.
pub open spec fn is_header_text(s: Seq<char>) -> bool {
    forall|i: int| 0 <= i < encode_utf8(s).len() ==> is_header_byte(#[trigger] encode_utf8(s)[i])
}

/// `hyper::header::HeaderValue::from_str`: succeeds for a text none of whose bytes is a control
/// character other than the tab.
#[verifier::external_body]
pub(crate) fn fits_header(s: &str) -> (r: bool)
    ensures
        r == is_header_text(s@),
{
    HeaderValue::from_str(s).is_ok()
}

/// The byte at a position, or zero after the last one.
pub open spec fn byte_or_zero(bytes: Seq<u8>, i: int) -> int {
    if i < bytes.len() {
        bytes[i] as int
    } else {
        0
    }
}

/// The number that the six bits at a position, counted in steps of six bits, stand for.
pub open spec fn sextet(bytes: Seq<u8>, i: int) -> int {
    let a = byte_or_zero(bytes, i / 4 * 3);
    let b = byte_or_zero(bytes, i / 4 * 3 + 1);
    let c = byte_or_zero(bytes, i / 4 * 3 + 2);
    if i % 4 == 0 {
        a / 4
    } else if i % 4 == 1 {
        a % 4 * 16 + b / 16
    } else if i % 4 == 2 {
        b % 16 * 4 + c / 64
    } else {
        c % 64
    }
}

/// How many characters of base64 bytes need.
pub open spec fn sextet_count(bytes: Seq<u8>) -> nat {
    (8 * bytes.len() + 5) / 6
}

/// The character of base64 for a number below sixty-four; the last two differ between alphabets.
pub open spec fn base64_char(n: int, last: (char, char)) -> char {
    if n < 26 {
        ('A' as u32 + n) as char
    } else if n < 52 {
        ('a' as u32 + (n - 26)) as char
    } else if n < 62 {
        ('0' as u32 + (n - 52)) as char
    } else if n == 62 {
        last.0
    } else {
        last.1
    }
}

/// The encoding of bytes in the URL-safe alphabet of base64, without padding.
pub open spec fn url_base64(bytes: Seq<u8>) -> Seq<char> {
    Seq::new(sextet_count(bytes), |i: int| base64_char(sextet(bytes, i), ('-', '_')))
}

/// The bytes that a text in the URL-safe alphabet of base64, without padding, stands for.
pub uninterp spec fn url_base64_decoded(text: Seq<char>) -> Option<Seq<u8>>;

/// `base64::Engine::encode` of `URL_SAFE_NO_PAD`: the encoding of the bytes; decoding gives them
/// back.
#[verifier::external_body]
pub(crate) fn url_base64_encode(bytes: &[u8]) -> (r: String)
    requires
        bytes@.len() <= usize::MAX / 4,
    ensures
        r@ == url_base64(bytes@),
        url_base64_decoded(r@) == Some(bytes@),
{
    base64::engine::general_purpose::URL_SAFE_NO_PAD.encode(bytes)
}

/// `base64::Engine::decode` of `URL_SAFE_NO_PAD`: the bytes that the text stands for, or nothing
/// where it is not an encoding.
#[verifier::external_body]
pub(crate) fn url_base64_decode(text: &str) -> (r: Option<Vec<u8>>)
    ensures
        match r {
            Some(bytes) => url_base64_decoded(text@) == Some(bytes@),
            None => url_base64_decoded(text@) is None,
        },
{
    base64::engine::general_purpose::URL_SAFE_NO_PAD.decode(text).ok()
}

/// The encoding of bytes in the standard alphabet of base64, with padding.
pub open spec fn standard_base64(bytes: Seq<u8>) -> Seq<char> {
    Seq::new(
        4 * ((bytes.len() + 2) / 3),
        |i: int|
            if i < sextet_count(bytes) {
                base64_char(sextet(bytes, i), ('+', '/'))
            } else {
                '='
            },
    )
}

/// `base64::Engine::encode` of `STANDARD`: the encoding of the bytes.
#[verifier::external_body]
pub(crate) fn standard_base64_encode(bytes: &[u8]) -> (r: String)
    requires
        bytes@.len() <= usize::MAX / 4,
    ensures
        r@ == standard_base64(bytes@),
{
    base64::engine::general_purpose::STANDARD.encode(bytes)
}

/// `String::from_utf8`: the text that the bytes encode, or nothing where they are not UTF-8.
#[verifier::external_body]
pub(crate) fn text_of_utf8(bytes: Vec<u8>) -> (r: Option<String>)
    ensures
        r is Some <==> valid_utf8(bytes@),
        r is Some ==> r->0@ == decode_utf8(bytes@),
{
    String::from_utf8(bytes).ok()
}

/// The names and values of a query string, in their order.
pub uninterp spec fn query_pairs(query: Seq<u8>) -> Seq<(Seq<char>, Seq<char>)>;

/// `form_urlencoded::parse`: the names and values of a query string, decoded. They are a function
/// of the query string; nothing more is claimed of them.
#[verifier::external_body]
pub(crate) fn parse_query_pairs(query: &[u8]) -> (r: Vec<(String, String)>)
    ensures
        crate::string_map::pair_texts(r@) == query_pairs(query@),
{
    form_urlencoded::parse(query).into_owned().collect()
}

/// The path and the query of a text that is a URI.
pub uninterp spec fn uri_parts(text: Seq<char>) -> Option<(Seq<char>, Option<Seq<char>>)>;

/// The texts of the parts of a URI.
pub open spec fn uri_texts(parts: Option<(String, Option<String>)>) -> Option<
    (Seq<char>, Option<Seq<char>>),
> {
    match parts {
        Some((path, Some(query))) => Some((path@, Some(query@))),
        Some((path, None)) => Some((path@, None)),
        None => None,
    }
}

/// `str::parse` for `hyper::Uri`, and `path` and `query` of the result: the path and the query of
/// a text, or nothing where it is not a URI. They are a function of the text; nothing more is
/// claimed of them.
#[verifier::external_body]
pub(crate) fn parse_uri(text: &str) -> (r: Option<(String, Option<String>)>)
    ensures
        uri_texts(r) == uri_parts(text@),
{
    let uri = text.parse::<Uri>().ok()?;
    Some((uri.path().to_string(), uri.query().map(|q| q.to_string())))
}

/// `sha2::Sha256`, a digest that is being computed.
#[verifier::external_type_specification]
#[verifier::external_body]
pub struct ExSha256(sha2::Sha256);

/// The bytes that a digest has been fed.
pub uninterp spec fn absorbed(hasher: sha2::Sha256) -> Seq<u8>;

/// The SHA-256 digest of bytes.
pub uninterp spec fn sha256(bytes: Seq<u8>) -> Seq<u8>;

/// `sha2::Sha256::new`: a digest that has been fed nothing.
#[verifier::external_body]
pub(crate) fn sha256_new() -> (r: sha2::Sha256)
    ensures
        absorbed(r) == Seq::<u8>::empty(),
{
    sha2::Sha256::new()
}

/// `sha2::Digest::update`: feeds bytes after those that came before.
#[verifier::external_body]
pub(crate) fn sha256_update(hasher: &mut sha2::Sha256, bytes: &[u8])
    ensures
        absorbed(*final(hasher)) == absorbed(*old(hasher)) + bytes@,
{
    hasher.update(bytes)
}

/// `sha2::Digest::finalize`: the digest of all that was fed, thirty-two bytes.
#[verifier::external_body]
pub(crate) fn sha256_finalize(hasher: sha2::Sha256) -> (r: Vec<u8>)
    ensures
        r@ == sha256(absorbed(hasher)),
        r@.len() == 32,
{
    hasher.finalize().to_vec()
}

/// The hexadecimal digit, in lower case, of a number below sixteen.
pub open spec fn hex_digit(n: int) -> char {
    if n < 10 {
        ('0' as u32 + n) as char
    } else {
        ('a' as u32 + (n - 10)) as char
    }
}

/// Bytes in hexadecimal, two digits in lower case for each.
pub open spec fn hex_text(bytes: Seq<u8>) -> Seq<char> {
    Seq::new(
        2 * bytes.len(),
        |i: int|
            if i % 2 == 0 {
                hex_digit(bytes[i / 2] as int / 16)
            } else {
                hex_digit(bytes[i / 2] as int % 16)
            },
    )
}

/// `hex::encode`: the bytes in hexadecimal.
#[verifier::external_body]
pub(crate) fn hex_encode(bytes: &[u8]) -> (r: String)
    ensures
        r@ == hex_text(bytes@),
{
    hex::encode(bytes)
}

/// The first second, counted from the start of 1970, that no date of a header can express.
pub const HTTP_DATE_END: u64 = 253402300800;

/// Whether a text is an entity tag of digits and hyphens.
pub open spec fn is_plain_tag(s: Seq<char>) -> bool {
    &&& s.len() >= 2
    &&& s[0] == '"'
    &&& s.last() == '"'
    &&& forall|i: int| 1 <= i < s.len() - 1 ==> '0' <= #[trigger] s[i] <= '9' || s[i] == '-'
}

/// The date of a header for a second counted from the start of 1970.
pub uninterp spec fn http_date(secs: u64) -> Seq<char>;

/// `headers::LastModified`, made from a time and encoded: the date of a header for a second counted
/// from the start of 1970.
#[verifier::external_body]
pub(crate) fn last_modified_text(secs: u64) -> (r: String)
    requires
        secs < HTTP_DATE_END,
    ensures
        r@ == http_date(secs),
{
    let mut map = HeaderMap::new();
    map.typed_insert(LastModified::from(SystemTime::UNIX_EPOCH + Duration::from_secs(secs)));
    map["last-modified"].to_str().unwrap().to_string()
}

/// Whether the values of `if-unmodified-since` hold of a file last modified at a second.
pub uninterp spec fn unmodified_since(values: Seq<Seq<u8>>, secs: u64) -> Option<bool>;

/// `headers::IfUnmodifiedSince::precondition_passes`, of what `typed_get` reads: nothing where there
/// is no such header, or none that can be read. The date of the same second holds.
#[verifier::external_body]
pub(crate) fn if_unmodified_since(headers: &HeaderMap<HeaderValue>, secs: u64) -> (r: Option<bool>)
    requires
        secs < HTTP_DATE_END,
    ensures
        r == unmodified_since(header_values(*headers, "if-unmodified-since"@), secs),
        header_values(*headers, "if-unmodified-since"@).len() == 0 ==> r is None,
        header_values(*headers, "if-unmodified-since"@) == seq![encode_utf8(http_date(secs))] ==> r
            == Some(true),
{
    let time = SystemTime::UNIX_EPOCH + Duration::from_secs(secs);
    headers.typed_get::<IfUnmodifiedSince>().map(|v| v.precondition_passes(time))
}

/// Whether the values of `if-modified-since` say that a file last modified at a second is newer.
pub uninterp spec fn modified_since(values: Seq<Seq<u8>>, secs: u64) -> Option<bool>;

/// `headers::IfModifiedSince::is_modified`, of what `typed_get` reads: nothing where there is no
/// such header, or none that can be read. A file is not newer than the date of its own second.
#[verifier::external_body]
pub(crate) fn if_modified_since(headers: &HeaderMap<HeaderValue>, secs: u64) -> (r: Option<bool>)
    requires
        secs < HTTP_DATE_END,
    ensures
        r == modified_since(header_values(*headers, "if-modified-since"@), secs),
        header_values(*headers, "if-modified-since"@).len() == 0 ==> r is None,
        header_values(*headers, "if-modified-since"@) == seq![encode_utf8(http_date(secs))] ==> r
            == Some(false),
{
    let time = SystemTime::UNIX_EPOCH + Duration::from_secs(secs);
    headers.typed_get::<IfModifiedSince>().map(|v| v.is_modified(time))
}

/// Whether a quote stays open at the end of bytes.
pub open spec fn ends_in_quotes(bytes: Seq<u8>) -> bool
    decreases bytes.len(),
{
    if bytes.len() == 0 {
        false
    } else if bytes.last() == 0x22 {
        !ends_in_quotes(bytes.drop_last())
    } else {
        ends_in_quotes(bytes.drop_last())
    }
}

/// Whether a byte may stand inside an entity tag.
pub open spec fn is_tag_byte(b: u8) -> bool {
    0x21 <= b <= 0x7e || 0x80 <= b
}

/// Whether what a value holds inside quotes may stand in entity tags: no blank is there.
pub open spec fn value_readable(value: Seq<u8>) -> bool {
    forall|i: int|
        0 <= i < value.len() && ends_in_quotes(#[trigger] value.take(i)) ==> is_tag_byte(value[i])
}

/// Whether what the values of a header, put together with commas and blanks between them, hold
/// inside quotes may stand in entity tags.
pub open spec fn tags_readable(values: Seq<Seq<u8>>) -> bool {
    forall|i: int|
        0 <= i < values.len() ==> value_readable(#[trigger] values[i]) && (i < values.len() - 1
            ==> !ends_in_quotes(values[i]))
}

/// Whether the values of `if-match` name an entity tag.
pub uninterp spec fn tag_matches(values: Seq<Seq<u8>>, tag: Seq<char>) -> Option<bool>;

/// `headers::IfMatch::precondition_passes`, of what `typed_get` reads: nothing where there is no
/// such header. A tag matches itself. A blank inside a quoted tag, on which a debug assertion of the
/// crate fails, is left out.
#[verifier::external_body]
pub(crate) fn if_match(headers: &HeaderMap<HeaderValue>, tag: &str) -> (r: Option<bool>)
    requires
        is_plain_tag(tag@),
        tags_readable(header_values(*headers, "if-match"@)),
    ensures
        r == tag_matches(header_values(*headers, "if-match"@), tag@),
        r is None <==> header_values(*headers, "if-match"@).len() == 0,
        header_values(*headers, "if-match"@) == seq![encode_utf8(tag@)] ==> r == Some(true),
{
    let tag = tag.parse::<ETag>().unwrap();
    headers.typed_get::<IfMatch>().map(|v| v.precondition_passes(&tag))
}

/// Whether the values of `if-none-match` name no tag like an entity tag.
pub uninterp spec fn no_tag_matches(values: Seq<Seq<u8>>, tag: Seq<char>) -> Option<bool>;

/// `headers::IfNoneMatch::precondition_passes`, of what `typed_get` reads: nothing where there is no
/// such header. A tag is like itself. A blank inside a quoted tag, on which a debug assertion of the
/// crate fails, is left out.
#[verifier::external_body]
pub(crate) fn if_none_match(headers: &HeaderMap<HeaderValue>, tag: &str) -> (r: Option<bool>)
    requires
        is_plain_tag(tag@),
        tags_readable(header_values(*headers, "if-none-match"@)),
    ensures
        r == no_tag_matches(header_values(*headers, "if-none-match"@), tag@),
        r is None <==> header_values(*headers, "if-none-match"@).len() == 0,
        header_values(*headers, "if-none-match"@) == seq![encode_utf8(tag@)] ==> r == Some(false),
{
    let tag = tag.parse::<ETag>().unwrap();
    headers.typed_get::<IfNoneMatch>().map(|v| v.precondition_passes(&tag))
}

/// Whether the values of `if-range` say that a file with an entity tag, last modified at a second,
/// is another one.
pub uninterp spec fn range_outdated(values: Seq<Seq<u8>>, tag: Seq<char>, secs: u64) -> Option<bool>;

/// `headers::IfRange::is_modified`, of what `typed_get` reads: nothing where there is no such header,
/// or none that can be read; only the first one counts. A tag is not outdated for itself. A blank
/// inside a quoted tag, on which a debug assertion of the crate fails, is left out.
#[verifier::external_body]
pub(crate) fn if_range(headers: &HeaderMap<HeaderValue>, tag: &str, secs: u64) -> (r: Option<bool>)
    requires
        is_plain_tag(tag@),
        header_values(*headers, "if-range"@).len() > 0 ==> value_readable(
            header_values(*headers, "if-range"@)[0],
        ),
        secs < HTTP_DATE_END,
    ensures
        r == range_outdated(header_values(*headers, "if-range"@), tag@, secs),
        header_values(*headers, "if-range"@).len() == 0 ==> r is None,
        header_values(*headers, "if-range"@) == seq![encode_utf8(tag@)] ==> r == Some(false),
{
    let tag = tag.parse::<ETag>().unwrap();
    let time = LastModified::from(SystemTime::UNIX_EPOCH + Duration::from_secs(secs));
    headers.typed_get::<IfRange>().map(|v| v.is_modified(Some(&tag), Some(&time)))
}

/// The media type that the name of a file suggests.
pub uninterp spec fn mime_of(file_name: Seq<char>) -> Option<Seq<char>>;

/// `mime_guess::from_path` of the name of a file, and the first of its guesses, as text: a function
/// of the name; nothing more is claimed of it.
#[verifier::external_body]
pub(crate) fn guess_mime(file_name: &str) -> (r: Option<String>)
    ensures
        crate::items::optional_text(r) == mime_of(file_name@),
{
    mime_guess::from_path(file_name).first().map(|m| m.to_string())
}

/// How many bytes are scanned for a zero.
pub const SCAN_SIZE: usize = 1024;

/// Whether bytes begin with a byte order mark.
pub open spec fn has_byte_order_mark(bytes: Seq<u8>) -> bool {
    ||| seq![0xEFu8, 0xBB, 0xBF].is_prefix_of(bytes)
    ||| seq![0x00u8, 0x00, 0xFE, 0xFF].is_prefix_of(bytes)
    ||| seq![0xFFu8, 0xFE, 0x00, 0x00].is_prefix_of(bytes)
    ||| seq![0xFEu8, 0xFF].is_prefix_of(bytes)
    ||| seq![0xFFu8, 0xFE].is_prefix_of(bytes)
}

/// Whether bytes begin with `%PDF`, or with the byte 0x89 and `PNG`.
pub open spec fn has_magic_number(bytes: Seq<u8>) -> bool {
    ||| seq![0x25u8, 0x50, 0x44, 0x46].is_prefix_of(bytes)
    ||| seq![0x89u8, 0x50, 0x4E, 0x47].is_prefix_of(bytes)
}

/// Whether bytes look like text: they begin with a byte order mark, or there is no zero among those
/// that are scanned and they do not begin with the mark of another kind of file.
pub open spec fn looks_like_text(bytes: Seq<u8>) -> bool {
    has_byte_order_mark(bytes) || !has_magic_number(bytes) && forall|i: int|
        0 <= i < bytes.len() && i < SCAN_SIZE ==> #[trigger] bytes[i] != 0
}

/// `content_inspector::inspect`, and whether it found text: a byte order mark decides for it, else a
/// zero among the first bytes, or the mark of a document or an image, against it.
#[verifier::external_body]
pub(crate) fn is_text(bytes: &[u8]) -> (r: bool)
    ensures
        r == looks_like_text(bytes@),
{
    content_inspector::inspect(bytes).is_text()
}

/// The encoding that bytes seem to have; `last` says that they are all there are.
pub uninterp spec fn charset_of(bytes: Seq<u8>, last: bool) -> Seq<char>;

/// `chardetng::EncodingDetector`, fed the bytes once and asked for the name of its guess: a function
/// of the bytes and of whether they are all there are; nothing more is claimed of it.
#[verifier::external_body]
pub(crate) fn guess_charset(bytes: &[u8], last: bool) -> (r: String)
    ensures
        r@ == charset_of(bytes@, last),
{
    let mut detector = chardetng::EncodingDetector::new(chardetng::Iso2022JpDetection::Allow);
    detector.feed(bytes, last);
    detector.guess(None, chardetng::Utf8Detection::Allow).name().to_string()
}

/// `chrono::Utc::now`, and its seconds from the start of 1970. Nothing is claimed of the time.
#[verifier::external_body]
pub(crate) fn seconds_now() -> (r: i64) {
    Utc::now().timestamp()
}

} // verus!
