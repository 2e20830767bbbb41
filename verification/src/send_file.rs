//! Sending files: conditions, ranges and content types.
use crate::items::optional_text;
use crate::outside::{
    byte_views, charset_of, ends_in_quotes, fits_header, guess_charset, guess_mime, header_all,
    header_values, http_date, if_match, if_modified_since, if_none_match, if_range,
    if_unmodified_since, is_header_text, is_hyphenated_id, is_plain_tag, is_tag_byte, is_text,
    last_modified_text, looks_like_text, mime_of, modified_since, no_tag_matches,
    random_hyphenated_id, range_outdated, tag_matches, tags_readable, unmodified_since,
    value_readable, HTTP_DATE_END,
};
use crate::request::{first_text, first_value, header, header_str, optional_ranges};
use crate::response::{Body, BodyView, Response, ResponseView, Source};
use crate::text::{chars_of, decimal, decimal_text, has_prefix, starts_with};
use hyper::header::HeaderValue;
use hyper::HeaderMap;
use vstd::prelude::*;
use vstd::string::*;
use vstd::utf8::*;

verus! {

/// How many bytes from the start of a file tell what it holds.
pub const SAMPLE_SIZE: usize = 1024;

/// What is known of a file that is to be sent.
#[derive(Debug)]
pub struct FileFacts {
    /// Its name, where it is text.
    pub name: Option<String>,
    pub size: u64,
    /// When it was last modified, in seconds and nanoseconds from the start of 1970, where that is
    /// known.
    pub mtime: Option<(u64, u32)>,
    /// Its first bytes, at most as many as tell what it holds.
    pub sample: Vec<u8>,
}

/// What is known of a file that is to be sent.
pub struct FileView {
    pub name: Option<Seq<char>>,
    pub size: u64,
    pub mtime: Option<(u64, u32)>,
    pub sample: Seq<u8>,
}

impl View for FileFacts {
    type V = FileView;

    open spec fn view(&self) -> FileView {
        FileView {
            name: optional_text(self.name),
            size: self.size,
            mtime: self.mtime,
            sample: self.sample@,
        }
    }
}

/// A time in milliseconds, as far as sixty-four bits hold them.
pub open spec fn millis_of(time: (u64, u32)) -> u64 {
    ((time.0 as int * 1000 + time.1 as int / 1000000) % 0x1_0000_0000_0000_0000) as u64
}

/// A time in milliseconds from the start of 1970; zero for a time before.
pub open spec fn timestamp(time: Option<(u64, u32)>) -> u64 {
    match time {
        Some(t) => millis_of(t),
        None => 0,
    }
}

/// A time, given in seconds and nanoseconds from the start of 1970, in milliseconds; zero for a time
/// before.
pub fn to_timestamp(time: Option<(u64, u32)>) -> (r: u64)
    ensures
        r == timestamp(time),
{
    match time {
        Some((secs, nanos)) => {
            let millis: u128 = secs as u128 * 1000 + (nanos / 1000000) as u128;
            (millis % 0x1_0000_0000_0000_0000) as u64
        },
        None => 0,
    }
}

/// The entity tag of a file: when it was modified, and its size.
pub open spec fn etag_of(timestamp: u64, size: u64) -> Seq<char> {
    "\""@ + decimal_text(timestamp as nat) + "-"@ + decimal_text(size as nat) + "\""@
}

/// A number in decimal is made of digits.
proof fn lemma_decimal_digits(n: nat)
    ensures
        decimal_text(n).len() > 0,
        forall|i: int| 0 <= i < decimal_text(n).len() ==> '0' <= #[trigger] decimal_text(n)[i] <= '9',
    decreases n,
{
    if n >= 10 {
        lemma_decimal_digits(n / 10);
    }
}

/// The entity tag of a file holds digits and a hyphen.
proof fn lemma_etag_is_plain(timestamp: u64, size: u64)
    ensures
        is_plain_tag(etag_of(timestamp, size)),
{
    reveal_strlit("\"");
    reveal_strlit("-");
    lemma_decimal_digits(timestamp as nat);
    lemma_decimal_digits(size as nat);
    let s = etag_of(timestamp, size);
    let a = decimal_text(timestamp as nat);
    let b = decimal_text(size as nat);
    assert forall|i: int| 1 <= i < s.len() - 1 implies '0' <= #[trigger] s[i] <= '9' || s[i] == '-' by {
        if i < 1 + a.len() {
            assert(s[i] == a[i - 1]);
        } else if i == 1 + a.len() {
            assert(s[i] == '-');
        } else {
            assert(s[i] == b[i - 2 - a.len()]);
        }
    }
}

/// The entity tag of a file.
fn etag_text(timestamp: u64, size: u64) -> (r: String)
    ensures
        r@ == etag_of(timestamp, size),
        is_plain_tag(r@),
{
    let mut tag = String::from_str("\"");
    tag.append(decimal(timestamp).as_str());
    tag.append("-");
    tag.append(decimal(size).as_str());
    tag.append("\"");
    proof {
        lemma_etag_is_plain(timestamp, size);
    }
    tag
}

/// The entity tag of a file and the second it was last modified at, where that is known.
pub open spec fn cache_headers(file: FileView) -> Option<(Seq<char>, u64)> {
    match file.mtime {
        Some(t) => Some((etag_of(millis_of(t), file.size), t.0)),
        None => None,
    }
}

/// The entity tag of a file and the second it was last modified at, where that is known.
pub fn extract_cache_headers(file: &FileFacts) -> (r: Option<(String, u64)>)
    ensures
        match r {
            Some((tag, secs)) => cache_headers(file@) == Some((tag@, secs)) && is_plain_tag(tag@),
            None => cache_headers(file@) is None,
        },
{
    match file.mtime {
        Some((secs, nanos)) => {
            Some((etag_text(to_timestamp(Some((secs, nanos))), file.size), secs))
        },
        None => None,
    }
}

/// The status with which conditions end a request: that one of them does not hold, or that the client
/// has the file already. Each condition is there or not; where it is, it says whether the file is as old
/// as wanted, has the wanted tag, is newer than a date, and has none of the given tags.
pub open spec fn outcome_status(
    unmodified: Option<bool>,
    matched: Option<bool>,
    modified: Option<bool>,
    unmatched: Option<bool>,
) -> Option<u16> {
    if unmodified == Some(false) || matched == Some(false) {
        Some(412)
    } else if modified == Some(false) || unmatched == Some(false) {
        Some(304)
    } else {
        None
    }
}

/// The status with which conditions end a request, where they do.
pub fn settle_conditions(
    unmodified: Option<bool>,
    matched: Option<bool>,
    modified: Option<bool>,
    unmatched: Option<bool>,
) -> (r: Option<u16>)
    ensures
        r == outcome_status(unmodified, matched, modified, unmatched),
{
    if let Some(passes) = unmodified {
        if !passes {
            return Some(412);
        }
    }
    if let Some(passes) = matched {
        if !passes {
            return Some(412);
        }
    }
    if let Some(newer) = modified {
        if !newer {
            return Some(304);
        }
    }
    if let Some(passes) = unmatched {
        if !passes {
            return Some(304);
        }
    }
    None
}

/// The status with which the conditions of a request for a file with an entity tag, last modified at a
/// second, end it.
pub open spec fn condition_status(
    headers: HeaderMap<HeaderValue>,
    tag: Seq<char>,
    secs: u64,
) -> Option<u16> {
    outcome_status(
        unmodified_since(header_values(headers, "if-unmodified-since"@), secs),
        tag_matches(header_values(headers, "if-match"@), tag),
        modified_since(header_values(headers, "if-modified-since"@), secs),
        no_tag_matches(header_values(headers, "if-none-match"@), tag),
    )
}

/// Whether a request makes no condition.
pub open spec fn unconditional(headers: HeaderMap<HeaderValue>) -> bool {
    &&& header_values(headers, "if-unmodified-since"@).len() == 0
    &&& header_values(headers, "if-match"@).len() == 0
    &&& header_values(headers, "if-modified-since"@).len() == 0
    &&& header_values(headers, "if-none-match"@).len() == 0
}

/// Whether the one condition of a request is that the file has an entity tag.
pub open spec fn only_if_match(headers: HeaderMap<HeaderValue>, tag: Seq<char>) -> bool {
    &&& header_values(headers, "if-unmodified-since"@).len() == 0
    &&& header_values(headers, "if-match"@) == seq![encode_utf8(tag)]
    &&& header_values(headers, "if-modified-since"@).len() == 0
    &&& header_values(headers, "if-none-match"@).len() == 0
}

/// Whether what the value of a header holds inside quotes may stand in entity tags, and whether a
/// quote stays open at its end.
fn read_value(value: &Vec<u8>) -> (r: (bool, bool))
    ensures
        r.0 == value_readable(value@),
        r.0 ==> r.1 == ends_in_quotes(value@),
{
    let mut quoted = false;
    let mut i: usize = 0;
    assert(value@.take(0) =~= Seq::<u8>::empty());
    while i < value.len()
        invariant
            i <= value.len(),
            quoted == ends_in_quotes(value@.take(i as int)),
            forall|j: int|
                0 <= j < i && ends_in_quotes(#[trigger] value@.take(j)) ==> is_tag_byte(value@[j]),
        decreases value.len() - i,
    {
        let b: u8 = value[i];
        if quoted && !(0x21 <= b && b <= 0x7e || 0x80 <= b) {
            assert(!value_readable(value@));
            return (false, false);
        }
        if b == 0x22 {
            quoted = !quoted;
        }
        assert(value@.take(i as int + 1).drop_last() =~= value@.take(i as int));
        i = i + 1;
    }
    assert(value@.take(i as int) =~= value@);
    (true, quoted)
}

/// Whether what the values under a name hold inside quotes may stand in entity tags.
fn values_readable(headers: &HeaderMap<HeaderValue>, name: &str) -> (r: bool)
    ensures
        r == tags_readable(header_values(*headers, name@)),
{
    let values = header_all(headers, name);
    let ghost all = header_values(*headers, name@);
    assert(all.len() == values@.len());
    let mut i: usize = 0;
    while i < values.len()
        invariant
            i <= values.len(),
            all == header_values(*headers, name@),
            all == byte_views(values@),
            all.len() == values@.len(),
            forall|j: int|
                0 <= j < i ==> value_readable(#[trigger] all[j]) && (j < all.len() - 1
                    ==> !ends_in_quotes(all[j])),
        decreases values.len() - i,
    {
        assert(all[i as int] == values@[i as int]@);
        let (readable, open) = read_value(&values[i]);
        if !readable || (open && i < values.len() - 1) {
            return false;
        }
        i = i + 1;
    }
    true
}

/// Whether the conditions of a request can be read: no blank stands in an entity tag. What the ranges
/// depend on counts only where the request asks for ranges.
pub open spec fn readable_conditions(headers: HeaderMap<HeaderValue>) -> bool {
    &&& tags_readable(header_values(headers, "if-match"@))
    &&& tags_readable(header_values(headers, "if-none-match"@))
    &&& offers_ranges(headers) && first_value(headers, "if-range"@) is Some ==> value_readable(
        first_value(headers, "if-range"@)->0,
    )
}

/// Whether the conditions of a request can be read.
pub fn conditions_readable(headers: &HeaderMap<HeaderValue>) -> (r: bool)
    ensures
        r == readable_conditions(*headers),
{
    if !values_readable(headers, "if-match") || !values_readable(headers, "if-none-match") {
        return false;
    }
    if has_byte_ranges(headers) {
        if let Some(value) = header(headers, "if-range") {
            return read_value(&value).0;
        }
    }
    true
}

/// A value with a byte that no file's entity tag holds in place of each blank inside quotes.
pub open spec fn masked(value: Seq<u8>) -> Seq<u8> {
    Seq::new(
        value.len(),
        |i: int|
            if ends_in_quotes(value.take(i)) && !is_tag_byte(value[i]) {
                0x21
            } else {
                value[i]
            },
    )
}

/// The values of a header as one value, with a comma and a blank between them.
pub open spec fn joined_values(values: Seq<Seq<u8>>) -> Seq<u8>
    decreases values.len(),
{
    if values.len() == 0 {
        Seq::empty()
    } else if values.len() == 1 {
        values[0]
    } else {
        joined_values(values.drop_last()) + seq![0x2Cu8, 0x20] + values.last()
    }
}

/// Masking opens and closes no quotes.
proof fn lemma_masked_quotes(value: Seq<u8>, n: int)
    requires
        0 <= n <= value.len(),
    ensures
        ends_in_quotes(masked(value).take(n)) == ends_in_quotes(value.take(n)),
    decreases n,
{
    if n > 0 {
        lemma_masked_quotes(value, n - 1);
        assert(masked(value).take(n).drop_last() =~= masked(value).take(n - 1));
        assert(value.take(n).drop_last() =~= value.take(n - 1));
        assert(masked(value).take(n).last() == masked(value)[n - 1]);
        assert(value.take(n).last() == value[n - 1]);
    }
}

/// A masked value can be read.
proof fn lemma_masked_is_readable(value: Seq<u8>)
    ensures
        value_readable(masked(value)),
        value_readable(value) ==> masked(value) == value,
{
    let m = masked(value);
    assert forall|i: int| 0 <= i < m.len() && ends_in_quotes(#[trigger] m.take(i)) implies
        is_tag_byte(m[i]) by {
        lemma_masked_quotes(value, i);
    }
    if value_readable(value) {
        assert(m =~= value);
    }
}

/// The value of a header with its blanks inside quotes masked, so that it can be read. A tag that
/// held one is no file's entity tag before and after.
pub fn mask_blanks(value: &Vec<u8>) -> (r: Vec<u8>)
    ensures
        r@ == masked(value@),
        value_readable(r@),
        value_readable(value@) ==> r@ == value@,
{
    let mut out: Vec<u8> = Vec::new();
    let mut quoted = false;
    let mut i: usize = 0;
    assert(value@.take(0) =~= Seq::<u8>::empty());
    while i < value.len()
        invariant
            i <= value.len(),
            quoted == ends_in_quotes(value@.take(i as int)),
            out@ == masked(value@).take(i as int),
        decreases value.len() - i,
    {
        let b: u8 = value[i];
        if quoted && !(0x21 <= b && b <= 0x7e || 0x80 <= b) {
            out.push(0x21);
        } else {
            out.push(b);
        }
        if b == 0x22 {
            quoted = !quoted;
        }
        proof {
            assert(value@.take(i as int + 1).drop_last() =~= value@.take(i as int));
            assert(out@ =~= masked(value@).take(i as int + 1));
        }
        i = i + 1;
    }
    proof {
        assert(masked(value@).take(i as int) =~= masked(value@));
        lemma_masked_is_readable(value@);
    }
    out
}

/// The values under a name as one value that can be read, with the blanks inside quotes masked;
/// nothing where there are none.
pub fn readable_tags(headers: &HeaderMap<HeaderValue>, name: &str) -> (r: Option<Vec<u8>>)
    ensures
        match r {
            Some(value) => header_values(*headers, name@).len() > 0 && value@ == masked(
                joined_values(header_values(*headers, name@)),
            ) && tags_readable(seq![value@]),
            None => header_values(*headers, name@).len() == 0,
        },
{
    let values = header_all(headers, name);
    let ghost all = header_values(*headers, name@);
    assert(all.len() == values@.len());
    if values.len() == 0 {
        return None;
    }
    let mut whole: Vec<u8> = Vec::new();
    let mut i: usize = 0;
    assert(joined_values(all.take(0)) =~= Seq::<u8>::empty());
    while i < values.len()
        invariant
            i <= values.len(),
            all == byte_views(values@),
            all.len() == values@.len(),
            whole@ == joined_values(all.take(i as int)),
        decreases values.len() - i,
    {
        let ghost before = whole@;
        if i > 0 {
            whole.push(0x2C);
            whole.push(0x20);
        }
        proof {
            assert(all[i as int] == values@[i as int]@);
            assert(all.take(i as int + 1).drop_last() =~= all.take(i as int));
        }
        append_bytes(&mut whole, values[i].as_slice());
        assert(whole@ =~= joined_values(all.take(i as int + 1)));
        i = i + 1;
    }
    assert(all.take(i as int) =~= all);
    Some(mask_blanks(&whole))
}

/// The status with which the conditions of a request end it, where they do.
pub fn check_conditions(headers: &HeaderMap<HeaderValue>, tag: &str, secs: u64) -> (r: Option<u16>)
    requires
        is_plain_tag(tag@),
        secs < HTTP_DATE_END,
        tags_readable(header_values(*headers, "if-match"@)),
        tags_readable(header_values(*headers, "if-none-match"@)),
    ensures
        r == condition_status(*headers, tag@, secs),
        header_values(*headers, "if-unmodified-since"@).len() == 0 && header_values(
            *headers,
            "if-match"@,
        ).len() == 0 ==> {
            &&& header_values(*headers, "if-none-match"@) == seq![encode_utf8(tag@)] ==> r == Some(
                304u16,
            )
            &&& header_values(*headers, "if-modified-since"@) == seq![encode_utf8(http_date(secs))]
                ==> r == Some(304u16)
        },
        unconditional(*headers) ==> r is None,
        only_if_match(*headers, tag@) ==> r is None,
{
    settle_conditions(
        if_unmodified_since(headers, secs),
        if_match(headers, tag),
        if_modified_since(headers, secs),
        if_none_match(headers, tag),
    )
}

/// Whether a request asks for ranges of bytes.
pub open spec fn offers_ranges(headers: HeaderMap<HeaderValue>) -> bool {
    first_text(headers, "range"@) is Some && has_prefix(first_text(headers, "range"@)->0, "bytes="@)
}

/// Whether a request asks for ranges of bytes.
fn has_byte_ranges(headers: &HeaderMap<HeaderValue>) -> (r: bool)
    ensures
        r == offers_ranges(*headers),
{
    match header_str(headers, "range") {
        Some(text) => starts_with(text.as_str(), "bytes="),
        None => false,
    }
}

/// Whether the ranges that a request asks for count.
pub open spec fn ranges_count(headers: HeaderMap<HeaderValue>, file: FileView) -> bool {
    match cache_headers(file) {
        Some((tag, secs)) => offers_ranges(headers) && range_outdated(
            header_values(headers, "if-range"@),
            tag,
            secs,
        ) != Some(true),
        None => true,
    }
}

/// The ranges that are to be sent: nothing where the whole file is, and no list where the ranges
/// that were asked for cannot be had. `parsed` is what the text of the header parses to.
pub open spec fn wanted_ranges(
    headers: HeaderMap<HeaderValue>,
    file: FileView,
    parsed: Option<Seq<(u64, u64)>>,
) -> Option<Option<Seq<(u64, u64)>>> {
    if ranges_count(headers, file) && first_value(headers, "range"@) is Some {
        if first_text(headers, "range"@) is Some {
            Some(parsed)
        } else {
            Some(None)
        }
    } else {
        None
    }
}

/// The content type of a file of a media type, where one is known, and for text of an encoding.
pub open spec fn content_type_text(mime: Option<Seq<char>>, charset: Option<Seq<char>>) -> Seq<char> {
    match charset {
        Some(charset) => match mime {
            Some(mime) => mime + "; charset="@ + charset,
            None => "text/plain; charset="@ + charset,
        },
        None => match mime {
            Some(mime) => mime,
            None => "application/octet-stream"@,
        },
    }
}

/// The content type of a file of a media type, where one is known, and for text of an encoding.
pub fn content_type_from(mime: Option<String>, charset: Option<String>) -> (r: String)
    ensures
        r@ == content_type_text(optional_text(mime), optional_text(charset)),
{
    match charset {
        Some(charset) => {
            let mut out = match mime {
                Some(mime) => {
                    let mut out = mime;
                    out.append("; charset=");
                    out
                },
                None => String::from_str("text/plain; charset="),
            };
            out.append(charset.as_str());
            out
        },
        None => match mime {
            Some(mime) => mime,
            None => String::from_str("application/octet-stream"),
        },
    }
}

/// The content type of a file, from its name and its first bytes.
pub open spec fn content_type_of(name: Seq<char>, sample: Seq<u8>) -> Seq<char> {
    content_type_text(
        mime_of(name),
        if looks_like_text(sample) {
            Some(charset_of(sample, sample.len() < SAMPLE_SIZE))
        } else {
            None
        },
    )
}

/// The content type of a file, from its name and its first bytes.
pub fn get_content_type(name: &str, sample: &Vec<u8>) -> (r: String)
    ensures
        r@ == content_type_of(name@, sample@),
{
    let charset: Option<String> = if is_text(sample.as_slice()) {
        Some(guess_charset(sample.as_slice(), sample.len() < SAMPLE_SIZE))
    } else {
        None
    };
    content_type_from(guess_mime(name), charset)
}

/// A character of a file name as it may stand in a header.
pub open spec fn header_char(c: char) -> char {
    if (c <= '\u{1f}' || c == '\u{7f}') && c != '\t' {
        ' '
    } else {
        c
    }
}

/// A file name as it may stand in a header.
pub open spec fn header_name(name: Seq<char>) -> Seq<char> {
    name.map_values(|c: char| header_char(c))
}

/// Whether every character of a text is ASCII.
pub open spec fn all_ascii(s: Seq<char>) -> bool {
    forall|i: int| 0 <= i < s.len() ==> #[trigger] s[i] <= '\u{7f}'
}

/// The header that says under which name a file is saved; `encoded` is the name encoded for a URI.
pub open spec fn disposition(inline: bool, name: Seq<char>, encoded: Seq<char>) -> Seq<char> {
    let kind = if inline {
        "inline"@
    } else {
        "attachment"@
    };
    let plain = kind + "; filename=\""@ + header_name(name) + "\""@;
    if all_ascii(header_name(name)) {
        plain
    } else {
        plain + "; filename*=UTF-8''"@ + encoded
    }
}

/// Says under which name the reply is saved. Nothing is done, and the result is false, where the name
/// cannot stand in a header.
pub fn set_content_disposition<E: Fn(&str) -> String>(
    res: &mut Response,
    inline: bool,
    filename: &str,
    encode_uri: &E,
) -> (r: bool)
    requires
        forall|p: &str| call_requires(encode_uri, (p,)),
    ensures
        exists|p: &str, e: String|
            p@ == header_name(filename@) && #[trigger] call_ensures(encode_uri, (p,), e) && r
                == is_header_text(disposition(inline, filename@, e@)) && final(res)@ == if r {
                old(res)@.header("content-disposition"@, disposition(inline, filename@, e@))
            } else {
                old(res)@
            },
{
    let chars = chars_of(filename);
    let mut name = String::new();
    let mut ascii = true;
    let mut i: usize = 0;
    while i < chars.len()
        invariant
            i <= chars.len(),
            chars@ == filename@,
            name@ == header_name(filename@).take(i as int),
            ascii == all_ascii(header_name(filename@).take(i as int)),
        decreases chars.len() - i,
    {
        let c: char = chars[i];
        let h: char = if (c <= '\u{1f}' || c == '\u{7f}') && c != '\t' {
            ' '
        } else {
            c
        };
        proof {
            let all = header_name(filename@);
            assert(all[i as int] == h);
            assert(all.take(i as int + 1) =~= all.take(i as int).push(h));
            if h <= '\u{7f}' {
                if ascii {
                    assert forall|j: int| 0 <= j < i + 1 implies #[trigger] all.take(i as int + 1)[j]
                        <= '\u{7f}' by {
                        if j < i {
                            assert(all.take(i as int)[j] <= '\u{7f}');
                        }
                    }
                } else {
                    let j = choose|j: int|
                        0 <= j < all.take(i as int).len() && !(#[trigger] all.take(i as int)[j]
                            <= '\u{7f}');
                    assert(!(all.take(i as int + 1)[j] <= '\u{7f}'));
                }
            } else {
                assert(!(all.take(i as int + 1)[i as int] <= '\u{7f}'));
            }
        }
        name.push(h);
        if h > '\u{7f}' {
            ascii = false;
        }
        i = i + 1;
    }
    assert(header_name(filename@).take(i as int) =~= header_name(filename@));
    let encoded = encode_uri(name.as_str());
    let mut value = if inline {
        String::from_str("inline")
    } else {
        String::from_str("attachment")
    };
    value.append("; filename=\"");
    value.append(name.as_str());
    value.append("\"");
    if !ascii {
        value.append("; filename*=UTF-8''");
        value.append(encoded.as_str());
    }
    assert(value@ =~= disposition(inline, filename@, encoded@));
    if !fits_header(value.as_str()) {
        return false;
    }
    res.set_header("content-disposition", value.as_str());
    true
}

/// What is to be done to send a file.
#[derive(Debug, Clone, Copy, PartialEq, Eq, Structural)]
pub enum SendStep {
    /// The reply is complete.
    Reply,
    /// The request failed.
    Fail,
    /// Read the ranges and put them together.
    Parts,
}

/// The place of a range in a file of a size.
pub open spec fn content_range(range: (u64, u64), size: u64) -> Seq<char> {
    "bytes "@ + decimal_text(range.0 as nat) + "-"@ + decimal_text(range.1 as nat) + "/"@
        + decimal_text(size as nat)
}

/// The place of a range in a file of a size.
fn range_text(start: u64, end: u64, size: u64) -> (r: String)
    ensures
        r@ == content_range((start, end), size),
{
    let mut out = String::from_str("bytes ");
    out.append(decimal(start).as_str());
    out.append("-");
    out.append(decimal(end).as_str());
    out.append("/");
    out.append(decimal(size).as_str());
    out
}

/// Whether the lengths of ranges can be computed.
pub open spec fn proper_ranges(ranges: Option<Seq<(u64, u64)>>) -> bool {
    ranges is Some ==> forall|i: int|
        0 <= i < ranges->0.len() ==> (#[trigger] ranges->0[i]).0 <= ranges->0[i].1
            && ranges->0[i].1 - ranges->0[i].0 < u64::MAX
}

/// The reply with what lets a client keep the file.
pub open spec fn cached(res: ResponseView, file: FileView) -> ResponseView {
    match cache_headers(file) {
        Some((tag, secs)) => res.header("cache-control"@, "no-cache"@).header(
            "last-modified"@,
            http_date(secs),
        ).header("etag"@, tag),
        None => res,
    }
}

/// The reply with what says what the file is.
pub open spec fn described(res: ResponseView, file: FileView, encoded: Seq<char>) -> ResponseView {
    cached(res, file).header("content-type"@, content_type_of(file.name->0, file.sample)).header(
        "content-disposition"@,
        disposition(true, file.name->0, encoded),
    ).header("accept-ranges"@, "bytes"@)
}

/// What of a file is to be sent.
#[derive(Debug)]
pub enum Wanted {
    Whole,
    Ranges(Vec<(u64, u64)>),
    /// Ranges that cannot be had.
    Unsatisfiable,
}

/// What of a file is to be sent: nothing for the whole, no list for ranges that cannot be had.
pub open spec fn wanted_view(wanted: Wanted) -> Option<Option<Seq<(u64, u64)>>> {
    match wanted {
        Wanted::Whole => None,
        Wanted::Ranges(list) => Some(Some(list@)),
        Wanted::Unsatisfiable => Some(None),
    }
}

/// The reply that sends a file of a size, or ranges of it, and what is to be done for it.
pub open spec fn body_sent(
    res: ResponseView,
    size: u64,
    wanted: Option<Option<Seq<(u64, u64)>>>,
    head_only: bool,
) -> (ResponseView, SendStep) {
    match wanted {
        Some(Some(ranges)) => if ranges.len() == 1 {
            let len = (ranges[0].1 - ranges[0].0 + 1) as u64;
            let part = res.status(206).header(
                "content-range"@,
                content_range(ranges[0], size),
            ).header("content-length"@, decimal_text(len as nat));
            if head_only {
                (part, SendStep::Reply)
            } else {
                (
                    part.body(BodyView::Stream(Source::FileRange { start: ranges[0].0, len })),
                    SendStep::Reply,
                )
            }
        } else {
            (res.status(206), SendStep::Parts)
        },
        Some(None) => (
            res.status(416).header("content-range"@, "bytes */"@ + decimal_text(size as nat)),
            SendStep::Reply,
        ),
        None => {
            let full = res.header("content-length"@, decimal_text(size as nat));
            if head_only {
                (full, SendStep::Reply)
            } else {
                (full.body(BodyView::Stream(Source::File)), SendStep::Reply)
            }
        },
    }
}

/// Sends a file of a size, or ranges of it.
pub fn send_body(size: u64, wanted: &Wanted, head_only: bool, res: &mut Response) -> (r: SendStep)
    requires
        wanted matches Wanted::Ranges(list) ==> proper_ranges(Some(list@)),
    ensures
        (final(res)@, r) == body_sent(old(res)@, size, wanted_view(*wanted), head_only),
{
    match wanted {
        Wanted::Ranges(list) => {
            res.status = 206;
            if list.len() != 1 {
                return SendStep::Parts;
            }
            let start: u64 = list[0].0;
            let end: u64 = list[0].1;
            assert(Some(list@)->0[0] == (start, end));
            let len: u64 = end - start + 1;
            res.set_header("content-range", range_text(start, end, size).as_str());
            res.set_header("content-length", decimal(len).as_str());
            if !head_only {
                res.body = Body::Stream(Source::FileRange { start, len });
            }
        },
        Wanted::Unsatisfiable => {
            let mut unsatisfied = String::from_str("bytes */");
            unsatisfied.append(decimal(size).as_str());
            res.status = 416;
            res.set_header("content-range", unsatisfied.as_str());
        },
        Wanted::Whole => {
            res.set_header("content-length", decimal(size).as_str());
            if !head_only {
                res.body = Body::Stream(Source::File);
            }
        },
    }
    SendStep::Reply
}

/// The reply that sends a file, and what is to be done for it. `parsed` is what the ranges that the
/// request asks for parse to, `encoded` is the name of the file encoded for a URI.
pub open spec fn sent(
    res: ResponseView,
    file: FileView,
    headers: HeaderMap<HeaderValue>,
    parsed: Option<Seq<(u64, u64)>>,
    head_only: bool,
    encoded: Seq<char>,
) -> (ResponseView, SendStep) {
    body_sent(
        described(res, file, encoded),
        file.size,
        wanted_ranges(headers, file, parsed),
        head_only,
    )
}

/// The status with which the conditions of a request end the sending of a file.
pub open spec fn refused_status(file: FileView, headers: HeaderMap<HeaderValue>) -> Option<u16> {
    match cache_headers(file) {
        Some((tag, secs)) => condition_status(headers, tag, secs),
        None => None,
    }
}

/// Whether a file can be sent: its name is text, and what is said of it can stand in headers.
pub open spec fn sendable(file: FileView, encoded: Seq<char>) -> bool {
    &&& file.name is Some
    &&& is_header_text(content_type_of(file.name->0, file.sample))
    &&& is_header_text(disposition(true, file.name->0, encoded))
}

/// Sends a file: says in the reply what it is, and which part of it is the body. `ranges` is what the
/// ranges that the request asks for parse to. A client that sends back the entity tag of the file, or
/// the date of its last change, is told that it has the file already. A request without conditions, or
/// only for the file with its own entity tag, is not refused.
pub fn handle_send_file<E: Fn(&str) -> String>(
    file: &FileFacts,
    headers: &HeaderMap<HeaderValue>,
    ranges: &Option<Vec<(u64, u64)>>,
    head_only: bool,
    encode_uri: &E,
    res: &mut Response,
) -> (r: SendStep)
    requires
        forall|p: &str| call_requires(encode_uri, (p,)),
        file.mtime matches Some((secs, _)) ==> secs < HTTP_DATE_END,
        proper_ranges(optional_ranges(*ranges)),
        file.mtime is Some ==> readable_conditions(*headers),
    ensures
        match refused_status(file@, *headers) {
            Some(status) => r == SendStep::Reply && final(res)@ == old(res)@.status(status),
            None => if file@.name is None || !is_header_text(
                content_type_of(file@.name->0, file@.sample),
            ) {
                r == SendStep::Fail
            } else {
                exists|p: &str, e: String|
                    p@ == header_name(file@.name->0) && #[trigger] call_ensures(
                        encode_uri,
                        (p,),
                        e,
                    ) && if sendable(file@, e@) {
                        (final(res)@, r) == sent(
                            old(res)@,
                            file@,
                            *headers,
                            optional_ranges(*ranges),
                            head_only,
                            e@,
                        )
                    } else {
                        r == SendStep::Fail
                    }
            },
        },
        cache_headers(file@) matches Some((tag, secs)) ==> header_values(
            *headers,
            "if-unmodified-since"@,
        ).len() == 0 && header_values(*headers, "if-match"@).len() == 0 && (header_values(
            *headers,
            "if-none-match"@,
        ) == seq![encode_utf8(tag)] || header_values(*headers, "if-modified-since"@)
            == seq![encode_utf8(http_date(secs))]) ==> r == SendStep::Reply && final(res)@
            == old(res)@.status(304),
        unconditional(*headers) ==> refused_status(file@, *headers) is None,
        cache_headers(file@) matches Some((tag, _)) ==> only_if_match(*headers, tag)
            ==> refused_status(file@, *headers) is None,
{
    let ghost before = res@;
    let mut use_range = true;
    match extract_cache_headers(file) {
        Some((tag, secs)) => {
            match check_conditions(headers, tag.as_str(), secs) {
                Some(status) => {
                    res.status = status;
                    return SendStep::Reply;
                },
                None => {},
            }
            res.set_header("cache-control", "no-cache");
            res.set_header("last-modified", last_modified_text(secs).as_str());
            res.set_header("etag", tag.as_str());
            use_range =
            has_byte_ranges(headers) && match if_range(headers, tag.as_str(), secs) {
                Some(outdated) => !outdated,
                None => true,
            };
        },
        None => {},
    }
    assert(use_range == ranges_count(*headers, file@));
    assert(res@ == cached(before, file@));
    let name = match &file.name {
        Some(name) => name,
        None => {
            return SendStep::Fail;
        },
    };
    let content_type = get_content_type(name.as_str(), &file.sample);
    if !fits_header(content_type.as_str()) {
        return SendStep::Fail;
    }
    res.set_header("content-type", content_type.as_str());
    if !set_content_disposition(res, true, name.as_str(), encode_uri) {
        return SendStep::Fail;
    }
    res.set_header("accept-ranges", "bytes");
    let ghost (_, encoded) = choose|p: &str, e: String|
        p@ == header_name(file@.name->0) && #[trigger] call_ensures(encode_uri, (p,), e)
            && is_header_text(disposition(true, file@.name->0, e@)) && res@ == described(
            before,
            file@,
            e@,
        );
    let wanted: Wanted = if use_range && header(headers, "range").is_some() {
        match (header_str(headers, "range"), ranges) {
            (Some(_), Some(list)) => Wanted::Ranges(copy_ranges(list)),
            _ => Wanted::Unsatisfiable,
        }
    } else {
        Wanted::Whole
    };
    send_body(file.size, &wanted, head_only, res)
}

/// A copy of a list of ranges.
fn copy_ranges(ranges: &Vec<(u64, u64)>) -> (r: Vec<(u64, u64)>)
    ensures
        r@ == ranges@,
{
    let mut out: Vec<(u64, u64)> = Vec::new();
    let mut i: usize = 0;
    while i < ranges.len()
        invariant
            i <= ranges.len(),
            out@ == ranges@.take(i as int),
        decreases ranges.len() - i,
    {
        out.push(ranges[i]);
        i = i + 1;
        assert(out@ =~= ranges@.take(i as int));
    }
    assert(ranges@.take(i as int) =~= ranges@);
    out
}

/// One range of a file as a part of a body with several.
pub open spec fn part_bytes(
    boundary: Seq<char>,
    content_type: Seq<char>,
    size: u64,
    range: (u64, u64),
    data: Seq<u8>,
) -> Seq<u8> {
    encode_utf8(
        "--"@ + boundary + "\r\nContent-Type: "@ + content_type + "\r\nContent-Range: "@
            + content_range(range, size) + "\r\n\r\n"@,
    ) + data + encode_utf8("\r\n"@)
}

/// The parts of a body with several ranges, one after the other.
pub open spec fn parts_bytes(
    boundary: Seq<char>,
    content_type: Seq<char>,
    size: u64,
    ranges: Seq<(u64, u64)>,
    data: Seq<Seq<u8>>,
) -> Seq<u8>
    decreases ranges.len(),
{
    if ranges.len() == 0 {
        Seq::empty()
    } else {
        parts_bytes(boundary, content_type, size, ranges.drop_last(), data.drop_last())
            + part_bytes(boundary, content_type, size, ranges.last(), data.last())
    }
}

/// A body with several ranges.
pub open spec fn multipart_bytes(
    boundary: Seq<char>,
    content_type: Seq<char>,
    size: u64,
    ranges: Seq<(u64, u64)>,
    data: Seq<Seq<u8>>,
) -> Seq<u8> {
    parts_bytes(boundary, content_type, size, ranges, data) + encode_utf8(
        "--"@ + boundary + "--\r\n"@,
    )
}

/// Appends bytes.
fn append_bytes(out: &mut Vec<u8>, bytes: &[u8])
    ensures
        final(out)@ == old(out)@ + bytes@,
{
    let mut i: usize = 0;
    assert(out@ =~= old(out)@ + bytes@.take(0));
    while i < bytes.len()
        invariant
            i <= bytes.len(),
            out@ == old(out)@ + bytes@.take(i as int),
        decreases bytes.len() - i,
    {
        out.push(bytes[i]);
        assert(bytes@.take(i as int + 1) =~= bytes@.take(i as int).push(bytes@[i as int]));
        i = i + 1;
        assert(out@ =~= old(out)@ + bytes@.take(i as int));
    }
    assert(bytes@.take(i as int) =~= bytes@);
}

/// The body with several ranges of a file: `data` holds the bytes of each range.
pub fn multipart_body(
    boundary: &str,
    content_type: &str,
    size: u64,
    ranges: &Vec<(u64, u64)>,
    data: &Vec<Vec<u8>>,
) -> (r: Vec<u8>)
    requires
        ranges@.len() == data@.len(),
    ensures
        r@ == multipart_bytes(boundary@, content_type@, size, ranges@, byte_views(data@)),
{
    let ghost views = byte_views(data@);
    let mut body: Vec<u8> = Vec::new();
    let mut i: usize = 0;
    assert(body@ =~= parts_bytes(boundary@, content_type@, size, ranges@.take(0), views.take(0)));
    while i < ranges.len()
        invariant
            i <= ranges.len(),
            ranges@.len() == data@.len(),
            views == byte_views(data@),
            body@ == parts_bytes(
                boundary@,
                content_type@,
                size,
                ranges@.take(i as int),
                views.take(i as int),
            ),
        decreases ranges.len() - i,
    {
        let mut head = String::from_str("--");
        head.append(boundary);
        head.append("\r\nContent-Type: ");
        head.append(content_type);
        head.append("\r\nContent-Range: ");
        head.append(range_text(ranges[i].0, ranges[i].1, size).as_str());
        head.append("\r\n\r\n");
        let ghost before = body@;
        append_bytes(&mut body, head.as_str().as_bytes());
        append_bytes(&mut body, data[i].as_slice());
        append_bytes(&mut body, "\r\n".as_bytes());
        proof {
            let r = ranges@.take(i as int + 1);
            let v = views.take(i as int + 1);
            assert(r.drop_last() =~= ranges@.take(i as int));
            assert(v.drop_last() =~= views.take(i as int));
            assert(v.last() == data@[i as int]@);
            assert(body@ =~= before + part_bytes(boundary@, content_type@, size, r.last(), v.last()));
        }
        i = i + 1;
    }
    proof {
        assert(ranges@.take(i as int) =~= ranges@);
        assert(views.take(i as int) =~= views);
    }
    let mut end = String::from_str("--");
    end.append(boundary);
    end.append("--\r\n");
    append_bytes(&mut body, end.as_str().as_bytes());
    body
}

/// The reply that sends several ranges of a file.
pub open spec fn parts_sent(
    res: ResponseView,
    boundary: Seq<char>,
    body: Seq<u8>,
    head_only: bool,
) -> ResponseView {
    let full = res.header("content-type"@, "multipart/byteranges; boundary="@ + boundary).header(
        "content-length"@,
        decimal_text(body.len()),
    );
    if head_only {
        full
    } else {
        full.body(BodyView::Bytes(body))
    }
}

/// Puts several ranges of a file, whose bytes `data` holds, into the reply, with a text between them
/// that is not in use elsewhere.
pub fn send_parts_with(
    boundary: &str,
    file: &FileFacts,
    ranges: &Vec<(u64, u64)>,
    data: &Vec<Vec<u8>>,
    head_only: bool,
    res: &mut Response,
)
    requires
        file.name is Some,
        ranges@.len() == data@.len(),
    ensures
        final(res)@ == parts_sent(
            old(res)@,
            boundary@,
            multipart_bytes(
                boundary@,
                content_type_of(file@.name->0, file@.sample),
                file.size,
                ranges@,
                byte_views(data@),
            ),
            head_only,
        ),
{
    if let Some(name) = &file.name {
        let content_type = get_content_type(name.as_str(), &file.sample);
        let body = multipart_body(boundary, content_type.as_str(), file.size, ranges, data);
        let mut kind = String::from_str("multipart/byteranges; boundary=");
        kind.append(boundary);
        res.set_header("content-type", kind.as_str());
        res.set_header("content-length", decimal(body.len() as u64).as_str());
        if !head_only {
            res.body = Body::Bytes(body);
        }
    }
}

/// Puts several ranges of a file, whose bytes `data` holds, into the reply, with a random text between
/// them.
pub fn send_parts(
    file: &FileFacts,
    ranges: &Vec<(u64, u64)>,
    data: &Vec<Vec<u8>>,
    head_only: bool,
    res: &mut Response,
)
    requires
        file.name is Some,
        ranges@.len() == data@.len(),
    ensures
        exists|boundary: Seq<char>|
            #[trigger] is_hyphenated_id(boundary) && final(res)@ == parts_sent(
                old(res)@,
                boundary,
                multipart_bytes(
                    boundary,
                    content_type_of(file@.name->0, file@.sample),
                    file.size,
                    ranges@,
                    byte_views(data@),
                ),
                head_only,
            ),
{
    let boundary = random_hyphenated_id();
    send_parts_with(boundary.as_str(), file, ranges, data, head_only, res);
}

/// How many bytes a body has, where it is in memory or a part of a file.
pub open spec fn body_length(body: BodyView) -> Option<nat> {
    match body {
        BodyView::Bytes(bytes) => Some(bytes.len()),
        BodyView::Text(text) => Some(encode_utf8(text).len()),
        BodyView::Stream(Source::FileRange { start, len }) => Some(len as nat),
        _ => None,
    }
}

/// The length that the reply to a request for ranges announces is the length of its body, and the
/// body of a single range is the range.
pub proof fn law_range_length_is_announced(
    res: ResponseView,
    file: FileView,
    headers: HeaderMap<HeaderValue>,
    ranges: Seq<(u64, u64)>,
    encoded: Seq<char>,
    boundary: Seq<char>,
    body: Seq<u8>,
)
    requires
        wanted_ranges(headers, file, Some(ranges)) == Some(Some(ranges)),
        proper_ranges(Some(ranges)),
    ensures
        ranges.len() == 1 ==> {
            let reply = sent(res, file, headers, Some(ranges), false, encoded).0;
            &&& reply.status == 206
            &&& body_length(reply.body) == Some((ranges[0].1 - ranges[0].0 + 1) as nat)
            &&& reply.headers["content-length"@] == decimal_text(body_length(reply.body)->0)
        },
        ranges.len() != 1 ==> {
            let reply = parts_sent(res, boundary, body, false);
            &&& body_length(reply.body) == Some(body.len())
            &&& reply.headers["content-length"@] == decimal_text(body_length(reply.body)->0)
        },
{
    if ranges.len() == 1 {
        assert(ranges[0].0 <= ranges[0].1);
    }
}

/// A request for the head of a file is answered with the status and the headers of the request for
/// the file, and no body.
pub proof fn law_head_is_answered_alike(
    res: ResponseView,
    file: FileView,
    headers: HeaderMap<HeaderValue>,
    parsed: Option<Seq<(u64, u64)>>,
    encoded: Seq<char>,
)
    ensures
        ({
            let head = sent(res, file, headers, parsed, true, encoded);
            let full = sent(res, file, headers, parsed, false, encoded);
            &&& head.0.status == full.0.status
            &&& head.0.headers == full.0.headers
            &&& head.1 == full.1
            &&& head.0.body == res.body
        }),
{
}

/// A file that is not refused is sent whole to a request without ranges: the reply keeps its status,
/// announces the size of the file, and carries the entity tag that a later request may name.
pub proof fn law_whole_file_is_sent(
    res: ResponseView,
    file: FileView,
    headers: HeaderMap<HeaderValue>,
    parsed: Option<Seq<(u64, u64)>>,
    head_only: bool,
    encoded: Seq<char>,
)
    requires
        header_values(headers, "range"@).len() == 0,
    ensures
        ({
            let (reply, step) = sent(res, file, headers, parsed, head_only, encoded);
            &&& step == SendStep::Reply
            &&& reply.status == res.status
            &&& reply.headers.contains_pair("content-length"@, decimal_text(file.size as nat))
            &&& !head_only ==> reply.body == BodyView::Stream(Source::File)
            &&& cache_headers(file) matches Some((tag, _)) ==> reply.headers.contains_pair(
                "etag"@,
                tag,
            )
        }),
{
    reveal_strlit("etag");
    reveal_strlit("content-type");
    reveal_strlit("content-disposition");
    reveal_strlit("accept-ranges");
    reveal_strlit("content-length");
    assert("etag"@.len() < "content-type"@.len());
    assert("etag"@.len() < "content-disposition"@.len());
    assert("etag"@.len() < "accept-ranges"@.len());
    assert("etag"@.len() < "content-length"@.len());
}

} // verus!
