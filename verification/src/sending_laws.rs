//! What holds of files that are sent.
use crate::outside::{
    charset_of, ends_in_quotes, header_values, http_date, is_header_text, looks_like_text, mime_of,
    modified_since, no_tag_matches, range_outdated, tag_matches, unmodified_since,
};
use crate::request::{first_text, visible_text};
use crate::response::{BodyView, ResponseView, Source};
use crate::send_file::{
    body_sent, cache_headers, condition_status, content_type_of, described, disposition,
    header_name, masked, multipart_bytes, offers_ranges, only_if_match, outcome_status, part_bytes,
    parts_bytes, parts_sent, refused_status, sendable, sent, timestamp, unconditional, wanted_ranges,
    FileView, SendStep,
};
use crate::text::decimal_text;
use crate::text_laws::{law_decimal, law_decimal_tells_apart, law_prefix_and_rest};
use hyper::header::HeaderValue;
use hyper::HeaderMap;
use vstd::prelude::*;
use vstd::string::*;
use vstd::utf8::*;

verus! {

/// The reply to a request for one range is the bytes of the file from its start to its end, both
/// included, and says which those are, how many, and how large the file is.
pub proof fn law_one_range_is_sent(res: ResponseView, size: u64, start: u64, end: u64)
    requires
        start <= end,
        end - start < u64::MAX,
    ensures
        ({
            let (reply, step) = body_sent(res, size, Some(Some(seq![(start, end)])), false);
            &&& step == SendStep::Reply
            &&& reply.status == 206
            &&& reply.body == BodyView::Stream(
                Source::FileRange { start, len: (end - start + 1) as u64 },
            )
            &&& reply.headers.contains_pair(
                "content-range"@,
                "bytes "@ + decimal_text(start as nat) + "-"@ + decimal_text(end as nat) + "/"@
                    + decimal_text(size as nat),
            )
            &&& reply.headers.contains_pair(
                "content-length"@,
                decimal_text((end - start + 1) as nat),
            )
            &&& reply.cookies == res.cookies && reply.challenge == res.challenge
        }),
        body_sent(res, size, Some(Some(seq![(start, end)])), true).0.body == res.body,
{
    lemma_range_headers();
}

/// The two headers of a range differ.
proof fn lemma_range_headers()
    ensures
        "content-range"@ != "content-length"@,
{
    reveal_strlit("content-range");
    reveal_strlit("content-length");
    assert("content-range"@.len() != "content-length"@.len());
}

/// The whole file is sent with its size, ranges that cannot be had are refused with the size of the
/// file, and several ranges are put together.
pub proof fn law_other_bodies_are_sent(
    res: ResponseView,
    size: u64,
    ranges: Seq<(u64, u64)>,
    head_only: bool,
)
    ensures
        body_sent(res, size, None, head_only) == (
            ResponseView {
                headers: res.headers.insert("content-length"@, decimal_text(size as nat)),
                body: if head_only {
                    res.body
                } else {
                    BodyView::Stream(Source::File)
                },
                ..res
            },
            SendStep::Reply,
        ),
        body_sent(res, size, Some(None), head_only) == (
            ResponseView {
                status: 416,
                headers: res.headers.insert(
                    "content-range"@,
                    "bytes */"@ + decimal_text(size as nat),
                ),
                ..res
            },
            SendStep::Reply,
        ),
        ranges.len() != 1 ==> body_sent(res, size, Some(Some(ranges)), head_only) == (
            ResponseView { status: 206, ..res },
            SendStep::Parts,
        ),
{
}

/// The ranges that a request asks for are sent where it asks for ranges of bytes and its condition on
/// them holds, or where it is not known when the file was modified. A request without a range gets the
/// whole file, and ranges that cannot be parsed are those that cannot be had.
pub proof fn law_ranges_are_honoured(
    headers: HeaderMap<HeaderValue>,
    file: FileView,
    parsed: Option<Seq<(u64, u64)>>,
    rest: Seq<char>,
    tag: Seq<char>,
    secs: u64,
)
    requires
        cache_headers(file) is Some ==> cache_headers(file) == Some((tag, secs)),
    ensures
        ({
            let values = header_values(headers, "range"@);
            let stale = range_outdated(header_values(headers, "if-range"@), tag, secs) == Some(true);
            let wanted = wanted_ranges(headers, file, parsed);
            let readable = values.len() > 0 && visible_text(values[0]) == Some("bytes="@ + rest);
            &&& values.len() == 0 ==> wanted is None
            &&& readable && file.mtime is Some && !stale ==> wanted == Some(parsed)
            &&& readable && file.mtime is Some && stale ==> wanted is None
            &&& readable && file.mtime is None ==> wanted == Some(parsed)
            &&& values.len() > 0 && visible_text(values[0]) is None && file.mtime is Some ==> wanted
                is None
            &&& values.len() > 0 && visible_text(values[0]) is None && file.mtime is None ==> wanted
                == Some(None::<Seq<(u64, u64)>>)
        }),
{
    law_prefix_and_rest("bytes="@ + rest, "bytes="@, rest);
}

/// A request asks for ranges of bytes where its first range header begins so, and only there.
pub proof fn law_only_byte_ranges_count(headers: HeaderMap<HeaderValue>, text: Seq<char>)
    requires
        first_text(headers, "range"@) == Some(text),
        forall|r: Seq<char>| text != #[trigger] ("bytes="@ + r),
    ensures
        !offers_ranges(headers),
{
    law_prefix_and_rest(text, "bytes="@, Seq::empty());
}

/// A file is refused exactly by a condition that does not hold, with the status for that: one of the
/// first two says that it is another file than the client means, one of the last two that the client
/// has it already.
pub proof fn law_conditions_decide(
    unmodified: Option<bool>,
    matched: Option<bool>,
    modified: Option<bool>,
    unmatched: Option<bool>,
)
    ensures
        ({
            let status = outcome_status(unmodified, matched, modified, unmatched);
            let wrong = unmodified == Some(false) || matched == Some(false);
            let known = modified == Some(false) || unmatched == Some(false);
            &&& wrong <==> status == Some(412u16)
            &&& !wrong && known <==> status == Some(304u16)
            &&& !wrong && !known <==> status is None
        }),
{
}

/// The conditions of a request are read from the headers for them, and compared with the tag of the
/// file and the second it was modified at; without a time there are no conditions.
pub proof fn law_conditions_are_read(
    headers: HeaderMap<HeaderValue>,
    file: FileView,
    tag: Seq<char>,
    secs: u64,
)
    ensures
        condition_status(headers, tag, secs) == outcome_status(
            unmodified_since(header_values(headers, "if-unmodified-since"@), secs),
            tag_matches(header_values(headers, "if-match"@), tag),
            modified_since(header_values(headers, "if-modified-since"@), secs),
            no_tag_matches(header_values(headers, "if-none-match"@), tag),
        ),
        file.mtime is None ==> refused_status(file, headers) is None,
        cache_headers(file) == Some((tag, secs)) ==> refused_status(file, headers)
            == condition_status(headers, tag, secs),
{
}

/// The entity tag of a file is made of the time it was modified at, in milliseconds, and of its size.
pub proof fn law_entity_tags(file: FileView, secs: u64, nanos: u32)
    ensures
        file.mtime == Some((secs, nanos)) && secs * 1000 + nanos as int / 1000000 <= u64::MAX
            ==> cache_headers(file) == Some(
            (
                "\""@ + decimal_text((secs * 1000 + nanos as int / 1000000) as nat) + "-"@
                    + decimal_text(file.size as nat) + "\""@,
                secs,
            ),
        ),
        file.mtime is None ==> cache_headers(file) is None,
        secs * 1000 + nanos as int / 1000000 <= u64::MAX ==> timestamp(Some((secs, nanos))) == secs
            * 1000 + nanos as int / 1000000,
        timestamp(None) == 0,
{
}

/// Two versions of a file have the same entity tag only if they have the same size and were modified
/// in the same millisecond.
pub proof fn law_entity_tags_tell_versions_apart(a: FileView, b: FileView)
    requires
        a.mtime is Some,
        b.mtime is Some,
        (cache_headers(a)->0).0 == (cache_headers(b)->0).0,
    ensures
        a.size == b.size,
        timestamp(a.mtime) == timestamp(b.mtime),
{
    reveal_strlit("\"");
    reveal_strlit("-");
    let x = decimal_text(timestamp(a.mtime) as nat);
    let y = decimal_text(timestamp(b.mtime) as nat);
    let p = decimal_text(a.size as nat);
    let q = decimal_text(b.size as nat);
    law_decimal(timestamp(a.mtime) as nat, 0);
    law_decimal(timestamp(b.mtime) as nat, 0);
    law_decimal(a.size as nat, 0);
    law_decimal(b.size as nat, 0);
    let s = (cache_headers(a)->0).0;
    assert(s =~= "\""@ + x + "-"@ + p + "\""@);
    assert(s =~= "\""@ + y + "-"@ + q + "\""@);
    let m = x.len() as int;
    let n = y.len() as int;
    assert forall|i: int| 1 <= i < m + 1 implies s[i] != '-' by {
        assert(crate::request::is_digit(x[i - 1]));
        assert(s[i] == x[i - 1]);
    }
    assert forall|i: int| 1 <= i < n + 1 implies s[i] != '-' by {
        assert(crate::request::is_digit(y[i - 1]));
        assert(s[i] == y[i - 1]);
    }
    assert(s[m + 1] == '-');
    assert(s[n + 1] == '-');
    assert(m == n);
    assert(("\""@ + x + "-"@ + p + "\""@).len() == 3 + m + p.len());
    assert(("\""@ + y + "-"@ + q + "\""@).len() == 3 + n + q.len());
    let k = p.len() as int;
    assert(x =~= s.subrange(1, 1 + m));
    assert(y =~= s.subrange(1, 1 + m));
    assert(p =~= s.subrange(2 + m, 2 + m + k));
    assert(q =~= s.subrange(2 + m, 2 + m + k));
    law_decimal_tells_apart(timestamp(a.mtime) as nat, timestamp(b.mtime) as nat);
    law_decimal_tells_apart(a.size as nat, b.size as nat);
}

/// A file that is sent is described: by its type, its name, that ranges of it can be had, and, where
/// it is known when it was modified, by that time, its tag, and that it is to be asked for anew.
pub proof fn law_files_are_described(
    res: ResponseView,
    file: FileView,
    encoded: Seq<char>,
    tag: Seq<char>,
    secs: u64,
)
    ensures
        ({
            let headers = described(res, file, encoded).headers;
            &&& headers.contains_pair("accept-ranges"@, "bytes"@)
            &&& headers.contains_pair("content-type"@, content_type_of(file.name->0, file.sample))
            &&& headers.contains_pair(
                "content-disposition"@,
                disposition(true, file.name->0, encoded),
            )
            &&& cache_headers(file) == Some((tag, secs)) ==> headers.contains_pair("etag"@, tag)
                && headers.contains_pair("last-modified"@, http_date(secs))
                && headers.contains_pair("cache-control"@, "no-cache"@)
            &&& described(res, file, encoded).status == res.status
            &&& described(res, file, encoded).body == res.body
            &&& described(res, file, encoded).cookies == res.cookies
        }),
{
    reveal_strlit("accept-ranges");
    reveal_strlit("content-type");
    reveal_strlit("content-disposition");
    reveal_strlit("etag");
    reveal_strlit("last-modified");
    reveal_strlit("cache-control");
    assert("accept-ranges"@[0] == 'a');
    assert("content-type"@[0] == 'c' && "content-type"@.len() == 12);
    assert("content-disposition"@[0] == 'c' && "content-disposition"@.len() == 19);
    assert("etag"@[0] == 'e');
    assert("last-modified"@[0] == 'l');
    assert("cache-control"@[0] == 'c' && "cache-control"@.len() == 13);
}

/// What is sent is the described file, whole or in the ranges that are wanted.
pub proof fn law_described_files_are_sent(
    res: ResponseView,
    file: FileView,
    headers: HeaderMap<HeaderValue>,
    parsed: Option<Seq<(u64, u64)>>,
    head_only: bool,
    encoded: Seq<char>,
)
    ensures
        sent(res, file, headers, parsed, head_only, encoded) == body_sent(
            described(res, file, encoded),
            file.size,
            wanted_ranges(headers, file, parsed),
            head_only,
        ),
{
}

/// A file can be sent where it has a name, and where its type and what it is to be saved under can
/// stand in headers.
pub proof fn law_files_that_can_be_sent(file: FileView, encoded: Seq<char>)
    ensures
        sendable(file, encoded) <==> file.name is Some && is_header_text(
            content_type_of(file.name->0, file.sample),
        ) && is_header_text(disposition(true, file.name->0, encoded)),
{
}

/// Reading a header changes at most what cannot stand inside quotes, and nothing outside of them.
pub proof fn law_masking(value: Seq<u8>, i: int)
    ensures
        masked(value).len() == value.len(),
        0 <= i < value.len() && (0x21 <= value[i] <= 0x7E || value[i] >= 0x80) ==> masked(value)[i]
            == value[i],
        0 <= i < value.len() && !ends_in_quotes(value.take(i)) ==> masked(value)[i] == value[i],
        0 <= i < value.len() && ends_in_quotes(value.take(i)) && (value[i] <= 0x20 || value[i]
            == 0x7F) ==> masked(value)[i] == 0x21,
{
}

/// A request sets no condition, or only that the file still has a tag, as its headers say.
pub proof fn law_requests_set_conditions(headers: HeaderMap<HeaderValue>, tag: Seq<char>)
    ensures
        ({
            let others = header_values(headers, "if-unmodified-since"@).len() > 0 || header_values(
                headers,
                "if-modified-since"@,
            ).len() > 0 || header_values(headers, "if-none-match"@).len() > 0;
            let tags = header_values(headers, "if-match"@);
            &&& unconditional(headers) <==> !others && tags.len() == 0
            &&& only_if_match(headers, tag) <==> !others && tags == seq![encode_utf8(tag)]
        }),
{
}

/// The type of a file is the one that its name suggests, and for text also its encoding; a file of
/// which nothing is known is plain text or bytes.
pub proof fn law_content_types(name: Seq<char>, sample: Seq<u8>)
    ensures
        ({
            let kind = content_type_of(name, sample);
            let text = looks_like_text(sample);
            let charset = charset_of(sample, sample.len() < 1024);
            &&& text && mime_of(name) is Some ==> kind == mime_of(name)->0 + "; charset="@ + charset
            &&& text && mime_of(name) is None ==> kind == "text/plain; charset="@ + charset
            &&& !text && mime_of(name) is Some ==> kind == mime_of(name)->0
            &&& !text && mime_of(name) is None ==> kind == "application/octet-stream"@
        }),
{
}

/// A file is shown or saved under its name. Control characters in it become blanks, and for a name
/// with other characters than those of ASCII the encoded name comes too.
pub proof fn law_files_keep_their_names(inline: bool, name: Seq<char>, encoded: Seq<char>, i: int)
    ensures
        ({
            let kind = if inline {
                "inline"@
            } else {
                "attachment"@
            };
            let shown = header_name(name);
            let plain = kind + "; filename=\""@ + shown + "\""@;
            &&& shown.len() == name.len()
            &&& 0 <= i < name.len() ==> shown[i] == if ('\u{1f}' >= name[i] && name[i] != '\t')
                || name[i] == '\u{7f}' {
                ' '
            } else {
                name[i]
            }
            &&& (forall|j: int| 0 <= j < name.len() ==> '\u{7f}' >= #[trigger] name[j])
                ==> disposition(inline, name, encoded) == plain
            &&& 0 <= i < name.len() && name[i] > '\u{7f}' ==> disposition(inline, name, encoded)
                == plain + "; filename*=UTF-8''"@ + encoded
        }),
{
    let shown = header_name(name);
    if 0 <= i < name.len() && name[i] > '\u{7f}' {
        assert(!(shown[i] <= '\u{7f}'));
    }
    if forall|j: int| 0 <= j < name.len() ==> '\u{7f}' >= #[trigger] name[j] {
        assert forall|j: int| 0 <= j < shown.len() implies #[trigger] shown[j] <= '\u{7f}' by {
            assert('\u{7f}' >= name[j]);
        }
    }
}

/// A body with several ranges holds each of them in its order: a line with the boundary, the type of
/// the file and which bytes come, the bytes, and at the end the closing boundary.
pub proof fn law_ranges_are_put_together(
    boundary: Seq<char>,
    content_type: Seq<char>,
    size: u64,
    ranges: Seq<(u64, u64)>,
    data: Seq<Seq<u8>>,
    range: (u64, u64),
    bytes: Seq<u8>,
)
    requires
        ranges.len() == data.len(),
    ensures
        parts_bytes(boundary, content_type, size, Seq::empty(), Seq::empty()) == Seq::<
            u8,
        >::empty(),
        parts_bytes(boundary, content_type, size, ranges.push(range), data.push(bytes))
            == parts_bytes(boundary, content_type, size, ranges, data) + (encode_utf8(
            "--"@ + boundary + "\r\nContent-Type: "@ + content_type + "\r\nContent-Range: "@ + (
            "bytes "@ + decimal_text(range.0 as nat) + "-"@ + decimal_text(range.1 as nat) + "/"@
                + decimal_text(size as nat)) + "\r\n\r\n"@,
        ) + bytes + encode_utf8("\r\n"@)),
        multipart_bytes(boundary, content_type, size, ranges, data) == parts_bytes(
            boundary,
            content_type,
            size,
            ranges,
            data,
        ) + encode_utf8("--"@ + boundary + "--\r\n"@),
{
    assert(ranges.push(range).drop_last() =~= ranges);
    assert(data.push(bytes).drop_last() =~= data);
    assert(part_bytes(boundary, content_type, size, range, bytes) == part_bytes(
        boundary,
        content_type,
        size,
        ranges.push(range).last(),
        data.push(bytes).last(),
    ));
}

/// A body with several ranges is announced with its boundary and its length.
pub proof fn law_parts_are_announced(
    res: ResponseView,
    boundary: Seq<char>,
    body: Seq<u8>,
    head_only: bool,
)
    ensures
        ({
            let reply = parts_sent(res, boundary, body, head_only);
            &&& reply.status == res.status
            &&& reply.headers == res.headers.insert(
                "content-type"@,
                "multipart/byteranges; boundary="@ + boundary,
            ).insert("content-length"@, decimal_text(body.len()))
            &&& reply.body == if head_only {
                res.body
            } else {
                BodyView::Bytes(body)
            }
        }),
{
}

} // verus!
