use dufs::response::{finish_error_page, Body, Response, Source};
use dufs::send_file::{
    conditions_readable, content_type_from, extract_cache_headers, get_content_type,
    handle_send_file, mask_blanks, multipart_body, readable_tags,
    send_body, send_parts, send_parts_with, set_content_disposition, settle_conditions,
    to_timestamp, FileFacts, SendStep, Wanted,
};
use hyper::header::HeaderValue;
use hyper::HeaderMap;

fn file() -> FileFacts {
    FileFacts {
        name: Some("note.txt".to_string()),
        size: 10,
        mtime: Some((784198117, 500_000_000)),
        sample: b"0123456789".to_vec(),
    }
}

fn headers(list: &[(&'static str, &str)]) -> HeaderMap<HeaderValue> {
    let mut map = HeaderMap::new();
    for (name, value) in list {
        map.append(*name, HeaderValue::from_str(value).unwrap());
    }
    map
}

fn encode(s: &str) -> String {
    s.chars().map(|c| if c.is_ascii() { c.to_string() } else { "%XX".to_string() }).collect()
}

fn send(
    file: &FileFacts,
    list: &[(&'static str, &str)],
    ranges: Option<Vec<(u64, u64)>>,
    head_only: bool,
) -> (SendStep, Response) {
    let mut res = Response::new();
    let step = handle_send_file(file, &headers(list), &ranges, head_only, &encode, &mut res);
    (step, res)
}

#[test]
fn times_become_milliseconds() {
    assert_eq!(to_timestamp(Some((1, 2_999_999))), 1002);
    assert_eq!(to_timestamp(None), 0);
    assert_eq!(to_timestamp(Some((u64::MAX, 0))), u64::MAX.wrapping_mul(1000));
}

#[test]
fn files_have_entity_tags() {
    let (tag, secs) = extract_cache_headers(&file()).unwrap();
    assert_eq!(tag, "\"784198117500-10\"");
    assert_eq!(secs, 784198117);
    let mut unknown = file();
    unknown.mtime = None;
    assert!(extract_cache_headers(&unknown).is_none());
}

#[test]
fn whole_files_are_sent() {
    let (step, res) = send(&file(), &[], None, false);
    assert_eq!(step, SendStep::Reply);
    assert_eq!(res.status, 200);
    assert_eq!(res.headers.get("content-length"), Some("10"));
    assert_eq!(res.headers.get("etag"), Some("\"784198117500-10\""));
    assert_eq!(res.headers.get("last-modified"), Some("Mon, 07 Nov 1994 08:48:37 GMT"));
    assert_eq!(res.headers.get("cache-control"), Some("no-cache"));
    assert_eq!(res.headers.get("accept-ranges"), Some("bytes"));
    assert_eq!(res.headers.get("content-type"), Some("text/plain; charset=UTF-8"));
    assert_eq!(
        res.headers.get("content-disposition"),
        Some("inline; filename=\"note.txt\"")
    );
    assert!(matches!(res.body, Body::Stream(Source::File)));
    let (_, head) = send(&file(), &[], None, true);
    assert_eq!(head.headers.get("content-length"), Some("10"));
    assert!(matches!(head.body, Body::Empty));
}

#[test]
fn error_pages_are_not_found() {
    let (_, mut res) = send(&file(), &[("if-none-match", "\"784198117500-10\"")], None, false);
    assert_eq!(res.status, 304);
    finish_error_page(&mut res);
    assert_eq!(res.status, 404);
    let (_, mut res) = send(&file(), &[], None, false);
    finish_error_page(&mut res);
    assert_eq!(res.status, 404);
    assert_eq!(res.headers.get("content-length"), Some("10"));
    assert!(matches!(res.body, Body::Stream(Source::File)));
}

#[test]
fn known_files_are_not_sent_again() {
    let tag = "\"784198117500-10\"";
    let date = "Mon, 07 Nov 1994 08:48:37 GMT";
    assert_eq!(send(&file(), &[("if-none-match", tag)], None, false).1.status, 304);
    assert_eq!(send(&file(), &[("if-modified-since", date)], None, false).1.status, 304);
    assert_eq!(send(&file(), &[("if-none-match", "\"1-10\"")], None, false).1.status, 200);
    assert_eq!(
        send(&file(), &[("if-modified-since", "Mon, 07 Nov 1994 08:48:36 GMT")], None, false)
            .1
            .status,
        200
    );
    assert_eq!(send(&file(), &[("if-none-match", "*")], None, false).1.status, 304);
    assert_eq!(send(&file(), &[("if-modified-since", "never")], None, false).1.status, 200);
}

#[test]
fn the_own_tag_matches() {
    let (step, res) = send(&file(), &[("if-match", "\"784198117500-10\"")], None, false);
    assert_eq!(step, SendStep::Reply);
    assert_eq!(res.status, 200);
    assert_eq!(res.headers.get("content-length"), Some("10"));
    assert!(matches!(res.body, Body::Stream(Source::File)));
}

#[test]
fn blanks_make_tags_unreadable() {
    let readable = |list: &[(&'static str, &str)]| conditions_readable(&headers(list));
    assert!(readable(&[]));
    assert!(readable(&[("if-match", "\"a\", W/\"b\"")]));
    assert!(readable(&[("if-match", "*"), ("if-none-match", "no tag at all")]));
    assert!(!readable(&[("if-match", "\"a b\"")]));
    assert!(!readable(&[("if-match", "\"a\", W/\"\tb\"")]));
    assert!(!readable(&[("if-none-match", "\"a b\"")]));
    assert!(!readable(&[("if-none-match", "\"a"), ("if-none-match", "b\"")]));
    assert!(readable(&[("if-none-match", "\"a\""), ("if-none-match", "\"b\"")]));
    assert!(readable(&[("if-range", "\"a b\"")]));
    assert!(!readable(&[("if-range", "\"a b\""), ("range", "bytes=0-1")]));
    assert!(readable(&[("if-range", "Mon, 07 Nov 1994 08:48:37 GMT"), ("range", "bytes=0-1")]));
}

#[test]
fn masked_tags_can_be_read() {
    let mask = |value: &str| String::from_utf8(mask_blanks(&value.as_bytes().to_vec())).unwrap();
    assert_eq!(mask("\"a b\", W/\"\tc\""), "\"a!b\", W/\"!c\"");
    assert_eq!(mask("\"a\", \"b\""), "\"a\", \"b\"");
    let list = headers(&[("if-none-match", "\"a"), ("if-none-match", "b\"")]);
    assert_eq!(readable_tags(&list, "if-none-match"), Some(b"\"a,!b\"".to_vec()));
    assert_eq!(readable_tags(&list, "if-match"), None);
    let tags = headers(&[("if-match", "\"a b\""), ("if-match", "\"784198117500-10\"")]);
    let value = String::from_utf8(readable_tags(&tags, "if-match").unwrap()).unwrap();
    assert_eq!(send(&file(), &[("if-match", &value)], None, false).1.status, 200);
    assert_eq!(send(&file(), &[("if-match", &mask("\"a b\""))], None, false).1.status, 412);
}

#[test]
fn failed_conditions_stop_the_request() {
    let tag = "\"784198117500-10\"";
    let date = "Mon, 07 Nov 1994 08:48:37 GMT";
    assert_eq!(send(&file(), &[("if-match", tag)], None, false).1.status, 200);
    assert_eq!(send(&file(), &[("if-match", "\"other\"")], None, false).1.status, 412);
    assert_eq!(send(&file(), &[("if-unmodified-since", date)], None, false).1.status, 200);
    assert_eq!(
        send(&file(), &[("if-unmodified-since", "Mon, 07 Nov 1994 08:48:36 GMT")], None, false)
            .1
            .status,
        412
    );
}

#[test]
fn one_range_is_sent() {
    let (step, res) = send(&file(), &[("range", "bytes=2-4")], Some(vec![(2, 4)]), false);
    assert_eq!(step, SendStep::Reply);
    assert_eq!(res.status, 206);
    assert_eq!(res.headers.get("content-range"), Some("bytes 2-4/10"));
    assert_eq!(res.headers.get("content-length"), Some("3"));
    assert!(matches!(res.body, Body::Stream(Source::FileRange { start: 2, len: 3 })));
    let (_, head) = send(&file(), &[("range", "bytes=2-4")], Some(vec![(2, 4)]), true);
    assert!(matches!(head.body, Body::Empty));
}

#[test]
fn impossible_ranges_are_refused() {
    let (step, res) = send(&file(), &[("range", "bytes=20-")], None, false);
    assert_eq!(step, SendStep::Reply);
    assert_eq!(res.status, 416);
    assert_eq!(res.headers.get("content-range"), Some("bytes */10"));
    assert_eq!(send(&file(), &[("range", "lines=1-2")], None, false).1.status, 200);
}

#[test]
fn ranges_of_another_version_are_ignored() {
    let tag = "\"784198117500-10\"";
    let range = ("range", "bytes=2-4");
    let ranges = || Some(vec![(2, 4)]);
    assert_eq!(send(&file(), &[range, ("if-range", tag)], ranges(), false).1.status, 206);
    assert_eq!(send(&file(), &[range, ("if-range", "\"x\"")], ranges(), false).1.status, 200);
    let mut unknown = file();
    unknown.mtime = None;
    assert_eq!(send(&unknown, &[range], ranges(), false).1.status, 206);
}

#[test]
fn several_ranges_are_put_together() {
    let ranges = vec![(0, 1), (8, 9)];
    let (step, mut res) =
        send(&file(), &[("range", "bytes=0-1,8-9")], Some(ranges.clone()), false);
    assert_eq!(step, SendStep::Parts);
    assert_eq!(res.status, 206);
    let data = vec![b"01".to_vec(), b"89".to_vec()];
    send_parts_with("B", &file(), &ranges, &data, false, &mut res);
    let expected = "--B\r\nContent-Type: text/plain; charset=UTF-8\r\nContent-Range: bytes 0-1/10\r\n\r\n01\r\n\
        --B\r\nContent-Type: text/plain; charset=UTF-8\r\nContent-Range: bytes 8-9/10\r\n\r\n89\r\n--B--\r\n";
    assert!(matches!(&res.body, Body::Bytes(bytes) if bytes == expected.as_bytes()));
    assert_eq!(res.headers.get("content-type"), Some("multipart/byteranges; boundary=B"));
    assert_eq!(res.headers.get("content-length"), Some(expected.len().to_string().as_str()));
    assert_eq!(multipart_body("B", "t", 1, &vec![], &vec![]), b"--B--\r\n".to_vec());
}

#[test]
fn boundaries_are_random() {
    let ranges = vec![(0, 1), (8, 9)];
    let data = vec![b"01".to_vec(), b"89".to_vec()];
    let kind = || {
        let mut res = Response::new();
        send_parts(&file(), &ranges, &data, true, &mut res);
        res.headers.get("content-type").unwrap().to_string()
    };
    let first = kind();
    assert!(first.starts_with("multipart/byteranges; boundary="));
    assert_eq!(first.len(), "multipart/byteranges; boundary=".len() + 36);
    assert_ne!(first, kind());
}

#[test]
fn content_types_are_guessed() {
    assert_eq!(get_content_type("a.html", &b"<html>".to_vec()), "text/html; charset=UTF-8");
    assert_eq!(get_content_type("a", &b"plain".to_vec()), "text/plain; charset=UTF-8");
    assert_eq!(get_content_type("a.png", &vec![0, 1, 2, 255]), "image/png");
    assert_eq!(get_content_type("a", &vec![0, 1, 2, 255]), "application/octet-stream");
}

#[test]
fn names_stand_in_dispositions() {
    let mut res = Response::new();
    assert!(set_content_disposition(&mut res, false, "a\nb\tc", &encode));
    assert_eq!(
        res.headers.get("content-disposition"),
        Some("attachment; filename=\"a b\tc\"")
    );
    assert!(set_content_disposition(&mut res, true, "\u{e9}", &encode));
    assert_eq!(
        res.headers.get("content-disposition"),
        Some("inline; filename=\"\u{e9}\"; filename*=UTF-8''%XX")
    );
}

#[test]
fn nameless_files_fail() {
    let mut nameless = file();
    nameless.name = None;
    assert_eq!(send(&nameless, &[], None, false).0, SendStep::Fail);
}

#[test]
fn conditions_are_settled_in_order() {
    assert_eq!(settle_conditions(None, None, None, None), None);
    assert_eq!(settle_conditions(Some(true), Some(true), Some(true), Some(true)), None);
    assert_eq!(settle_conditions(Some(false), None, Some(false), None), Some(412));
    assert_eq!(settle_conditions(None, Some(false), None, Some(false)), Some(412));
    assert_eq!(settle_conditions(None, None, Some(false), None), Some(304));
    assert_eq!(settle_conditions(None, None, None, Some(false)), Some(304));
}

#[test]
fn content_types_are_put_together() {
    let text = |s: &str| Some(s.to_string());
    assert_eq!(content_type_from(text("a/b"), text("X")), "a/b; charset=X");
    assert_eq!(content_type_from(None, text("X")), "text/plain; charset=X");
    assert_eq!(content_type_from(text("a/b"), None), "a/b");
    assert_eq!(content_type_from(None, None), "application/octet-stream");
}

#[test]
fn bodies_are_whole_or_ranges() {
    let mut res = Response::new();
    assert_eq!(send_body(7, &Wanted::Unsatisfiable, false, &mut res), SendStep::Reply);
    assert_eq!(res.headers.get("content-range"), Some("bytes */7"));
    let mut res = Response::new();
    assert_eq!(send_body(7, &Wanted::Ranges(vec![]), false, &mut res), SendStep::Parts);
    assert_eq!(res.status, 206);
    let mut res = Response::new();
    assert_eq!(send_body(7, &Wanted::Whole, false, &mut res), SendStep::Reply);
    assert_eq!(res.headers.get("content-length"), Some("7"));
}
