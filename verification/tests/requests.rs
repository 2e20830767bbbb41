use dufs::password_cookie::format_cookie;
use dufs::request::{
    find_pair, offset_in, read_cookies, read_depth, read_payload, read_upload_range,
    directory_password_cookies, extract_destination_header, first_parameter, has_query_flag, header,
    header_str, is_directory_share_readonly_method, parse_query, parse_upload_offset,
    propfind_depth, upload_range, Method, UploadOffset, UploadRange,
};
use hyper::header::HeaderValue;
use hyper::HeaderMap;

fn headers(list: &[(&'static str, &[u8])]) -> HeaderMap<HeaderValue> {
    let mut map = HeaderMap::new();
    for (name, value) in list {
        map.append(*name, HeaderValue::from_bytes(value).unwrap());
    }
    map
}

#[test]
fn methods_have_names() {
    assert_eq!(Method::from_name("GET"), Method::Get);
    assert_eq!(Method::from_name("SETPASSWORD"), Method::Setpassword);
    assert_eq!(Method::from_name("PROPFIND"), Method::Propfind);
    assert_eq!(Method::from_name("get"), Method::Other);
    assert_eq!(Method::from_name("POST"), Method::Other);
}

#[test]
fn reading_methods() {
    for method in [Method::Get, Method::Head, Method::Options, Method::Propfind] {
        assert!(is_directory_share_readonly_method(method));
    }
    for method in [Method::Put, Method::Delete, Method::Mkcol, Method::Lock, Method::Other] {
        assert!(!is_directory_share_readonly_method(method));
    }
}

#[test]
fn queries_are_decoded() {
    let query = parse_query("a=1&b=%20x+y&a=2&flag");
    assert_eq!(query.get("a"), Some("2"));
    assert_eq!(query.get("b"), Some(" x y"));
    assert!(has_query_flag(&query, "flag"));
    assert!(!has_query_flag(&query, "a"));
    assert!(!has_query_flag(&query, "none"));
    assert_eq!(first_parameter("a=1&b=2&a=3", "a").as_deref(), Some("1"));
    assert_eq!(first_parameter("a=1", "b"), None);
}

#[test]
fn headers_are_read() {
    let map = headers(&[("x-a", b"one"), ("x-a", b"two"), ("x-b", b"caf\xe9")]);
    assert_eq!(header(&map, "x-a"), Some(b"one".to_vec()));
    assert_eq!(header_str(&map, "x-a").as_deref(), Some("one"));
    assert_eq!(header(&map, "x-b"), Some(b"caf\xe9".to_vec()));
    assert_eq!(header_str(&map, "x-b"), None);
    assert_eq!(header(&map, "x-c"), None);
}

#[test]
fn password_cookies_are_read() {
    let map = headers(&[
        ("cookie", b"a=b;  dufs_dir_password=ZGlyMQBwYXNzd29yZC0x ;c"),
        ("cookie", b"dufs_dir_password=ZGlyMgBwYXNzd29yZC0y"),
        ("cookie", b"dufs_dir_password=***"),
        ("cookie", b"dufs_dir_password=YWJj"),
        ("cookie", b"dufs_dir_password=_w"),
        ("cookie", b"\xff"),
    ]);
    assert_eq!(
        directory_password_cookies(&map),
        vec![
            ("dir1".to_string(), "password-1".to_string()),
            ("dir2".to_string(), "password-2".to_string()),
        ]
    );
}

#[test]
fn destinations_are_split() {
    let map = headers(&[("destination", b"http://host/a%20b?dir_password=x")]);
    assert_eq!(
        extract_destination_header(&map),
        Some(("/a%20b".to_string(), Some("dir_password=x".to_string())))
    );
    let map = headers(&[("destination", b"/plain")]);
    assert_eq!(extract_destination_header(&map), Some(("/plain".to_string(), None)));
    let map = headers(&[("destination", b"not a uri")]);
    assert_eq!(extract_destination_header(&map), None);
    assert_eq!(extract_destination_header(&headers(&[])), None);
}

#[test]
fn uploads_continue_where_said() {
    let offset = |list: &[(&'static str, &[u8])], ranges: Option<Vec<(u64, u64)>>| {
        parse_upload_offset(&headers(list), 10, &ranges)
    };
    assert_eq!(offset(&[], None), UploadOffset::Absent);
    assert_eq!(offset(&[("x-update-range", b"append")], None), UploadOffset::At(10));
    assert_eq!(
        offset(&[("x-update-range", b"bytes=3-5,7-8")], Some(vec![(3, 5), (7, 8)])),
        UploadOffset::At(3)
    );
    assert_eq!(offset(&[("x-update-range", b"bytes=x")], None), UploadOffset::Invalid);
    assert_eq!(offset(&[("x-update-range", b"bytes=")], Some(vec![])), UploadOffset::Invalid);
    assert_eq!(offset(&[("x-update-range", b"\xff")], None), UploadOffset::Invalid);
    let map = headers(&[("x-update-range", b"bytes=3-5")]);
    assert!(matches!(upload_range(&map), UploadRange::Ranges(text) if text == "bytes=3-5"));
}

#[test]
fn depths_are_zero_or_one() {
    let depth = |value: &[u8]| propfind_depth(&headers(&[("depth", value)]));
    assert_eq!(propfind_depth(&headers(&[])), Some(1));
    assert_eq!(depth(b"0"), Some(0));
    assert_eq!(depth(b"1"), Some(1));
    assert_eq!(depth(b"+01"), Some(1));
    assert_eq!(depth(b"2"), None);
    assert_eq!(depth(b"10"), None);
    assert_eq!(depth(b"infinity"), None);
    assert_eq!(depth(b""), None);
    assert_eq!(depth(b"+"), None);
    assert_eq!(depth(b"-0"), Some(0));
    assert_eq!(depth(b"-00"), Some(0));
    assert_eq!(depth(b"-1"), None);
    assert_eq!(depth(b"-"), None);
    assert_eq!(depth(b"+-0"), None);
    assert_eq!(depth(b"\xff"), None);
    assert_eq!(depth(b"99999999999999999999"), None);
}

#[test]
fn plain_values_are_read_alike() {
    assert_eq!(read_depth(Some(b"1".to_vec())), Some(1));
    assert_eq!(read_depth(None), Some(1));
    assert_eq!(offset_in(read_upload_range(Some(b"append".to_vec())), 4, &None), UploadOffset::At(4));
    assert_eq!(
        read_payload(Some(b"a\0b\0c".to_vec())),
        Some(("a".to_string(), "b\0c".to_string()))
    );
    assert_eq!(read_payload(Some(b"abc".to_vec())), None);
    assert_eq!(read_payload(Some(vec![0xff])), None);
    assert_eq!(read_payload(None), None);
    assert_eq!(
        read_cookies(&vec![b"dufs_dir_password=ZGlyMQBwYXNzd29yZC0x".to_vec()]),
        vec![("dir1".to_string(), "password-1".to_string())]
    );
    let pairs = vec![("a".to_string(), "1".to_string()), ("a".to_string(), "2".to_string())];
    assert_eq!(find_pair(&pairs, "a").as_deref(), Some("1"));
    assert_eq!(
        format_cookie("P", "/", "a"),
        "dufs_dir_password=P; Path=/a/; HttpOnly; SameSite=Lax"
    );
    assert_eq!(
        format_cookie("P", "/x/", ""),
        "dufs_dir_password=P; Path=/x/; HttpOnly; SameSite=Lax"
    );
}
