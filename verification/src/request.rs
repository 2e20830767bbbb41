//! Requests: methods, queries and headers, as far as the server's decisions read them.
use crate::assets::optional_bytes;
use crate::outside::{
    byte_views, header_all, header_values, parse_query_pairs, parse_uri, query_pairs, text_of_utf8,
    uri_parts, uri_texts, url_base64_decode, url_base64_decoded,
};
use crate::string_map::{pair_texts, pairs_map, StringMap};
use crate::text::{chars_of, cut, pieces, same, split, split_once, texts};
use hyper::header::HeaderValue;
use hyper::HeaderMap;
use vstd::prelude::*;
use vstd::string::*;
use vstd::utf8::*;

verus! {

/// The methods that the server tells apart.
#[derive(Debug, Clone, Copy, PartialEq, Eq, Structural)]
pub enum Method {
    Get,
    Head,
    Options,
    Put,
    Patch,
    Delete,
    Propfind,
    Proppatch,
    Mkcol,
    Copy,
    Move,
    Lock,
    Unlock,
    Checkauth,
    Logout,
    Setpassword,
    Other,
}

/// The method of a name.
pub open spec fn method_named(name: Seq<char>) -> Method {
    if name == "GET"@ {
        Method::Get
    } else if name == "HEAD"@ {
        Method::Head
    } else if name == "OPTIONS"@ {
        Method::Options
    } else if name == "PUT"@ {
        Method::Put
    } else if name == "PATCH"@ {
        Method::Patch
    } else if name == "DELETE"@ {
        Method::Delete
    } else if name == "PROPFIND"@ {
        Method::Propfind
    } else if name == "PROPPATCH"@ {
        Method::Proppatch
    } else if name == "MKCOL"@ {
        Method::Mkcol
    } else if name == "COPY"@ {
        Method::Copy
    } else if name == "MOVE"@ {
        Method::Move
    } else if name == "LOCK"@ {
        Method::Lock
    } else if name == "UNLOCK"@ {
        Method::Unlock
    } else if name == "CHECKAUTH"@ {
        Method::Checkauth
    } else if name == "LOGOUT"@ {
        Method::Logout
    } else if name == "SETPASSWORD"@ {
        Method::Setpassword
    } else {
        Method::Other
    }
}

impl Method {
    /// The method of a name.
    pub fn from_name(name: &str) -> (r: Method)
        ensures
            r == method_named(name@),
    {
        if same(name, "GET") {
            Method::Get
        } else if same(name, "HEAD") {
            Method::Head
        } else if same(name, "OPTIONS") {
            Method::Options
        } else if same(name, "PUT") {
            Method::Put
        } else if same(name, "PATCH") {
            Method::Patch
        } else if same(name, "DELETE") {
            Method::Delete
        } else if same(name, "PROPFIND") {
            Method::Propfind
        } else if same(name, "PROPPATCH") {
            Method::Proppatch
        } else if same(name, "MKCOL") {
            Method::Mkcol
        } else if same(name, "COPY") {
            Method::Copy
        } else if same(name, "MOVE") {
            Method::Move
        } else if same(name, "LOCK") {
            Method::Lock
        } else if same(name, "UNLOCK") {
            Method::Unlock
        } else if same(name, "CHECKAUTH") {
            Method::Checkauth
        } else if same(name, "LOGOUT") {
            Method::Logout
        } else if same(name, "SETPASSWORD") {
            Method::Setpassword
        } else {
            Method::Other
        }
    }
}

/// Whether a method only reads, so that a directory's password may allow it.
pub open spec fn reads_only(method: Method) -> bool {
    method == Method::Get || method == Method::Head || method == Method::Options || method
        == Method::Propfind
}

/// Whether a method only reads, so that a directory's password may allow it.
pub fn is_directory_share_readonly_method(method: Method) -> (r: bool)
    ensures
        r == reads_only(method),
{
    method == Method::Get || method == Method::Head || method == Method::Options || method
        == Method::Propfind
}

/// The parameters of a query string; of two values of one parameter the later counts.
pub fn parse_query(query: &str) -> (r: StringMap)
    ensures
        r@ == pairs_map(query_pairs(encode_utf8(query@))),
{
    StringMap::from_pairs(parse_query_pairs(query.as_bytes()))
}

/// Whether a parameter is there and empty.
pub open spec fn is_flag(params: Map<Seq<char>, Seq<char>>, name: Seq<char>) -> bool {
    params.contains_key(name) && params[name].len() == 0
}

/// Whether a parameter is there and empty.
pub fn has_query_flag(query_params: &StringMap, name: &str) -> (r: bool)
    ensures
        r == is_flag(query_params@, name@),
{
    match query_params.get(name) {
        Some(v) => v.is_empty(),
        None => false,
    }
}

/// Whether a byte is a visible character or a blank.
pub open spec fn is_visible(b: u8) -> bool {
    b == 9 || 32 <= b < 127
}

/// The text of a header's value, where all of it is visible.
pub open spec fn visible_text(value: Seq<u8>) -> Option<Seq<char>> {
    if forall|i: int| 0 <= i < value.len() ==> is_visible(#[trigger] value[i]) {
        Some(Seq::new(value.len(), |i: int| value[i] as char))
    } else {
        None
    }
}

/// The text of a header's value, where all of it is visible.
pub fn header_text(value: &Vec<u8>) -> (r: Option<String>)
    ensures
        match r {
            Some(s) => visible_text(value@) == Some(s@),
            None => visible_text(value@) is None,
        },
{
    let mut out = String::new();
    let mut i: usize = 0;
    while i < value.len()
        invariant
            i <= value.len(),
            forall|j: int| 0 <= j < i ==> is_visible(#[trigger] value@[j]),
            out@ == Seq::new(i as nat, |j: int| value@[j] as char),
        decreases value.len() - i,
    {
        let b: u8 = value[i];
        if !(b == 9 || (32 <= b && b < 127)) {
            assert(!is_visible(value@[i as int]));
            return None;
        }
        out.push(b as char);
        i = i + 1;
        assert(out@ =~= Seq::new(i as nat, |j: int| value@[j] as char));
    }
    Some(out)
}

/// The first value under a name.
pub open spec fn first_value(headers: HeaderMap<HeaderValue>, name: Seq<char>) -> Option<Seq<u8>> {
    if header_values(headers, name).len() > 0 {
        Some(header_values(headers, name)[0])
    } else {
        None
    }
}

/// The first value under a name.
pub fn header(headers: &HeaderMap<HeaderValue>, name: &str) -> (r: Option<Vec<u8>>)
    ensures
        match r {
            Some(v) => first_value(*headers, name@) == Some(v@),
            None => first_value(*headers, name@) is None,
        },
{
    let mut values = header_all(headers, name);
    assert(byte_views(values@).len() == values@.len());
    if values.len() == 0 {
        return None;
    }
    assert(byte_views(values@)[0] == values@[0]@);
    Some(values.swap_remove(0))
}

/// The text of the first value under a name, where all of it is visible.
pub open spec fn first_text(headers: HeaderMap<HeaderValue>, name: Seq<char>) -> Option<Seq<char>> {
    match first_value(headers, name) {
        Some(v) => visible_text(v),
        None => None,
    }
}

/// The text of the first value under a name, where all of it is visible.
pub fn header_str(headers: &HeaderMap<HeaderValue>, name: &str) -> (r: Option<String>)
    ensures
        match r {
            Some(s) => first_text(*headers, name@) == Some(s@),
            None => first_text(*headers, name@) is None,
        },
{
    match header(headers, name) {
        Some(v) => header_text(&v),
        None => None,
    }
}

/// The name of the cookie that carries the password of a directory.
pub const DIRECTORY_PASSWORD_COOKIE: &'static str = "dufs_dir_password";

/// A text without the blanks at its start.
pub open spec fn left_bare(s: Seq<char>) -> Seq<char>
    decreases s.len(),
{
    if s.len() > 0 && (s[0] == ' ' || s[0] == '\t') {
        left_bare(s.drop_first())
    } else {
        s
    }
}

/// A text without the blanks at its end.
pub open spec fn right_bare(s: Seq<char>) -> Seq<char>
    decreases s.len(),
{
    if s.len() > 0 && (s.last() == ' ' || s.last() == '\t') {
        right_bare(s.drop_last())
    } else {
        s
    }
}

/// A text without the blanks at its start and at its end.
pub open spec fn bare(s: Seq<char>) -> Seq<char> {
    right_bare(left_bare(s))
}

/// A text without the blanks at its start and at its end.
fn trim_blanks(s: &str) -> (r: String)
    ensures
        r@ == bare(s@),
{
    let v = chars_of(s);
    let mut i: usize = 0;
    assert(v@.skip(0) =~= v@);
    while i < v.len() && (v[i] == ' ' || v[i] == '\t')
        invariant
            i <= v.len(),
            v@ == s@,
            left_bare(s@) == left_bare(v@.skip(i as int)),
        decreases v.len() - i,
    {
        assert(v@.skip(i as int).drop_first() =~= v@.skip(i as int + 1));
        i = i + 1;
    }
    let ghost front = v@.skip(i as int);
    let mut n: usize = v.len();
    assert(v@.subrange(i as int, n as int) =~= front);
    while n > i && (v[n - 1] == ' ' || v[n - 1] == '\t')
        invariant
            i <= n <= v.len(),
            right_bare(front) == right_bare(v@.subrange(i as int, n as int)),
        decreases n,
    {
        assert(v@.subrange(i as int, n as int).drop_last() =~= v@.subrange(i as int, n as int - 1));
        n = n - 1;
    }
    crate::text::string_of(&v, i, n)
}

/// The directory and the password that the payload of a cookie holds: two texts with a zero between
/// them.
pub open spec fn payload_grant(payload: Option<Seq<u8>>) -> Option<(Seq<char>, Seq<char>)> {
    match payload {
        Some(bytes) => if valid_utf8(bytes) {
            cut(decode_utf8(bytes), '\0')
        } else {
            None
        },
        None => None,
    }
}

/// The directory and the password that the payload of a cookie holds.
pub fn read_payload(payload: Option<Vec<u8>>) -> (r: Option<(String, String)>)
    ensures
        match r {
            Some((scope, password)) => payload_grant(optional_bytes(payload)) == Some(
                (scope@, password@),
            ),
            None => payload_grant(optional_bytes(payload)) is None,
        },
{
    let bytes = match payload {
        Some(bytes) => bytes,
        None => {
            return None;
        },
    };
    match text_of_utf8(bytes) {
        Some(text) => split_once(text.as_str(), '\0'),
        None => None,
    }
}

/// The directory and the password that an item of a cookie header carries.
pub open spec fn cookie_grant(item: Seq<char>) -> Option<(Seq<char>, Seq<char>)> {
    match cut(bare(item), '=') {
        Some((name, value)) => if name == DIRECTORY_PASSWORD_COOKIE@ {
            payload_grant(url_base64_decoded(value))
        } else {
            None
        },
        None => None,
    }
}

/// What the items of a cookie header carry, in their order.
pub open spec fn item_grants(items: Seq<Seq<char>>) -> Seq<(Seq<char>, Seq<char>)>
    decreases items.len(),
{
    if items.len() == 0 {
        Seq::empty()
    } else {
        match cookie_grant(items.last()) {
            Some(grant) => item_grants(items.drop_last()).push(grant),
            None => item_grants(items.drop_last()),
        }
    }
}

/// What the values of the cookie headers carry, in their order.
pub open spec fn cookie_grants(values: Seq<Seq<u8>>) -> Seq<(Seq<char>, Seq<char>)>
    decreases values.len(),
{
    if values.len() == 0 {
        Seq::empty()
    } else {
        match visible_text(values.last()) {
            Some(text) => cookie_grants(values.drop_last()) + item_grants(pieces(text, ';')),
            None => cookie_grants(values.drop_last()),
        }
    }
}

/// The directory and the password that an item of a cookie header carries.
fn cookie_item(item: &str) -> (r: Option<(String, String)>)
    ensures
        match r {
            Some((scope, password)) => cookie_grant(item@) == Some((scope@, password@)),
            None => cookie_grant(item@) is None,
        },
{
    let item = trim_blanks(item);
    let (name, value) = match split_once(item.as_str(), '=') {
        Some(pair) => pair,
        None => {
            return None;
        },
    };
    if !same(name.as_str(), DIRECTORY_PASSWORD_COOKIE) {
        return None;
    }
    read_payload(url_base64_decode(value.as_str()))
}

/// The directories and passwords that the values of the cookie headers carry.
pub fn read_cookies(values: &Vec<Vec<u8>>) -> (r: Vec<(String, String)>)
    ensures
        pair_texts(r@) == cookie_grants(byte_views(values@)),
{
    let ghost all = byte_views(values@);
    let mut out: Vec<(String, String)> = Vec::new();
    let mut i: usize = 0;
    assert(pair_texts(out@) =~= cookie_grants(all.take(0)));
    while i < values.len()
        invariant
            i <= values.len(),
            all == byte_views(values@),
            pair_texts(out@) == cookie_grants(all.take(i as int)),
        decreases values.len() - i,
    {
        proof {
            assert(all.take(i as int + 1).drop_last() =~= all.take(i as int));
            assert(all.take(i as int + 1).last() == values@[i as int]@);
        }
        match header_text(&values[i]) {
            Some(text) => {
                let items = split(text.as_str(), ';');
                let ghost before = pair_texts(out@);
                let mut j: usize = 0;
                assert(before + item_grants(texts(items@).take(0)) =~= before);
                while j < items.len()
                    invariant
                        j <= items.len(),
                        pair_texts(out@) == before + item_grants(texts(items@).take(j as int)),
                    decreases items.len() - j,
                {
                    let ghost taken = texts(items@).take(j as int + 1);
                    proof {
                        assert(taken.drop_last() =~= texts(items@).take(j as int));
                        assert(taken.last() == items@[j as int]@);
                    }
                    match cookie_item(items[j].as_str()) {
                        Some(grant) => {
                            let ghost had = pair_texts(out@);
                            let ghost text = (grant.0@, grant.1@);
                            out.push(grant);
                            proof {
                                assert(pair_texts(out@) =~= had.push(text));
                                assert(had.push(text) =~= before + item_grants(taken));
                            }
                        },
                        None => {},
                    }
                    j = j + 1;
                }
                assert(texts(items@).take(j as int) =~= texts(items@));
            },
            None => {},
        }
        i = i + 1;
    }
    assert(all.take(i as int) =~= all);
    out
}

/// The directories and passwords that the cookies of a request carry.
pub fn directory_password_cookies(headers: &HeaderMap<HeaderValue>) -> (r: Vec<(String, String)>)
    ensures
        pair_texts(r@) == cookie_grants(header_values(*headers, "cookie"@)),
{
    read_cookies(&header_all(headers, "cookie"))
}

/// The value of the first pair with a key.
pub open spec fn first_pair(pairs: Seq<(Seq<char>, Seq<char>)>, key: Seq<char>) -> Option<Seq<char>>
    decreases pairs.len(),
{
    if pairs.len() == 0 {
        None
    } else if pairs[0].0 == key {
        Some(pairs[0].1)
    } else {
        first_pair(pairs.drop_first(), key)
    }
}

/// The value of the first pair with a key.
pub fn find_pair(pairs: &Vec<(String, String)>, name: &str) -> (r: Option<String>)
    ensures
        match r {
            Some(v) => first_pair(pair_texts(pairs@), name@) == Some(v@),
            None => first_pair(pair_texts(pairs@), name@) is None,
        },
{
    let ghost all = pair_texts(pairs@);
    let mut i: usize = 0;
    assert(all.skip(0) =~= all);
    while i < pairs.len()
        invariant
            i <= pairs.len(),
            all == pair_texts(pairs@),
            first_pair(all, name@) == first_pair(all.skip(i as int), name@),
        decreases pairs.len() - i,
    {
        proof {
            assert(all.skip(i as int).drop_first() =~= all.skip(i as int + 1));
            assert(all.skip(i as int)[0] == (pairs@[i as int].0@, pairs@[i as int].1@));
        }
        if same(pairs[i].0.as_str(), name) {
            return Some(pairs[i].1.clone());
        }
        i = i + 1;
    }
    None
}

/// The value of the first parameter with a name in a query string.
pub fn first_parameter(query: &str, name: &str) -> (r: Option<String>)
    ensures
        match r {
            Some(v) => first_pair(query_pairs(encode_utf8(query@)), name@) == Some(v@),
            None => first_pair(query_pairs(encode_utf8(query@)), name@) is None,
        },
{
    find_pair(&parse_query_pairs(query.as_bytes()), name)
}

/// The path and the query of the place that a request wants to copy or move to.
pub open spec fn destination_parts(headers: HeaderMap<HeaderValue>) -> Option<
    (Seq<char>, Option<Seq<char>>),
> {
    match first_text(headers, "destination"@) {
        Some(text) => uri_parts(text),
        None => None,
    }
}

/// The path and the query of the place that a request wants to copy or move to.
pub fn extract_destination_header(headers: &HeaderMap<HeaderValue>) -> (r: Option<
    (String, Option<String>),
>)
    ensures
        uri_texts(r) == destination_parts(*headers),
{
    match header_str(headers, "destination") {
        Some(text) => parse_uri(text.as_str()),
        None => None,
    }
}

/// Where the header that says where an upload continues leads.
#[derive(Debug)]
pub enum UploadRange {
    /// There is no such header.
    Absent,
    /// The header is not text.
    Unreadable,
    /// The upload continues at the end of the file.
    Append,
    /// The header gives ranges, to be parsed.
    Ranges(String),
}

/// What the header that says where an upload continues says.
pub enum UploadRangeView {
    Absent,
    Unreadable,
    Append,
    Ranges(Seq<char>),
}

impl View for UploadRange {
    type V = UploadRangeView;

    open spec fn view(&self) -> UploadRangeView {
        match self {
            UploadRange::Absent => UploadRangeView::Absent,
            UploadRange::Unreadable => UploadRangeView::Unreadable,
            UploadRange::Append => UploadRangeView::Append,
            UploadRange::Ranges(s) => UploadRangeView::Ranges(s@),
        }
    }
}

/// What the value of the header that says where an upload continues says.
pub open spec fn upload_range_in(value: Option<Seq<u8>>) -> UploadRangeView {
    match value {
        None => UploadRangeView::Absent,
        Some(value) => match visible_text(value) {
            None => UploadRangeView::Unreadable,
            Some(text) => if text == "append"@ {
                UploadRangeView::Append
            } else {
                UploadRangeView::Ranges(text)
            },
        },
    }
}

/// What the header that says where an upload continues says.
pub open spec fn upload_range_of(headers: HeaderMap<HeaderValue>) -> UploadRangeView {
    upload_range_in(first_value(headers, "x-update-range"@))
}

/// What the value of the header that says where an upload continues says.
pub fn read_upload_range(value: Option<Vec<u8>>) -> (r: UploadRange)
    ensures
        r@ == upload_range_in(optional_bytes(value)),
{
    match value {
        None => UploadRange::Absent,
        Some(value) => match header_text(&value) {
            None => UploadRange::Unreadable,
            Some(text) => if same(text.as_str(), "append") {
                UploadRange::Append
            } else {
                UploadRange::Ranges(text)
            },
        },
    }
}

/// What the header that says where an upload continues says.
pub fn upload_range(headers: &HeaderMap<HeaderValue>) -> (r: UploadRange)
    ensures
        r@ == upload_range_of(*headers),
{
    read_upload_range(header(headers, "x-update-range"))
}

/// Where an upload continues: nothing is said, a place, or the header is wrong.
#[derive(Debug, Clone, Copy, PartialEq, Eq, Structural)]
pub enum UploadOffset {
    Absent,
    At(u64),
    Invalid,
}

/// The list of ranges that a header gives, where it gives one.
pub open spec fn optional_ranges(ranges: Option<Vec<(u64, u64)>>) -> Option<Seq<(u64, u64)>> {
    match ranges {
        Some(v) => Some(v@),
        None => None,
    }
}

/// Where an upload to a file of a given size continues. `ranges` is what the header's text parses
/// to, where it gives ranges: the first of them counts.
pub open spec fn upload_offset_of(
    header: UploadRangeView,
    size: u64,
    ranges: Option<Seq<(u64, u64)>>,
) -> UploadOffset {
    match header {
        UploadRangeView::Absent => UploadOffset::Absent,
        UploadRangeView::Unreadable => UploadOffset::Invalid,
        UploadRangeView::Append => UploadOffset::At(size),
        UploadRangeView::Ranges(_) => match ranges {
            Some(list) => if list.len() > 0 {
                UploadOffset::At(list[0].0)
            } else {
                UploadOffset::Invalid
            },
            None => UploadOffset::Invalid,
        },
    }
}

/// Where an upload to a file of a given size continues, as the header says.
pub fn offset_in(range: UploadRange, size: u64, ranges: &Option<Vec<(u64, u64)>>) -> (r: UploadOffset)
    ensures
        r == upload_offset_of(range@, size, optional_ranges(*ranges)),
{
    match range {
        UploadRange::Absent => UploadOffset::Absent,
        UploadRange::Unreadable => UploadOffset::Invalid,
        UploadRange::Append => UploadOffset::At(size),
        UploadRange::Ranges(_) => match ranges {
            Some(list) => if list.len() > 0 {
                UploadOffset::At(list[0].0)
            } else {
                UploadOffset::Invalid
            },
            None => UploadOffset::Invalid,
        },
    }
}

/// Where an upload to a file of a given size continues.
pub fn parse_upload_offset(
    headers: &HeaderMap<HeaderValue>,
    size: u64,
    ranges: &Option<Vec<(u64, u64)>>,
) -> (r: UploadOffset)
    ensures
        r == upload_offset_of(upload_range_of(*headers), size, optional_ranges(*ranges)),
{
    offset_in(upload_range(headers), size, ranges)
}

/// Whether a character is a decimal digit.
pub open spec fn is_digit(c: char) -> bool {
    '0' <= c <= '9'
}

/// The number that decimal digits stand for.
pub open spec fn digits_value(s: Seq<char>) -> nat
    decreases s.len(),
{
    if s.len() == 0 {
        0
    } else {
        digits_value(s.drop_last()) * 10 + (s.last() as u32 - '0' as u32) as nat
    }
}

/// Whether a text is made of decimal digits, at least one.
pub open spec fn all_digits(s: Seq<char>) -> bool {
    s.len() > 0 && forall|i: int| 0 <= i < s.len() ==> is_digit(#[trigger] s[i])
}

/// The digits of a number: what comes after its sign, where it has one.
pub open spec fn unsigned_part(s: Seq<char>) -> Seq<char> {
    if s.len() > 0 && (s[0] == '+' || s[0] == '-') {
        s.drop_first()
    } else {
        s
    }
}

/// The number that a text stands for: decimal digits after an optional sign.
pub open spec fn number_value(s: Seq<char>) -> Option<int> {
    let digits = unsigned_part(s);
    if !all_digits(digits) {
        None
    } else if s[0] == '-' {
        Some(-(digits_value(digits) as int))
    } else {
        Some(digits_value(digits) as int)
    }
}

/// How deep a property request looks, where what the value of its header says is allowed: at the
/// directory itself, or at its entries too, which is also the case where nothing is said.
pub open spec fn depth_in(value: Option<Seq<u8>>) -> Option<u32> {
    match value {
        None => Some(1),
        Some(value) => match visible_text(value) {
            None => None,
            Some(text) => match number_value(text) {
                Some(n) => if 0 <= n <= 1 {
                    Some(n as u32)
                } else {
                    None
                },
                None => None,
            },
        },
    }
}

/// How deep a property request looks, where what it says is allowed.
pub open spec fn depth_of(headers: HeaderMap<HeaderValue>) -> Option<u32> {
    depth_in(first_value(headers, "depth"@))
}

/// The number that a text stands for, where it is zero or one.
fn small_number(s: &str) -> (r: Option<u32>)
    ensures
        match number_value(s@) {
            Some(n) => r == if 0 <= n <= 1 { Some(n as u32) } else { None },
            None => r is None,
        },
{
    let v = chars_of(s);
    let negative: bool = v.len() > 0 && v[0] == '-';
    let start: usize = if v.len() > 0 && (v[0] == '+' || v[0] == '-') {
        1
    } else {
        0
    };
    let ghost digits = v@.skip(start as int);
    assert(digits =~= unsigned_part(s@));
    if v.len() == start {
        return None;
    }
    let mut value: u32 = 0;
    let mut i: usize = start;
    assert(digits.take(0) =~= Seq::<char>::empty());
    while i < v.len()
        invariant
            start <= i <= v.len(),
            digits == v@.skip(start as int),
            forall|j: int| 0 <= j < i - start ==> is_digit(#[trigger] digits[j]),
            value <= 2,
            value == 2 <==> digits_value(digits.take(i - start)) >= 2,
            value < 2 ==> value == digits_value(digits.take(i - start)),
            number_value(s@) is Some ==> all_digits(digits),
        decreases v.len() - i,
    {
        let c: char = v[i];
        if !('0' <= c && c <= '9') {
            assert(!is_digit(digits[i - start]));
            return None;
        }
        proof {
            assert(is_digit(digits[i - start]));
            assert(digits.take(i - start + 1).drop_last() =~= digits.take(i - start));
        }
        let d: u32 = (c as u32) - 48;
        value = if value >= 1 {
            2
        } else if d >= 2 {
            2
        } else {
            d
        };
        i = i + 1;
    }
    assert(digits.take(i - start) =~= digits);
    if value == 0 || (value == 1 && !negative) {
        Some(value)
    } else {
        None
    }
}

/// How deep a property request looks, where what the value of its header says is allowed.
pub fn read_depth(value: Option<Vec<u8>>) -> (r: Option<u32>)
    ensures
        r == depth_in(optional_bytes(value)),
{
    match value {
        None => Some(1),
        Some(value) => match header_text(&value) {
            None => None,
            Some(text) => small_number(text.as_str()),
        },
    }
}

/// How deep a property request looks, where what it says is allowed.
pub fn propfind_depth(headers: &HeaderMap<HeaderValue>) -> (r: Option<u32>)
    ensures
        r == depth_of(*headers),
{
    read_depth(header(headers, "depth"))
}

} // verus!
