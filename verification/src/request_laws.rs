//! What holds of the headers, cookies and queries of requests.
use crate::directory_search::{SearchStepView, SearchView};
use crate::exchange::{ExchangeView, GrantView};
use crate::outside::{
    header_values, lower_case, query_pairs, uri_parts, url_base64, url_base64_decoded,
};
use crate::password_cookie::{cookie_path, cookie_text};
use crate::paths::{FsPathView, PartView};
use crate::request::{
    all_digits, bare, cookie_grant, cookie_grants, depth_in, depth_of, destination_parts, digits_value,
    first_text, first_value, is_digit, is_visible, item_grants, left_bare, method_named, right_bare,
    unsigned_part, upload_offset_of, upload_range_in, upload_range_of, visible_text, UploadOffset, UploadRangeView,
    DIRECTORY_PASSWORD_COOKIE,
};
use crate::send_file::joined_values;
use crate::string_map::pairs_map;
use crate::text::{decimal_text, joined, lemma_cut, pieces};
use crate::text_laws::{law_cut_at_first, law_decimal};
use hyper::header::HeaderValue;
use hyper::HeaderMap;
use vstd::prelude::*;
use vstd::string::*;
use vstd::utf8::*;

verus! {

/// A header is read as text where all its bytes are printable or tabs, and then gives one character for
/// each byte.
pub proof fn law_headers_are_read(value: Seq<u8>, i: int)
    ensures
        visible_text(value) is Some <==> forall|j: int|
            0 <= j < value.len() ==> #[trigger] value[j] == 9 || 0x20 <= value[j] <= 0x7E,
        visible_text(value) is Some ==> visible_text(value)->0.len() == value.len(),
        visible_text(value) is Some && 0 <= i < value.len() ==> visible_text(value)->0[i]
            == value[i] as char,
{
    if forall|j: int| 0 <= j < value.len() ==> #[trigger] value[j] == 9 || 0x20 <= value[j] <= 0x7E {
        assert(visible_text(value) is Some);
    }
    if visible_text(value) is Some {
        assert forall|j: int| 0 <= j < value.len() implies #[trigger] value[j] == 9 || 0x20
            <= value[j] <= 0x7E by {
            assert(is_visible(value[j]));
        }
    }
}

/// Of the values under a name the first one counts.
pub proof fn law_first_values_count(headers: HeaderMap<HeaderValue>, name: Seq<char>)
    ensures
        header_values(headers, name).len() == 0 ==> first_value(headers, name) is None,
        header_values(headers, name).len() > 0 ==> first_value(headers, name) == Some(
            header_values(headers, name)[0],
        ),
        header_values(headers, name).len() == 0 ==> first_text(headers, name) is None,
        header_values(headers, name).len() > 0 ==> first_text(headers, name) == visible_text(
            header_values(headers, name)[0],
        ),
{
}

/// The destination of a copy or move is the address in its header, where that can be read.
pub proof fn law_destinations_are_read(headers: HeaderMap<HeaderValue>)
    ensures
        first_text(headers, "destination"@) is None ==> destination_parts(headers) is None,
        first_text(headers, "destination"@) is Some ==> destination_parts(headers) == uri_parts(
            first_text(headers, "destination"@)->0,
        ),
{
}

/// Cookies are read one after the other, from all headers that carry them.
pub proof fn law_cookies_are_read_in_order(
    values: Seq<Seq<u8>>,
    more: Seq<Seq<u8>>,
    items: Seq<Seq<char>>,
    more_items: Seq<Seq<char>>,
)
    ensures
        cookie_grants(values + more) == cookie_grants(values) + cookie_grants(more),
        item_grants(items + more_items) == item_grants(items) + item_grants(more_items),
        cookie_grants(Seq::empty()).len() == 0,
        item_grants(Seq::empty()).len() == 0,
{
    lemma_values_read(values, more);
    lemma_items_read(items, more_items);
}

proof fn lemma_values_read(values: Seq<Seq<u8>>, more: Seq<Seq<u8>>)
    ensures
        cookie_grants(values + more) == cookie_grants(values) + cookie_grants(more),
    decreases more.len(),
{
    if more.len() == 0 {
        assert(values + more =~= values);
        assert(cookie_grants(values) + cookie_grants(more) =~= cookie_grants(values));
    } else {
        lemma_values_read(values, more.drop_last());
        assert((values + more).drop_last() =~= values + more.drop_last());
        assert(cookie_grants(values + more) =~= cookie_grants(values) + cookie_grants(more));
    }
}

proof fn lemma_items_read(items: Seq<Seq<char>>, more: Seq<Seq<char>>)
    ensures
        item_grants(items + more) == item_grants(items) + item_grants(more),
    decreases more.len(),
{
    if more.len() == 0 {
        assert(items + more =~= items);
        assert(item_grants(items) + item_grants(more) =~= item_grants(items));
    } else {
        lemma_items_read(items, more.drop_last());
        assert((items + more).drop_last() =~= items + more.drop_last());
        assert(item_grants(items + more) =~= item_grants(items) + item_grants(more));
    }
}

/// A header that carries cookies gives those of its items, which semicolons part; one that cannot be
/// read gives none.
pub proof fn law_cookies_are_parted(value: Seq<u8>, item: Seq<char>)
    ensures
        visible_text(value) is Some ==> cookie_grants(seq![value]) == item_grants(
            pieces(visible_text(value)->0, ';'),
        ),
        visible_text(value) is None ==> cookie_grants(seq![value]).len() == 0,
        cookie_grant(item) is Some ==> item_grants(seq![item]) == seq![cookie_grant(item)->0],
        cookie_grant(item) is None ==> item_grants(seq![item]).len() == 0,
{
    reveal_with_fuel(cookie_grants, 2);
    reveal_with_fuel(item_grants, 2);
    assert(seq![value].drop_last() =~= Seq::<Seq<u8>>::empty());
    assert(seq![item].drop_last() =~= Seq::<Seq<char>>::empty());
    if visible_text(value) is Some {
        let given = item_grants(pieces(visible_text(value)->0, ';'));
        assert(Seq::<(Seq<char>, Seq<char>)>::empty() + given =~= given);
    }
}

/// A cookie with the name of the server's own carries the directory and the password that its value
/// encodes, whatever blanks stand around it; a cookie with another name carries nothing.
pub proof fn law_cookies_carry_passwords(
    value: Seq<char>,
    directory: Seq<char>,
    password: Seq<char>,
    name: Seq<char>,
)
    requires
        value.len() > 0,
        value.last() != ' ' && value.last() != '\t',
    ensures
        ({
            let item = "dufs_dir_password="@ + value;
            let given = url_base64_decoded(value);
            &&& given == Some(encode_utf8(directory + seq!['\0'] + password))
                && !directory.contains('\0') ==> {
                &&& cookie_grant(item) == Some((directory, password))
                &&& cookie_grant(seq![' '] + item) == Some((directory, password))
            }
            &&& given is None ==> cookie_grant(item) is None
            &&& given is Some && !valid_utf8(given->0) ==> cookie_grant(item) is None
        }),
        name.len() > 0 && name[0] != ' ' && name[0] != '\t' && !name.contains('=') && name
            != "dufs_dir_password"@ ==> cookie_grant(name + seq!['='] + value) is None,
        !name.contains('=') ==> cookie_grant(name) is None,
        DIRECTORY_PASSWORD_COOKIE@ == "dufs_dir_password"@,
{
    reveal_strlit("dufs_dir_password=");
    reveal_strlit("dufs_dir_password");
    let own = "dufs_dir_password"@;
    let item = "dufs_dir_password="@ + value;
    assert(item =~= own + seq!['='] + value);
    assert(!own.contains('=')) by {
        assert(own.len() == 17);
        assert(forall|i: int| 0 <= i < 17 ==> own[i] != '=');
    }
    lemma_cut(own, '=', value);
    assert(item[0] == 'd');
    assert(item.last() == value.last());
    assert(left_bare(item) == item);
    assert(right_bare(item) == item);
    assert(bare(item) == item);
    assert((seq![' '] + item).drop_first() =~= item);
    assert(left_bare(seq![' '] + item) == item) by {
        reveal_with_fuel(left_bare, 2);
    }
    assert(bare(seq![' '] + item) == item);
    let pair = directory + seq!['\0'] + password;
    encode_utf8_valid_utf8(pair);
    encode_utf8_decode_utf8(pair);
    if !directory.contains('\0') {
        lemma_cut(directory, '\0', password);
    }
    if name.len() > 0 && name[0] != ' ' && name[0] != '\t' && !name.contains('=') {
        let other = name + seq!['='] + value;
        lemma_cut(name, '=', value);
        assert(other[0] == name[0]);
        assert(other.last() == value.last());
        assert(bare(other) == other);
    }
    if !name.contains('=') {
        lemma_bare_holds(name, '=');
        law_cut_at_first(bare(name), '=', Seq::empty());
    }
}

/// What stands in a text without its blanks stands in the text.
proof fn lemma_bare_holds(s: Seq<char>, c: char)
    requires
        !s.contains(c),
    ensures
        !bare(s).contains(c),
{
    lemma_left_bare_holds(s, c);
    lemma_right_bare_holds(left_bare(s), c);
}

proof fn lemma_left_bare_holds(s: Seq<char>, c: char)
    requires
        !s.contains(c),
    ensures
        !left_bare(s).contains(c),
    decreases s.len(),
{
    if s.len() > 0 && (s[0] == ' ' || s[0] == '\t') {
        let rest = s.drop_first();
        assert(!rest.contains(c)) by {
            if rest.contains(c) {
                let i = choose|i: int| 0 <= i < rest.len() && rest[i] == c;
                assert(s[i + 1] == c);
            }
        }
        lemma_left_bare_holds(rest, c);
    }
}

proof fn lemma_right_bare_holds(s: Seq<char>, c: char)
    requires
        !s.contains(c),
    ensures
        !right_bare(s).contains(c),
    decreases s.len(),
{
    if s.len() > 0 && (s.last() == ' ' || s.last() == '\t') {
        let rest = s.drop_last();
        assert(!rest.contains(c)) by {
            if rest.contains(c) {
                let i = choose|i: int| 0 <= i < rest.len() && rest[i] == c;
                assert(s[i] == c);
            }
        }
        lemma_right_bare_holds(rest, c);
    }
}

/// The cookie of a directory carries its encoded path and password, and is sent for all that lies below
/// the directory.
pub proof fn law_cookies_are_written(prefix: Seq<char>, grant: GrantView)
    ensures
        ({
            let path = prefix + grant.encoded;
            let open = if path.len() > 0 && path.last() == '/' {
                path
            } else {
                path + seq!['/']
            };
            &&& cookie_path(prefix, grant.encoded) == open
            &&& cookie_text(prefix, grant) == "dufs_dir_password"@ + "="@ + url_base64(
                encode_utf8(grant.directory + seq!['\0'] + grant.password),
            ) + "; Path="@ + open + "; HttpOnly; SameSite=Lax"@
        }),
{
    assert((prefix + grant.encoded).push('/') =~= prefix + grant.encoded + seq!['/']);
}

/// What is known of a request from its headers: whether it has credentials, its client in lower case,
/// the values of its query, and the passwords in its cookies.
pub proof fn law_requests_are_begun(
    method: Seq<char>,
    req_path: Seq<char>,
    relative_path: Seq<char>,
    query: Seq<char>,
    headers: HeaderMap<HeaderValue>,
)
    ensures
        ({
            let ex = ExchangeView::begun(method, req_path, relative_path, query, headers);
            let agents = header_values(headers, "user-agent"@);
            let known = agents.len() > 0 && visible_text(agents[0]) is Some;
            &&& ex.method == method_named(method)
            &&& ex.req_path == req_path
            &&& ex.relative_path == relative_path
            &&& ex.authorized <==> header_values(headers, "authorization"@).len() > 0
            &&& known ==> ex.user_agent == lower_case(visible_text(agents[0])->0)
            &&& !known ==> ex.user_agent.len() == 0
            &&& ex.query == pairs_map(query_pairs(encode_utf8(query)))
            &&& ex.cookies == cookie_grants(header_values(headers, "cookie"@))
        }),
{
}

/// Where an upload continues is what its header says: nowhere without it, at the end where it says so,
/// else at the start of its first range.
pub proof fn law_uploads_say_where(
    text: Seq<char>,
    value: Seq<u8>,
    size: u64,
    first: (u64, u64),
    rest: Seq<(u64, u64)>,
)
    ensures
        upload_range_in(None) == UploadRangeView::Absent,
        visible_text(value) is None ==> upload_range_in(Some(value)) == UploadRangeView::Unreadable,
        visible_text(value) == Some("append"@) ==> upload_range_in(Some(value))
            == UploadRangeView::Append,
        visible_text(value) == Some(text) && text != "append"@ ==> upload_range_in(Some(value))
            == UploadRangeView::Ranges(text),
        upload_offset_of(UploadRangeView::Absent, size, Some(seq![first] + rest))
            == UploadOffset::Absent,
        upload_offset_of(UploadRangeView::Absent, size, None) == UploadOffset::Absent,
        upload_offset_of(UploadRangeView::Unreadable, size, Some(seq![first] + rest))
            == UploadOffset::Invalid,
        upload_offset_of(UploadRangeView::Unreadable, size, None) == UploadOffset::Invalid,
        upload_offset_of(UploadRangeView::Append, size, Some(seq![first] + rest))
            == UploadOffset::At(size),
        upload_offset_of(UploadRangeView::Append, size, None) == UploadOffset::At(size),
        upload_offset_of(UploadRangeView::Ranges(text), size, Some(seq![first] + rest))
            == UploadOffset::At(first.0),
        upload_offset_of(UploadRangeView::Ranges(text), size, Some(Seq::empty()))
            == UploadOffset::Invalid,
        upload_offset_of(UploadRangeView::Ranges(text), size, None) == UploadOffset::Invalid,
{
    assert((seq![first] + rest)[0] == first);
}

/// The headers that say where an upload continues and how deep a property request looks are these.
pub proof fn law_headers_of_methods(headers: HeaderMap<HeaderValue>)
    ensures
        upload_range_of(headers) == upload_range_in(first_value(headers, "x-update-range"@)),
        depth_of(headers) == depth_in(first_value(headers, "depth"@)),
{
}

/// A property request looks one level deep unless it says so or otherwise: zero and one are the depths
/// that there are, and anything else is refused.
pub proof fn law_depths(value: Seq<u8>, n: nat)
    ensures
        visible_text(value) == Some(decimal_text(n)) ==> depth_in(Some(value)) == if n <= 1 {
            Some(n as u32)
        } else {
            None
        },
        depth_in(None) == Some(1u32),
        value == seq![0x30u8] ==> depth_in(Some(value)) == Some(0u32),
        value == seq![0x31u8] ==> depth_in(Some(value)) == Some(1u32),
        value.len() == 1 && value[0] != 0x30 && value[0] != 0x31 ==> depth_in(Some(value)) is None,
        value.len() == 0 ==> depth_in(Some(value)) is None,
        depth_in(Some(value)) is Some ==> depth_in(Some(value))->0 <= 1,
        depth_in(Some(value)) is Some ==> forall|i: int|
            1 <= i < value.len() ==> 0x30 <= #[trigger] value[i] <= 0x39,
{
    law_headers_are_read(value, 0);
    law_decimal(n, 0);
    reveal_with_fuel(digits_value, 2);
    if value.len() == 1 && visible_text(value) is Some {
        let text = visible_text(value)->0;
        assert(text[0] == value[0] as char);
        if text[0] == '+' || text[0] == '-' {
            assert(text.drop_first().len() == 0);
        } else {
            assert(text.drop_last().len() == 0);
            assert(digits_value(text) == (text[0] as u32 - '0' as u32) as nat);
            if all_digits(text) {
                assert(is_digit(text[0]));
            }
            if value[0] == 0x30 || value[0] == 0x31 {
                assert(all_digits(text));
            }
        }
    }
    if depth_in(Some(value)) is Some {
        let text = visible_text(value)->0;
        let digits = unsigned_part(text);
        assert forall|i: int| 1 <= i < value.len() implies 0x30 <= #[trigger] value[i] <= 0x39 by {
            law_headers_are_read(value, i);
            if digits.len() < text.len() {
                assert(digits[i - 1] == text[i]);
                assert(is_digit(digits[i - 1]));
            } else {
                assert(is_digit(digits[i]));
            }
        }
    }
}

/// Of several values for a key the last one counts, and the others stay.
pub proof fn law_later_values_count(
    pairs: Seq<(Seq<char>, Seq<char>)>,
    key: Seq<char>,
    value: Seq<char>,
    other: Seq<char>,
)
    ensures
        pairs_map(pairs.push((key, value))).contains_key(key),
        pairs_map(pairs.push((key, value)))[key] == value,
        other != key ==> pairs_map(pairs.push((key, value))).contains_key(other) == pairs_map(
            pairs,
        ).contains_key(other),
        other != key && pairs_map(pairs).contains_key(other) ==> pairs_map(
            pairs.push((key, value)),
        )[other] == pairs_map(pairs)[other],
        !pairs_map(Seq::empty()).contains_key(key),
{
    assert(pairs.push((key, value)).drop_last() =~= pairs);
}

/// Several values of a header are read as one, with a comma and a blank between them.
pub proof fn law_values_are_joined(values: Seq<Seq<u8>>, value: Seq<u8>)
    ensures
        joined_values(seq![value]) == value,
        values.len() > 0 ==> joined_values(values.push(value)) == joined_values(values) + seq![
            ',' as u8,
            ' ' as u8,
        ] + value,
        joined_values(Seq::empty()).len() == 0,
{
    assert(values.push(value).drop_last() =~= values);
    assert(',' as u8 == 0x2C && ' ' as u8 == 0x20);
}

/// The search for the directory that a request leads to goes up from a place until it finds one, and
/// gives the names that lead there.
pub proof fn law_searches_go_up(names: Seq<Seq<char>>, name: Seq<char>, path: FsPathView, p: PartView)
    ensures
        ({
            let below = SearchView {
                names: names.push(name),
                path: FsPathView { absolute: path.absolute, parts: path.parts.push(p) },
            };
            &&& below.advance(true) == SearchStepView::Found(Some(joined(names.push(name), '/')))
            &&& below.advance(false) == SearchStepView::Next(SearchView { names, path })
        }),
        (SearchView { names: Seq::empty(), path }).advance(true) == SearchStepView::Found(None),
        (SearchView { names: Seq::empty(), path }).advance(false) == SearchStepView::Found(None),
{
    assert(names.push(name).drop_last() =~= names);
    assert(path.parts.push(p).drop_last() =~= path.parts);
    let below = FsPathView { absolute: path.absolute, parts: path.parts.push(p) };
    assert(below.parent() == Some(path));
}

} // verus!
