//! The cookie that carries the password of a directory.
use crate::exchange::{Grant, GrantView};
use crate::outside::{
    base64_char, fits_header, is_header_byte, is_header_text, sextet, url_base64, url_base64_decoded,
    url_base64_encode,
};
use crate::request::{bare, cookie_grant, left_bare, DIRECTORY_PASSWORD_COOKIE};
use crate::response::{Response, ResponseView};
use crate::text::{ends_with, has_last, lemma_cut, lemma_first_piece, pieces};
use crate::webdav::lemma_printable_fits_header;
use vstd::prelude::*;
use vstd::string::*;
use vstd::utf8::*;

verus! {

/// Whether a character belongs to the URL-safe alphabet of base64.
pub open spec fn is_url_base64_char(c: char) -> bool {
    'A' <= c <= 'Z' || 'a' <= c <= 'z' || '0' <= c <= '9' || c == '-' || c == '_'
}

/// An encoding holds only characters of the alphabet.
proof fn lemma_url_base64_chars(bytes: Seq<u8>)
    ensures
        forall|i: int|
            0 <= i < url_base64(bytes).len() ==> is_url_base64_char(#[trigger] url_base64(bytes)[i]),
{
    assert forall|i: int| 0 <= i < url_base64(bytes).len() implies is_url_base64_char(
        #[trigger] url_base64(bytes)[i],
    ) by {
        let n = sextet(bytes, i);
        assert(0 <= n < 64);
        assert(url_base64(bytes)[i] == base64_char(n, ('-', '_')));
    }
}

/// The path for which the cookie of a directory is sent.
pub open spec fn cookie_path(uri_prefix: Seq<char>, encoded: Seq<char>) -> Seq<char> {
    if has_last(uri_prefix + encoded, '/') {
        uri_prefix + encoded
    } else {
        (uri_prefix + encoded).push('/')
    }
}

/// What the cookie of a directory carries, before it is encoded.
pub open spec fn cookie_payload(grant: GrantView) -> Seq<u8> {
    encode_utf8(grant.directory + seq!['\0'] + grant.password)
}

/// The name and value of the cookie of a directory.
pub open spec fn cookie_item_text(grant: GrantView) -> Seq<char> {
    DIRECTORY_PASSWORD_COOKIE@ + "="@ + url_base64(cookie_payload(grant))
}

/// A cookie with an encoded payload, for a path.
pub open spec fn cookie_with(payload: Seq<char>, path: Seq<char>) -> Seq<char> {
    DIRECTORY_PASSWORD_COOKIE@ + "="@ + payload + "; Path="@ + path + "; HttpOnly; SameSite=Lax"@
}

/// The cookie of a directory, with its attributes.
pub open spec fn cookie_text(uri_prefix: Seq<char>, grant: GrantView) -> Seq<char> {
    cookie_with(url_base64(cookie_payload(grant)), cookie_path(uri_prefix, grant.encoded))
}

/// A cookie with an encoded payload, for the path of a directory that is encoded for a URI.
pub fn format_cookie(payload: &str, uri_prefix: &str, encoded: &str) -> (r: String)
    ensures
        r@ == cookie_with(payload@, cookie_path(uri_prefix@, encoded@)),
{
    let mut path = String::from_str(uri_prefix);
    path.append(encoded);
    if !ends_with(path.as_str(), '/') {
        path.push('/');
    }
    let mut value = String::from_str(DIRECTORY_PASSWORD_COOKIE);
    value.append("=");
    value.append(payload);
    value.append("; Path=");
    value.append(path.as_str());
    value.append("; HttpOnly; SameSite=Lax");
    value
}

/// What a client sends back of the cookie of a directory carries the directory and its password.
proof fn lemma_cookie_read_back(uri_prefix: Seq<char>, grant: GrantView)
    requires
        !grant.directory.contains('\0'),
        url_base64_decoded(url_base64(cookie_payload(grant))) == Some(cookie_payload(grant)),
    ensures
        cookie_grant(pieces(cookie_text(uri_prefix, grant), ';')[0]) == Some(
            (grant.directory, grant.password),
        ),
{
    reveal_strlit("dufs_dir_password");
    reveal_strlit("=");
    reveal_strlit("; Path=");
    let name = DIRECTORY_PASSWORD_COOKIE@;
    let b = url_base64(cookie_payload(grant));
    lemma_url_base64_chars(cookie_payload(grant));
    let item = cookie_item_text(grant);
    let rest = "; Path="@ + cookie_path(uri_prefix, grant.encoded) + "; HttpOnly; SameSite=Lax"@;
    assert("="@ =~= seq!['=']);
    assert(name.len() == 17);
    assert(forall|i: int| 0 <= i < 17 ==> name[i] != ';' && name[i] != '=');
    assert(!item.contains(';')) by {
        if item.contains(';') {
            let i = choose|i: int| 0 <= i < item.len() && item[i] == ';';
            if i < 17 {
                assert(name[i] == ';');
            } else if i == 17 {
            } else {
                assert(b[i - 18] == ';');
                assert(is_url_base64_char(b[i - 18]));
            }
        }
    }
    assert(cookie_text(uri_prefix, grant) =~= item + rest);
    assert(rest[0] == ';');
    lemma_first_piece(item, rest, ';');
    assert(item[0] == 'd');
    assert(left_bare(item) == item);
    if b.len() > 0 {
        assert(item.last() == b.last());
        assert(is_url_base64_char(b[b.len() - 1]));
    } else {
        assert(item.last() == '=');
    }
    assert(bare(item) == item);
    assert(!name.contains('='));
    lemma_cut(name, '=', b);
    assert(item =~= name + seq!['='] + b);
    let pair = grant.directory + seq!['\0'] + grant.password;
    encode_utf8_valid_utf8(pair);
    encode_utf8_decode_utf8(pair);
    lemma_cut(grant.directory, '\0', grant.password);
}

/// The bytes of two texts together are the bytes of the one and then those of the other.
proof fn lemma_bytes_of_both(a: Seq<char>, b: Seq<char>)
    ensures
        encode_utf8(a + b) == encode_utf8(a) + encode_utf8(b),
    decreases a.len(),
{
    if a.len() == 0 {
        assert(a + b =~= b);
        assert(encode_utf8(a) + encode_utf8(b) =~= encode_utf8(b));
    } else {
        lemma_bytes_of_both(a.drop_first(), b);
        assert((a + b).drop_first() =~= a.drop_first() + b);
        assert(encode_utf8(a + b) =~= encode_utf8(a) + encode_utf8(b));
    }
}

/// Two texts that can stand in a header can stand there together.
proof fn lemma_both_fit_header(a: Seq<char>, b: Seq<char>)
    requires
        is_header_text(a),
        is_header_text(b),
    ensures
        is_header_text(a + b),
{
    lemma_bytes_of_both(a, b);
    let x = encode_utf8(a);
    let y = encode_utf8(b);
    assert forall|i: int| 0 <= i < (x + y).len() implies is_header_byte(#[trigger] (x + y)[i]) by {
        if i < x.len() {
            assert((x + y)[i] == x[i]);
        } else {
            assert((x + y)[i] == y[i - x.len()]);
        }
    }
}

/// The cookie of a directory can stand in a header where the path that it is sent for can.
pub(crate) proof fn lemma_cookie_fits_header(uri_prefix: Seq<char>, grant: GrantView)
    requires
        is_header_text(uri_prefix),
        is_header_text(grant.encoded),
    ensures
        is_header_text(cookie_text(uri_prefix, grant)),
{
    let payload = url_base64(cookie_payload(grant));
    let encoded = grant.encoded;
    lemma_url_base64_chars(cookie_payload(grant));
    reveal_strlit("dufs_dir_password");
    reveal_strlit("=");
    reveal_strlit("; Path=");
    reveal_strlit("; HttpOnly; SameSite=Lax");
    let name = DIRECTORY_PASSWORD_COOKIE@;
    lemma_printable_fits_header(name);
    lemma_printable_fits_header("="@);
    lemma_printable_fits_header(payload);
    lemma_printable_fits_header("; Path="@);
    lemma_printable_fits_header("; HttpOnly; SameSite=Lax"@);
    lemma_printable_fits_header(seq!['/']);
    lemma_both_fit_header(uri_prefix, encoded);
    lemma_both_fit_header(uri_prefix + encoded, seq!['/']);
    assert((uri_prefix + encoded).push('/') =~= uri_prefix + encoded + seq!['/']);
    let path = cookie_path(uri_prefix, encoded);
    lemma_both_fit_header(name, "="@);
    lemma_both_fit_header(name + "="@, payload);
    lemma_both_fit_header(name + "="@ + payload, "; Path="@);
    lemma_both_fit_header(name + "="@ + payload + "; Path="@, path);
    lemma_both_fit_header(
        name + "="@ + payload + "; Path="@ + path,
        "; HttpOnly; SameSite=Lax"@,
    );
}

/// Gives the client the password of a directory in a cookie for the directory. Nothing is done, and
/// the result is false, where the cookie cannot stand in a header; it can where the prefix and the
/// encoded path of the directory can. What the client sends back of it carries the directory and its
/// password.
pub fn set_directory_password_cookie(uri_prefix: &str, grant: &Grant, res: &mut Response) -> (r: bool)
    requires
        cookie_payload(grant@).len() <= usize::MAX / 4,
    ensures
        r == is_header_text(cookie_text(uri_prefix@, grant@)),
        is_header_text(uri_prefix@) && is_header_text(grant@.encoded) ==> r,
        r ==> final(res)@ == (ResponseView {
            cookies: old(res)@.cookies.push(cookie_text(uri_prefix@, grant@)),
            ..old(res)@
        }),
        !r ==> final(res)@ == old(res)@,
        r && !grant@.directory.contains('\0') ==> cookie_grant(
            pieces(final(res)@.cookies.last(), ';')[0],
        ) == Some((grant@.directory, grant@.password)),
{
    let mut payload = grant.directory.clone();
    payload.push('\0');
    payload.append(grant.password.as_str());
    assert(payload@ =~= grant@.directory + seq!['\0'] + grant@.password);
    let encoded = url_base64_encode(payload.as_str().as_bytes());
    let value = format_cookie(encoded.as_str(), uri_prefix, grant.encoded.as_str());
    proof {
        if is_header_text(uri_prefix@) && is_header_text(grant@.encoded) {
            lemma_cookie_fits_header(uri_prefix@, grant@);
        }
    }
    if !fits_header(value.as_str()) {
        return false;
    }
    proof {
        if !grant@.directory.contains('\0') {
            lemma_cookie_read_back(uri_prefix@, grant@);
        }
    }
    res.add_cookie(value);
    true
}

} // verus!
