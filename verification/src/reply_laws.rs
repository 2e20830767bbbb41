//! What holds of replies: what they say, and what they leave as it was.
use crate::access::{AccessPerm, AccessView};
use crate::clipboard::{body_text, Collected, CLIPBOARD_MAX_SIZE};
use crate::directory_auth::{chain, on_chain, DirectoryAuthView};
use crate::items::{dav_date, dav_xml, signed_millis, PathItemView, PathType};
use crate::outside::{
    escaped, is_header_text, is_hyphenated_id, is_simple_id, standard_base64, utc_text,
    DAV_DATE_FORMAT,
};
use crate::pages::{archive_reply, internal_reply, with_text, Asset, InternalView};
use crate::response::{BodyView, ResponseView, Source};
use crate::server::ServerView;
use crate::text::{decimal_text, pieces, replaced};
use crate::webdav::{
    dav_responses, directory_made, is_lock_token, lacks_password, lemma_printable_fits_header, locked,
    proppatch_text, shown_entries, signed_text, stored, upload_plan_of, Stored, UploadMode,
    PASSWORD_BODY_LIMIT, RESUMABLE_UPLOAD_MIN_SIZE,
};
use vstd::prelude::*;
use vstd::string::*;
use vstd::utf8::*;

verus! {

/// A reply begins with nothing but success.
pub proof fn law_replies_begin_empty()
    ensures
        ResponseView::fresh().status == 200,
        ResponseView::fresh().body == BodyView::Empty,
        !ResponseView::fresh().challenge,
        ResponseView::fresh().cookies.len() == 0,
        forall|name: Seq<char>| !(#[trigger] ResponseView::fresh().headers.contains_key(name)),
{
}

/// Setting one thing of a reply leaves the others.
pub proof fn law_replies_keep_the_rest(
    res: ResponseView,
    name: Seq<char>,
    value: Seq<char>,
    other: Seq<char>,
    status: u16,
    body: BodyView,
)
    ensures
        res.header(name, value).headers.contains_key(name),
        res.header(name, value).headers[name] == value,
        other != name ==> res.header(name, value).headers.contains_key(other)
            == res.headers.contains_key(other),
        other != name && res.headers.contains_key(other) ==> res.header(name, value).headers[other]
            == res.headers[other],
        res.header(name, value).status == res.status,
        res.header(name, value).body == res.body,
        res.header(name, value).cookies == res.cookies,
        res.header(name, value).challenge == res.challenge,
        res.status(status) == (ResponseView { status, ..res }),
        res.text(value) == (ResponseView { body: BodyView::Text(value), ..res }),
        res.body(body) == (ResponseView { body, ..res }),
{
}

/// A reply that refuses, or that does not find, says so by its status and in words, and keeps the
/// headers and cookies that it had.
pub proof fn law_refusals(res: ResponseView, reason: Seq<char>)
    ensures
        res.forbidden() == (ResponseView {
            status: 403,
            body: BodyView::Text("Forbidden"@),
            ..res
        }),
        res.not_found() == (ResponseView {
            status: 404,
            body: BodyView::Text("Not Found"@),
            ..res
        }),
        res.password_required() == (ResponseView {
            status: 401,
            headers: res.headers.insert("x-dufs-directory-password"@, "required"@),
            body: BodyView::Text("Directory password required"@),
            ..res
        }),
        res.rejected() == (ResponseView {
            status: 401,
            headers: res.headers.insert(
                "allow"@,
                "GET,HEAD,PUT,OPTIONS,DELETE,PATCH,PROPFIND,COPY,MOVE,CHECKAUTH,LOGOUT"@,
            ).insert("dav"@, "1, 2, 3"@),
            challenge: true,
            ..res
        }),
        res.method_not_allowed() == (ResponseView { status: 405, ..res }),
        res.bad_request(reason).status == 400,
        reason.len() > 0 ==> res.bad_request(reason).body == BodyView::Text(reason),
        reason.len() == 0 ==> res.bad_request(reason).body == res.body,
        res.bad_request(reason).headers == res.headers,
        res.bad_request(reason).cookies == res.cookies,
        res.bad_request(reason).challenge == res.challenge,
{
}

/// A reply that all is done changes the status only, and one of several responses holds them all in one
/// element.
pub proof fn law_successes(res: ResponseView, content: Seq<char>)
    ensures
        res.no_content() == (ResponseView { status: 204, ..res }),
        res.webdav_headers() == (ResponseView {
            headers: res.headers.insert(
                "allow"@,
                "GET,HEAD,PUT,OPTIONS,DELETE,PATCH,PROPFIND,COPY,MOVE,CHECKAUTH,LOGOUT"@,
            ).insert("dav"@, "1, 2, 3"@),
            ..res
        }),
        res.multistatus(content) == (ResponseView {
            status: 207,
            headers: res.headers.insert("content-type"@, "application/xml; charset=utf-8"@),
            body: BodyView::Text(
                "<?xml version=\"1.0\" encoding=\"utf-8\" ?>\n<D:multistatus xmlns:D=\"DAV:\">\n"@
                    + content + "\n</D:multistatus>"@,
            ),
            ..res
        }),
{
}

/// A reply with a text says its type and how many bytes it has; the text itself is left out where only
/// the headers are asked for, and nothing else differs there.
pub proof fn law_texts_are_replied_with(
    res: ResponseView,
    content_type: Seq<char>,
    output: Seq<char>,
)
    ensures
        with_text(res, content_type, output, false) == (ResponseView {
            headers: res.headers.insert("content-type"@, content_type).insert(
                "content-length"@,
                decimal_text(encode_utf8(output).len()),
            ),
            body: BodyView::Text(output),
            ..res
        }),
        with_text(res, content_type, output, true) == (ResponseView {
            body: res.body,
            ..with_text(res, content_type, output, false)
        }),
{
}

/// A reply with an archive says under which name it is to be kept, and sends it unless only the headers
/// are asked for.
pub proof fn law_archives_are_replied_with(res: ResponseView, disposition: Seq<char>)
    ensures
        archive_reply(res, disposition, false) == (ResponseView {
            headers: res.headers.insert("content-disposition"@, disposition).insert(
                "content-type"@,
                "application/zip"@,
            ),
            body: BodyView::Stream(Source::Archive),
            ..res
        }),
        archive_reply(res, disposition, true) == (ResponseView {
            body: res.body,
            ..archive_reply(res, disposition, false)
        }),
{
}

/// The program's own files are sent with their types, to be kept by the client; what is none of them is
/// not found; the health of the server is told in JSON.
pub proof fn law_own_files_are_sent(res: ResponseView, asset: Asset)
    ensures
        ({
            let sent = internal_reply(res, InternalView::Embedded(asset));
            let lost = internal_reply(res, InternalView::Unknown);
            let health = internal_reply(res, InternalView::Health);
            let kept = "public, max-age=31536000, immutable"@;
            &&& sent == (ResponseView {
                headers: res.headers.insert(
                    "content-type"@,
                    match asset {
                        Asset::Script => "application/javascript; charset=UTF-8"@,
                        Asset::Style => "text/css; charset=UTF-8"@,
                        Asset::Icon => "image/x-icon"@,
                    },
                ).insert("cache-control"@, kept).insert("x-content-type-options"@, "nosniff"@),
                body: BodyView::Stream(Source::Asset),
                ..res
            })
            &&& lost == (ResponseView {
                status: 404,
                headers: res.headers.insert("cache-control"@, kept).insert(
                    "x-content-type-options"@,
                    "nosniff"@,
                ),
                body: BodyView::Text("Not Found"@),
                ..res
            })
            &&& health == (ResponseView {
                headers: res.headers.insert("content-type"@, "application/json"@),
                body: BodyView::Text("{\"status\":\"OK\"}"@),
                ..res
            })
        }),
{
}

/// The page of the user interface is its text with the way to its files and the data filled in.
pub proof fn law_pages_are_filled(server: ServerView, json: Seq<char>)
    ensures
        server.page(json) == replaced(
            replaced(
                server.html,
                "__ASSETS_PREFIX__"@,
                server.args.uri_prefix + server.assets_prefix,
            ),
            "__INDEX_DATA__"@,
            standard_base64(encode_utf8(json)),
        ),
{
}

/// An upload makes a new file, unless it continues one: at its end or at the place that it names.
pub proof fn law_uploads_are_written(start: u64, size: u64)
    ensures
        upload_plan_of(None, size) == (UploadMode::Create, 201u16),
        upload_plan_of(Some(size), size) == (UploadMode::Append, 204u16),
        start != size ==> upload_plan_of(Some(start), size) == (UploadMode::WriteAt(start), 204u16),
        RESUMABLE_UPLOAD_MIN_SIZE == 20 * 1024 * 1024,
{
}

/// The responses for entries stand in their order, one for each.
pub proof fn law_responses_stand_in_order(
    items: Seq<PathItemView>,
    more: Seq<PathItemView>,
    encoded: Seq<Seq<char>>,
    more_encoded: Seq<Seq<char>>,
    item: PathItemView,
    address: Seq<char>,
)
    requires
        items.len() == encoded.len(),
        more.len() == more_encoded.len(),
    ensures
        dav_responses(items + more, encoded + more_encoded) == dav_responses(items, encoded)
            + dav_responses(more, more_encoded),
        dav_responses(seq![item], seq![address]) == dav_xml(item, address),
        dav_responses(Seq::empty(), Seq::empty()) == Seq::<char>::empty(),
    decreases more.len(),
{
    reveal_with_fuel(dav_responses, 2);
    assert(seq![item].drop_last() =~= Seq::<PathItemView>::empty());
    assert(Seq::<char>::empty() + dav_xml(item, address) =~= dav_xml(item, address));
    if more.len() == 0 {
        assert(items + more =~= items);
        assert(encoded + more_encoded =~= encoded);
        assert(dav_responses(items, encoded) + Seq::<char>::empty() =~= dav_responses(
            items,
            encoded,
        ));
    } else {
        law_responses_stand_in_order(
            items,
            more.drop_last(),
            encoded,
            more_encoded.drop_last(),
            item,
            address,
        );
        assert((items + more).drop_last() =~= items + more.drop_last());
        assert((encoded + more_encoded).drop_last() =~= encoded + more_encoded.drop_last());
        let last = dav_xml(more.last(), more_encoded.last());
        assert(dav_responses(items, encoded) + (dav_responses(
            more.drop_last(),
            more_encoded.drop_last(),
        ) + last) =~= (dav_responses(items, encoded) + dav_responses(
            more.drop_last(),
            more_encoded.drop_last(),
        )) + last);
    }
}

/// The response for a file says its address, name, size and time.
pub proof fn law_files_have_properties(item: PathItemView, address: Seq<char>)
    requires
        item.path_type == PathType::File || item.path_type == PathType::SymlinkFile,
    ensures
        dav_xml(item, address) == "<D:response>\n<D:href>"@ + address
            + "</D:href>\n<D:propstat>\n<D:prop>\n<D:displayname>"@ + escaped(
            pieces(item.name, '/').last(),
        ) + "</D:displayname>\n"@ + ("<D:getcontentlength>"@ + decimal_text(item.size as nat)
            + "</D:getcontentlength>\n"@) + "<D:getlastmodified>"@ + dav_date(item.mtime)
            + "</D:getlastmodified>\n<D:resourcetype>"@
            + "</D:resourcetype>\n</D:prop>\n<D:status>HTTP/1.1 200 OK</D:status>\n</D:propstat>\n</D:response>"@,
{
    let before = "<D:response>\n<D:href>"@ + address
        + "</D:href>\n<D:propstat>\n<D:prop>\n<D:displayname>"@ + escaped(
        pieces(item.name, '/').last(),
    ) + "</D:displayname>\n"@ + ("<D:getcontentlength>"@ + decimal_text(item.size as nat)
        + "</D:getcontentlength>\n"@) + "<D:getlastmodified>"@ + dav_date(item.mtime)
        + "</D:getlastmodified>\n<D:resourcetype>"@;
    assert(before + Seq::<char>::empty() =~= before);
}

/// The response for a directory says that it is one, its address, which ends with a slash, its name
/// and time.
pub proof fn law_directories_have_properties(item: PathItemView, address: Seq<char>)
    requires
        item.path_type == PathType::Dir || item.path_type == PathType::SymlinkDir,
        address.len() > 0,
    ensures
        ({
            let open = if address.last() == '/' {
                address
            } else {
                address + seq!['/']
            };
            dav_xml(item, address) == "<D:response>\n<D:href>"@ + open
                + "</D:href>\n<D:propstat>\n<D:prop>\n<D:displayname>"@ + escaped(
                pieces(item.name, '/').last(),
            ) + "</D:displayname>\n"@ + "<D:getlastmodified>"@ + dav_date(item.mtime)
                + "</D:getlastmodified>\n<D:resourcetype>"@ + "<D:collection/>"@
                + "</D:resourcetype>\n</D:prop>\n<D:status>HTTP/1.1 200 OK</D:status>\n</D:propstat>\n</D:response>"@
        }),
{
    let open = if address.last() == '/' {
        address
    } else {
        address + seq!['/']
    };
    assert(address + seq!['/'] =~= address.push('/'));
    let head = "<D:response>\n<D:href>"@ + open
        + "</D:href>\n<D:propstat>\n<D:prop>\n<D:displayname>"@ + escaped(
        pieces(item.name, '/').last(),
    ) + "</D:displayname>\n"@;
    assert(head + Seq::<char>::empty() =~= head);
}

/// Times are told from the milliseconds of an entry, which count from before the epoch where they are
/// that large; one that cannot be told is left empty.
pub proof fn law_times_are_told(mtime: u64)
    ensures
        DAV_DATE_FORMAT@ == "%a, %d %b %Y %H:%M:%S GMT"@,
        mtime < 0x8000_0000_0000_0000 ==> signed_millis(mtime) == mtime,
        mtime >= 0x8000_0000_0000_0000 ==> signed_millis(mtime) < 0 && signed_millis(mtime)
            + 0x1_0000_0000_0000_0000 == mtime,
        utc_text(signed_millis(mtime) as i64, DAV_DATE_FORMAT@) is Some ==> Some(dav_date(mtime))
            == utc_text(signed_millis(mtime) as i64, DAV_DATE_FORMAT@),
        utc_text(signed_millis(mtime) as i64, DAV_DATE_FORMAT@) is None ==> dav_date(mtime).len()
            == 0,
{
}

/// A directory is shown before its entries, and those only where the request looks that deep.
pub proof fn law_depth_decides_what_is_shown(own: PathItemView, children: Seq<PathItemView>)
    ensures
        shown_entries(0, Some(own), children) == seq![own],
        shown_entries(1, Some(own), children) == seq![own] + children,
        shown_entries(0, None, children).len() == 0,
        shown_entries(1, None, children) == children,
{
    assert(Seq::<PathItemView>::empty() + children =~= children);
}

/// Properties are never changed: the reply names the path and refuses.
pub proof fn law_properties_stay(req_path: Seq<char>)
    ensures
        proppatch_text(req_path) == "<D:response>\n<D:href>"@ + req_path
            + "</D:href>\n<D:propstat>\n<D:prop>\n</D:prop>\n<D:status>HTTP/1.1 403 Forbidden</D:status>\n</D:propstat>\n</D:response>"@,
{
}

/// A lock is granted with its token, in a header and in the body, which names the path too.
pub proof fn law_locks_are_granted(res: ResponseView, token: Seq<char>, req_path: Seq<char>)
    ensures
        locked(res, token, req_path) == (ResponseView {
            headers: res.headers.insert("content-type"@, "application/xml; charset=utf-8"@).insert(
                "lock-token"@,
                "<"@ + token + ">"@,
            ),
            body: BodyView::Text(
                "<?xml version=\"1.0\" encoding=\"utf-8\"?>\n<D:prop xmlns:D=\"DAV:\"><D:lockdiscovery><D:activelock>\n<D:locktoken><D:href>"@
                    + token + "</D:href></D:locktoken>\n<D:lockroot><D:href>"@ + req_path
                    + "</D:href></D:lockroot>\n</D:activelock></D:lockdiscovery></D:prop>"@,
            ),
            ..res
        }),
{
}

/// The token of a lock is random for a request with credentials, and else a number.
pub proof fn law_lock_tokens(token: Seq<char>)
    ensures
        is_lock_token(token, true) <==> exists|id: Seq<char>| #[trigger]
            is_hyphenated_id(id) && token == "opaquelocktoken:"@ + id,
        is_lock_token(token, false) <==> exists|n: nat|
            token == #[trigger] decimal_text(n) || n > 0 && token == "-"@ + decimal_text(n),
{
    if is_lock_token(token, false) {
        let secs = choose|secs: int| token == #[trigger] signed_text(secs);
        if secs < 0 {
            assert(token == "-"@ + decimal_text((-secs) as nat));
        } else {
            assert(token == decimal_text(secs as nat));
        }
    }
    if exists|n: nat|
        token == #[trigger] decimal_text(n) || n > 0 && token == "-"@ + decimal_text(n) {
        let n = choose|n: nat|
            token == #[trigger] decimal_text(n) || n > 0 && token == "-"@ + decimal_text(n);
        if token == decimal_text(n) {
            assert(signed_text(n as int) == token);
        } else {
            assert(signed_text(-(n as int)) == token);
        }
    }
}

/// A number is written with its digits, after a sign if it is below zero.
pub proof fn law_signed_numbers(n: nat)
    ensures
        signed_text(n as int) == decimal_text(n),
        n > 0 ==> signed_text(-(n as int)) == seq!['-'] + decimal_text(n),
{
    reveal_strlit("-");
    assert("-"@ =~= seq!['-']);
}

/// The body of a request gives its text where it could be read, is not too large and is text. The
/// clipboard holds so much, and of a new password one byte more is read than it may have.
pub proof fn law_bodies_are_read(
    bytes: Vec<u8>,
    text: Seq<char>,
    limit: usize,
    too_large: Seq<char>,
    not_text: Seq<char>,
)
    ensures
        bytes@ == encode_utf8(text) && bytes@.len() <= limit ==> body_text(
            Collected::Bytes(bytes),
            limit,
            too_large,
            not_text,
        ) == Ok::<Seq<char>, Seq<char>>(text),
        bytes@.len() > limit ==> body_text(Collected::Bytes(bytes), limit, too_large, not_text)
            == Err::<Seq<char>, Seq<char>>(too_large),
        bytes@.len() <= limit && !valid_utf8(bytes@) ==> body_text(
            Collected::Bytes(bytes),
            limit,
            too_large,
            not_text,
        ) == Err::<Seq<char>, Seq<char>>(not_text),
        body_text(Collected::Failed, limit, too_large, not_text) == Err::<Seq<char>, Seq<char>>(
            too_large,
        ),
        CLIPBOARD_MAX_SIZE == 64 * 1024,
        PASSWORD_BODY_LIMIT == 128 + 1,
{
    encode_utf8_valid_utf8(text);
    encode_utf8_decode_utf8(text);
}

/// Changing passwords changes nothing else of the server.
pub proof fn law_passwords_alone_change(
    server: ServerView,
    directories: Map<Seq<char>, Seq<char>>,
)
    requires
        server.directory_auth is Some,
    ensures
        server.with_directories(directories).directories() == directories,
        server.with_directories(directories).args == server.args,
        server.with_directories(directories).html == server.html,
        server.with_directories(directories).assets_prefix == server.assets_prefix,
        server.with_directories(directories).directory_auth is Some,
        (server.with_directories(directories).directory_auth->0).root == (
        server.directory_auth->0).root,
        (server.with_directories(directories).directory_auth->0).file == (
        server.directory_auth->0).file,
        server.with_directories(server.directories()) == server,
        stored(true) == Stored::Changed,
        stored(false) == Stored::Unchanged,
{
}

/// A directory on the way lacks a password exactly if it is there and none is kept for it.
pub proof fn law_lacking_passwords(
    directories: Map<Seq<char>, Seq<char>>,
    path: Seq<char>,
    present: Seq<bool>,
)
    ensures
        lacks_password(directories, path, present) <==> exists|i: int|
            0 <= i < present.len() && i < chain(path).len() && present[i]
                && !directories.contains_key(#[trigger] chain(path)[i]),
{
    if lacks_password(directories, path, present) {
        let k = choose|k: Seq<char>| #[trigger]
            on_chain(path, present, k) && !directories.contains_key(k);
        let i = choose|i: int|
            0 <= i < chain(path).len() && i < present.len() && present[i] && k
                == #[trigger] chain(path)[i];
        assert(!directories.contains_key(chain(path)[i]));
    }
    if exists|i: int|
        0 <= i < present.len() && i < chain(path).len() && present[i] && !directories.contains_key(
            #[trigger] chain(path)[i],
        ) {
        let i = choose|i: int|
            0 <= i < present.len() && i < chain(path).len() && present[i]
                && !directories.contains_key(#[trigger] chain(path)[i]);
        assert(on_chain(path, present, chain(path)[i]));
    }
}

/// A new directory gets a random password, and so does each directory on the way that had none; the
/// others keep theirs, and no other directory gets one.
pub proof fn law_new_directories_get_passwords(
    before: DirectoryAuthView,
    after: DirectoryAuthView,
    path: Seq<char>,
    present: Seq<bool>,
    k: Seq<char>,
)
    requires
        directory_made(before, after, path, present),
    ensures
        after.directories.contains_key(path),
        after.root == before.root,
        after.file == before.file,
        before.directories.contains_key(k) ==> after.directories.contains_key(k)
            && after.directories[k] == before.directories[k],
        after.directories.contains_key(k) && !before.directories.contains_key(k) ==> is_simple_id(
            after.directories[k],
        ) && (k == path || chain(path).contains(k)),
{
    let ensured = choose|ensured: DirectoryAuthView| #[trigger]
        crate::directory_auth::tree_ensured(before, ensured, path, present)
            && crate::directory_auth::kept_or_fresh(ensured.directories, after.directories, path)
            && after == (DirectoryAuthView {
            directories: ensured.directories.insert(path, after.directories[path]),
            ..ensured
        });
    assert(ensured.directories.contains_key(k) <==> before.directories.contains_key(k) || on_chain(
        path,
        present,
        k,
    ));
    assert(ensured.directories.contains_key(path) <==> before.directories.contains_key(path)
        || on_chain(path, present, path));
    if ensured.directories.contains_key(k) {
        assert(crate::directory_auth::kept_or_fresh(before.directories, ensured.directories, k));
    }
    if ensured.directories.contains_key(path) {
        assert(crate::directory_auth::kept_or_fresh(
            before.directories,
            ensured.directories,
            path,
        ));
    }
}

/// Texts of printable characters can stand in a header.
pub proof fn law_header_texts(s: Seq<char>)
    ensures
        (forall|i: int|
            0 <= i < s.len() ==> ' ' <= #[trigger] s[i] && s[i] <= '~') ==> is_header_text(s),
{
    if forall|i: int| 0 <= i < s.len() ==> ' ' <= #[trigger] s[i] && s[i] <= '~' {
        assert forall|i: int| 0 <= i < s.len() implies !crate::directory_auth::is_control(
            #[trigger] s[i],
        ) by {}
        lemma_printable_fits_header(s);
    }
}

/// Access that nothing was said of leads to no entries.
pub proof fn law_plain_access(perm: AccessPerm)
    ensures
        AccessView::plain(perm).perm == perm,
        AccessView::plain(perm).child_names.len() == 0,
        !AccessView::plain(perm).from_rules,
{
}

} // verus!
