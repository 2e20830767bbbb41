//! Changing what is served: uploads, directories, copies, moves, locks and properties.
use crate::clipboard::{body_text, read_text, Collected};
use crate::directory_auth::{
    chain, entry_fault, error_text, in_tree, is_control, kept_or_fresh, on_chain, password_fault,
    password_matches,
    tree_ensured, valid_path, with_tree_moved, without_tree, DirectoryAuthView,
    DIRECTORY_PASSWORD_QUERY,
};
use crate::exchange::{ExchangeView, GrantView};
use crate::handle::query_granted;
use crate::items::{dav_xml, item_views, optional_text, PathItem, PathItemView};
use crate::outside::{
    fits_header, is_header_byte, is_header_text, is_hyphenated_id, random_hyphenated_id, seconds_now,
};
use crate::paths::FsPath;
use crate::response::{
    res_multistatus, status_bad_request, status_forbid, status_no_content, status_not_found,
    Response, ResponseView,
};
use crate::server::{Server, ServerView};
use crate::text::{decimal, decimal_text};
use vstd::prelude::*;
use vstd::string::*;
use vstd::utf8::*;

verus! {

/// The size from which on an upload that breaks off is kept, so that it can be continued.
pub const RESUMABLE_UPLOAD_MIN_SIZE: u64 = 20971520;

/// How many bytes of a new password are read.
pub const PASSWORD_BODY_LIMIT: usize = 129;

/// How the file of an upload is opened.
#[derive(Debug, Clone, Copy, PartialEq, Eq, Structural)]
pub enum UploadMode {
    /// As a new file.
    Create,
    /// To write behind what is there.
    Append,
    /// To write from a place on.
    WriteAt(u64),
}

/// How the file of an upload is opened, and the status of the reply when it is complete.
pub open spec fn upload_plan_of(offset: Option<u64>, size: u64) -> (UploadMode, u16) {
    match offset {
        None => (UploadMode::Create, 201),
        Some(start) => if start == size {
            (UploadMode::Append, 204)
        } else {
            (UploadMode::WriteAt(start), 204)
        },
    }
}

/// How the file of an upload is opened, and the status of the reply when it is complete.
pub fn upload_plan(offset: Option<u64>, size: u64) -> (r: (UploadMode, u16))
    ensures
        r == upload_plan_of(offset, size),
{
    match offset {
        None => (UploadMode::Create, 201),
        Some(start) => if start == size {
            (UploadMode::Append, 204)
        } else {
            (UploadMode::WriteAt(start), 204)
        },
    }
}

/// How an upload ends.
#[derive(Debug, Clone, Copy, PartialEq, Eq, Structural)]
pub enum UploadEnd {
    /// The reply is complete.
    Reply,
    /// The request failed, and what was written is kept.
    Fail,
    /// The request failed, and what was written is removed.
    FailAndRemove,
}

/// Ends an upload: `complete` says whether all of it was written, `size` is the size of the file now.
pub fn handle_upload(
    offset: Option<u64>,
    status: u16,
    complete: bool,
    size: u64,
    res: &mut Response,
) -> (r: UploadEnd)
    ensures
        complete ==> r == UploadEnd::Reply && final(res)@ == old(res)@.status(status),
        !complete ==> final(res)@ == old(res)@,
        !complete ==> r == if offset is None && size < RESUMABLE_UPLOAD_MIN_SIZE {
            UploadEnd::FailAndRemove
        } else {
            UploadEnd::Fail
        },
{
    if !complete {
        if offset.is_none() && size < RESUMABLE_UPLOAD_MIN_SIZE {
            return UploadEnd::FailAndRemove;
        }
        return UploadEnd::Fail;
    }
    res.status = status;
    UploadEnd::Reply
}

/// The WebDAV responses for entries, one after the other, for the addresses that encoding gave.
pub open spec fn dav_responses(items: Seq<PathItemView>, encoded: Seq<Seq<char>>) -> Seq<char>
    decreases items.len(),
{
    if items.len() == 0 {
        Seq::empty()
    } else {
        dav_responses(items.drop_last(), encoded.drop_last()) + dav_xml(
            items.last(),
            encoded.last(),
        )
    }
}

/// Whether encoding the addresses of entries below a prefix gave these.
pub open spec fn addresses_encoded<E: Fn(&str) -> String>(
    encode_uri: &E,
    prefix: Seq<char>,
    items: Seq<PathItemView>,
    encoded: Seq<Seq<char>>,
) -> bool {
    &&& encoded.len() == items.len()
    &&& forall|i: int|
        0 <= i < items.len() ==> address_encoded(
            encode_uri,
            prefix + items[i].name,
            #[trigger] encoded[i],
        )
}

/// Whether encoding an address gave a text.
pub open spec fn address_encoded<E: Fn(&str) -> String>(
    encode_uri: &E,
    address: Seq<char>,
    encoded: Seq<char>,
) -> bool {
    exists|p: &str, e: String|
        p@ == address && e@ == encoded && #[trigger] call_ensures(encode_uri, (p,), e)
}

/// Replies with the properties of entries.
pub fn handle_propfind<E: Fn(&str) -> String>(
    items: &Vec<PathItem>,
    uri_prefix: &str,
    encode_uri: &E,
    res: &mut Response,
)
    requires
        forall|p: &str| call_requires(encode_uri, (p,)),
    ensures
        exists|encoded: Seq<Seq<char>>|
            #[trigger] addresses_encoded(encode_uri, uri_prefix@, item_views(items@), encoded)
                && final(res)@ == old(res)@.multistatus(
                dav_responses(item_views(items@), encoded),
            ),
{
    let ghost views = item_views(items@);
    let ghost mut encoded: Seq<Seq<char>> = Seq::empty();
    let mut output = String::new();
    let mut i: usize = 0;
    proof {
        assert(output@ =~= dav_responses(views.take(0), encoded));
    }
    while i < items.len()
        invariant
            i <= items.len(),
            forall|p: &str| call_requires(encode_uri, (p,)),
            views == item_views(items@),
            addresses_encoded(encode_uri, uri_prefix@, views.take(i as int), encoded),
            output@ == dav_responses(views.take(i as int), encoded),
        decreases items.len() - i,
    {
        let xml = items[i].to_dav_xml(uri_prefix, encode_uri);
        proof {
            let item = items@[i as int]@;
            let (_, e) = choose|p: &str, e: String|
                p@ == uri_prefix@ + item.name && #[trigger] call_ensures(encode_uri, (p,), e) && xml@
                    == dav_xml(item, e@);
            let next = encoded.push(e@);
            let taken = views.take(i as int + 1);
            assert(address_encoded(encode_uri, uri_prefix@ + item.name, e@));
            assert(taken.drop_last() =~= views.take(i as int));
            assert(next.drop_last() =~= encoded);
            assert(taken.last() == item);
            assert forall|j: int| 0 <= j < taken.len() implies address_encoded(
                encode_uri,
                uri_prefix@ + taken[j].name,
                #[trigger] next[j],
            ) by {
                if j < i {
                    assert(encoded[j] == next[j]);
                    assert(views.take(i as int)[j] == taken[j]);
                }
            }
            encoded = next;
        }
        output.append(xml.as_str());
        i = i + 1;
    }
    assert(views.take(i as int) =~= views);
    res_multistatus(res, output.as_str());
}

/// The entries that a property request for a directory shows: the directory itself, where it can be
/// listed, and its entries if the request looks that deep.
pub open spec fn shown_entries(
    depth: u32,
    own: Option<PathItemView>,
    children: Seq<PathItemView>,
) -> Seq<PathItemView> {
    let first = match own {
        Some(item) => seq![item],
        None => Seq::empty(),
    };
    if depth == 1 {
        first + children
    } else {
        first
    }
}

/// What is known of an entry that may be missing.
pub open spec fn optional_item(item: Option<PathItem>) -> Option<PathItemView> {
    match item {
        Some(item) => Some(item@),
        None => None,
    }
}

/// Replies to a property request for a directory. `depth` says how deep it looks, where that is
/// allowed; `children` are the entries of the directory, where they could be read.
pub fn handle_propfind_dir<E: Fn(&str) -> String>(
    depth: Option<u32>,
    own: Option<PathItem>,
    children: Option<Vec<PathItem>>,
    uri_prefix: &str,
    encode_uri: &E,
    res: &mut Response,
)
    requires
        forall|p: &str| call_requires(encode_uri, (p,)),
    ensures
        match depth {
            None => final(res)@ == old(res)@.bad_request(
                "Invalid depth: only 0 and 1 are allowed."@,
            ),
            Some(depth) => if depth == 1 && children is None {
                final(res)@ == old(res)@.forbidden()
            } else {
                let shown = shown_entries(
                    depth,
                    optional_item(own),
                    item_views(children->0@),
                );
                exists|encoded: Seq<Seq<char>>|
                    #[trigger] addresses_encoded(encode_uri, uri_prefix@, shown, encoded)
                        && final(res)@ == old(res)@.multistatus(dav_responses(shown, encoded))
            },
        },
{
    let depth = match depth {
        Some(depth) => depth,
        None => {
            status_bad_request(res, "Invalid depth: only 0 and 1 are allowed.");
            return ;
        },
    };
    let ghost first = optional_item(own);
    let ghost shown = shown_entries(depth, first, item_views(children->0@));
    let mut items: Vec<PathItem> = Vec::new();
    if let Some(item) = own {
        items.push(item);
    }
    assert(item_views(items@) =~= shown_entries(0, first, Seq::empty()));
    if depth == 1 {
        match children {
            Some(children) => {
                let ghost before = item_views(items@);
                let mut i: usize = 0;
                assert(item_views(items@) =~= before + item_views(children@).take(0));
                while i < children.len()
                    invariant
                        i <= children.len(),
                        item_views(items@) == before + item_views(children@).take(i as int),
                    decreases children.len() - i,
                {
                    let ghost had = item_views(items@);
                    items.push(children[i].copy());
                    proof {
                        let all = item_views(children@);
                        assert(item_views(items@) =~= had.push(all[i as int]));
                        assert(all.take(i as int + 1) =~= all.take(i as int).push(all[i as int]));
                    }
                    i = i + 1;
                    assert(item_views(items@) =~= before + item_views(children@).take(i as int));
                }
                assert(item_views(children@).take(i as int) =~= item_views(children@));
                assert(item_views(items@) == shown);
            },
            None => {
                status_forbid(res);
                return ;
            },
        }
    }
    assert(item_views(items@) == shown);
    handle_propfind(&items, uri_prefix, encode_uri, res);
}

/// Replies to a property request for a file, or that there is nothing where it is not listed.
pub fn handle_propfind_file<E: Fn(&str) -> String>(
    item: Option<PathItem>,
    uri_prefix: &str,
    encode_uri: &E,
    res: &mut Response,
)
    requires
        forall|p: &str| call_requires(encode_uri, (p,)),
    ensures
        match item {
            None => final(res)@ == old(res)@.not_found(),
            Some(item) => exists|encoded: Seq<char>|
                #[trigger] address_encoded(encode_uri, uri_prefix@ + item@.name, encoded)
                    && final(res)@ == old(res)@.multistatus(dav_xml(item@, encoded)),
        },
{
    match item {
        Some(item) => {
            let xml = item.to_dav_xml(uri_prefix, encode_uri);
            proof {
                let (_, e) = choose|p: &str, e: String|
                    p@ == uri_prefix@ + item.name@ && #[trigger] call_ensures(encode_uri, (p,), e)
                        && xml@ == dav_xml(item@, e@);
                assert(address_encoded(encode_uri, uri_prefix@ + item@.name, e@));
            }
            res_multistatus(res, xml.as_str());
        },
        None => status_not_found(res),
    }
}

/// The reply to a request that would change properties: it is refused for each.
pub open spec fn proppatch_text(req_path: Seq<char>) -> Seq<char> {
    "<D:response>\n<D:href>"@ + req_path
        + "</D:href>\n<D:propstat>\n<D:prop>\n</D:prop>\n<D:status>HTTP/1.1 403 Forbidden</D:status>\n</D:propstat>\n</D:response>"@
}

/// Replies to a request that would change properties.
pub fn handle_proppatch(req_path: &str, res: &mut Response)
    ensures
        final(res)@ == old(res)@.multistatus(proppatch_text(req_path@)),
{
    let mut output = String::from_str("<D:response>\n<D:href>");
    output.append(req_path);
    output.append(
        "</D:href>\n<D:propstat>\n<D:prop>\n</D:prop>\n<D:status>HTTP/1.1 403 Forbidden</D:status>\n</D:propstat>\n</D:response>",
    );
    res_multistatus(res, output.as_str());
}

/// The reply that grants a lock with a token.
pub open spec fn locked(res: ResponseView, token: Seq<char>, req_path: Seq<char>) -> ResponseView {
    res.header("content-type"@, "application/xml; charset=utf-8"@).header(
        "lock-token"@,
        "<"@ + token + ">"@,
    ).text(
        "<?xml version=\"1.0\" encoding=\"utf-8\"?>\n<D:prop xmlns:D=\"DAV:\"><D:lockdiscovery><D:activelock>\n<D:locktoken><D:href>"@
            + token + "</D:href></D:locktoken>\n<D:lockroot><D:href>"@ + req_path
            + "</D:href></D:lockroot>\n</D:activelock></D:lockdiscovery></D:prop>"@,
    )
}

/// Grants a lock with a token. The result is false where the token cannot stand in a header.
pub fn lock_with(token: &str, req_path: &str, res: &mut Response) -> (r: bool)
    ensures
        r == is_header_text("<"@ + token@ + ">"@),
        r ==> final(res)@ == locked(old(res)@, token@, req_path@),
{
    let mut value = String::from_str("<");
    value.append(token);
    value.append(">");
    if !fits_header(value.as_str()) {
        return false;
    }
    res.set_header("content-type", "application/xml; charset=utf-8");
    res.set_header("lock-token", value.as_str());
    let mut body = String::from_str(
        "<?xml version=\"1.0\" encoding=\"utf-8\"?>\n<D:prop xmlns:D=\"DAV:\"><D:lockdiscovery><D:activelock>\n<D:locktoken><D:href>",
    );
    body.append(token);
    body.append("</D:href></D:locktoken>\n<D:lockroot><D:href>");
    body.append(req_path);
    body.append("</D:href></D:lockroot>\n</D:activelock></D:lockdiscovery></D:prop>");
    res.set_text(body.as_str());
    true
}

/// A number in decimal, with a sign if it is below zero.
pub open spec fn signed_text(n: int) -> Seq<char> {
    if n < 0 {
        "-"@ + decimal_text((-n) as nat)
    } else {
        decimal_text(n as nat)
    }
}

/// A number in decimal, with a sign if it is below zero.
pub fn signed_decimal(n: i64) -> (r: String)
    ensures
        r@ == signed_text(n as int),
{
    if n < 0 {
        let magnitude: u64 = (-(n as i128)) as u64;
        let mut out = String::from_str("-");
        out.append(decimal(magnitude).as_str());
        out
    } else {
        decimal(n as u64)
    }
}

/// Whether a text is a lock token that the server makes: for a request with credentials a random one,
/// else the time.
pub open spec fn is_lock_token(token: Seq<char>, auth: bool) -> bool {
    if auth {
        exists|id: Seq<char>| #[trigger] is_hyphenated_id(id) && token == "opaquelocktoken:"@ + id
    } else {
        exists|secs: int| token == #[trigger] signed_text(secs)
    }
}

/// Grants a lock with a token that the server makes. The result is false where the token cannot stand
/// in a header.
pub fn handle_lock(req_path: &str, auth: bool, res: &mut Response) -> (r: bool)
    ensures
        exists|token: Seq<char>| #[trigger]
            is_lock_token(token, auth) && r == is_header_text("<"@ + token + ">"@) && (r ==>
                final(res)@ == locked(old(res)@, token, req_path@)),
{
    let token: String = if auth {
        let id = random_hyphenated_id();
        let mut token = String::from_str("opaquelocktoken:");
        token.append(id.as_str());
        token
    } else {
        signed_decimal(seconds_now())
    };
    assert(is_lock_token(token@, auth));
    lock_with(token.as_str(), req_path, res)
}

/// A text without control characters can stand in a header.
pub(crate) proof fn lemma_printable_fits_header(s: Seq<char>)
    requires
        forall|i: int| 0 <= i < s.len() ==> !is_control(#[trigger] s[i]),
    ensures
        is_header_text(s),
    decreases s.len(),
{
    let bytes = encode_utf8(s);
    if s.len() > 0 {
        let rest = s.drop_first();
        assert forall|i: int| 0 <= i < rest.len() implies !is_control(#[trigger] rest[i]) by {
            assert(rest[i] == s[i + 1]);
        }
        lemma_printable_fits_header(rest);
        assert(!is_control(s[0]));
        let first = encode_scalar(s[0] as u32);
        lemma_char_bytes(s[0]);
        assert(bytes == first + encode_utf8(rest));
        assert forall|i: int| 0 <= i < bytes.len() implies is_header_byte(#[trigger] bytes[i]) by {
            if i < first.len() {
                assert(bytes[i] == first[i]);
            } else {
                assert(bytes[i] == encode_utf8(rest)[i - first.len()]);
            }
        }
    }
}

/// The bytes of a character that is not a control character can stand in a header.
proof fn lemma_char_bytes(ch: char)
    requires
        !is_control(ch),
    ensures
        forall|i: int|
            0 <= i < encode_scalar(ch as u32).len() ==> is_header_byte(
                #[trigger] encode_scalar(ch as u32)[i],
            ),
{
    let c = ch as u32;
    assert(c >= 0x20 && c != 0x7f);
    assert(c >= 0x20 && c != 0x7f && c < 0x80 ==> (c & 0x7F) as u8 >= 32u8 && (c & 0x7F) as u8
        != 127u8) by (bit_vector);
    assert((0xC0u8 | ((c >> 6) & 0x1F) as u8) >= 0x80u8) by (bit_vector);
    assert((0xE0u8 | ((c >> 12) & 0x0F) as u8) >= 0x80u8) by (bit_vector);
    assert((0xF0u8 | ((c >> 18) & 0x7) as u8) >= 0x80u8) by (bit_vector);
    assert((0x80u8 | (c & 0x3F) as u8) >= 0x80u8) by (bit_vector);
    assert((0x80u8 | ((c >> 6) & 0x3F) as u8) >= 0x80u8) by (bit_vector);
    assert((0x80u8 | ((c >> 12) & 0x3F) as u8) >= 0x80u8) by (bit_vector);
}

/// A password that is allowed can stand in a header.
proof fn lemma_password_fits_header(password: Seq<char>)
    requires
        password_fault(password) is None,
    ensures
        is_header_text(password),
{
    assert forall|i: int| 0 <= i < password.len() implies !is_control(#[trigger] password[i]) by {
        if is_control(password[i]) {
        }
    }
    lemma_printable_fits_header(password);
}

/// Where no directory on the way lacks a password, nothing changes.
proof fn lemma_nothing_given(
    before: DirectoryAuthView,
    after: DirectoryAuthView,
    path: Seq<char>,
    present: Seq<bool>,
)
    requires
        tree_ensured(before, after, path, present),
        forall|k: Seq<char>|
            #[trigger] on_chain(path, present, k) ==> before.directories.contains_key(k),
    ensures
        after == before,
{
    assert forall|k: Seq<char>| after.directories.contains_key(k) implies #[trigger] after.directories[k]
        == before.directories[k] by {
        assert(kept_or_fresh(before.directories, after.directories, k));
        assert(on_chain(path, present, k) ==> before.directories.contains_key(k));
    }
    assert forall|k: Seq<char>|
        #[trigger] after.directories.contains_key(k) == before.directories.contains_key(k) by {
        assert(on_chain(path, present, k) ==> before.directories.contains_key(k));
    }
    assert(after.directories =~= before.directories);
}

/// Whether a directory on the way to a path, where `present` says that it is there, has no password.
pub open spec fn lacks_password(
    directories: Map<Seq<char>, Seq<char>>,
    path: Seq<char>,
    present: Seq<bool>,
) -> bool {
    exists|k: Seq<char>| #[trigger] on_chain(path, present, k) && !directories.contains_key(k)
}

/// Whether a directory that was made, and each directory on the way to it, has got a password if it
/// had none, and nothing else has changed.
pub open spec fn directory_made(
    before: DirectoryAuthView,
    after: DirectoryAuthView,
    path: Seq<char>,
    present: Seq<bool>,
) -> bool {
    exists|ensured: DirectoryAuthView| #[trigger]
        tree_ensured(before, ensured, path, present) && kept_or_fresh(
            ensured.directories,
            after.directories,
            path,
        ) && after == (DirectoryAuthView {
            directories: ensured.directories.insert(path, after.directories[path]),
            ..ensured
        })
}

/// What changing the passwords gave: the request failed, or it is known whether they are to be stored
/// anew.
#[derive(Debug, Clone, Copy, PartialEq, Eq, Structural)]
pub enum Stored {
    Failed,
    Unchanged,
    Changed,
}

/// Whether the passwords are to be stored anew.
pub open spec fn stored(changed: bool) -> Stored {
    if changed {
        Stored::Changed
    } else {
        Stored::Unchanged
    }
}

/// Whether the passwords are to be stored anew.
pub(crate) fn stored_if(changed: bool) -> (r: Stored)
    ensures
        r == stored(changed),
{
    if changed {
        Stored::Changed
    } else {
        Stored::Unchanged
    }
}

impl ServerView {
    /// The server with other passwords of directories.
    pub open spec fn with_directories(self, directories: Map<Seq<char>, Seq<char>>) -> ServerView {
        ServerView {
            directory_auth: Some(
                DirectoryAuthView { directories, ..self.directory_auth->0 },
            ),
            ..self
        }
    }

    /// The passwords of directories.
    pub open spec fn directories(self) -> Map<Seq<char>, Seq<char>> {
        self.directory_auth->0.directories
    }
}

impl Server {
    /// Ends the deletion of a file or directory with the given relative path: the passwords of a
    /// directory, and of what lies below it, are forgotten.
    pub fn handle_delete(&mut self, relative_path: &str, is_dir: bool, res: &mut Response) -> (r:
        Stored)
        ensures
            if is_dir && relative_path@.len() > 0 && old(self)@.directory_auth is Some {
                if valid_path(relative_path@) {
                    &&& final(self)@ == old(self)@.with_directories(
                        without_tree(old(self)@.directories(), relative_path@),
                    )
                    &&& r == stored(
                        exists|k: Seq<char>|
                            old(self)@.directories().contains_key(k) && #[trigger] in_tree(
                                k,
                                relative_path@,
                            ),
                    )
                } else {
                    r == Stored::Failed && final(self)@ == old(self)@
                }
            } else {
                r == Stored::Unchanged && final(self)@ == old(self)@
            },
            r != Stored::Failed ==> final(res)@ == old(res)@.no_content(),
    {
        let mut changed = false;
        if is_dir && !relative_path.is_empty() {
            match &mut self.directory_auth {
                Some(auth) => match auth.remove_tree(relative_path) {
                    Ok(removed) => {
                        changed = removed;
                    },
                    Err(_) => {
                        return Stored::Failed;
                    },
                },
                None => {},
            }
        }
        status_no_content(res);
        stored_if(changed)
    }

    /// Gives a password to each directory on the way to the relative path of a directory, and says in
    /// the reply which password that directory has. `present` says which directories on the way are
    /// there.
    pub fn handle_mkcol(&mut self, relative_path: &str, present: &Vec<bool>, res: &mut Response) -> (r:
        Stored)
        requires
            old(self)@.directory_auth is Some ==> present@.len() == chain(relative_path@).len(),
        ensures
            if old(self)@.directory_auth is None {
                &&& r == Stored::Unchanged
                &&& final(self)@ == old(self)@
                &&& final(res)@ == old(res)@.status(201)
            } else if !valid_path(relative_path@) {
                &&& r == Stored::Failed
                &&& final(self)@.directory_auth is Some
                &&& tree_ensured(
                    old(self)@.directory_auth->0,
                    final(self)@.directory_auth->0,
                    relative_path@,
                    present@,
                )
            } else {
                &&& r == stored(
                    lacks_password(old(self)@.directories(), relative_path@, present@)
                        || !old(self)@.directories().contains_key(relative_path@),
                )
                &&& r == Stored::Unchanged ==> final(self)@ == old(self)@
                &&& final(self)@ == old(self)@.with_directories(final(self)@.directories())
                &&& is_header_text(final(self)@.directories()[relative_path@])
                &&& directory_made(
                    old(self)@.directory_auth->0,
                    final(self)@.directory_auth->0,
                    relative_path@,
                    present@,
                )
                &&& final(res)@ == old(res)@.header(
                    "x-dufs-directory-password"@,
                    final(self)@.directories()[relative_path@],
                ).status(201)
            },
    {
        let ghost start = self@;
        match &mut self.directory_auth {
            Some(auth) => {
                let changed = auth.ensure_directory_tree(relative_path, present);
                let ghost ensured = auth@;
                proof {
                    assert(tree_ensured(start.directory_auth->0, ensured, relative_path@, present@));
                    if !changed {
                        lemma_nothing_given(start.directory_auth->0, ensured, relative_path@, present@);
                    }
                }
                match auth.password_for_directory(relative_path) {
                    Ok((password, added)) => {
                        proof {
                            assert(auth@.directories =~= ensured.directories.insert(
                                relative_path@,
                                password@,
                            ));
                            lemma_password_fits_header(password@);
                        }
                        res.set_header("x-dufs-directory-password", password.as_str());
                        res.status = 201;
                        stored_if(changed || added)
                    },
                    Err(_) => Stored::Failed,
                }
            },
            None => {
                res.status = 201;
                Stored::Unchanged
            },
        }
    }

    /// The relative path of the directory that holds a place, where passwords are given to it.
    pub fn guarded_parent(&self, path: &FsPath) -> (r: Result<Option<String>, ()>)
        ensures
            match r {
                Ok(parent) => optional_text(parent) == (match path@.parent() {
                    Some(parent) => if self@.directory_auth is Some && self@.relative(parent)->0.len()
                        > 0 {
                        self@.relative(parent)
                    } else {
                        None
                    },
                    None => None,
                }) && !(self@.directory_auth is Some && path@.parent() is Some && self@.relative(
                    path@.parent()->0,
                ) is None),
                Err(_) => self@.directory_auth is Some && path@.parent() is Some && self@.relative(
                    path@.parent()->0,
                ) is None,
            },
    {
        if self.directory_auth.is_none() {
            return Ok(None);
        }
        let parent = match path.parent() {
            Some(parent) => parent,
            None => {
                return Ok(None);
            },
        };
        match self.relative_path(&parent) {
            Some(relative) => if relative.as_str().is_empty() {
                Ok(None)
            } else {
                Ok(Some(relative))
            },
            None => Err(()),
        }
    }

    /// Gives a password to each directory on the way to a relative path. `present` says which of them
    /// are there.
    pub fn ensure_directory_tree(&mut self, relative_path: &str, present: &Vec<bool>) -> (r: Stored)
        requires
            present@.len() == chain(relative_path@).len(),
        ensures
            old(self)@.directory_auth is None ==> r == Stored::Unchanged && final(self)@ == old(self)@,
            old(self)@.directory_auth is Some ==> {
                &&& r == stored(
                    lacks_password(old(self)@.directories(), relative_path@, present@),
                )
                &&& final(self)@ == old(self)@.with_directories(final(self)@.directories())
                &&& tree_ensured(
                    old(self)@.directory_auth->0,
                    final(self)@.directory_auth->0,
                    relative_path@,
                    present@,
                )
                &&& r == Stored::Unchanged ==> final(self)@ == old(self)@
            },
    {
        let ghost start = self@;
        match &mut self.directory_auth {
            Some(auth) => {
                let changed = auth.ensure_directory_tree(relative_path, present);
                proof {
                    if !changed {
                        lemma_nothing_given(start.directory_auth->0, auth@, relative_path@, present@);
                    }
                }
                stored_if(changed)
            },
            None => Stored::Unchanged,
        }
    }

    /// Sets the password of the directory at a place to what the body of a request holds, or says why
    /// not.
    pub fn handle_set_directory_password(
        &mut self,
        path: &FsPath,
        body: Collected,
        res: &mut Response,
    ) -> (r: Stored)
        ensures
            if old(self)@.directory_auth is None {
                &&& r == Stored::Unchanged
                &&& final(self)@ == old(self)@
                &&& final(res)@ == old(res)@.not_found()
            } else {
                match body_text(
                    body,
                    PASSWORD_BODY_LIMIT,
                    "Directory password is too long"@,
                    "Directory password must be valid UTF-8"@,
                ) {
                    Err(reason) => {
                        &&& r == Stored::Unchanged
                        &&& final(self)@ == old(self)@
                        &&& final(res)@ == old(res)@.bad_request(reason)
                    },
                    Ok(password) => match old(self)@.relative(path@) {
                        None => r == Stored::Failed && final(self)@ == old(self)@,
                        Some(relative) => if relative.len() == 0 {
                            &&& r == Stored::Unchanged
                            &&& final(self)@ == old(self)@
                            &&& final(res)@ == old(res)@.forbidden()
                        } else {
                            match entry_fault(relative, password) {
                                Some(e) => {
                                    &&& r == Stored::Unchanged
                                    &&& final(self)@ == old(self)@
                                    &&& final(res)@ == old(res)@.bad_request(error_text(e))
                                },
                                None => {
                                    &&& r == Stored::Changed
                                    &&& final(self)@ == old(self)@.with_directories(
                                        old(self)@.directories().insert(relative, password),
                                    )
                                    &&& final(res)@ == old(res)@.no_content()
                                },
                            }
                        },
                    },
                }
            },
    {
        if self.directory_auth.is_none() {
            status_not_found(res);
            return Stored::Unchanged;
        }
        let password = match read_text(
            body,
            PASSWORD_BODY_LIMIT,
            "Directory password is too long",
            "Directory password must be valid UTF-8",
        ) {
            Ok(password) => password,
            Err(reason) => {
                status_bad_request(res, reason);
                return Stored::Unchanged;
            },
        };
        let relative = match self.relative_path(path) {
            Some(relative) => relative,
            None => {
                return Stored::Failed;
            },
        };
        if relative.as_str().is_empty() {
            status_forbid(res);
            return Stored::Unchanged;
        }
        match &mut self.directory_auth {
            Some(auth) => match auth.set_password(relative.as_str(), password.as_str()) {
                Ok(_) => {
                    status_no_content(res);
                    Stored::Changed
                },
                Err(e) => {
                    status_bad_request(res, e.message().as_str());
                    Stored::Unchanged
                },
            },
            None => Stored::Unchanged,
        }
    }

    /// The password that the page of a directory shows: nothing without passwords and for the served
    /// directory itself; a directory that has none is given one.
    pub fn directory_password_for_path(&mut self, path: &FsPath) -> (r: Result<
        (Option<String>, bool),
        (),
    >)
        ensures
            if old(self)@.directory_auth is None {
                r == Ok::<(Option<String>, bool), ()>((None, false)) && final(self)@ == old(self)@
            } else {
                match old(self)@.relative(path@) {
                    None => r is Err && final(self)@ == old(self)@,
                    Some(relative) => if relative.len() == 0 {
                        r == Ok::<(Option<String>, bool), ()>((None, false)) && final(self)@
                            == old(self)@
                    } else if !valid_path(relative) {
                        r is Err && final(self)@ == old(self)@
                    } else {
                        &&& r matches Ok((password, changed))
                        &&& changed == !old(self)@.directories().contains_key(relative)
                        &&& password matches Some(text)
                        &&& kept_or_fresh(
                            old(self)@.directories(),
                            final(self)@.directories(),
                            relative,
                        )
                        &&& final(self)@ == old(self)@.with_directories(
                            old(self)@.directories().insert(relative, text@),
                        )
                    },
                }
            },
    {
        if self.directory_auth.is_none() {
            return Ok((None, false));
        }
        let relative = match self.relative_path(path) {
            Some(relative) => relative,
            None => {
                return Err(());
            },
        };
        if relative.as_str().is_empty() {
            return Ok((None, false));
        }
        let ghost start = self@;
        match &mut self.directory_auth {
            Some(auth) => match auth.password_for_directory(relative.as_str()) {
                Ok((password, changed)) => {
                    proof {
                        assert(auth@.directories =~= start.directories().insert(relative@, password@));
                    }
                    Ok((Some(password), changed))
                },
                Err(_) => Err(()),
            },
            None => Ok((None, false)),
        }
    }
}

/// A directory that is made has a password of its own from then on: making another one, below it or
/// elsewhere, gives that one a password, and leaves every password that there was as it is.
pub proof fn law_new_directories_keep_passwords(
    before: DirectoryAuthView,
    first: DirectoryAuthView,
    second: DirectoryAuthView,
    path: Seq<char>,
    present: Seq<bool>,
    other: Seq<char>,
    other_present: Seq<bool>,
)
    requires
        directory_made(before, first, path, present),
        directory_made(first, second, other, other_present),
    ensures
        first.directories.contains_key(path),
        second.directories.contains_key(other),
        second.directories.contains_key(path),
        second.directories[path] == first.directories[path],
        forall|k: Seq<char>| #[trigger]
            before.directories.contains_key(k) ==> second.directories.contains_key(k)
                && second.directories[k] == before.directories[k],
{
    lemma_made_keeps(before, first, path, present);
    lemma_made_keeps(first, second, other, other_present);
}

/// Making a directory keeps the passwords that there are.
proof fn lemma_made_keeps(
    before: DirectoryAuthView,
    after: DirectoryAuthView,
    path: Seq<char>,
    present: Seq<bool>,
)
    requires
        directory_made(before, after, path, present),
    ensures
        after.directories.contains_key(path),
        forall|k: Seq<char>| #[trigger]
            before.directories.contains_key(k) ==> after.directories.contains_key(k)
                && after.directories[k] == before.directories[k],
{
    let ensured = choose|ensured: DirectoryAuthView| #[trigger]
        tree_ensured(before, ensured, path, present) && kept_or_fresh(
            ensured.directories,
            after.directories,
            path,
        ) && after == (DirectoryAuthView {
            directories: ensured.directories.insert(path, after.directories[path]),
            ..ensured
        });
    assert forall|k: Seq<char>| #[trigger] before.directories.contains_key(k) implies
        after.directories.contains_key(k) && after.directories[k] == before.directories[k] by {
        assert(ensured.directories.contains_key(k));
        assert(kept_or_fresh(before.directories, ensured.directories, k));
    }
}

/// A password that was set opens its directory, and the one it replaced does not.
pub proof fn law_new_password_replaces_old(
    server: ServerView,
    directory: Seq<char>,
    password: Seq<char>,
    ex: ExchangeView,
    encoded: Seq<char>,
)
    requires
        server.directory_auth is Some,
        ex.query.contains_key(DIRECTORY_PASSWORD_QUERY@),
    ensures
        ({
            let after = server.with_directories(server.directories().insert(directory, password));
            let grant = Some(
                GrantView { directory, password: after.directories()[directory], encoded },
            );
            &&& ex.query[DIRECTORY_PASSWORD_QUERY@] == password ==> after.granted(ex, grant)
            &&& ex.query[DIRECTORY_PASSWORD_QUERY@] != password ==> !query_granted(ex, grant)
        }),
{
}

} // verus!
