//! What requests come to: for each, what it needs to be carried out, and what it is told otherwise.
use crate::access::{AccessPaths, AccessPerm, AccessView};
use crate::exchange::{Event, ExchangeView, Grant, GrantView, Step, Target};
use crate::handle::OpeningView;
use crate::items::DataKind;
use crate::outside::is_header_text;
use crate::pages::{Asset, InternalView};
use crate::password_cookie::{cookie_text, lemma_cookie_fits_header};
use crate::request::{method_named, Method, UploadOffset};
use crate::response::{BodyView, ResponseView, Source};
use crate::server::ServerView;
use vstd::prelude::*;
use vstd::string::*;

verus! {

/// Whether a request is answered there and then with a status and a text, and nothing else of it or of
/// the reply has changed.
pub open spec fn told(
    ex: ExchangeView,
    answer: (ExchangeView, Step),
    status: u16,
    text: Seq<char>,
) -> bool {
    answer == (
        ExchangeView {
            res: ResponseView { status, body: BodyView::Text(text), ..ex.res },
            ..ex
        },
        Step::Reply,
    )
}

/// Whether a request is answered there and then with a status, and nothing else of it or of the reply
/// has changed.
pub open spec fn answered(ex: ExchangeView, answer: (ExchangeView, Step), status: u16) -> bool {
    answer == (ExchangeView { res: ResponseView { status, ..ex.res }, ..ex }, Step::Reply)
}

/// Whether a request is asked for credentials: it is answered with the status for that and the
/// challenge, and told which methods there are.
pub open spec fn asked_for_credentials(ex: ExchangeView, answer: (ExchangeView, Step)) -> bool {
    let res = answer.0.res;
    &&& answer.1 == Step::Reply
    &&& answer.0 == (ExchangeView { res, ..ex })
    &&& res.status == 401
    &&& res.challenge
    &&& res.body == ex.res.body
    &&& res.cookies == ex.res.cookies
    &&& res.headers.contains_key("allow"@)
    &&& res.headers.contains_pair("dav"@, "1, 2, 3"@)
}

/// Whether a request that finds nothing is told so: by the page for that, where there is one and the
/// client runs scripts, else by a status and a text.
pub open spec fn finds_nothing(
    server: ServerView,
    ex: ExchangeView,
    answer: (ExchangeView, Step),
) -> bool {
    if server.args.error_page is Some && !(ex.query.contains_key("noscript"@)
        && ex.query["noscript"@].len() == 0) {
        answer == (ex, Step::SendErrorPage)
    } else {
        told(ex, answer, 404, "Not Found"@)
    }
}

/// A file is uploaded to a place that is no directory, with the permission to upload, and if there is
/// something to overwrite with the permission to delete; that is all it takes. Otherwise it is
/// refused.
pub proof fn law_permission_is_enough_to_upload(
    server: ServerView,
    ex: ExchangeView,
    target: Target,
)
    requires
        ex.method == Method::Put,
        !target.metadata,
        !target.outside,
    ensures
        !target.is_dir && server.args.allow_upload && (server.args.allow_delete || target.size == 0)
            ==> server.targeted(ex, target) == (
            ex,
            Step::Upload { offset: None, size: target.size },
        ),
        target.is_dir || !server.args.allow_upload || (!server.args.allow_delete && target.size > 0)
            ==> told(ex, server.targeted(ex, target), 403, "Forbidden"@),
{
}

/// An upload is continued in a file that is there, with the permission to upload: from the place that
/// the request names on, which is the end of the file or behind it unless deleting is allowed.
pub proof fn law_uploads_are_continued(
    server: ServerView,
    ex: ExchangeView,
    target: Target,
    start: u64,
    size: u64,
)
    requires
        ex.method == Method::Patch,
        !target.metadata,
        !target.outside,
    ensures
        !target.missing && server.args.allow_upload ==> server.targeted(ex, target) == (
            ex,
            Step::AskOffset { size: target.size },
        ),
        target.missing ==> told(ex, server.targeted(ex, target), 404, "Not Found"@),
        !target.missing && !server.args.allow_upload ==> told(
            ex,
            server.targeted(ex, target),
            403,
            "Forbidden"@,
        ),
        server.args.allow_delete || start >= size ==> server.continued(
            ex,
            UploadOffset::At(start),
            size,
        ) == (ex, Step::Upload { offset: Some(start), size }),
        !server.args.allow_delete && start < size ==> told(
            ex,
            server.continued(ex, UploadOffset::At(start), size),
            403,
            "Forbidden"@,
        ),
        answered(ex, server.continued(ex, UploadOffset::Absent, size), 405),
        told(
            ex,
            server.continued(ex, UploadOffset::Invalid, size),
            400,
            "Invalid X-Update-Range Header"@,
        ),
{
    reveal_strlit("Invalid X-Update-Range Header");
}

/// What is there is deleted with the permission to delete; that is all it takes.
pub proof fn law_permission_is_enough_to_delete(
    server: ServerView,
    ex: ExchangeView,
    target: Target,
)
    requires
        ex.method == Method::Delete,
        !target.metadata,
        !target.outside,
    ensures
        server.args.allow_delete && !target.missing ==> server.targeted(ex, target) == (
            ex,
            Step::Delete { is_dir: target.is_dir },
        ),
        server.args.allow_delete && target.missing ==> told(
            ex,
            server.targeted(ex, target),
            404,
            "Not Found"@,
        ),
        !server.args.allow_delete ==> told(ex, server.targeted(ex, target), 403, "Forbidden"@),
{
}

/// A directory is made where nothing is, with the permission to upload.
pub proof fn law_permission_is_enough_to_make_directories(
    server: ServerView,
    ex: ExchangeView,
    target: Target,
)
    requires
        ex.method == Method::Mkcol,
        !target.metadata,
        !target.outside,
    ensures
        server.args.allow_upload && target.missing ==> server.targeted(ex, target) == (
            ex,
            Step::Mkcol,
        ),
        server.args.allow_upload && !target.missing ==> told(
            ex,
            server.targeted(ex, target),
            405,
            "Already exists"@,
        ),
        !server.args.allow_upload ==> told(ex, server.targeted(ex, target), 403, "Forbidden"@),
{
}

/// What is there is copied with the permission to upload, and moved with the permissions to upload
/// and to delete.
pub proof fn law_permission_is_enough_to_copy_and_move(
    server: ServerView,
    ex: ExchangeView,
    target: Target,
)
    requires
        ex.method == Method::Copy || ex.method == Method::Move,
        !target.metadata,
        !target.outside,
    ensures
        ({
            let allowed = server.args.allow_upload && (ex.method == Method::Copy
                || server.args.allow_delete);
            &&& allowed && !target.missing ==> server.targeted(ex, target) == (
                ex,
                if ex.method == Method::Copy {
                    Step::Copy
                } else {
                    Step::Move
                },
            )
            &&& allowed && target.missing ==> told(
                ex,
                server.targeted(ex, target),
                404,
                "Not Found"@,
            )
            &&& !allowed ==> told(ex, server.targeted(ex, target), 403, "Forbidden"@)
        }),
{
}

/// A user of an account sets the password of a directory that is there.
pub proof fn law_users_set_passwords(server: ServerView, ex: ExchangeView, target: Target)
    requires
        ex.method == Method::Setpassword,
        !target.metadata,
        !target.outside,
    ensures
        ex.user is Some && target.is_dir ==> server.targeted(ex, target) == (ex, Step::SetPassword),
        ex.user is Some && !target.is_dir ==> told(
            ex,
            server.targeted(ex, target),
            404,
            "Not Found"@,
        ),
        ex.user is None ==> told(ex, server.targeted(ex, target), 403, "Forbidden"@),
{
}

/// Properties are told of directories and of files that are there. Where only entries that lead to an
/// accessible path are seen and the request has no credentials, those of all entries are told.
pub proof fn law_properties_are_told(server: ServerView, ex: ExchangeView, target: Target)
    requires
        ex.method == Method::Propfind,
        !target.metadata,
        !target.outside,
    ensures
        ({
            let (after, step) = server.targeted(ex, target);
            &&& target.is_dir ==> step == Step::PropfindDir && after == (ExchangeView {
                access: after.access,
                ..ex
            })
            &&& target.is_dir && (ex.authorized || ex.access.perm != AccessPerm::IndexOnly)
                ==> after.access == ex.access
            &&& target.is_dir && !ex.authorized && ex.access.perm == AccessPerm::IndexOnly
                ==> after.access.perm == AccessPerm::ReadOnly && !after.access.from_rules
            &&& !target.is_dir && target.is_file ==> (after, step) == (ex, Step::PropfindFile)
            &&& !target.is_dir && !target.is_file ==> told(ex, (after, step), 404, "Not Found"@)
        }),
{
}

/// Only files have properties that can be asked to change, and locks. An unlocking of what is there
/// is answered as done, and what the server can do is told of every place.
pub proof fn law_locks_and_options(server: ServerView, ex: ExchangeView, target: Target)
    requires
        !target.metadata,
        !target.outside,
    ensures
        ex.method == Method::Proppatch && target.is_file ==> server.targeted(ex, target) == (
            ex,
            Step::Proppatch,
        ),
        ex.method == Method::Lock && target.is_file ==> server.targeted(ex, target) == (
            ex,
            Step::Lock,
        ),
        (ex.method == Method::Proppatch || ex.method == Method::Lock) && !target.is_file ==> told(
            ex,
            server.targeted(ex, target),
            404,
            "Not Found"@,
        ),
        ex.method == Method::Unlock && !target.missing ==> server.targeted(ex, target) == (
            ex,
            Step::Reply,
        ),
        ex.method == Method::Unlock && target.missing ==> told(
            ex,
            server.targeted(ex, target),
            404,
            "Not Found"@,
        ),
        ex.method == Method::Options ==> {
            let (after, step) = server.targeted(ex, target);
            &&& step == Step::Reply
            &&& after.res.status == ex.res.status
            &&& after.res.headers.contains_pair(
                "allow"@,
                "GET,HEAD,PUT,OPTIONS,DELETE,PATCH,PROPFIND,COPY,MOVE,CHECKAUTH,LOGOUT"@,
            )
            &&& after.res.headers.contains_pair("dav"@, "1, 2, 3"@)
        },
        ex.method == Method::Other ==> answered(ex, server.targeted(ex, target), 405),
{
    reveal_strlit("allow");
    reveal_strlit("dav");
    assert("allow"@.len() != "dav"@.len());
}

/// The password file and what lies outside are not there for any method.
pub proof fn law_nothing_is_there(server: ServerView, ex: ExchangeView, target: Target)
    ensures
        target.metadata ==> told(ex, server.targeted(ex, target), 404, "Not Found"@),
        !target.metadata && target.outside ==> finds_nothing(
            server,
            ex,
            server.targeted(ex, target),
        ),
        told(ex, server.visited(ex, true), 404, "Not Found"@),
        server.visited(ex, false) == (ex, Step::AskProtection),
{
}

/// A request for the head comes to the same as the request for the whole.
pub proof fn law_head_comes_to_the_same(server: ServerView, ex: ExchangeView, target: Target)
    ensures
        ({
            let get = ExchangeView { method: Method::Get, ..ex };
            let head = ExchangeView { method: Method::Head, ..ex };
            let a = server.targeted(get, target);
            let b = server.targeted(head, target);
            &&& a.1 == b.1
            &&& a.0 == (ExchangeView { method: Method::Get, ..b.0 })
        }),
{
}

/// A directory is listed, unless the query asks for its archive or for a search in it and those are
/// allowed, or index files are shown in place of listings.
pub proof fn law_directories_are_fetched(server: ServerView, ex: ExchangeView, target: Target)
    requires
        ex.method == Method::Get || ex.method == Method::Head,
        !target.metadata,
        !target.outside,
        target.is_dir,
    ensures
        ({
            let zip = ex.query.contains_key("zip"@) && ex.query["zip"@].len() == 0;
            let q = ex.query.contains_key("q"@);
            let args = server.args;
            let answer = server.targeted(ex, target);
            let plain = !args.render_try_index && !args.render_index && !args.render_spa;
            &&& plain && !zip && !(q && args.allow_search) ==> answer == (
                ex,
                Step::List { exist: true },
            )
            &&& plain && zip && args.allow_archive ==> answer == (ex, Step::Archive)
            &&& plain && zip && !args.allow_archive ==> told(ex, answer, 404, "Not Found"@)
            &&& plain && !zip && q && args.allow_search ==> answer == (ex, Step::Search)
            &&& args.render_try_index && zip && args.allow_archive ==> answer == (
                ex,
                Step::Archive,
            )
            &&& args.render_try_index && !(zip && args.allow_archive) && q && args.allow_search
                ==> answer == (ex, Step::Search)
            &&& args.render_try_index && !(zip && args.allow_archive) && !(q && args.allow_search)
                ==> answer == (ex, Step::AskIndexFile)
            &&& !args.render_try_index && (args.render_index || args.render_spa) ==> answer == (
                ex,
                Step::AskIndexFile,
            )
        }),
{
}

/// An index file that is there is sent. Where there is none, the directory is listed if index files
/// are only tried, and else there is nothing.
pub proof fn law_index_files(server: ServerView, ex: ExchangeView)
    ensures
        server.indexed(ex, true) == (ex, Step::SendIndex),
        server.args.render_try_index ==> server.indexed(ex, false) == (
            ex,
            Step::List { exist: true },
        ),
        !server.args.render_try_index ==> finds_nothing(server, ex, server.indexed(ex, false)),
{
}

/// A file is sent, unless the query asks for what is known of it, to edit it, to view it, or for its
/// digest, which has to be allowed. Only who may write edits.
pub proof fn law_files_are_fetched(server: ServerView, ex: ExchangeView, target: Target)
    requires
        ex.method == Method::Get || ex.method == Method::Head,
        !target.metadata,
        !target.outside,
        !target.is_dir,
        target.is_file,
    ensures
        ({
            let json = ex.query.contains_key("json"@) && ex.query["json"@].len() == 0;
            let edit = ex.query.contains_key("edit"@) && ex.query["edit"@].len() == 0;
            let view = ex.query.contains_key("view"@) && ex.query["view"@].len() == 0;
            let hash = ex.query.contains_key("hash"@) && ex.query["hash"@].len() == 0;
            let writer = ex.access.perm == AccessPerm::ReadWrite;
            let answer = server.targeted(ex, target);
            &&& !json && !edit && !view && !hash ==> answer == (ex, Step::SendTarget)
            &&& json ==> answer == (ex, Step::FileJson)
            &&& !json && edit && writer ==> answer == (
                ex,
                Step::Edit { kind: DataKind::Edit, readwrite: true },
            )
            &&& !json && edit && !writer ==> answer == (
                ex,
                Step::Edit { kind: DataKind::View, readwrite: false },
            )
            &&& !json && !edit && view ==> answer == (
                ex,
                Step::Edit { kind: DataKind::View, readwrite: writer },
            )
            &&& !json && !edit && !view && hash && server.args.allow_hash ==> answer == (
                ex,
                Step::Hash,
            )
            &&& !json && !edit && !view && hash && !server.args.allow_hash ==> told(
                ex,
                answer,
                403,
                "Forbidden"@,
            )
        }),
{
}

/// Where nothing is, a page that is one application is sent for a path that names no file, a listing
/// of a directory to come is shown to who may upload and asks with a slash, and else there is nothing.
pub proof fn law_missing_places_are_fetched(server: ServerView, ex: ExchangeView, target: Target)
    requires
        ex.method == Method::Get || ex.method == Method::Head,
        !target.metadata,
        !target.outside,
        !target.is_dir,
        !target.is_file,
    ensures
        ({
            let answer = server.targeted(ex, target);
            let slash = ex.req_path.len() > 0 && ex.req_path.last() == '/';
            let extended = server.place(ex.relative_path).has_extension();
            &&& server.args.render_spa && !extended ==> answer == (ex, Step::SendRootIndex)
            &&& server.args.render_spa && extended ==> finds_nothing(server, ex, answer)
            &&& !server.args.render_spa && server.args.allow_upload && slash ==> answer == (
                ex,
                Step::List { exist: false },
            )
            &&& !server.args.render_spa && !(server.args.allow_upload && slash) ==> finds_nothing(
                server,
                ex,
                answer,
            )
        }),
{
}

/// A request that the accounts give access goes on as that user with that access. It asks what is at
/// its place, unless it is one about the account itself, the clipboard, or the one file that is
/// served.
pub proof fn law_accounts_give_access(
    server: ServerView,
    ex: ExchangeView,
    user: Option<Seq<char>>,
    access: AccessView,
    noscript: bool,
)
    requires
        user is Some || server.directory_auth is None,
        ex.method != Method::Checkauth,
        ex.method != Method::Logout,
        !(ex.query.contains_key("tokengen"@) && ex.query["tokengen"@].len() == 0),
        ex.relative_path != "__dufs__/clipboard"@,
        ex.relative_path != "__dufs__/clipboard/events"@,
        !server.args.path_is_file,
    ensures
        ({
            let (after, step) = server.guarded(ex, user, Some(access), noscript);
            &&& step == Step::AskTarget
            &&& after == (ExchangeView {
                user,
                access,
                noscript,
                query: if noscript {
                    ex.query.insert("noscript"@, Seq::empty())
                } else {
                    ex.query
                },
                ..ex
            })
        }),
{
    reveal_strlit("noscript");
    reveal_strlit("tokengen");
    assert("noscript"@[0] != "tokengen"@[0]);
}

/// A request that the accounts give no access is refused if it has a user. Without one it is asked for
/// credentials, or, where directories have passwords and it has no credentials that failed and does
/// not log out, it goes on as a visitor.
pub proof fn law_accounts_refuse(
    server: ServerView,
    ex: ExchangeView,
    user: Option<Seq<char>>,
    access: Option<AccessView>,
    noscript: bool,
)
    ensures
        ({
            let before = ExchangeView { noscript, ..ex };
            let answer = server.guarded(ex, user, access, noscript);
            let visitor = server.directory_auth is Some && user is None;
            &&& user is Some && access is None ==> told(before, answer, 403, "Forbidden"@)
            &&& server.directory_auth is None && user is None && access is None
                ==> asked_for_credentials(before, answer)
            &&& visitor && (ex.authorized || ex.method == Method::Logout) ==> asked_for_credentials(
                before,
                answer,
            )
            &&& visitor && !ex.authorized && ex.method != Method::Logout ==> answer == (
                before,
                Step::AskMetadata,
            )
        }),
{
    lemma_credentials_headers();
}

/// The two headers that tell what the server can do differ.
proof fn lemma_credentials_headers()
    ensures
        "allow"@ != "dav"@,
{
    reveal_strlit("allow");
    reveal_strlit("dav");
    assert("allow"@.len() != "dav"@.len());
}

/// A user who asks is told who they are, and one who logs out is asked for credentials anew. Without
/// a user, it is told that nothing is needed where writing is allowed, and else asked for credentials.
pub proof fn law_accounts_are_told(server: ServerView, ex: ExchangeView)
    requires
        !ex.noscript,
    ensures
        ex.method == Method::Checkauth && ex.user is Some ==> server.admitted(ex) == (
            ExchangeView {
                res: ResponseView { body: BodyView::Text(ex.user->0), ..ex.res },
                ..ex
            },
            Step::Reply,
        ),
        ex.method == Method::Checkauth && ex.user is None && ex.access.perm == AccessPerm::ReadWrite
            && !(ex.query.contains_key("login"@) && ex.query["login"@].len() == 0)
            ==> server.admitted(ex) == (
            ExchangeView {
                res: ResponseView { body: BodyView::Text(Seq::empty()), ..ex.res },
                ..ex
            },
            Step::Reply,
        ),
        ex.method == Method::Checkauth && ex.user is None && (ex.access.perm != AccessPerm::ReadWrite
            || ex.query.contains_key("login"@) && ex.query["login"@].len() == 0)
            ==> asked_for_credentials(ex, server.admitted(ex)),
        ex.method == Method::Logout ==> asked_for_credentials(ex, server.admitted(ex)),
{
    lemma_credentials_headers();
}

/// A user is given a token for a path, and others are refused one.
pub proof fn law_tokens_are_for_users(server: ServerView, ex: ExchangeView)
    requires
        !ex.noscript,
        ex.method != Method::Checkauth,
        ex.method != Method::Logout,
        ex.query.contains_key("tokengen"@),
        ex.query["tokengen"@].len() == 0,
    ensures
        ex.user is Some ==> server.admitted(ex) == (ex, Step::TokenGen),
        ex.user is None ==> told(ex, server.admitted(ex), 403, "Forbidden"@),
{
}

/// The clipboard is read by everyone who is let in, and written by who may write, with the permission
/// to upload; its changes are followed. Other methods are not allowed there.
pub proof fn law_clipboard_requests(server: ServerView, ex: ExchangeView)
    requires
        !ex.noscript,
        ex.method != Method::Checkauth,
        ex.method != Method::Logout,
        !(ex.query.contains_key("tokengen"@) && ex.query["tokengen"@].len() == 0),
    ensures
        ({
            let answer = server.admitted(ex);
            let clipboard = ex.relative_path == "__dufs__/clipboard"@;
            let events = ex.relative_path == "__dufs__/clipboard/events"@;
            let writer = server.args.allow_upload && ex.access.perm == AccessPerm::ReadWrite;
            &&& clipboard && (ex.method == Method::Get || ex.method == Method::Head) ==> answer == (
                ex,
                Step::ClipboardGet,
            )
            &&& clipboard && ex.method == Method::Put && writer ==> answer == (
                ex,
                Step::ClipboardSet,
            )
            &&& clipboard && ex.method == Method::Put && !writer ==> told(
                ex,
                answer,
                403,
                "Forbidden"@,
            )
            &&& clipboard && ex.method != Method::Get && ex.method != Method::Head && ex.method
                != Method::Put ==> answered(ex, answer, 405)
            &&& events && ex.method == Method::Get ==> answer == (ex, Step::ClipboardEvents)
            &&& events && ex.method != Method::Get ==> answered(ex, answer, 405)
        }),
{
    reveal_strlit("__dufs__/clipboard");
    reveal_strlit("__dufs__/clipboard/events");
    assert("__dufs__/clipboard"@.len() != "__dufs__/clipboard/events"@.len());
}

/// Where one file is served, it is sent for each of its addresses, and there is nothing else.
pub proof fn law_one_file_is_served(server: ServerView, ex: ExchangeView)
    requires
        server.args.path_is_file,
        !ex.noscript,
        ex.method != Method::Checkauth,
        ex.method != Method::Logout,
        !(ex.query.contains_key("tokengen"@) && ex.query["tokengen"@].len() == 0),
        ex.relative_path != "__dufs__/clipboard"@,
        ex.relative_path != "__dufs__/clipboard/events"@,
    ensures
        server.single_file_req_paths.contains(ex.req_path) ==> server.admitted(ex) == (
            ex,
            Step::SendServed,
        ),
        !server.single_file_req_paths.contains(ex.req_path) ==> finds_nothing(
            server,
            ex,
            server.admitted(ex),
        ),
{
}

/// A visitor sees the root, and reads what a password opens; the password in the query is kept in a
/// cookie. Without the password the visitor is asked for it, and with it writing is refused.
pub proof fn law_visitors_are_answered(
    server: ServerView,
    ex: ExchangeView,
    grant: Option<GrantView>,
)
    requires
        server.directory_auth is Some,
        !ex.noscript,
        ex.method != Method::Checkauth,
        ex.method != Method::Logout,
        !(ex.query.contains_key("tokengen"@) && ex.query["tokengen"@].len() == 0),
        ex.relative_path != "__dufs__/clipboard"@,
        ex.relative_path != "__dufs__/clipboard/events"@,
        !server.args.path_is_file,
        grant is Some ==> is_header_text(server.args.uri_prefix) && is_header_text(
            grant->0.encoded,
        ),
    ensures
        ({
            let answer = server.protected(ex, grant);
            let opened = server.granted(ex, grant);
            let reading = ex.method == Method::Get || ex.method == Method::Head || ex.method
                == Method::Options || ex.method == Method::Propfind;
            let root = ex.relative_path.len() == 0 && (ex.method == Method::Get || ex.method
                == Method::Head);
            let asked = grant is Some && ex.query.contains_key("dir_password"@)
                && ex.query["dir_password"@] == grant->0.password;
            let cookies = if asked && reading {
                ex.res.cookies.push(cookie_text(server.args.uri_prefix, grant->0))
            } else {
                ex.res.cookies
            };
            let seen = ExchangeView {
                user: None,
                access: AccessView {
                    perm: if root {
                        AccessPerm::IndexOnly
                    } else {
                        AccessPerm::ReadOnly
                    },
                    child_names: Seq::empty(),
                    from_rules: false,
                },
                res: ResponseView { cookies, ..ex.res },
                ..ex
            };
            &&& root || ex.method == Method::Options || (opened && reading) ==> answer == (
                seen,
                Step::AskTarget,
            )
            &&& opened && !reading ==> told(ex, answer, 403, "Forbidden"@)
            &&& !opened && !root && ex.method != Method::Options ==> {
                &&& answer.1 == Step::Reply
                &&& answer.0.res.status == 401
                &&& answer.0.res.body == BodyView::Text("Directory password required"@)
                &&& answer.0.res.headers == ex.res.headers.insert(
                    "x-dufs-directory-password"@,
                    "required"@,
                )
                &&& answer.0.res.challenge == ex.res.challenge
                &&& answer.0.res.cookies == ex.res.cookies
            }
        }),
{
    if grant is Some {
        lemma_cookie_fits_header(server.args.uri_prefix, grant->0);
    }
    if ex.relative_path.len() == 0 {
        reveal_strlit("__dufs__/clipboard");
        reveal_strlit("__dufs__/clipboard/events");
    }
}

/// A visitor who asks whether they are let in is told so with the password, and is asked for
/// credentials without it, or to log in.
pub proof fn law_visitors_are_told(server: ServerView, ex: ExchangeView, grant: Option<GrantView>)
    requires
        server.directory_auth is Some,
        ex.method == Method::Checkauth,
    ensures
        ({
            let login = ex.query.contains_key("login"@) && ex.query["login"@].len() == 0;
            &&& server.granted(ex, grant) && !login ==> server.protected(ex, grant) == (
                ExchangeView {
                    res: ResponseView { body: BodyView::Text(Seq::empty()), ..ex.res },
                    ..ex
                },
                Step::Reply,
            )
            &&& !server.granted(ex, grant) || login ==> asked_for_credentials(
                ex,
                server.protected(ex, grant),
            )
        }),
{
    lemma_credentials_headers();
}

/// A path that leads elsewhere is refused. Only a request to get something reaches the server's own
/// paths, and every other one goes on with its path.
pub proof fn law_requests_are_opened(
    server: ServerView,
    res: ResponseView,
    path: Seq<char>,
    is_get: bool,
)
    ensures
        server.opened(res, None, is_get) == (
            ResponseView { status: 400, body: BodyView::Text("Invalid Path"@), ..res },
            OpeningView::Refused,
        ),
        !is_get || server.internal(path) == InternalView::No ==> server.opened(
            res,
            Some(path),
            is_get,
        ) == (res, OpeningView::Path(path)),
        is_get && server.internal(path) != InternalView::No ==> server.opened(
            res,
            Some(path),
            is_get,
        ).1 == OpeningView::Own(server.internal(path)),
{
    reveal_strlit("Invalid Path");
}

/// What is the server's own: the files of the user interface below their prefix, from the program or
/// from the directory that is set for them, and the word that the server runs.
pub proof fn law_own_paths(server: ServerView, res: ResponseView, name: Seq<char>)
    ensures
        ({
            let path = server.assets_prefix + name;
            let reply = server.opened(res, Some(path), true);
            &&& server.args.assets is Some ==> reply == (
                res,
                OpeningView::Own(InternalView::File(server.args.assets->0.join(name))),
            )
            &&& server.args.assets is None && name == "index.js"@ ==> reply.1 == OpeningView::Own(
                InternalView::Embedded(Asset::Script),
            ) && reply.0.headers.contains_pair(
                "content-type"@,
                "application/javascript; charset=UTF-8"@,
            )
            &&& server.args.assets is None && name == "index.css"@ ==> reply.1 == OpeningView::Own(
                InternalView::Embedded(Asset::Style),
            ) && reply.0.headers.contains_pair("content-type"@, "text/css; charset=UTF-8"@)
            &&& server.args.assets is None && name == "favicon.ico"@ ==> reply.1 == OpeningView::Own(
                InternalView::Embedded(Asset::Icon),
            ) && reply.0.headers.contains_pair("content-type"@, "image/x-icon"@)
            &&& server.args.assets is None && (name == "index.js"@ || name == "index.css"@ || name
                == "favicon.ico"@) ==> reply.0.status == res.status && reply.0.body
                == BodyView::Stream(Source::Asset)
            &&& server.args.assets is None && name != "index.js"@ && name != "index.css"@ && name
                != "favicon.ico"@ ==> reply.0.status == 404 && reply.0.body == BodyView::Text(
                "Not Found"@,
            )
            &&& server.args.assets is None ==> reply.0.headers.contains_pair(
                "cache-control"@,
                "public, max-age=31536000, immutable"@,
            ) && reply.0.headers.contains_pair("x-content-type-options"@, "nosniff"@)
        }),
        (forall|r: Seq<char>| "__dufs__/health"@ != #[trigger] (server.assets_prefix + r))
            ==> server.opened(res, Some("__dufs__/health"@), true) == (
            ResponseView {
                headers: res.headers.insert("content-type"@, "application/json"@),
                body: BodyView::Text("{\"status\":\"OK\"}"@),
                ..res
            },
            OpeningView::Own(InternalView::Health),
        ),
        name != "__dufs__/health"@ && (forall|r: Seq<char>|
            name != #[trigger] (server.assets_prefix + r)) ==> server.opened(res, Some(name), true)
            == (res, OpeningView::Path(name)),
{
    crate::text_laws::law_prefix_and_rest(server.assets_prefix + name, server.assets_prefix, name);
    crate::text_laws::law_prefix_and_rest("__dufs__/health"@, server.assets_prefix, name);
    crate::text_laws::law_prefix_and_rest(name, server.assets_prefix, name);
    reveal_strlit("content-type");
    reveal_strlit("cache-control");
    reveal_strlit("x-content-type-options");
    reveal_strlit("index.js");
    reveal_strlit("index.css");
    reveal_strlit("favicon.ico");
    assert("content-type"@.len() != "cache-control"@.len());
    assert("content-type"@.len() != "x-content-type-options"@.len());
    assert("cache-control"@.len() != "x-content-type-options"@.len());
    assert("index.js"@.len() != "index.css"@.len());
    assert("favicon.ico"@.len() != "index.css"@.len());
    assert("favicon.ico"@.len() != "index.js"@.len());
}

/// A client that is known to run no scripts is answered as if its query said so.
pub proof fn law_scriptless_clients_are_answered_so(server: ServerView, ex: ExchangeView)
    requires
        ex.noscript,
    ensures
        ({
            let plain = ExchangeView {
                noscript: false,
                query: ex.query.insert("noscript"@, Seq::empty()),
                ..ex
            };
            let (after, step) = server.admitted(plain);
            server.admitted(ex) == (ExchangeView { noscript: true, ..after }, step)
        }),
{
}

/// What the server learns leads to what follows from it: who asks, whether the password file is asked
/// for, what protects the place, what is there, where an upload continues, and whether there is an
/// index file.
pub proof fn law_events_lead_on(
    server: ServerView,
    ex: ExchangeView,
    user: Option<String>,
    access: Option<AccessPaths>,
    grant: Option<Grant>,
    flag: bool,
    target: Target,
    offset: UploadOffset,
    size: u64,
)
    ensures
        server.handled(ex, Event::Guard { user, access, noscript: flag }) == server.guarded(
            ex,
            match user {
                Some(user) => Some(user@),
                None => None,
            },
            match access {
                Some(access) => Some(access@),
                None => None,
            },
            flag,
        ),
        server.handled(ex, Event::Metadata(flag)) == server.visited(ex, flag),
        server.handled(ex, Event::Protection(grant)) == server.protected(
            ex,
            match grant {
                Some(grant) => Some(
                    GrantView {
                        directory: grant.directory@,
                        password: grant.password@,
                        encoded: grant.encoded@,
                    },
                ),
                None => None,
            },
        ),
        server.handled(ex, Event::Target(target)) == server.targeted(ex, target),
        server.handled(ex, Event::Offset { offset, size }) == server.continued(ex, offset, size),
        server.handled(ex, Event::IndexFile(flag)) == server.indexed(ex, flag),
{
}

/// Methods go by their names.
pub proof fn law_methods_go_by_name(name: Seq<char>)
    ensures
        method_named("GET"@) == Method::Get,
        method_named("HEAD"@) == Method::Head,
        method_named("OPTIONS"@) == Method::Options,
        method_named("PUT"@) == Method::Put,
        method_named("PATCH"@) == Method::Patch,
        method_named("DELETE"@) == Method::Delete,
        method_named("PROPFIND"@) == Method::Propfind,
        method_named("PROPPATCH"@) == Method::Proppatch,
        method_named("MKCOL"@) == Method::Mkcol,
        method_named("COPY"@) == Method::Copy,
        method_named("MOVE"@) == Method::Move,
        method_named("LOCK"@) == Method::Lock,
        method_named("UNLOCK"@) == Method::Unlock,
        method_named("CHECKAUTH"@) == Method::Checkauth,
        method_named("LOGOUT"@) == Method::Logout,
        method_named("SETPASSWORD"@) == Method::Setpassword,
        name != "GET"@ && name != "HEAD"@ && name != "OPTIONS"@ && name != "PUT"@ && name
            != "PATCH"@ && name != "DELETE"@ && name != "PROPFIND"@ && name != "PROPPATCH"@ && name
            != "MKCOL"@ && name != "COPY"@ && name != "MOVE"@ && name != "LOCK"@ && name
            != "UNLOCK"@ && name != "CHECKAUTH"@ && name != "LOGOUT"@ && name != "SETPASSWORD"@
            ==> method_named(name) == Method::Other,
{
    lemma_method_names();
}

/// No two names of methods are the same: they differ in length or in a character.
proof fn lemma_method_names()
    ensures
        "GET"@.len() == 3 && "GET"@[0] == 'G' && "GET"@[1] == 'E',
        "PUT"@.len() == 3 && "PUT"@[0] == 'P' && "PUT"@[1] == 'U',
        "HEAD"@.len() == 4 && "HEAD"@[0] == 'H' && "HEAD"@[1] == 'E',
        "COPY"@.len() == 4 && "COPY"@[0] == 'C' && "COPY"@[1] == 'O',
        "MOVE"@.len() == 4 && "MOVE"@[0] == 'M' && "MOVE"@[1] == 'O',
        "LOCK"@.len() == 4 && "LOCK"@[0] == 'L' && "LOCK"@[1] == 'O',
        "PATCH"@.len() == 5 && "PATCH"@[0] == 'P',
        "MKCOL"@.len() == 5 && "MKCOL"@[0] == 'M',
        "DELETE"@.len() == 6 && "DELETE"@[0] == 'D',
        "UNLOCK"@.len() == 6 && "UNLOCK"@[0] == 'U',
        "LOGOUT"@.len() == 6 && "LOGOUT"@[0] == 'L',
        "OPTIONS"@.len() == 7,
        "PROPFIND"@.len() == 8,
        "PROPPATCH"@.len() == 9 && "PROPPATCH"@[0] == 'P',
        "CHECKAUTH"@.len() == 9 && "CHECKAUTH"@[0] == 'C',
        "SETPASSWORD"@.len() == 11,
{
    reveal_strlit("GET");
    reveal_strlit("PUT");
    reveal_strlit("HEAD");
    reveal_strlit("COPY");
    reveal_strlit("MOVE");
    reveal_strlit("LOCK");
    reveal_strlit("PATCH");
    reveal_strlit("MKCOL");
    reveal_strlit("DELETE");
    reveal_strlit("UNLOCK");
    reveal_strlit("LOGOUT");
    reveal_strlit("OPTIONS");
    reveal_strlit("PROPFIND");
    reveal_strlit("PROPPATCH");
    reveal_strlit("CHECKAUTH");
    reveal_strlit("SETPASSWORD");
}

/// A request is begun with what it says itself: its method, paths, query and cookies, whether it has
/// credentials, and a fresh reply, which a client that needs that is told to close the connection in.
pub proof fn law_requests_begin_with_what_they_say(
    method: Method,
    req_path: Seq<char>,
    relative_path: Seq<char>,
    authorized: bool,
    user_agent: Seq<char>,
    query: Map<Seq<char>, Seq<char>>,
    cookies: Seq<(Seq<char>, Seq<char>)>,
    rest: Seq<char>,
)
    ensures
        ({
            let ex = ExchangeView::of(
                method,
                req_path,
                relative_path,
                authorized,
                user_agent,
                query,
                cookies,
            );
            let windows = user_agent == "microsoft-webdav-miniredir/"@ + rest;
            let other = forall|r: Seq<char>|
                user_agent != #[trigger] ("microsoft-webdav-miniredir/"@ + r);
            &&& ex.method == method && ex.req_path == req_path && ex.relative_path == relative_path
            &&& ex.authorized == authorized && ex.query == query && ex.cookies == cookies
            &&& ex.user is None && ex.access.perm == AccessPerm::IndexOnly && !ex.noscript
            &&& ex.res.status == 200 && ex.res.body == BodyView::Empty && !ex.res.challenge
            &&& ex.res.cookies.len() == 0
            &&& windows ==> ex.microsoft_webdav && ex.res.headers == Map::<
                Seq<char>,
                Seq<char>,
            >::empty().insert("connection"@, "close"@)
            &&& other ==> !ex.microsoft_webdav && ex.res.headers == Map::<
                Seq<char>,
                Seq<char>,
            >::empty()
        }),
{
    crate::text_laws::law_prefix_and_rest(user_agent, "microsoft-webdav-miniredir/"@, rest);
}

} // verus!
