//! What holds of the answers to all requests.
use crate::access::{AccessPerm, AccessView};
use crate::directory_auth::in_tree;
use crate::exchange::{ExchangeView, GrantView, Step, Target};
use crate::handle::{cookie_opens, query_granted, CLIPBOARD_EVENTS_PATH, CLIPBOARD_PATH};
use crate::outside::is_header_text;
use crate::password_cookie::lemma_cookie_fits_header;
use crate::request::{is_flag, reads_only, Method, UploadOffset};
use crate::server::ServerView;
use vstd::prelude::*;

verus! {

/// Whether a step changes files, passwords or the clipboard, or may lead to one that does.
pub open spec fn writes(step: Step) -> bool {
    match step {
        Step::Upload { .. } => true,
        Step::AskOffset { .. } => true,
        Step::Delete { .. } => true,
        Step::Mkcol => true,
        Step::Copy => true,
        Step::Move => true,
        Step::Proppatch => true,
        Step::Lock => true,
        Step::SetPassword => true,
        Step::ClipboardSet => true,
        _ => false,
    }
}

/// Whether a request may come from a visitor to whom a password of a directory, or nothing, gave
/// access: it has no user and at most reads.
pub open spec fn read_only_visit(ex: ExchangeView) -> bool {
    ex.user is None && ex.access.perm != AccessPerm::ReadWrite
}

/// A request that the password of a directory opens, or that needs none, has no user, and its access
/// allows no writing.
pub proof fn law_visitor_gets_no_write_access(
    server: ServerView,
    ex: ExchangeView,
    grant: Option<GrantView>,
)
    requires
        server.directory_auth is Some,
        read_only_visit(ex),
    ensures
        read_only_visit(server.protected(ex, grant).0),
        !writes(server.protected(ex, grant).1),
        server.protected(ex, grant).1 == Step::AskTarget ==> reads_only(ex.method)
            && server.protected(ex, grant).0.method == ex.method,
{
}

/// What a visitor is shown never writes: whatever is found at the place that a reading request of a
/// visitor asks for, nothing is changed.
pub proof fn law_visitor_never_writes(server: ServerView, ex: ExchangeView, target: Target)
    requires
        read_only_visit(ex),
        reads_only(ex.method),
    ensures
        !writes(server.targeted(ex, target).1),
{
}

/// A request that writes, with the right password of the directory, is refused.
pub proof fn law_password_does_not_allow_writing(
    server: ServerView,
    ex: ExchangeView,
    grant: Option<GrantView>,
)
    requires
        server.directory_auth is Some,
        server.granted(ex, grant),
        !reads_only(ex.method),
        ex.method != Method::Checkauth,
    ensures
        server.protected(ex, grant) == (ex.with(ex.res.forbidden()), Step::Reply),
{
}

/// A request for anything but the root, without the right password of the directory that protects
/// its place, is asked for it.
pub proof fn law_missing_password_is_asked_for(
    server: ServerView,
    ex: ExchangeView,
    grant: Option<GrantView>,
)
    requires
        server.directory_auth is Some,
        !server.granted(ex, grant),
        ex.method != Method::Options,
        ex.method != Method::Checkauth,
        ex.relative_path.len() > 0 || (ex.method != Method::Get && ex.method != Method::Head),
    ensures
        server.protected(ex, grant) == (ex.with(ex.res.password_required()), Step::Reply),
        server.protected(ex, grant).0.res.status == 401,
{
}

/// A reading request with the right password of the directory is let in to read. Where the password
/// is in its query, the prefix of the addresses and the encoded path of the directory have to fit a
/// header, as the cookie that it is given holds them.
pub proof fn law_right_password_lets_in(
    server: ServerView,
    ex: ExchangeView,
    grant: Option<GrantView>,
)
    requires
        server.directory_auth is Some,
        server.granted(ex, grant),
        reads_only(ex.method),
        query_granted(ex, grant) ==> is_header_text(server.args.uri_prefix) && is_header_text(
            grant->0.encoded,
        ),
        ex.relative_path.len() > 0,
        ex.relative_path != CLIPBOARD_PATH@,
        ex.relative_path != CLIPBOARD_EVENTS_PATH@,
        !is_flag(ex.query, "tokengen"@),
        !server.args.path_is_file,
    ensures
        server.protected(ex, grant).1 == Step::AskTarget,
        server.protected(ex, grant).0.access == AccessView::plain(AccessPerm::ReadOnly),
{
    if query_granted(ex, grant) {
        lemma_cookie_fits_header(server.args.uri_prefix, grant->0);
    }
    reveal_strlit("noscript");
    reveal_strlit("tokengen");
    assert("noscript"@[0] != "tokengen"@[0]);
    assert(is_flag(ex.query.insert("noscript"@, Seq::empty()), "tokengen"@) == is_flag(
        ex.query,
        "tokengen"@,
    ));
}

/// Only a user of an account changes the password of a directory.
pub proof fn law_only_accounts_set_passwords(server: ServerView, ex: ExchangeView, target: Target)
    requires
        server.targeted(ex, target).1 == Step::SetPassword,
    ensures
        ex.user is Some,
        ex.method == Method::Setpassword,
        target.is_dir,
{
}

/// The file that stores the passwords is never served: a request for it finds nothing.
pub proof fn law_password_file_is_hidden(server: ServerView, ex: ExchangeView, target: Target)
    requires
        target.metadata,
    ensures
        server.targeted(ex, target) == (ex.with(ex.res.not_found()), Step::Reply),
        server.visited(ex, true) == (ex.with(ex.res.not_found()), Step::Reply),
{
}

/// What lies outside the served directory is never touched: a request for it finds nothing.
pub proof fn law_outside_is_not_served(server: ServerView, ex: ExchangeView, target: Target)
    requires
        target.outside,
    ensures
        server.targeted(ex, target).1 == Step::Reply || server.targeted(ex, target).1
            == Step::SendErrorPage,
        server.targeted(ex, target).1 == Step::Reply ==> server.targeted(ex, target).0.res.status
            == 404,
{
}

/// Uploading needs the permission to upload, deleting and moving the permission to delete, and
/// overwriting both.
pub proof fn law_writing_needs_permission(server: ServerView, ex: ExchangeView, target: Target)
    ensures
        server.targeted(ex, target).1 matches Step::Upload { offset, size } ==> {
            &&& server.args.allow_upload
            &&& size == target.size
            &&& size > 0 ==> server.args.allow_delete
        },
        server.targeted(ex, target).1 is AskOffset ==> server.args.allow_upload,
        server.targeted(ex, target).1 is Delete ==> server.args.allow_delete,
        server.targeted(ex, target).1 == Step::Mkcol ==> server.args.allow_upload,
        server.targeted(ex, target).1 == Step::Copy ==> server.args.allow_upload,
        server.targeted(ex, target).1 == Step::Move ==> server.args.allow_upload
            && server.args.allow_delete,
{
}

/// An upload that continues a file leaves what is there, unless deleting is allowed.
pub proof fn law_continuing_keeps_contents(
    server: ServerView,
    ex: ExchangeView,
    offset: UploadOffset,
    size: u64,
)
    ensures
        server.continued(ex, offset, size).1 matches Step::Upload { offset: start, size: total } ==> {
            &&& start is Some
            &&& total == size
            &&& server.args.allow_delete || start->0 >= size
        },
{
}

/// The clipboard is only written with the permission to upload and access to write.
pub proof fn law_clipboard_needs_permission(server: ServerView, ex: ExchangeView)
    requires
        server.admitted(ex).1 == Step::ClipboardSet,
    ensures
        server.args.allow_upload,
        ex.access.perm == AccessPerm::ReadWrite,
        ex.method == Method::Put,
{
}

/// Without passwords of directories, a request that the rules of the accounts give no access ends
/// there: it is asked for credentials if it has no user, and refused if it has one.
pub proof fn law_no_access_no_answer(
    server: ServerView,
    ex: ExchangeView,
    user: Option<Seq<char>>,
    noscript: bool,
)
    requires
        server.directory_auth is None || user is Some,
    ensures
        server.guarded(ex, user, None, noscript).1 == Step::Reply,
        server.guarded(ex, user, None, noscript).0.res.status == if user is Some {
            403u16
        } else {
            401u16
        },
{
}

/// Credentials that are not accepted are asked for again, whatever password of a directory comes
/// with them.
pub proof fn law_wrong_credentials_are_rejected(
    server: ServerView,
    ex: ExchangeView,
    access: Option<AccessView>,
    noscript: bool,
)
    requires
        server.directory_auth is Some,
        ex.authorized,
    ensures
        server.guarded(ex, None, access, noscript).1 == Step::Reply,
        server.guarded(ex, None, access, noscript).0.res == ex.res.rejected(),
{
}

/// A cookie with the password of a directory opens that directory and every one below it, as long as
/// the password stays the same.
pub proof fn law_cookie_opens_what_is_below(
    server: ServerView,
    ex: ExchangeView,
    cookie: (Seq<char>, Seq<char>),
    grant: GrantView,
)
    requires
        server.directory_auth is Some,
        ex.cookies.contains(cookie),
        server.directory_auth->0.directories.contains_key(cookie.0),
        server.directory_auth->0.directories[cookie.0] == cookie.1,
        in_tree(grant.directory, cookie.0),
    ensures
        server.granted(ex, Some(grant)),
{
    let i = choose|i: int| 0 <= i < ex.cookies.len() && ex.cookies[i] == cookie;
    assert(cookie_opens(server.directory_auth->0.directories, ex.cookies[i], grant.directory));
}

/// A cookie for another tree, or with another password, opens nothing: without a password in the
/// query, a visitor is let in only by a cookie that carries the registered password of a directory
/// that is or holds the protecting one.
pub proof fn law_other_cookies_do_not_open(
    server: ServerView,
    ex: ExchangeView,
    grant: Option<GrantView>,
)
    requires
        server.granted(ex, grant),
        !query_granted(ex, grant),
    ensures
        exists|i: int|
            0 <= i < ex.cookies.len() && server.directory_auth is Some && grant is Some
                && cookie_opens(
                server.directory_auth->0.directories,
                #[trigger] ex.cookies[i],
                grant->0.directory,
            ),
{
}

/// No way that a request without a user takes through the server writes, where directories have
/// passwords: not when it is known who asks, nor when it is known whether the password file is asked
/// for, what protects the place, what is found there, and whether there is an index file.
pub proof fn law_visits_never_write(
    server: ServerView,
    ex: ExchangeView,
    access: Option<AccessView>,
    noscript: bool,
    is_metadata: bool,
    grant: Option<GrantView>,
    target: Target,
    has_index: bool,
)
    requires
        server.directory_auth is Some,
        read_only_visit(ex),
    ensures
        ({
            let first = server.guarded(ex, None, access, noscript);
            let second = server.visited(first.0, is_metadata);
            let third = server.protected(second.0, grant);
            let fourth = server.targeted(third.0, target);
            let fifth = server.indexed(fourth.0, has_index);
            &&& !writes(first.1)
            &&& first.1 == Step::AskMetadata ==> !writes(second.1)
            &&& first.1 == Step::AskMetadata && second.1 == Step::AskProtection ==> !writes(third.1)
            &&& first.1 == Step::AskMetadata && second.1 == Step::AskProtection && third.1
                == Step::AskTarget ==> !writes(fourth.1)
            &&& !writes(fifth.1)
        }),
{
    let first = server.guarded(ex, None, access, noscript);
    let second = server.visited(first.0, is_metadata);
    if first.1 == Step::AskMetadata && second.1 == Step::AskProtection {
        law_visitor_gets_no_write_access(server, second.0, grant);
        let third = server.protected(second.0, grant);
        if third.1 == Step::AskTarget {
            law_visitor_never_writes(server, third.0, target);
        }
    }
}

} // verus!
