//! What copies and moves come to.
use crate::outside::query_pairs;
use crate::paths::FsPathView;
use crate::request::first_pair;
use crate::response::{BodyView, ResponseView};
use crate::server::ServerView;
use crate::transfer::{given_password, TransferEvent, TransferKind, TransferStep, TransferView};
use vstd::prelude::*;
use vstd::string::*;
use vstd::utf8::*;

verus! {

/// A move goes on for files and directories alike, and a copy for files, where source and destination
/// lie in the served directory and the destination is not the password file: the reply is left as it
/// is, and it is kept in mind whether a directory goes.
pub proof fn law_files_and_directories_are_transferred(
    server: ServerView,
    t: TransferView,
    is_dir: bool,
    res: ResponseView,
)
    requires
        t.kind == TransferKind::Copy ==> !is_dir,
        t.kind == TransferKind::Move ==> server.relative(t.source) is Some && server.relative(
            t.destination,
        ) is Some,
    ensures
        server.transferred(t, TransferEvent::Source { is_dir, dest_is_metadata: false }, res) == (
            TransferView { is_dir, ..t },
            res,
            TransferStep::Prepare,
        ),
{
}

/// A directory is not copied, nothing takes the place of the password file, and a move from or to a
/// place outside the served directory fails.
pub proof fn law_transfers_that_are_refused(
    server: ServerView,
    t: TransferView,
    is_dir: bool,
    dest_is_metadata: bool,
    res: ResponseView,
)
    ensures
        ({
            let (after, reply, step) = server.transferred(
                t,
                TransferEvent::Source { is_dir, dest_is_metadata },
                res,
            );
            let placed = server.relative(t.source) is Some && server.relative(
                t.destination,
            ) is Some;
            &&& t.kind == TransferKind::Copy && is_dir ==> step == TransferStep::Reply && reply == (
            ResponseView { status: 403, body: BodyView::Text("Forbidden"@), ..res })
            &&& t.kind == TransferKind::Move && !placed ==> step == TransferStep::Fail
            &&& dest_is_metadata && ((t.kind == TransferKind::Copy && !is_dir) || (t.kind
                == TransferKind::Move && placed)) ==> step == TransferStep::Reply && reply == (
            ResponseView { status: 400, body: BodyView::Text("Invalid Destination"@), ..res })
        }),
{
    reveal_strlit("Invalid Destination");
}

/// What is prepared is performed where the destination lies inside, and what is performed is answered
/// as done.
pub proof fn law_transfers_are_performed(server: ServerView, t: TransferView, res: ResponseView)
    ensures
        server.transferred(t, TransferEvent::Prepared { outside: false }, res) == (
            t,
            res,
            TransferStep::Perform,
        ),
        server.transferred(t, TransferEvent::Prepared { outside: true }, res) == (
            t,
            ResponseView { status: 400, body: BodyView::Text("Invalid Destination"@), ..res },
            TransferStep::Reply,
        ),
        server.transferred(t, TransferEvent::Finished, res) == (
            t,
            ResponseView { status: 204, ..res },
            TransferStep::Reply,
        ),
{
    reveal_strlit("Invalid Destination");
}

/// Access to the destination is all it takes to go on, with a user where directories have passwords.
/// There, a request without a user and without credentials goes on with the password of the directory
/// that protects the destination. Every other one is refused.
pub proof fn law_access_to_the_destination(
    server: ServerView,
    t: TransferView,
    has_user: bool,
    has_access: bool,
    expected: Option<String>,
    res: ResponseView,
)
    ensures
        ({
            let guard = server.transferred(t, TransferEvent::Guard { has_user, has_access }, res);
            let with = server.directory_auth is Some;
            let refused = (
                t,
                ResponseView { status: 403, body: BodyView::Text("Forbidden"@), ..res },
                TransferStep::Reply,
            );
            let password = server.transferred(t, TransferEvent::Expected(expected), res);
            &&& has_access && (has_user || !with) ==> guard == (t, res, TransferStep::AskSource)
            &&& with && !has_user && !t.authorized ==> guard == (t, res, TransferStep::AskPassword)
            &&& !has_access && (has_user || !with) ==> guard == refused
            &&& with && !has_user && t.authorized ==> guard == refused
            &&& expected is Some && t.password is Some && t.password->0 == expected->0@
                ==> password == (t, res, TransferStep::AskSource)
            &&& expected is None || t.password is None || t.password->0 != expected->0@ ==> password
                == refused
        }),
{
}

/// A copy or move leads from its source to the place of its path in the served directory, with the
/// password that comes with the destination and whether the request has credentials.
pub proof fn law_transfers_lead_to_their_path(
    server: ServerView,
    kind: TransferKind,
    source: FsPathView,
    authorized: bool,
    relative_path: Seq<char>,
    password: Option<Seq<char>>,
)
    ensures
        ({
            let t = server.transfer_to(kind, source, authorized, relative_path, password);
            &&& t.kind == kind && t.source == source && t.authorized == authorized
            &&& t.relative_path == relative_path && t.password == password && !t.is_dir
            &&& t.destination == server.place(relative_path)
        }),
{
}

/// The value of a parameter is that of its first pair, and there is none where no pair has its name.
pub proof fn law_first_pair_counts(
    before: Seq<(Seq<char>, Seq<char>)>,
    key: Seq<char>,
    value: Seq<char>,
    after: Seq<(Seq<char>, Seq<char>)>,
)
    requires
        forall|i: int| 0 <= i < before.len() ==> (#[trigger] before[i]).0 != key,
    ensures
        first_pair(before + seq![(key, value)] + after, key) == Some(value),
        first_pair(before, key) is None,
    decreases before.len(),
{
    let whole = before + seq![(key, value)] + after;
    if before.len() > 0 {
        let rest = before.drop_first();
        assert forall|i: int| 0 <= i < rest.len() implies (#[trigger] rest[i]).0 != key by {
            assert(rest[i] == before[i + 1]);
        }
        law_first_pair_counts(rest, key, value, after);
        assert(whole[0] == before[0]);
        assert(whole.drop_first() =~= rest + seq![(key, value)] + after);
    } else {
        assert(whole[0] == (key, value));
    }
}

/// The password that comes with a destination is the first one in its query.
pub proof fn law_destinations_carry_passwords(
    query: Seq<char>,
    before: Seq<(Seq<char>, Seq<char>)>,
    value: Seq<char>,
    after: Seq<(Seq<char>, Seq<char>)>,
)
    requires
        forall|i: int| 0 <= i < before.len() ==> (#[trigger] before[i]).0 != "dir_password"@,
    ensures
        query_pairs(encode_utf8(query)) == before + seq![("dir_password"@, value)] + after
            ==> given_password(Some(query)) == Some(value),
        query_pairs(encode_utf8(query)) == before ==> given_password(Some(query)) is None,
        given_password(None) is None,
{
    law_first_pair_counts(before, "dir_password"@, value, after);
}

} // verus!
