//! Copies and moves: from the destination that a request names to the passwords that go along.
use crate::directory_auth::{
    in_tree, password_matches, valid_path, with_tree_moved, DIRECTORY_PASSWORD_QUERY,
};
use crate::items::optional_text;
use crate::outside::{query_pairs, uri_texts};
use crate::paths::{FsPath, FsPathView};
use crate::request::{first_pair, first_parameter};
use crate::response::{
    status_bad_request, status_forbid, status_no_content, Response, ResponseView,
};
use crate::server::{Server, ServerView};
use crate::webdav::{stored_if, Stored};
use vstd::prelude::*;
use vstd::string::*;
use vstd::utf8::*;

verus! {

/// Whether something is copied or moved.
#[derive(Debug, Clone, Copy, PartialEq, Eq, Structural)]
pub enum TransferKind {
    Copy,
    Move,
}

/// A copy or move on its way.
#[derive(Debug)]
pub struct Transfer {
    pub kind: TransferKind,
    /// The place of what is copied or moved.
    pub source: FsPath,
    /// Whether the request carries credentials.
    pub authorized: bool,
    /// The relative path of the destination.
    pub relative_path: String,
    /// The place of the destination.
    pub destination: FsPath,
    /// The password that comes with the destination.
    pub password: Option<String>,
    /// Whether a directory is copied or moved.
    pub is_dir: bool,
}

/// What is known of a copy or move on its way.
pub struct TransferView {
    pub kind: TransferKind,
    pub source: FsPathView,
    pub authorized: bool,
    pub relative_path: Seq<char>,
    pub destination: FsPathView,
    pub password: Option<Seq<char>>,
    pub is_dir: bool,
}

impl View for Transfer {
    type V = TransferView;

    open spec fn view(&self) -> TransferView {
        TransferView {
            kind: self.kind,
            source: self.source@,
            authorized: self.authorized,
            relative_path: self.relative_path@,
            destination: self.destination@,
            password: optional_text(self.password),
            is_dir: self.is_dir,
        }
    }
}

/// What has become known of a copy or move.
#[derive(Debug)]
pub enum TransferEvent {
    /// Whether the rules of the accounts give the destination a user, and access.
    Guard { has_user: bool, has_access: bool },
    /// The password of the directory that protects the destination.
    Expected(Option<String>),
    /// Whether the source is a directory, and the destination the file that stores the passwords.
    Source { is_dir: bool, dest_is_metadata: bool },
    /// The directory of the destination is there; whether the destination leads outside.
    Prepared { outside: bool },
    /// What was to be copied or moved is at its destination.
    Finished,
}

/// What is to be asked or done next for a copy or move.
#[derive(Debug, Clone, Copy, PartialEq, Eq, Structural)]
pub enum TransferStep {
    /// The reply is complete.
    Reply,
    /// The request failed.
    Fail,
    /// Find out the password of the directory that protects the destination.
    AskPassword,
    /// Find out what the source and the destination are.
    AskSource,
    /// Make the directory of the destination, and find out where the destination leads.
    Prepare,
    /// Copy or move.
    Perform,
}

/// What the rules of the accounts say of the destination of a copy or move.
#[derive(Debug, Clone, Copy, PartialEq, Eq, Structural)]
pub enum DestAccess {
    Granted,
    Refused,
    /// It depends on the password of the directory that protects the destination.
    AskPassword,
}

/// What the rules of the accounts say of the destination of a copy or move: whether they give it a
/// user and access, and whether the request carries credentials.
pub open spec fn dest_access(
    with_passwords: bool,
    has_user: bool,
    has_access: bool,
    authorized: bool,
) -> DestAccess {
    if !with_passwords {
        if has_access {
            DestAccess::Granted
        } else {
            DestAccess::Refused
        }
    } else if has_user && has_access {
        DestAccess::Granted
    } else if !has_user && !authorized {
        DestAccess::AskPassword
    } else {
        DestAccess::Refused
    }
}

/// The reply to a copy or move whose destination is not allowed.
pub open spec fn invalid_destination(res: ResponseView) -> ResponseView {
    res.bad_request("Invalid Destination"@)
}

/// The password that comes with a destination: the first one in its query.
pub open spec fn given_password(query: Option<Seq<char>>) -> Option<Seq<char>> {
    match query {
        Some(query) => first_pair(query_pairs(encode_utf8(query)), DIRECTORY_PASSWORD_QUERY@),
        None => None,
    }
}

impl ServerView {
    /// Whether a copy or move to a relative path begins so.
    pub open spec fn transfer_to(
        self,
        kind: TransferKind,
        source: FsPathView,
        authorized: bool,
        relative_path: Seq<char>,
        password: Option<Seq<char>>,
    ) -> TransferView {
        TransferView {
            kind,
            source,
            authorized,
            relative_path,
            destination: self.place(relative_path),
            password,
            is_dir: false,
        }
    }

    /// What follows for a copy or move when something has become known.
    pub open spec fn transferred(
        self,
        t: TransferView,
        event: TransferEvent,
        res: ResponseView,
    ) -> (TransferView, ResponseView, TransferStep) {
        match event {
            TransferEvent::Guard { has_user, has_access } => match dest_access(
                self.directory_auth is Some,
                has_user,
                has_access,
                t.authorized,
            ) {
                DestAccess::Granted => (t, res, TransferStep::AskSource),
                DestAccess::Refused => (t, res.forbidden(), TransferStep::Reply),
                DestAccess::AskPassword => (t, res, TransferStep::AskPassword),
            },
            TransferEvent::Expected(expected) => if expected is Some && t.password == Some(
                expected->0@,
            ) {
                (t, res, TransferStep::AskSource)
            } else {
                (t, res.forbidden(), TransferStep::Reply)
            },
            TransferEvent::Source { is_dir, dest_is_metadata } => {
                let next = TransferView { is_dir, ..t };
                let placed = self.relative(t.source) is Some && self.relative(t.destination) is Some;
                if t.kind == TransferKind::Copy && is_dir {
                    (next, res.forbidden(), TransferStep::Reply)
                } else if t.kind == TransferKind::Move && !placed {
                    (next, res, TransferStep::Fail)
                } else if dest_is_metadata {
                    (next, invalid_destination(res), TransferStep::Reply)
                } else {
                    (next, res, TransferStep::Prepare)
                }
            },
            TransferEvent::Prepared { outside } => if outside {
                (t, invalid_destination(res), TransferStep::Reply)
            } else {
                (t, res, TransferStep::Perform)
            },
            TransferEvent::Finished => (t, res.no_content(), TransferStep::Reply),
        }
    }
}

impl Server {
    /// Begins a copy or move to the destination that a request names: its path and its query.
    /// `decode_uri` decodes a path. There is nothing, and the reply says so, where the destination is
    /// not allowed.
    pub fn extract_dest<D: Fn(&str) -> Option<String>>(
        &self,
        kind: TransferKind,
        source: FsPath,
        authorized: bool,
        destination: Option<(String, Option<String>)>,
        decode_uri: &D,
        res: &mut Response,
    ) -> (r: Option<Transfer>)
        requires
            forall|p: &str| call_requires(decode_uri, (p,)),
        ensures
            match uri_texts(destination) {
                None => r is None && final(res)@ == invalid_destination(old(res)@),
                Some((path, query)) => exists|p: &str, decoded: Option<String>|
                    p@ == path && #[trigger] call_ensures(decode_uri, (p,), decoded)
                        && match self@.resolve(optional_text(decoded)) {
                        None => r is None && final(res)@ == invalid_destination(old(res)@),
                        Some(relative_path) => r is Some && r->0@ == self@.transfer_to(
                            kind,
                            source@,
                            authorized,
                            relative_path,
                            given_password(query),
                        ) && final(res)@ == old(res)@,
                    },
            },
    {
        let (path, query) = match destination {
            Some(parts) => parts,
            None => {
                status_bad_request(res, "Invalid Destination");
                return None;
            },
        };
        let decoded = decode_uri(path.as_str());
        let resolved = match &decoded {
            Some(text) => self.resolve_path(Some(text.as_str())),
            None => self.resolve_path(None),
        };
        let relative_path = match resolved {
            Some(relative_path) => relative_path,
            None => {
                status_bad_request(res, "Invalid Destination");
                return None;
            },
        };
        let destination = match self.join_path(relative_path.as_str()) {
            Some(place) => place,
            None => {
                return None;
            },
        };
        let password: Option<String> = match query {
            Some(query) => first_parameter(query.as_str(), DIRECTORY_PASSWORD_QUERY),
            None => None,
        };
        Some(
            Transfer {
                kind,
                source,
                authorized,
                relative_path,
                destination,
                password,
                is_dir: false,
            },
        )
    }

    /// Goes on with a copy or move when something has become known: changes the reply and says what is
    /// to be asked or done next.
    pub fn handle_transfer(&self, t: &mut Transfer, event: TransferEvent, res: &mut Response) -> (r:
        TransferStep)
        ensures
            (final(t)@, final(res)@, r) == self@.transferred(old(t)@, event, old(res)@),
    {
        match event {
            TransferEvent::Guard { has_user, has_access } => {
                let with_passwords = self.directory_auth.is_some();
                if !with_passwords {
                    if has_access {
                        return TransferStep::AskSource;
                    }
                } else if has_user && has_access {
                    return TransferStep::AskSource;
                } else if !has_user && !t.authorized {
                    return TransferStep::AskPassword;
                }
                status_forbid(res);
                TransferStep::Reply
            },
            TransferEvent::Expected(expected) => {
                let granted = match (&expected, &t.password) {
                    (Some(expected), Some(given)) => password_matches(
                        expected.as_str(),
                        Some(given),
                    ),
                    _ => false,
                };
                if granted {
                    return TransferStep::AskSource;
                }
                status_forbid(res);
                TransferStep::Reply
            },
            TransferEvent::Source { is_dir, dest_is_metadata } => {
                t.is_dir = is_dir;
                match t.kind {
                    TransferKind::Copy => {
                        if is_dir {
                            status_forbid(res);
                            return TransferStep::Reply;
                        }
                    },
                    TransferKind::Move => {
                        if self.relative_path(&t.source).is_none() || self.relative_path(
                            &t.destination,
                        ).is_none() {
                            return TransferStep::Fail;
                        }
                    },
                }
                if dest_is_metadata {
                    status_bad_request(res, "Invalid Destination");
                    return TransferStep::Reply;
                }
                TransferStep::Prepare
            },
            TransferEvent::Prepared { outside } => {
                if outside {
                    status_bad_request(res, "Invalid Destination");
                    return TransferStep::Reply;
                }
                TransferStep::Perform
            },
            TransferEvent::Finished => {
                status_no_content(res);
                TransferStep::Reply
            },
        }
    }

    /// Takes the passwords of a directory that was moved, and of what lies below it, along.
    pub fn move_passwords(&mut self, t: &Transfer) -> (r: Stored)
        ensures
            match (old(self)@.relative(t@.source), old(self)@.relative(t@.destination)) {
                (Some(source), Some(destination)) => if t.kind == TransferKind::Copy || !t.is_dir
                    || old(self)@.directory_auth is None {
                    r == Stored::Unchanged && final(self)@ == old(self)@
                } else if !valid_path(source) || !valid_path(destination) {
                    r == Stored::Failed && final(self)@ == old(self)@
                } else if exists|k: Seq<char>|
                    old(self)@.directories().contains_key(k) && #[trigger] in_tree(k, source) {
                    r == Stored::Changed && final(self)@ == old(self)@.with_directories(
                        with_tree_moved(old(self)@.directories(), source, destination),
                    )
                } else {
                    r == Stored::Unchanged && final(self)@ == old(self)@
                },
                _ => r == Stored::Failed && final(self)@ == old(self)@,
            },
    {
        let source = match self.relative_path(&t.source) {
            Some(source) => source,
            None => {
                return Stored::Failed;
            },
        };
        let destination = match self.relative_path(&t.destination) {
            Some(destination) => destination,
            None => {
                return Stored::Failed;
            },
        };
        if t.kind == TransferKind::Copy || !t.is_dir {
            return Stored::Unchanged;
        }
        match &mut self.directory_auth {
            Some(auth) => match auth.move_tree(source.as_str(), destination.as_str()) {
                Ok(moved) => stored_if(moved),
                Err(_) => Stored::Failed,
            },
            None => Stored::Unchanged,
        }
    }
}

/// The file that stores the passwords is not overwritten, and directories are not copied.
pub proof fn law_transfer_spares_password_file(
    server: ServerView,
    t: TransferView,
    is_dir: bool,
    res: ResponseView,
)
    ensures
        server.transferred(
            t,
            TransferEvent::Source { is_dir, dest_is_metadata: true },
            res,
        ).2 != TransferStep::Prepare,
        t.kind == TransferKind::Copy ==> server.transferred(
            t,
            TransferEvent::Source { is_dir: true, dest_is_metadata: false },
            res,
        ) == (TransferView { is_dir: true, ..t }, res.forbidden(), TransferStep::Reply),
{
}

/// A copy or move is only performed to a destination in the served directory.
pub proof fn law_transfer_stays_inside(
    server: ServerView,
    t: TransferView,
    event: TransferEvent,
    res: ResponseView,
)
    requires
        server.transferred(t, event, res).2 == TransferStep::Perform,
    ensures
        event == (TransferEvent::Prepared { outside: false }),
{
}

/// With passwords of directories, a request without a user goes on only with the password of the
/// directory that protects the destination.
pub proof fn law_transfer_needs_password(
    server: ServerView,
    t: TransferView,
    has_access: bool,
    expected: Option<String>,
    res: ResponseView,
)
    requires
        server.directory_auth is Some,
    ensures
        server.transferred(t, TransferEvent::Guard { has_user: false, has_access }, res).2
            != TransferStep::AskSource,
        server.transferred(t, TransferEvent::Expected(expected), res).2 == TransferStep::AskSource ==>
            expected is Some && t.password == Some(expected->0@),
{
}

} // verus!
