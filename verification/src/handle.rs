//! How the server answers a request: from what it has learnt to what it asks or does next.
use crate::access::{AccessPaths, AccessPerm, AccessView};
use crate::directory_auth::{in_tree, is_in_tree, password_matches, DIRECTORY_PASSWORD_QUERY};
use crate::exchange::{Event, Exchange, ExchangeView, Grant, GrantView, Step, Target};
use crate::items::{optional_text, DataKind};
use crate::outside::is_header_text;
use crate::pages::{internal_reply, Internal, InternalView};
use crate::password_cookie::{cookie_payload, cookie_text, set_directory_password_cookie};
use crate::request::{
    has_query_flag, is_directory_share_readonly_method, is_flag, reads_only, Method, UploadOffset,
};
use crate::response::{
    auth_reject, set_webdav_headers, status_bad_request, status_directory_password_required,
    status_forbid, status_not_found, Response, ResponseView,
};
use crate::server::{Server, ServerView};
use crate::text::{ends_with, has_last, same, texts};
use vstd::prelude::*;
use vstd::string::*;

verus! {

/// The path at which the clipboard is read and written.
pub const CLIPBOARD_PATH: &'static str = "__dufs__/clipboard";

/// The path at which changes of the clipboard are followed.
pub const CLIPBOARD_EVENTS_PATH: &'static str = "__dufs__/clipboard/events";

/// How a request begins.
#[derive(Debug)]
pub enum Opening {
    /// It is refused.
    Refused,
    /// It asks for something of the server's own.
    Own(Internal),
    /// It asks for a relative path.
    Path(String),
}

/// How a request begins.
pub enum OpeningView {
    Refused,
    Own(InternalView),
    Path(Seq<char>),
}

impl View for Opening {
    type V = OpeningView;

    open spec fn view(&self) -> OpeningView {
        match self {
            Opening::Refused => OpeningView::Refused,
            Opening::Own(internal) => OpeningView::Own(internal@),
            Opening::Path(path) => OpeningView::Path(path@),
        }
    }
}

/// What protects a target, where something does.
pub open spec fn optional_grant(grant: Option<Grant>) -> Option<GrantView> {
    match grant {
        Some(g) => Some(g@),
        None => None,
    }
}

/// Whether the query carries the password of the protecting directory.
pub open spec fn query_granted(ex: ExchangeView, grant: Option<GrantView>) -> bool {
    &&& grant is Some
    &&& ex.query.contains_key(DIRECTORY_PASSWORD_QUERY@)
    &&& ex.query[DIRECTORY_PASSWORD_QUERY@] == grant->0.password
}

/// Whether a cookie opens a directory: it carries a directory that is or holds the protecting one,
/// and the password that is registered for it.
pub open spec fn cookie_opens(
    directories: Map<Seq<char>, Seq<char>>,
    cookie: (Seq<char>, Seq<char>),
    directory: Seq<char>,
) -> bool {
    &&& in_tree(directory, cookie.0)
    &&& directories.contains_key(cookie.0)
    &&& directories[cookie.0] == cookie.1
}

/// Whether a cookie opens the protecting directory.
pub open spec fn cookie_granted(
    directories: Map<Seq<char>, Seq<char>>,
    ex: ExchangeView,
    grant: Option<GrantView>,
) -> bool {
    &&& grant is Some
    &&& exists|i: int|
        0 <= i < ex.cookies.len() && cookie_opens(
            directories,
            #[trigger] ex.cookies[i],
            grant->0.directory,
        )
}

impl ServerView {
    /// How a request for a relative path begins; there is none where its path leads elsewhere. Only
    /// reading reaches what is the server's own.
    pub open spec fn opened(self, res: ResponseView, path: Option<Seq<char>>, is_get: bool) -> (
        ResponseView,
        OpeningView,
    ) {
        match path {
            None => (res.bad_request("Invalid Path"@), OpeningView::Refused),
            Some(path) => if is_get && self.internal(path) != InternalView::No {
                (
                    internal_reply(res, self.internal(path)),
                    OpeningView::Own(self.internal(path)),
                )
            } else {
                (res, OpeningView::Path(path))
            },
        }
    }

    /// The answer to a request that finds nothing: the error page, where there is one and scripts
    /// run, or a plain reply.
    pub open spec fn missed(self, ex: ExchangeView) -> (ExchangeView, Step) {
        if self.args.error_page is Some && !is_flag(ex.query, "noscript"@) {
            (ex, Step::SendErrorPage)
        } else {
            (ex.with(ex.res.not_found()), Step::Reply)
        }
    }

    /// What follows when it is known who the rules of the accounts say asks.
    pub open spec fn guarded(
        self,
        before: ExchangeView,
        user: Option<Seq<char>>,
        access: Option<AccessView>,
        noscript: bool,
    ) -> (ExchangeView, Step) {
        let ex = ExchangeView { noscript, ..before };
        let visitor = if self.directory_auth is Some {
            user is None
        } else {
            user is None && access is None
        };
        if visitor {
            if self.directory_auth is None || ex.authorized || ex.method == Method::Logout {
                (ex.with(ex.res.rejected()), Step::Reply)
            } else {
                (ex, Step::AskMetadata)
            }
        } else if access is None {
            (ex.with(ex.res.forbidden()), Step::Reply)
        } else {
            self.admitted(ExchangeView { user, access: access->0, ..ex })
        }
    }

    /// What follows when it is known whether a visitor asks for the file that stores the passwords.
    pub open spec fn visited(self, ex: ExchangeView, is_metadata: bool) -> (ExchangeView, Step) {
        if is_metadata {
            (ex.with(ex.res.not_found()), Step::Reply)
        } else {
            (ex, Step::AskProtection)
        }
    }

    /// Whether a visitor knows the password of the protecting directory.
    pub open spec fn granted(self, ex: ExchangeView, grant: Option<GrantView>) -> bool {
        query_granted(ex, grant) || (self.directory_auth is Some && cookie_granted(
            self.directory_auth->0.directories,
            ex,
            grant,
        ))
    }

    /// What follows when it is known what protects the place that a visitor asks for.
    pub open spec fn protected(self, before: ExchangeView, grant: Option<GrantView>) -> (
        ExchangeView,
        Step,
    ) {
        let gives_cookie = query_granted(before, grant) && reads_only(before.method);
        let cookie = cookie_text(self.args.uri_prefix, grant->0);
        let ex = if gives_cookie {
            before.with(ResponseView { cookies: before.res.cookies.push(cookie), ..before.res })
        } else {
            before
        };
        if gives_cookie && !is_header_text(cookie) {
            (before, Step::Fail)
        } else if ex.method == Method::Checkauth {
            if is_flag(ex.query, "login"@) || !self.granted(ex, grant) {
                (ex.with(ex.res.rejected()), Step::Reply)
            } else {
                (ex.with(ex.res.text(Seq::empty())), Step::Reply)
            }
        } else if ex.method == Method::Options {
            self.admitted(
                ExchangeView { user: None, access: AccessView::plain(AccessPerm::ReadOnly), ..ex },
            )
        } else if ex.relative_path.len() == 0 && (ex.method == Method::Get || ex.method
            == Method::Head) {
            self.admitted(
                ExchangeView { user: None, access: AccessView::plain(AccessPerm::IndexOnly), ..ex },
            )
        } else if self.granted(ex, grant) {
            if reads_only(ex.method) {
                self.admitted(
                    ExchangeView { user: None, access: AccessView::plain(AccessPerm::ReadOnly), ..ex },
                )
            } else {
                (ex.with(ex.res.forbidden()), Step::Reply)
            }
        } else {
            (ex.with(ex.res.password_required()), Step::Reply)
        }
    }

    /// What follows when it is known who asks, with which access.
    pub open spec fn admitted(self, before: ExchangeView) -> (ExchangeView, Step) {
        let ex = if before.noscript {
            ExchangeView { query: before.query.insert("noscript"@, Seq::empty()), ..before }
        } else {
            before
        };
        let readwrite = ex.access.perm == AccessPerm::ReadWrite;
        if ex.method == Method::Checkauth {
            if ex.user is Some {
                (ex.with(ex.res.text(ex.user->0)), Step::Reply)
            } else if is_flag(ex.query, "login"@) || !readwrite {
                (ex.with(ex.res.rejected()), Step::Reply)
            } else {
                (ex.with(ex.res.text(Seq::empty())), Step::Reply)
            }
        } else if ex.method == Method::Logout {
            (ex.with(ex.res.rejected()), Step::Reply)
        } else if is_flag(ex.query, "tokengen"@) {
            if ex.user is Some {
                (ex, Step::TokenGen)
            } else {
                (ex.with(ex.res.forbidden()), Step::Reply)
            }
        } else if ex.relative_path == CLIPBOARD_EVENTS_PATH@ {
            if ex.method == Method::Get {
                (ex, Step::ClipboardEvents)
            } else {
                (ex.with(ex.res.method_not_allowed()), Step::Reply)
            }
        } else if ex.relative_path == CLIPBOARD_PATH@ {
            if ex.method == Method::Get || ex.method == Method::Head {
                (ex, Step::ClipboardGet)
            } else if ex.method != Method::Put {
                (ex.with(ex.res.method_not_allowed()), Step::Reply)
            } else if self.args.allow_upload && readwrite {
                (ex, Step::ClipboardSet)
            } else {
                (ex.with(ex.res.forbidden()), Step::Reply)
            }
        } else if self.args.path_is_file {
            if self.single_file_req_paths.contains(ex.req_path) {
                (ex, Step::SendServed)
            } else {
                self.missed(ex)
            }
        } else {
            (ex, Step::AskTarget)
        }
    }

    /// What follows when it is known what is found at the place.
    pub open spec fn targeted(self, ex: ExchangeView, target: Target) -> (ExchangeView, Step) {
        if target.metadata {
            (ex.with(ex.res.not_found()), Step::Reply)
        } else if target.outside {
            self.missed(ex)
        } else {
            match ex.method {
                Method::Setpassword => if ex.user is None {
                    (ex.with(ex.res.forbidden()), Step::Reply)
                } else if !target.is_dir {
                    (ex.with(ex.res.not_found()), Step::Reply)
                } else {
                    (ex, Step::SetPassword)
                },
                Method::Get | Method::Head => self.fetched(ex, target),
                Method::Options => (ex.with(ex.res.webdav_headers()), Step::Reply),
                Method::Put => if target.is_dir || !self.args.allow_upload || (
                !self.args.allow_delete && target.size > 0) {
                    (ex.with(ex.res.forbidden()), Step::Reply)
                } else {
                    (ex, Step::Upload { offset: None, size: target.size })
                },
                Method::Patch => if target.missing {
                    (ex.with(ex.res.not_found()), Step::Reply)
                } else if !self.args.allow_upload {
                    (ex.with(ex.res.forbidden()), Step::Reply)
                } else {
                    (ex, Step::AskOffset { size: target.size })
                },
                Method::Delete => if !self.args.allow_delete {
                    (ex.with(ex.res.forbidden()), Step::Reply)
                } else if target.missing {
                    (ex.with(ex.res.not_found()), Step::Reply)
                } else {
                    (ex, Step::Delete { is_dir: target.is_dir })
                },
                Method::Propfind => if target.is_dir {
                    if ex.access.perm == AccessPerm::IndexOnly && !ex.authorized {
                        (
                            ExchangeView { access: AccessView::plain(AccessPerm::ReadOnly), ..ex },
                            Step::PropfindDir,
                        )
                    } else {
                        (ex, Step::PropfindDir)
                    }
                } else if target.is_file {
                    (ex, Step::PropfindFile)
                } else {
                    (ex.with(ex.res.not_found()), Step::Reply)
                },
                Method::Proppatch => if target.is_file {
                    (ex, Step::Proppatch)
                } else {
                    (ex.with(ex.res.not_found()), Step::Reply)
                },
                Method::Mkcol => if !self.args.allow_upload {
                    (ex.with(ex.res.forbidden()), Step::Reply)
                } else if !target.missing {
                    (
                        ex.with(ex.res.method_not_allowed().text("Already exists"@)),
                        Step::Reply,
                    )
                } else {
                    (ex, Step::Mkcol)
                },
                Method::Copy => if !self.args.allow_upload {
                    (ex.with(ex.res.forbidden()), Step::Reply)
                } else if target.missing {
                    (ex.with(ex.res.not_found()), Step::Reply)
                } else {
                    (ex, Step::Copy)
                },
                Method::Move => if !self.args.allow_upload || !self.args.allow_delete {
                    (ex.with(ex.res.forbidden()), Step::Reply)
                } else if target.missing {
                    (ex.with(ex.res.not_found()), Step::Reply)
                } else {
                    (ex, Step::Move)
                },
                Method::Lock => if target.is_file {
                    (ex, Step::Lock)
                } else {
                    (ex.with(ex.res.not_found()), Step::Reply)
                },
                Method::Unlock => if target.missing {
                    (ex.with(ex.res.not_found()), Step::Reply)
                } else {
                    (ex, Step::Reply)
                },
                Method::Checkauth | Method::Logout | Method::Other => (
                    ex.with(ex.res.method_not_allowed()),
                    Step::Reply,
                ),
            }
        }
    }

    /// How what is found at the place is fetched.
    pub open spec fn fetched(self, ex: ExchangeView, target: Target) -> (ExchangeView, Step) {
        let searching = self.args.allow_search && ex.query.contains_key("q"@);
        if target.is_dir {
            if self.args.render_try_index {
                if self.args.allow_archive && is_flag(ex.query, "zip"@) {
                    (ex, Step::Archive)
                } else if searching {
                    (ex, Step::Search)
                } else {
                    (ex, Step::AskIndexFile)
                }
            } else if self.args.render_index || self.args.render_spa {
                (ex, Step::AskIndexFile)
            } else if is_flag(ex.query, "zip"@) {
                if self.args.allow_archive {
                    (ex, Step::Archive)
                } else {
                    (ex.with(ex.res.not_found()), Step::Reply)
                }
            } else if searching {
                (ex, Step::Search)
            } else {
                (ex, Step::List { exist: true })
            }
        } else if target.is_file {
            let readwrite = ex.access.perm == AccessPerm::ReadWrite;
            if is_flag(ex.query, "json"@) {
                (ex, Step::FileJson)
            } else if is_flag(ex.query, "edit"@) {
                let kind = if readwrite {
                    DataKind::Edit
                } else {
                    DataKind::View
                };
                (ex, Step::Edit { kind, readwrite })
            } else if is_flag(ex.query, "view"@) {
                (ex, Step::Edit { kind: DataKind::View, readwrite })
            } else if is_flag(ex.query, "hash"@) {
                if self.args.allow_hash {
                    (ex, Step::Hash)
                } else {
                    (ex.with(ex.res.forbidden()), Step::Reply)
                }
            } else {
                (ex, Step::SendTarget)
            }
        } else if self.args.render_spa {
            if self.place(ex.relative_path).has_extension() {
                self.missed(ex)
            } else {
                (ex, Step::SendRootIndex)
            }
        } else if self.args.allow_upload && has_last(ex.req_path, '/') {
            (ex, Step::List { exist: false })
        } else {
            self.missed(ex)
        }
    }

    /// What follows when it is known where an upload to a file of the size is to continue.
    pub open spec fn continued(self, ex: ExchangeView, offset: UploadOffset, size: u64) -> (
        ExchangeView,
        Step,
    ) {
        match offset {
            UploadOffset::Invalid => (
                ex.with(ex.res.bad_request("Invalid X-Update-Range Header"@)),
                Step::Reply,
            ),
            UploadOffset::Absent => (ex.with(ex.res.method_not_allowed()), Step::Reply),
            UploadOffset::At(start) => if start < size && !self.args.allow_delete {
                (ex.with(ex.res.forbidden()), Step::Reply)
            } else {
                (ex, Step::Upload { offset: Some(start), size })
            },
        }
    }

    /// What follows when it is known whether the directory holds an index file.
    pub open spec fn indexed(self, ex: ExchangeView, has_index: bool) -> (ExchangeView, Step) {
        if has_index {
            (ex, Step::SendIndex)
        } else if self.args.render_try_index {
            (ex, Step::List { exist: true })
        } else {
            self.missed(ex)
        }
    }

    /// What follows what the server has learnt.
    pub open spec fn handled(self, ex: ExchangeView, event: Event) -> (ExchangeView, Step) {
        match event {
            Event::Guard { user, access, noscript } => self.guarded(
                ex,
                optional_text(user),
                match access {
                    Some(a) => Some(a@),
                    None => None,
                },
                noscript,
            ),
            Event::Metadata(is_metadata) => self.visited(ex, is_metadata),
            Event::Protection(grant) => self.protected(ex, optional_grant(grant)),
            Event::Target(target) => self.targeted(ex, target),
            Event::Offset { offset, size } => self.continued(ex, offset, size),
            Event::IndexFile(has_index) => self.indexed(ex, has_index),
        }
    }
}

impl Server {
    /// Begins a request, given what decoding its path gave.
    pub fn open_request(&self, decoded: Option<&str>, is_get: bool, res: &mut Response) -> (r:
        Opening)
        ensures
            (final(res)@, r@) == self@.opened(
                old(res)@,
                self@.resolve(
                    match decoded {
                        Some(s) => Some(s@),
                        None => None,
                    },
                ),
                is_get,
            ),
    {
        let path = self.resolve_path(decoded);
        self.open_path(path, is_get, res)
    }

    /// Begins a request for a relative path, where its path leads to one.
    pub fn open_path(&self, path: Option<String>, is_get: bool, res: &mut Response) -> (r: Opening)
        ensures
            (final(res)@, r@) == self@.opened(old(res)@, optional_text(path), is_get),
    {
        let path = match path {
            Some(path) => path,
            None => {
                status_bad_request(res, "Invalid Path");
                return Opening::Refused;
            },
        };
        if is_get {
            match self.handle_internal(path.as_str(), res) {
                Internal::No => {},
                internal => {
                    return Opening::Own(internal);
                },
            }
        }
        Opening::Path(path)
    }

    /// Goes on with a request when the server has learnt something: changes the reply and says what
    /// is to be asked or done next.
    pub fn handle(&self, ex: &mut Exchange, event: Event) -> (r: Step)
        requires
            event matches Event::Protection(Some(grant)) ==> cookie_payload(grant@).len()
                <= usize::MAX / 4,
        ensures
            (final(ex)@, r) == self@.handled(old(ex)@, event),
            event matches Event::Protection(grant) ==> (grant is Some ==> is_header_text(
                self@.args.uri_prefix,
            ) && is_header_text(grant->0@.encoded)) ==> r != Step::Fail,
    {
        match event {
            Event::Guard { user, access, noscript } => self.handle_guard(ex, user, access, noscript),
            Event::Metadata(is_metadata) => {
                if is_metadata {
                    status_not_found(&mut ex.res);
                    Step::Reply
                } else {
                    Step::AskProtection
                }
            },
            Event::Protection(grant) => self.handle_protection(ex, grant),
            Event::Target(target) => self.handle_target(ex, target),
            Event::Offset { offset, size } => match offset {
                UploadOffset::Invalid => {
                    status_bad_request(&mut ex.res, "Invalid X-Update-Range Header");
                    Step::Reply
                },
                UploadOffset::Absent => {
                    ex.res.status = 405;
                    Step::Reply
                },
                UploadOffset::At(start) => if start < size && !self.args.allow_delete {
                    status_forbid(&mut ex.res);
                    Step::Reply
                } else {
                    Step::Upload { offset: Some(start), size }
                },
            },
            Event::IndexFile(has_index) => if has_index {
                Step::SendIndex
            } else if self.args.render_try_index {
                Step::List { exist: true }
            } else {
                self.handle_not_found(ex)
            },
        }
    }

    /// Answers a request that finds nothing.
    pub fn handle_not_found(&self, ex: &mut Exchange) -> (r: Step)
        ensures
            (final(ex)@, r) == self@.missed(old(ex)@),
    {
        if self.args.error_page.is_some() && !has_query_flag(&ex.query, "noscript") {
            return Step::SendErrorPage;
        }
        status_not_found(&mut ex.res);
        Step::Reply
    }

    /// Goes on when it is known who the rules of the accounts say asks.
    fn handle_guard(
        &self,
        ex: &mut Exchange,
        user: Option<String>,
        access: Option<AccessPaths>,
        noscript: bool,
    ) -> (r: Step)
        ensures
            (final(ex)@, r) == self@.guarded(
                old(ex)@,
                optional_text(user),
                match access {
                    Some(a) => Some(a@),
                    None => None,
                },
                noscript,
            ),
    {
        ex.noscript = noscript;
        let with_passwords = self.directory_auth.is_some();
        if user.is_none() && (with_passwords || access.is_none()) {
            if !with_passwords || ex.authorized || ex.method == Method::Logout {
                auth_reject(&mut ex.res);
                return Step::Reply;
            }
            return Step::AskMetadata;
        }
        match access {
            None => {
                status_forbid(&mut ex.res);
                Step::Reply
            },
            Some(access) => {
                ex.user = user;
                ex.access = access;
                self.handle_admitted(ex)
            },
        }
    }

    /// Goes on when it is known what protects the place that a visitor asks for.
    fn handle_protection(&self, ex: &mut Exchange, grant: Option<Grant>) -> (r: Step)
        requires
            grant is Some ==> cookie_payload(grant->0@).len() <= usize::MAX / 4,
        ensures
            (final(ex)@, r) == self@.protected(old(ex)@, optional_grant(grant)),
            (grant is Some ==> is_header_text(self@.args.uri_prefix) && is_header_text(
                grant->0@.encoded,
            )) ==> r != Step::Fail,
    {
        let mut by_query = false;
        let mut by_cookie = false;
        match &grant {
            Some(grant) => {
                by_query =
                match ex.query.get(DIRECTORY_PASSWORD_QUERY) {
                    Some(password) => {
                        let given = String::from_str(password);
                        password_matches(grant.password.as_str(), Some(&given))
                    },
                    None => false,
                };
            },
            None => {},
        }
        match (&grant, &self.directory_auth) {
            (Some(grant), Some(directory_auth)) => {
                let mut i: usize = 0;
                while i < ex.cookies.len() && !by_cookie
                    invariant
                        i <= ex.cookies@.len(),
                        !by_cookie ==> forall|j: int|
                            0 <= j < i ==> !cookie_opens(
                                directory_auth@.directories,
                                #[trigger] ex@.cookies[j],
                                grant@.directory,
                            ),
                        by_cookie ==> exists|j: int|
                            0 <= j < ex@.cookies.len() && cookie_opens(
                                directory_auth@.directories,
                                #[trigger] ex@.cookies[j],
                                grant@.directory,
                            ),
                    decreases ex.cookies.len() - i,
                {
                    let scope = ex.cookies[i].0.as_str();
                    assert(ex@.cookies[i as int] == (ex.cookies@[i as int].0@, ex.cookies@[i as int].1@));
                    if is_in_tree(grant.directory.as_str(), scope) {
                        match directory_auth.registered_password(scope) {
                            Some(expected) => {
                                if password_matches(expected.as_str(), Some(&ex.cookies[i].1)) {
                                    by_cookie = true;
                                }
                            },
                            None => {},
                        }
                    }
                    i = i + 1;
                }
            },
            _ => {},
        }
        let granted = by_query || by_cookie;
        assert(by_query == query_granted(ex@, optional_grant(grant)));
        assert(granted == self@.granted(ex@, optional_grant(grant)));
        if by_query && is_directory_share_readonly_method(ex.method) {
            match &grant {
                Some(grant) => {
                    if !set_directory_password_cookie(
                        self.args.uri_prefix.as_str(),
                        grant,
                        &mut ex.res,
                    ) {
                        return Step::Fail;
                    }
                },
                None => {},
            }
        }
        if ex.method == Method::Checkauth {
            if has_query_flag(&ex.query, "login") || !granted {
                auth_reject(&mut ex.res);
            } else {
                ex.res.set_text("");
                proof {
                    reveal_strlit("");
                    assert(""@ =~= Seq::<char>::empty());
                }
            }
            return Step::Reply;
        }
        if ex.method == Method::Options {
            ex.user = None;
            ex.access = AccessPaths::new(AccessPerm::ReadOnly);
            self.handle_admitted(ex)
        } else if ex.relative_path.as_str().is_empty() && (ex.method == Method::Get || ex.method
            == Method::Head) {
            ex.user = None;
            ex.access = AccessPaths::new(AccessPerm::IndexOnly);
            self.handle_admitted(ex)
        } else if granted {
            if !is_directory_share_readonly_method(ex.method) {
                status_forbid(&mut ex.res);
                return Step::Reply;
            }
            ex.user = None;
            ex.access = AccessPaths::new(AccessPerm::ReadOnly);
            self.handle_admitted(ex)
        } else {
            status_directory_password_required(&mut ex.res);
            Step::Reply
        }
    }

    /// Goes on when it is known who asks, with which access.
    fn handle_admitted(&self, ex: &mut Exchange) -> (r: Step)
        ensures
            (final(ex)@, r) == self@.admitted(old(ex)@),
    {
        if ex.noscript {
            ex.query.insert(String::from_str("noscript"), String::new());
        }
        if ex.method == Method::Checkauth {
            match &ex.user {
                Some(user) => {
                    ex.res.set_text(user.as_str());
                },
                None => {
                    if has_query_flag(&ex.query, "login") || !ex.access.perm.readwrite() {
                        auth_reject(&mut ex.res);
                    } else {
                        ex.res.set_text("");
                        proof {
                            reveal_strlit("");
                            assert(""@ =~= Seq::<char>::empty());
                        }
                    }
                },
            }
            return Step::Reply;
        } else if ex.method == Method::Logout {
            auth_reject(&mut ex.res);
            return Step::Reply;
        }
        if has_query_flag(&ex.query, "tokengen") {
            if ex.user.is_some() {
                return Step::TokenGen;
            }
            status_forbid(&mut ex.res);
            return Step::Reply;
        }
        if same(ex.relative_path.as_str(), CLIPBOARD_EVENTS_PATH) {
            if ex.method == Method::Get {
                return Step::ClipboardEvents;
            }
            ex.res.status = 405;
            return Step::Reply;
        }
        if same(ex.relative_path.as_str(), CLIPBOARD_PATH) {
            if ex.method == Method::Get || ex.method == Method::Head {
                return Step::ClipboardGet;
            }
            if ex.method != Method::Put {
                ex.res.status = 405;
                return Step::Reply;
            }
            if self.args.allow_upload && ex.access.perm.readwrite() {
                return Step::ClipboardSet;
            }
            status_forbid(&mut ex.res);
            return Step::Reply;
        }
        if self.args.path_is_file {
            if self.is_single_file_path(ex.req_path.as_str()) {
                return Step::SendServed;
            }
            return self.handle_not_found(ex);
        }
        Step::AskTarget
    }

    /// Whether a request path asks for the one file that is served.
    fn is_single_file_path(&self, req_path: &str) -> (r: bool)
        ensures
            r == self@.single_file_req_paths.contains(req_path@),
    {
        let ghost all = self@.single_file_req_paths;
        let mut i: usize = 0;
        while i < self.single_file_req_paths.len()
            invariant
                i <= self.single_file_req_paths.len(),
                all == texts(self.single_file_req_paths@),
                forall|j: int| 0 <= j < i ==> #[trigger] all[j] != req_path@,
            decreases self.single_file_req_paths.len() - i,
        {
            assert(all[i as int] == self.single_file_req_paths@[i as int]@);
            if same(self.single_file_req_paths[i].as_str(), req_path) {
                return true;
            }
            i = i + 1;
        }
        false
    }

    /// Goes on when it is known what is found at the place.
    fn handle_target(&self, ex: &mut Exchange, target: Target) -> (r: Step)
        ensures
            (final(ex)@, r) == self@.targeted(old(ex)@, target),
    {
        if target.metadata {
            status_not_found(&mut ex.res);
            return Step::Reply;
        }
        if target.outside {
            return self.handle_not_found(ex);
        }
        let allow_upload = self.args.allow_upload;
        let allow_delete = self.args.allow_delete;
        match ex.method {
            Method::Setpassword => {
                if ex.user.is_none() {
                    status_forbid(&mut ex.res);
                } else if !target.is_dir {
                    status_not_found(&mut ex.res);
                } else {
                    return Step::SetPassword;
                }
            },
            Method::Get | Method::Head => {
                return self.handle_fetch(ex, target);
            },
            Method::Options => {
                set_webdav_headers(&mut ex.res);
            },
            Method::Put => {
                if target.is_dir || !allow_upload || (!allow_delete && target.size > 0) {
                    status_forbid(&mut ex.res);
                } else {
                    return Step::Upload { offset: None, size: target.size };
                }
            },
            Method::Patch => {
                if target.missing {
                    status_not_found(&mut ex.res);
                } else if !allow_upload {
                    status_forbid(&mut ex.res);
                } else {
                    return Step::AskOffset { size: target.size };
                }
            },
            Method::Delete => {
                if !allow_delete {
                    status_forbid(&mut ex.res);
                } else if !target.missing {
                    return Step::Delete { is_dir: target.is_dir };
                } else {
                    status_not_found(&mut ex.res);
                }
            },
            Method::Propfind => {
                if target.is_dir {
                    if ex.access.perm.indexonly() && !ex.authorized {
                        ex.access = AccessPaths::new(AccessPerm::ReadOnly);
                    }
                    return Step::PropfindDir;
                } else if target.is_file {
                    return Step::PropfindFile;
                } else {
                    status_not_found(&mut ex.res);
                }
            },
            Method::Proppatch => {
                if target.is_file {
                    return Step::Proppatch;
                }
                status_not_found(&mut ex.res);
            },
            Method::Mkcol => {
                if !allow_upload {
                    status_forbid(&mut ex.res);
                } else if !target.missing {
                    ex.res.status = 405;
                    ex.res.set_text("Already exists");
                } else {
                    return Step::Mkcol;
                }
            },
            Method::Copy => {
                if !allow_upload {
                    status_forbid(&mut ex.res);
                } else if target.missing {
                    status_not_found(&mut ex.res);
                } else {
                    return Step::Copy;
                }
            },
            Method::Move => {
                if !allow_upload || !allow_delete {
                    status_forbid(&mut ex.res);
                } else if target.missing {
                    status_not_found(&mut ex.res);
                } else {
                    return Step::Move;
                }
            },
            Method::Lock => {
                if target.is_file {
                    return Step::Lock;
                }
                status_not_found(&mut ex.res);
            },
            Method::Unlock => {
                if target.missing {
                    status_not_found(&mut ex.res);
                }
            },
            Method::Checkauth | Method::Logout | Method::Other => {
                ex.res.status = 405;
            },
        }
        Step::Reply
    }

    /// Decides how what is found at the place is fetched.
    fn handle_fetch(&self, ex: &mut Exchange, target: Target) -> (r: Step)
        ensures
            (final(ex)@, r) == self@.fetched(old(ex)@, target),
    {
        if target.is_dir {
            let searching = self.args.allow_search && ex.query.contains_key("q");
            if self.args.render_try_index {
                if self.args.allow_archive && has_query_flag(&ex.query, "zip") {
                    Step::Archive
                } else if searching {
                    Step::Search
                } else {
                    Step::AskIndexFile
                }
            } else if self.args.render_index || self.args.render_spa {
                Step::AskIndexFile
            } else if has_query_flag(&ex.query, "zip") {
                if !self.args.allow_archive {
                    status_not_found(&mut ex.res);
                    return Step::Reply;
                }
                Step::Archive
            } else if searching {
                Step::Search
            } else {
                Step::List { exist: true }
            }
        } else if target.is_file {
            let readwrite = ex.access.perm.readwrite();
            if has_query_flag(&ex.query, "json") {
                Step::FileJson
            } else if has_query_flag(&ex.query, "edit") {
                let kind: DataKind = if readwrite {
                    DataKind::Edit
                } else {
                    DataKind::View
                };
                Step::Edit { kind, readwrite }
            } else if has_query_flag(&ex.query, "view") {
                Step::Edit { kind: DataKind::View, readwrite }
            } else if has_query_flag(&ex.query, "hash") {
                if self.args.allow_hash {
                    Step::Hash
                } else {
                    status_forbid(&mut ex.res);
                    Step::Reply
                }
            } else {
                Step::SendTarget
            }
        } else if self.args.render_spa {
            let place = match self.join_path(ex.relative_path.as_str()) {
                Some(place) => place,
                None => {
                    return Step::Fail;
                },
            };
            if place.has_extension() {
                self.handle_not_found(ex)
            } else {
                Step::SendRootIndex
            }
        } else if self.args.allow_upload && ends_with(ex.req_path.as_str(), '/') {
            Step::List { exist: false }
        } else {
            self.handle_not_found(ex)
        }
    }
}

} // verus!
