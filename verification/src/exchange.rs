//! A request on its way through the server, and what is asked or done at each step.
use crate::access::{AccessPaths, AccessPerm, AccessView};
use crate::items::{optional_text, DataKind};
use crate::outside::{header_values, lower_case, query_pairs, to_lowercase};
use crate::request::{
    cookie_grants, directory_password_cookies, first_text, first_value, header, header_str,
    method_named, parse_query, Method, UploadOffset,
};
use crate::response::{Response, ResponseView};
use crate::string_map::{pair_texts, pairs_map, StringMap};
use crate::text::{has_prefix, starts_with};
use hyper::header::HeaderValue;
use hyper::HeaderMap;
use vstd::prelude::*;
use vstd::string::*;
use vstd::utf8::*;

verus! {

/// A request on its way, with what is known of it and the reply so far.
#[derive(Debug)]
pub struct Exchange {
    pub method: Method,
    pub req_path: String,
    pub relative_path: String,
    /// Whether the request carries credentials.
    pub authorized: bool,
    pub user_agent: String,
    pub microsoft_webdav: bool,
    /// Whether the client is known to run no scripts.
    pub noscript: bool,
    pub query: StringMap,
    /// The directories and passwords that the cookies carry.
    pub cookies: Vec<(String, String)>,
    pub user: Option<String>,
    pub access: AccessPaths,
    pub res: Response,
}

/// What is known of a request on its way.
#[verifier::ext_equal]
pub struct ExchangeView {
    pub method: Method,
    pub req_path: Seq<char>,
    pub relative_path: Seq<char>,
    pub authorized: bool,
    pub user_agent: Seq<char>,
    pub microsoft_webdav: bool,
    pub noscript: bool,
    pub query: Map<Seq<char>, Seq<char>>,
    pub cookies: Seq<(Seq<char>, Seq<char>)>,
    pub user: Option<Seq<char>>,
    pub access: AccessView,
    pub res: ResponseView,
}

impl View for Exchange {
    type V = ExchangeView;

    open spec fn view(&self) -> ExchangeView {
        ExchangeView {
            method: self.method,
            req_path: self.req_path@,
            relative_path: self.relative_path@,
            authorized: self.authorized,
            user_agent: self.user_agent@,
            microsoft_webdav: self.microsoft_webdav,
            noscript: self.noscript,
            query: self.query@,
            cookies: pair_texts(self.cookies@),
            user: optional_text(self.user),
            access: self.access@,
            res: self.res@,
        }
    }
}

/// The name of the client, in lower case.
pub open spec fn agent_of(headers: HeaderMap<HeaderValue>) -> Seq<char> {
    match first_text(headers, "user-agent"@) {
        Some(text) => lower_case(text),
        None => Seq::empty(),
    }
}

/// Whether a client is the WebDAV redirector of Windows.
pub open spec fn is_redirector(user_agent: Seq<char>) -> bool {
    has_prefix(user_agent, "microsoft-webdav-miniredir/"@)
}

impl ExchangeView {
    /// The request of which this much is known, before anything is decided.
    pub open spec fn of(
        method: Method,
        req_path: Seq<char>,
        relative_path: Seq<char>,
        authorized: bool,
        user_agent: Seq<char>,
        query: Map<Seq<char>, Seq<char>>,
        cookies: Seq<(Seq<char>, Seq<char>)>,
    ) -> ExchangeView {
        ExchangeView {
            method,
            req_path,
            relative_path,
            authorized,
            user_agent,
            microsoft_webdav: is_redirector(user_agent),
            noscript: false,
            query,
            cookies,
            user: None,
            access: AccessView::plain(AccessPerm::IndexOnly),
            res: if is_redirector(user_agent) {
                ResponseView::fresh().header("connection"@, "close"@)
            } else {
                ResponseView::fresh()
            },
        }
    }

    /// The request before anything is known but what it says itself.
    pub open spec fn begun(
        method: Seq<char>,
        req_path: Seq<char>,
        relative_path: Seq<char>,
        query: Seq<char>,
        headers: HeaderMap<HeaderValue>,
    ) -> ExchangeView {
        ExchangeView::of(
            method_named(method),
            req_path,
            relative_path,
            first_value(headers, "authorization"@) is Some,
            agent_of(headers),
            pairs_map(query_pairs(encode_utf8(query))),
            cookie_grants(header_values(headers, "cookie"@)),
        )
    }

    /// The request with another reply.
    pub open spec fn with(self, res: ResponseView) -> ExchangeView {
        ExchangeView { res, ..self }
    }
}

impl Exchange {
    /// The request before anything is known but what it says itself.
    pub fn begin(
        method: &str,
        req_path: &str,
        relative_path: String,
        query: &str,
        headers: &HeaderMap<HeaderValue>,
    ) -> (r: Exchange)
        ensures
            r@ == ExchangeView::begun(method@, req_path@, relative_path@, query@, *headers),
    {
        let user_agent = match header_str(headers, "user-agent") {
            Some(text) => to_lowercase(text.as_str()),
            None => String::new(),
        };
        let authorized = match header(headers, "authorization") {
            Some(_) => true,
            None => false,
        };
        assert(user_agent@ =~= agent_of(*headers));
        Exchange::with_facts(
            Method::from_name(method),
            String::from_str(req_path),
            relative_path,
            authorized,
            user_agent,
            parse_query(query),
            directory_password_cookies(headers),
        )
    }

    /// The request of which this much is known, before anything is decided. `user_agent` is the name
    /// of the client in lower case.
    pub fn with_facts(
        method: Method,
        req_path: String,
        relative_path: String,
        authorized: bool,
        user_agent: String,
        query: StringMap,
        cookies: Vec<(String, String)>,
    ) -> (r: Exchange)
        ensures
            r@ == ExchangeView::of(
                method,
                req_path@,
                relative_path@,
                authorized,
                user_agent@,
                query@,
                pair_texts(cookies@),
            ),
    {
        let microsoft_webdav = starts_with(user_agent.as_str(), "microsoft-webdav-miniredir/");
        let mut res = Response::new();
        if microsoft_webdav {
            res.set_header("connection", "close");
        }
        Exchange {
            method,
            req_path,
            relative_path,
            authorized,
            user_agent,
            microsoft_webdav,
            noscript: false,
            query,
            cookies,
            user: None,
            access: AccessPaths::new(AccessPerm::IndexOnly),
            res,
        }
    }
}

/// The directory that protects a target, its password, and its path encoded for a URI.
#[derive(Debug)]
pub struct Grant {
    pub directory: String,
    pub password: String,
    pub encoded: String,
}

/// What protects a target.
pub struct GrantView {
    pub directory: Seq<char>,
    pub password: Seq<char>,
    pub encoded: Seq<char>,
}

impl View for Grant {
    type V = GrantView;

    open spec fn view(&self) -> GrantView {
        GrantView {
            directory: self.directory@,
            password: self.password@,
            encoded: self.encoded@,
        }
    }
}

/// What is found at the place that a request asks for.
#[derive(Debug, Clone, Copy, PartialEq, Eq, Structural)]
pub struct Target {
    /// Whether it is the file that stores the passwords.
    pub metadata: bool,
    /// Whether it leads outside the served directory.
    pub outside: bool,
    pub missing: bool,
    pub is_dir: bool,
    pub is_file: bool,
    pub size: u64,
}

/// What the server has learnt.
#[derive(Debug)]
pub enum Event {
    /// Who the rules of the accounts say asks, with which access, and whether the client is known to
    /// run no scripts.
    Guard { user: Option<String>, access: Option<AccessPaths>, noscript: bool },
    /// Whether the place that a visitor asks for is the file that stores the passwords.
    Metadata(bool),
    /// What protects the place that a visitor asks for.
    Protection(Option<Grant>),
    /// What is found at the place.
    Target(Target),
    /// Where an upload is to continue in a file of the size.
    Offset { offset: UploadOffset, size: u64 },
    /// Whether the directory holds an index file.
    IndexFile(bool),
}

/// What is to be asked or done next.
#[derive(Debug, Clone, Copy, PartialEq, Eq, Structural)]
pub enum Step {
    /// The reply is complete.
    Reply,
    /// The request failed.
    Fail,
    /// Find out whether the place is the file that stores the passwords.
    AskMetadata,
    /// Find out what protects the place.
    AskProtection,
    /// Find out what is at the place.
    AskTarget,
    /// Find out where the upload to a file of the size continues.
    AskOffset { size: u64 },
    /// Find out whether the directory holds an index file.
    AskIndexFile,
    /// Make a token for the user.
    TokenGen,
    ClipboardEvents,
    ClipboardGet,
    ClipboardSet,
    /// Send the one file that is served.
    SendServed,
    /// Send the file at the place.
    SendTarget,
    /// Send the index file of the directory at the place.
    SendIndex,
    /// Send the index file of the served directory.
    SendRootIndex,
    /// Send the error page, with the status that there is nothing.
    SendErrorPage,
    Archive,
    Search,
    List { exist: bool },
    FileJson,
    Edit { kind: DataKind, readwrite: bool },
    Hash,
    Upload { offset: Option<u64>, size: u64 },
    Delete { is_dir: bool },
    PropfindDir,
    PropfindFile,
    Proppatch,
    Mkcol,
    Copy,
    Move,
    Lock,
    SetPassword,
}

} // verus!
