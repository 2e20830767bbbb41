//! Replies: a status, headers and a body, and the replies that the server gives in many places.
use crate::string_map::StringMap;
use crate::text::texts;
use vstd::prelude::*;
use vstd::string::*;

verus! {

/// A body that is sent from elsewhere than memory.
#[derive(Debug, Clone, Copy, PartialEq, Eq, Structural)]
pub enum Source {
    /// The whole file.
    File,
    /// A part of the file.
    FileRange { start: u64, len: u64 },
    /// An archive of a directory, written while it is sent.
    Archive,
    /// The changes of the clipboard, as they happen.
    Events,
    /// A style sheet, script or icon that belongs to the program.
    Asset,
}

/// The body of a reply.
#[derive(Debug)]
pub enum Body {
    Empty,
    Text(String),
    Bytes(Vec<u8>),
    Stream(Source),
}

/// What a body is.
pub enum BodyView {
    Empty,
    Text(Seq<char>),
    Bytes(Seq<u8>),
    Stream(Source),
}

impl View for Body {
    type V = BodyView;

    open spec fn view(&self) -> BodyView {
        match self {
            Body::Empty => BodyView::Empty,
            Body::Text(s) => BodyView::Text(s@),
            Body::Bytes(b) => BodyView::Bytes(b@),
            Body::Stream(s) => BodyView::Stream(*s),
        }
    }
}

/// A reply. Header names are in lower case. `challenge` says that the reply also carries the
/// challenge of the accounts, which asks for credentials.
#[derive(Debug)]
pub struct Response {
    pub status: u16,
    pub headers: StringMap,
    pub cookies: Vec<String>,
    pub challenge: bool,
    pub body: Body,
}

/// What a reply is.
pub struct ResponseView {
    pub status: u16,
    pub headers: Map<Seq<char>, Seq<char>>,
    pub cookies: Seq<Seq<char>>,
    pub challenge: bool,
    pub body: BodyView,
}

impl View for Response {
    type V = ResponseView;

    open spec fn view(&self) -> ResponseView {
        ResponseView {
            status: self.status,
            headers: self.headers@,
            cookies: texts(self.cookies@),
            challenge: self.challenge,
            body: self.body@,
        }
    }
}

impl ResponseView {
    /// The reply that nothing has been said in yet.
    pub open spec fn fresh() -> ResponseView {
        ResponseView {
            status: 200,
            headers: Map::empty(),
            cookies: Seq::empty(),
            challenge: false,
            body: BodyView::Empty,
        }
    }

    /// The reply with a header set.
    pub open spec fn header(self, name: Seq<char>, value: Seq<char>) -> ResponseView {
        ResponseView { headers: self.headers.insert(name, value), ..self }
    }

    /// The reply with another status.
    pub open spec fn status(self, status: u16) -> ResponseView {
        ResponseView { status, ..self }
    }

    /// The reply with a text as its body.
    pub open spec fn text(self, body: Seq<char>) -> ResponseView {
        ResponseView { body: BodyView::Text(body), ..self }
    }

    /// The reply with another body.
    pub open spec fn body(self, body: BodyView) -> ResponseView {
        ResponseView { body, ..self }
    }

    /// The reply that refuses.
    pub open spec fn forbidden(self) -> ResponseView {
        self.status(403).text("Forbidden"@)
    }

    /// The reply that asks for the password of a directory.
    pub open spec fn password_required(self) -> ResponseView {
        self.status(401).header("x-dufs-directory-password"@, "required"@).text(
            "Directory password required"@,
        )
    }

    /// The reply that there is nothing.
    pub open spec fn not_found(self) -> ResponseView {
        self.status(404).text("Not Found"@)
    }

    /// The reply that all is done.
    pub open spec fn no_content(self) -> ResponseView {
        self.status(204)
    }

    /// The reply that the request is wrong; the body says why, where there is a reason.
    pub open spec fn bad_request(self, reason: Seq<char>) -> ResponseView {
        if reason.len() > 0 {
            self.status(400).text(reason)
        } else {
            self.status(400)
        }
    }

    /// The reply that the method is not allowed.
    pub open spec fn method_not_allowed(self) -> ResponseView {
        self.status(405)
    }

    /// The reply with the headers that tell WebDAV clients what the server can do.
    pub open spec fn webdav_headers(self) -> ResponseView {
        self.header(
            "allow"@,
            "GET,HEAD,PUT,OPTIONS,DELETE,PATCH,PROPFIND,COPY,MOVE,CHECKAUTH,LOGOUT"@,
        ).header("dav"@, "1, 2, 3"@)
    }

    /// The reply that asks for credentials.
    pub open spec fn rejected(self) -> ResponseView {
        ResponseView { challenge: true, ..self.webdav_headers() }.status(401)
    }

    /// The reply with the headers that open it to pages from elsewhere.
    pub open spec fn cors(self) -> ResponseView {
        self.header("access-control-allow-origin"@, "*"@).header(
            "access-control-allow-credentials"@,
            "true"@,
        ).header("access-control-allow-methods"@, "*"@).header(
            "access-control-allow-headers"@,
            "Authorization,*"@,
        ).header("access-control-expose-headers"@, "Authorization,*"@)
    }

    /// The reply with several WebDAV responses.
    pub open spec fn multistatus(self, content: Seq<char>) -> ResponseView {
        self.status(207).header("content-type"@, "application/xml; charset=utf-8"@).text(
            "<?xml version=\"1.0\" encoding=\"utf-8\" ?>\n<D:multistatus xmlns:D=\"DAV:\">\n"@ + content
                + "\n</D:multistatus>"@,
        )
    }
}

impl Response {
    /// The reply that nothing has been said in yet.
    pub fn new() -> (r: Response)
        ensures
            r@ == ResponseView::fresh(),
    {
        let r = Response {
            status: 200,
            headers: StringMap::new(),
            cookies: Vec::new(),
            challenge: false,
            body: Body::Empty,
        };
        assert(r@.cookies =~= Seq::<Seq<char>>::empty());
        r
    }

    /// Sets a header.
    pub fn set_header(&mut self, name: &str, value: &str)
        ensures
            final(self)@ == old(self)@.header(name@, value@),
    {
        self.headers.insert(String::from_str(name), String::from_str(value));
    }

    /// Makes a text the body.
    pub fn set_text(&mut self, text: &str)
        ensures
            final(self)@ == old(self)@.text(text@),
    {
        self.body = Body::Text(String::from_str(text));
    }

    /// Adds a cookie.
    pub fn add_cookie(&mut self, cookie: String)
        ensures
            final(self)@ == (ResponseView {
                cookies: old(self)@.cookies.push(cookie@),
                ..old(self)@
            }),
    {
        let ghost before = texts(self.cookies@);
        self.cookies.push(cookie);
        assert(texts(self.cookies@) =~= before.push(cookie@));
    }
}

/// Refuses.
pub fn status_forbid(res: &mut Response)
    ensures
        final(res)@ == old(res)@.forbidden(),
{
    res.status = 403;
    res.set_text("Forbidden");
}

/// Asks for the password of a directory.
pub fn status_directory_password_required(res: &mut Response)
    ensures
        final(res)@ == old(res)@.password_required(),
{
    res.status = 401;
    res.set_header("x-dufs-directory-password", "required");
    res.set_text("Directory password required");
}

/// Says of the page for what was not found, once it is set up, that nothing was found.
pub fn finish_error_page(res: &mut Response)
    ensures
        final(res)@ == old(res)@.status(404),
{
    res.status = 404;
}

/// Says that there is nothing.
pub fn status_not_found(res: &mut Response)
    ensures
        final(res)@ == old(res)@.not_found(),
{
    res.status = 404;
    res.set_text("Not Found");
}

/// Says that all is done.
pub fn status_no_content(res: &mut Response)
    ensures
        final(res)@ == old(res)@.no_content(),
{
    res.status = 204;
}

/// Says that the request is wrong, and why, where there is a reason.
pub fn status_bad_request(res: &mut Response, body: &str)
    ensures
        final(res)@ == old(res)@.bad_request(body@),
{
    res.status = 400;
    if !body.is_empty() {
        res.set_text(body);
    }
}

/// Tells WebDAV clients what the server can do.
pub fn set_webdav_headers(res: &mut Response)
    ensures
        final(res)@ == old(res)@.webdav_headers(),
{
    res.set_header(
        "allow",
        "GET,HEAD,PUT,OPTIONS,DELETE,PATCH,PROPFIND,COPY,MOVE,CHECKAUTH,LOGOUT",
    );
    res.set_header("dav", "1, 2, 3");
}

/// Asks for credentials.
pub fn auth_reject(res: &mut Response)
    ensures
        final(res)@ == old(res)@.rejected(),
{
    set_webdav_headers(res);
    res.challenge = true;
    res.status = 401;
}

/// Opens the reply to pages from elsewhere.
pub fn add_cors(res: &mut Response)
    ensures
        final(res)@ == old(res)@.cors(),
{
    res.set_header("access-control-allow-origin", "*");
    res.set_header("access-control-allow-credentials", "true");
    res.set_header("access-control-allow-methods", "*");
    res.set_header("access-control-allow-headers", "Authorization,*");
    res.set_header("access-control-expose-headers", "Authorization,*");
}

/// Replies with several WebDAV responses.
pub fn res_multistatus(res: &mut Response, content: &str)
    ensures
        final(res)@ == old(res)@.multistatus(content@),
{
    res.status = 207;
    res.set_header("content-type", "application/xml; charset=utf-8");
    let mut body = String::from_str(
        "<?xml version=\"1.0\" encoding=\"utf-8\" ?>\n<D:multistatus xmlns:D=\"DAV:\">\n",
    );
    body.append(content);
    body.append("\n</D:multistatus>");
    res.body = Body::Text(body);
}

} // verus!
