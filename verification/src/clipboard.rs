//! The clipboard that the clients of the server share.
use crate::items::optional_text;
use crate::outside::text_of_utf8;
use crate::pages::with_text;
use crate::response::{status_bad_request, status_no_content, Body, BodyView, Response, Source};
use crate::text::decimal;
use vstd::prelude::*;
use vstd::string::*;
use vstd::utf8::*;

verus! {

/// The size of the largest content.
pub const CLIPBOARD_MAX_SIZE: usize = 65536;

/// The clipboard: its content, how often it was set, when, and by whom.
#[derive(Debug)]
pub struct ClipboardState {
    pub content: String,
    pub version: u64,
    pub mtime: u64,
    pub user: Option<String>,
}

/// What the clipboard is.
pub struct ClipboardView {
    pub content: Seq<char>,
    pub version: u64,
    pub mtime: u64,
    pub user: Option<Seq<char>>,
}

impl View for ClipboardState {
    type V = ClipboardView;

    open spec fn view(&self) -> ClipboardView {
        ClipboardView {
            content: self.content@,
            version: self.version,
            mtime: self.mtime,
            user: optional_text(self.user),
        }
    }
}

/// What reading the body of a request gave.
#[derive(Debug)]
pub enum Collected {
    /// It could not be read, or there is too much of it.
    Failed,
    Bytes(Vec<u8>),
}

/// The text that the body of a request gives, of at most so many bytes; else why it gives none.
pub open spec fn body_text(
    body: Collected,
    limit: usize,
    too_large: Seq<char>,
    not_text: Seq<char>,
) -> Result<Seq<char>, Seq<char>> {
    match body {
        Collected::Failed => Err(too_large),
        Collected::Bytes(bytes) => if bytes@.len() > limit {
            Err(too_large)
        } else if !valid_utf8(bytes@) {
            Err(not_text)
        } else {
            Ok(decode_utf8(bytes@))
        },
    }
}

/// The text that the body of a request gives, of at most so many bytes; else why it gives none.
pub fn read_text<'a>(body: Collected, limit: usize, too_large: &'a str, not_text: &'a str) -> (r: Result<
    String,
    &'a str,
>)
    ensures
        match r {
            Ok(text) => body_text(body, limit, too_large@, not_text@) == Ok::<Seq<char>, Seq<char>>(
                text@,
            ),
            Err(reason) => body_text(body, limit, too_large@, not_text@) == Err::<
                Seq<char>,
                Seq<char>,
            >(reason@),
        },
{
    match body {
        Collected::Failed => Err(too_large),
        Collected::Bytes(bytes) => {
            if bytes.len() > limit {
                return Err(too_large);
            }
            match text_of_utf8(bytes) {
                Some(text) => Ok(text),
                None => Err(not_text),
            }
        },
    }
}

impl ClipboardState {
    /// The clipboard that was never set.
    pub fn new() -> (r: ClipboardState)
        ensures
            r@ == (ClipboardView { content: Seq::empty(), version: 0, mtime: 0, user: None }),
    {
        let r = ClipboardState { content: String::new(), version: 0, mtime: 0, user: None };
        assert(r@.content =~= Seq::<char>::empty());
        r
    }

    /// Sets the clipboard to what the body of a request holds, at the time `now` and for a user, and
    /// gives the new version; or says why not, and leaves it as it is.
    pub fn handle_set(
        &mut self,
        body: Collected,
        user: Option<String>,
        now: u64,
        res: &mut Response,
    ) -> (r: Option<u64>)
        requires
            old(self).version < u64::MAX,
        ensures
            match body_text(
                body,
                CLIPBOARD_MAX_SIZE,
                "Content too large"@,
                "Invalid UTF-8 content"@,
            ) {
                Ok(content) => {
                    &&& r == Some((old(self).version + 1) as u64)
                    &&& final(self)@ == (ClipboardView {
                        content,
                        version: (old(self).version + 1) as u64,
                        mtime: now,
                        user: optional_text(user),
                    })
                    &&& final(res)@ == old(res)@.no_content()
                },
                Err(reason) => {
                    &&& r is None
                    &&& final(self)@ == old(self)@
                    &&& final(res)@ == old(res)@.bad_request(reason)
                },
            },
    {
        match read_text(body, CLIPBOARD_MAX_SIZE, "Content too large", "Invalid UTF-8 content") {
            Ok(content) => {
                self.content = content;
                self.version = self.version + 1;
                self.mtime = now;
                self.user = user;
                status_no_content(res);
                Some(self.version)
            },
            Err(reason) => {
                status_bad_request(res, reason);
                None
            },
        }
    }
}

/// Replies with the clipboard, written out.
pub fn handle_clipboard_get(output: String, head_only: bool, res: &mut Response)
    ensures
        final(res)@ == with_text(
            old(res)@.header("cache-control"@, "no-cache"@),
            "application/json"@,
            output@,
            head_only,
        ),
{
    res.set_header("cache-control", "no-cache");
    res.set_header("content-type", "application/json");
    res.set_header("content-length", decimal(output.as_str().as_bytes().len() as u64).as_str());
    if !head_only {
        res.body = Body::Text(output);
    }
}

/// Begins to reply with the changes of the clipboard.
pub fn handle_clipboard_events(res: &mut Response)
    ensures
        final(res)@ == old(res)@.header("content-type"@, "text/event-stream; charset=UTF-8"@).header(
            "cache-control"@,
            "no-cache"@,
        ).header("connection"@, "keep-alive"@).body(BodyView::Stream(Source::Events)),
{
    res.set_header("content-type", "text/event-stream; charset=UTF-8");
    res.set_header("cache-control", "no-cache");
    res.set_header("connection", "keep-alive");
    res.body = Body::Stream(Source::Events);
}

/// One change of the clipboard, written out, as an event.
pub fn event_text(data: &str) -> (r: String)
    ensures
        r@ == "data: "@ + data@ + "\n\n"@,
{
    let mut out = String::from_str("data: ");
    out.append(data);
    out.append("\n\n");
    out
}

} // verus!
