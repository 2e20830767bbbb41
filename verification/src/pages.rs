//! Pages and short replies: listings, files shown for editing, digests, tokens and the files of the user
//! interface.
use crate::access::AccessPerm;
use crate::items::{
    is_dir_type, item_views, optional_text, DataKind, EditData, IndexData, PathItem, PathItemView,
};
use crate::outside::{
    escape_pcdata, escaped, is_header_text, is_text, looks_like_text, standard_base64,
    standard_base64_encode,
};
use crate::paths::{FsPath, FsPathView};
use crate::request::{has_query_flag, is_flag};
use crate::response::{status_not_found, Body, BodyView, Response, ResponseView, Source};
use crate::send_file::{disposition, header_name, set_content_disposition};
use crate::server::{Server, ServerView};
use crate::sorting::{arrange, arranged};
use crate::string_map::StringMap;
use crate::text::{
    after_prefix, decimal, decimal_text, replace, replaced, same, strip_prefix,
};
use vstd::prelude::*;
use vstd::string::*;
use vstd::utf8::*;

verus! {

/// The size of the largest text that can be edited.
pub const EDITABLE_TEXT_MAX_SIZE: u64 = 4194304;

/// The path at which the server says that it runs.
pub const HEALTH_CHECK_PATH: &'static str = "__dufs__/health";

/// The reply with a text of a content type, and its length; of a request for the head only, without
/// the text.
pub open spec fn with_text(
    res: ResponseView,
    content_type: Seq<char>,
    output: Seq<char>,
    head_only: bool,
) -> ResponseView {
    let full = res.header("content-type"@, content_type).header(
        "content-length"@,
        decimal_text(encode_utf8(output).len()),
    );
    if head_only {
        full
    } else {
        full.text(output)
    }
}

/// Replies with a text of a content type, and its length; to a request for the head only, without the
/// text.
fn send_text(res: &mut Response, content_type: &str, output: String, head_only: bool)
    ensures
        final(res)@ == with_text(old(res)@, content_type@, output@, head_only),
{
    res.set_header("content-type", content_type);
    res.set_header("content-length", decimal(output.as_str().as_bytes().len() as u64).as_str());
    if !head_only {
        res.body = Body::Text(output);
    }
}

/// Replies with what is known of a file, written out, or that there is nothing.
pub fn handle_file_json(output: Option<String>, head_only: bool, res: &mut Response)
    ensures
        final(res)@ == match output {
            Some(text) => with_text(old(res)@, "application/json"@, text@, head_only),
            None => old(res)@.not_found(),
        },
{
    match output {
        Some(text) => send_text(res, "application/json", text, head_only),
        None => status_not_found(res),
    }
}

/// Replies with the digest of a file.
pub fn handle_hash_file(output: String, head_only: bool, res: &mut Response)
    ensures
        final(res)@ == with_text(old(res)@, "text/html; charset=utf-8"@, output@, head_only),
{
    send_text(res, "text/html; charset=utf-8", output, head_only);
}

/// Replies with a token.
pub fn handle_tokengen(output: String, res: &mut Response)
    ensures
        final(res)@ == with_text(old(res)@, "text/plain; charset=utf-8"@, output@, false),
{
    send_text(res, "text/plain; charset=utf-8", output, false);
}

/// Begins to reply with the archive of a directory. Nothing is promised of the reply, and the result
/// is false, where the directory's name is not text or cannot stand in a header.
pub fn handle_zip_dir<E: Fn(&str) -> String>(
    name: Option<&str>,
    head_only: bool,
    encode_uri: &E,
    res: &mut Response,
) -> (r: bool)
    requires
        forall|p: &str| call_requires(encode_uri, (p,)),
    ensures
        name is None ==> !r,
        name matches Some(name) ==> exists|p: &str, e: String|
            p@ == header_name(name@ + ".zip"@) && #[trigger] call_ensures(encode_uri, (p,), e) && r
                == is_header_text(disposition(false, name@ + ".zip"@, e@)) && (r ==> final(res)@
                == archive_reply(old(res)@, disposition(false, name@ + ".zip"@, e@), head_only)),
{
    let name = match name {
        Some(name) => name,
        None => {
            return false;
        },
    };
    let mut filename = String::from_str(name);
    filename.append(".zip");
    if !set_content_disposition(res, false, filename.as_str(), encode_uri) {
        return false;
    }
    res.set_header("content-type", "application/zip");
    if !head_only {
        res.body = Body::Stream(Source::Archive);
    }
    true
}

/// The reply with the archive of a directory.
pub open spec fn archive_reply(
    res: ResponseView,
    disposition: Seq<char>,
    head_only: bool,
) -> ResponseView {
    let full = res.header("content-disposition"@, disposition).header(
        "content-type"@,
        "application/zip"@,
    );
    if head_only {
        full
    } else {
        full.body(BodyView::Stream(Source::Archive))
    }
}

/// A file of the user interface that belongs to the program.
#[derive(Debug, Clone, Copy, PartialEq, Eq, Structural)]
pub enum Asset {
    Script,
    Style,
    Icon,
}

/// What a path below the server's own prefixes asks for.
#[derive(Debug)]
pub enum Internal {
    /// Nothing of the server's own.
    No,
    /// Whether the server runs.
    Health,
    /// The file of the user interface at a place.
    File(FsPath),
    /// A file of the user interface that belongs to the program.
    Embedded(Asset),
    /// A file of the user interface that there is not.
    Unknown,
}

/// What a path below the server's own prefixes asks for.
pub enum InternalView {
    No,
    Health,
    File(FsPathView),
    Embedded(Asset),
    Unknown,
}

impl View for Internal {
    type V = InternalView;

    open spec fn view(&self) -> InternalView {
        match self {
            Internal::No => InternalView::No,
            Internal::Health => InternalView::Health,
            Internal::File(path) => InternalView::File(path@),
            Internal::Embedded(asset) => InternalView::Embedded(*asset),
            Internal::Unknown => InternalView::Unknown,
        }
    }
}

/// The reply with what lets a client keep a file of the user interface.
pub open spec fn asset_cached(res: ResponseView) -> ResponseView {
    res.header("cache-control"@, "public, max-age=31536000, immutable"@).header(
        "x-content-type-options"@,
        "nosniff"@,
    )
}

/// The content type of a file of the user interface that belongs to the program.
pub open spec fn asset_type(asset: Asset) -> Seq<char> {
    match asset {
        Asset::Script => "application/javascript; charset=UTF-8"@,
        Asset::Style => "text/css; charset=UTF-8"@,
        Asset::Icon => "image/x-icon"@,
    }
}

/// The reply to what a path below the server's own prefixes asks for.
pub open spec fn internal_reply(res: ResponseView, internal: InternalView) -> ResponseView {
    match internal {
        InternalView::No => res,
        InternalView::File(_) => res,
        InternalView::Health => res.header("content-type"@, "application/json"@).text(
            "{\"status\":\"OK\"}"@,
        ),
        InternalView::Embedded(asset) => asset_cached(
            res.body(BodyView::Stream(Source::Asset)).header("content-type"@, asset_type(asset)),
        ),
        InternalView::Unknown => asset_cached(res.not_found()),
    }
}

/// Lets the client keep the file of the user interface that is sent.
pub fn finish_asset(res: &mut Response)
    ensures
        final(res)@ == asset_cached(old(res)@),
{
    res.set_header("cache-control", "public, max-age=31536000, immutable");
    res.set_header("x-content-type-options", "nosniff");
}

/// The reply after a file of the user interface was looked for: where it is there it was sent, and the
/// client may keep it.
pub fn handle_asset_file(found: bool, res: &mut Response)
    ensures
        final(res)@ == if found {
            asset_cached(old(res)@)
        } else {
            old(res)@.not_found()
        },
{
    if found {
        finish_asset(res);
    } else {
        status_not_found(res);
    }
}

/// How a listing is written out.
#[derive(Debug, Clone, Copy, PartialEq, Eq, Structural)]
pub enum IndexFormat {
    Json,
    Noscript,
    Page,
}

/// How the query asks a listing to be written out.
pub open spec fn format_of(query: Map<Seq<char>, Seq<char>>) -> IndexFormat {
    if is_flag(query, "json"@) {
        IndexFormat::Json
    } else if is_flag(query, "noscript"@) {
        IndexFormat::Noscript
    } else {
        IndexFormat::Page
    }
}

/// How the query asks a listing to be written out.
pub fn index_format(query: &StringMap) -> (r: IndexFormat)
    ensures
        r == format_of(query@),
{
    if has_query_flag(query, "json") {
        IndexFormat::Json
    } else if has_query_flag(query, "noscript") {
        IndexFormat::Noscript
    } else {
        IndexFormat::Page
    }
}

/// A listing as plain lines: the name of each entry, with a slash behind that of a directory.
pub open spec fn simple_lines(items: Seq<PathItemView>) -> Seq<char>
    decreases items.len(),
{
    if items.len() == 0 {
        Seq::empty()
    } else {
        let name = escaped(items.last().name);
        simple_lines(items.drop_last()) + if is_dir_type(items.last().path_type) {
            name + "/\n"@
        } else {
            name + "\n"@
        }
    }
}

/// Replies with a listing as plain lines.
pub fn send_simple_index(paths: &Vec<PathItem>, res: &mut Response)
    ensures
        final(res)@ == with_text(
            old(res)@,
            "text/html; charset=utf-8"@,
            simple_lines(item_views(paths@)),
            false,
        ),
{
    let ghost views = item_views(paths@);
    let mut output = String::new();
    let mut i: usize = 0;
    assert(output@ =~= simple_lines(views.take(0)));
    while i < paths.len()
        invariant
            i <= paths.len(),
            views == item_views(paths@),
            output@ == simple_lines(views.take(i as int)),
        decreases paths.len() - i,
    {
        let ghost before = output@;
        let name = escape_pcdata(paths[i].name.as_str());
        output.append(name.as_str());
        if paths[i].is_dir() {
            output.append("/\n");
        } else {
            output.append("\n");
        }
        proof {
            let taken = views.take(i as int + 1);
            assert(taken.drop_last() =~= views.take(i as int));
            assert(taken.last() == paths@[i as int]@);
            assert(output@ =~= simple_lines(taken));
        }
        i = i + 1;
    }
    assert(views.take(i as int) =~= views);
    send_text(res, "text/html; charset=utf-8", output, false);
}

/// A page with the address of the files of the user interface and its encoded data filled in.
pub open spec fn filled_page(html: Seq<char>, prefix: Seq<char>, data: Seq<char>) -> Seq<char> {
    replaced(replaced(html, "__ASSETS_PREFIX__"@, prefix), "__INDEX_DATA__"@, data)
}

/// A page with the address of the files of the user interface and its encoded data filled in.
pub fn fill_page(html: &str, prefix: &str, data: &str) -> (r: String)
    ensures
        r@ == filled_page(html@, prefix@, data@),
{
    proof {
        reveal_strlit("__ASSETS_PREFIX__");
        reveal_strlit("__INDEX_DATA__");
    }
    let page = replace(html, "__ASSETS_PREFIX__", prefix);
    replace(page.as_str(), "__INDEX_DATA__", data)
}

/// Whether a file of a size can be edited, when it is known whether it holds text.
pub fn is_editable(size: u64, holds_text: bool) -> (r: bool)
    ensures
        r == (size <= EDITABLE_TEXT_MAX_SIZE && holds_text),
{
    size <= EDITABLE_TEXT_MAX_SIZE && holds_text
}

/// Begins to reply with a listing: arranges its entries as the query asks, and replies with plain
/// lines where it asks for them; else says how the listing is to be written out.
pub fn begin_index(paths: &mut Vec<PathItem>, query: &StringMap, res: &mut Response) -> (r: Option<
    IndexFormat,
>)
    ensures
        arranged(item_views(old(paths)@), item_views(final(paths)@), query@),
        r == if is_flag(query@, "simple"@) {
            None
        } else {
            Some(format_of(query@))
        },
        final(res)@ == if is_flag(query@, "simple"@) {
            with_text(
                old(res)@,
                "text/html; charset=utf-8"@,
                simple_lines(item_views(final(paths)@)),
                false,
            )
        } else {
            old(res)@
        },
{
    arrange(paths, query);
    if has_query_flag(query, "simple") {
        send_simple_index(paths, res);
        return None;
    }
    Some(index_format(query))
}

impl ServerView {
    /// What a path below the server's own prefixes asks for.
    pub open spec fn internal(self, req_path: Seq<char>) -> InternalView {
        match after_prefix(req_path, self.assets_prefix) {
            Some(name) => match self.args.assets {
                Some(dir) => InternalView::File(dir.join(name)),
                None => if name == "index.js"@ {
                    InternalView::Embedded(Asset::Script)
                } else if name == "index.css"@ {
                    InternalView::Embedded(Asset::Style)
                } else if name == "favicon.ico"@ {
                    InternalView::Embedded(Asset::Icon)
                } else {
                    InternalView::Unknown
                },
            },
            None => if req_path == HEALTH_CHECK_PATH@ {
                InternalView::Health
            } else {
                InternalView::No
            },
        }
    }

    /// The page of the user interface for data.
    pub open spec fn page(self, json: Seq<char>) -> Seq<char> {
        filled_page(
            self.html,
            self.args.uri_prefix + self.assets_prefix,
            standard_base64(encode_utf8(json)),
        )
    }

    /// The address of a place, where it lies below the served directory.
    pub open spec fn href(self, path: FsPathView) -> Option<Seq<char>> {
        match self.relative(path) {
            Some(relative) => Some("/"@ + relative),
            None => None,
        }
    }

    /// Whether data says what the page of a listing is to show.
    pub open spec fn is_index_data(
        self,
        data: IndexData,
        path: FsPathView,
        paths: Seq<PathItemView>,
        exist: bool,
        user: Option<Seq<char>>,
        perm: AccessPerm,
        password: Option<Seq<char>>,
    ) -> bool {
        let readwrite = perm == AccessPerm::ReadWrite;
        &&& self.href(path) == Some(data.href@)
        &&& data.kind == DataKind::Index
        &&& data.uri_prefix@ == self.args.uri_prefix
        &&& data.allow_upload == (self.args.allow_upload && readwrite)
        &&& data.allow_delete == (self.args.allow_delete && readwrite)
        &&& data.allow_search == self.args.allow_search
        &&& data.allow_archive == self.args.allow_archive
        &&& data.dir_exists == exist
        &&& data.auth == self.args.has_users
        &&& optional_text(data.user) == user
        &&& data.directory_auth == (self.directory_auth is Some)
        &&& optional_text(data.directory_password) == password
        &&& item_views(data.paths@) == paths
    }

    /// Whether data says what the page of a file is to show.
    pub open spec fn is_edit_data(
        self,
        data: EditData,
        path: FsPathView,
        kind: DataKind,
        readwrite: bool,
        user: Option<Seq<char>>,
        editable: bool,
        password: Option<Seq<char>>,
    ) -> bool {
        &&& self.href(path) == Some(data.href@)
        &&& data.kind == kind
        &&& data.uri_prefix@ == self.args.uri_prefix
        &&& data.allow_upload == (self.args.allow_upload && readwrite)
        &&& data.allow_delete == (self.args.allow_delete && readwrite)
        &&& data.auth == self.args.has_users
        &&& optional_text(data.user) == user
        &&& data.editable == editable
        &&& data.directory_auth == (self.directory_auth is Some)
        &&& optional_text(data.directory_password) == password
    }
}

impl Server {
    /// Replies to a path below the server's own prefixes, or says which file is to be sent for it.
    pub fn handle_internal(&self, req_path: &str, res: &mut Response) -> (r: Internal)
        ensures
            r@ == self@.internal(req_path@),
            final(res)@ == internal_reply(old(res)@, self@.internal(req_path@)),
    {
        match strip_prefix(req_path, self.assets_prefix.as_str()) {
            Some(name) => {
                match &self.args.assets {
                    Some(dir) => {
                        return Internal::File(dir.join(name.as_str()));
                    },
                    None => {},
                }
                let found: Option<Asset> = if same(name.as_str(), "index.js") {
                    Some(Asset::Script)
                } else if same(name.as_str(), "index.css") {
                    Some(Asset::Style)
                } else if same(name.as_str(), "favicon.ico") {
                    Some(Asset::Icon)
                } else {
                    None
                };
                match found {
                    Some(asset) => {
                        res.body = Body::Stream(Source::Asset);
                        match asset {
                            Asset::Script => {
                                res.set_header(
                                    "content-type",
                                    "application/javascript; charset=UTF-8",
                                );
                            },
                            Asset::Style => {
                                res.set_header("content-type", "text/css; charset=UTF-8");
                            },
                            Asset::Icon => {
                                res.set_header("content-type", "image/x-icon");
                            },
                        }
                        finish_asset(res);
                        Internal::Embedded(asset)
                    },
                    None => {
                        status_not_found(res);
                        finish_asset(res);
                        Internal::Unknown
                    },
                }
            },
            None => {
                if same(req_path, HEALTH_CHECK_PATH) {
                    res.set_header("content-type", "application/json");
                    res.set_text("{\"status\":\"OK\"}");
                    Internal::Health
                } else {
                    Internal::No
                }
            },
        }
    }

    /// The page of the user interface for data.
    fn render_page(&self, json: &str) -> (r: String)
        requires
            encode_utf8(json@).len() <= usize::MAX / 4,
        ensures
            r@ == self@.page(json@),
    {
        let data = standard_base64_encode(json.as_bytes());
        let mut prefix = self.args.uri_prefix.clone();
        prefix.append(self.assets_prefix.as_str());
        fill_page(self.html.as_str(), prefix.as_str(), data.as_str())
    }

    /// The address of a place, where it lies below the served directory.
    fn href(&self, path: &FsPath) -> (r: Option<String>)
        ensures
            optional_text(r) == self@.href(path@),
    {
        match self.relative_path(path) {
            Some(relative) => {
                let mut href = String::from_str("/");
                href.append(relative.as_str());
                Some(href)
            },
            None => None,
        }
    }

    /// What the page of a listing is to show; nothing for a place that does not lie below the served
    /// directory.
    pub fn index_data(
        &self,
        path: &FsPath,
        paths: Vec<PathItem>,
        exist: bool,
        user: Option<String>,
        perm: AccessPerm,
        directory_password: Option<String>,
    ) -> (r: Option<IndexData>)
        ensures
            match r {
                Some(data) => self@.is_index_data(
                    data,
                    path@,
                    item_views(paths@),
                    exist,
                    optional_text(user),
                    perm,
                    optional_text(directory_password),
                ),
                None => self@.href(path@) is None,
            },
    {
        let href = match self.href(path) {
            Some(href) => href,
            None => {
                return None;
            },
        };
        let readwrite = perm.readwrite();
        Some(
            IndexData {
                href,
                kind: DataKind::Index,
                uri_prefix: self.args.uri_prefix.clone(),
                allow_upload: self.args.allow_upload && readwrite,
                allow_delete: self.args.allow_delete && readwrite,
                allow_search: self.args.allow_search,
                allow_archive: self.args.allow_archive,
                dir_exists: exist,
                auth: self.args.has_users,
                user,
                directory_auth: self.directory_auth.is_some(),
                directory_password,
                paths,
            },
        )
    }

    /// Replies with a listing. `output` is the listing written out: the whole reply, or the data of a
    /// page.
    pub fn send_index(
        &self,
        format: IndexFormat,
        output: String,
        head_only: bool,
        res: &mut Response,
    )
        requires
            format == IndexFormat::Page ==> encode_utf8(output@).len() <= usize::MAX / 4,
        ensures
            final(res)@ == with_text(
                old(res)@.header("cache-control"@, "no-cache"@).header(
                    "x-content-type-options"@,
                    "nosniff"@,
                ),
                if format == IndexFormat::Json {
                    "application/json"@
                } else {
                    "text/html; charset=utf-8"@
                },
                if format == IndexFormat::Page {
                    self@.page(output@)
                } else {
                    output@
                },
                head_only,
            ),
    {
        res.set_header("cache-control", "no-cache");
        res.set_header("x-content-type-options", "nosniff");
        match format {
            IndexFormat::Json => send_text(res, "application/json", output, head_only),
            IndexFormat::Noscript => send_text(res, "text/html; charset=utf-8", output, head_only),
            IndexFormat::Page => {
                let page = self.render_page(output.as_str());
                send_text(res, "text/html; charset=utf-8", page, head_only)
            },
        }
    }

    /// What the page of a file is to show; nothing for a place that does not lie below the served
    /// directory. `size` is the size of the file and `sample` are its first bytes.
    pub fn edit_data(
        &self,
        path: &FsPath,
        kind: DataKind,
        readwrite: bool,
        user: Option<String>,
        size: u64,
        sample: &Vec<u8>,
        directory_password: Option<String>,
    ) -> (r: Option<EditData>)
        ensures
            match r {
                Some(data) => self@.is_edit_data(
                    data,
                    path@,
                    kind,
                    readwrite,
                    optional_text(user),
                    size <= EDITABLE_TEXT_MAX_SIZE && looks_like_text(sample@),
                    optional_text(directory_password),
                ),
                None => self@.href(path@) is None,
            },
    {
        let href = match self.href(path) {
            Some(href) => href,
            None => {
                return None;
            },
        };
        Some(
            EditData {
                href,
                kind,
                uri_prefix: self.args.uri_prefix.clone(),
                allow_upload: self.args.allow_upload && readwrite,
                allow_delete: self.args.allow_delete && readwrite,
                auth: self.args.has_users,
                user,
                editable: is_editable(size, is_text(sample.as_slice())),
                directory_auth: self.directory_auth.is_some(),
                directory_password,
            },
        )
    }

    /// Replies with the page of a file. `json` is its data, written out.
    pub fn handle_edit_file(&self, json: &str, head_only: bool, res: &mut Response)
        requires
            encode_utf8(json@).len() <= usize::MAX / 4,
        ensures
            final(res)@ == with_text(
                old(res)@.header("cache-control"@, "no-cache"@),
                "text/html; charset=utf-8"@,
                self@.page(json@),
                head_only,
            ),
    {
        res.set_header("cache-control", "no-cache");
        let page = self.render_page(json);
        send_text(res, "text/html; charset=utf-8", page, head_only);
    }
}

/// The length that a reply with a text announces is the length of the text in bytes.
pub proof fn law_text_length_is_announced(
    res: ResponseView,
    content_type: Seq<char>,
    output: Seq<char>,
)
    ensures
        with_text(res, content_type, output, false).body == BodyView::Text(output),
        with_text(res, content_type, output, false).headers["content-length"@] == decimal_text(
            encode_utf8(output).len(),
        ),
        with_text(res, content_type, output, true).headers == with_text(
            res,
            content_type,
            output,
            false,
        ).headers,
        with_text(res, content_type, output, true).body == res.body,
{
}

/// A page tells a user that only reads that nothing can be uploaded or deleted.
pub proof fn law_reader_sees_no_write_actions(
    server: ServerView,
    data: IndexData,
    path: FsPathView,
    paths: Seq<PathItemView>,
    exist: bool,
    user: Option<Seq<char>>,
    perm: AccessPerm,
    password: Option<Seq<char>>,
)
    requires
        server.is_index_data(data, path, paths, exist, user, perm, password),
        perm != AccessPerm::ReadWrite,
    ensures
        !data.allow_upload,
        !data.allow_delete,
{
}

} // verus!
