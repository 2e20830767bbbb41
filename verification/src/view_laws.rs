//! What holds of the models of values: they hold what the values hold.
use crate::access::AccessPaths;
use crate::assets::{optional_bytes, AssetFiles};
use crate::clipboard::ClipboardState;
use crate::exchange::{Exchange, Grant};
use crate::handle::{optional_grant, Opening, OpeningView};
use crate::items::{item_views, optional_text, PathItem};
use crate::listing::{path_views, ItemOutcome, ItemOutcomeView, Search, SearchView};
use crate::pages::{Asset, Internal, InternalView};
use crate::paths::{optional_path, FsPath, PartView, PathPart};
use crate::request::{optional_ranges, UploadRange, UploadRangeView};
use crate::response::{Body, BodyView, Response, Source};
use crate::send_file::{wanted_view, FileFacts, Wanted};
use crate::server::{component_texts, optional_auth, Args, Server};
use crate::string_map::pair_texts;
use crate::text::texts;
use crate::transfer::Transfer;
use crate::webdav::optional_item;
use vstd::prelude::*;

verus! {

/// What may be missing is there in the model exactly where it is there.
pub proof fn law_missing_values(
    s: String,
    path: FsPath,
    grant: Grant,
    item: PathItem,
    bytes: Vec<u8>,
    ranges: Vec<(u64, u64)>,
)
    ensures
        optional_text(Some(s)) == Some(s@),
        optional_text(None) is None,
        optional_path(Some(path)) == Some(path@),
        optional_path(None) is None,
        optional_grant(Some(grant)) == Some(grant@),
        optional_grant(None) is None,
        optional_item(Some(item)) == Some(item@),
        optional_item(None) is None,
        optional_bytes(Some(bytes)) == Some(bytes@),
        optional_bytes(None) is None,
        optional_ranges(Some(ranges)) == Some(ranges@),
        optional_ranges(None) is None,
        optional_auth(None) is None,
{
}

/// A list in the model has the items of the list, in their order.
pub proof fn law_lists(
    names: Seq<String>,
    items: Seq<PathItem>,
    paths: Seq<FsPath>,
    pairs: Seq<(String, String)>,
    components: Seq<Option<String>>,
    i: int,
)
    ensures
        texts(names).len() == names.len(),
        0 <= i < names.len() ==> texts(names)[i] == names[i]@,
        item_views(items).len() == items.len(),
        0 <= i < items.len() ==> item_views(items)[i] == items[i]@,
        path_views(paths).len() == paths.len(),
        0 <= i < paths.len() ==> path_views(paths)[i] == paths[i]@,
        pair_texts(pairs).len() == pairs.len(),
        0 <= i < pairs.len() ==> pair_texts(pairs)[i] == (pairs[i].0@, pairs[i].1@),
        component_texts(components).len() == components.len(),
        0 <= i < components.len() ==> component_texts(components)[i] == optional_text(
            components[i],
        ),
{
}

/// A path has its components, and starts at the root where it does.
pub proof fn law_path_models(path: FsPath, i: int, s: String, bytes: Vec<u8>)
    ensures
        path@.absolute == path.absolute,
        path@.parts.len() == path.parts@.len(),
        0 <= i < path.parts@.len() ==> path@.parts[i] == path.parts@[i]@,
        PathPart::Text(s)@ == PartView::Text(s@),
        PathPart::Raw(bytes)@ == PartView::Raw(bytes@),
{
}

/// A reply has its status, headers, cookies and body.
pub proof fn law_reply_models(res: Response, i: int, s: String, bytes: Vec<u8>, source: Source)
    ensures
        res@.status == res.status,
        res@.headers == res.headers@,
        res@.cookies.len() == res.cookies@.len(),
        0 <= i < res.cookies@.len() ==> res@.cookies[i] == res.cookies@[i]@,
        res@.challenge == res.challenge,
        res@.body == res.body@,
        Body::Empty@ == BodyView::Empty,
        Body::Text(s)@ == BodyView::Text(s@),
        Body::Bytes(bytes)@ == BodyView::Bytes(bytes@),
        Body::Stream(source)@ == BodyView::Stream(source),
{
}

/// A request on its way has what was said of it.
pub proof fn law_request_models(ex: Exchange, grant: Grant, access: AccessPaths)
    ensures
        ex@.method == ex.method,
        ex@.req_path == ex.req_path@,
        ex@.relative_path == ex.relative_path@,
        ex@.authorized == ex.authorized,
        ex@.user_agent == ex.user_agent@,
        ex@.microsoft_webdav == ex.microsoft_webdav,
        ex@.noscript == ex.noscript,
        ex@.query == ex.query@,
        ex@.cookies == pair_texts(ex.cookies@),
        ex@.user == optional_text(ex.user),
        ex@.access == ex.access@,
        ex@.res == ex.res@,
        grant@.directory == grant.directory@,
        grant@.password == grant.password@,
        grant@.encoded == grant.encoded@,
        access@.perm == access.perm,
        access@.child_names == texts(access.child_names@),
        access@.from_rules == access.from_rules,
{
}

/// The server has its settings, passwords, and what it shows.
pub proof fn law_server_models(server: Server, args: Args)
    ensures
        server@.args == server.args@,
        server@.directory_auth is Some == server.directory_auth is Some,
        server.directory_auth is Some ==> server@.directory_auth->0 == server.directory_auth->0@,
        server@.assets_prefix == server.assets_prefix@,
        server@.html == server.html@,
        server@.single_file_req_paths == texts(server.single_file_req_paths@),
        args@.serve_path == args.serve_path@,
        args@.path_is_file == args.path_is_file,
        args@.path_prefix == args.path_prefix@,
        args@.uri_prefix == args.uri_prefix@,
        args@.hidden == texts(args.hidden@),
        args@.directory_auth_file == optional_path(args.directory_auth_file),
        args@.has_users == args.has_users,
        args@.allow_upload == args.allow_upload,
        args@.allow_delete == args.allow_delete,
        args@.allow_search == args.allow_search,
        args@.allow_symlink == args.allow_symlink,
        args@.allow_archive == args.allow_archive,
        args@.allow_hash == args.allow_hash,
        args@.enable_cors == args.enable_cors,
        args@.render_index == args.render_index,
        args@.render_spa == args.render_spa,
        args@.render_try_index == args.render_try_index,
        args@.assets == optional_path(args.assets),
        args@.error_page == optional_path(args.error_page),
{
}

/// An entry, a file, a transfer, the clipboard and the files of the user interface have what they hold.
pub proof fn law_item_models(
    item: PathItem,
    file: FileFacts,
    transfer: Transfer,
    clipboard: ClipboardState,
    assets: AssetFiles,
)
    ensures
        item@.path_type == item.path_type,
        item@.name == item.name@,
        item@.mtime == item.mtime,
        item@.size == item.size,
        item@.directory_password == optional_text(item.directory_password),
        file@.name == optional_text(file.name),
        file@.size == file.size,
        file@.mtime == file.mtime,
        file@.sample == file.sample@,
        transfer@.kind == transfer.kind,
        transfer@.source == transfer.source@,
        transfer@.authorized == transfer.authorized,
        transfer@.relative_path == transfer.relative_path@,
        transfer@.destination == transfer.destination@,
        transfer@.password == optional_text(transfer.password),
        transfer@.is_dir == transfer.is_dir,
        clipboard@.content == clipboard.content@,
        clipboard@.version == clipboard.version,
        clipboard@.mtime == clipboard.mtime,
        clipboard@.user == optional_text(clipboard.user),
        assets@.index_html == optional_bytes(assets.index_html),
        assets@.index_js == optional_bytes(assets.index_js),
        assets@.index_css == optional_bytes(assets.index_css),
        assets@.favicon_ico == optional_bytes(assets.favicon_ico),
{
}

/// What is decided of a request is told apart in the model.
pub proof fn law_decision_models(
    list: Vec<(u64, u64)>,
    item: PathItem,
    s: String,
    path: FsPath,
    asset: Asset,
    internal: Internal,
)
    ensures
        wanted_view(Wanted::Whole) is None,
        wanted_view(Wanted::Ranges(list)) == Some(Some(list@)),
        wanted_view(Wanted::Unsatisfiable) == Some(None::<Seq<(u64, u64)>>),
        ItemOutcome::Failed@ == ItemOutcomeView::Failed,
        ItemOutcome::Skipped@ == ItemOutcomeView::Skipped,
        ItemOutcome::Item(item)@ == ItemOutcomeView::Item(item@),
        Search::Missing@ == SearchView::Missing,
        Search::List@ == SearchView::List,
        Search::Find(s)@ == SearchView::Find(s@),
        UploadRange::Absent@ == UploadRangeView::Absent,
        UploadRange::Unreadable@ == UploadRangeView::Unreadable,
        UploadRange::Append@ == UploadRangeView::Append,
        UploadRange::Ranges(s)@ == UploadRangeView::Ranges(s@),
        Internal::No@ == InternalView::No,
        Internal::Health@ == InternalView::Health,
        Internal::File(path)@ == InternalView::File(path@),
        Internal::Embedded(asset)@ == InternalView::Embedded(asset),
        Internal::Unknown@ == InternalView::Unknown,
        Opening::Refused@ == OpeningView::Refused,
        Opening::Own(internal)@ == OpeningView::Own(internal@),
        Opening::Path(s)@ == OpeningView::Path(s@),
{
}

} // verus!
