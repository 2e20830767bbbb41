use dufs::assets::AssetFiles;
use dufs::clipboard::{
    event_text, handle_clipboard_events, handle_clipboard_get, ClipboardState, Collected,
    CLIPBOARD_MAX_SIZE,
};
use dufs::directory_auth::DirectorySecrets;
use dufs::items::{PathItem, PathType};
use dufs::paths::{FsPath, PathPart};
use dufs::response::{Body, Response, Source};
use dufs::server::{Args, Server};
use dufs::transfer::{Transfer, TransferEvent, TransferKind, TransferStep};
use dufs::webdav::{
    handle_lock, handle_propfind, handle_propfind_dir, handle_propfind_file, handle_proppatch,
    handle_upload, lock_with, signed_decimal, upload_plan, Stored, UploadEnd, UploadMode,
};

fn path(text: &str) -> FsPath {
    FsPath {
        absolute: text.starts_with('/'),
        parts: text
            .split('/')
            .filter(|name| !name.is_empty())
            .map(|name| PathPart::Text(name.to_string()))
            .collect(),
    }
}

fn args() -> Args {
    Args {
        serve_path: path("/srv"),
        path_is_file: false,
        path_prefix: String::new(),
        uri_prefix: "/".to_string(),
        hidden: Vec::new(),
        directory_auth_file: None,
        has_users: true,
        allow_upload: true,
        allow_delete: true,
        allow_search: true,
        allow_symlink: false,
        allow_archive: true,
        allow_hash: true,
        enable_cors: false,
        render_index: false,
        render_spa: false,
        render_try_index: false,
        assets: None,
        error_page: None,
    }
}

fn server(args: Args, directories: &[(&str, &str)]) -> Server {
    let stored = DirectorySecrets {
        version: 1,
        directories: directories.iter().map(|(k, v)| (k.to_string(), v.to_string())).collect(),
    };
    let assets = AssetFiles {
        index_html: None,
        index_js: None,
        index_css: None,
        favicon_ico: None,
    };
    let html = "[__ASSETS_PREFIX__|__INDEX_DATA__]".to_string();
    let encode = |s: &str| s.replace(' ', "%20");
    match Server::init(args, Some(stored), &assets, html, "1.2.3", "name", &encode) {
        Ok(server) => server,
        Err(e) => panic!("{}", e.message()),
    }
}

fn protected(directories: &[(&str, &str)]) -> Server {
    let mut args = args();
    args.directory_auth_file = Some(path("/srv/.auth.json"));
    server(args, directories)
}

fn password(server: &Server, directory: &str) -> Option<String> {
    server.directory_auth.as_ref().and_then(|auth| auth.registered_password(directory))
}

fn body(res: &Response) -> &str {
    match &res.body {
        Body::Text(text) => text,
        _ => "",
    }
}

#[test]
fn uploads_are_planned() {
    assert_eq!(upload_plan(None, 5), (UploadMode::Create, 201));
    assert_eq!(upload_plan(Some(5), 5), (UploadMode::Append, 204));
    assert_eq!(upload_plan(Some(3), 5), (UploadMode::WriteAt(3), 204));
}

#[test]
fn broken_uploads_are_kept_if_large() {
    let mut res = Response::new();
    assert_eq!(handle_upload(None, 201, true, 1, &mut res), UploadEnd::Reply);
    assert_eq!(res.status, 201);
    assert_eq!(handle_upload(None, 201, false, 20971519, &mut res), UploadEnd::FailAndRemove);
    assert_eq!(handle_upload(None, 201, false, 20971520, &mut res), UploadEnd::Fail);
    assert_eq!(handle_upload(Some(1), 204, false, 1, &mut res), UploadEnd::Fail);
}

#[test]
fn deleting_forgets_passwords() {
    let mut server = protected(&[("a", "password-a"), ("a/b", "password-b"), ("c", "password-c")]);
    let mut res = Response::new();
    assert_eq!(server.handle_delete("a", true, &mut res), Stored::Changed);
    assert_eq!(res.status, 204);
    assert_eq!(password(&server, "a/b"), None);
    assert!(password(&server, "c").is_some());
    assert_eq!(server.handle_delete("c", false, &mut res), Stored::Unchanged);
    assert!(password(&server, "c").is_some());
    assert_eq!(server.handle_delete("x/../y", true, &mut res), Stored::Failed);
}

#[test]
fn new_directories_get_passwords() {
    let mut server = protected(&[]);
    let mut res = Response::new();
    assert_eq!(server.handle_mkcol("a/b", &vec![true, true], &mut res), Stored::Changed);
    assert_eq!(res.status, 201);
    let given = password(&server, "a/b").unwrap();
    assert_eq!(given.len(), 32);
    assert_eq!(res.headers.get("x-dufs-directory-password"), Some(given.as_str()));
    assert_ne!(password(&server, "a"), password(&server, "a/b"));
    let mut res = Response::new();
    assert_eq!(server.handle_mkcol("a/b", &vec![true, true], &mut res), Stored::Unchanged);
    let parent = password(&server, "a");
    assert_eq!(server.handle_mkcol("a/c", &vec![true, true], &mut res), Stored::Changed);
    assert_eq!(password(&server, "a"), parent);
    assert_eq!(password(&server, "a/b"), Some(given));
    let mut plain = server_without();
    let mut res = Response::new();
    assert_eq!(plain.handle_mkcol("a", &vec![], &mut res), Stored::Unchanged);
    assert_eq!(res.status, 201);
    assert_eq!(res.headers.get("x-dufs-directory-password"), None);
    assert_eq!(server.handle_mkcol("..", &vec![false], &mut res), Stored::Failed);
}

fn server_without() -> Server {
    server(args(), &[])
}

fn moved(source: &str, destination: &str, is_dir: bool) -> Transfer {
    Transfer {
        kind: TransferKind::Move,
        source: path(source),
        authorized: true,
        relative_path: String::new(),
        destination: path(destination),
        password: None,
        is_dir,
    }
}

#[test]
fn moves_take_passwords_along() {
    let mut server = protected(&[("a", "password-a"), ("a/b", "password-b")]);
    assert_eq!(server.move_passwords(&moved("/srv/a", "/srv/c", false)), Stored::Unchanged);
    assert_eq!(server.move_passwords(&moved("/srv/a", "/srv/c", true)), Stored::Changed);
    assert_eq!(password(&server, "c/b").as_deref(), Some("password-b"));
    assert_eq!(password(&server, "a"), None);
    assert_eq!(server.move_passwords(&moved("/srv/x", "/srv/y", true)), Stored::Unchanged);
    assert_eq!(server.move_passwords(&moved("/srv/c", "/srv", true)), Stored::Failed);
    assert_eq!(server.move_passwords(&moved("/x", "/srv/d", true)), Stored::Failed);
    let mut plain = server_without();
    assert_eq!(plain.move_passwords(&moved("/srv/a", "/srv/b", true)), Stored::Unchanged);
}

#[test]
fn accounts_change_passwords() {
    let mut server = protected(&[("d", "password-old")]);
    let set = |server: &mut Server, place: &str, body: Collected| {
        let mut res = Response::new();
        let stored = server.handle_set_directory_password(&path(place), body, &mut res);
        (stored, res)
    };
    let (stored, res) = set(&mut server, "/srv/d", Collected::Bytes(b"password-new".to_vec()));
    assert_eq!((stored, res.status), (Stored::Changed, 204));
    assert_eq!(password(&server, "d").as_deref(), Some("password-new"));
    let (stored, res) = set(&mut server, "/srv/d", Collected::Bytes(b"short".to_vec()));
    assert_eq!((stored, res.status), (Stored::Unchanged, 400));
    let (_, res) = set(&mut server, "/srv/d", Collected::Bytes(vec![b'x'; 129]));
    assert_eq!(res.status, 400);
    assert_ne!(body(&res), "Directory password is too long");
    let (_, res) = set(&mut server, "/srv/d", Collected::Bytes(vec![b'x'; 130]));
    assert_eq!(body(&res), "Directory password is too long");
    let (_, res) = set(&mut server, "/srv/d", Collected::Failed);
    assert_eq!(body(&res), "Directory password is too long");
    let (_, res) = set(&mut server, "/srv/d", Collected::Bytes(vec![0xff; 10]));
    assert_eq!(body(&res), "Directory password must be valid UTF-8");
    let (_, res) = set(&mut server, "/srv", Collected::Bytes(b"password-new".to_vec()));
    assert_eq!(res.status, 403);
    let (stored, _) = set(&mut server, "/x", Collected::Bytes(b"password-new".to_vec()));
    assert_eq!(stored, Stored::Failed);
    let (_, res) = set(&mut server_without(), "/srv/d", Collected::Failed);
    assert_eq!(res.status, 404);
    assert_eq!(password(&server, "d").as_deref(), Some("password-new"));
}

#[test]
fn pages_show_passwords() {
    let mut server = protected(&[("d", "password-d")]);
    match server.directory_password_for_path(&path("/srv/d")) {
        Ok((Some(text), false)) => assert_eq!(text, "password-d"),
        _ => panic!("no password"),
    }
    assert!(matches!(server.directory_password_for_path(&path("/srv")), Ok((None, false))));
    assert!(matches!(server.directory_password_for_path(&path("/x")), Err(())));
    assert!(matches!(server.directory_password_for_path(&path("/srv/e")), Ok((Some(_), true))));
    assert!(matches!(
        server_without().directory_password_for_path(&path("/srv/d")),
        Ok((None, false))
    ));
}

#[test]
fn parents_are_guarded() {
    let server = protected(&[]);
    assert!(matches!(server.guarded_parent(&path("/srv/a/b")), Ok(Some(p)) if p == "a"));
    assert!(matches!(server.guarded_parent(&path("/srv/a")), Ok(None)));
    assert!(matches!(server.guarded_parent(&path("/x/a")), Err(())));
    assert!(matches!(server_without().guarded_parent(&path("/srv/a/b")), Ok(None)));
    let mut server = server;
    assert_eq!(server.ensure_directory_tree("a", &vec![true]), Stored::Changed);
    assert_eq!(server.ensure_directory_tree("a", &vec![true]), Stored::Unchanged);
}

fn begin(server: &Server, kind: TransferKind, authorized: bool, dest: &str, query: Option<&str>) -> Option<Transfer> {
    let mut res = Response::new();
    let destination = Some((dest.to_string(), query.map(|q| q.to_string())));
    let decode = |path: &str| Some(path.replace("%20", " "));
    let begun =
        server.extract_dest(kind, path("/srv/f"), authorized, destination, &decode, &mut res);
    if begun.is_none() {
        assert_eq!(res.status, 400);
        assert_eq!(body(&res), "Invalid Destination");
    }
    begun
}

fn guarded(server: &Server, t: &mut Transfer, has_user: bool, has_access: bool) -> (TransferStep, u16) {
    let mut res = Response::new();
    let step = server.handle_transfer(t, TransferEvent::Guard { has_user, has_access }, &mut res);
    (step, res.status)
}

#[test]
fn destinations_are_resolved() {
    let server = server_without();
    let t = begin(&server, TransferKind::Copy, false, "/a%20b", Some("dir_password=x&dir_password=y")).unwrap();
    assert_eq!(t.relative_path, "a b");
    assert!(t.destination.same_path(&path("/srv/a b")));
    assert_eq!(t.password.as_deref(), Some("x"));
    assert!(begin(&server, TransferKind::Copy, false, "/../b", None).is_none());
    let mut res = Response::new();
    let decode = |_: &str| None;
    let dest = Some(("/a".to_string(), None));
    assert!(server
        .extract_dest(TransferKind::Move, path("/srv/f"), true, dest, &decode, &mut res)
        .is_none());
    assert_eq!(res.status, 400);
    let mut res = Response::new();
    assert!(server
        .extract_dest(TransferKind::Move, path("/srv/f"), true, None, &decode, &mut res)
        .is_none());
    assert_eq!(res.status, 400);
}

#[test]
fn destinations_need_access() {
    let server = protected(&[]);
    let mut with = begin(&server, TransferKind::Copy, true, "/b", None).unwrap();
    assert_eq!(guarded(&server, &mut with, true, true), (TransferStep::AskSource, 200));
    assert_eq!(guarded(&server, &mut with, false, true), (TransferStep::Reply, 403));
    assert_eq!(guarded(&server, &mut with, true, false), (TransferStep::Reply, 403));
    let mut without = begin(&server, TransferKind::Copy, false, "/b", None).unwrap();
    assert_eq!(guarded(&server, &mut without, false, true), (TransferStep::AskPassword, 200));
    let plain = server_without();
    assert_eq!(guarded(&plain, &mut without, false, true), (TransferStep::AskSource, 200));
    assert_eq!(guarded(&plain, &mut without, true, false), (TransferStep::Reply, 403));
}

#[test]
fn destination_passwords_are_compared() {
    let server = protected(&[]);
    let expect = |query: Option<&str>, expected: Option<&str>| {
        let mut t = begin(&server, TransferKind::Copy, false, "/b", query).unwrap();
        let mut res = Response::new();
        let event = TransferEvent::Expected(expected.map(|s| s.to_string()));
        (server.handle_transfer(&mut t, event, &mut res), res.status)
    };
    assert_eq!(
        expect(Some("dir_password=password-1"), Some("password-1")),
        (TransferStep::AskSource, 200)
    );
    assert_eq!(
        expect(Some("dir_password=password-2"), Some("password-1")),
        (TransferStep::Reply, 403)
    );
    assert_eq!(expect(None, Some("password-1")), (TransferStep::Reply, 403));
    assert_eq!(expect(Some("dir_password=x"), None), (TransferStep::Reply, 403));
}

#[test]
fn copies_and_moves_are_checked() {
    let server = server_without();
    let source = |kind: TransferKind, is_dir: bool, dest_is_metadata: bool| {
        let mut t = begin(&server, kind, true, "/b", None).unwrap();
        let mut res = Response::new();
        let event = TransferEvent::Source { is_dir, dest_is_metadata };
        (server.handle_transfer(&mut t, event, &mut res), res.status, t.is_dir)
    };
    assert_eq!(source(TransferKind::Copy, false, false), (TransferStep::Prepare, 200, false));
    assert_eq!(source(TransferKind::Copy, true, false), (TransferStep::Reply, 403, true));
    assert_eq!(source(TransferKind::Copy, false, true), (TransferStep::Reply, 400, false));
    assert_eq!(source(TransferKind::Move, true, false), (TransferStep::Prepare, 200, true));
    assert_eq!(source(TransferKind::Move, true, true), (TransferStep::Reply, 400, true));
    let mut t = moved("/x", "/srv/b", false);
    let mut res = Response::new();
    let event = TransferEvent::Source { is_dir: false, dest_is_metadata: false };
    assert_eq!(server.handle_transfer(&mut t, event, &mut res), TransferStep::Fail);
    let event = TransferEvent::Prepared { outside: false };
    assert_eq!(server.handle_transfer(&mut t, event, &mut res), TransferStep::Perform);
    let event = TransferEvent::Prepared { outside: true };
    assert_eq!(server.handle_transfer(&mut t, event, &mut res), TransferStep::Reply);
    assert_eq!(body(&res), "Invalid Destination");
    assert_eq!(
        server.handle_transfer(&mut t, TransferEvent::Finished, &mut res),
        TransferStep::Reply
    );
    assert_eq!(res.status, 204);
}

#[test]
fn locks_are_granted() {
    let mut res = Response::new();
    assert!(lock_with("T", "/f", &mut res));
    assert_eq!(res.headers.get("lock-token"), Some("<T>"));
    assert_eq!(
        body(&res),
        "<?xml version=\"1.0\" encoding=\"utf-8\"?>\n<D:prop xmlns:D=\"DAV:\"><D:lockdiscovery><D:activelock>\n<D:locktoken><D:href>T</D:href></D:locktoken>\n<D:lockroot><D:href>/f</D:href></D:lockroot>\n</D:activelock></D:lockdiscovery></D:prop>"
    );
    assert!(handle_lock("/f", true, &mut res));
    let token = res.headers.get("lock-token").unwrap().to_string();
    assert!(token.starts_with("<opaquelocktoken:"));
    assert_eq!(token.len(), "<opaquelocktoken:>".len() + 36);
    assert!(handle_lock("/f", false, &mut res));
    let token = res.headers.get("lock-token").unwrap();
    assert!(token[1..token.len() - 1].parse::<i64>().unwrap() > 1_500_000_000);
    assert!(!lock_with("a\nb", "/f", &mut res));
}

#[test]
fn signed_numbers_are_written() {
    assert_eq!(signed_decimal(0), "0");
    assert_eq!(signed_decimal(-12), "-12");
    assert_eq!(signed_decimal(i64::MIN), i64::MIN.to_string());
    assert_eq!(signed_decimal(i64::MAX), i64::MAX.to_string());
}

#[test]
fn properties_are_listed() {
    let items = vec![
        PathItem {
            path_type: PathType::Dir,
            name: "a b".to_string(),
            mtime: 784198117000,
            size: 3,
            directory_password: None,
        },
        PathItem {
            path_type: PathType::File,
            name: "d/x&y".to_string(),
            mtime: 0,
            size: 12,
            directory_password: None,
        },
    ];
    let mut res = Response::new();
    handle_propfind(&items, "/", &|s: &str| s.replace(' ', "%20"), &mut res);
    assert_eq!(res.status, 207);
    assert_eq!(
        body(&res),
        "<?xml version=\"1.0\" encoding=\"utf-8\" ?>\n<D:multistatus xmlns:D=\"DAV:\">\n<D:response>\n<D:href>/a%20b/</D:href>\n<D:propstat>\n<D:prop>\n<D:displayname>a b</D:displayname>\n<D:getlastmodified>Mon, 07 Nov 1994 08:48:37 GMT</D:getlastmodified>\n<D:resourcetype><D:collection/></D:resourcetype>\n</D:prop>\n<D:status>HTTP/1.1 200 OK</D:status>\n</D:propstat>\n</D:response><D:response>\n<D:href>/d/x&y</D:href>\n<D:propstat>\n<D:prop>\n<D:displayname>x&amp;y</D:displayname>\n<D:getcontentlength>12</D:getcontentlength>\n<D:getlastmodified>Thu, 01 Jan 1970 00:00:00 GMT</D:getlastmodified>\n<D:resourcetype></D:resourcetype>\n</D:prop>\n<D:status>HTTP/1.1 200 OK</D:status>\n</D:propstat>\n</D:response>\n</D:multistatus>"
    );
    let mut res = Response::new();
    handle_proppatch("/f", &mut res);
    assert_eq!(res.status, 207);
    assert!(body(&res).contains("<D:href>/f</D:href>"));
    assert!(body(&res).contains("HTTP/1.1 403 Forbidden"));
}

fn plain(name: &str, path_type: PathType) -> PathItem {
    PathItem { path_type, name: name.to_string(), mtime: 0, size: 1, directory_password: None }
}

#[test]
fn property_requests_look_as_deep_as_asked() {
    let find = |depth: Option<u32>, children: Option<Vec<PathItem>>| {
        let mut res = Response::new();
        let own = Some(plain("d", PathType::Dir));
        handle_propfind_dir(depth, own, children, "/", &|s: &str| s.to_string(), &mut res);
        res
    };
    let children = || Some(vec![plain("d/x", PathType::File)]);
    let res = find(None, None);
    assert_eq!(res.status, 400);
    assert_eq!(body(&res), "Invalid depth: only 0 and 1 are allowed.");
    let res = find(Some(0), None);
    assert_eq!(res.status, 207);
    assert!(body(&res).contains("<D:href>/d/</D:href>"));
    assert!(!body(&find(Some(0), children())).contains("<D:href>/d/x</D:href>"));
    assert!(body(&find(Some(1), children())).contains("<D:href>/d/x</D:href>"));
    assert_eq!(find(Some(1), None).status, 403);
    let mut res = Response::new();
    let encode = |s: &str| s.to_string();
    handle_propfind_file(Some(plain("f", PathType::File)), "/", &encode, &mut res);
    assert_eq!(res.status, 207);
    let mut res = Response::new();
    handle_propfind_file(None, "/", &encode, &mut res);
    assert_eq!(res.status, 404);
}

#[test]
fn clipboard_counts_its_versions() {
    let mut state = ClipboardState::new();
    let mut res = Response::new();
    let set = |state: &mut ClipboardState, bytes: Vec<u8>, res: &mut Response| {
        state.handle_set(Collected::Bytes(bytes), Some("u".to_string()), 77, res)
    };
    assert_eq!(set(&mut state, b"one".to_vec(), &mut res), Some(1));
    assert_eq!(res.status, 204);
    assert_eq!(set(&mut state, b"two".to_vec(), &mut res), Some(2));
    assert_eq!((state.content.as_str(), state.version, state.mtime), ("two", 2, 77));
    assert_eq!(state.user.as_deref(), Some("u"));
    assert_eq!(set(&mut state, vec![0xff], &mut res), None);
    assert_eq!(body(&res), "Invalid UTF-8 content");
    assert_eq!(set(&mut state, vec![b'x'; CLIPBOARD_MAX_SIZE + 1], &mut res), None);
    assert_eq!(body(&res), "Content too large");
    assert_eq!(state.handle_set(Collected::Failed, None, 1, &mut res), None);
    assert_eq!((state.content.as_str(), state.version), ("two", 2));
    assert_eq!(set(&mut state, vec![b'x'; CLIPBOARD_MAX_SIZE], &mut res), Some(3));
}

#[test]
fn clipboard_is_read_and_followed() {
    let mut res = Response::new();
    handle_clipboard_get("{}".to_string(), false, &mut res);
    assert_eq!(res.headers.get("content-type"), Some("application/json"));
    assert_eq!(res.headers.get("cache-control"), Some("no-cache"));
    let mut res = Response::new();
    handle_clipboard_events(&mut res);
    assert_eq!(res.headers.get("content-type"), Some("text/event-stream; charset=UTF-8"));
    assert_eq!(res.headers.get("connection"), Some("keep-alive"));
    assert!(matches!(res.body, Body::Stream(Source::Events)));
    assert_eq!(event_text("{}"), "data: {}\n\n");
}
