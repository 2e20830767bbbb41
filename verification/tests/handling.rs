use dufs::access::{AccessPaths, AccessPerm};
use dufs::assets::AssetFiles;
use dufs::directory_auth::DirectorySecrets;
use dufs::exchange::{Event, Exchange, Grant, Step, Target};
use dufs::items::DataKind;
use dufs::paths::{FsPath, PathPart};
use dufs::request::UploadOffset;
use dufs::response::Body;
use dufs::server::{Args, Server};
use hyper::header::HeaderValue;
use hyper::HeaderMap;

fn path(text: &str) -> FsPath {
    FsPath {
        absolute: text.starts_with('/'),
        parts: text
            .split('/')
            .filter(|name| !name.is_empty())
            .map(|name| PathPart::Text(name.to_string()))
            .collect(),
    }
}

fn args() -> Args {
    Args {
        serve_path: path("/srv"),
        path_is_file: false,
        path_prefix: String::new(),
        uri_prefix: "/".to_string(),
        hidden: Vec::new(),
        directory_auth_file: None,
        has_users: true,
        allow_upload: true,
        allow_delete: true,
        allow_search: true,
        allow_symlink: false,
        allow_archive: true,
        allow_hash: true,
        enable_cors: false,
        render_index: false,
        render_spa: false,
        render_try_index: false,
        assets: None,
        error_page: None,
    }
}

fn server(args: Args, directories: &[(&str, &str)]) -> Server {
    let stored = DirectorySecrets {
        version: 1,
        directories: directories.iter().map(|(k, v)| (k.to_string(), v.to_string())).collect(),
    };
    let assets = AssetFiles {
        index_html: None,
        index_js: None,
        index_css: None,
        favicon_ico: None,
    };
    let html = "[__ASSETS_PREFIX__|__INDEX_DATA__]".to_string();
    let encode = |s: &str| s.replace(' ', "%20");
    match Server::init(args, Some(stored), &assets, html, "1.2.3", "name", &encode) {
        Ok(server) => server,
        Err(e) => panic!("{}", e.message()),
    }
}

fn protected() -> Server {
    let mut args = args();
    args.directory_auth_file = Some(path("/srv/.auth.json"));
    server(args, &[("dir1", "password-1"), ("dir2", "password-2")])
}

fn exchange(method: &str, relative: &str, query: &str, headers: &[(&'static str, &str)]) -> Exchange {
    let mut map = HeaderMap::new();
    for (name, value) in headers {
        map.append(*name, HeaderValue::from_str(value).unwrap());
    }
    let req_path = format!("/{relative}");
    Exchange::begin(method, &req_path, relative.to_string(), query, &map)
}

fn guard(user: Option<&str>, perm: Option<AccessPerm>) -> Event {
    Event::Guard {
        user: user.map(|u| u.to_string()),
        access: perm.map(AccessPaths::new),
        noscript: false,
    }
}

fn grant(directory: &str, password: &str) -> Option<Grant> {
    Some(Grant {
        directory: directory.to_string(),
        password: password.to_string(),
        encoded: directory.to_string(),
    })
}

fn target() -> Target {
    Target {
        metadata: false,
        outside: false,
        missing: false,
        is_dir: false,
        is_file: true,
        size: 3,
    }
}

fn dir_target() -> Target {
    Target { is_dir: true, is_file: false, size: 0, ..target() }
}

fn missing_target() -> Target {
    Target { missing: true, is_file: false, size: 0, ..target() }
}

fn enter(server: &Server, ex: &mut Exchange, perm: AccessPerm) -> Step {
    server.handle(ex, guard(Some("admin"), Some(perm)))
}

fn text(ex: &Exchange) -> &str {
    match &ex.res.body {
        Body::Text(text) => text,
        _ => "",
    }
}

/// Runs a visitor's request to the point where what protects the place is known.
fn visit(server: &Server, ex: &mut Exchange, grant: Option<Grant>) -> Step {
    assert_eq!(server.handle(ex, guard(None, None)), Step::AskMetadata);
    assert_eq!(server.handle(ex, Event::Metadata(false)), Step::AskProtection);
    server.handle(ex, Event::Protection(grant))
}

#[test]
fn missing_directory_password_is_asked_for() {
    let server = protected();
    let mut ex = exchange("GET", "dir1/index.html", "", &[]);
    assert_eq!(visit(&server, &mut ex, grant("dir1", "password-1")), Step::Reply);
    assert_eq!(ex.res.status, 401);
    assert_eq!(ex.res.headers.get("x-dufs-directory-password"), Some("required"));
    assert_eq!(text(&ex), "Directory password required");
}

#[test]
fn password_of_another_directory_does_not_open() {
    let server = protected();
    let mut ex = exchange("GET", "dir1/index.html", "dir_password=password-2", &[]);
    assert_eq!(visit(&server, &mut ex, grant("dir1", "password-1")), Step::Reply);
    assert_eq!(ex.res.status, 401);
    assert!(ex.res.cookies.is_empty());
}

#[test]
fn right_password_opens_to_read_and_gives_a_cookie() {
    let server = protected();
    let mut ex = exchange("GET", "dir1/index.html", "dir_password=password-1", &[]);
    assert_eq!(visit(&server, &mut ex, grant("dir1", "password-1")), Step::AskTarget);
    assert_eq!(ex.access.perm, AccessPerm::ReadOnly);
    assert_eq!(ex.user, None);
    assert_eq!(
        ex.res.cookies,
        vec!["dufs_dir_password=ZGlyMQBwYXNzd29yZC0x; Path=/dir1/; HttpOnly; SameSite=Lax"]
    );
    assert_eq!(server.handle(&mut ex, Event::Target(target())), Step::SendTarget);
}

#[test]
fn cookie_opens_what_is_below_its_directory() {
    let server = protected();
    let cookie = [("cookie", "x=1; dufs_dir_password=ZGlyMQBwYXNzd29yZC0x; y=2")];
    let mut ex = exchange("GET", "dir1/assets/site.css", "", &cookie);
    assert_eq!(visit(&server, &mut ex, grant("dir1/assets", "something-else")), Step::AskTarget);
    assert!(ex.res.cookies.is_empty());
    let mut ex = exchange("GET", "dir2/test.txt", "", &cookie);
    assert_eq!(visit(&server, &mut ex, grant("dir2", "password-2")), Step::Reply);
    assert_eq!(ex.res.status, 401);
}

#[test]
fn outdated_cookie_does_not_open() {
    let mut args = args();
    args.directory_auth_file = Some(path("/srv/.auth.json"));
    let server = server(args, &[("dir1", "password-9")]);
    let cookie = [("cookie", "dufs_dir_password=ZGlyMQBwYXNzd29yZC0x")];
    let mut ex = exchange("GET", "dir1/a", "", &cookie);
    assert_eq!(visit(&server, &mut ex, grant("dir1", "password-9")), Step::Reply);
    assert_eq!(ex.res.status, 401);
}

#[test]
fn directory_password_does_not_allow_writing() {
    let server = protected();
    for method in [
        "PUT", "PATCH", "DELETE", "MKCOL", "COPY", "MOVE", "PROPPATCH", "LOCK", "UNLOCK",
        "SETPASSWORD",
    ] {
        let mut ex = exchange(method, "dir1/index.html", "dir_password=password-1", &[]);
        assert_eq!(visit(&server, &mut ex, grant("dir1", "password-1")), Step::Reply, "{method}");
        assert_eq!(ex.res.status, 403, "{method}");
        assert_eq!(text(&ex), "Forbidden");
    }
    let mut ex = exchange("GET", "dir1/index.html", "tokengen&dir_password=password-1", &[]);
    assert_eq!(visit(&server, &mut ex, grant("dir1", "password-1")), Step::Reply);
    assert_eq!(ex.res.status, 403);
    let mut ex = exchange("PROPFIND", "dir1", "dir_password=password-1", &[]);
    assert_eq!(visit(&server, &mut ex, grant("dir1", "password-1")), Step::AskTarget);
    assert_eq!(server.handle(&mut ex, Event::Target(dir_target())), Step::PropfindDir);
}

#[test]
fn visitors_see_only_the_root() {
    let server = protected();
    let mut ex = exchange("GET", "", "", &[]);
    assert_eq!(visit(&server, &mut ex, None), Step::AskTarget);
    assert_eq!(ex.access.perm, AccessPerm::IndexOnly);
    assert!(ex.access.child_names.is_empty());
    let mut ex = exchange("PUT", "", "", &[]);
    assert_eq!(visit(&server, &mut ex, None), Step::Reply);
    assert_eq!(ex.res.status, 401);
}

#[test]
fn password_file_is_not_found() {
    let server = protected();
    let mut ex = exchange("GET", ".auth.json", "", &[]);
    assert_eq!(server.handle(&mut ex, guard(None, None)), Step::AskMetadata);
    assert_eq!(server.handle(&mut ex, Event::Metadata(true)), Step::Reply);
    assert_eq!(ex.res.status, 404);
    let mut ex = exchange("GET", ".auth.json", "", &[("authorization", "x")]);
    assert_eq!(enter(&server, &mut ex, AccessPerm::ReadWrite), Step::AskTarget);
    let hidden = Target { metadata: true, ..target() };
    assert_eq!(server.handle(&mut ex, Event::Target(hidden)), Step::Reply);
    assert_eq!(ex.res.status, 404);
}

#[test]
fn wrong_credentials_are_rejected() {
    let server = protected();
    let mut ex = exchange("GET", "dir1", "dir_password=password-1", &[("authorization", "x")]);
    assert_eq!(server.handle(&mut ex, guard(None, None)), Step::Reply);
    assert_eq!(ex.res.status, 401);
    assert!(ex.res.challenge);
    assert_eq!(ex.res.headers.get("dav"), Some("1, 2, 3"));
}

#[test]
fn accounts_without_access_are_refused() {
    let server = server(args(), &[]);
    let mut ex = exchange("GET", "a", "", &[]);
    assert_eq!(server.handle(&mut ex, guard(Some("u"), None)), Step::Reply);
    assert_eq!(ex.res.status, 403);
    let mut ex = exchange("GET", "a", "", &[]);
    assert_eq!(server.handle(&mut ex, guard(None, None)), Step::Reply);
    assert_eq!(ex.res.status, 401);
    let mut ex = exchange("GET", "a", "", &[]);
    assert_eq!(server.handle(&mut ex, guard(None, Some(AccessPerm::ReadOnly))), Step::AskTarget);
}

#[test]
fn visitors_can_check_their_password() {
    let server = protected();
    let mut ex = exchange("CHECKAUTH", "dir1", "dir_password=password-1", &[]);
    assert_eq!(visit(&server, &mut ex, grant("dir1", "password-1")), Step::Reply);
    assert_eq!(ex.res.status, 200);
    let mut ex = exchange("CHECKAUTH", "dir1", "login&dir_password=password-1", &[]);
    assert_eq!(visit(&server, &mut ex, grant("dir1", "password-1")), Step::Reply);
    assert_eq!(ex.res.status, 401);
    let mut ex = exchange("LOGOUT", "dir1", "", &[]);
    assert_eq!(server.handle(&mut ex, guard(None, None)), Step::Reply);
    assert_eq!(ex.res.status, 401);
}

#[test]
fn accounts_can_check_and_leave() {
    let server = server(args(), &[]);
    let mut ex = exchange("CHECKAUTH", "", "", &[]);
    assert_eq!(enter(&server, &mut ex, AccessPerm::ReadOnly), Step::Reply);
    assert_eq!(text(&ex), "admin");
    let mut ex = exchange("LOGOUT", "", "", &[]);
    assert_eq!(enter(&server, &mut ex, AccessPerm::ReadOnly), Step::Reply);
    assert_eq!(ex.res.status, 401);
    let mut ex = exchange("CHECKAUTH", "", "", &[]);
    assert_eq!(server.handle(&mut ex, guard(None, Some(AccessPerm::ReadOnly))), Step::Reply);
    assert_eq!(ex.res.status, 401);
    let mut ex = exchange("CHECKAUTH", "", "", &[]);
    assert_eq!(server.handle(&mut ex, guard(None, Some(AccessPerm::ReadWrite))), Step::Reply);
    assert_eq!(ex.res.status, 200);
}

#[test]
fn tokens_are_for_users() {
    let server = server(args(), &[]);
    let mut ex = exchange("GET", "a", "tokengen", &[]);
    assert_eq!(enter(&server, &mut ex, AccessPerm::ReadOnly), Step::TokenGen);
    let mut ex = exchange("GET", "a", "tokengen", &[]);
    assert_eq!(server.handle(&mut ex, guard(None, Some(AccessPerm::ReadWrite))), Step::Reply);
    assert_eq!(ex.res.status, 403);
}

#[test]
fn clipboard_paths_are_the_servers_own() {
    let server = server(args(), &[]);
    let clip = "__dufs__/clipboard";
    let mut ex = exchange("GET", clip, "", &[]);
    assert_eq!(enter(&server, &mut ex, AccessPerm::ReadOnly), Step::ClipboardGet);
    let mut ex = exchange("PUT", clip, "", &[]);
    assert_eq!(enter(&server, &mut ex, AccessPerm::ReadWrite), Step::ClipboardSet);
    let mut ex = exchange("PUT", clip, "", &[]);
    assert_eq!(enter(&server, &mut ex, AccessPerm::ReadOnly), Step::Reply);
    assert_eq!(ex.res.status, 403);
    let mut ex = exchange("DELETE", clip, "", &[]);
    assert_eq!(enter(&server, &mut ex, AccessPerm::ReadWrite), Step::Reply);
    assert_eq!(ex.res.status, 405);
    let mut ex = exchange("GET", "__dufs__/clipboard/events", "", &[]);
    assert_eq!(enter(&server, &mut ex, AccessPerm::ReadOnly), Step::ClipboardEvents);
    let mut ex = exchange("PUT", "__dufs__/clipboard/events", "", &[]);
    assert_eq!(enter(&server, &mut ex, AccessPerm::ReadWrite), Step::Reply);
    assert_eq!(ex.res.status, 405);
}

fn at_target(server: &Server, ex: &mut Exchange, perm: AccessPerm, target: Target) -> Step {
    assert_eq!(enter(server, ex, perm), Step::AskTarget);
    server.handle(ex, Event::Target(target))
}

#[test]
fn directories_are_fetched_as_asked() {
    let server = server(args(), &[]);
    let rw = AccessPerm::ReadWrite;
    let fetch = |query: &str| {
        let mut ex = exchange("GET", "d", query, &[]);
        at_target(&server, &mut ex, rw, dir_target())
    };
    assert_eq!(fetch(""), Step::List { exist: true });
    assert_eq!(fetch("zip"), Step::Archive);
    assert_eq!(fetch("zip=1"), Step::List { exist: true });
    assert_eq!(fetch("q=a"), Step::Search);
    assert_eq!(fetch("q"), Step::Search);
}

#[test]
fn rendering_directories_looks_for_an_index() {
    let mut with_index = args();
    with_index.render_index = true;
    let server_index = server(with_index, &[]);
    let mut ex = exchange("GET", "d", "zip", &[]);
    assert_eq!(
        at_target(&server_index, &mut ex, AccessPerm::ReadOnly, dir_target()),
        Step::AskIndexFile
    );
    assert_eq!(server_index.handle(&mut ex, Event::IndexFile(true)), Step::SendIndex);
    assert_eq!(server_index.handle(&mut ex, Event::IndexFile(false)), Step::Reply);
    assert_eq!(ex.res.status, 404);
    let mut try_index = args();
    try_index.render_try_index = true;
    let server_try = server(try_index, &[]);
    let mut ex = exchange("GET", "d", "zip", &[]);
    assert_eq!(
        at_target(&server_try, &mut ex, AccessPerm::ReadOnly, dir_target()),
        Step::Archive
    );
    let mut ex = exchange("GET", "d", "", &[]);
    assert_eq!(
        at_target(&server_try, &mut ex, AccessPerm::ReadOnly, dir_target()),
        Step::AskIndexFile
    );
    assert_eq!(
        server_try.handle(&mut ex, Event::IndexFile(false)),
        Step::List { exist: true }
    );
}

#[test]
fn archives_can_be_switched_off() {
    let mut args = args();
    args.allow_archive = false;
    let server = server(args, &[]);
    let mut ex = exchange("GET", "d", "zip", &[]);
    assert_eq!(at_target(&server, &mut ex, AccessPerm::ReadOnly, dir_target()), Step::Reply);
    assert_eq!(ex.res.status, 404);
}

#[test]
fn files_are_fetched_as_asked() {
    let server = server(args(), &[]);
    let fetch = |query: &str, perm: AccessPerm| {
        let mut ex = exchange("GET", "f.txt", query, &[]);
        at_target(&server, &mut ex, perm, target())
    };
    let rw = AccessPerm::ReadWrite;
    assert_eq!(fetch("", rw), Step::SendTarget);
    assert_eq!(fetch("json", rw), Step::FileJson);
    assert_eq!(fetch("edit", rw), Step::Edit { kind: DataKind::Edit, readwrite: true });
    assert_eq!(
        fetch("edit", AccessPerm::ReadOnly),
        Step::Edit { kind: DataKind::View, readwrite: false }
    );
    assert_eq!(fetch("view", rw), Step::Edit { kind: DataKind::View, readwrite: true });
    assert_eq!(fetch("hash", rw), Step::Hash);
}

#[test]
fn digests_can_be_switched_off() {
    let mut args = args();
    args.allow_hash = false;
    let server = server(args, &[]);
    let mut ex = exchange("GET", "f", "hash", &[]);
    assert_eq!(at_target(&server, &mut ex, AccessPerm::ReadOnly, target()), Step::Reply);
    assert_eq!(ex.res.status, 403);
}

#[test]
fn missing_places_are_answered() {
    let mut with_page = args();
    with_page.error_page = Some(path("/assets/404.html"));
    let server_page = server(with_page, &[]);
    let mut ex = exchange("GET", "missing", "", &[]);
    assert_eq!(
        at_target(&server_page, &mut ex, AccessPerm::ReadOnly, missing_target()),
        Step::SendErrorPage
    );
    let mut ex = exchange("GET", "missing", "noscript", &[]);
    assert_eq!(
        at_target(&server_page, &mut ex, AccessPerm::ReadOnly, missing_target()),
        Step::Reply
    );
    assert_eq!(ex.res.status, 404);
    assert_eq!(text(&ex), "Not Found");
    let plain = server(args(), &[]);
    let mut ex = exchange("GET", "new/", "", &[]);
    assert_eq!(
        at_target(&plain, &mut ex, AccessPerm::ReadOnly, missing_target()),
        Step::List { exist: false }
    );
}

#[test]
fn single_page_applications_answer_all_routes() {
    let mut args = args();
    args.render_spa = true;
    let server = server(args, &[]);
    let mut ex = exchange("GET", "some/route", "", &[]);
    assert_eq!(
        at_target(&server, &mut ex, AccessPerm::ReadOnly, missing_target()),
        Step::SendRootIndex
    );
    let mut ex = exchange("GET", "some/file.js", "", &[]);
    assert_eq!(
        at_target(&server, &mut ex, AccessPerm::ReadOnly, missing_target()),
        Step::Reply
    );
    assert_eq!(ex.res.status, 404);
}

#[test]
fn places_outside_are_not_found() {
    let server = server(args(), &[]);
    for method in ["GET", "PUT", "DELETE", "MOVE", "OPTIONS"] {
        let mut ex = exchange(method, "link", "", &[]);
        let outside = Target { outside: true, ..target() };
        assert_eq!(at_target(&server, &mut ex, AccessPerm::ReadWrite, outside), Step::Reply);
        assert_eq!(ex.res.status, 404);
    }
}

#[test]
fn writing_needs_permission() {
    let mut args = args();
    args.allow_upload = false;
    args.allow_delete = false;
    let server = server(args, &[]);
    for method in ["PUT", "PATCH", "DELETE", "MKCOL", "COPY", "MOVE"] {
        let mut ex = exchange(method, "f", "", &[]);
        assert_eq!(at_target(&server, &mut ex, AccessPerm::ReadWrite, target()), Step::Reply);
        assert_eq!(ex.res.status, 403, "{method}");
    }
}

#[test]
fn overwriting_needs_permission_to_delete() {
    let mut args = args();
    args.allow_delete = false;
    let server = server(args, &[]);
    let mut ex = exchange("PUT", "f", "", &[]);
    assert_eq!(at_target(&server, &mut ex, AccessPerm::ReadWrite, target()), Step::Reply);
    assert_eq!(ex.res.status, 403);
    let mut ex = exchange("PUT", "f", "", &[]);
    assert_eq!(
        at_target(&server, &mut ex, AccessPerm::ReadWrite, missing_target()),
        Step::Upload { offset: None, size: 0 }
    );
    let mut ex = exchange("PATCH", "f", "", &[]);
    assert_eq!(
        at_target(&server, &mut ex, AccessPerm::ReadWrite, target()),
        Step::AskOffset { size: 3 }
    );
    let at = |start: u64| Event::Offset { offset: UploadOffset::At(start), size: 3 };
    assert_eq!(server.handle(&mut ex, at(3)), Step::Upload { offset: Some(3), size: 3 });
    assert_eq!(server.handle(&mut ex, at(2)), Step::Reply);
    assert_eq!(ex.res.status, 403);
    let bad = Event::Offset { offset: UploadOffset::Invalid, size: 3 };
    assert_eq!(server.handle(&mut ex, bad), Step::Reply);
    assert_eq!(ex.res.status, 400);
    assert_eq!(text(&ex), "Invalid X-Update-Range Header");
    let none = Event::Offset { offset: UploadOffset::Absent, size: 3 };
    assert_eq!(server.handle(&mut ex, none), Step::Reply);
    assert_eq!(ex.res.status, 405);
}

#[test]
fn webdav_methods_are_dispatched() {
    let server = server(args(), &[]);
    let rw = AccessPerm::ReadWrite;
    let run = |method: &str, target: Target| {
        let mut ex = exchange(method, "f", "", &[]);
        let step = at_target(&server, &mut ex, rw, target);
        (step, ex.res.status)
    };
    assert_eq!(run("OPTIONS", target()), (Step::Reply, 200));
    assert_eq!(run("DELETE", target()), (Step::Delete { is_dir: false }, 200));
    assert_eq!(run("DELETE", missing_target()), (Step::Reply, 404));
    assert_eq!(run("PROPFIND", target()), (Step::PropfindFile, 200));
    assert_eq!(run("PROPFIND", missing_target()), (Step::Reply, 404));
    assert_eq!(run("PROPPATCH", target()), (Step::Proppatch, 200));
    assert_eq!(run("PROPPATCH", dir_target()), (Step::Reply, 404));
    assert_eq!(run("MKCOL", target()), (Step::Reply, 405));
    assert_eq!(run("MKCOL", missing_target()), (Step::Mkcol, 200));
    assert_eq!(run("COPY", target()), (Step::Copy, 200));
    assert_eq!(run("COPY", missing_target()), (Step::Reply, 404));
    assert_eq!(run("MOVE", target()), (Step::Move, 200));
    assert_eq!(run("LOCK", target()), (Step::Lock, 200));
    assert_eq!(run("LOCK", dir_target()), (Step::Reply, 404));
    assert_eq!(run("UNLOCK", target()), (Step::Reply, 200));
    assert_eq!(run("UNLOCK", missing_target()), (Step::Reply, 404));
    assert_eq!(run("POST", target()), (Step::Reply, 405));
    assert_eq!(run("SETPASSWORD", dir_target()), (Step::SetPassword, 200));
    assert_eq!(run("SETPASSWORD", target()), (Step::Reply, 404));
}

#[test]
fn only_users_set_passwords() {
    let server = server(args(), &[]);
    let mut ex = exchange("SETPASSWORD", "d", "", &[]);
    assert_eq!(server.handle(&mut ex, guard(None, Some(AccessPerm::ReadWrite))), Step::AskTarget);
    assert_eq!(server.handle(&mut ex, Event::Target(dir_target())), Step::Reply);
    assert_eq!(ex.res.status, 403);
}

#[test]
fn property_requests_without_credentials_read() {
    let server = server(args(), &[]);
    let mut ex = exchange("PROPFIND", "d", "", &[]);
    assert_eq!(
        at_target(&server, &mut ex, AccessPerm::IndexOnly, dir_target()),
        Step::PropfindDir
    );
    assert_eq!(ex.access.perm, AccessPerm::ReadOnly);
    let mut ex = exchange("PROPFIND", "d", "", &[("authorization", "x")]);
    assert_eq!(
        at_target(&server, &mut ex, AccessPerm::IndexOnly, dir_target()),
        Step::PropfindDir
    );
    assert_eq!(ex.access.perm, AccessPerm::IndexOnly);
}

#[test]
fn single_file_is_served_at_its_paths() {
    let mut args = args();
    args.path_is_file = true;
    args.uri_prefix = "/pre/".to_string();
    let server = server(args, &[]);
    assert_eq!(server.single_file_req_paths, vec!["/pre/", "/pre", "/pre/name"]);
    let mut ex = exchange("GET", "pre", "", &[]);
    assert_eq!(enter(&server, &mut ex, AccessPerm::ReadOnly), Step::SendServed);
    let mut ex = exchange("GET", "other", "", &[]);
    assert_eq!(enter(&server, &mut ex, AccessPerm::ReadOnly), Step::Reply);
    assert_eq!(ex.res.status, 404);
}

#[test]
fn windows_redirector_connections_are_closed() {
    let ex = exchange("GET", "a", "", &[("user-agent", "Microsoft-WebDAV-MiniRedir/10.0")]);
    assert!(ex.microsoft_webdav);
    assert_eq!(ex.user_agent, "microsoft-webdav-miniredir/10.0");
    assert_eq!(ex.res.headers.get("connection"), Some("close"));
    let ex = exchange("GET", "a", "", &[("user-agent", "curl/8")]);
    assert!(!ex.microsoft_webdav);
    assert_eq!(ex.res.headers.get("connection"), None);
}

#[test]
fn clients_without_scripts_are_flagged() {
    let server = server(args(), &[]);
    let mut ex = exchange("GET", "d", "", &[]);
    let event = Event::Guard {
        user: None,
        access: Some(AccessPaths::new(AccessPerm::ReadOnly)),
        noscript: true,
    };
    assert_eq!(server.handle(&mut ex, event), Step::AskTarget);
    assert_eq!(ex.query.get("noscript"), Some(""));
}

#[test]
fn unheadable_cookie_fails() {
    let server = protected();
    let mut ex = exchange("GET", "dir1", "dir_password=password-1", &[]);
    let odd = Some(Grant {
        directory: "dir1".to_string(),
        password: "password-1".to_string(),
        encoded: "a\nb".to_string(),
    });
    assert_eq!(visit(&server, &mut ex, odd), Step::Fail);
}
