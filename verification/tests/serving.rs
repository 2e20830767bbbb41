use dufs::assets::AssetFiles;
use dufs::directory_auth::DirectorySecrets;
use dufs::handle::Opening;
use dufs::pages::{Asset, Internal};
use dufs::paths::{
    is_excluded_path, normalize_path, FsPath, PathPart,
};
use dufs::response::{Body, Response, Source};
use dufs::server::{Args, RootStep, Server};

fn path(text: &str) -> FsPath {
    FsPath {
        absolute: text.starts_with('/'),
        parts: text
            .split('/')
            .filter(|name| !name.is_empty())
            .map(|name| PathPart::Text(name.to_string()))
            .collect(),
    }
}

fn args() -> Args {
    Args {
        serve_path: path("/srv"),
        path_is_file: false,
        path_prefix: String::new(),
        uri_prefix: "/".to_string(),
        hidden: Vec::new(),
        directory_auth_file: None,
        has_users: true,
        allow_upload: true,
        allow_delete: true,
        allow_search: true,
        allow_symlink: false,
        allow_archive: true,
        allow_hash: true,
        enable_cors: false,
        render_index: false,
        render_spa: false,
        render_try_index: false,
        assets: None,
        error_page: None,
    }
}

fn server(args: Args, directories: &[(&str, &str)]) -> Server {
    let stored = DirectorySecrets {
        version: 1,
        directories: directories.iter().map(|(k, v)| (k.to_string(), v.to_string())).collect(),
    };
    let assets = AssetFiles {
        index_html: None,
        index_js: None,
        index_css: None,
        favicon_ico: None,
    };
    let html = "[__ASSETS_PREFIX__|__INDEX_DATA__]".to_string();
    let encode = |s: &str| s.replace(' ', "%20");
    match Server::init(args, Some(stored), &assets, html, "1.2.3", "name", &encode) {
        Ok(server) => server,
        Err(e) => panic!("{}", e.message()),
    }
}

#[test]
fn request_paths_are_resolved() {
    let server = server(args(), &[]);
    let resolve = |path: &str| server.resolve_path(Some(path));
    assert_eq!(resolve("/").as_deref(), Some(""));
    assert_eq!(resolve("/a/b").as_deref(), Some("a/b"));
    assert_eq!(resolve("//a//b//").as_deref(), Some("a/b"));
    assert_eq!(resolve("/a/./b").as_deref(), Some("a/b"));
    assert_eq!(resolve("/./a"), None);
    assert_eq!(resolve("/a/../b"), None);
    assert_eq!(resolve("/..").as_deref(), None);
    assert_eq!(resolve("/a..b/...").as_deref(), Some("a..b/..."));
    assert_eq!(server.resolve_path(None), None);
}

#[test]
fn path_prefix_is_taken_off() {
    let mut args = args();
    args.path_prefix = "/xyz".to_string();
    let server = server(args, &[]);
    assert_eq!(server.resolve_path(Some("/xyz/a")).as_deref(), Some("a"));
    assert_eq!(server.resolve_path(Some("/xyz")).as_deref(), Some(""));
    assert_eq!(server.resolve_path(Some("/abc")), None);
}

#[test]
fn components_are_resolved() {
    let server = server(args(), &[]);
    let names = |list: &[&str]| list.iter().map(|s| Some(s.to_string())).collect::<Vec<_>>();
    assert_eq!(server.resolve_components(&names(&["a", "b"]), false).as_deref(), Some("a/b"));
    assert_eq!(server.resolve_components(&names(&["c:", "b"]), false).as_deref(), Some("c:/b"));
    assert_eq!(server.resolve_components(&names(&["c:", "b"]), true), None);
    assert_eq!(server.resolve_components(&vec![Some("a".to_string()), None], false), None);
}

#[test]
fn places_and_relative_paths_undo_each_other() {
    let server = server(args(), &[]);
    let place = server.join_path("a/b").unwrap();
    assert!(place.same_path(&path("/srv/a/b")));
    assert_eq!(server.relative_path(&place).as_deref(), Some("a/b"));
    assert!(server.join_path("").unwrap().same_path(&path("/srv")));
    assert_eq!(server.relative_path(&path("/srv")).as_deref(), Some(""));
    assert_eq!(server.relative_path(&path("/other/a")), None);
}

#[test]
fn nearest_existing_place_is_looked_for() {
    let server = server(args(), &[]);
    let mut step = server.guard_root_contained(&path("/srv/a/b"));
    let mut looked = 0;
    loop {
        step = match step {
            RootStep::Look(place) => {
                looked += 1;
                RootStep::looked(&place, place.same_path(&path("/srv")))
            }
            RootStep::Resolve(place) => {
                assert!(place.same_path(&path("/srv")));
                break;
            }
            RootStep::Settled(_) => panic!("settled"),
        };
    }
    assert_eq!(looked, 3);
    assert!(server.is_root_contained(Some(&path("/srv"))));
    assert!(!server.is_root_contained(Some(&path("/srv2"))));
    assert!(!server.is_root_contained(None));
}

#[test]
fn nothing_existing_leads_outside() {
    let server = server(args(), &[]);
    let mut step = server.guard_root_contained(&path("/srv/a"));
    while let RootStep::Look(place) = step {
        step = RootStep::looked(&place, false);
    }
    assert!(matches!(step, RootStep::Settled(true)));
}

#[test]
fn links_may_be_followed() {
    let mut args = args();
    args.allow_symlink = true;
    let server = server(args, &[]);
    assert!(matches!(
        server.guard_root_contained(&path("/srv/a")),
        RootStep::Settled(false)
    ));
}

#[test]
fn password_file_and_its_temporaries_are_recognised() {
    let mut args = args();
    args.directory_auth_file = Some(path("/srv/.auth.json"));
    let server = server(args, &[]);
    let is = |p: &str| server.is_directory_auth_metadata(&path(p), &None, &None);
    assert!(is("/srv/.auth.json"));
    assert!(is("/srv/.auth.json.tmp-1"));
    assert!(!is("/srv/.auth.json2"));
    assert!(!is("/srv/x/.auth.json.tmp-1"));
    assert!(server.is_directory_auth_metadata(
        &path("/srv/link"),
        &Some(path("/srv/.auth.json")),
        &Some(path("/srv/.auth.json")),
    ));
    assert!(is_excluded_path(&path("/srv/.auth.json.tmp-9"), &path("/srv/.auth.json")));
    assert!(!is_excluded_path(&path("/srv/a"), &path("/srv/.auth.json")));
}

#[test]
fn paths_have_parts() {
    let p = path("/srv/a.tar.gz");
    assert!(p.has_extension());
    assert!(!path("/srv/.profile").has_extension());
    assert!(!path("/srv/name").has_extension());
    assert_eq!(p.file_name_text(), Some("a.tar.gz"));
    assert!(p.parent().unwrap().same_path(&path("/srv")));
    assert!(path("/").parent().is_none());
    assert_eq!(p.to_text().as_deref(), Some("/srv/a.tar.gz"));
    assert_eq!(path("a/b").to_text().as_deref(), Some("a/b"));
    let raw = FsPath { absolute: false, parts: vec![PathPart::Raw(vec![0xff])] };
    assert_eq!(raw.to_text(), None);
    assert_eq!(raw.file_name_text(), None);
    assert!(p.join("/etc").same_path(&path("/etc")));
    assert!(path("/srv/a").join("b/./c").same_path(&path("/srv/a/b/c")));
    assert_eq!(normalize_path(Some("a\\b"), true), "a/b");
    assert_eq!(normalize_path(Some("a\\b"), false), "a\\b");
    assert_eq!(normalize_path(None, false), "");
}

#[test]
fn assets_prefix_carries_version_and_revision() {
    let server = server(args(), &[]);
    assert!(server.assets_prefix.starts_with("__dufs_v1.2.3_"));
    assert!(server.assets_prefix.ends_with("__/"));
    assert_eq!(server.assets_prefix.len(), "__dufs_v1.2.3_".len() + 16 + "__/".len());
}

#[test]
fn embedded_assets_are_served() {
    let server = server(args(), &[]);
    for (name, asset, kind) in [
        ("index.js", Asset::Script, "application/javascript; charset=UTF-8"),
        ("index.css", Asset::Style, "text/css; charset=UTF-8"),
        ("favicon.ico", Asset::Icon, "image/x-icon"),
    ] {
        let mut res = Response::new();
        match server.handle_internal(&format!("{}{name}", server.assets_prefix), &mut res) {
            Internal::Embedded(found) => assert_eq!(found, asset),
            _ => panic!("{name}"),
        }
        assert_eq!(res.status, 200);
        assert_eq!(res.headers.get("content-type"), Some(kind));
        assert_eq!(
            res.headers.get("cache-control"),
            Some("public, max-age=31536000, immutable")
        );
        assert_eq!(res.headers.get("x-content-type-options"), Some("nosniff"));
        assert!(matches!(res.body, Body::Stream(Source::Asset)));
    }
    let mut res = Response::new();
    let other = format!("{}other", server.assets_prefix);
    assert!(matches!(server.handle_internal(&other, &mut res), Internal::Unknown));
    assert_eq!(res.status, 404);
}

#[test]
fn health_is_reported() {
    let server = server(args(), &[]);
    let mut res = Response::new();
    assert!(matches!(server.handle_internal("__dufs__/health", &mut res), Internal::Health));
    assert!(matches!(&res.body, Body::Text(text) if text == "{\"status\":\"OK\"}"));
    let mut res = Response::new();
    assert!(matches!(server.handle_internal("a", &mut res), Internal::No));
    assert!(matches!(res.body, Body::Empty));
}

#[test]
fn requests_are_opened() {
    let server = server(args(), &[]);
    let mut res = Response::new();
    assert!(matches!(server.open_request(Some("/a/../b"), true, &mut res), Opening::Refused));
    assert_eq!(res.status, 400);
    assert!(matches!(&res.body, Body::Text(text) if text == "Invalid Path"));
    let mut res = Response::new();
    assert!(matches!(server.open_request(None, false, &mut res), Opening::Refused));
    assert_eq!(res.status, 400);
    let mut res = Response::new();
    match server.open_request(Some("/a/b/"), true, &mut res) {
        Opening::Path(path) => assert_eq!(path, "a/b"),
        _ => panic!("no path"),
    }
    assert_eq!(res.status, 200);
    let health = Some("/__dufs__/health");
    assert!(matches!(
        server.open_request(health, true, &mut res),
        Opening::Own(Internal::Health)
    ));
    let mut res = Response::new();
    assert!(matches!(server.open_request(health, false, &mut res), Opening::Path(_)));
    assert!(matches!(res.body, Body::Empty));
    assert!(matches!(server.open_path(None, true, &mut res), Opening::Refused));
}

#[test]
fn own_assets_are_looked_up() {
    let mut args = args();
    args.assets = Some(path("/assets"));
    let server = server(args, &[]);
    let mut res = Response::new();
    match server.handle_internal(&format!("{}sub/x.js", server.assets_prefix), &mut res) {
        Internal::File(place) => assert!(place.same_path(&path("/assets/sub/x.js"))),
        _ => panic!("no file"),
    }
    dufs::pages::handle_asset_file(true, &mut res);
    assert_eq!(res.headers.get("x-content-type-options"), Some("nosniff"));
    let mut res = Response::new();
    dufs::pages::handle_asset_file(false, &mut res);
    assert_eq!(res.status, 404);
    assert_eq!(res.headers.get("cache-control"), None);
}

#[test]
fn replies_leave_with_their_headers() {
    let mut with_cors = args();
    with_cors.enable_cors = true;
    let server_cors = server(with_cors, &[]);
    let res = server_cors.call(Some(Response::new()));
    assert_eq!(res.status, 200);
    assert_eq!(res.headers.get("referrer-policy"), Some("no-referrer"));
    assert_eq!(res.headers.get("access-control-allow-origin"), Some("*"));
    assert_eq!(res.headers.get("access-control-allow-credentials"), Some("true"));
    assert_eq!(res.headers.get("access-control-allow-headers"), Some("Authorization,*"));
    let plain = server(args(), &[]);
    let res = plain.call(None);
    assert_eq!(res.status, 500);
    assert_eq!(res.headers.get("referrer-policy"), Some("no-referrer"));
    assert_eq!(res.headers.get("access-control-allow-origin"), None);
}

#[test]
fn bad_store_stops_the_server() {
    let mut args = args();
    args.directory_auth_file = Some(path("/srv/.auth.json"));
    let assets = AssetFiles {
        index_html: None,
        index_js: None,
        index_css: None,
        favicon_ico: None,
    };
    let stored = DirectorySecrets { version: 3, directories: Vec::new() };
    let encode = |s: &str| s.to_string();
    let made = Server::init(args, Some(stored), &assets, String::new(), "1", "n", &encode);
    assert!(made.is_err());
}
