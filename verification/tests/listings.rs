use dufs::access::{AccessPaths, AccessPerm};
use dufs::assets::AssetFiles;
use dufs::directory_auth::DirectorySecrets;
use dufs::items::{DataKind, PathItem, PathType, SortKey};
use dufs::listing::{
    archive_name, collect_entry, count_subpath, handle_ls_dir, handle_search_dir, is_hidden,
    matches_search, needs_canonical, EntryFacts, ItemOutcome, Listed, Search, Verdict, WalkEntry,
    MAX_SUBPATHS_COUNT,
};
use dufs::pages::{
    begin_index, handle_file_json, handle_hash_file, handle_tokengen, handle_zip_dir, IndexFormat,
};
use dufs::paths::{FsPath, PathPart};
use dufs::request::parse_query;
use dufs::response::{Body, Response, Source};
use dufs::server::{Args, Server};
use dufs::sorting::{arrange, sort_by_key};

fn path(text: &str) -> FsPath {
    FsPath {
        absolute: text.starts_with('/'),
        parts: text
            .split('/')
            .filter(|name| !name.is_empty())
            .map(|name| PathPart::Text(name.to_string()))
            .collect(),
    }
}

fn args() -> Args {
    Args {
        serve_path: path("/srv"),
        path_is_file: false,
        path_prefix: String::new(),
        uri_prefix: "/".to_string(),
        hidden: Vec::new(),
        directory_auth_file: None,
        has_users: true,
        allow_upload: true,
        allow_delete: true,
        allow_search: true,
        allow_symlink: false,
        allow_archive: true,
        allow_hash: true,
        enable_cors: false,
        render_index: false,
        render_spa: false,
        render_try_index: false,
        assets: None,
        error_page: None,
    }
}

fn server(args: Args, directories: &[(&str, &str)]) -> Server {
    let stored = DirectorySecrets {
        version: 1,
        directories: directories.iter().map(|(k, v)| (k.to_string(), v.to_string())).collect(),
    };
    let assets = AssetFiles {
        index_html: None,
        index_js: None,
        index_css: None,
        favicon_ico: None,
    };
    let html = "[__ASSETS_PREFIX__|__INDEX_DATA__]".to_string();
    let encode = |s: &str| s.replace(' ', "%20");
    match Server::init(args, Some(stored), &assets, html, "1.2.3", "name", &encode) {
        Ok(server) => server,
        Err(e) => panic!("{}", e.message()),
    }
}

fn item(name: &str, path_type: PathType, mtime: u64, size: u64) -> PathItem {
    PathItem { path_type, name: name.to_string(), mtime, size, directory_password: None }
}

fn items() -> Vec<PathItem> {
    vec![
        item("b10.txt", PathType::File, 5, 1),
        item("zdir", PathType::Dir, 9, 2),
        item("b2.txt", PathType::File, 7, 3),
        item("Adir", PathType::SymlinkDir, 1, 2),
        item("a.txt", PathType::SymlinkFile, 6, 1),
    ]
}

fn names(items: &[PathItem]) -> Vec<&str> {
    items.iter().map(|i| i.name.as_str()).collect()
}

fn glob(pattern: &str, name: &str) -> bool {
    match pattern.strip_suffix('*') {
        Some(start) => name.starts_with(start),
        None => pattern == name,
    }
}

#[test]
fn listings_are_sorted_as_asked() {
    let sorted = |query: &str| {
        let mut list = items();
        arrange(&mut list, &parse_query(query));
        list.into_iter().map(|i| i.name).collect::<Vec<_>>()
    };
    assert_eq!(sorted(""), vec!["Adir", "zdir", "a.txt", "b2.txt", "b10.txt"]);
    assert_eq!(sorted("sort=name"), vec!["Adir", "zdir", "a.txt", "b2.txt", "b10.txt"]);
    assert_eq!(sorted("sort=mtime"), vec!["Adir", "zdir", "b10.txt", "a.txt", "b2.txt"]);
    assert_eq!(sorted("sort=size"), vec!["zdir", "Adir", "b10.txt", "a.txt", "b2.txt"]);
    assert_eq!(
        sorted("sort=mtime&order=desc"),
        vec!["b2.txt", "a.txt", "b10.txt", "zdir", "Adir"]
    );
    assert_eq!(sorted("order=desc"), vec!["Adir", "zdir", "a.txt", "b2.txt", "b10.txt"]);
    assert_eq!(sorted("sort=x"), vec!["b10.txt", "zdir", "b2.txt", "Adir", "a.txt"]);
    assert_eq!(
        sorted("sort=x&order=desc"),
        vec!["a.txt", "Adir", "b2.txt", "zdir", "b10.txt"]
    );
}

#[test]
fn entries_compare_field_by_field() {
    let dir = item("b", PathType::Dir, 1, 1);
    let link = item("a", PathType::SymlinkDir, 1, 1);
    let file = item("a", PathType::File, 0, 0);
    assert!(dir < file);
    assert!(link < dir);
    assert!(file < item("a", PathType::SymlinkFile, 0, 1));
}

#[test]
fn sorting_is_stable_and_keeps_entries() {
    let mut list: Vec<PathItem> = (0..100u64)
        .map(|i| item(&format!("n{i}"), PathType::File, i % 7, 100 - i))
        .collect();
    sort_by_key(&mut list, SortKey::Mtime);
    assert_eq!(list.len(), 100);
    for pair in list.windows(2) {
        assert!(pair[0].mtime <= pair[1].mtime);
        if pair[0].mtime == pair[1].mtime {
            assert!(pair[0].size > pair[1].size);
        }
    }
}

#[test]
fn hidden_entries_follow_rules() {
    let rules = vec![".*".to_string(), "tmp/".to_string()];
    assert!(is_hidden(&rules, ".git", true, &glob));
    assert!(is_hidden(&rules, ".profile", false, &glob));
    assert!(is_hidden(&rules, "tmp", true, &glob));
    assert!(!is_hidden(&rules, "tmp", false, &glob));
    assert!(!is_hidden(&rules, "a", false, &glob));
    assert!(!is_hidden(&vec![], ".git", true, &glob));
    let (first, second) = (vec![rules[0].clone()], vec![rules[1].clone()]);
    let turned = vec![rules[1].clone(), rules[0].clone()];
    for name in [".git", "tmp", "a"] {
        for is_dir in [true, false] {
            let either = is_hidden(&first, name, is_dir, &glob)
                || is_hidden(&second, name, is_dir, &glob);
            assert_eq!(is_hidden(&rules, name, is_dir, &glob), either);
            assert_eq!(is_hidden(&turned, name, is_dir, &glob), either);
        }
    }
}

#[test]
fn counting_stops_at_the_limit() {
    assert_eq!(count_subpath(0, true), (0, false));
    assert_eq!(count_subpath(0, false), (1, false));
    assert_eq!(count_subpath(MAX_SUBPATHS_COUNT - 1, false), (MAX_SUBPATHS_COUNT, true));
    let mut count = 0;
    let mut seen = 0;
    for _ in 0..2000 {
        seen += 1;
        let (next, stop) = count_subpath(count, false);
        count = next;
        if stop {
            break;
        }
    }
    assert_eq!((count, seen), (1000, 1000));
}

fn facts() -> EntryFacts {
    EntryFacts { is_symlink: false, is_dir: false, contained: true, mtime: Some((1, 0)), size: 4 }
}

#[test]
fn entries_are_described() {
    let server = server(args(), &[]);
    match server.to_pathitem(&path("/srv/a/b"), &path("/srv/a"), facts(), None) {
        ItemOutcome::Item(item) => {
            assert_eq!(item.name, "b");
            assert_eq!(item.path_type, PathType::File);
            assert_eq!((item.mtime, item.size), (1000, 4));
            assert_eq!(item.directory_password, None);
        }
        _ => panic!("no item"),
    }
    let mut link = facts();
    link.is_symlink = true;
    link.is_dir = true;
    link.mtime = None;
    match server.to_pathitem(&path("/srv/l"), &path("/srv"), link, None) {
        ItemOutcome::Item(item) => {
            assert_eq!(item.path_type, PathType::SymlinkDir);
            assert_eq!(item.mtime, 0);
        }
        _ => panic!("no item"),
    }
    link.contained = false;
    assert!(matches!(
        server.to_pathitem(&path("/srv/l"), &path("/srv"), link, None),
        ItemOutcome::Skipped
    ));
    assert!(matches!(
        server.to_pathitem(&path("/other"), &path("/srv"), facts(), None),
        ItemOutcome::Failed
    ));
}

#[test]
fn protected_entries_carry_passwords() {
    let mut args = args();
    args.directory_auth_file = Some(path("/srv/.auth.json"));
    let server = server(args, &[]);
    let password = Some("password-1".to_string());
    match server.to_pathitem(&path("/srv/a"), &path("/srv"), facts(), password) {
        ItemOutcome::Item(item) => {
            assert_eq!(item.directory_password.as_deref(), Some("password-1"));
        }
        _ => panic!("no item"),
    }
    assert!(matches!(
        server.to_pathitem(&path("/out/a"), &path("/out"), facts(), None),
        ItemOutcome::Failed
    ));
}

#[test]
fn hidden_entries_are_not_added() {
    let mut args = args();
    args.hidden = vec!["secret".to_string()];
    let server = server(args, &[]);
    let mut list = Vec::new();
    let one = || ItemOutcome::Item(item("x", PathType::File, 0, 0));
    server.add_pathitem(&mut list, false, "x", one(), &glob);
    server.add_pathitem(&mut list, false, "secret", one(), &glob);
    server.add_pathitem(&mut list, true, "x", one(), &glob);
    server.add_pathitem(&mut list, false, "x", ItemOutcome::Skipped, &glob);
    server.add_pathitem(&mut list, false, "x", ItemOutcome::Failed, &glob);
    assert_eq!(names(&list), vec!["x"]);
}

#[test]
fn index_only_lists_accessible_children() {
    let server = server(args(), &[]);
    let mut access = AccessPaths::new(AccessPerm::IndexOnly);
    access.child_names = vec!["a".to_string(), "b".to_string()];
    match server.list_dir(&path("/srv/d"), &access) {
        Listed::Places(places) => {
            assert_eq!(places.len(), 2);
            assert!(places[1].same_path(&path("/srv/d/b")));
        }
        Listed::All => panic!("all"),
    }
    let all = AccessPaths::new(AccessPerm::ReadOnly);
    assert!(matches!(server.list_dir(&path("/srv/d"), &all), Listed::All));
}

fn walked(name: &str) -> WalkEntry {
    WalkEntry {
        path: path(&format!("/srv/{name}")),
        is_dir: false,
        hidden: false,
        canonical: Some(path(&format!("/srv/{name}"))),
        included: true,
    }
}

#[test]
fn walks_collect_what_is_allowed() {
    let excluded = Some(path("/srv/.auth.json"));
    let mut paths = Vec::new();
    let mut collect = |entry: WalkEntry, follow: bool| {
        collect_entry(&mut paths, entry, &excluded, follow, &path("/srv"))
    };
    assert_eq!(collect(walked("a"), false), Verdict::Take);
    assert_eq!(collect(WalkEntry { included: false, ..walked("b") }, false), Verdict::Pass);
    assert_eq!(collect(WalkEntry { hidden: true, ..walked("c") }, false), Verdict::Pass);
    assert_eq!(
        collect(WalkEntry { hidden: true, is_dir: true, ..walked("d") }, false),
        Verdict::PassTree
    );
    let leak = || WalkEntry { canonical: Some(path("/srv/.auth.json")), ..walked("leak") };
    assert_eq!(collect(leak(), true), Verdict::Pass);
    let out = || WalkEntry { canonical: Some(path("/etc/x")), ..walked("out") };
    assert_eq!(collect(out(), false), Verdict::Pass);
    assert_eq!(collect(out(), true), Verdict::Take);
    assert_eq!(collect(WalkEntry { canonical: None, ..walked("gone") }, false), Verdict::Pass);
    assert_eq!(paths.len(), 2);
    assert!(needs_canonical(&None, false));
    assert!(needs_canonical(&excluded, true));
    assert!(!needs_canonical(&None, true));
}

#[test]
fn searches_ignore_case() {
    assert!(matches!(handle_search_dir(&parse_query("q=AbC")), Search::Find(text) if text == "abc"));
    assert!(matches!(handle_search_dir(&parse_query("q=")), Search::List));
    assert!(matches!(handle_search_dir(&parse_query("")), Search::Missing));
    assert!(matches_search("XABCy", "abc"));
    assert!(!matches_search("XAByC", "abc"));
    assert!(handle_ls_dir(false, true));
    assert!(!handle_ls_dir(true, true));
    assert!(!handle_ls_dir(false, false));
}

#[test]
fn archives_name_their_files() {
    assert_eq!(
        archive_name(&path("/srv/d/a/b"), &path("/srv/d")).as_deref(),
        Some("a/b")
    );
    assert_eq!(archive_name(&path("/srv/e"), &path("/srv/d")), None);
}

#[test]
fn simple_listings_are_lines() {
    let mut res = Response::new();
    let mut list = vec![item("a<b", PathType::File, 0, 0), item("d", PathType::Dir, 0, 0)];
    assert_eq!(begin_index(&mut list, &parse_query("simple"), &mut res), None);
    assert!(matches!(&res.body, Body::Text(text) if text == "d/\na&lt;b\n"));
    assert_eq!(res.headers.get("content-type"), Some("text/html; charset=utf-8"));
    assert_eq!(res.headers.get("content-length"), Some("10"));
}

#[test]
fn listings_have_formats() {
    let mut res = Response::new();
    let mut list = Vec::new();
    let mut format = |query: &str| begin_index(&mut list, &parse_query(query), &mut res);
    assert_eq!(format("json&noscript"), Some(IndexFormat::Json));
    assert_eq!(format("noscript"), Some(IndexFormat::Noscript));
    assert_eq!(format(""), Some(IndexFormat::Page));
}

#[test]
fn pages_carry_their_data() {
    let server = server(args(), &[]);
    let mut res = Response::new();
    server.send_index(IndexFormat::Page, "{}".to_string(), false, &mut res);
    let expected = format!("[/{}|e30=]", server.assets_prefix);
    assert!(matches!(&res.body, Body::Text(text) if text == &expected));
    assert_eq!(res.headers.get("content-type"), Some("text/html; charset=utf-8"));
    assert_eq!(res.headers.get("cache-control"), Some("no-cache"));
    assert_eq!(res.headers.get("x-content-type-options"), Some("nosniff"));
    let mut res = Response::new();
    server.send_index(IndexFormat::Json, "{}".to_string(), true, &mut res);
    assert_eq!(res.headers.get("content-type"), Some("application/json"));
    assert_eq!(res.headers.get("content-length"), Some("2"));
    assert!(matches!(res.body, Body::Empty));
    let mut res = Response::new();
    server.handle_edit_file("{}", false, &mut res);
    assert!(matches!(&res.body, Body::Text(text) if text == &expected));
    assert_eq!(res.headers.get("x-content-type-options"), None);
}

#[test]
fn listing_data_says_what_is_allowed() {
    let server = server(args(), &[]);
    let data = server
        .index_data(&path("/srv/d"), items(), true, Some("u".to_string()), AccessPerm::ReadOnly, None)
        .unwrap();
    assert_eq!(data.href, "/d");
    assert_eq!(data.kind, DataKind::Index);
    assert!(!data.allow_upload && !data.allow_delete);
    assert!(data.allow_search && data.allow_archive && data.dir_exists && data.auth);
    assert_eq!(data.user.as_deref(), Some("u"));
    assert_eq!(data.paths.len(), 5);
    let data = server
        .index_data(&path("/srv"), Vec::new(), false, None, AccessPerm::ReadWrite, None)
        .unwrap();
    assert_eq!(data.href, "/");
    assert!(data.allow_upload && data.allow_delete && !data.dir_exists);
    assert!(server
        .index_data(&path("/x"), Vec::new(), true, None, AccessPerm::ReadOnly, None)
        .is_none());
}

#[test]
fn file_data_says_what_is_editable() {
    let server = server(args(), &[]);
    let edit = |size: u64, sample: &[u8]| {
        server
            .edit_data(&path("/srv/f"), DataKind::Edit, true, None, size, &sample.to_vec(), None)
            .unwrap()
            .editable
    };
    assert!(edit(4194304, b"text"));
    assert!(!edit(4194305, b"text"));
    assert!(!edit(4, &[0, 1, 2, 255]));
    assert!(edit(4, &[0xFF, 0xFE, 0, 0]));
    assert!(edit(4, &[0, 0, 0xFE, 0xFF]));
    assert!(!edit(4, b"%PDF-1.7"));
    assert!(!edit(4, b"\x89PNG"));
    let mut late = vec![b'a'; 1024];
    late.push(0);
    assert!(edit(1025, &late));
    assert!(!edit(1025, &late[1..]));
    assert!(edit(0, b""));
}

#[test]
fn short_replies_have_types() {
    let mut res = Response::new();
    handle_file_json(Some("{}".to_string()), false, &mut res);
    assert_eq!(res.headers.get("content-type"), Some("application/json"));
    let mut res = Response::new();
    handle_file_json(None, false, &mut res);
    assert_eq!(res.status, 404);
    let mut res = Response::new();
    handle_hash_file("abc".to_string(), true, &mut res);
    assert_eq!(res.headers.get("content-length"), Some("3"));
    assert!(matches!(res.body, Body::Empty));
    let mut res = Response::new();
    handle_tokengen("t\u{e9}".to_string(), &mut res);
    assert_eq!(res.headers.get("content-type"), Some("text/plain; charset=utf-8"));
    assert_eq!(res.headers.get("content-length"), Some("3"));
    let mut res = Response::new();
    let encode = |s: &str| s.to_string();
    assert!(handle_zip_dir(Some("dir"), false, &encode, &mut res));
    assert_eq!(
        res.headers.get("content-disposition"),
        Some("attachment; filename=\"dir.zip\"")
    );
    assert_eq!(res.headers.get("content-type"), Some("application/zip"));
    assert!(matches!(res.body, Body::Stream(Source::Archive)));
    assert!(!handle_zip_dir(None, false, &encode, &mut res));
}
