use dufs::directory_auth::{
    directory_chain, is_in_tree, names_of, password_matches, validate_directory_path,
    validate_password, AuthError, DirectoryAuth, DirectorySecrets,
};
use dufs::directory_search::{protecting_directory, SearchStep};
use dufs::paths::{FsPath, PathPart};

fn path(text: &str) -> FsPath {
    FsPath {
        absolute: text.starts_with('/'),
        parts: text
            .split('/')
            .filter(|name| !name.is_empty())
            .map(|name| PathPart::Text(name.to_string()))
            .collect(),
    }
}

fn auth(entries: &[(&str, &str)]) -> DirectoryAuth {
    let stored = DirectorySecrets {
        version: 1,
        directories: entries.iter().map(|(k, v)| (k.to_string(), v.to_string())).collect(),
    };
    match DirectoryAuth::load(path("/srv"), path("/srv/.auth.json"), Some(stored)) {
        Ok(auth) => auth,
        Err(e) => panic!("{}", e.message()),
    }
}

#[test]
fn equal_passwords_match() {
    let same = "password1".to_string();
    let other = "password2".to_string();
    let longer = "password11".to_string();
    assert!(password_matches("password1", Some(&same)));
    assert!(!password_matches("password1", Some(&other)));
    assert!(!password_matches("password1", Some(&longer)));
    assert!(!password_matches("password1", None));
}

#[test]
fn clean_paths_are_accepted() {
    assert!(validate_directory_path("a/b c/d.e").is_ok());
    for bad in ["", "/a", "a/", "a//b", ".", "a/./b", "..", "a/../b"] {
        assert!(matches!(validate_directory_path(bad), Err(AuthError::InvalidPath)), "{bad}");
    }
}

#[test]
fn passwords_have_bounds() {
    assert!(validate_password("12345678").is_ok());
    assert!(validate_password(&"x".repeat(128)).is_ok());
    assert!(matches!(validate_password("1234567"), Err(AuthError::PasswordLength)));
    assert!(matches!(validate_password(&"x".repeat(129)), Err(AuthError::PasswordLength)));
    assert!(matches!(validate_password("1234567\n"), Err(AuthError::PasswordControl)));
    assert!(matches!(validate_password("1234567\u{85}"), Err(AuthError::PasswordControl)));
}

#[test]
fn errors_have_messages() {
    assert!(!AuthError::InvalidPath.message().is_empty());
    assert!(!AuthError::PasswordLength.message().is_empty());
    assert!(!AuthError::PasswordControl.message().is_empty());
    assert!(!AuthError::InvalidFile.message().is_empty());
    assert!(AuthError::UnsupportedVersion(7).message().contains('7'));
}

#[test]
fn stored_passwords_are_checked() {
    let load = |version: u8, entries: &[(&str, &str)]| {
        DirectoryAuth::load(
            path("/srv"),
            path("/srv/.auth.json"),
            Some(DirectorySecrets {
                version,
                directories: entries.iter().map(|(k, v)| (k.to_string(), v.to_string())).collect(),
            }),
        )
    };
    assert!(load(1, &[("a", "password")]).is_ok());
    assert!(matches!(load(2, &[]), Err(AuthError::UnsupportedVersion(2))));
    assert!(matches!(load(1, &[("../a", "password")]), Err(AuthError::InvalidPath)));
    assert!(matches!(load(1, &[("a", "short")]), Err(AuthError::PasswordLength)));
}

#[test]
fn nothing_stored_means_no_passwords() {
    let auth = match DirectoryAuth::load(path("/srv"), path("/srv/.auth.json"), None) {
        Ok(auth) => auth,
        Err(e) => panic!("{}", e.message()),
    };
    assert_eq!(auth.registered_password("a"), None);
    assert_eq!(auth.secrets().version, 1);
    assert!(auth.secrets().directories.is_empty());
    assert!(auth.metadata_path().same_path(&path("/srv/.auth.json")));
    assert!(auth.root().same_path(&path("/srv")));
}

#[test]
fn directories_get_random_passwords_once() {
    let mut auth = auth(&[]);
    let (first, added) = auth.password_for_directory("a").unwrap_or_else(|e| panic!("{}", e.message()));
    assert!(added);
    assert_eq!(first.len(), 32);
    assert!(first.chars().all(|c| c.is_ascii_hexdigit()));
    let (again, added) = auth.password_for_directory("a").unwrap_or_else(|e| panic!("{}", e.message()));
    assert!(!added);
    assert_eq!(first, again);
    let (other, _) = auth.password_for_directory("b").unwrap_or_else(|e| panic!("{}", e.message()));
    assert_ne!(first, other);
    assert!(matches!(auth.password_for_directory("a/../b"), Err(AuthError::InvalidPath)));
}

#[test]
fn set_password_is_read_back() {
    let mut auth = auth(&[("a", "password-old")]);
    assert!(auth.set_password("a", "password-new").is_ok());
    assert_eq!(auth.registered_password("a").as_deref(), Some("password-new"));
    assert!(matches!(auth.set_password("a", "x"), Err(AuthError::PasswordLength)));
    assert_eq!(auth.registered_password("a").as_deref(), Some("password-new"));
}

#[test]
fn removing_a_tree_forgets_what_is_below() {
    let mut auth = auth(&[("a", "password-a"), ("a/b", "password-b"), ("ab", "password-c")]);
    assert!(matches!(auth.remove_tree("a"), Ok(true)));
    assert_eq!(auth.registered_password("a"), None);
    assert_eq!(auth.registered_password("a/b"), None);
    assert_eq!(auth.registered_password("ab").as_deref(), Some("password-c"));
    assert!(matches!(auth.remove_tree("a"), Ok(false)));
    assert!(matches!(auth.remove_tree("/"), Err(AuthError::InvalidPath)));
}

#[test]
fn moving_a_tree_takes_passwords_along() {
    let mut auth = auth(&[("a", "password-a"), ("a/b", "password-b"), ("c", "password-c")]);
    assert!(matches!(auth.move_tree("a", "c"), Ok(true)));
    assert_eq!(auth.registered_password("a"), None);
    assert_eq!(auth.registered_password("c").as_deref(), Some("password-a"));
    assert_eq!(auth.registered_password("c/b").as_deref(), Some("password-b"));
    assert!(matches!(auth.move_tree("c", "a"), Ok(true)));
    assert_eq!(auth.registered_password("a/b").as_deref(), Some("password-b"));
    assert!(matches!(auth.move_tree("x", "y"), Ok(false)));
    assert!(matches!(auth.move_tree("a", ".."), Err(AuthError::InvalidPath)));
}

#[test]
fn directories_on_the_way_get_passwords() {
    let mut auth = auth(&[("a", "password-a")]);
    assert_eq!(directory_chain("a/b/c"), vec!["a", "a/b", "a/b/c"]);
    assert!(auth.ensure_directory_tree("a/b/c", &vec![true, true, false]));
    assert_eq!(auth.registered_password("a").as_deref(), Some("password-a"));
    assert!(auth.registered_password("a/b").is_some());
    assert_eq!(auth.registered_password("a/b/c"), None);
    assert!(!auth.ensure_directory_tree("a/b/c", &vec![true, true, false]));
}

#[test]
fn grants_name_the_directory() {
    let mut auth = auth(&[("a", "password-a")]);
    match auth.grant_for_target(Some("a".to_string())) {
        Ok((Some((directory, password)), changed)) => {
            assert_eq!(directory, "a");
            assert_eq!(password, "password-a");
            assert!(!changed);
        }
        _ => panic!("no grant"),
    }
    assert!(matches!(auth.grant_for_target(None), Ok((None, false))));
    assert!(matches!(auth.password_for_target(None), Ok((None, false))));
    match auth.password_for_target(Some("b".to_string())) {
        Ok((Some(password), true)) => assert_eq!(password.len(), 32),
        _ => panic!("no password"),
    }
}

#[test]
fn search_finds_the_deepest_directory() {
    let mut search = protecting_directory("a/b/file", &path("/srv/a/b/file"));
    let mut looked = Vec::new();
    let found = loop {
        let place = search.place().copy();
        let is_dir = place.same_path(&path("/srv/a"));
        looked.push(place);
        match search.advance(is_dir) {
            SearchStep::Found(directory) => break directory,
            SearchStep::Next(next) => search = next,
        }
    };
    assert_eq!(found.as_deref(), Some("a"));
    assert_eq!(looked.len(), 3);
}

#[test]
fn search_ends_at_the_root() {
    let mut search = protecting_directory("a", &path("/srv/a"));
    let found = loop {
        match search.advance(false) {
            SearchStep::Found(directory) => break directory,
            SearchStep::Next(next) => search = next,
        }
    };
    assert_eq!(found, None);
}

#[test]
fn trees_hold_what_is_below() {
    assert!(is_in_tree("a", "a"));
    assert!(is_in_tree("a/b", "a"));
    assert!(!is_in_tree("ab", "a"));
    assert!(!is_in_tree("a", "a/b"));
    assert_eq!(names_of("/a//b/"), vec!["a", "b"]);
}

#[test]
fn the_store_is_written_beside_its_file() {
    let auth = auth(&[]);
    let temporary = auth.temporary_file("0123");
    assert_eq!(temporary.file_name_text(), Some(".auth.json.tmp-0123"));
    assert!(matches!(auth.persist_places(), Ok(_)));
}

#[test]
fn a_store_needs_a_directory() {
    let nowhere = FsPath { absolute: true, parts: Vec::new() };
    match DirectoryAuth::load(path("/srv"), nowhere, None) {
        Ok(auth) => assert!(matches!(auth.persist_places(), Err(AuthError::InvalidFile))),
        Err(e) => panic!("{}", e.message()),
    }
}
