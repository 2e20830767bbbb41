use dufs::assets::{assets_revision, AssetFiles, FileDigest};

fn files(js: &str) -> AssetFiles {
    AssetFiles {
        index_html: Some(b"index".to_vec()),
        index_js: Some(js.as_bytes().to_vec()),
        index_css: None,
        favicon_ico: None,
    }
}

#[test]
fn assets_revision_changes_with_content() {
    let old_revision = assets_revision(&files("old"));
    let new_revision = assets_revision(&files("new"));
    assert_ne!(old_revision, new_revision);
}

#[test]
fn revision_is_sixteen_hexadecimal_digits() {
    let revision = assets_revision(&files("old"));
    assert_eq!(revision.len(), 16);
    assert!(revision.chars().all(|c| c.is_ascii_hexdigit() && !c.is_ascii_uppercase()));
    assert_eq!(revision, assets_revision(&files("old")));
}

#[test]
fn revision_tells_missing_from_empty() {
    let mut missing = files("a");
    missing.index_js = None;
    let mut empty = files("a");
    empty.index_js = Some(Vec::new());
    assert_ne!(assets_revision(&missing), assets_revision(&empty));
}

#[test]
fn revision_tells_where_contents_end() {
    let left = AssetFiles {
        index_html: Some(b"ab".to_vec()),
        index_js: Some(b"c".to_vec()),
        index_css: None,
        favicon_ico: None,
    };
    let right = AssetFiles {
        index_html: Some(b"a".to_vec()),
        index_js: Some(b"bc".to_vec()),
        index_css: None,
        favicon_ico: None,
    };
    assert_ne!(assets_revision(&left), assets_revision(&right));
}

#[test]
fn digest_of_pieces_is_digest_of_whole() {
    let mut digest = FileDigest::new();
    digest.update(b"a");
    digest.update(b"bc");
    assert_eq!(
        digest.finish(),
        "ba7816bf8f01cfea414140de5dae2223b00361a396177a9cb410ff61f20015ad"
    );
    assert_eq!(
        FileDigest::new().finish(),
        "e3b0c44298fc1c149afbf4c8996fb92427ae41e4649b934ca495991b7852b855"
    );
}
