use session_ui::assets::{
    allows_scheme, normalize_web_path, AccessibleAssets, AssetKind, AssetsLoaderWriteOptions,
};

#[test]
fn normalize_strips_slashes() {
    assert_eq!(normalize_web_path("a/b"), "/a/b");
    assert_eq!(normalize_web_path("/a/b"), "/a/b");
    assert_eq!(normalize_web_path("//a/b//"), "/a/b");
    assert_eq!(normalize_web_path("a/b/"), "/a/b");
    assert_eq!(normalize_web_path(""), "/");
    assert_eq!(normalize_web_path("///"), "/");
}

#[test]
fn scheme_filter() {
    let all = AssetsLoaderWriteOptions::default();
    assert!(all.kind == AssetKind::All && !all.hash_url);
    assert!(allows_scheme(&all, true) && allows_scheme(&all, false));
    let local = AssetsLoaderWriteOptions { kind: AssetKind::Local, hash_url: false };
    assert!(allows_scheme(&local, true) && !allows_scheme(&local, false));
    let remote = AssetsLoaderWriteOptions { kind: AssetKind::Remote, hash_url: true };
    assert!(!allows_scheme(&remote, true) && allows_scheme(&remote, false));
}

#[test]
fn local_path_lookup() {
    let mut assets = AccessibleAssets::new();
    assets.insert("/logo.png".to_string(), "/cache/1".to_string());
    assets.insert("/font.woff".to_string(), "/cache/2".to_string());
    assets.insert("/logo.png".to_string(), "/cache/3".to_string());
    assert_eq!(assets.get_local_path("/logo.png"), Some("/cache/3"));
    assert_eq!(assets.get_local_path("/font.woff"), Some("/cache/2"));
    assert_eq!(assets.get_local_path("/missing"), None);
}

use session_ui::assets::{should_write, Asset, AssetsLoader};

#[test]
fn asset_from_parts_decodes_digest_and_normalizes() {
    let a = Asset::from_parts("00ff10", "https://x.test/a.png".to_string(), false, "img/a.png/").ok().unwrap();
    assert_eq!(a.sha256, vec![0u8, 255, 16]);
    assert_eq!(a.web_path, "/img/a.png");
    assert_eq!(a.url, "https://x.test/a.png");
    assert!(a.matches_digest(&vec![0u8, 255, 16]));
    assert!(!a.matches_digest(&vec![0u8, 255]));
    assert!(!a.matches_digest(&vec![0u8, 255, 17]));
    assert!(Asset::from_parts("xyz", "u".to_string(), true, "a").is_err());
}

#[test]
fn loader_rejects_duplicate_web_paths() {
    let mut loader = AssetsLoader::new();
    loader.register_index_url("file:///index.json".to_string());
    let first = Asset::from_parts("aa", "file:///a".to_string(), true, "/a").ok().unwrap();
    let dup = Asset::from_parts("bb", "https://h/a".to_string(), false, "a/").ok().unwrap();
    let other = Asset::from_parts("cc", "https://h/b".to_string(), false, "b").ok().unwrap();
    assert!(loader.add_asset(first));
    assert!(!loader.add_asset(dup));
    assert!(loader.add_asset(other));
    let assets = loader.assets();
    assert_eq!(assets.len(), 2);
    assert_eq!(assets[0].sha256, vec![0xaa]);
    assert_eq!(assets[1].web_path, "/b");
    assert_eq!(loader.indexes(), &vec!["file:///index.json".to_string()]);
    let remote = AssetsLoaderWriteOptions { kind: AssetKind::Remote, hash_url: true };
    assert!(!should_write(&remote, &assets[0]));
    assert!(should_write(&remote, &assets[1]));
}
