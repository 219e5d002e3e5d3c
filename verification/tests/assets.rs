//! Tests for the walker, the recognizer registry and the asset store.

use std::io::Cursor;

use yasss13rtwcf_shared::assets::{
    extension_of, get_asset, load_from_dir, Asset, AssetManager, AssetStore,
};
use yasss13rtwcf_shared::rsi::Rsi;
use yasss13rtwcf_shared::tree::DirEntry;

fn png_bytes(w: u32, h: u32) -> Vec<u8> {
    let img = image::DynamicImage::new_rgba8(w, h);
    let mut buf = Cursor::new(Vec::new());
    img.write_to(&mut buf, image::ImageFormat::Png).unwrap();
    buf.into_inner()
}

fn file(name: &str, bytes: Vec<u8>) -> DirEntry {
    DirEntry::File { name: name.to_string(), content: Some(bytes) }
}

fn dir(name: &str, listing: Vec<DirEntry>) -> DirEntry {
    DirEntry::Dir { name: name.to_string(), listing: Some(listing) }
}

fn test_rsi_listing() -> Vec<DirEntry> {
    let meta = "{\"version\": 1, \"size\": {\"x\": 32, \"y\": 32}, \"states\": [{\"name\": \"ByeThere\", \"directions\": 1, \"delays\": [[1.0, 1.0, 1.0, 1.0]]}, {\"name\": \"HiThere\", \"directions\": 1}]}";
    vec![
        file("meta.json", meta.as_bytes().to_vec()),
        file("ByeThere.png", png_bytes(128, 32)),
        file("HiThere.png", png_bytes(32, 32)),
    ]
}

#[test]
fn test_binary() {
    let listing = vec![file("test", vec![104, 114, 114, 114, 114, 109])];
    let mut manager = AssetManager::new();
    load_from_dir(&mut manager, "/assets", Some(&listing)).unwrap();

    let asset = get_asset(&manager, "test").expect("Unable to get test file.");
    if let Asset::Binary(ref vec) = *asset {
        assert_eq!(vec, &vec![104, 114, 114, 114, 114, 109]);
    } else {
        panic!("Asset is not binary!")
    }
}

#[test]
fn test_rsi() {
    let listing = vec![dir("testrsi.rs.rsi", test_rsi_listing())];
    let mut manager = AssetManager::new();
    load_from_dir(&mut manager, "/assets", Some(&listing)).unwrap();

    let asset = get_asset(&manager, "testrsi.rs.rsi").expect("Unable to get test file.");
    let rsi = asset.as_rsi().expect("Asset is not an RSI.");
    assert_eq!(rsi.get_size(), (32, 32));

    let mut tester = Rsi::new((32, 32));
    tester.new_state("ByeThere", &[], 1);
    tester.new_state("HiThere", &[], 1);

    if !rsi.metadata_equality(&tester) {
        panic!("RSI metadata incorrect.");
    }
}

#[test]
fn walker_yields_exactly_the_two_entries() {
    // One plain file and one RSI directory: the store ends up with exactly
    // those two entries, and nothing for the files inside the RSI bundle.
    let listing = vec![
        file("test", vec![104, 114, 114, 114, 114, 109]),
        dir("x.rsi", test_rsi_listing()),
    ];
    let mut manager = AssetManager::new();
    load_from_dir(&mut manager, "/assets", Some(&listing)).unwrap();

    assert_eq!(manager.len(), 2);
    let plain = get_asset(&manager, "test").unwrap();
    assert_eq!(plain.as_bytes().unwrap(), &[104, 114, 114, 114, 114, 109]);
    let bundle = get_asset(&manager, "x.rsi").unwrap();
    assert!(bundle.is_rsi());
    assert!(get_asset(&manager, "x.rsi/meta.json").is_none());
    assert!(get_asset(&manager, "x.rsi/ByeThere.png").is_none());
}

#[test]
fn walker_recurses_into_plain_directories() {
    let listing = vec![dir("sub", vec![file("inner", vec![1, 2, 3])])];
    let mut manager = AssetManager::new();
    load_from_dir(&mut manager, "/assets", Some(&listing)).unwrap();

    assert_eq!(manager.len(), 1);
    let inner = get_asset(&manager, "sub/inner").unwrap();
    assert_eq!(inner.as_bytes().unwrap(), &[1, 2, 3]);
}

#[test]
fn walker_skips_unreadable_files_and_bad_rsi() {
    let listing = vec![
        DirEntry::File { name: "broken".to_string(), content: None },
        dir("bad.rsi", vec![file("meta.json", b"not json".to_vec())]),
        file("ok", vec![7]),
    ];
    let mut manager = AssetManager::new();
    load_from_dir(&mut manager, "/assets", Some(&listing)).unwrap();

    assert_eq!(manager.len(), 1);
    assert!(get_asset(&manager, "ok").is_some());
    assert!(get_asset(&manager, "broken").is_none());
    assert!(get_asset(&manager, "bad.rsi").is_none());
}

#[test]
fn walker_aborts_on_unreadable_directory() {
    let listing = vec![
        file("ok", vec![7]),
        DirEntry::Dir { name: "locked".to_string(), listing: None },
    ];
    let mut manager = AssetManager::new();
    assert!(load_from_dir(&mut manager, "/assets", Some(&listing)).is_err());
    // All-or-nothing: the readable file was discarded with the failed walk.
    assert_eq!(manager.len(), 0);
}

#[test]
fn failed_load_leaves_previous_table_intact() {
    let listing = vec![file("test", vec![104, 114, 114, 114, 114, 109])];
    let mut manager = AssetManager::new();
    load_from_dir(&mut manager, "/assets", Some(&listing)).unwrap();
    assert_eq!(manager.len(), 1);
    assert_eq!(manager.get_root(), "/assets");

    // A second load whose walk fails entirely (the root cannot be read)
    // leaves the previous table and root unchanged.
    assert!(load_from_dir(&mut manager, "/other", None).is_err());
    assert_eq!(manager.len(), 1);
    assert_eq!(manager.get_root(), "/assets");
    assert!(get_asset(&manager, "test").is_some());

    // So does one that fails on an unreadable subdirectory.
    let bad = vec![DirEntry::Dir { name: "locked".to_string(), listing: None }];
    assert!(load_from_dir(&mut manager, "/other", Some(&bad)).is_err());
    assert_eq!(manager.len(), 1);
    assert_eq!(manager.get_root(), "/assets");
}

#[test]
fn manager_iter_walks_all_entries() {
    let listing = vec![file("a", vec![1]), file("b", vec![2])];
    let mut manager = AssetManager::new();
    load_from_dir(&mut manager, "/assets", Some(&listing)).unwrap();

    let mut iter = manager.iter();
    let mut seen = Vec::new();
    while let Some((path, asset)) = iter.next() {
        seen.push((path.clone(), asset.as_bytes().unwrap().to_vec()));
    }
    assert_eq!(seen.len(), 2);
    assert!(seen.contains(&("a".to_string(), vec![1])));
    assert!(seen.contains(&("b".to_string(), vec![2])));
}

#[test]
fn later_file_of_same_name_wins() {
    let listing = vec![file("dup", vec![1]), file("dup", vec![2])];
    let mut manager = AssetManager::new();
    load_from_dir(&mut manager, "/assets", Some(&listing)).unwrap();
    assert_eq!(manager.len(), 1);
    assert_eq!(get_asset(&manager, "dup").unwrap().as_bytes().unwrap(), &[2]);
}

#[test]
fn store_load_get_and_iterate() {
    let store = AssetStore::new();
    let listing = vec![file("test", vec![1, 2]), dir("x.rsi", test_rsi_listing())];
    store.load("/assets", Some(&listing)).unwrap();

    let asset = store.get("test").unwrap();
    assert_eq!(asset.as_bytes().unwrap(), &[1, 2]);
    assert!(store.get("missing").is_none());

    let snapshot = store.iterate();
    assert_eq!(snapshot.len(), 2);

    // A failed load leaves the previous table visible.
    assert!(store.load("/other", None).is_err());
    assert!(store.get("test").is_some());

    // The snapshot taken earlier is unaffected by later loads.
    let listing2 = vec![file("only", vec![9])];
    store.load("/assets2", Some(&listing2)).unwrap();
    assert_eq!(snapshot.len(), 2);
    assert!(store.get("test").is_none());
    assert!(store.get("only").is_some());
}

#[test]
fn asset_kind_queries() {
    let binary = Asset::Binary(vec![1]);
    assert!(binary.is_binary());
    assert!(!binary.is_rsi());
    assert_eq!(binary.as_bytes().unwrap(), &[1]);
    assert!(binary.as_rsi().is_none());
}

#[test]
fn extension_rules() {
    assert_eq!(extension_of("x.rsi").unwrap(), "rsi");
    assert_eq!(extension_of("a.tar.rsi").unwrap(), "rsi");
    assert_eq!(extension_of("test"), None);
    assert_eq!(extension_of(".rsi"), None);
    assert_eq!(extension_of("x."), Some(String::new()));
    // Only the `rsi` extension marks a composite directory: another extension
    // is walked as plain files.
    let listing = vec![dir("x.zip", vec![file("inner", vec![1])])];
    let mut manager = AssetManager::new();
    load_from_dir(&mut manager, "/assets", Some(&listing)).unwrap();
    assert!(get_asset(&manager, "x.zip").is_none());
    assert!(get_asset(&manager, "x.zip/inner").is_some());
}
