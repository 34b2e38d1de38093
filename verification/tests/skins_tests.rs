use spotiamp::skins::{
    bundled_skin, contains_asset, list_skins_in_dir, read_imported_assets, read_skin_info,
    skin_root, uppercase_file_name, FolderEntry, FolderListing, FolderScan, SkinAsset, SkinInfo,
    DEFAULT_SKIN_ID, DEFAULT_SKIN_NAME,
};

fn file(path: &str) -> FolderEntry {
    FolderEntry { path: path.to_string(), is_file: true, is_dir: false }
}

fn dir(path: &str) -> FolderEntry {
    FolderEntry { path: path.to_string(), is_file: false, is_dir: true }
}

fn listing(path: &str, entries: Vec<FolderEntry>) -> FolderListing {
    FolderListing { path: path.to_string(), entries }
}

fn scan(folder: FolderListing, subfolders: Vec<FolderListing>) -> FolderScan {
    FolderScan { folder, subfolders }
}

fn skin_folder(path: &str, files: &[&str]) -> FolderScan {
    let entries = files.iter().map(|f| file(&format!("{path}/{f}"))).collect();
    scan(listing(path, entries), vec![])
}

#[test]
fn bundled_skin_is_the_classic_skin() {
    let skin = bundled_skin();
    assert_eq!(skin.id, DEFAULT_SKIN_ID);
    assert_eq!(skin.id, "base-2.91");
    assert_eq!(skin.name, DEFAULT_SKIN_NAME);
    assert_eq!(skin.name, "Winamp 2.91");
    assert!(skin.bundled);
    assert_eq!(skin.assets.len(), 17);
    assert_eq!(skin.assets[0], SkinAsset { name: "BALANCE.BMP".to_string(), path: None });
    assert_eq!(skin.assets[16].name, "VOLUME.BMP");
    assert!(skin.assets.iter().all(|a| a.path.is_none()));
    assert!(skin.assets.iter().any(|a| a.name == "MAIN.BMP"));
}

#[test]
fn uppercase_file_name_of_a_path() {
    assert_eq!(uppercase_file_name("/tmp/skins/main.bmp"), Some("MAIN.BMP".to_string()));
    assert_eq!(uppercase_file_name("Volume.Bmp"), Some("VOLUME.BMP".to_string()));
}

#[test]
fn uppercase_file_name_keeps_non_ascii() {
    assert_eq!(uppercase_file_name("/tmp/ärger.cur"), Some("äRGER.CUR".to_string()));
}

#[test]
fn uppercase_file_name_of_paths_without_a_name() {
    assert_eq!(uppercase_file_name("/"), None);
    assert_eq!(uppercase_file_name("/tmp/.."), None);
    assert_eq!(uppercase_file_name(""), None);
}

#[test]
fn contains_asset_matches_upper_cased_file_names() {
    let l = listing("/s", vec![file("/s/main.bmp"), dir("/s/MAIN.BMP.d")]);
    assert!(contains_asset(&l, "MAIN.BMP"));
    assert!(!contains_asset(&l, "main.bmp"));
    assert!(!contains_asset(&l, "TEXT.BMP"));
}

#[test]
fn contains_asset_ignores_folders() {
    let l = listing("/s", vec![dir("/s/main.bmp")]);
    assert!(!contains_asset(&l, "MAIN.BMP"));
    assert!(!contains_asset(&listing("/empty", vec![]), "MAIN.BMP"));
}

#[test]
fn imported_assets_are_the_files_in_order() {
    let l = listing("/s", vec![file("/s/main.bmp"), dir("/s/sub"), file("/s/Text.Bmp")]);
    let assets = read_imported_assets(&l);
    assert_eq!(
        assets,
        vec![
            SkinAsset { name: "MAIN.BMP".to_string(), path: Some("/s/main.bmp".to_string()) },
            SkinAsset { name: "TEXT.BMP".to_string(), path: Some("/s/Text.Bmp".to_string()) },
        ]
    );
}

#[test]
fn skin_root_prefers_the_folder_itself() {
    let s = scan(
        listing("/in/a", vec![file("/in/a/MAIN.BMP"), dir("/in/a/b")]),
        vec![listing("/in/a/b", vec![file("/in/a/b/MAIN.BMP")])],
    );
    assert_eq!(skin_root(&s).map(|l| l.path.clone()), Some("/in/a".to_string()));
}

#[test]
fn skin_root_takes_the_first_subfolder_with_main() {
    let s = scan(
        listing("/in/a", vec![dir("/in/a/x"), dir("/in/a/y"), dir("/in/a/z")]),
        vec![
            listing("/in/a/x", vec![file("/in/a/x/TEXT.BMP")]),
            listing("/in/a/y", vec![file("/in/a/y/main.bmp")]),
            listing("/in/a/z", vec![file("/in/a/z/MAIN.BMP")]),
        ],
    );
    assert_eq!(skin_root(&s).map(|l| l.path.clone()), Some("/in/a/y".to_string()));
}

#[test]
fn skin_root_of_a_folder_without_main() {
    let s = scan(
        listing("/in/a", vec![file("/in/a/TEXT.BMP"), dir("/in/a/x")]),
        vec![listing("/in/a/x", vec![])],
    );
    assert!(skin_root(&s).is_none());
}

#[test]
fn read_skin_info_of_a_skin_folder() {
    let s = skin_folder("/skins/green_machine-v2", &["main.bmp", "text.bmp"]);
    let info = read_skin_info(&s).expect("a skin");
    assert_eq!(info.id, "green_machine-v2");
    assert_eq!(info.name, "Green Machine V2");
    assert!(!info.bundled);
    assert_eq!(info.assets.len(), 2);
    assert_eq!(info.assets[1].name, "TEXT.BMP");
    assert_eq!(info.assets[1].path.as_deref(), Some("/skins/green_machine-v2/text.bmp"));
}

#[test]
fn read_skin_info_of_a_nested_skin_uses_the_inner_folder() {
    let s = scan(
        listing("/skins/outer", vec![dir("/skins/outer/inner_skin")]),
        vec![listing("/skins/outer/inner_skin", vec![file("/skins/outer/inner_skin/MAIN.BMP")])],
    );
    let info = read_skin_info(&s).expect("a skin");
    assert_eq!(info.id, "inner_skin");
    assert_eq!(info.name, "Inner Skin");
    assert_eq!(info.assets[0].path.as_deref(), Some("/skins/outer/inner_skin/MAIN.BMP"));
}

#[test]
fn read_skin_info_of_a_folder_that_is_no_skin() {
    let s = skin_folder("/skins/notes", &["readme.txt"]);
    assert_eq!(read_skin_info(&s), None);
}

#[test]
fn listed_skins_are_sorted_by_lowercased_name() {
    let scans = vec![
        skin_folder("/skins/zeta", &["MAIN.BMP"]),
        skin_folder("/skins/notes", &["readme.txt"]),
        skin_folder("/skins/alpha", &["MAIN.BMP"]),
        skin_folder("/skins/Beta", &["MAIN.BMP"]),
    ];
    let skins = list_skins_in_dir(&scans);
    let ids: Vec<&str> = skins.iter().map(|s| s.id.as_str()).collect();
    assert_eq!(ids, vec!["alpha", "Beta", "zeta"]);
}

#[test]
fn listing_keeps_the_order_of_equal_names() {
    let scans = vec![
        skin_folder("/a/Retro", &["MAIN.BMP", "ONE.BMP"]),
        skin_folder("/b/retro", &["MAIN.BMP"]),
        skin_folder("/c/RETRO", &["MAIN.BMP", "ONE.BMP", "TWO.BMP"]),
        skin_folder("/d/classic", &["MAIN.BMP"]),
    ];
    let skins: Vec<SkinInfo> = list_skins_in_dir(&scans);
    let summary: Vec<(&str, usize)> = skins.iter().map(|s| (s.id.as_str(), s.assets.len())).collect();
    assert_eq!(summary, vec![("classic", 1), ("Retro", 2), ("retro", 1), ("RETRO", 3)]);
}

#[test]
fn listing_orders_by_code_point_after_lowercasing() {
    let scans = vec![
        skin_folder("/s/Ärger", &["MAIN.BMP"]),
        skin_folder("/s/zulu", &["MAIN.BMP"]),
        skin_folder("/s/10-bit", &["MAIN.BMP"]),
        skin_folder("/s/b", &["MAIN.BMP"]),
        skin_folder("/s/ab", &["MAIN.BMP"]),
    ];
    let ids: Vec<String> = list_skins_in_dir(&scans).into_iter().map(|s| s.id).collect();
    assert_eq!(ids, vec!["10-bit", "ab", "b", "zulu", "Ärger"]);
}

#[test]
fn listing_of_nothing() {
    assert!(list_skins_in_dir(&vec![]).is_empty());
}
