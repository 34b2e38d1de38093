use spotiamp::import::{
    check_imported_skin, import_base_id, import_copies, locate_import_root, FileCopy,
};
use spotiamp::skins::{contains_asset, FolderEntry, FolderListing, FolderScan};

fn file(path: &str) -> FolderEntry {
    FolderEntry { path: path.to_string(), is_file: true, is_dir: false }
}

fn dir(path: &str) -> FolderEntry {
    FolderEntry { path: path.to_string(), is_file: false, is_dir: true }
}

fn listing(path: &str, entries: Vec<FolderEntry>) -> FolderListing {
    FolderListing { path: path.to_string(), entries }
}

#[test]
fn importing_something_that_is_no_folder() {
    let scan = FolderScan { folder: listing("/tmp/x.zip", vec![]), subfolders: vec![] };
    assert_eq!(
        locate_import_root(false, &scan).err(),
        Some("Please choose an extracted Winamp skin folder".to_string())
    );
}

#[test]
fn importing_a_folder_without_main_bmp() {
    let scan = FolderScan {
        folder: listing("/tmp/x", vec![file("/tmp/x/TEXT.BMP"), dir("/tmp/x/y")]),
        subfolders: vec![listing("/tmp/x/y", vec![file("/tmp/x/y/readme")])],
    };
    assert_eq!(
        locate_import_root(true, &scan).err(),
        Some("That folder does not look like a Winamp skin: MAIN.BMP was not found".to_string())
    );
}

#[test]
fn importing_finds_the_nested_skin_folder() {
    let scan = FolderScan {
        folder: listing("/tmp/Cool Skin", vec![dir("/tmp/Cool Skin/inner")]),
        subfolders: vec![listing("/tmp/Cool Skin/inner", vec![file("/tmp/Cool Skin/inner/main.bmp")])],
    };
    let root = locate_import_root(true, &scan).expect("a skin");
    assert_eq!(root.path, "/tmp/Cool Skin/inner");
}

#[test]
fn import_base_id_is_the_slug_of_the_folder_name() {
    assert_eq!(import_base_id(&listing("/downloads/Green Machine (v2)", vec![])), "green-machine-v2");
    assert_eq!(import_base_id(&listing("/downloads/Retro", vec![])), "retro");
}

#[test]
fn import_base_id_of_a_nameless_root() {
    assert_eq!(import_base_id(&listing("/", vec![])), "skin");
    assert_eq!(import_base_id(&listing("/downloads/!!!", vec![])), "skin");
}

#[test]
fn import_copies_the_files_under_upper_cased_names() {
    let root = listing(
        "/tmp/retro",
        vec![file("/tmp/retro/main.bmp"), dir("/tmp/retro/extra"), file("/tmp/retro/Text.Bmp")],
    );
    let copies = import_copies(&root, "/data/skins/retro");
    assert_eq!(
        copies,
        vec![
            FileCopy { from: "/tmp/retro/main.bmp".to_string(), to: "/data/skins/retro/MAIN.BMP".to_string() },
            FileCopy { from: "/tmp/retro/Text.Bmp".to_string(), to: "/data/skins/retro/TEXT.BMP".to_string() },
        ]
    );
    let copied = listing("/data/skins/retro", copies.iter().map(|c| file(&c.to)).collect());
    assert!(contains_asset(&copied, "MAIN.BMP"));
}

#[test]
fn imported_skin_is_checked() {
    let missing = Err("That folder does not include the core Winamp skin bitmaps".to_string());
    assert_eq!(check_imported_skin(3, true), Ok(()));
    assert_eq!(check_imported_skin(0, true), missing);
    assert_eq!(check_imported_skin(0, false), missing);
    assert_eq!(check_imported_skin(5, false), missing);
}
