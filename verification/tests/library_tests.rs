use spotiamp::library::{
    build_skin_library, ensure_skin_installed, get_resource_project_skins_dir,
    get_source_project_skins_dir, list_project_skins, skins_dir_in, SkinLibrary,
};
use spotiamp::skins::{bundled_skin, SkinAsset, SkinInfo, DEFAULT_SKIN_ID};

fn skin(id: &str, name: &str, assets: usize) -> SkinInfo {
    SkinInfo {
        id: id.to_string(),
        name: name.to_string(),
        bundled: false,
        assets: (0..assets)
            .map(|i| SkinAsset { name: format!("F{i}.BMP"), path: Some(format!("/{id}/F{i}.BMP")) })
            .collect(),
    }
}

fn ids(lib: &SkinLibrary) -> Vec<&str> {
    lib.skins.iter().map(|s| s.id.as_str()).collect()
}

#[test]
fn library_starts_with_the_bundled_skin() {
    let lib = build_skin_library("/data/skins".to_string(), vec![], vec![], "base-2.91".to_string());
    assert_eq!(lib.skins, vec![bundled_skin()]);
    assert_eq!(lib.current_skin_id, "base-2.91");
    assert_eq!(lib.skins_dir, "/data/skins");
}

#[test]
fn library_keeps_the_first_skin_of_each_id() {
    let installed = vec![skin("retro", "Retro", 1), skin("neon", "Neon", 2)];
    let project = vec![skin("retro", "Retro", 5), skin("base-2.91", "Fake", 0), skin("mono", "Mono", 1)];
    let lib = build_skin_library("/d".to_string(), installed, project, "mono".to_string());
    assert_eq!(ids(&lib), vec!["base-2.91", "retro", "neon", "mono"]);
    assert_eq!(lib.skins[1].assets.len(), 1);
    assert!(lib.skins[0].bundled);
    assert_eq!(lib.current_skin_id, "mono");
}

#[test]
fn library_falls_back_to_the_bundled_skin() {
    let lib = build_skin_library("/d".to_string(), vec![skin("retro", "Retro", 1)], vec![], "gone".to_string());
    assert_eq!(lib.current_skin_id, DEFAULT_SKIN_ID);
}

#[test]
fn library_ids_are_unique_and_current_is_listed() {
    let installed = vec![skin("a", "A", 0), skin("a", "A", 0), skin("b", "B", 0)];
    let project = vec![skin("b", "B", 0), skin("c", "C", 0)];
    for current in ["a", "c", "zzz", ""] {
        let lib = build_skin_library("/d".to_string(), installed.clone(), project.clone(), current.to_string());
        let mut seen = ids(&lib);
        seen.sort();
        seen.dedup();
        assert_eq!(seen.len(), lib.skins.len());
        assert!(lib.skins.iter().any(|s| s.id == lib.current_skin_id));
    }
}

#[test]
fn chosen_installed_skin_becomes_current() {
    let installed = vec![skin("retro", "Retro", 1)];
    let before = build_skin_library("/d".to_string(), installed.clone(), vec![], "base-2.91".to_string());
    assert_eq!(ensure_skin_installed(&before, "retro"), Ok(()));
    let after = build_skin_library("/d".to_string(), installed, vec![], "retro".to_string());
    assert_eq!(after.current_skin_id, "retro");
    assert_eq!(after.skins, before.skins);
}

#[test]
fn choosing_a_missing_skin_is_refused() {
    let lib = build_skin_library("/d".to_string(), vec![skin("retro", "Retro", 1)], vec![], "retro".to_string());
    assert_eq!(ensure_skin_installed(&lib, "base-2.91"), Ok(()));
    assert_eq!(
        ensure_skin_installed(&lib, "neon"),
        Err("Skin 'neon' is not installed".to_string())
    );
}

#[test]
fn project_skins_dir_is_beside_the_source_folder() {
    assert_eq!(
        get_source_project_skins_dir("/home/me/spotiamp/src-tauri"),
        Some("/home/me/spotiamp/skins".to_string())
    );
    assert_eq!(get_source_project_skins_dir("/"), None);
}

#[test]
fn skins_folders_are_named_skins() {
    assert_eq!(skins_dir_in("/home/me/.local/share/spotiamp"), "/home/me/.local/share/spotiamp/skins");
    assert_eq!(get_resource_project_skins_dir(Some("/opt/spotiamp".to_string())), Some("/opt/spotiamp/skins".to_string()));
    assert_eq!(get_resource_project_skins_dir(None), None);
}

#[test]
fn project_skins_list_source_skins_first() {
    let all = list_project_skins(vec![skin("b", "B", 0), skin("a", "A", 0)], vec![skin("c", "C", 1)]);
    let ids: Vec<&str> = all.iter().map(|s| s.id.as_str()).collect();
    assert_eq!(ids, vec!["b", "a", "c"]);
    assert!(list_project_skins(vec![], vec![]).is_empty());
}
