use mod_manager::mods::{FolderInfo, ModDirSnapshot, TopFolder};
use mod_manager::presets::{
    apply_preset, delete_preset, list_all_presets_with_hotkeys, list_presets, presets_path,
    rename_preset, save_preset, set_preset_hotkey, tally_preset, Preset,
};

fn folder(parent: &str, name: &str) -> FolderInfo {
    FolderInfo {
        name: name.to_string(),
        path: format!("{}/{}", parent, name),
        is_dir: true,
        is_symlink: false,
        file_names: vec!["mod.ini".to_string()],
        file_count: 1,
        size_bytes: 4,
        modified_at: None,
        link_present: false,
    }
}

/// A legacy mod folder holding the given top-level mod folders.
fn legacy_dir(root: &str, names: &[&str]) -> ModDirSnapshot {
    let top = names
        .iter()
        .map(|n| TopFolder {
            folder: folder(root, n),
            children: Ok(vec![]),
        })
        .collect();
    ModDirSnapshot {
        mod_path: root.to_string(),
        exists: true,
        is_dir: true,
        managed_src_is_dir: false,
        top: Ok(top),
    }
}

#[test]
fn save_and_list_presets() {
    let dir = legacy_dir("/mods", &["Furina", "DISABLED_Nahida"]);
    let mut presets = Vec::new();
    let preset = save_preset(&mut presets, &dir, "My Preset", 1700).expect("save should succeed");
    assert_eq!(preset.name, "My Preset");
    assert_eq!(preset.enabled_keys, vec!["Uncategorized/Furina".to_string()]);
    let listed = list_presets(presets);
    assert_eq!(listed.len(), 1);
    assert_eq!(listed[0].id, preset.id);
}

#[test]
fn preset_ids_count_the_existing_presets() {
    let dir = legacy_dir("/mods", &["Furina"]);
    let mut presets = Vec::new();
    let a = save_preset(&mut presets, &dir, "A", 1700).unwrap();
    let b = save_preset(&mut presets, &dir, "b", 1700).unwrap();
    assert_eq!(a.id, "1700-0");
    assert_eq!(b.id, "1700-1");
    assert_eq!(b.created_at, 1700);
    assert_eq!(b.hotkey, None);
}

#[test]
fn presets_list_by_lowercased_name() {
    let p = |id: &str, name: &str| Preset {
        id: id.to_string(),
        name: name.to_string(),
        enabled_keys: vec![],
        created_at: 0,
        hotkey: None,
    };
    let listed = list_presets(vec![p("1", "beta"), p("2", "Alpha"), p("3", "alpha")]);
    let ids: Vec<&str> = listed.iter().map(|x| x.id.as_str()).collect();
    assert_eq!(ids, vec!["2", "3", "1"]);
}

#[test]
fn apply_preset_toggles_mods_to_match_saved_state() {
    let before = legacy_dir("/mods", &["Furina", "DISABLED_Nahida"]);
    let mut presets = Vec::new();
    let preset = save_preset(&mut presets, &before, "Preset A", 1700).unwrap();
    let flipped = legacy_dir("/mods", &["DISABLED_Furina", "Nahida"]);
    let plan = apply_preset(&presets, &preset.id, &flipped).expect("apply should succeed");
    assert_eq!(plan.len(), 2);
    let furina = plan.iter().find(|t| t.name == "Furina").unwrap();
    assert!(furina.enable);
    assert_eq!(furina.path, "/mods/DISABLED_Furina");
    let nahida = plan.iter().find(|t| t.name == "Nahida").unwrap();
    assert!(!nahida.enable);
    let result = tally_preset(&plan, &vec![Ok(()), Ok(())]);
    assert_eq!(result.enabled_count, 1);
    assert_eq!(result.disabled_count, 1);
    assert!(result.errors.is_empty());
    let failed = tally_preset(&plan, &vec![Ok(()), Err("busy".to_string())]);
    assert_eq!(failed.errors.len(), 1);
    assert!(failed.errors[0].ends_with(": busy"));
}

#[test]
fn applying_to_an_unchanged_folder_switches_nothing() {
    let dir = legacy_dir("/mods", &["Furina", "DISABLED_Nahida"]);
    let mut presets = Vec::new();
    let preset = save_preset(&mut presets, &dir, "Same", 1700).unwrap();
    assert!(apply_preset(&presets, &preset.id, &dir).unwrap().is_empty());
}

#[test]
fn delete_and_rename_preset() {
    let dir = legacy_dir("/mods", &["Furina"]);
    let mut presets = Vec::new();
    let preset = save_preset(&mut presets, &dir, "Original", 1700).unwrap();
    let renamed = rename_preset(&mut presets, &preset.id, "Renamed").expect("rename should succeed");
    assert_eq!(renamed.name, "Renamed");
    delete_preset(&mut presets, &preset.id).expect("delete should succeed");
    assert!(list_presets(presets).is_empty());
}

#[test]
fn set_and_clear_hotkey() {
    let dir = legacy_dir("/mods", &["Furina"]);
    let mut presets = Vec::new();
    let preset = save_preset(&mut presets, &dir, "Preset", 1700).unwrap();
    let with_hotkey =
        set_preset_hotkey(&mut presets, &preset.id, Some("CommandOrControl+Alt+1".to_string()))
            .expect("set hotkey should succeed");
    assert_eq!(with_hotkey.hotkey, Some("CommandOrControl+Alt+1".to_string()));
    let all = list_all_presets_with_hotkeys(&vec![
        ("genshin-impact".to_string(), Ok(presets.iter().map(|p| p.duplicate()).collect())),
        ("broken".to_string(), Err("bad json".to_string())),
    ]);
    assert_eq!(all.len(), 1);
    assert_eq!(all[0].0, "genshin-impact");
    let cleared = set_preset_hotkey(&mut presets, &preset.id, None).expect("clear should succeed");
    assert_eq!(cleared.hotkey, None);
}

#[test]
fn operations_on_missing_preset_error() {
    let mut presets: Vec<Preset> = Vec::new();
    assert_eq!(
        delete_preset(&mut presets, "does-not-exist").unwrap_err(),
        "Preset 'does-not-exist' not found"
    );
    assert!(rename_preset(&mut presets, "does-not-exist", "New Name").is_err());
    let dir = legacy_dir("/mods", &["Furina"]);
    assert!(apply_preset(&presets, "does-not-exist", &dir).is_err());
}

#[test]
fn preset_file_location() {
    assert_eq!(presets_path("/cfg", "genshin-impact"), "/cfg/presets/genshin-impact.json");
}
