use mod_manager::mods::{display_name, strip_disabled_prefix};

#[test]
fn strips_disabled_prefix_case_insensitively() {
    assert_eq!(strip_disabled_prefix("disabled_Foo"), "Foo");
    assert_eq!(strip_disabled_prefix("DISABLED_Foo"), "Foo");
    assert_eq!(strip_disabled_prefix("Foo"), "Foo");
}

#[test]
fn strip_disabled_prefix_safe_with_multibyte_utf8() {
    // '丨' is a 3-byte UTF-8 character; stripping must work on characters.
    let name = "丨丨丨some_mod";
    assert_eq!(strip_disabled_prefix(name), name);
    assert_eq!(strip_disabled_prefix("丨"), "丨");
}

#[test]
fn display_name_replaces_separators() {
    assert_eq!(display_name("Foo_Bar-Baz"), "Foo Bar Baz");
    assert_eq!(display_name("DISABLED_Foo_Bar"), "Foo Bar");
}

use mod_manager::mods::{
    batch_delete_mods, batch_set_enabled, delete_mod, find_mod_path_from_src, find_preview,
    has_preview_image, is_inside_managed_src, migrate_d3dx_ini_keys, needs_key_migration,
    scan_mods, set_mod_enabled, toggle_link_path, toggled_mod_info, DeleteFacts, FolderInfo,
    ModDirSnapshot, ToggleAction, ToggleFacts, TopFolder,
};

fn missing(path: &str) -> ModDirSnapshot {
    ModDirSnapshot {
        mod_path: path.to_string(),
        exists: false,
        is_dir: false,
        managed_src_is_dir: false,
        top: Ok(vec![]),
    }
}

#[test]
fn errors_on_missing_directory() {
    assert!(scan_mods(&missing("/definitely/does/not/exist/mod-manager-test")).is_err());
}

fn entry(parent: &str, name: &str, link_present: bool) -> FolderInfo {
    FolderInfo {
        name: name.to_string(),
        path: format!("{}/{}", parent, name),
        is_dir: true,
        is_symlink: false,
        file_names: vec!["mod.ini".to_string(), "preview.png".to_string()],
        file_count: 2,
        size_bytes: 9,
        modified_at: Some(1),
        link_present,
    }
}

#[test]
fn scans_categorized_and_uncategorized_mods() {
    let snapshot = ModDirSnapshot {
        mod_path: "/m".to_string(),
        exists: true,
        is_dir: true,
        managed_src_is_dir: false,
        top: Ok(vec![
            TopFolder {
                folder: entry("/m", "Characters", false),
                children: Ok(vec![entry("/m/Characters", "Furina", false), entry("/m/Characters", "DISABLED_ayaka", false)]),
            },
            TopFolder { folder: entry("/m", "Loose_Mod", false), children: Ok(vec![]) },
            TopFolder { folder: entry("/m", ".git", false), children: Ok(vec![]) },
        ]),
    };
    let mods = scan_mods(&snapshot).unwrap();
    let names: Vec<&str> = mods.iter().map(|m| m.name.as_str()).collect();
    assert_eq!(names, vec!["ayaka", "Furina", "Loose Mod"]);
    assert!(!mods[0].enabled);
    assert_eq!(mods[0].key, "Characters/ayaka");
    assert_eq!(mods[2].category, "Uncategorized");
    assert_eq!(mods[1].preview_path, Some("/m/Characters/Furina/preview.png".to_string()));
}

fn facts(entries: &[&str]) -> ToggleFacts {
    ToggleFacts {
        path_exists: true,
        parent_entries: entries.iter().map(|s| s.to_string()).collect(),
        link_present: false,
    }
}

#[test]
fn legacy_toggle_renames_with_prefix() {
    let plan = set_mod_enabled("/games/Mods/Characters/Furina", "Characters", false, &facts(&["Furina"]))
        .unwrap();
    match &plan.action {
        ToggleAction::Rename { from, to } => {
            assert_eq!(from, "/games/Mods/Characters/Furina");
            assert_eq!(to, "/games/Mods/Characters/DISABLED_Furina");
        }
        _ => panic!("a legacy toggle renames"),
    }
    let ini = plan.ini_move.as_ref().unwrap();
    assert_eq!(ini.ini_path, "/games/Mods/d3dx_user.ini");
    assert_eq!(ini.backup_path, "/games/Mods/d3dx_user.ini.bak");
    assert_eq!(ini.old_segment, "\\mods\\characters\\furina\\");
    assert_eq!(ini.new_segment, "\\mods\\characters\\disabled_furina\\");
    let info = toggled_mod_info(&plan, "Characters", &entry("/games/Mods/Characters", "DISABLED_Furina", false))
        .unwrap();
    assert!(!info.enabled);
    assert_eq!(info.key, "Characters/Furina");

    let back = set_mod_enabled("/games/Mods/Characters/DISABLED_Furina", "Characters", true, &facts(&[]))
        .unwrap();
    match &back.action {
        ToggleAction::Rename { to, .. } => assert_eq!(to, "/games/Mods/Characters/Furina"),
        _ => panic!("enabling renames back"),
    }
}

#[test]
fn legacy_toggle_errors_and_no_ops() {
    let err = set_mod_enabled("/m/Furina", "Uncategorized", false, &facts(&["DISABLED_Furina"]))
        .unwrap_err();
    assert_eq!(err, "Cannot disable 'Furina': a folder named 'DISABLED_Furina' already exists");
    let keep = set_mod_enabled("/m/Furina", "Uncategorized", true, &facts(&[])).unwrap();
    assert!(matches!(keep.action, ToggleAction::Keep));
    let mut gone = facts(&[]);
    gone.path_exists = false;
    assert_eq!(
        set_mod_enabled("/m/Furina", "Uncategorized", true, &gone).unwrap_err(),
        "Mod folder does not exist: /m/Furina"
    );
    let hidden = toggled_mod_info(&keep, "Uncategorized", &entry("/m", ".hidden", false));
    assert_eq!(hidden.unwrap_err(), "Failed to read mod info");
}

#[test]
fn symlink_toggle_creates_and_removes_links() {
    let path = "/games/Mods/managed_src/Characters/Furina";
    assert!(is_inside_managed_src(path));
    assert_eq!(find_mod_path_from_src(path), Some("/games/Mods".to_string()));
    assert_eq!(
        toggle_link_path(path, "Characters").unwrap(),
        "/games/Mods/managed_tgt/Characters/Furina"
    );
    assert_eq!(
        toggle_link_path("/games/Mods/managed_src/Loose", "Uncategorized").unwrap(),
        "/games/Mods/managed_tgt/Loose"
    );
    let plan = set_mod_enabled(path, "Characters", true, &facts(&[])).unwrap();
    match &plan.action {
        ToggleAction::CreateLink { target, link } => {
            assert_eq!(target, path);
            assert_eq!(link, "/games/Mods/managed_tgt/Characters/Furina");
        }
        _ => panic!("enabling creates the link"),
    }
    let info = toggled_mod_info(&plan, "Characters", &entry("/games/Mods/managed_src/Characters", "Furina", false))
        .unwrap();
    assert!(info.enabled);
    assert!(info.using_symlink_layout);
    let mut present = facts(&[]);
    present.link_present = true;
    let off = set_mod_enabled(path, "Characters", false, &present).unwrap();
    assert!(matches!(off.action, ToggleAction::RemoveLink { .. }));
    let same = set_mod_enabled(path, "Characters", true, &present).unwrap();
    assert!(matches!(same.action, ToggleAction::Keep));
}

#[test]
fn batch_results_are_partitioned() {
    let r = batch_delete_mods(vec![Ok("A/x".to_string()), Err("e1".to_string()), Ok("B/y".to_string())]);
    assert_eq!(r.deleted_keys, vec!["A/x".to_string(), "B/y".to_string()]);
    assert_eq!(r.errors, vec!["e1".to_string()]);
    let t = batch_set_enabled(vec![Err("no".to_string())]);
    assert!(t.updated.is_empty());
    assert_eq!(t.errors, vec!["no".to_string()]);
}

fn delete_facts(cm: &str, cr: &str) -> DeleteFacts {
    DeleteFacts {
        canonical_path: Ok(cm.to_string()),
        canonical_root: Ok(cr.to_string()),
        exists: true,
        is_dir: true,
    }
}

#[test]
fn delete_mod_refuses_path_outside_mod_root() {
    let err = delete_mod("/elsewhere/Furina", "/mods", &delete_facts("/elsewhere/Furina", "/mods"))
        .unwrap_err();
    assert_eq!(err, "Refusing to delete: path is outside the configured mod directory");
    let err = delete_mod("/mods2/Furina", "/mods", &delete_facts("/mods2/Furina", "/mods")).unwrap_err();
    assert_eq!(err, "Refusing to delete: path is outside the configured mod directory");
}

#[test]
fn delete_mod_computes_the_key() {
    let plan = delete_mod(
        "/mods/Character_Skins/DISABLED_Furina",
        "/mods",
        &delete_facts("/mods/Character_Skins/DISABLED_Furina", "/mods"),
    )
    .unwrap();
    assert_eq!(plan.key, "Character Skins/Furina");
    assert!(plan.link.is_none());
    let top = delete_mod("/mods/Loose", "/mods/", &delete_facts("/mods/Loose", "/mods")).unwrap();
    assert_eq!(top.key, "Uncategorized/Loose");
    let sym = delete_mod(
        "/mods/managed_src/Characters/Furina",
        "/mods",
        &delete_facts("/x", "/y"),
    )
    .unwrap();
    assert_eq!(sym.key, "Characters/Furina");
    assert_eq!(sym.link, Some("/mods/managed_tgt/Characters/Furina".to_string()));
}

#[test]
fn d3dx_key_migration_rewrites_matching_lines() {
    let data = "[Constants]\r\n$\\Mods\\Characters\\Furina\\ = 1\nx = \\mods\\characters\\furina\\\n$\\mods\\characters\\furina\\x = 2\n";
    let (text, changed) = migrate_d3dx_ini_keys(
        data,
        "\\mods\\characters\\furina\\",
        "\\mods\\characters\\disabled_furina\\",
    );
    assert_eq!(changed, 2);
    assert_eq!(
        text,
        "[Constants]\n$\\mods\\characters\\disabled_furina\\ = 1\nx = \\mods\\characters\\furina\\\n$\\mods\\characters\\disabled_furina\\x = 2"
    );
    assert!(!needs_key_migration("a", "a"));
    assert!(needs_key_migration("a", "b"));
}

#[test]
fn d3dx_key_migration_ignores_letter_case() {
    let (text, changed) = migrate_d3dx_ini_keys(
        "$\\Mods\\Characters\\Furina\\ = 1\n",
        "\\mods\\characters\\furina\\",
        "\\mods\\characters\\disabled_furina\\",
    );
    assert_eq!(changed, 1);
    assert_eq!(text, "$\\mods\\characters\\disabled_furina\\ = 1");
}

#[test]
fn d3dx_key_migration_replaces_every_mention_in_a_line() {
    let (text, changed) = migrate_d3dx_ini_keys("$A\\x\\a = b", "a", "Q");
    assert_eq!(changed, 1);
    assert_eq!(text, "$Q\\x\\Q = b");
    let (same, none) = migrate_d3dx_ini_keys("x = a\n$b = c", "a", "Q");
    assert_eq!(none, 0);
    assert_eq!(same, "x = a\n$b = c");
}

#[test]
fn preview_images_are_found_by_name() {
    let files = vec!["mod.ini".to_string(), "thumbnail.jpg".to_string(), "preview.webp".to_string()];
    assert_eq!(find_preview("/m/F", &files), Some("/m/F/preview.webp".to_string()));
    assert!(has_preview_image(&files));
    assert!(!has_preview_image(&vec!["mod.ini".to_string()]));
}

#[test]
fn symlink_toggles_keep_the_mod_path() {
    let path = "/games/Mods/managed_src/Skins/Kiana";
    let on = set_mod_enabled(path, "Skins", true, &facts(&[])).unwrap();
    assert_eq!(on.info_path, path);
    let made = match &on.action {
        ToggleAction::CreateLink { link, .. } => link.clone(),
        _ => panic!("enabling creates the link"),
    };
    let mut present = facts(&[]);
    present.link_present = true;
    let off = set_mod_enabled(path, "Skins", false, &present).unwrap();
    assert_eq!(off.info_path, path);
    match &off.action {
        ToggleAction::RemoveLink { link } => assert_eq!(link, &made),
        _ => panic!("disabling removes the link"),
    }
}
