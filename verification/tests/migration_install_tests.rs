use mod_manager::install::{
    check_archive_install, derive_name, install_mod_from_archive, install_mod_from_folder,
    install_parent, installed_result,
};
use mod_manager::migration::{
    build_ini_segment, build_ini_segment_from_src, empty_migration_result, get_layout_status,
    migrate_to_symlink_layout, migration_ini_path, plan_migration, record_mod_migration,
    tally_migration, MigrationStart, MigrationStepError,
};
use mod_manager::mods::{scan_mods, FolderInfo, ModDirSnapshot, TopFolder};

fn info(parent: &str, name: &str) -> FolderInfo {
    FolderInfo {
        name: name.to_string(),
        path: format!("{}/{}", parent, name),
        is_dir: true,
        is_symlink: false,
        file_names: vec!["mod.ini".to_string()],
        file_count: 1,
        size_bytes: 1,
        modified_at: None,
        link_present: false,
    }
}

fn legacy() -> ModDirSnapshot {
    ModDirSnapshot {
        mod_path: "/g/Mods".to_string(),
        exists: true,
        is_dir: true,
        managed_src_is_dir: false,
        top: Ok(vec![
            TopFolder {
                folder: info("/g/Mods", "Characters"),
                children: Ok(vec![info("/g/Mods/Characters", "Furina"), info("/g/Mods/Characters", "DISABLED_Nahida")]),
            },
            TopFolder { folder: info("/g/Mods", "Loose"), children: Ok(vec![]) },
        ]),
    }
}

#[test]
fn get_layout_status_reports_legacy_correctly() {
    let s = get_layout_status(&legacy()).unwrap();
    assert!(!s.is_symlink_layout);
    assert!(s.has_legacy_mods);
    assert_eq!(s.legacy_mod_count, 3);
    let mut migrated = legacy();
    migrated.managed_src_is_dir = true;
    let s = get_layout_status(&migrated).unwrap();
    assert!(s.is_symlink_layout);
    assert_eq!(s.legacy_mod_count, 0);
    let mut gone = legacy();
    gone.exists = false;
    assert_eq!(get_layout_status(&gone).unwrap_err(), "Mod directory does not exist: /g/Mods");
}

#[test]
fn migrate_already_migrated_is_no_op() {
    let mut migrated = legacy();
    migrated.managed_src_is_dir = true;
    assert!(matches!(migrate_to_symlink_layout(&migrated).unwrap(), MigrationStart::AlreadyMigrated));
    assert!(matches!(migrate_to_symlink_layout(&legacy()).unwrap(), MigrationStart::Proceed));
}

#[test]
fn migration_plans_moves_links_and_ini_keys() {
    let plans = plan_migration(&legacy()).unwrap();
    assert_eq!(plans.len(), 3);
    let furina = plans.iter().find(|p| p.key == "Characters/Furina").unwrap();
    assert_eq!(furina.dest, "/g/Mods/managed_src/Characters/Furina");
    assert_eq!(
        furina.link,
        Some(("/g/Mods/managed_tgt/Characters".to_string(), "/g/Mods/managed_tgt/Characters/Furina".to_string()))
    );
    assert_eq!(furina.old_segment, "\\mods\\Characters\\Furina\\");
    assert_eq!(furina.new_segment, "\\managed_src\\Characters\\Furina\\");
    let nahida = plans.iter().find(|p| p.key == "Characters/Nahida").unwrap();
    assert_eq!(nahida.dest, "/g/Mods/managed_src/Characters/Nahida");
    assert!(nahida.link.is_none());
    let loose = plans.iter().find(|p| p.key == "Uncategorized/Loose").unwrap();
    assert_eq!(loose.dest, "/g/Mods/managed_src/Loose");
    assert_eq!(loose.old_segment, "\\mods\\Loose\\");
    assert_eq!(migration_ini_path("/g/Mods"), Some("/g/d3dx_user.ini".to_string()));
}

#[test]
fn migration_outcomes_are_recorded() {
    let plans = plan_migration(&legacy()).unwrap();
    let mut result = empty_migration_result(Some("rp-1".to_string()));
    record_mod_migration(&mut result, &plans[0], &Ok(()));
    record_mod_migration(&mut result, &plans[1], &Err(MigrationStepError::DestinationExists));
    assert_eq!(result.migrated_count, 1);
    assert_eq!(result.skipped_count, 1);
    assert_eq!(result.entries.len(), 2);
    assert!(result.entries[0].success);
    assert_eq!(
        result.errors[0],
        format!("{}: destination already exists in managed_src, skipping", plans[1].key)
    );
    assert_eq!(result.restore_point_id, Some("rp-1".to_string()));
}

#[test]
fn migration_run_reports_every_mod_in_scan_order() {
    let plans = plan_migration(&legacy()).unwrap();
    let outcomes = vec![
        Ok(()),
        Err(MigrationStepError::Link("denied".to_string())),
        Err(MigrationStepError::SrcDir("full".to_string())),
    ];
    let result = tally_migration(&plans, &outcomes, None);
    assert_eq!(result.migrated_count, 1);
    assert_eq!(result.skipped_count, 2);
    assert_eq!(result.entries.len(), 3);
    for (entry, plan) in result.entries.iter().zip(plans.iter()) {
        assert_eq!(entry.key, plan.key);
        assert_eq!(entry.was_enabled, plan.was_enabled);
    }
    assert!(result.entries[0].success && result.entries[0].error.is_none());
    assert!(!result.entries[1].success);
    assert_eq!(
        result.errors,
        vec![format!("{}: denied", plans[1].key), format!("{}: failed to create src dir: full", plans[2].key)]
    );
    assert_eq!(result.entries[2].error, Some(result.errors[1].clone()));
    assert_eq!(result.restore_point_id, None);
}

#[test]
fn migration_of_nothing_reports_nothing() {
    let result = tally_migration(&vec![], &vec![], Some("rp".to_string()));
    assert_eq!((result.migrated_count, result.skipped_count), (0, 0));
    assert!(result.errors.is_empty() && result.entries.is_empty());
    assert_eq!(result.restore_point_id, Some("rp".to_string()));
    let empty = empty_migration_result(None);
    assert_eq!((empty.migrated_count, empty.skipped_count), (0, 0));
    assert!(empty.errors.is_empty() && empty.entries.is_empty() && empty.restore_point_id.is_none());
}

#[test]
fn ini_segments() {
    assert_eq!(build_ini_segment("Uncategorized", "Foo"), "\\mods\\Foo\\");
    assert_eq!(build_ini_segment("Cat", "Foo"), "\\mods\\Cat\\Foo\\");
    assert_eq!(build_ini_segment_from_src("/elsewhere/C/N", "/g/Mods"), "\\mods\\managed_src\\C\\N\\");
}

#[test]
fn install_from_folder_into_legacy_layout_with_category() {
    let plan = install_mod_from_folder("/src/Furina", true, true, "/root", false, "Characters", "", &vec![])
        .expect("install should succeed");
    assert_eq!(plan.dest, "/root/Characters/Furina");
    assert_eq!(plan.category, "Characters");
    assert!(plan.link.is_none());
    let res = installed_result(&plan, &info("/root/Characters", "Furina"), false).unwrap();
    assert_eq!(res.mod_info.category, "Characters");
    assert_eq!(res.mod_info.name, "Furina");
    assert!(res.mod_info.enabled);
    assert!(!res.mod_info.using_symlink_layout);
    assert_eq!(res.installed_path, "/root/Characters/Furina");
}

#[test]
fn install_from_folder_uncategorized_when_category_blank() {
    let plan = install_mod_from_folder("/src/Nahida", true, true, "/root", false, "", "", &vec![]).unwrap();
    assert_eq!(plan.dest, "/root/Nahida");
    assert_eq!(plan.category, "Uncategorized");
}

#[test]
fn install_from_folder_uses_name_override() {
    let plan = install_mod_from_folder("/src/furina_v3", true, true, "/root", false, "Characters", "Nicer Display Name", &vec![])
        .unwrap();
    assert_eq!(plan.dest, "/root/Characters/Nicer Display Name");
}

#[test]
fn install_from_folder_rejects_duplicate_name_and_bad_sources() {
    let err = install_mod_from_folder("/src/Furina", true, true, "/root", false, "Characters", "", &vec!["Furina".to_string()])
        .unwrap_err();
    assert_eq!(err, "A mod named 'Furina' already exists in 'Characters'. Choose a different name.");
    let err = install_mod_from_folder("/src/Furina", true, true, "/root", false, "", "", &vec!["Furina".to_string()])
        .unwrap_err();
    assert_eq!(err, "A mod named 'Furina' already exists. Choose a different name.");
    assert_eq!(
        install_mod_from_folder("/src/x", false, false, "/root", false, "", "", &vec![]).unwrap_err(),
        "Source folder does not exist: /src/x"
    );
    assert_eq!(
        install_mod_from_folder("/src/x", true, false, "/root", false, "", "", &vec![]).unwrap_err(),
        "Source path is not a folder: /src/x"
    );
}

#[test]
fn install_from_folder_into_symlink_layout_creates_inplace_symlink() {
    assert_eq!(install_parent("/root", true, "Characters"), "/root/managed_src/Characters");
    let plan = install_mod_from_folder("/src/Furina", true, true, "/root", true, "Characters", "", &vec![]).unwrap();
    assert_eq!(plan.dest, "/root/managed_src/Characters/Furina");
    assert_eq!(
        plan.link,
        Some(("/root/Characters".to_string(), "/root/Characters/Furina".to_string()))
    );
    let res = installed_result(&plan, &info("/root/managed_src/Characters", "Furina"), true).unwrap();
    assert!(res.mod_info.using_symlink_layout);
    assert!(res.mod_info.enabled);
    assert!(res.installed_path.contains("managed_src"));
}

#[test]
fn install_from_archive_rejects_unsupported_extension() {
    let err = check_archive_install("/dl/thing.exe", true, "/data").unwrap_err();
    assert!(err.contains("Unsupported archive format"));
    assert_eq!(err, "Unsupported archive format \".exe\" — only .zip, .7z, and .rar are supported.");
    assert_eq!(
        check_archive_install("/dl/x.zip", false, "/data").unwrap_err(),
        "Archive does not exist: /dl/x.zip"
    );
}

#[test]
fn archive_install_names_and_staging() {
    // "ab.zip": 6 bytes * 31 + ('a' + 'b' + '.' + 'z' + 'i' + 'p') = 186 + 97+98+46+122+105+112 = 766 = 0x2fe
    assert_eq!(check_archive_install("ab.zip", true, "/data").unwrap(), "/data/install_staging/2fe");
    let plan = install_mod_from_archive("/dl/Furina_v2.zip", "/root", false, "", "", &vec![]).unwrap();
    assert_eq!(plan.name, "Furina_v2");
    let plan = install_mod_from_archive("/dl/.hidden", "/root", false, "", "", &vec![]).unwrap();
    assert_eq!(plan.name, "hidden");
    assert_eq!(derive_name("/src/a:b", ""), "a b");
}

#[test]
fn migrated_mods_keep_keys_and_states() {
    let before = scan_mods(&legacy()).unwrap();
    let plans = plan_migration(&legacy()).unwrap();
    let moved = |dest: &str| plans.iter().find(|p| p.dest == dest).unwrap();
    let kid = |parent: &str, name: &str| {
        let mut f = info(parent, name);
        f.link_present = moved(&f.path).link.is_some();
        f
    };
    let src = "/g/Mods/managed_src";
    let mut loose = info(src, "Loose");
    loose.link_present = moved(&loose.path).link.is_some();
    let after_dir = ModDirSnapshot {
        mod_path: "/g/Mods".to_string(),
        exists: true,
        is_dir: true,
        managed_src_is_dir: true,
        top: Ok(vec![
            TopFolder {
                folder: info(src, "Characters"),
                children: Ok(vec![kid("/g/Mods/managed_src/Characters", "Furina"), kid("/g/Mods/managed_src/Characters", "Nahida")]),
            },
            TopFolder { folder: loose, children: Ok(vec![]) },
        ]),
    };
    let after = scan_mods(&after_dir).unwrap();
    assert_eq!(after.len(), before.len());
    for m in &before {
        let n = after.iter().find(|a| a.key == m.key).expect("the key survives the move");
        assert_eq!(n.enabled, m.enabled, "{}", m.key);
        assert!(n.using_symlink_layout);
    }
}
