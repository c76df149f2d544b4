use mod_manager::mods::{FolderInfo, ModDirSnapshot, TopFolder};
use mod_manager::restore_points::{
    backup_dir, commit_restore_point, create_restore_point, delete_restore_point,
    list_restore_points, manifest_path, restore, sanitize_key, tally_restore, RestoreAction,
    RestorePoint,
};

fn folder(parent: &str, name: &str, children: Vec<FolderInfo>) -> TopFolder {
    TopFolder { folder: info(parent, name), children: Ok(children) }
}

fn info(parent: &str, name: &str) -> FolderInfo {
    FolderInfo {
        name: name.to_string(),
        path: format!("{}/{}", parent, name),
        is_dir: true,
        is_symlink: false,
        file_names: vec!["mod.ini".to_string()],
        file_count: 1,
        size_bytes: 13,
        modified_at: Some(5),
        link_present: false,
    }
}

/// `/mods/Characters/<mods>` in the legacy layout.
fn characters(mods: &[&str]) -> ModDirSnapshot {
    let kids = mods.iter().map(|m| info("/mods/Characters", m)).collect();
    ModDirSnapshot {
        mod_path: "/mods".to_string(),
        exists: true,
        is_dir: true,
        managed_src_is_dir: false,
        top: Ok(vec![folder("/mods", "Characters", kids)]),
    }
}

fn take(points: &mut Vec<RestorePoint>, dir: &ModDirSnapshot, backup: bool, now: u64) -> RestorePoint {
    let draft = create_restore_point(points, dir, "Snapshot", backup, now).unwrap();
    let sizes = vec![13u64; draft.copies.len()];
    commit_restore_point(points, draft, &sizes)
}

#[test]
fn create_and_list_state_only_restore_point() {
    let mut points = Vec::new();
    let point = take(&mut points, &characters(&["Furina"]), false, 10);
    assert!(!point.has_file_backup);
    assert_eq!(point.backup_size_bytes, 0);
    assert_eq!(point.mods.len(), 1);
    assert_eq!(point.mods[0].key, "Characters/Furina");
    assert!(point.mods[0].enabled);
    assert_eq!(point.id, "10-0");
    let listed = list_restore_points(points);
    assert_eq!(listed.len(), 1);
    assert_eq!(listed[0].id, point.id);
}

#[test]
fn file_backup_copies_every_mod() {
    let mut points = Vec::new();
    let draft = create_restore_point(&points, &characters(&["Furina", "DISABLED_Nahida"]), "B", true, 3)
        .unwrap();
    assert_eq!(draft.copies.len(), 2);
    assert_eq!(draft.copies[0].dest_name, "Characters__Furina");
    let point = commit_restore_point(&mut points, draft, &vec![100, 20]);
    assert!(point.has_file_backup);
    assert_eq!(point.backup_size_bytes, 120);
}

#[test]
fn restore_reapplies_enabled_state_without_file_backup() {
    let mut points = Vec::new();
    let point = take(&mut points, &characters(&["Furina", "DISABLED_Nahida"]), false, 1);
    let now = characters(&["DISABLED_Furina", "Nahida"]);
    let plan = restore(&points, &point.id, &now, "/backups/p", &vec![]).unwrap();
    assert_eq!(plan.len(), 2);
    let result = tally_restore(&plan, &vec![Ok(()), Ok(())]);
    assert_eq!(result.enabled_count, 1);
    assert_eq!(result.disabled_count, 1);
    assert_eq!(result.recreated_count, 0);
    assert!(result.unrecoverable.is_empty());
    assert!(result.errors.is_empty());
}

#[test]
fn restore_without_backup_reports_deleted_mod_as_unrecoverable() {
    let mut points = Vec::new();
    let point = take(&mut points, &characters(&["Furina"]), false, 1);
    let plan = restore(&points, &point.id, &characters(&[]), "/backups/p", &vec![]).unwrap();
    let result = tally_restore(&plan, &vec![Ok(())]);
    assert_eq!(result.recreated_count, 0);
    assert_eq!(result.unrecoverable, vec!["Characters/Furina".to_string()]);
}

#[test]
fn restore_with_file_backup_recreates_a_deleted_mod() {
    let mut points = Vec::new();
    let point = take(&mut points, &characters(&["Furina"]), true, 1);
    let plan = restore(
        &points,
        &point.id,
        &characters(&[]),
        "/backups/p",
        &vec!["Characters__Furina".to_string()],
    )
    .unwrap();
    match &plan[0] {
        RestoreAction::Recreate { source, dest, link, .. } => {
            assert_eq!(source, "/backups/p/Characters__Furina");
            assert_eq!(dest, "/mods/Characters/Furina");
            assert!(link.is_none());
        }
        other => panic!("expected a recreate step, got {:?}", other),
    }
    let result = tally_restore(&plan, &vec![Ok(())]);
    assert_eq!(result.recreated_count, 1);
    assert!(result.unrecoverable.is_empty());
    assert!(result.errors.is_empty());
}

#[test]
fn restore_never_touches_mods_added_after_the_snapshot() {
    let mut points = Vec::new();
    let point = take(&mut points, &characters(&["Furina"]), false, 1);
    let later = characters(&["Furina", "Nahida"]);
    let plan = restore(&points, &point.id, &later, "/backups/p", &vec![]).unwrap();
    assert!(plan.is_empty());
}

#[test]
fn delete_restore_point_removes_manifest_entry() {
    let mut points = Vec::new();
    let point = take(&mut points, &characters(&["Furina"]), true, 1);
    delete_restore_point(&mut points, &point.id).unwrap();
    assert!(list_restore_points(points).is_empty());
}

#[test]
fn operations_on_missing_restore_point_error() {
    let mut points: Vec<RestorePoint> = Vec::new();
    assert_eq!(
        delete_restore_point(&mut points, "does-not-exist").unwrap_err(),
        "Restore point 'does-not-exist' not found"
    );
    assert!(restore(&points, "does-not-exist", &characters(&[]), "/b", &vec![]).is_err());
}

#[test]
fn storage_locations() {
    assert_eq!(sanitize_key("Characters/Furina"), "Characters__Furina");
    assert_eq!(manifest_path("/cfg", "g"), "/cfg/restore_points/g.json");
    assert_eq!(backup_dir("/data", "g", "1-0"), "/data/restore_backups/g/1-0");
}

#[test]
fn restoring_the_state_just_recorded_plans_nothing() {
    let dir = characters(&["Furina", "DISABLED_Nahida"]);
    let mut points = Vec::new();
    let point = take(&mut points, &dir, true, 10);
    let plan = restore(&points, &point.id, &dir, "/backup", &vec![]).unwrap();
    assert!(plan.is_empty());
}
