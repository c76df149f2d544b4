use mod_manager::downloads::{
    after_stage, archive_kind, archive_path, cancel, extension, file_name, installed_mod_key,
    list, mark_interrupted, plan_placement, placement_parent, preview_file_name, progress_tick,
    queue, queue_item, remove, resolve_conflict, retry, safe_relative_path, sanitize_component,
    single_wrapper, staging_dir, start_next, unique_sibling_path, update_item, ArchiveKind,
    CancelOutcome, ConflictPlan, ConflictResolution, DirEntryInfo, DownloadItem, DownloadStatus,
    ItemChange, Placement, StageOutcome, INTERRUPTED_MESSAGE,
};

#[test]
fn sanitize_component_strips_illegal_characters() {
    assert_eq!(sanitize_component("Furina: Outfit / v2"), "Furina Outfit v2");
    assert_eq!(sanitize_component("   "), "mod");
    assert_eq!(sanitize_component("Normal Name"), "Normal Name");
}

#[test]
fn sanitize_component_collapses_whitespace() {
    assert_eq!(sanitize_component("Too   Many   Spaces"), "Too Many Spaces");
}

#[test]
fn sanitized_names_are_single_spaced() {
    let r = sanitize_component("\t a\u{3000}\n\u{7}b|  c ");
    assert_eq!(r, "a b c");
    assert!(!r.starts_with(' '));
    assert!(!r.contains("  "));
    assert_eq!(sanitize_component("/:*?\t\u{1}\u{2028}<>|"), "mod");
    let long = format!("{} b", "a".repeat(119));
    let cut = sanitize_component(&long);
    assert_eq!(cut.chars().count(), 120);
    assert!(cut.chars().all(|c| !c.is_whitespace() || c == ' '));
}

#[test]
fn sanitize_component_trims_dots_and_caps_length() {
    assert_eq!(sanitize_component("..hidden.."), "hidden");
    assert_eq!(sanitize_component(" . name . "), "name");
    assert_eq!(sanitize_component("a\tb\u{7}c"), "a b c");
    assert_eq!(sanitize_component("..."), "mod");
    let long: String = "x".repeat(200);
    assert_eq!(sanitize_component(&long), "x".repeat(120));
    assert_eq!(sanitize_component("<>:\"|?*"), "mod");
}

#[test]
fn safe_relative_path_rejects_traversal_and_absolute_entries() {
    assert_eq!(safe_relative_path("../../etc/evil.txt"), None);
    assert_eq!(safe_relative_path("/etc/evil.txt"), None);
    assert_eq!(safe_relative_path("a/../../b"), None);
}

#[test]
fn safe_relative_path_normalizes_safe_entries() {
    assert_eq!(safe_relative_path("Furina/preview.png"), Some("Furina/preview.png".to_string()));
    assert_eq!(safe_relative_path("./mod.ini"), Some("mod.ini".to_string()));
}

#[test]
fn safe_relative_path_drops_empty_and_dot_segments() {
    assert_eq!(safe_relative_path("a//./b/"), Some("a/b".to_string()));
    assert_eq!(safe_relative_path("."), None);
    assert_eq!(safe_relative_path(""), None);
}

#[test]
fn extensions_follow_path_rules() {
    assert_eq!(extension("mod.zip"), Some("zip".to_string()));
    assert_eq!(extension("dir/archive.tar.gz"), Some("gz".to_string()));
    assert_eq!(extension(".hidden"), None);
    assert_eq!(extension("noext"), None);
    assert_eq!(extension("trailing."), Some("".to_string()));
    assert_eq!(file_name("a/b/"), Some("b".to_string()));
    assert_eq!(file_name("a/.."), None);
}

#[test]
fn unique_sibling_path_finds_a_free_name() {
    let existing = vec!["Furina".to_string(), "Furina (2)".to_string()];
    assert_eq!(unique_sibling_path("/mods/Furina", &existing), "/mods/Furina (3)");
    assert_eq!(unique_sibling_path("/mods/Nahida", &existing), "/mods/Nahida (2)");
    assert_eq!(unique_sibling_path("Nahida", &vec![]), "Nahida (2)");
}

fn item(id: &str, status: DownloadStatus, created_at: u64) -> DownloadItem {
    DownloadItem {
        id: id.to_string(),
        game_id: "genshin-impact".to_string(),
        mod_id: 1,
        mod_name: "Furina Outfit".to_string(),
        file_id: 2,
        file_name: "furina.zip".to_string(),
        download_url: "https://example/dl/2".to_string(),
        total_bytes: 100,
        downloaded_bytes: 40,
        category_hint: Some("Furina".to_string()),
        preview_image_url: None,
        mod_path: "/mods".to_string(),
        status,
        created_at,
        updated_at: created_at,
    }
}

#[test]
fn queue_rejects_unsupported_archives() {
    let mut items = Vec::new();
    let err = queue_item(
        &mut items,
        "id".to_string(),
        5,
        "g".to_string(),
        "/mods".to_string(),
        1,
        "M".to_string(),
        2,
        "thing.exe".to_string(),
        "u".to_string(),
        10,
        None,
        None,
    )
    .unwrap_err();
    assert_eq!(
        err,
        "Unsupported archive format \".exe\" — only .zip, .7z, and .rar can be auto-installed. Download it from the GameBanana page and extract it manually."
    );
    assert!(items.is_empty());
}

#[test]
fn queue_accepts_archives_in_any_case_and_drops_blank_hints() {
    let mut items = Vec::new();
    let it = queue_item(
        &mut items,
        "id-1".to_string(),
        7,
        "g".to_string(),
        "/mods".to_string(),
        1,
        "M".to_string(),
        2,
        "Thing.RAR".to_string(),
        "u".to_string(),
        10,
        Some("   ".to_string()),
        None,
    )
    .unwrap();
    assert_eq!(it.status, DownloadStatus::Queued);
    assert_eq!(it.category_hint, None);
    assert_eq!(it.downloaded_bytes, 0);
    assert_eq!(it.created_at, 7);
    assert_eq!(items.len(), 1);

    let it2 = queue(
        &mut items,
        9,
        "g".to_string(),
        "/mods".to_string(),
        1,
        "M".to_string(),
        2,
        "a.7z".to_string(),
        "u".to_string(),
        10,
        Some("Furina".to_string()),
        None,
    )
    .unwrap();
    assert_eq!(it2.id.len(), 36);
    assert_eq!(it2.created_at, 9);
    assert_eq!(it2.category_hint, Some("Furina".to_string()));
    assert_eq!(items.len(), 2);
}

#[test]
fn list_is_newest_first() {
    let items = vec![
        item("a", DownloadStatus::Queued, 1),
        item("b", DownloadStatus::Queued, 3),
        item("c", DownloadStatus::Queued, 2),
        item("d", DownloadStatus::Queued, 3),
    ];
    let ids: Vec<String> = list(&items).into_iter().map(|d| d.id).collect();
    assert_eq!(ids, vec!["b", "d", "c", "a"]);
}

#[test]
fn remove_refuses_active_and_unknown_items() {
    let mut items = vec![
        item("a", DownloadStatus::Downloading, 1),
        item("b", DownloadStatus::Completed { installed_path: "/x".to_string() }, 2),
    ];
    assert_eq!(remove(&mut items, "a").unwrap_err(), "Cancel this download before removing it");
    assert_eq!(remove(&mut items, "zzz").unwrap_err(), "Download 'zzz' not found");
    assert!(remove(&mut items, "b").is_ok());
    assert_eq!(items.len(), 1);
    assert_eq!(items[0].id, "a");
}

#[test]
fn cancel_depends_on_status() {
    let mut items = vec![
        item("q", DownloadStatus::Queued, 1),
        item("x", DownloadStatus::Extracting, 2),
        item("f", DownloadStatus::Failed { message: "boom".to_string() }, 3),
    ];
    match cancel(&mut items, "q", 99).unwrap() {
        CancelOutcome::Cancelled(it) => {
            assert_eq!(it.status, DownloadStatus::Cancelled);
            assert_eq!(it.updated_at, 99);
        }
        CancelOutcome::Flagged => panic!("queued item should be cancelled at once"),
    }
    assert_eq!(items[0].status, DownloadStatus::Cancelled);
    assert!(matches!(cancel(&mut items, "x", 100).unwrap(), CancelOutcome::Flagged));
    assert_eq!(items[1].status, DownloadStatus::Extracting);
    assert_eq!(
        cancel(&mut items, "f", 100).unwrap_err(),
        "This download isn't in a cancellable state"
    );
}

#[test]
fn retry_requeues_failed_and_cancelled_only() {
    let mut items = vec![
        item("f", DownloadStatus::Failed { message: "boom".to_string() }, 3),
        item("d", DownloadStatus::Downloading, 4),
    ];
    let it = retry(&mut items, "f", 50).unwrap();
    assert_eq!(it.status, DownloadStatus::Queued);
    assert_eq!(it.downloaded_bytes, 0);
    assert_eq!(it.updated_at, 50);
    assert_eq!(
        retry(&mut items, "d", 50).unwrap_err(),
        "Only failed or cancelled downloads can be retried"
    );
}

#[test]
fn start_next_takes_the_oldest_queued_item() {
    let mut items = vec![
        item("a", DownloadStatus::Completed { installed_path: "/x".to_string() }, 1),
        item("b", DownloadStatus::Queued, 5),
        item("c", DownloadStatus::Queued, 3),
        item("d", DownloadStatus::Queued, 3),
    ];
    let started = start_next(&mut items, 9).unwrap();
    assert_eq!(started.id, "c");
    assert_eq!(items[2].status, DownloadStatus::Downloading);
    assert_eq!(items[2].updated_at, 9);
    let mut none: Vec<DownloadItem> = vec![item("z", DownloadStatus::Cancelled, 1)];
    assert!(start_next(&mut none, 9).is_none());
}

#[test]
fn restart_marks_in_flight_items_failed() {
    let mut items = vec![
        item("a", DownloadStatus::Downloading, 1),
        item("b", DownloadStatus::Queued, 2),
        item("c", DownloadStatus::WaitingForConflict { existing_path: "/p".to_string() }, 3),
    ];
    let ids = mark_interrupted(&mut items, 77);
    assert_eq!(ids, vec!["a".to_string(), "c".to_string()]);
    assert_eq!(items[0].status, DownloadStatus::Failed { message: INTERRUPTED_MESSAGE.to_string() });
    assert_eq!(items[1].status, DownloadStatus::Queued);
    assert_eq!(items[2].updated_at, 77);
}

#[test]
fn update_item_records_progress() {
    let mut items = vec![item("a", DownloadStatus::Downloading, 1)];
    let it = update_item(
        &mut items,
        "a",
        ItemChange::Progress { downloaded_bytes: 70, total_bytes: 200 },
        8,
    )
    .unwrap();
    assert_eq!(it.downloaded_bytes, 70);
    assert_eq!(items[0].total_bytes, 200);
    assert!(update_item(&mut items, "nope", ItemChange::Requeue, 8).is_none());
}

#[test]
fn staging_layout() {
    assert_eq!(staging_dir("/data", "abc"), "/data/download_staging/abc");
    assert_eq!(archive_path("/data", "abc", "x.7z"), "/data/download_staging/abc/archive.7z");
    assert_eq!(archive_path("/data", "abc", "x"), "/data/download_staging/abc/archive.bin");
}

#[test]
fn placement_uses_sanitized_category_and_name() {
    let it = item("a", DownloadStatus::Installing, 1);
    assert_eq!(placement_parent(&it), "/mods/Furina");
    match plan_placement(&it, &vec!["Other".to_string()]) {
        Placement::Clear(d) => assert_eq!(d, "/mods/Furina/Furina Outfit"),
        Placement::Conflict(_) => panic!("destination is free"),
    }
    match plan_placement(&it, &vec!["Furina Outfit".to_string()]) {
        Placement::Conflict(d) => assert_eq!(d, "/mods/Furina/Furina Outfit"),
        Placement::Clear(_) => panic!("destination is taken"),
    }
}

#[test]
fn conflict_resolution_paths() {
    let mut items = vec![item(
        "a",
        DownloadStatus::WaitingForConflict { existing_path: "/mods/Furina/Outfit".to_string() },
        1,
    )];
    let siblings = vec!["Outfit".to_string(), "Outfit (2)".to_string()];
    match resolve_conflict(&mut items, "a", ConflictResolution::Rename, &siblings, 5).unwrap() {
        ConflictPlan::Install { dest, overwrite, .. } => {
            assert_eq!(dest, "/mods/Furina/Outfit (3)");
            assert!(!overwrite);
        }
        ConflictPlan::Cancelled(_) => panic!("rename installs"),
    }
    match resolve_conflict(&mut items, "a", ConflictResolution::Overwrite, &siblings, 5).unwrap() {
        ConflictPlan::Install { dest, overwrite, .. } => {
            assert_eq!(dest, "/mods/Furina/Outfit");
            assert!(overwrite);
        }
        ConflictPlan::Cancelled(_) => panic!("overwrite installs"),
    }
    match resolve_conflict(&mut items, "a", ConflictResolution::Cancel, &siblings, 5).unwrap() {
        ConflictPlan::Cancelled(it) => assert_eq!(it.status, DownloadStatus::Cancelled),
        ConflictPlan::Install { .. } => panic!("cancel cancels"),
    }
    assert_eq!(
        resolve_conflict(&mut items, "a", ConflictResolution::Cancel, &siblings, 5).unwrap_err(),
        "This download has no conflict to resolve"
    );
}

#[test]
fn finishing_an_install() {
    let it = item("a", DownloadStatus::Installing, 1);
    assert_eq!(installed_mod_key(&it, "/mods/Furina/Furina Outfit"), "Furina/Furina Outfit");
    let mut plain = item("b", DownloadStatus::Installing, 1);
    plain.category_hint = None;
    assert_eq!(installed_mod_key(&plain, "/mods/X"), "Uncategorized/X");
    assert_eq!(preview_file_name("https://img/a/220-90_abc.JPG"), "preview.JPG");
    assert_eq!(preview_file_name("https://img/a/abc.gif"), "preview.jpg");
    assert_eq!(preview_file_name("https://img/a/abc"), "preview.jpg");
}

#[test]
fn archive_kinds() {
    assert_eq!(archive_kind("/s/archive.ZIP").unwrap(), ArchiveKind::Zip);
    assert_eq!(archive_kind("/s/archive.7z").unwrap(), ArchiveKind::SevenZ);
    assert_eq!(archive_kind("/s/archive.rar").unwrap(), ArchiveKind::Rar);
    assert_eq!(archive_kind("/s/archive.bin").unwrap_err(), "Unsupported archive format: .bin");
}

#[test]
fn stage_outcomes() {
    assert!(matches!(after_stage(Ok(()), false), StageOutcome::Continue));
    assert!(matches!(after_stage(Ok(()), true), StageOutcome::Cancel));
    match after_stage(Err("net".to_string()), true) {
        StageOutcome::Fail(m) => assert_eq!(m, "net"),
        _ => panic!("a failed step fails"),
    }
    let t = progress_tick(100, 28, 250, 10);
    assert_eq!(t.downloaded, 128);
    assert!(t.emit);
    assert!(!t.persist);
}

#[test]
fn content_root_descends_only_through_a_single_visible_folder() {
    let one = vec![
        DirEntryInfo { name: ".DS_Store".to_string(), is_dir: false },
        DirEntryInfo { name: "Inner".to_string(), is_dir: true },
    ];
    assert_eq!(single_wrapper(&one), Some("Inner".to_string()));
    let two = vec![
        DirEntryInfo { name: "Outer".to_string(), is_dir: true },
        DirEntryInfo { name: "readme.txt".to_string(), is_dir: false },
    ];
    assert_eq!(single_wrapper(&two), None);
    let file = vec![DirEntryInfo { name: "mod.ini".to_string(), is_dir: false }];
    assert_eq!(single_wrapper(&file), None);
}
