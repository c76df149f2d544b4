use mod_manager::gamebanana::{ModDetail, ModFileInfo};
use mod_manager::update_tracking::{
    get_origins, link_mod, origins_path, unlink_mod, update_for, ModOrigin,
};

#[test]
fn get_origins_returns_empty_for_unknown_game() {
    let loaded: Vec<(String, ModOrigin)> = Vec::new();
    assert!(get_origins(&loaded).is_empty());
}

#[test]
fn link_and_get_origin() {
    let mut table = Vec::new();
    link_mod(&mut table, "Characters/Furina", 703813, 1783188, Some("1.2".to_string()), 5);
    let origins = get_origins(&table);
    assert_eq!(origins.len(), 1);
    assert_eq!(origins[0].mod_key, "Characters/Furina");
    assert_eq!(origins[0].gb_mod_id, 703813);
    assert_eq!(origins[0].installed_file_id, 1783188);
    assert_eq!(origins[0].installed_version, Some("1.2".to_string()));
}

#[test]
fn link_overwrites_existing_origin() {
    let mut table = Vec::new();
    link_mod(&mut table, "A", 1, 10, None, 5);
    link_mod(&mut table, "B", 2, 20, None, 5);
    link_mod(&mut table, "A", 1, 11, None, 6);
    let origins = get_origins(&table);
    assert_eq!(origins.len(), 2);
    let a = origins.iter().find(|o| o.mod_key == "A").unwrap();
    assert_eq!(a.installed_file_id, 11);
    assert_eq!(a.installed_at, 6);
}

#[test]
fn unlink_removes_origin() {
    let mut table = Vec::new();
    link_mod(&mut table, "A", 1, 10, None, 5);
    link_mod(&mut table, "B", 2, 20, None, 5);
    unlink_mod(&mut table, "A");
    let origins = get_origins(&table);
    assert_eq!(origins.len(), 1);
    assert_eq!(origins[0].mod_key, "B");
    unlink_mod(&mut table, "missing");
    assert_eq!(get_origins(&table).len(), 1);
}

fn file(id: u64, archived: bool) -> ModFileInfo {
    ModFileInfo {
        id,
        file_name: format!("f{}.zip", id),
        filesize_bytes: 10,
        date_added: None,
        download_url: format!("https://dl/{}", id),
        md5_checksum: None,
        version: Some(format!("v{}", id)),
        description: None,
        is_archived: archived,
        av_result: None,
    }
}

fn detail(files: Vec<ModFileInfo>) -> ModDetail {
    ModDetail {
        id: 1,
        name: "Furina".to_string(),
        profile_url: "https://gb/1".to_string(),
        description_html: None,
        images: vec![],
        submitter_name: None,
        submitter_avatar_url: None,
        category: None,
        files,
    }
}

#[test]
fn updates_come_from_the_newest_unarchived_file() {
    let origin = ModOrigin {
        mod_key: "Characters/Furina".to_string(),
        gb_mod_id: 1,
        installed_file_id: 5,
        installed_version: Some("v5".to_string()),
        installed_at: 0,
    };
    let u = update_for(&origin, &detail(vec![file(9, true), file(7, false), file(5, false)])).unwrap();
    assert_eq!(u.latest_file_id, 7);
    assert_eq!(u.latest_version, Some("v7".to_string()));
    assert_eq!(u.latest_download_url, "https://dl/7");
    assert_eq!(u.mod_name, "Furina");
    assert!(update_for(&origin, &detail(vec![file(5, false), file(3, false)])).is_none());
    assert!(update_for(&origin, &detail(vec![file(9, true)])).is_none());
    assert_eq!(origins_path("/cfg", "g"), "/cfg/origins/g.json");
}
