use mod_manager::ini::LineEdit;
use mod_manager::ini_files::{
    count_changed_lines, edit_ini_text, group_hash_edits, is_mod_ini, next_backup_path,
    read_mod_inis, relative_path_of, tally_hash_updates, HashEdit, HashFileOutcome,
};

const SAMPLE: &str = "\
; Furina mod by someone
[Constants]
global persist $swapvar = 0

[KeySwap]
condition = $active == 1
key = VK_DOWN
back = VK_UP
type = cycle
$swapvar = 0,1,2

[TextureOverrideFurinaBody]
hash = 1a2b3c4d
run = CommandListFurinaBody
";

fn names(v: &[&str]) -> Vec<String> {
    v.iter().map(|s| s.to_string()).collect()
}

#[test]
fn read_mod_inis_errors_on_missing_folder() {
    assert!(read_mod_inis("/definitely/not/here/mod-manager-ini", false, &Vec::new()).is_err());
}

#[test]
fn missing_folder_message_names_the_folder() {
    let err = read_mod_inis("/nope", false, &Vec::new()).unwrap_err();
    assert_eq!(err, "Mod folder does not exist: /nope");
}

#[test]
fn mod_ini_names_skip_loader_files() {
    assert!(is_mod_ini("mod.ini"));
    assert!(is_mod_ini("Extra.INI"));
    assert!(!is_mod_ini("d3dx.ini"));
    assert!(!is_mod_ini("D3DX_User.ini"));
    assert!(!is_mod_ini("readme.txt"));
    assert!(!is_mod_ini("ini"));
}

#[test]
fn first_backup_is_plain_bak() {
    assert_eq!(next_backup_path("/m/mod.ini", &names(&["mod.ini"])), "/m/mod.ini.bak");
}

#[test]
fn later_backups_never_clobber_earlier_ones() {
    let existing = names(&["mod.ini", "mod.ini.bak"]);
    assert_eq!(next_backup_path("/m/mod.ini", &existing), "/m/mod.ini.bak.2");
    let existing = names(&["mod.ini", "mod.ini.bak", "mod.ini.bak.2"]);
    assert_eq!(next_backup_path("/m/mod.ini", &existing), "/m/mod.ini.bak.3");
    // A gap is reused: only names already present are avoided.
    let existing = names(&["mod.ini.bak", "mod.ini.bak.3"]);
    assert_eq!(next_backup_path("/m/mod.ini", &existing), "/m/mod.ini.bak.2");
}

#[test]
fn editing_a_hash_gives_new_text() {
    let idx = SAMPLE.lines().position(|l| l.starts_with("hash")).unwrap();
    let out = edit_ini_text(SAMPLE, &[LineEdit { line_index: idx, new_value: "cafef00d".into() }]);
    assert!(out.errors.is_empty());
    let text = out.new_text.expect("the text changed");
    assert!(text.contains("hash = cafef00d"));
    assert_eq!(text, SAMPLE.replace("hash = 1a2b3c4d", "hash = cafef00d"));
}

#[test]
fn no_op_edit_gives_no_text_to_write() {
    let idx = SAMPLE.lines().position(|l| l.starts_with("hash")).unwrap();
    let out = edit_ini_text(SAMPLE, &[LineEdit { line_index: idx, new_value: "1a2b3c4d".into() }]);
    assert!(out.errors.is_empty());
    assert!(out.new_text.is_none());
}

#[test]
fn failed_edits_give_errors_and_no_text() {
    let out = edit_ini_text(SAMPLE, &[LineEdit { line_index: 9999, new_value: "x".into() }]);
    assert_eq!(out.errors, vec!["Line 9999 is out of range".to_string()]);
    assert!(out.new_text.is_none());
}

#[test]
fn edits_are_grouped_by_file_in_path_order() {
    let edits = vec![
        HashEdit { ini_path: "/m/b.ini".into(), line_index: 1, new_value: "2222".into() },
        HashEdit { ini_path: "/m/a.ini".into(), line_index: 1, new_value: "1111".into() },
        HashEdit { ini_path: "/m/b.ini".into(), line_index: 4, new_value: "3333".into() },
    ];
    let groups = group_hash_edits(&edits);
    assert_eq!(groups.len(), 2);
    assert_eq!(groups[0].0, "/m/a.ini");
    assert_eq!(groups[0].1.len(), 1);
    assert_eq!(groups[0].1[0].new_value, "1111");
    assert_eq!(groups[1].0, "/m/b.ini");
    assert_eq!(groups[1].1.len(), 2);
    assert_eq!(groups[1].1[0].line_index, 1);
    assert_eq!(groups[1].1[1].line_index, 4);
    assert_eq!(groups[1].1[1].new_value, "3333");
}

#[test]
fn changed_lines_are_counted_position_by_position() {
    assert_eq!(count_changed_lines("a\nb\nc\n", "a\nx\nc\n"), 1);
    assert_eq!(count_changed_lines("a\r\nb", "a\nb"), 0);
    assert_eq!(count_changed_lines("a\nb\nc", "x\ny"), 2);
    assert_eq!(count_changed_lines("same", "same"), 0);
}

#[test]
fn tally_counts_written_files_changes_and_errors() {
    let edits = vec![
        HashEdit { ini_path: "/m/a.ini".into(), line_index: 1, new_value: "1111".into() },
        HashEdit { ini_path: "/m/b.ini".into(), line_index: 1, new_value: "2222".into() },
        HashEdit { ini_path: "/m/c.ini".into(), line_index: 7, new_value: "3333".into() },
    ];
    let groups = group_hash_edits(&edits);
    let outcomes = vec![
        HashFileOutcome::Applied {
            errors: Vec::new(),
            before: Some("[A]\nhash = aaaa\n".into()),
            after: Some("[A]\nhash = 1111\n".into()),
        },
        HashFileOutcome::Applied {
            errors: Vec::new(),
            before: Some("[B]\nhash = bbbb\n".into()),
            after: Some("[B]\nhash = 2222\n".into()),
        },
        HashFileOutcome::Failed { message: "Failed to read".into() },
    ];
    let result = tally_hash_updates(&groups, &outcomes);
    assert_eq!(result.files_written, 2);
    assert_eq!(result.hashes_changed, 2);
    assert_eq!(result.errors, vec!["/m/c.ini: Failed to read".to_string()]);
}

#[test]
fn unchanged_file_is_not_counted_as_written() {
    let edits = vec![HashEdit { ini_path: "/m/a.ini".into(), line_index: 9, new_value: "1".into() }];
    let groups = group_hash_edits(&edits);
    let outcomes = vec![HashFileOutcome::Applied {
        errors: vec!["Line 9 is out of range".into()],
        before: Some("[A]\n".into()),
        after: Some("[A]\n".into()),
    }];
    let result = tally_hash_updates(&groups, &outcomes);
    assert_eq!(result.files_written, 0);
    assert_eq!(result.hashes_changed, 0);
    assert_eq!(result.errors, vec!["Line 9 is out of range".to_string()]);
}

#[test]
fn relative_paths_use_forward_slashes() {
    assert_eq!(relative_path_of("/mods/x", "/mods/x/sub/extra.ini"), "sub/extra.ini");
    assert_eq!(relative_path_of("/mods/x/", "/mods/x/mod.ini"), "mod.ini");
    assert_eq!(relative_path_of("/mods/x", "/other/a\\b.ini"), "/other/a/b.ini");
}

#[test]
fn listing_skips_unreadable_and_content_free_files() {
    let files = vec![
        ("/m/mod.ini".to_string(), Some(SAMPLE.to_string())),
        ("/m/sub/extra.ini".to_string(), Some("[TextureOverrideX]\nhash = ffff\n".to_string())),
        ("/m/notes.ini".to_string(), Some("; just a note\n[Info]\nauthor = someone\n".to_string())),
        ("/m/broken.ini".to_string(), None),
    ];
    let list = read_mod_inis("/m", true, &files).unwrap();
    let rel: Vec<&str> = list.iter().map(|f| f.relative_path.as_str()).collect();
    assert_eq!(rel, vec!["mod.ini", "sub/extra.ini"]);
    assert_eq!(list[0].keybinds.len(), 1);
    assert_eq!(list[0].hashes.len(), 1);
    assert_eq!(list[1].hashes[0].value, "ffff");
    assert_eq!(list[0].path, "/m/mod.ini");
}
