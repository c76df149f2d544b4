use mod_manager::hotkeys::HotkeyRegistry;
use mod_manager::state::{get_game_config, resolve_mod_path, set_game_path, AppState, Settings};

#[test]
fn default_settings_list_the_supported_games() {
    let s = Settings::default();
    assert_eq!(s.active_game, "wuthering-waves");
    let ids: Vec<&str> = s.games.iter().map(|g| g.id.as_str()).collect();
    assert_eq!(
        ids,
        vec!["wuthering-waves", "genshin-impact", "zenless-zone-zero", "honkai-star-rail", "arknights-endfield"]
    );
    assert!(s.games.iter().all(|g| g.mod_path.is_none() && g.enabled));
    assert!(s.nsfw_filter);
    assert!(s.auto_reload);
    assert_eq!(s.theme, "dark");
}

#[test]
fn app_state_falls_back_to_defaults() {
    let st = AppState::new(None);
    assert_eq!(st.settings.games.len(), 5);
    let mut custom = Settings::default();
    custom.theme = "light".to_string();
    let st = AppState::new(Some(custom));
    assert_eq!(st.settings.theme, "light");
}

#[test]
fn folders_of_the_app() {
    assert_eq!(AppState::config_dir_in(Some("/home/u/.config".to_string())), "/home/u/.config/mod-manager");
    assert_eq!(AppState::config_dir_in(None), "~/.config/mod-manager");
    assert_eq!(AppState::data_dir_in(None), "~/.local/share/mod-manager");
    assert_eq!(AppState::settings_path("/c/mod-manager"), "/c/mod-manager/settings.json");
    assert!(AppState::config_dir().ends_with("mod-manager"));
}

#[test]
fn game_paths_are_set_and_resolved() {
    let mut s = Settings::default();
    assert_eq!(
        resolve_mod_path(&s, "genshin-impact").unwrap_err(),
        "No mod directory configured for this game"
    );
    assert_eq!(resolve_mod_path(&s, "nope").unwrap_err(), "Game 'nope' not found");
    set_game_path(&mut s, "genshin-impact", "/games/gi/Mods".to_string()).unwrap();
    assert_eq!(resolve_mod_path(&s, "genshin-impact").unwrap(), "/games/gi/Mods");
    assert_eq!(
        get_game_config(&s, "genshin-impact").unwrap().mod_path,
        Some("/games/gi/Mods".to_string())
    );
    assert!(set_game_path(&mut s, "nope", "/x".to_string()).is_err());
}

#[test]
fn hotkey_registry_replaces_and_forgets_bindings() {
    let mut r = HotkeyRegistry::new();
    assert_eq!(r.unbind("p1"), None);
    r.bind("p1", "CommandOrControl+Alt+1");
    r.bind("p2", "CommandOrControl+Alt+2");
    r.bind("p1", "CommandOrControl+Alt+9");
    assert_eq!(r.shortcut_for("p1"), Some("CommandOrControl+Alt+9".to_string()));
    assert_eq!(r.unbind("p1"), Some("CommandOrControl+Alt+9".to_string()));
    assert_eq!(r.shortcut_for("p1"), None);
    assert_eq!(r.shortcut_for("p2"), Some("CommandOrControl+Alt+2".to_string()));
}
