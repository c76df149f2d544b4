//! Application settings: the supported games, where each keeps its mods,
//! and a few preferences; plus where the app keeps its files.

use vstd::prelude::*;
use crate::ini::opt_view;
use crate::paths::{join, join_path};
use crate::text::{append_str, chars_eq, chars_of, lit, string_of};

verus! {

#[derive(Debug)]
pub struct GameConfig {
    pub id: String,
    pub name: String,
    /// The folder the game's mod loader reads, once configured.
    pub mod_path: Option<String>,
    pub enabled: bool,
}

pub struct GameModel {
    pub id: Seq<char>,
    pub name: Seq<char>,
    pub mod_path: Option<Seq<char>>,
    pub enabled: bool,
}

impl View for GameConfig {
    type V = GameModel;

    open spec fn view(&self) -> GameModel {
        GameModel {
            id: self.id@,
            name: self.name@,
            mod_path: opt_view(self.mod_path),
            enabled: self.enabled,
        }
    }
}

impl GameConfig {
    pub fn duplicate(&self) -> (r: GameConfig)
        ensures
            r == *self,
    {
        GameConfig {
            id: self.id.clone(),
            name: self.name.clone(),
            mod_path: match &self.mod_path {
                Some(p) => Some(p.clone()),
                None => None,
            },
            enabled: self.enabled,
        }
    }
}

#[derive(Debug)]
pub struct Settings {
    pub active_game: String,
    pub games: Vec<GameConfig>,
    pub nsfw_filter: bool,
    pub auto_reload: bool,
    pub theme: String,
}

pub struct SettingsModel {
    pub active_game: Seq<char>,
    pub games: Seq<GameModel>,
    pub nsfw_filter: bool,
    pub auto_reload: bool,
    pub theme: Seq<char>,
}

pub open spec fn games_view(s: Seq<GameConfig>) -> Seq<GameModel> {
    s.map_values(|g: GameConfig| g@)
}

impl View for Settings {
    type V = SettingsModel;

    open spec fn view(&self) -> SettingsModel {
        SettingsModel {
            active_game: self.active_game@,
            games: games_view(self.games@),
            nsfw_filter: self.nsfw_filter,
            auto_reload: self.auto_reload,
            theme: self.theme@,
        }
    }
}

pub open spec fn new_game(id: Seq<char>, name: Seq<char>) -> GameModel {
    GameModel { id, name, mod_path: None, enabled: true }
}

/// The settings of a fresh install: the five supported games, none with a
/// mod folder yet, Wuthering Waves active, the NSFW filter and automatic
/// reload on, the dark theme.
pub open spec fn default_settings() -> SettingsModel {
    SettingsModel {
        active_game: "wuthering-waves"@,
        games: seq![
            new_game("wuthering-waves"@, "Wuthering Waves"@),
            new_game("genshin-impact"@, "Genshin Impact"@),
            new_game("zenless-zone-zero"@, "Zenless Zone Zero"@),
            new_game("honkai-star-rail"@, "Honkai Star Rail"@),
            new_game("arknights-endfield"@, "Arknights Endfield"@),
        ],
        nsfw_filter: true,
        auto_reload: true,
        theme: "dark"@,
    }
}

fn game(id: &str, name: &str) -> (r: GameConfig)
    ensures
        r@ == new_game(id@, name@),
{
    GameConfig { id: lit(id), name: lit(name), mod_path: None, enabled: true }
}

impl Default for Settings {
    fn default() -> (r: Settings)
        ensures
            r@ == default_settings(),
    {
        let mut games: Vec<GameConfig> = Vec::new();
        games.push(game("wuthering-waves", "Wuthering Waves"));
        games.push(game("genshin-impact", "Genshin Impact"));
        games.push(game("zenless-zone-zero", "Zenless Zone Zero"));
        games.push(game("honkai-star-rail", "Honkai Star Rail"));
        games.push(game("arknights-endfield", "Arknights Endfield"));
        let r = Settings {
            active_game: lit("wuthering-waves"),
            games,
            nsfw_filter: true,
            auto_reload: true,
            theme: lit("dark"),
        };
        assert(r@.games =~= default_settings().games);
        r
    }
}

pub open spec fn config_dir_of(system: Option<String>) -> Seq<char> {
    join(
        match system {
            Some(s) => s@,
            None => "~/.config"@,
        },
        "mod-manager"@,
    )
}

pub open spec fn data_dir_of(system: Option<String>) -> Seq<char> {
    join(
        match system {
            Some(s) => s@,
            None => "~/.local/share"@,
        },
        "mod-manager"@,
    )
}

/// The application's state: its settings.
#[derive(Debug)]
pub struct AppState {
    pub settings: Settings,
}

impl AppState {
    /// The state at start-up: the saved settings when they could be read,
    /// the defaults otherwise.
    pub fn new(loaded: Option<Settings>) -> (r: AppState)
        ensures
            match loaded {
                Some(s) => r.settings == s,
                None => r.settings@ == default_settings(),
            },
    {
        match loaded {
            Some(s) => AppState { settings: s },
            None => AppState { settings: Settings::default() },
        }
    }

    /// The app's configuration folder: `mod-manager` inside the system
    /// configuration folder, or inside `~/.config` when there is none.
    pub fn config_dir_in(system: Option<String>) -> (r: String)
        ensures
            r@ == config_dir_of(system),
    {
        let base: String = match system {
            Some(s) => s,
            None => lit("~/.config"),
        };
        join_path(base.as_str(), "mod-manager")
    }

    /// The app's data folder (large files such as backups): `mod-manager`
    /// inside the system data folder, or inside `~/.local/share`.
    pub fn data_dir_in(system: Option<String>) -> (r: String)
        ensures
            r@ == data_dir_of(system),
    {
        let base: String = match system {
            Some(s) => s,
            None => lit("~/.local/share"),
        };
        join_path(base.as_str(), "mod-manager")
    }

    /// The app's configuration folder on this machine (see `config_dir_in`).
    pub fn config_dir() -> (r: String)
        ensures
            exists|system: Option<String>| #![trigger config_dir_of(system)] r@ == config_dir_of(system),
    {
        let system = system_config_dir();
        AppState::config_dir_in(system)
    }

    /// The app's data folder on this machine (see `data_dir_in`).
    pub fn data_dir() -> (r: String)
        ensures
            exists|system: Option<String>| #![trigger data_dir_of(system)] r@ == data_dir_of(system),
    {
        let system = system_data_dir();
        AppState::data_dir_in(system)
    }

    /// The settings file inside a configuration folder.
    pub fn settings_path(config_dir: &str) -> (r: String)
        ensures
            r@ == join(config_dir@, "settings.json"@),
    {
        join_path(config_dir, "settings.json")
    }
}

/// The system configuration folder, as `dirs::config_dir` reports it for
/// the current user and platform (text of the path), or `None`. Which
/// folder comes back depends on the machine and its environment.
#[verifier::external_body]
fn system_config_dir() -> (r: Option<String>) {
    dirs::config_dir().map(|p| p.to_string_lossy().to_string())
}

/// The system data folder, as `dirs::data_dir` reports it (text of the
/// path), or `None`. Which folder comes back depends on the machine.
#[verifier::external_body]
fn system_data_dir() -> (r: Option<String>) {
    dirs::data_dir().map(|p| p.to_string_lossy().to_string())
}

// ---------------------------------------------------------------------------
// Game lookups
// ---------------------------------------------------------------------------

pub open spec fn first_game(s: Seq<GameModel>, id: Seq<char>, i: int) -> bool {
    &&& 0 <= i < s.len()
    &&& s[i].id == id
    &&& forall|j: int| 0 <= j < i ==> s[j].id != id
}

pub open spec fn has_game(s: Seq<GameModel>, id: Seq<char>) -> bool {
    exists|i: int| 0 <= i < s.len() && s[i].id == id
}

pub open spec fn game_not_found_message(id: Seq<char>) -> Seq<char> {
    "Game '"@ + id + "' not found"@
}

fn game_not_found(id: &str) -> (r: String)
    ensures
        r@ == game_not_found_message(id@),
{
    let mut v: Vec<char> = chars_of("Game '");
    append_str(&mut v, id);
    append_str(&mut v, "' not found");
    string_of(&v)
}

fn find_game(games: &Vec<GameConfig>, id: &str) -> (r: Option<usize>)
    ensures
        match r {
            Some(i) => first_game(games_view(games@), id@, i as int),
            None => !has_game(games_view(games@), id@),
        },
{
    let ghost s = games_view(games@);
    let idv: Vec<char> = chars_of(id);
    let mut i: usize = 0;
    while i < games.len()
        invariant
            i <= games.len(),
            s == games_view(games@),
            idv@ == id@,
            forall|j: int| 0 <= j < i ==> s[j].id != id@,
        decreases games.len() - i,
    {
        let cur: Vec<char> = chars_of(games[i].id.as_str());
        if chars_eq(&cur, &idv) {
            return Some(i);
        }
        i = i + 1;
    }
    None
}

/// The configuration of the first game with identifier `game_id`.
pub fn get_game_config(settings: &Settings, game_id: &str) -> (r: Result<GameConfig, String>)
    ensures
        !has_game(settings@.games, game_id@) ==> (r matches Err(e) && e@ == game_not_found_message(
            game_id@,
        )),
        forall|i: int|
            first_game(settings@.games, game_id@, i) ==> (r matches Ok(g) && g
                == settings.games@[i]),
{
    match find_game(&settings.games, game_id) {
        None => Err(game_not_found(game_id)),
        Some(i) => Ok(settings.games[i].duplicate()),
    }
}

/// The mod folder configured for the first game with identifier `game_id`.
pub fn resolve_mod_path(settings: &Settings, game_id: &str) -> (r: Result<String, String>)
    ensures
        !has_game(settings@.games, game_id@) ==> (r matches Err(e) && e@ == game_not_found_message(
            game_id@,
        )),
        forall|i: int|
            first_game(settings@.games, game_id@, i) ==> match settings@.games[i].mod_path {
                Some(p) => r matches Ok(q) && q@ == p,
                None => r matches Err(e) && e@ == "No mod directory configured for this game"@,
            },
{
    match find_game(&settings.games, game_id) {
        None => Err(game_not_found(game_id)),
        Some(i) => match &settings.games[i].mod_path {
            Some(p) => Ok(p.clone()),
            None => Err(lit("No mod directory configured for this game")),
        },
    }
}

/// Sets the mod folder of the first game with identifier `game_id`.
pub fn set_game_path(settings: &mut Settings, game_id: &str, path: String) -> (r: Result<(), String>)
    ensures
        !has_game(old(settings)@.games, game_id@) ==> (r matches Err(e) && e@
            == game_not_found_message(game_id@)) && final(settings)@ == old(settings)@,
        forall|i: int|
            first_game(old(settings)@.games, game_id@, i) ==> r is Ok && final(settings)@
                == (SettingsModel {
                games: old(settings)@.games.update(
                    i,
                    GameModel { mod_path: Some(path@), ..old(settings)@.games[i] },
                ),
                ..old(settings)@
            }),
{
    match find_game(&settings.games, game_id) {
        None => Err(game_not_found(game_id)),
        Some(i) => {
            let mut g: GameConfig = settings.games[i].duplicate();
            g.mod_path = Some(path);
            let ghost gm = g@;
            settings.games.set(i, g);
            assert(games_view(settings.games@) =~= games_view(old(settings).games@).update(
                i as int,
                gm,
            ));
            Ok(())
        },
    }
}

} // verus!
