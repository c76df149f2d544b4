use mod_manager::watcher::WatcherRegistry;

#[test]
fn watching_again_replaces_the_previous_watcher() {
    let mut reg: WatcherRegistry<u32> = WatcherRegistry::new();
    assert_eq!(reg.watch("genshin", 1), None);
    assert!(reg.is_watching("genshin"));
    assert_eq!(reg.watch("genshin", 2), Some(1));
    assert_eq!(reg.watch("starrail", 3), None);
    assert_eq!(reg.unwatch("genshin"), Some(2));
    assert!(!reg.is_watching("genshin"));
    assert!(reg.is_watching("starrail"));
}

#[test]
fn unwatch_of_an_unwatched_game_does_nothing() {
    let mut reg: WatcherRegistry<u32> = WatcherRegistry::new();
    assert_eq!(reg.unwatch("zzz"), None);
    reg.watch("zzz", 7);
    assert_eq!(reg.unwatch("zzz"), Some(7));
    assert_eq!(reg.unwatch("zzz"), None);
}
