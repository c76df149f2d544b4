# mod_manager

A mod manager for 3DMigoto-based games (Wuthering Waves, Genshin Impact,
Zenless Zone Zero, Honkai: Star Rail, Arknights: Endfield), with its logic
verified by Verus.

`src/` is the verified library: the line-preserving `.ini` parser and editor,
friendly labels for key bindings, mod scanning in both folder layouts, enabling/disabling and
deleting mods, presets, restore points, the download queue and its
placement rules, GameBanana requests and answers, update tracking, the
migration to the symlink layout, manual installs, and the registries of
hotkeys and folder watchers. Each public function states what it returns in
its contract; the `law_*` proof functions state properties that span calls.

The library decides; it does not touch the disk, the network or the clock.
`app/` is the program around it: it reads requests as JSON lines on standard
input, gathers what the library needs (folder listings, file texts, HTTP
answers, the time), carries out the library's plans (renames, links, copies,
downloads, extraction) and prints the results.

`tests/` runs the library on concrete inputs.
