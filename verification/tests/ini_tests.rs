use mod_manager::ini::{apply_edits, extract, parse, IniLine, LineEdit};
use mod_manager::keys::translate_key;

const SAMPLE: &str = "\
; Furina mod by someone
[Constants]
global persist $swapvar = 0

[KeySwap]
condition = $active == 1
key = VK_DOWN
back = VK_UP
type = cycle
$swapvar = 0,1,2

[TextureOverrideFurinaBody]
hash = 1a2b3c4d
run = CommandListFurinaBody
";

#[test]
fn roundtrip_preserves_file_byte_for_byte() {
    let doc = parse(SAMPLE);
    assert_eq!(doc.to_text(), SAMPLE, "round-trip must be byte-identical");
}

#[test]
fn roundtrip_without_trailing_newline() {
    let text = "[A]\nkey = 1";
    let doc = parse(text);
    assert_eq!(doc.to_text(), text);
    assert!(!doc.trailing_newline);
}

#[test]
fn classifies_line_kinds() {
    let doc = parse(SAMPLE);
    // First line is a comment.
    assert!(matches!(doc.lines[0], IniLine::Comment { .. }));
    // Section header.
    assert!(matches!(&doc.lines[1], IniLine::Section { name, .. } if name == "Constants"));
    // A pair.
    assert!(matches!(&doc.lines[2], IniLine::Pair { key, value, .. }
        if key == "global persist $swapvar" && value == "0"));
    // A blank line exists between sections.
    assert!(doc.lines.iter().any(|l| matches!(l, IniLine::Blank { .. })));
}

#[test]
fn comments_and_blanks_survive_an_edit() {
    // Find the hash pair line and change its value; comments/blanks must remain.
    let mut doc = parse(SAMPLE);
    let idx = doc
        .lines
        .iter()
        .position(|l| matches!(l, IniLine::Pair { key, .. } if key == "hash"))
        .unwrap();

    let errors = apply_edits(&mut doc, &[LineEdit { line_index: idx, new_value: "deadbeef".into() }]);
    assert!(errors.is_empty());

    let out = doc.to_text();
    assert!(out.contains("hash = deadbeef"), "value should be updated");
    assert!(out.contains("; Furina mod by someone"), "leading comment must survive");
    assert!(out.contains("type = cycle"), "other pairs untouched");
    // Exactly one line changed vs original.
    let changed: Vec<_> = SAMPLE.lines().zip(out.lines()).filter(|(a, b)| a != b).collect();
    assert_eq!(changed.len(), 1, "only the hash line should differ");
}

#[test]
fn edit_preserves_indentation_and_spacing_around_equals() {
    let text = "[S]\n    hash   =    oldval\n";
    let mut doc = parse(text);
    apply_edits(&mut doc, &[LineEdit { line_index: 1, new_value: "newval".into() }]);
    // Leading indent and the spacing after '=' are preserved; the run of
    // spaces before '=' is part of the preserved prefix.
    assert_eq!(doc.to_text(), "[S]\n    hash   =    newval\n");
}

#[test]
fn apply_edits_rejects_non_pair_and_out_of_range() {
    let mut doc = parse(SAMPLE);
    // Line 1 is the [Constants] section header — not a pair.
    let errors = apply_edits(&mut doc, &[
        LineEdit { line_index: 1, new_value: "x".into() },
        LineEdit { line_index: 9999, new_value: "y".into() },
    ]);
    assert_eq!(errors.len(), 2);
    // Doc unchanged.
    assert_eq!(doc.to_text(), SAMPLE);
}

#[test]
fn extract_pulls_keybind_fields() {
    let contents = extract(&parse(SAMPLE));
    assert_eq!(contents.keybinds.len(), 1);
    let kb = &contents.keybinds[0];
    assert_eq!(kb.section, "KeySwap");
    assert_eq!(kb.key.as_deref(), Some("VK_DOWN"));
    assert_eq!(kb.key_label.as_deref(), Some("↓ Arrow"));
    assert_eq!(kb.back.as_deref(), Some("VK_UP"));
    assert_eq!(kb.back_label.as_deref(), Some("↑ Arrow"));
    assert_eq!(kb.bind_type.as_deref(), Some("cycle"));
    assert_eq!(kb.variable.as_deref(), Some("$swapvar"));
    assert_eq!(kb.values.as_deref(), Some("0,1,2"));
}

#[test]
fn extract_pulls_hash_with_section_and_line_index() {
    let doc = parse(SAMPLE);
    let contents = extract(&doc);
    assert_eq!(contents.hashes.len(), 1);
    let h = &contents.hashes[0];
    assert_eq!(h.section, "TextureOverrideFurinaBody");
    assert_eq!(h.value, "1a2b3c4d");
    // The recorded line index must actually point at the hash pair.
    assert!(matches!(&doc.lines[h.line_index],
        IniLine::Pair { key, value, .. } if key == "hash" && value == "1a2b3c4d"));
}

#[test]
fn extract_handles_multiple_keys_and_hashes() {
    let text = "\
[KeyToggle]
key = VK_F
type = toggle

[KeySwapVariants]
key = h
back = j
type = cycle
$var = 0,1

[TextureOverrideA]
hash = aaaa

[TextureOverrideB]
hash = bbbb
";
    let contents = extract(&parse(text));
    assert_eq!(contents.keybinds.len(), 2);
    assert_eq!(contents.keybinds[0].section, "KeyToggle");
    assert_eq!(contents.keybinds[0].bind_type.as_deref(), Some("toggle"));
    assert_eq!(contents.keybinds[1].key_label.as_deref(), Some("H"));
    assert_eq!(contents.keybinds[1].back_label.as_deref(), Some("J"));

    assert_eq!(contents.hashes.len(), 2);
    assert_eq!(contents.hashes[0].section, "TextureOverrideA");
    assert_eq!(contents.hashes[1].section, "TextureOverrideB");
    assert_ne!(contents.hashes[0].line_index, contents.hashes[1].line_index);
}

#[test]
fn extract_ignores_empty_key_sections() {
    // A [Key*] section with no key/back/type bindings shouldn't produce a
    // keybind entry.
    let text = "[KeyContextThing]\ncondition = $active == 1\n";
    let contents = extract(&parse(text));
    assert!(contents.keybinds.is_empty());
}

#[test]
fn translate_key_maps_common_vk_names() {
    assert_eq!(translate_key("VK_DOWN"), "↓ Arrow");
    assert_eq!(translate_key("VK_RETURN"), "Enter");
    assert_eq!(translate_key("VK_F10"), "F10");
    assert_eq!(translate_key("VK_NUMPAD5"), "Numpad 5");
}

#[test]
fn translate_key_handles_modifiers_and_bare_chars() {
    assert_eq!(translate_key("no_modifiers VK_F"), "F");
    assert_eq!(translate_key("ctrl alt VK_DELETE"), "Ctrl + Alt + Delete");
    assert_eq!(translate_key("h"), "H");
    assert_eq!(translate_key("shift VK_UP"), "Shift + ↑ Arrow");
}

#[test]
fn translate_key_drops_per_modifier_negations() {
    // `no_ctrl`/`no_shift`/`no_alt` mean "must NOT be held" — they should
    // be dropped, and must NOT swallow the real key. Regression for
    // "ctrl no_shift no_alt VK_UP" rendering as just "Ctrl + Shift".
    assert_eq!(translate_key("ctrl no_shift no_alt VK_UP"), "Ctrl + ↑ Arrow");
    assert_eq!(translate_key("no_ctrl no_shift no_alt VK_F"), "F");
    assert_eq!(translate_key("no_alt shift VK_DOWN"), "Shift + ↓ Arrow");
}

#[test]
fn translate_key_falls_back_gracefully_on_unknown() {
    // Unknown VK_* strips the VK_ prefix; empty stays empty-ish.
    assert_eq!(translate_key("VK_SOMETHING_NEW"), "SOMETHING_NEW");
}

