//! Friendly labels for 3DMigoto key bindings (`key = ctrl VK_UP` → `Ctrl + ↑ Arrow`).

use vstd::prelude::*;
use crate::text::{
    append_chars, append_str, ascii_lower, ascii_upper, chars_of, eq_str, is_ascii_digit, is_ws,
    is_whitespace_char, lit, range_of, starts_with, starts_with_str, string_of, to_lower_ascii,
    to_upper_ascii,
};

verus! {

/// The whitespace-separated words of `s` (what `str::split_whitespace` yields).
pub open spec fn words(s: Seq<char>) -> Seq<Seq<char>>
    decreases s.len(),
{
    if s.len() == 0 {
        Seq::<Seq<char>>::empty()
    } else {
        let p = words(s.drop_last());
        let c = s.last();
        if is_ws(c) {
            p
        } else if s.len() >= 2 && !is_ws(s[s.len() - 2]) {
            p.update(p.len() - 1, p.last().push(c))
        } else {
            p.push(seq![c])
        }
    }
}

/// `parts` joined with `sep` between them.
pub open spec fn join_with(parts: Seq<Seq<char>>, sep: Seq<char>) -> Seq<char>
    decreases parts.len(),
{
    if parts.len() == 0 {
        Seq::<char>::empty()
    } else if parts.len() == 1 {
        parts[0]
    } else {
        join_with(parts.drop_last(), sep) + sep + parts.last()
    }
}

/// Labels of the named virtual keys, looked up by the upper-cased token.
pub open spec fn vk_label(u: Seq<char>) -> Option<Seq<char>> {
    if u == "VK_UP"@ {
        Some("↑ Arrow"@)
    } else if u == "VK_DOWN"@ {
        Some("↓ Arrow"@)
    } else if u == "VK_LEFT"@ {
        Some("← Arrow"@)
    } else if u == "VK_RIGHT"@ {
        Some("→ Arrow"@)
    } else if u == "VK_RETURN"@ {
        Some("Enter"@)
    } else if u == "VK_ESCAPE"@ {
        Some("Esc"@)
    } else if u == "VK_SPACE"@ {
        Some("Space"@)
    } else if u == "VK_TAB"@ {
        Some("Tab"@)
    } else if u == "VK_BACK"@ {
        Some("Backspace"@)
    } else if u == "VK_DELETE"@ {
        Some("Delete"@)
    } else if u == "VK_INSERT"@ {
        Some("Insert"@)
    } else if u == "VK_HOME"@ {
        Some("Home"@)
    } else if u == "VK_END"@ {
        Some("End"@)
    } else if u == "VK_PRIOR"@ {
        Some("Page Up"@)
    } else if u == "VK_NEXT"@ {
        Some("Page Down"@)
    } else if u == "VK_SHIFT"@ {
        Some("Shift"@)
    } else if u == "VK_CONTROL"@ {
        Some("Ctrl"@)
    } else if u == "VK_MENU"@ {
        Some("Alt"@)
    } else if u == "VK_CAPITAL"@ {
        Some("Caps Lock"@)
    } else if u == "VK_NUMLOCK"@ {
        Some("Num Lock"@)
    } else if u == "VK_OEM_3"@ {
        Some("` (Backtick)"@)
    } else if u == "VK_OEM_MINUS"@ {
        Some("- (Minus)"@)
    } else if u == "VK_OEM_PLUS"@ {
        Some("= (Equals)"@)
    } else if u == "VK_OEM_COMMA"@ {
        Some(", (Comma)"@)
    } else if u == "VK_OEM_PERIOD"@ {
        Some(". (Period)"@)
    } else if u == "VK_NUMPAD0"@ {
        Some("Numpad 0"@)
    } else if u == "VK_NUMPAD1"@ {
        Some("Numpad 1"@)
    } else if u == "VK_NUMPAD2"@ {
        Some("Numpad 2"@)
    } else if u == "VK_NUMPAD3"@ {
        Some("Numpad 3"@)
    } else if u == "VK_NUMPAD4"@ {
        Some("Numpad 4"@)
    } else if u == "VK_NUMPAD5"@ {
        Some("Numpad 5"@)
    } else if u == "VK_NUMPAD6"@ {
        Some("Numpad 6"@)
    } else if u == "VK_NUMPAD7"@ {
        Some("Numpad 7"@)
    } else if u == "VK_NUMPAD8"@ {
        Some("Numpad 8"@)
    } else if u == "VK_NUMPAD9"@ {
        Some("Numpad 9"@)
    } else {
        None
    }
}

pub open spec fn all_digits(s: Seq<char>) -> bool {
    forall|i: int| 0 <= i < s.len() ==> is_ascii_digit(s[i])
}

/// The label of a single key token: a named virtual key, a function key
/// `VK_F<n>`, a bare character (upper-cased), or the token itself without a
/// leading `VK_`.
pub open spec fn single_key_label(tok: Seq<char>) -> Seq<char> {
    let upper = ascii_upper(tok);
    match vk_label(upper) {
        Some(l) => l,
        None => {
            if starts_with(upper, "VK_F"@) && upper.len() > 4 && all_digits(
                upper.subrange(4, upper.len() as int),
            ) {
                seq!['F'] + upper.subrange(4, upper.len() as int)
            } else if tok.len() == 1 {
                ascii_upper(tok)
            } else if starts_with(tok, "VK_"@) {
                tok.subrange(3, tok.len() as int)
            } else {
                tok
            }
        },
    }
}

/// Modifier labels and the main key label gathered from the tokens in order.
pub open spec fn scan_tokens(toks: Seq<Seq<char>>) -> (Seq<Seq<char>>, Option<Seq<char>>)
    decreases toks.len(),
{
    if toks.len() == 0 {
        (Seq::<Seq<char>>::empty(), None)
    } else {
        let (mods, main) = scan_tokens(toks.drop_last());
        let tok = toks.last();
        let lower = ascii_lower(tok);
        if starts_with(lower, "no_"@) {
            (mods, main)
        } else if lower == "ctrl"@ || lower == "control"@ {
            (mods.push("Ctrl"@), main)
        } else if lower == "alt"@ {
            (mods.push("Alt"@), main)
        } else if lower == "shift"@ {
            (mods.push("Shift"@), main)
        } else if main is None {
            (mods, Some(single_key_label(tok)))
        } else {
            (mods, main)
        }
    }
}

/// The friendly label of a 3DMigoto `key =` / `back =` value.
pub open spec fn key_label(raw: Seq<char>) -> Seq<char> {
    let toks = words(raw);
    if toks.len() == 0 {
        raw
    } else {
        let (mods, main) = scan_tokens(toks);
        let m = match main {
            Some(x) => x,
            None => raw,
        };
        if mods.len() == 0 {
            m
        } else {
            join_with(mods, " + "@) + " + "@ + m
        }
    }
}

pub fn split_words(s: &Vec<char>) -> (r: Vec<Vec<char>>)
    ensures
        r@.map_values(|w: Vec<char>| w@) == words(s@),
{
    let mut done: Vec<Vec<char>> = Vec::new();
    let mut cur: Vec<char> = Vec::new();
    let mut i: usize = 0;
    while i < s.len()
        invariant
            i <= s.len(),
            cur@.len() > 0 <==> (i > 0 && !is_ws(s@[i - 1])),
            words(s@.subrange(0, i as int)) == (if cur@.len() > 0 {
                done@.map_values(|w: Vec<char>| w@).push(cur@)
            } else {
                done@.map_values(|w: Vec<char>| w@)
            }),
        decreases s.len() - i,
    {
        let ghost pre = s@.subrange(0, i as int);
        let ghost old_done = done@.map_values(|w: Vec<char>| w@);
        let ghost old_cur = cur@;
        let c: char = s[i];
        if is_whitespace_char(c) {
            if cur.len() > 0 {
                done.push(cur);
                cur = Vec::new();
                assert(done@.map_values(|w: Vec<char>| w@) =~= old_done.push(old_cur));
            }
        } else {
            cur.push(c);
        }
        i = i + 1;
        proof {
            let post = s@.subrange(0, i as int);
            assert(post.drop_last() =~= pre);
            assert(post.last() == c);
            if !is_ws(c) && i >= 2 && !is_ws(s@[i - 2]) {
                assert(post[post.len() - 2] == s@[i - 2]);
                assert(old_cur.len() > 0);
                assert(words(pre) == old_done.push(old_cur));
                assert(cur@ == old_cur.push(c));
                assert(words(post) =~= old_done.push(cur@));
            } else if !is_ws(c) {
                if i >= 2 {
                    assert(post[post.len() - 2] == s@[i - 2]);
                }
                assert(old_cur.len() == 0);
                assert(words(pre) == old_done);
                assert(cur@ =~= seq![c]);
                assert(words(post) =~= old_done.push(cur@));
            }
        }
    }
    if cur.len() > 0 {
        let ghost old_done = done@.map_values(|w: Vec<char>| w@);
        let ghost old_cur = cur@;
        done.push(cur);
        assert(done@.map_values(|w: Vec<char>| w@) =~= old_done.push(old_cur));
    }
    assert(s@.subrange(0, s.len() as int) =~= s@);
    done
}

fn named_key_label(u: &Vec<char>) -> (r: Option<String>)
    ensures
        match r {
            Some(l) => vk_label(u@) == Some(l@),
            None => vk_label(u@) is None,
        },
{
    if eq_str(u, "VK_UP") {
        Some(lit("↑ Arrow"))
    } else if eq_str(u, "VK_DOWN") {
        Some(lit("↓ Arrow"))
    } else if eq_str(u, "VK_LEFT") {
        Some(lit("← Arrow"))
    } else if eq_str(u, "VK_RIGHT") {
        Some(lit("→ Arrow"))
    } else if eq_str(u, "VK_RETURN") {
        Some(lit("Enter"))
    } else if eq_str(u, "VK_ESCAPE") {
        Some(lit("Esc"))
    } else if eq_str(u, "VK_SPACE") {
        Some(lit("Space"))
    } else if eq_str(u, "VK_TAB") {
        Some(lit("Tab"))
    } else if eq_str(u, "VK_BACK") {
        Some(lit("Backspace"))
    } else if eq_str(u, "VK_DELETE") {
        Some(lit("Delete"))
    } else if eq_str(u, "VK_INSERT") {
        Some(lit("Insert"))
    } else if eq_str(u, "VK_HOME") {
        Some(lit("Home"))
    } else if eq_str(u, "VK_END") {
        Some(lit("End"))
    } else if eq_str(u, "VK_PRIOR") {
        Some(lit("Page Up"))
    } else if eq_str(u, "VK_NEXT") {
        Some(lit("Page Down"))
    } else if eq_str(u, "VK_SHIFT") {
        Some(lit("Shift"))
    } else if eq_str(u, "VK_CONTROL") {
        Some(lit("Ctrl"))
    } else if eq_str(u, "VK_MENU") {
        Some(lit("Alt"))
    } else if eq_str(u, "VK_CAPITAL") {
        Some(lit("Caps Lock"))
    } else if eq_str(u, "VK_NUMLOCK") {
        Some(lit("Num Lock"))
    } else if eq_str(u, "VK_OEM_3") {
        Some(lit("` (Backtick)"))
    } else if eq_str(u, "VK_OEM_MINUS") {
        Some(lit("- (Minus)"))
    } else if eq_str(u, "VK_OEM_PLUS") {
        Some(lit("= (Equals)"))
    } else if eq_str(u, "VK_OEM_COMMA") {
        Some(lit(", (Comma)"))
    } else if eq_str(u, "VK_OEM_PERIOD") {
        Some(lit(". (Period)"))
    } else if eq_str(u, "VK_NUMPAD0") {
        Some(lit("Numpad 0"))
    } else if eq_str(u, "VK_NUMPAD1") {
        Some(lit("Numpad 1"))
    } else if eq_str(u, "VK_NUMPAD2") {
        Some(lit("Numpad 2"))
    } else if eq_str(u, "VK_NUMPAD3") {
        Some(lit("Numpad 3"))
    } else if eq_str(u, "VK_NUMPAD4") {
        Some(lit("Numpad 4"))
    } else if eq_str(u, "VK_NUMPAD5") {
        Some(lit("Numpad 5"))
    } else if eq_str(u, "VK_NUMPAD6") {
        Some(lit("Numpad 6"))
    } else if eq_str(u, "VK_NUMPAD7") {
        Some(lit("Numpad 7"))
    } else if eq_str(u, "VK_NUMPAD8") {
        Some(lit("Numpad 8"))
    } else if eq_str(u, "VK_NUMPAD9") {
        Some(lit("Numpad 9"))
    } else {
        None
    }
}

fn all_digits_from(v: &Vec<char>, lo: usize) -> (r: bool)
    requires
        lo <= v.len(),
    ensures
        r == all_digits(v@.subrange(lo as int, v.len() as int)),
{
    let mut i: usize = lo;
    while i < v.len()
        invariant
            lo <= i <= v.len(),
            forall|j: int| lo <= j < i ==> is_ascii_digit(v@[j]),
        decreases v.len() - i,
    {
        if !('0' <= v[i] && v[i] <= '9') {
            assert(!is_ascii_digit(v@.subrange(lo as int, v.len() as int)[i - lo]));
            return false;
        }
        i = i + 1;
    }
    true
}

/// Translate a single key token (a `VK_*` name or a bare char) to a label.
fn translate_single_key(tok: &Vec<char>) -> (r: Vec<char>)
    ensures
        r@ == single_key_label(tok@),
{
    let upper: Vec<char> = to_upper_ascii(tok);
    match named_key_label(&upper) {
        Some(l) => chars_of(l.as_str()),
        None => {
            if starts_with_str(&upper, "VK_F") && upper.len() > 4 && all_digits_from(&upper, 4) {
                let mut r: Vec<char> = Vec::new();
                r.push('F');
                let rest: Vec<char> = range_of(&upper, 4, upper.len());
                append_chars(&mut r, &rest);
                assert(r@ =~= seq!['F'] + upper@.subrange(4, upper@.len() as int));
                r
            } else if tok.len() == 1 {
                upper
            } else if starts_with_str(tok, "VK_") {
                proof {
                    reveal_strlit("VK_");
                }
                range_of(tok, 3, tok.len())
            } else {
                range_of(tok, 0, tok.len())
            }
        },
    }
}

/// Translate a 3DMigoto `key =` / `back =` value into a friendly label.
///
/// Modifier words become a readable prefix (`Ctrl + Alt + …`), negations such
/// as `no_shift` or `no_modifiers` are dropped, and the first other token is
/// translated as the main key.
pub fn translate_key(raw: &str) -> (r: String)
    ensures
        r@ == key_label(raw@),
{
    let rv: Vec<char> = chars_of(raw);
    let tokens: Vec<Vec<char>> = split_words(&rv);
    if tokens.len() == 0 {
        return lit(raw);
    }
    let mut modifiers: Vec<Vec<char>> = Vec::new();
    let mut main: Option<Vec<char>> = None;
    let mut k: usize = 0;
    while k < tokens.len()
        invariant
            k <= tokens.len(),
            tokens@.map_values(|w: Vec<char>| w@) == words(raw@),
            ({
                let (ms, mn) = scan_tokens(words(raw@).subrange(0, k as int));
                &&& modifiers@.map_values(|w: Vec<char>| w@) == ms
                &&& match main {
                    Some(x) => mn == Some(x@),
                    None => mn is None,
                }
            }),
        decreases tokens.len() - k,
    {
        let ghost old_mods = modifiers@.map_values(|w: Vec<char>| w@);
        let tok: &Vec<char> = &tokens[k];
        proof {
            let sub = words(raw@).subrange(0, k + 1);
            assert(sub.drop_last() =~= words(raw@).subrange(0, k as int));
            assert(sub.last() == tok@);
        }
        let lower: Vec<char> = to_lower_ascii(tok);
        if starts_with_str(&lower, "no_") {
        } else if eq_str(&lower, "ctrl") || eq_str(&lower, "control") {
            modifiers.push(chars_of("Ctrl"));
            assert(modifiers@.map_values(|w: Vec<char>| w@) =~= old_mods.push("Ctrl"@));
        } else if eq_str(&lower, "alt") {
            modifiers.push(chars_of("Alt"));
            assert(modifiers@.map_values(|w: Vec<char>| w@) =~= old_mods.push("Alt"@));
        } else if eq_str(&lower, "shift") {
            modifiers.push(chars_of("Shift"));
            assert(modifiers@.map_values(|w: Vec<char>| w@) =~= old_mods.push("Shift"@));
        } else if main.is_none() {
            main = Some(translate_single_key(tok));
        }
        k = k + 1;
    }
    assert(words(raw@).subrange(0, tokens.len() as int) =~= words(raw@));
    let m: Vec<char> = match main {
        Some(x) => x,
        None => rv,
    };
    if modifiers.len() == 0 {
        return string_of(&m);
    }
    let mut out: Vec<char> = Vec::new();
    let mut j: usize = 0;
    while j < modifiers.len()
        invariant
            0 < modifiers.len(),
            j <= modifiers.len(),
            out@ == join_with(modifiers@.map_values(|w: Vec<char>| w@).subrange(0, j as int), " + "@),
        decreases modifiers.len() - j,
    {
        let ghost prev = modifiers@.map_values(|w: Vec<char>| w@).subrange(0, j as int);
        if j > 0 {
            append_str(&mut out, " + ");
        }
        append_chars(&mut out, &modifiers[j]);
        j = j + 1;
        proof {
            let cur = modifiers@.map_values(|w: Vec<char>| w@).subrange(0, j as int);
            assert(cur.drop_last() =~= prev);
            assert(out@ =~= join_with(cur, " + "@));
        }
    }
    assert(modifiers@.map_values(|w: Vec<char>| w@).subrange(0, modifiers.len() as int)
        =~= modifiers@.map_values(|w: Vec<char>| w@));
    append_str(&mut out, " + ");
    append_chars(&mut out, &m);
    string_of(&out)
}


proof fn lemma_vk_names_spelled()
    ensures
        "VK_UP"@.len() == 5,
        "VK_UP"@[0] == 'V',
        "VK_UP"@[1] == 'K',
        "VK_UP"@[2] == '_',
        "VK_UP"@[3] == 'U',
        "VK_UP"@[4] == 'P',
        "VK_DOWN"@.len() == 7,
        "VK_DOWN"@[0] == 'V',
        "VK_DOWN"@[1] == 'K',
        "VK_DOWN"@[2] == '_',
        "VK_DOWN"@[3] == 'D',
        "VK_DOWN"@[4] == 'O',
        "VK_DOWN"@[5] == 'W',
        "VK_DOWN"@[6] == 'N',
        "VK_LEFT"@.len() == 7,
        "VK_LEFT"@[0] == 'V',
        "VK_LEFT"@[1] == 'K',
        "VK_LEFT"@[2] == '_',
        "VK_LEFT"@[3] == 'L',
        "VK_LEFT"@[4] == 'E',
        "VK_LEFT"@[5] == 'F',
        "VK_LEFT"@[6] == 'T',
        "VK_RIGHT"@.len() == 8,
        "VK_RIGHT"@[0] == 'V',
        "VK_RIGHT"@[1] == 'K',
        "VK_RIGHT"@[2] == '_',
        "VK_RIGHT"@[3] == 'R',
        "VK_RIGHT"@[4] == 'I',
        "VK_RIGHT"@[5] == 'G',
        "VK_RIGHT"@[6] == 'H',
        "VK_RIGHT"@[7] == 'T',
        "VK_RETURN"@.len() == 9,
        "VK_RETURN"@[0] == 'V',
        "VK_RETURN"@[1] == 'K',
        "VK_RETURN"@[2] == '_',
        "VK_RETURN"@[3] == 'R',
        "VK_RETURN"@[4] == 'E',
        "VK_RETURN"@[5] == 'T',
        "VK_RETURN"@[6] == 'U',
        "VK_RETURN"@[7] == 'R',
        "VK_RETURN"@[8] == 'N',
        "VK_ESCAPE"@.len() == 9,
        "VK_ESCAPE"@[0] == 'V',
        "VK_ESCAPE"@[1] == 'K',
        "VK_ESCAPE"@[2] == '_',
        "VK_ESCAPE"@[3] == 'E',
        "VK_ESCAPE"@[4] == 'S',
        "VK_ESCAPE"@[5] == 'C',
        "VK_ESCAPE"@[6] == 'A',
        "VK_ESCAPE"@[7] == 'P',
        "VK_ESCAPE"@[8] == 'E',
        "VK_SPACE"@.len() == 8,
        "VK_SPACE"@[0] == 'V',
        "VK_SPACE"@[1] == 'K',
        "VK_SPACE"@[2] == '_',
        "VK_SPACE"@[3] == 'S',
        "VK_SPACE"@[4] == 'P',
        "VK_SPACE"@[5] == 'A',
        "VK_SPACE"@[6] == 'C',
        "VK_SPACE"@[7] == 'E',
        "VK_TAB"@.len() == 6,
        "VK_TAB"@[0] == 'V',
        "VK_TAB"@[1] == 'K',
        "VK_TAB"@[2] == '_',
        "VK_TAB"@[3] == 'T',
        "VK_TAB"@[4] == 'A',
        "VK_TAB"@[5] == 'B',
        "VK_BACK"@.len() == 7,
        "VK_BACK"@[0] == 'V',
        "VK_BACK"@[1] == 'K',
        "VK_BACK"@[2] == '_',
        "VK_BACK"@[3] == 'B',
        "VK_BACK"@[4] == 'A',
        "VK_BACK"@[5] == 'C',
        "VK_BACK"@[6] == 'K',
        "VK_DELETE"@.len() == 9,
        "VK_DELETE"@[0] == 'V',
        "VK_DELETE"@[1] == 'K',
        "VK_DELETE"@[2] == '_',
        "VK_DELETE"@[3] == 'D',
        "VK_DELETE"@[4] == 'E',
        "VK_DELETE"@[5] == 'L',
        "VK_DELETE"@[6] == 'E',
        "VK_DELETE"@[7] == 'T',
        "VK_DELETE"@[8] == 'E',
        "VK_INSERT"@.len() == 9,
        "VK_INSERT"@[0] == 'V',
        "VK_INSERT"@[1] == 'K',
        "VK_INSERT"@[2] == '_',
        "VK_INSERT"@[3] == 'I',
        "VK_INSERT"@[4] == 'N',
        "VK_INSERT"@[5] == 'S',
        "VK_INSERT"@[6] == 'E',
        "VK_INSERT"@[7] == 'R',
        "VK_INSERT"@[8] == 'T',
        "VK_HOME"@.len() == 7,
        "VK_HOME"@[0] == 'V',
        "VK_HOME"@[1] == 'K',
        "VK_HOME"@[2] == '_',
        "VK_HOME"@[3] == 'H',
        "VK_HOME"@[4] == 'O',
        "VK_HOME"@[5] == 'M',
        "VK_HOME"@[6] == 'E',
        "VK_END"@.len() == 6,
        "VK_END"@[0] == 'V',
        "VK_END"@[1] == 'K',
        "VK_END"@[2] == '_',
        "VK_END"@[3] == 'E',
        "VK_END"@[4] == 'N',
        "VK_END"@[5] == 'D',
        "VK_PRIOR"@.len() == 8,
        "VK_PRIOR"@[0] == 'V',
        "VK_PRIOR"@[1] == 'K',
        "VK_PRIOR"@[2] == '_',
        "VK_PRIOR"@[3] == 'P',
        "VK_PRIOR"@[4] == 'R',
        "VK_PRIOR"@[5] == 'I',
        "VK_PRIOR"@[6] == 'O',
        "VK_PRIOR"@[7] == 'R',
        "VK_NEXT"@.len() == 7,
        "VK_NEXT"@[0] == 'V',
        "VK_NEXT"@[1] == 'K',
        "VK_NEXT"@[2] == '_',
        "VK_NEXT"@[3] == 'N',
        "VK_NEXT"@[4] == 'E',
        "VK_NEXT"@[5] == 'X',
        "VK_NEXT"@[6] == 'T',
        "VK_SHIFT"@.len() == 8,
        "VK_SHIFT"@[0] == 'V',
        "VK_SHIFT"@[1] == 'K',
        "VK_SHIFT"@[2] == '_',
        "VK_SHIFT"@[3] == 'S',
        "VK_SHIFT"@[4] == 'H',
        "VK_SHIFT"@[5] == 'I',
        "VK_SHIFT"@[6] == 'F',
        "VK_SHIFT"@[7] == 'T',
        "VK_CONTROL"@.len() == 10,
        "VK_CONTROL"@[0] == 'V',
        "VK_CONTROL"@[1] == 'K',
        "VK_CONTROL"@[2] == '_',
        "VK_CONTROL"@[3] == 'C',
        "VK_CONTROL"@[4] == 'O',
        "VK_CONTROL"@[5] == 'N',
        "VK_CONTROL"@[6] == 'T',
        "VK_CONTROL"@[7] == 'R',
        "VK_CONTROL"@[8] == 'O',
        "VK_CONTROL"@[9] == 'L',
        "VK_MENU"@.len() == 7,
        "VK_MENU"@[0] == 'V',
        "VK_MENU"@[1] == 'K',
        "VK_MENU"@[2] == '_',
        "VK_MENU"@[3] == 'M',
        "VK_MENU"@[4] == 'E',
        "VK_MENU"@[5] == 'N',
        "VK_MENU"@[6] == 'U',
        "VK_CAPITAL"@.len() == 10,
        "VK_CAPITAL"@[0] == 'V',
        "VK_CAPITAL"@[1] == 'K',
        "VK_CAPITAL"@[2] == '_',
        "VK_CAPITAL"@[3] == 'C',
        "VK_CAPITAL"@[4] == 'A',
        "VK_CAPITAL"@[5] == 'P',
        "VK_CAPITAL"@[6] == 'I',
        "VK_CAPITAL"@[7] == 'T',
        "VK_CAPITAL"@[8] == 'A',
        "VK_CAPITAL"@[9] == 'L',
        "VK_NUMLOCK"@.len() == 10,
        "VK_NUMLOCK"@[0] == 'V',
        "VK_NUMLOCK"@[1] == 'K',
        "VK_NUMLOCK"@[2] == '_',
        "VK_NUMLOCK"@[3] == 'N',
        "VK_NUMLOCK"@[4] == 'U',
        "VK_NUMLOCK"@[5] == 'M',
        "VK_NUMLOCK"@[6] == 'L',
        "VK_NUMLOCK"@[7] == 'O',
        "VK_NUMLOCK"@[8] == 'C',
        "VK_NUMLOCK"@[9] == 'K',
        "VK_OEM_3"@.len() == 8,
        "VK_OEM_3"@[0] == 'V',
        "VK_OEM_3"@[1] == 'K',
        "VK_OEM_3"@[2] == '_',
        "VK_OEM_3"@[3] == 'O',
        "VK_OEM_3"@[4] == 'E',
        "VK_OEM_3"@[5] == 'M',
        "VK_OEM_3"@[6] == '_',
        "VK_OEM_3"@[7] == '3',
        "VK_OEM_MINUS"@.len() == 12,
        "VK_OEM_MINUS"@[0] == 'V',
        "VK_OEM_MINUS"@[1] == 'K',
        "VK_OEM_MINUS"@[2] == '_',
        "VK_OEM_MINUS"@[3] == 'O',
        "VK_OEM_MINUS"@[4] == 'E',
        "VK_OEM_MINUS"@[5] == 'M',
        "VK_OEM_MINUS"@[6] == '_',
        "VK_OEM_MINUS"@[7] == 'M',
        "VK_OEM_MINUS"@[8] == 'I',
        "VK_OEM_MINUS"@[9] == 'N',
        "VK_OEM_MINUS"@[10] == 'U',
        "VK_OEM_MINUS"@[11] == 'S',
        "VK_OEM_PLUS"@.len() == 11,
        "VK_OEM_PLUS"@[0] == 'V',
        "VK_OEM_PLUS"@[1] == 'K',
        "VK_OEM_PLUS"@[2] == '_',
        "VK_OEM_PLUS"@[3] == 'O',
        "VK_OEM_PLUS"@[4] == 'E',
        "VK_OEM_PLUS"@[5] == 'M',
        "VK_OEM_PLUS"@[6] == '_',
        "VK_OEM_PLUS"@[7] == 'P',
        "VK_OEM_PLUS"@[8] == 'L',
        "VK_OEM_PLUS"@[9] == 'U',
        "VK_OEM_PLUS"@[10] == 'S',
        "VK_OEM_COMMA"@.len() == 12,
        "VK_OEM_COMMA"@[0] == 'V',
        "VK_OEM_COMMA"@[1] == 'K',
        "VK_OEM_COMMA"@[2] == '_',
        "VK_OEM_COMMA"@[3] == 'O',
        "VK_OEM_COMMA"@[4] == 'E',
        "VK_OEM_COMMA"@[5] == 'M',
        "VK_OEM_COMMA"@[6] == '_',
        "VK_OEM_COMMA"@[7] == 'C',
        "VK_OEM_COMMA"@[8] == 'O',
        "VK_OEM_COMMA"@[9] == 'M',
        "VK_OEM_COMMA"@[10] == 'M',
        "VK_OEM_COMMA"@[11] == 'A',
        "VK_OEM_PERIOD"@.len() == 13,
        "VK_OEM_PERIOD"@[0] == 'V',
        "VK_OEM_PERIOD"@[1] == 'K',
        "VK_OEM_PERIOD"@[2] == '_',
        "VK_OEM_PERIOD"@[3] == 'O',
        "VK_OEM_PERIOD"@[4] == 'E',
        "VK_OEM_PERIOD"@[5] == 'M',
        "VK_OEM_PERIOD"@[6] == '_',
        "VK_OEM_PERIOD"@[7] == 'P',
        "VK_OEM_PERIOD"@[8] == 'E',
        "VK_OEM_PERIOD"@[9] == 'R',
        "VK_OEM_PERIOD"@[10] == 'I',
        "VK_OEM_PERIOD"@[11] == 'O',
        "VK_OEM_PERIOD"@[12] == 'D',
        "VK_NUMPAD0"@.len() == 10,
        "VK_NUMPAD0"@[0] == 'V',
        "VK_NUMPAD0"@[1] == 'K',
        "VK_NUMPAD0"@[2] == '_',
        "VK_NUMPAD0"@[3] == 'N',
        "VK_NUMPAD0"@[4] == 'U',
        "VK_NUMPAD0"@[5] == 'M',
        "VK_NUMPAD0"@[6] == 'P',
        "VK_NUMPAD0"@[7] == 'A',
        "VK_NUMPAD0"@[8] == 'D',
        "VK_NUMPAD0"@[9] == '0',
        "VK_NUMPAD1"@.len() == 10,
        "VK_NUMPAD1"@[0] == 'V',
        "VK_NUMPAD1"@[1] == 'K',
        "VK_NUMPAD1"@[2] == '_',
        "VK_NUMPAD1"@[3] == 'N',
        "VK_NUMPAD1"@[4] == 'U',
        "VK_NUMPAD1"@[5] == 'M',
        "VK_NUMPAD1"@[6] == 'P',
        "VK_NUMPAD1"@[7] == 'A',
        "VK_NUMPAD1"@[8] == 'D',
        "VK_NUMPAD1"@[9] == '1',
        "VK_NUMPAD2"@.len() == 10,
        "VK_NUMPAD2"@[0] == 'V',
        "VK_NUMPAD2"@[1] == 'K',
        "VK_NUMPAD2"@[2] == '_',
        "VK_NUMPAD2"@[3] == 'N',
        "VK_NUMPAD2"@[4] == 'U',
        "VK_NUMPAD2"@[5] == 'M',
        "VK_NUMPAD2"@[6] == 'P',
        "VK_NUMPAD2"@[7] == 'A',
        "VK_NUMPAD2"@[8] == 'D',
        "VK_NUMPAD2"@[9] == '2',
        "VK_NUMPAD3"@.len() == 10,
        "VK_NUMPAD3"@[0] == 'V',
        "VK_NUMPAD3"@[1] == 'K',
        "VK_NUMPAD3"@[2] == '_',
        "VK_NUMPAD3"@[3] == 'N',
        "VK_NUMPAD3"@[4] == 'U',
        "VK_NUMPAD3"@[5] == 'M',
        "VK_NUMPAD3"@[6] == 'P',
        "VK_NUMPAD3"@[7] == 'A',
        "VK_NUMPAD3"@[8] == 'D',
        "VK_NUMPAD3"@[9] == '3',
        "VK_NUMPAD4"@.len() == 10,
        "VK_NUMPAD4"@[0] == 'V',
        "VK_NUMPAD4"@[1] == 'K',
        "VK_NUMPAD4"@[2] == '_',
        "VK_NUMPAD4"@[3] == 'N',
        "VK_NUMPAD4"@[4] == 'U',
        "VK_NUMPAD4"@[5] == 'M',
        "VK_NUMPAD4"@[6] == 'P',
        "VK_NUMPAD4"@[7] == 'A',
        "VK_NUMPAD4"@[8] == 'D',
        "VK_NUMPAD4"@[9] == '4',
        "VK_NUMPAD5"@.len() == 10,
        "VK_NUMPAD5"@[0] == 'V',
        "VK_NUMPAD5"@[1] == 'K',
        "VK_NUMPAD5"@[2] == '_',
        "VK_NUMPAD5"@[3] == 'N',
        "VK_NUMPAD5"@[4] == 'U',
        "VK_NUMPAD5"@[5] == 'M',
        "VK_NUMPAD5"@[6] == 'P',
        "VK_NUMPAD5"@[7] == 'A',
        "VK_NUMPAD5"@[8] == 'D',
        "VK_NUMPAD5"@[9] == '5',
        "VK_NUMPAD6"@.len() == 10,
        "VK_NUMPAD6"@[0] == 'V',
        "VK_NUMPAD6"@[1] == 'K',
        "VK_NUMPAD6"@[2] == '_',
        "VK_NUMPAD6"@[3] == 'N',
        "VK_NUMPAD6"@[4] == 'U',
        "VK_NUMPAD6"@[5] == 'M',
        "VK_NUMPAD6"@[6] == 'P',
        "VK_NUMPAD6"@[7] == 'A',
        "VK_NUMPAD6"@[8] == 'D',
        "VK_NUMPAD6"@[9] == '6',
        "VK_NUMPAD7"@.len() == 10,
        "VK_NUMPAD7"@[0] == 'V',
        "VK_NUMPAD7"@[1] == 'K',
        "VK_NUMPAD7"@[2] == '_',
        "VK_NUMPAD7"@[3] == 'N',
        "VK_NUMPAD7"@[4] == 'U',
        "VK_NUMPAD7"@[5] == 'M',
        "VK_NUMPAD7"@[6] == 'P',
        "VK_NUMPAD7"@[7] == 'A',
        "VK_NUMPAD7"@[8] == 'D',
        "VK_NUMPAD7"@[9] == '7',
        "VK_NUMPAD8"@.len() == 10,
        "VK_NUMPAD8"@[0] == 'V',
        "VK_NUMPAD8"@[1] == 'K',
        "VK_NUMPAD8"@[2] == '_',
        "VK_NUMPAD8"@[3] == 'N',
        "VK_NUMPAD8"@[4] == 'U',
        "VK_NUMPAD8"@[5] == 'M',
        "VK_NUMPAD8"@[6] == 'P',
        "VK_NUMPAD8"@[7] == 'A',
        "VK_NUMPAD8"@[8] == 'D',
        "VK_NUMPAD8"@[9] == '8',
        "VK_NUMPAD9"@.len() == 10,
        "VK_NUMPAD9"@[0] == 'V',
        "VK_NUMPAD9"@[1] == 'K',
        "VK_NUMPAD9"@[2] == '_',
        "VK_NUMPAD9"@[3] == 'N',
        "VK_NUMPAD9"@[4] == 'U',
        "VK_NUMPAD9"@[5] == 'M',
        "VK_NUMPAD9"@[6] == 'P',
        "VK_NUMPAD9"@[7] == 'A',
        "VK_NUMPAD9"@[8] == 'D',
        "VK_NUMPAD9"@[9] == '9',
{
    reveal_strlit("VK_UP");
    reveal_strlit("VK_DOWN");
    reveal_strlit("VK_LEFT");
    reveal_strlit("VK_RIGHT");
    reveal_strlit("VK_RETURN");
    reveal_strlit("VK_ESCAPE");
    reveal_strlit("VK_SPACE");
    reveal_strlit("VK_TAB");
    reveal_strlit("VK_BACK");
    reveal_strlit("VK_DELETE");
    reveal_strlit("VK_INSERT");
    reveal_strlit("VK_HOME");
    reveal_strlit("VK_END");
    reveal_strlit("VK_PRIOR");
    reveal_strlit("VK_NEXT");
    reveal_strlit("VK_SHIFT");
    reveal_strlit("VK_CONTROL");
    reveal_strlit("VK_MENU");
    reveal_strlit("VK_CAPITAL");
    reveal_strlit("VK_NUMLOCK");
    reveal_strlit("VK_OEM_3");
    reveal_strlit("VK_OEM_MINUS");
    reveal_strlit("VK_OEM_PLUS");
    reveal_strlit("VK_OEM_COMMA");
    reveal_strlit("VK_OEM_PERIOD");
    reveal_strlit("VK_NUMPAD0");
    reveal_strlit("VK_NUMPAD1");
    reveal_strlit("VK_NUMPAD2");
    reveal_strlit("VK_NUMPAD3");
    reveal_strlit("VK_NUMPAD4");
    reveal_strlit("VK_NUMPAD5");
    reveal_strlit("VK_NUMPAD6");
    reveal_strlit("VK_NUMPAD7");
    reveal_strlit("VK_NUMPAD8");
    reveal_strlit("VK_NUMPAD9");
}

proof fn lemma_vk_names_plain()
    ensures
        ascii_upper("VK_UP"@) == "VK_UP"@,
        ascii_upper("VK_DOWN"@) == "VK_DOWN"@,
        ascii_upper("VK_LEFT"@) == "VK_LEFT"@,
        ascii_upper("VK_RIGHT"@) == "VK_RIGHT"@,
        ascii_upper("VK_RETURN"@) == "VK_RETURN"@,
        ascii_upper("VK_ESCAPE"@) == "VK_ESCAPE"@,
        ascii_upper("VK_SPACE"@) == "VK_SPACE"@,
        ascii_upper("VK_TAB"@) == "VK_TAB"@,
        ascii_upper("VK_BACK"@) == "VK_BACK"@,
        ascii_upper("VK_DELETE"@) == "VK_DELETE"@,
        ascii_upper("VK_INSERT"@) == "VK_INSERT"@,
        ascii_upper("VK_HOME"@) == "VK_HOME"@,
        ascii_upper("VK_END"@) == "VK_END"@,
        ascii_upper("VK_PRIOR"@) == "VK_PRIOR"@,
        ascii_upper("VK_NEXT"@) == "VK_NEXT"@,
        ascii_upper("VK_SHIFT"@) == "VK_SHIFT"@,
        ascii_upper("VK_CONTROL"@) == "VK_CONTROL"@,
        ascii_upper("VK_MENU"@) == "VK_MENU"@,
        ascii_upper("VK_CAPITAL"@) == "VK_CAPITAL"@,
        ascii_upper("VK_NUMLOCK"@) == "VK_NUMLOCK"@,
        ascii_upper("VK_OEM_3"@) == "VK_OEM_3"@,
        ascii_upper("VK_OEM_MINUS"@) == "VK_OEM_MINUS"@,
        ascii_upper("VK_OEM_PLUS"@) == "VK_OEM_PLUS"@,
        ascii_upper("VK_OEM_COMMA"@) == "VK_OEM_COMMA"@,
        ascii_upper("VK_OEM_PERIOD"@) == "VK_OEM_PERIOD"@,
        ascii_upper("VK_NUMPAD0"@) == "VK_NUMPAD0"@,
        ascii_upper("VK_NUMPAD1"@) == "VK_NUMPAD1"@,
        ascii_upper("VK_NUMPAD2"@) == "VK_NUMPAD2"@,
        ascii_upper("VK_NUMPAD3"@) == "VK_NUMPAD3"@,
        ascii_upper("VK_NUMPAD4"@) == "VK_NUMPAD4"@,
        ascii_upper("VK_NUMPAD5"@) == "VK_NUMPAD5"@,
        ascii_upper("VK_NUMPAD6"@) == "VK_NUMPAD6"@,
        ascii_upper("VK_NUMPAD7"@) == "VK_NUMPAD7"@,
        ascii_upper("VK_NUMPAD8"@) == "VK_NUMPAD8"@,
        ascii_upper("VK_NUMPAD9"@) == "VK_NUMPAD9"@,
{
    reveal_strlit("VK_UP");
    reveal_strlit("VK_DOWN");
    reveal_strlit("VK_LEFT");
    reveal_strlit("VK_RIGHT");
    reveal_strlit("VK_RETURN");
    reveal_strlit("VK_ESCAPE");
    reveal_strlit("VK_SPACE");
    reveal_strlit("VK_TAB");
    reveal_strlit("VK_BACK");
    reveal_strlit("VK_DELETE");
    reveal_strlit("VK_INSERT");
    reveal_strlit("VK_HOME");
    reveal_strlit("VK_END");
    reveal_strlit("VK_PRIOR");
    reveal_strlit("VK_NEXT");
    reveal_strlit("VK_SHIFT");
    reveal_strlit("VK_CONTROL");
    reveal_strlit("VK_MENU");
    reveal_strlit("VK_CAPITAL");
    reveal_strlit("VK_NUMLOCK");
    reveal_strlit("VK_OEM_3");
    reveal_strlit("VK_OEM_MINUS");
    reveal_strlit("VK_OEM_PLUS");
    reveal_strlit("VK_OEM_COMMA");
    reveal_strlit("VK_OEM_PERIOD");
    reveal_strlit("VK_NUMPAD0");
    reveal_strlit("VK_NUMPAD1");
    reveal_strlit("VK_NUMPAD2");
    reveal_strlit("VK_NUMPAD3");
    reveal_strlit("VK_NUMPAD4");
    reveal_strlit("VK_NUMPAD5");
    reveal_strlit("VK_NUMPAD6");
    reveal_strlit("VK_NUMPAD7");
    reveal_strlit("VK_NUMPAD8");
    reveal_strlit("VK_NUMPAD9");
    assert(ascii_upper("VK_UP"@) =~= "VK_UP"@);
    assert(ascii_upper("VK_DOWN"@) =~= "VK_DOWN"@);
    assert(ascii_upper("VK_LEFT"@) =~= "VK_LEFT"@);
    assert(ascii_upper("VK_RIGHT"@) =~= "VK_RIGHT"@);
    assert(ascii_upper("VK_RETURN"@) =~= "VK_RETURN"@);
    assert(ascii_upper("VK_ESCAPE"@) =~= "VK_ESCAPE"@);
    assert(ascii_upper("VK_SPACE"@) =~= "VK_SPACE"@);
    assert(ascii_upper("VK_TAB"@) =~= "VK_TAB"@);
    assert(ascii_upper("VK_BACK"@) =~= "VK_BACK"@);
    assert(ascii_upper("VK_DELETE"@) =~= "VK_DELETE"@);
    assert(ascii_upper("VK_INSERT"@) =~= "VK_INSERT"@);
    assert(ascii_upper("VK_HOME"@) =~= "VK_HOME"@);
    assert(ascii_upper("VK_END"@) =~= "VK_END"@);
    assert(ascii_upper("VK_PRIOR"@) =~= "VK_PRIOR"@);
    assert(ascii_upper("VK_NEXT"@) =~= "VK_NEXT"@);
    assert(ascii_upper("VK_SHIFT"@) =~= "VK_SHIFT"@);
    assert(ascii_upper("VK_CONTROL"@) =~= "VK_CONTROL"@);
    assert(ascii_upper("VK_MENU"@) =~= "VK_MENU"@);
    assert(ascii_upper("VK_CAPITAL"@) =~= "VK_CAPITAL"@);
    assert(ascii_upper("VK_NUMLOCK"@) =~= "VK_NUMLOCK"@);
    assert(ascii_upper("VK_OEM_3"@) =~= "VK_OEM_3"@);
    assert(ascii_upper("VK_OEM_MINUS"@) =~= "VK_OEM_MINUS"@);
    assert(ascii_upper("VK_OEM_PLUS"@) =~= "VK_OEM_PLUS"@);
    assert(ascii_upper("VK_OEM_COMMA"@) =~= "VK_OEM_COMMA"@);
    assert(ascii_upper("VK_OEM_PERIOD"@) =~= "VK_OEM_PERIOD"@);
    assert(ascii_upper("VK_NUMPAD0"@) =~= "VK_NUMPAD0"@);
    assert(ascii_upper("VK_NUMPAD1"@) =~= "VK_NUMPAD1"@);
    assert(ascii_upper("VK_NUMPAD2"@) =~= "VK_NUMPAD2"@);
    assert(ascii_upper("VK_NUMPAD3"@) =~= "VK_NUMPAD3"@);
    assert(ascii_upper("VK_NUMPAD4"@) =~= "VK_NUMPAD4"@);
    assert(ascii_upper("VK_NUMPAD5"@) =~= "VK_NUMPAD5"@);
    assert(ascii_upper("VK_NUMPAD6"@) =~= "VK_NUMPAD6"@);
    assert(ascii_upper("VK_NUMPAD7"@) =~= "VK_NUMPAD7"@);
    assert(ascii_upper("VK_NUMPAD8"@) =~= "VK_NUMPAD8"@);
    assert(ascii_upper("VK_NUMPAD9"@) =~= "VK_NUMPAD9"@);
}

/// The label of each named virtual key is the key it names on a keyboard
/// (table part 1).
pub proof fn law_named_key_labels_1()
    ensures
        single_key_label("VK_UP"@) == "↑ Arrow"@,
        single_key_label("VK_DOWN"@) == "↓ Arrow"@,
        single_key_label("VK_LEFT"@) == "← Arrow"@,
        single_key_label("VK_RIGHT"@) == "→ Arrow"@,
        single_key_label("VK_RETURN"@) == "Enter"@,
        single_key_label("VK_ESCAPE"@) == "Esc"@,
        single_key_label("VK_SPACE"@) == "Space"@,
        single_key_label("VK_TAB"@) == "Tab"@,
        single_key_label("VK_BACK"@) == "Backspace"@,
{
    lemma_vk_names_plain();
    lemma_vk_names_spelled();
}

/// The label of each named virtual key is the key it names on a keyboard
/// (table part 2).
pub proof fn law_named_key_labels_2()
    ensures
        single_key_label("VK_DELETE"@) == "Delete"@,
        single_key_label("VK_INSERT"@) == "Insert"@,
        single_key_label("VK_HOME"@) == "Home"@,
        single_key_label("VK_END"@) == "End"@,
        single_key_label("VK_PRIOR"@) == "Page Up"@,
        single_key_label("VK_NEXT"@) == "Page Down"@,
        single_key_label("VK_SHIFT"@) == "Shift"@,
        single_key_label("VK_CONTROL"@) == "Ctrl"@,
        single_key_label("VK_MENU"@) == "Alt"@,
{
    lemma_vk_names_plain();
    lemma_vk_names_spelled();
}

/// The label of each named virtual key is the key it names on a keyboard
/// (table part 3).
pub proof fn law_named_key_labels_3()
    ensures
        single_key_label("VK_CAPITAL"@) == "Caps Lock"@,
        single_key_label("VK_NUMLOCK"@) == "Num Lock"@,
        single_key_label("VK_OEM_3"@) == "` (Backtick)"@,
        single_key_label("VK_OEM_MINUS"@) == "- (Minus)"@,
        single_key_label("VK_OEM_PLUS"@) == "= (Equals)"@,
        single_key_label("VK_OEM_COMMA"@) == ", (Comma)"@,
        single_key_label("VK_OEM_PERIOD"@) == ". (Period)"@,
        single_key_label("VK_NUMPAD0"@) == "Numpad 0"@,
        single_key_label("VK_NUMPAD1"@) == "Numpad 1"@,
{
    lemma_vk_names_plain();
    lemma_vk_names_spelled();
}

/// The label of each named virtual key is the key it names on a keyboard
/// (table part 4).
pub proof fn law_named_key_labels_4()
    ensures
        single_key_label("VK_NUMPAD2"@) == "Numpad 2"@,
        single_key_label("VK_NUMPAD3"@) == "Numpad 3"@,
        single_key_label("VK_NUMPAD4"@) == "Numpad 4"@,
        single_key_label("VK_NUMPAD5"@) == "Numpad 5"@,
        single_key_label("VK_NUMPAD6"@) == "Numpad 6"@,
        single_key_label("VK_NUMPAD7"@) == "Numpad 7"@,
        single_key_label("VK_NUMPAD8"@) == "Numpad 8"@,
        single_key_label("VK_NUMPAD9"@) == "Numpad 9"@,
{
    lemma_vk_names_plain();
    lemma_vk_names_spelled();
}

} // verus!
