//! The download queue and the decisions of its install pipeline.
//!
//! Downloads run one at a time: the oldest queued item is started, streamed
//! to a staging folder, extracted, and placed under the game's mod folder
//! (pausing when the destination already exists). This module holds the
//! queue's state transitions and every naming and placement rule; the
//! network, archive and filesystem work happens around it.

use vstd::prelude::*;
use crate::ini::opt_view;
use crate::keys::{join_with, split_words, words};
use crate::mods::{contains_name, names_view};
use crate::paths::{
    base_name, has_segment, join, join_path, kept_parts, last_slash, last_slash_exec,
    lemma_last_slash, segments, split_segments,
};
use crate::text::{
    append_chars, append_str, ascii_lower, chars_eq, chars_of, decimal, decimal_chars, eq_str,
    is_control, is_control_char, lit, string_of, string_of_range, to_lower_ascii, trim, trim_char,
    trim_char_range, trim_range,
};

verus! {

// ---------------------------------------------------------------------------
// Folder names
// ---------------------------------------------------------------------------

/// Characters that are invalid (or awkward) in folder names on common
/// filesystems.
pub open spec fn is_illegal_name_char(c: char) -> bool {
    c == '/' || c == '\\' || c == ':' || c == '*' || c == '?' || c == '"' || c == '<' || c == '>'
        || c == '|'
}

pub open spec fn blank_char(c: char) -> char {
    if is_illegal_name_char(c) || is_control(c) {
        ' '
    } else {
        c
    }
}

/// The longest folder name `sanitize_component` produces, in characters.
pub const MAX_COMPONENT_CHARS: usize = 120;

/// The folder name made from `name`: illegal and control characters become
/// spaces, runs of whitespace collapse to one space, dots and whitespace are
/// trimmed from both ends, and the result is cut to 120 characters; an
/// empty result becomes `mod`.
pub open spec fn sanitized(name: Seq<char>) -> Seq<char> {
    let collapsed = join_with(words(name.map_values(|c: char| blank_char(c))), seq![' ']);
    let t = trim(trim_char(collapsed, '.'));
    if t.len() == 0 {
        "mod"@
    } else if t.len() <= MAX_COMPONENT_CHARS {
        t
    } else {
        t.subrange(0, MAX_COMPONENT_CHARS as int)
    }
}

fn blank_char_exec(c: char) -> (r: char)
    ensures
        r == blank_char(c),
{
    if c == '/' || c == '\\' || c == ':' || c == '*' || c == '?' || c == '"' || c == '<' || c
        == '>' || c == '|' || is_control_char(c) {
        ' '
    } else {
        c
    }
}

/// `parts` joined with `sep` between them.
pub fn join_parts(parts: &Vec<Vec<char>>, sep: char) -> (r: Vec<char>)
    ensures
        r@ == join_with(parts@.map_values(|w: Vec<char>| w@), seq![sep]),
{
    let ghost pv = parts@.map_values(|w: Vec<char>| w@);
    let mut out: Vec<char> = Vec::new();
    let mut k: usize = 0;
    while k < parts.len()
        invariant
            k <= parts.len(),
            pv == parts@.map_values(|w: Vec<char>| w@),
            out@ == join_with(pv.subrange(0, k as int), seq![sep]),
        decreases parts.len() - k,
    {
        let ghost pre = pv.subrange(0, k as int);
        if k > 0 {
            out.push(sep);
        }
        append_chars(&mut out, &parts[k]);
        k = k + 1;
        proof {
            let post = pv.subrange(0, k as int);
            assert(post.drop_last() =~= pre);
            assert(post.last() == parts@[k - 1]@);
            if k == 1 {
                assert(out@ =~= post[0]);
            } else {
                assert(out@ =~= join_with(pre, seq![sep]) + seq![sep] + post.last());
            }
        }
    }
    assert(pv.subrange(0, parts.len() as int) =~= pv);
    out
}

/// A folder name for `name` that is safe on common filesystems (see
/// `sanitized`).
pub fn sanitize_component(name: &str) -> (r: String)
    ensures
        r@ == sanitized(name@),
{
    let v: Vec<char> = chars_of(name);
    let mut cleaned: Vec<char> = Vec::new();
    let mut i: usize = 0;
    while i < v.len()
        invariant
            i <= v.len(),
            cleaned@ == v@.subrange(0, i as int).map_values(|c: char| blank_char(c)),
        decreases v.len() - i,
    {
        cleaned.push(blank_char_exec(v[i]));
        i = i + 1;
        assert(cleaned@ =~= v@.subrange(0, i as int).map_values(|c: char| blank_char(c)));
    }
    assert(v@.subrange(0, v.len() as int) =~= v@);
    let ws: Vec<Vec<char>> = split_words(&cleaned);
    let collapsed: Vec<char> = join_parts(&ws, ' ');
    let (a, b) = trim_char_range(&collapsed, '.');
    let (c, d) = trim_range(&collapsed, a, b);
    if c == d {
        lit("mod")
    } else if d - c <= MAX_COMPONENT_CHARS {
        string_of_range(&collapsed, c, d)
    } else {
        let r = string_of_range(&collapsed, c, c + MAX_COMPONENT_CHARS);
        assert(r@ =~= collapsed@.subrange(c as int, d as int).subrange(
            0,
            MAX_COMPONENT_CHARS as int,
        ));
        r
    }
}

/// A character that may stand in a folder name made by `sanitize_component`.
pub open spec fn safe_name_char(c: char) -> bool {
    !is_illegal_name_char(c) && !is_control(c)
}

pub open spec fn all_safe(s: Seq<char>) -> bool {
    forall|i: int| 0 <= i < s.len() ==> safe_name_char(#[trigger] s[i])
}

proof fn lemma_words_safe(s: Seq<char>)
    requires
        all_safe(s),
    ensures
        forall|k: int| 0 <= k < words(s).len() ==> all_safe(#[trigger] words(s)[k]),
    decreases s.len(),
{
    if s.len() > 0 {
        let p = words(s.drop_last());
        assert(all_safe(s.drop_last())) by {
            assert forall|i: int| 0 <= i < s.drop_last().len() implies safe_name_char(
                #[trigger] s.drop_last()[i],
            ) by {
                assert(s.drop_last()[i] == s[i]);
            }
        }
        lemma_words_safe(s.drop_last());
        let c = s.last();
        assert(safe_name_char(c)) by {
            assert(c == s[s.len() - 1]);
        }
        let w = words(s);
        if crate::text::is_ws(c) {
        } else if s.len() >= 2 && !crate::text::is_ws(s[s.len() - 2]) {
            assert(p.len() > 0) by {
                lemma_words_nonempty_when_word_ends(s.drop_last());
            }
            assert forall|k: int| 0 <= k < w.len() implies all_safe(#[trigger] w[k]) by {
                if k == p.len() - 1 {
                    assert(w[k] == p.last().push(c));
                    assert(all_safe(p[k]));
                    assert forall|i: int| 0 <= i < w[k].len() implies safe_name_char(
                        #[trigger] w[k][i],
                    ) by {
                        if i < p.last().len() {
                            assert(w[k][i] == p[k][i]);
                        }
                    }
                } else {
                    assert(w[k] == p[k]);
                }
            }
        } else {
            assert forall|k: int| 0 <= k < w.len() implies all_safe(#[trigger] w[k]) by {
                if k < p.len() {
                    assert(w[k] == p[k]);
                } else {
                    assert(w[k] == seq![c]);
                }
            }
        }
    }
}

proof fn lemma_words_nonempty_when_word_ends(s: Seq<char>)
    requires
        s.len() > 0,
        !crate::text::is_ws(s.last()),
    ensures
        words(s).len() > 0,
    decreases s.len(),
{
    if s.len() >= 2 && !crate::text::is_ws(s[s.len() - 2]) {
        assert(s.drop_last().last() == s[s.len() - 2]);
        lemma_words_nonempty_when_word_ends(s.drop_last());
    }
}

proof fn lemma_join_safe(parts: Seq<Seq<char>>)
    requires
        forall|k: int| 0 <= k < parts.len() ==> all_safe(#[trigger] parts[k]),
    ensures
        all_safe(join_with(parts, seq![' '])),
    decreases parts.len(),
{
    if parts.len() > 1 {
        let p = parts.drop_last();
        assert forall|k: int| 0 <= k < p.len() implies all_safe(#[trigger] p[k]) by {
            assert(p[k] == parts[k]);
        }
        lemma_join_safe(p);
        let a = join_with(p, seq![' ']);
        let j = a + seq![' '] + parts.last();
        assert(all_safe(parts[parts.len() - 1]));
        assert forall|i: int| 0 <= i < j.len() implies safe_name_char(#[trigger] j[i]) by {
            if i < a.len() {
                assert(j[i] == a[i]);
            } else if i == a.len() {
                assert(j[i] == ' ');
            } else {
                assert(j[i] == parts.last()[i - a.len() - 1]);
            }
        }
    } else if parts.len() == 1 {
        assert(all_safe(parts[0]));
    }
}

proof fn lemma_trim_start_sub(s: Seq<char>)
    ensures
        exists|a: int| 0 <= a <= s.len() && crate::text::trim_start(s) == s.subrange(a, s.len() as int),
    decreases s.len(),
{
    if s.len() > 0 && crate::text::is_ws(s[0]) {
        lemma_trim_start_sub(s.drop_first());
        let a = choose|a: int|
            0 <= a <= s.drop_first().len() && crate::text::trim_start(s.drop_first())
                == s.drop_first().subrange(a, s.drop_first().len() as int);
        assert(s.drop_first().subrange(a, s.drop_first().len() as int) =~= s.subrange(
            a + 1,
            s.len() as int,
        ));
    } else {
        assert(s.subrange(0, s.len() as int) =~= s);
    }
}

proof fn lemma_trim_end_sub(s: Seq<char>)
    ensures
        exists|b: int| 0 <= b <= s.len() && crate::text::trim_end(s) == s.subrange(0, b),
    decreases s.len(),
{
    if s.len() > 0 && crate::text::is_ws(s.last()) {
        lemma_trim_end_sub(s.drop_last());
        let b = choose|b: int|
            0 <= b <= s.drop_last().len() && crate::text::trim_end(s.drop_last())
                == s.drop_last().subrange(0, b);
        assert(s.drop_last().subrange(0, b) =~= s.subrange(0, b));
    } else {
        assert(s.subrange(0, s.len() as int) =~= s);
    }
}

proof fn lemma_trim_char_start_sub(s: Seq<char>, c: char)
    ensures
        exists|a: int|
            0 <= a <= s.len() && crate::text::trim_char_start(s, c) == s.subrange(a, s.len() as int),
    decreases s.len(),
{
    if s.len() > 0 && s[0] == c {
        lemma_trim_char_start_sub(s.drop_first(), c);
        let a = choose|a: int|
            0 <= a <= s.drop_first().len() && crate::text::trim_char_start(s.drop_first(), c)
                == s.drop_first().subrange(a, s.drop_first().len() as int);
        assert(s.drop_first().subrange(a, s.drop_first().len() as int) =~= s.subrange(
            a + 1,
            s.len() as int,
        ));
    } else {
        assert(s.subrange(0, s.len() as int) =~= s);
    }
}

proof fn lemma_trim_char_end_sub(s: Seq<char>, c: char)
    ensures
        exists|b: int| 0 <= b <= s.len() && crate::text::trim_char_end(s, c) == s.subrange(0, b),
    decreases s.len(),
{
    if s.len() > 0 && s.last() == c {
        lemma_trim_char_end_sub(s.drop_last(), c);
        let b = choose|b: int|
            0 <= b <= s.drop_last().len() && crate::text::trim_char_end(s.drop_last(), c)
                == s.drop_last().subrange(0, b);
        assert(s.drop_last().subrange(0, b) =~= s.subrange(0, b));
    } else {
        assert(s.subrange(0, s.len() as int) =~= s);
    }
}

proof fn lemma_sub_safe(s: Seq<char>, a: int, b: int)
    requires
        all_safe(s),
        0 <= a <= b <= s.len(),
    ensures
        all_safe(s.subrange(a, b)),
{
    assert forall|i: int| 0 <= i < s.subrange(a, b).len() implies safe_name_char(
        #[trigger] s.subrange(a, b)[i],
    ) by {
        assert(s.subrange(a, b)[i] == s[a + i]);
    }
}

/// At `i`, `s` has two whitespace characters side by side.
pub open spec fn doubled_space_at(s: Seq<char>, i: int) -> bool {
    &&& 0 <= i
    &&& i + 1 < s.len()
    &&& crate::text::is_ws(s[i])
    &&& crate::text::is_ws(s[i + 1])
}

/// The only whitespace in `s` is plain spaces, never two side by side.
pub open spec fn single_spaced(s: Seq<char>) -> bool {
    &&& forall|i: int| 0 <= i < s.len() && crate::text::is_ws(#[trigger] s[i]) ==> s[i] == ' '
    &&& forall|i: int| !#[trigger] doubled_space_at(s, i)
}

proof fn lemma_single_spaced_sub(s: Seq<char>, a: int, b: int)
    requires
        single_spaced(s),
        0 <= a <= b <= s.len(),
    ensures
        single_spaced(s.subrange(a, b)),
{
    let t = s.subrange(a, b);
    assert forall|i: int| 0 <= i < t.len() && crate::text::is_ws(#[trigger] t[i]) implies t[i]
        == ' ' by {
        assert(t[i] == s[a + i]);
    }
    assert forall|i: int| !#[trigger] doubled_space_at(t, i) by {
        if doubled_space_at(t, i) {
            assert(t[i] == s[a + i] && t[i + 1] == s[a + i + 1]);
            assert(doubled_space_at(s, a + i));
        }
    }
}

/// A word: not empty, and no whitespace in it.
pub open spec fn is_word(w: Seq<char>) -> bool {
    w.len() > 0 && forall|j: int| 0 <= j < w.len() ==> !crate::text::is_ws(#[trigger] w[j])
}

proof fn lemma_words_are_words(s: Seq<char>)
    ensures
        forall|k: int| 0 <= k < words(s).len() ==> is_word(#[trigger] words(s)[k]),
        s.len() > 0 && !crate::text::is_ws(s.last()) ==> words(s).len() > 0,
    decreases s.len(),
{
    if s.len() > 0 {
        let p = words(s.drop_last());
        lemma_words_are_words(s.drop_last());
        let c = s.last();
        let w = words(s);
        if crate::text::is_ws(c) {
        } else if s.len() >= 2 && !crate::text::is_ws(s[s.len() - 2]) {
            assert(s.drop_last().last() == s[s.len() - 2]);
            assert(p.len() > 0);
            assert forall|k: int| 0 <= k < w.len() implies is_word(#[trigger] w[k]) by {
                if k == p.len() - 1 {
                    assert(w[k] == p.last().push(c));
                    assert(is_word(p[k]));
                    assert forall|j: int| 0 <= j < w[k].len() implies !crate::text::is_ws(
                        #[trigger] w[k][j],
                    ) by {
                        if j < p.last().len() {
                            assert(w[k][j] == p[k][j]);
                        }
                    }
                } else {
                    assert(w[k] == p[k]);
                }
            }
        } else {
            assert forall|k: int| 0 <= k < w.len() implies is_word(#[trigger] w[k]) by {
                if k < p.len() {
                    assert(w[k] == p[k]);
                } else {
                    assert(w[k] == seq![c]);
                }
            }
        }
    }
}

proof fn lemma_words_of_blank(s: Seq<char>)
    requires
        forall|i: int| 0 <= i < s.len() ==> crate::text::is_ws(#[trigger] s[i]),
    ensures
        words(s).len() == 0,
    decreases s.len(),
{
    if s.len() > 0 {
        assert(crate::text::is_ws(s[s.len() - 1]));
        lemma_words_of_blank(s.drop_last());
    }
}

proof fn lemma_join_single_spaced(parts: Seq<Seq<char>>)
    requires
        forall|k: int| 0 <= k < parts.len() ==> is_word(#[trigger] parts[k]),
    ensures
        single_spaced(join_with(parts, seq![' '])),
        parts.len() > 0 ==> join_with(parts, seq![' ']).len() > 0 && !crate::text::is_ws(
            join_with(parts, seq![' ']).last(),
        ),
    decreases parts.len(),
{
    let j = join_with(parts, seq![' ']);
    if parts.len() == 1 {
        let w = parts[0];
        assert(is_word(w));
        assert(j == w);
        assert forall|i: int| !#[trigger] doubled_space_at(j, i) by {
            if doubled_space_at(j, i) {
                assert(!crate::text::is_ws(w[i]));
            }
        }
        assert(!crate::text::is_ws(w[w.len() - 1]));
    } else if parts.len() > 1 {
        let p = parts.drop_last();
        assert forall|k: int| 0 <= k < p.len() implies is_word(#[trigger] p[k]) by {
            assert(p[k] == parts[k]);
        }
        lemma_join_single_spaced(p);
        let a = join_with(p, seq![' ']);
        let w = parts.last();
        assert(is_word(parts[parts.len() - 1]));
        assert(j == a + seq![' '] + w);
        assert forall|i: int| 0 <= i < j.len() && crate::text::is_ws(#[trigger] j[i]) implies j[i]
            == ' ' by {
            if i < a.len() {
                assert(j[i] == a[i]);
            } else if i > a.len() {
                assert(j[i] == w[i - a.len() - 1]);
            }
        }
        assert forall|i: int| !#[trigger] doubled_space_at(j, i) by {
            if doubled_space_at(j, i) {
                if i + 1 < a.len() {
                    assert(j[i] == a[i] && j[i + 1] == a[i + 1]);
                    assert(doubled_space_at(a, i));
                } else if i + 1 == a.len() {
                    assert(j[i] == a.last());
                } else if i == a.len() {
                    assert(j[i + 1] == w[0]);
                } else {
                    assert(j[i] == w[i - a.len() - 1]);
                }
            }
        }
        assert(j.last() == w[w.len() - 1]);
    }
}

proof fn lemma_trim_start_first(s: Seq<char>)
    ensures
        crate::text::trim_start(s).len() > 0 ==> !crate::text::is_ws(crate::text::trim_start(s)[0]),
    decreases s.len(),
{
    if s.len() > 0 && crate::text::is_ws(s[0]) {
        lemma_trim_start_first(s.drop_first());
    }
}

/// Whatever name it is given, `sanitize_component` makes a folder name of
/// 1 to 120 characters with no character that is invalid in folder names
/// and no control character; it does not start with whitespace, its only
/// whitespace is single plain spaces, and a name made of nothing but
/// whitespace, invalid and control characters becomes `mod`.
pub proof fn law_sanitized_is_a_safe_folder_name(name: Seq<char>)
    ensures
        1 <= sanitized(name).len() <= MAX_COMPONENT_CHARS,
        all_safe(sanitized(name)),
        !crate::text::is_ws(sanitized(name)[0]),
        single_spaced(sanitized(name)),
        (forall|i: int|
            0 <= i < name.len() ==> crate::text::is_ws(#[trigger] name[i]) || is_illegal_name_char(
                name[i],
            ) || is_control(name[i])) ==> sanitized(name) == "mod"@,
{
    let cleaned = name.map_values(|c: char| blank_char(c));
    assert(all_safe(cleaned)) by {
        assert forall|i: int| 0 <= i < cleaned.len() implies safe_name_char(#[trigger] cleaned[i]) by {
            assert(cleaned[i] == blank_char(name[i]));
        }
    }
    lemma_words_safe(cleaned);
    let collapsed = join_with(words(cleaned), seq![' ']);
    lemma_join_safe(words(cleaned));
    lemma_trim_char_start_sub(collapsed, '.');
    let a = choose|a: int|
        0 <= a <= collapsed.len() && crate::text::trim_char_start(collapsed, '.')
            == collapsed.subrange(a, collapsed.len() as int);
    let t1 = crate::text::trim_char_start(collapsed, '.');
    lemma_sub_safe(collapsed, a, collapsed.len() as int);
    lemma_trim_char_end_sub(t1, '.');
    let b = choose|b: int| 0 <= b <= t1.len() && crate::text::trim_char_end(t1, '.') == t1.subrange(0, b);
    lemma_sub_safe(t1, 0, b);
    let t2 = trim_char(collapsed, '.');
    lemma_trim_start_sub(t2);
    let c = choose|c: int| 0 <= c <= t2.len() && crate::text::trim_start(t2) == t2.subrange(c, t2.len() as int);
    lemma_sub_safe(t2, c, t2.len() as int);
    let t3 = crate::text::trim_start(t2);
    lemma_trim_end_sub(t3);
    let d = choose|d: int| 0 <= d <= t3.len() && crate::text::trim_end(t3) == t3.subrange(0, d);
    lemma_sub_safe(t3, 0, d);
    let t = trim(t2);
    lemma_words_are_words(cleaned);
    lemma_join_single_spaced(words(cleaned));
    lemma_single_spaced_sub(collapsed, a, collapsed.len() as int);
    lemma_single_spaced_sub(t1, 0, b);
    lemma_single_spaced_sub(t2, c, t2.len() as int);
    lemma_single_spaced_sub(t3, 0, d);
    lemma_trim_start_first(t2);
    if t.len() > 0 {
        assert(t[0] == t3[0]);
    }
    if t.len() == 0 {
        reveal_strlit("mod");
        assert(all_safe("mod"@));
        let m = "mod"@;
        assert(m[0] == 'm' && m[1] == 'o' && m[2] == 'd');
        assert forall|i: int| 0 <= i < m.len() implies !crate::text::is_ws(#[trigger] m[i]) by {}
        assert(single_spaced(m));
    } else if t.len() > MAX_COMPONENT_CHARS {
        lemma_sub_safe(t, 0, MAX_COMPONENT_CHARS as int);
        lemma_single_spaced_sub(t, 0, MAX_COMPONENT_CHARS as int);
    }
    if forall|i: int|
        0 <= i < name.len() ==> crate::text::is_ws(#[trigger] name[i]) || is_illegal_name_char(
            name[i],
        ) || is_control(name[i]) {
        assert forall|i: int| 0 <= i < cleaned.len() implies crate::text::is_ws(
            #[trigger] cleaned[i],
        ) by {
            assert(cleaned[i] == blank_char(name[i]));
            assert(crate::text::is_ws(name[i]) || is_illegal_name_char(name[i]) || is_control(
                name[i],
            ));
        }
        lemma_words_of_blank(cleaned);
        assert(collapsed.len() == 0);
        assert(t1.len() == 0);
        assert(t2.len() == 0);
        assert(t3.len() == 0);
    }
}

// ---------------------------------------------------------------------------
// Archive entry paths
// ---------------------------------------------------------------------------

/// An archive entry name as a path relative to the extraction folder:
/// refused when absolute, when any segment is `..`, or when nothing is left;
/// otherwise its named segments joined with '/'.
pub open spec fn safe_relative(raw: Seq<char>) -> Option<Seq<char>> {
    if raw.len() > 0 && raw[0] == '/' {
        None
    } else if has_segment(raw, ".."@) {
        None
    } else if kept_parts(segments(raw)).len() == 0 {
        None
    } else {
        Some(join_with(kept_parts(segments(raw)), seq!['/']))
    }
}

/// Rejects path-traversal (`..`) and absolute entry names, so that an
/// archive cannot write outside the folder it is extracted to; a safe name
/// comes back with `.` and empty segments removed.
pub fn safe_relative_path(raw: &str) -> (r: Option<String>)
    ensures
        opt_view(r) == safe_relative(raw@),
{
    let v: Vec<char> = chars_of(raw);
    if v.len() > 0 && v[0] == '/' {
        return None;
    }
    let segs: Vec<Vec<char>> = split_segments(&v);
    let ghost sv = segs@.map_values(|s: Vec<char>| s@);
    let ghost mut kept: Seq<Seq<char>> = Seq::empty();
    let mut out: Vec<char> = Vec::new();
    let mut count: usize = 0;
    let mut i: usize = 0;
    while i < segs.len()
        invariant
            i <= segs.len(),
            sv == segs@.map_values(|s: Vec<char>| s@),
            sv == segments(v@),
            v@ == raw@,
            kept == kept_parts(sv.subrange(0, i as int)),
            count == kept.len(),
            count <= i,
            out@ == join_with(kept, seq!['/']),
            forall|j: int| 0 <= j < i ==> sv[j] != ".."@,
        decreases segs.len() - i,
    {
        let s: &Vec<char> = &segs[i];
        let ghost pre = sv.subrange(0, i as int);
        let ghost post = sv.subrange(0, i + 1);
        proof {
            assert(post.drop_last() =~= pre);
            assert(post.last() == s@);
        }
        if eq_str(s, "..") {
            assert(sv[i as int] == ".."@);
            return None;
        }
        if s.len() == 0 || eq_str(s, ".") {
            proof {
                kept = kept_parts(post);
            }
        } else {
            let ghost old_kept = kept;
            if count > 0 {
                out.push('/');
            }
            append_chars(&mut out, s);
            count = count + 1;
            proof {
                kept = kept_parts(post);
                assert(kept == old_kept.push(s@));
                if old_kept.len() == 0 {
                    assert(out@ =~= kept[0]);
                } else {
                    assert(kept.drop_last() =~= old_kept);
                    assert(out@ =~= join_with(old_kept, seq!['/']) + seq!['/'] + kept.last());
                }
            }
        }
        i = i + 1;
    }
    assert(sv.subrange(0, segs.len() as int) =~= sv);
    assert(!has_segment(raw@, ".."@));
    if count == 0 {
        None
    } else {
        Some(string_of(&out))
    }
}

/// An accepted archive entry path stays inside the extraction folder: it
/// is relative, and its segments are plain names — none is empty, `.` or
/// `..`, and splitting it at '/' gives back exactly the named segments of
/// the entry.
pub proof fn law_safe_path_stays_inside(raw: Seq<char>)
    ensures
        safe_relative(raw) matches Some(r) ==> {
            &&& r.len() > 0 && r[0] != '/'
            &&& segments(r) == kept_parts(segments(raw))
            &&& forall|k: int|
                0 <= k < segments(r).len() ==> {
                    let part = #[trigger] segments(r)[k];
                    &&& part.len() > 0
                    &&& part != "."@
                    &&& part != ".."@
                    &&& !part.contains('/')
                }
        },
{
    if let Some(r) = safe_relative(raw) {
        let segs = segments(raw);
        let parts = kept_parts(segs);
        crate::paths::lemma_kept_parts(segs);
        crate::paths::lemma_segments_plain(raw);
        assert forall|k: int| 0 <= k < parts.len() implies !(#[trigger] parts[k]).contains('/') && parts[k]
            != ".."@ by {
            let i = choose|i: int| 0 <= i < segs.len() && segs[i] == parts[k];
            assert(!segs[i].contains('/'));
            assert(!has_segment(raw, ".."@));
        }
        crate::paths::lemma_segments_join(parts);
        assert(parts[0].len() > 0);
        if parts.len() == 1 {
            assert(r == parts[0]);
        } else {
            lemma_join_first(parts);
        }
        assert(r[0] == parts[0][0]);
        if r[0] == '/' {
            assert(parts[0].contains('/'));
        }
    }
}

proof fn lemma_join_first(parts: Seq<Seq<char>>)
    requires
        parts.len() >= 1,
        parts[0].len() > 0,
    ensures
        join_with(parts, seq!['/']).len() > 0,
        join_with(parts, seq!['/'])[0] == parts[0][0],
    decreases parts.len(),
{
    if parts.len() > 1 {
        lemma_join_first(parts.drop_last());
    }
}

// ---------------------------------------------------------------------------
// File names and extensions
// ---------------------------------------------------------------------------

/// The last component of `p`, as `Path::file_name` reads it: none when the
/// path names nothing or ends in `..`.
pub open spec fn file_name_of(p: Seq<char>) -> Option<Seq<char>> {
    let parts = kept_parts(segments(p));
    if parts.len() == 0 || parts.last() == ".."@ {
        None
    } else {
        Some(parts.last())
    }
}

/// Index of the last `c` in `s`, if any.
pub open spec fn last_index(s: Seq<char>, c: char) -> Option<int>
    decreases s.len(),
{
    if s.len() == 0 {
        None
    } else if s.last() == c {
        Some(s.len() - 1)
    } else {
        last_index(s.drop_last(), c)
    }
}

/// The extension of `p` as `Path::extension` reads it: the text after the
/// last '.' of its file name, unless that '.' is the name's first character.
pub open spec fn extension_of(p: Seq<char>) -> Option<Seq<char>> {
    match file_name_of(p) {
        None => None,
        Some(f) => match last_index(f, '.') {
            None => None,
            Some(i) => if i == 0 {
                None
            } else {
                Some(f.subrange(i + 1, f.len() as int))
            },
        },
    }
}

pub(crate) proof fn lemma_last_index(s: Seq<char>, c: char)
    ensures
        last_index(s, c) matches Some(i) ==> 0 <= i < s.len() && s[i] == c,
    decreases s.len(),
{
    if s.len() > 0 {
        lemma_last_index(s.drop_last(), c);
    }
}

pub(crate) fn last_index_exec(v: &Vec<char>, c: char) -> (r: Option<usize>)
    ensures
        match r {
            Some(i) => last_index(v@, c) == Some(i as int),
            None => last_index(v@, c) is None,
        },
{
    let mut i: usize = v.len();
    assert(v@.subrange(0, v.len() as int) =~= v@);
    while i > 0 && v[i - 1] != c
        invariant
            i <= v.len(),
            last_index(v@, c) == last_index(v@.subrange(0, i as int), c),
        decreases i,
    {
        assert(v@.subrange(0, i as int).drop_last() =~= v@.subrange(0, i - 1));
        i = i - 1;
    }
    if i == 0 {
        None
    } else {
        Some(i - 1)
    }
}

/// The file name of `p` (see `file_name_of`).
pub fn file_name(p: &str) -> (r: Option<String>)
    ensures
        opt_view(r) == file_name_of(p@),
{
    let v: Vec<char> = chars_of(p);
    let segs: Vec<Vec<char>> = split_segments(&v);
    let ghost sv = segs@.map_values(|s: Vec<char>| s@);
    let ghost mut kept: Seq<Seq<char>> = Seq::empty();
    let mut last: Option<usize> = None;
    let mut i: usize = 0;
    while i < segs.len()
        invariant
            i <= segs.len(),
            sv == segs@.map_values(|s: Vec<char>| s@),
            sv == segments(v@),
            v@ == p@,
            kept == kept_parts(sv.subrange(0, i as int)),
            match last {
                Some(j) => j < i && kept.len() > 0 && kept.last() == sv[j as int],
                None => kept.len() == 0,
            },
        decreases segs.len() - i,
    {
        let ghost pre = sv.subrange(0, i as int);
        let ghost post = sv.subrange(0, i + 1);
        proof {
            assert(post.drop_last() =~= pre);
            assert(post.last() == segs@[i as int]@);
        }
        if !(segs[i].len() == 0 || eq_str(&segs[i], ".")) {
            last = Some(i);
        }
        proof {
            kept = kept_parts(post);
        }
        i = i + 1;
    }
    assert(sv.subrange(0, segs.len() as int) =~= sv);
    match last {
        None => None,
        Some(j) => {
            if eq_str(&segs[j], "..") {
                None
            } else {
                Some(string_of(&segs[j]))
            }
        },
    }
}

/// The extension of `p` (see `extension_of`).
pub fn extension(p: &str) -> (r: Option<String>)
    ensures
        opt_view(r) == extension_of(p@),
{
    match file_name(p) {
        None => None,
        Some(f) => {
            let v: Vec<char> = chars_of(f.as_str());
            match last_index_exec(&v, '.') {
                None => None,
                Some(i) => {
                    proof {
                        lemma_last_index(v@, '.');
                    }
                    if i == 0 {
                        None
                    } else {
                        Some(string_of_range(&v, i + 1, v.len()))
                    }
                },
            }
        },
    }
}

// ---------------------------------------------------------------------------
// Free sibling names
// ---------------------------------------------------------------------------

/// The folder that holds `p`: the text before its last '/', `/` for a
/// top-level entry, or nothing for a bare name.
pub open spec fn dir_of(p: Seq<char>) -> Seq<char> {
    match last_slash(p) {
        Some(i) => if i == 0 {
            seq!['/']
        } else {
            p.subrange(0, i)
        },
        None => Seq::<char>::empty(),
    }
}

/// The name of `p`, or `mod` when it has none.
pub open spec fn stem_of(p: Seq<char>) -> Seq<char> {
    if base_name(p).len() == 0 {
        "mod"@
    } else {
        base_name(p)
    }
}

/// `stem (n)`.
pub open spec fn sibling_name(stem: Seq<char>, n: nat) -> Seq<char> {
    stem + " ("@ + decimal(n) + ")"@
}

/// `n` is the least number from 2 on whose sibling name is not in `names`.
pub open spec fn least_free(stem: Seq<char>, names: Seq<Seq<char>>, n: nat) -> bool {
    &&& n >= 2
    &&& !names.contains(sibling_name(stem, n))
    &&& forall|k: nat| 2 <= k < n ==> names.contains(#[trigger] sibling_name(stem, k))
}

pub proof fn lemma_digits_nonempty(n: nat)
    ensures
        decimal(n).len() >= 1,
    decreases n,
{
    if n >= 10 {
        lemma_digits_nonempty(n / 10);
    }
}

proof fn lemma_digit_char_injective(a: nat, b: nat)
    requires
        a < 10,
        b < 10,
        crate::text::digit_char(a) == crate::text::digit_char(b),
    ensures
        a == b,
{
    assert((48 + a) as char as u32 == 48 + a);
    assert((48 + b) as char as u32 == 48 + b);
}

pub proof fn lemma_decimal_injective(a: nat, b: nat)
    requires
        decimal(a) == decimal(b),
    ensures
        a == b,
    decreases a,
{
    if a < 10 {
        if b >= 10 {
            lemma_digits_nonempty(b / 10);
            assert(decimal(b).len() >= 2);
        }
        assert(decimal(a) == seq![crate::text::digit_char(a)]);
        assert(decimal(b) == seq![crate::text::digit_char(b)]);
        assert(decimal(a)[0] == crate::text::digit_char(a));
        assert(decimal(b)[0] == crate::text::digit_char(b));
        lemma_digit_char_injective(a, b);
    } else {
        if b < 10 {
            lemma_digits_nonempty(a / 10);
            assert(decimal(a).len() >= 2);
        }
        assert(decimal(a) == decimal(a / 10).push(crate::text::digit_char(a % 10)));
        assert(decimal(b) == decimal(b / 10).push(crate::text::digit_char(b % 10)));
        assert(decimal(a).last() == crate::text::digit_char(a % 10));
        assert(decimal(b).last() == crate::text::digit_char(b % 10));
        lemma_digit_char_injective(a % 10, b % 10);
        assert(decimal(a).drop_last() =~= decimal(a / 10));
        assert(decimal(b).drop_last() =~= decimal(b / 10));
        lemma_decimal_injective(a / 10, b / 10);
    }
}

proof fn lemma_sibling_injective(stem: Seq<char>, a: nat, b: nat)
    requires
        sibling_name(stem, a) == sibling_name(stem, b),
    ensures
        a == b,
{
    let x = sibling_name(stem, a);
    let y = sibling_name(stem, b);
    reveal_strlit(" (");
    reveal_strlit(")");
    assert(x.len() == y.len());
    let lo = stem.len() + 2;
    assert(x.subrange(lo as int, x.len() - 1) =~= decimal(a));
    assert(y.subrange(lo as int, y.len() - 1) =~= decimal(b));
    lemma_decimal_injective(a, b);
}

/// When every sibling name from 2 up to `n` is taken, `names` holds at
/// least that many entries.
proof fn lemma_taken_bound(stem: Seq<char>, names: Seq<Seq<char>>, n: int)
    requires
        n >= 2,
        forall|k: nat| 2 <= k < n ==> names.contains(#[trigger] sibling_name(stem, k)),
    ensures
        n - 2 <= names.len(),
{
    let a = vstd::set_lib::set_int_range(2, n);
    vstd::set_lib::lemma_int_range(2, n);
    let f = |k: int| sibling_name(stem, k as nat);
    assert(vstd::relations::injective_on(f, a)) by {
        assert forall|x1: int, x2: int|
            a.contains(x1) && a.contains(x2) && #[trigger] f(x1) == #[trigger] f(x2) implies x1
            == x2 by {
            lemma_sibling_injective(stem, x1 as nat, x2 as nat);
        }
    }
    let b = a.map(f);
    vstd::set_lib::lemma_map_size(a, b, f);
    assert(b.subset_of(names.to_set())) by {
        assert forall|s: Seq<char>| b.contains(s) implies names.to_set().contains(s) by {
            let k = choose|k: int| a.contains(k) && f(k) == s;
            assert(names.contains(sibling_name(stem, k as nat)));
        }
    }
    vstd::set_lib::lemma_len_subset(b, names.to_set());
    names.lemma_cardinality_of_set();
}

/// `r` is `dest` renamed to the first free sibling name (see `least_free`).
pub open spec fn free_sibling(dest: Seq<char>, names: Seq<Seq<char>>, r: Seq<char>) -> bool {
    exists|n: nat|
        least_free(stem_of(dest), names, n) && r == join(dir_of(dest), sibling_name(stem_of(dest), n))
}

/// A free name beside `dest`: `dest`'s name followed by ` (2)`, ` (3)`, …,
/// the first that is not among `existing`, the names already present in
/// `dest`'s folder.
pub fn unique_sibling_path(dest: &str, existing: &Vec<String>) -> (r: String)
    requires
        existing@.len() + 2 <= u64::MAX,
    ensures
        free_sibling(dest@, names_view(existing@), r@),
{
    let v: Vec<char> = chars_of(dest);
    let slash: Option<usize> = last_slash_exec(&v);
    proof {
        lemma_last_slash(v@);
    }
    let dir: String = match slash {
        Some(i) => if i == 0 {
            lit("/")
        } else {
            string_of_range(&v, 0, i)
        },
        None => lit(""),
    };
    proof {
        reveal_strlit("/");
        reveal_strlit("");
        assert(dir@ == dir_of(dest@));
    }
    let name: Vec<char> = match slash {
        Some(i) => crate::text::range_of(&v, i + 1, v.len()),
        None => v,
    };
    let stem: Vec<char> = if name.len() == 0 {
        chars_of("mod")
    } else {
        name
    };
    assert(stem@ == stem_of(dest@));
    let ghost names = names_view(existing@);
    let mut n: u64 = 2;
    loop
        invariant
            2 <= n <= existing@.len() + 2,
            existing@.len() + 2 <= u64::MAX,
            names == names_view(existing@),
            stem@ == stem_of(dest@),
            dir@ == dir_of(dest@),
            forall|k: nat| 2 <= k < n ==> names.contains(#[trigger] sibling_name(stem@, k)),
        decreases existing@.len() + 2 - n,
    {
        let mut cand: Vec<char> = stem.clone();
        assert(cand@ == stem@);
        append_str(&mut cand, " (");
        let d: Vec<char> = decimal_chars(n);
        append_chars(&mut cand, &d);
        append_str(&mut cand, ")");
        assert(cand@ == sibling_name(stem@, n as nat));
        let cs: String = string_of(&cand);
        if !contains_name(existing, cs.as_str()) {
            let r = join_path(dir.as_str(), cs.as_str());
            assert(least_free(stem_of(dest@), names, n as nat));
            assert(r@ == join(dir_of(dest@), sibling_name(stem_of(dest@), n as nat)));
            return r;
        }
        proof {
            lemma_taken_bound(stem@, names, n + 1);
        }
        n = n + 1;
    }
}

// ---------------------------------------------------------------------------
// Queue items
// ---------------------------------------------------------------------------

/// A progress tick for one download, sent more often than full item updates.
#[derive(Debug, Clone)]
pub struct DownloadProgress {
    pub id: String,
    pub downloaded_bytes: u64,
    pub total_bytes: u64,
}

/// What to do with a download paused on an existing destination folder.
#[derive(Debug, Clone, Copy, PartialEq, Eq, Structural)]
pub enum ConflictResolution {
    /// Delete the existing folder and install in its place.
    Overwrite,
    /// Install alongside the existing folder under a "(2)", "(3)", ... name.
    Rename,
    /// Abandon the download and clean up its staged files.
    Cancel,
}

#[derive(Debug, Clone, PartialEq)]
pub enum DownloadStatus {
    Queued,
    Downloading,
    Extracting,
    /// Placement found an existing folder at the destination.
    WaitingForConflict { existing_path: String },
    Installing,
    Completed { installed_path: String },
    Failed { message: String },
    Cancelled,
}

pub enum StatusModel {
    Queued,
    Downloading,
    Extracting,
    WaitingForConflict(Seq<char>),
    Installing,
    Completed(Seq<char>),
    Failed(Seq<char>),
    Cancelled,
}

impl View for DownloadStatus {
    type V = StatusModel;

    open spec fn view(&self) -> StatusModel {
        match self {
            DownloadStatus::Queued => StatusModel::Queued,
            DownloadStatus::Downloading => StatusModel::Downloading,
            DownloadStatus::Extracting => StatusModel::Extracting,
            DownloadStatus::WaitingForConflict { existing_path } => StatusModel::WaitingForConflict(
                existing_path@,
            ),
            DownloadStatus::Installing => StatusModel::Installing,
            DownloadStatus::Completed { installed_path } => StatusModel::Completed(
                installed_path@,
            ),
            DownloadStatus::Failed { message } => StatusModel::Failed(message@),
            DownloadStatus::Cancelled => StatusModel::Cancelled,
        }
    }
}

/// A download that is being worked on right now.
pub open spec fn is_active_status(s: StatusModel) -> bool {
    s is Downloading || s is Extracting || s is Installing
}

impl DownloadStatus {
    /// Whether a worker is downloading, extracting or installing this item.
    pub fn is_active(&self) -> (r: bool)
        ensures
            r == is_active_status(self@),
    {
        match self {
            DownloadStatus::Downloading | DownloadStatus::Extracting | DownloadStatus::Installing => true,
            _ => false,
        }
    }

    pub fn duplicate(&self) -> (r: DownloadStatus)
        ensures
            r@ == self@,
    {
        match self {
            DownloadStatus::Queued => DownloadStatus::Queued,
            DownloadStatus::Downloading => DownloadStatus::Downloading,
            DownloadStatus::Extracting => DownloadStatus::Extracting,
            DownloadStatus::WaitingForConflict { existing_path } => DownloadStatus::WaitingForConflict {
                existing_path: existing_path.clone(),
            },
            DownloadStatus::Installing => DownloadStatus::Installing,
            DownloadStatus::Completed { installed_path } => DownloadStatus::Completed {
                installed_path: installed_path.clone(),
            },
            DownloadStatus::Failed { message } => DownloadStatus::Failed { message: message.clone() },
            DownloadStatus::Cancelled => DownloadStatus::Cancelled,
        }
    }
}

#[derive(Debug, Clone)]
pub struct DownloadItem {
    pub id: String,
    pub game_id: String,
    pub mod_id: u32,
    pub mod_name: String,
    pub file_id: u64,
    pub file_name: String,
    pub download_url: String,
    pub total_bytes: u64,
    pub downloaded_bytes: u64,
    /// The category (character) folder to place the mod under; `None` places
    /// it directly under the game's mod folder.
    pub category_hint: Option<String>,
    /// Thumbnail saved beside the installed mod when it ships no preview.
    pub preview_image_url: Option<String>,
    /// The game's mod folder at the time the download was queued.
    pub mod_path: String,
    pub status: DownloadStatus,
    pub created_at: u64,
    pub updated_at: u64,
}

pub struct ItemModel {
    pub id: Seq<char>,
    pub game_id: Seq<char>,
    pub mod_id: u32,
    pub mod_name: Seq<char>,
    pub file_id: u64,
    pub file_name: Seq<char>,
    pub download_url: Seq<char>,
    pub total_bytes: u64,
    pub downloaded_bytes: u64,
    pub category_hint: Option<Seq<char>>,
    pub preview_image_url: Option<Seq<char>>,
    pub mod_path: Seq<char>,
    pub status: StatusModel,
    pub created_at: u64,
    pub updated_at: u64,
}

impl View for DownloadItem {
    type V = ItemModel;

    open spec fn view(&self) -> ItemModel {
        ItemModel {
            id: self.id@,
            game_id: self.game_id@,
            mod_id: self.mod_id,
            mod_name: self.mod_name@,
            file_id: self.file_id,
            file_name: self.file_name@,
            download_url: self.download_url@,
            total_bytes: self.total_bytes,
            downloaded_bytes: self.downloaded_bytes,
            category_hint: opt_view(self.category_hint),
            preview_image_url: opt_view(self.preview_image_url),
            mod_path: self.mod_path@,
            status: self.status@,
            created_at: self.created_at,
            updated_at: self.updated_at,
        }
    }
}

fn clone_opt(o: &Option<String>) -> (r: Option<String>)
    ensures
        opt_view(r) == opt_view(*o),
{
    match o {
        Some(s) => Some(s.clone()),
        None => None,
    }
}

impl DownloadItem {
    pub fn duplicate(&self) -> (r: DownloadItem)
        ensures
            r@ == self@,
    {
        DownloadItem {
            id: self.id.clone(),
            game_id: self.game_id.clone(),
            mod_id: self.mod_id,
            mod_name: self.mod_name.clone(),
            file_id: self.file_id,
            file_name: self.file_name.clone(),
            download_url: self.download_url.clone(),
            total_bytes: self.total_bytes,
            downloaded_bytes: self.downloaded_bytes,
            category_hint: clone_opt(&self.category_hint),
            preview_image_url: clone_opt(&self.preview_image_url),
            mod_path: self.mod_path.clone(),
            status: self.status.duplicate(),
            created_at: self.created_at,
            updated_at: self.updated_at,
        }
    }
}

pub open spec fn items_view(s: Seq<DownloadItem>) -> Seq<ItemModel> {
    s.map_values(|d: DownloadItem| d@)
}

// ---------------------------------------------------------------------------
// Queue operations
// ---------------------------------------------------------------------------

/// `i` is the index of the first item with identifier `id`.
pub open spec fn first_index(s: Seq<ItemModel>, id: Seq<char>, i: int) -> bool {
    &&& 0 <= i < s.len()
    &&& s[i].id == id
    &&& forall|j: int| 0 <= j < i ==> s[j].id != id
}

pub open spec fn has_id(s: Seq<ItemModel>, id: Seq<char>) -> bool {
    exists|i: int| 0 <= i < s.len() && s[i].id == id
}

pub open spec fn not_found_message(id: Seq<char>) -> Seq<char> {
    "Download '"@ + id + "' not found"@
}

fn not_found(id: &str) -> (r: String)
    ensures
        r@ == not_found_message(id@),
{
    let mut v: Vec<char> = chars_of("Download '");
    append_str(&mut v, id);
    append_str(&mut v, "' not found");
    string_of(&v)
}

/// Index of the first item with identifier `id`.
fn find_item(items: &Vec<DownloadItem>, id: &str) -> (r: Option<usize>)
    ensures
        match r {
            Some(i) => first_index(items_view(items@), id@, i as int),
            None => !has_id(items_view(items@), id@),
        },
{
    let ghost s = items_view(items@);
    let idv: Vec<char> = chars_of(id);
    let mut i: usize = 0;
    while i < items.len()
        invariant
            i <= items.len(),
            s == items_view(items@),
            idv@ == id@,
            forall|j: int| 0 <= j < i ==> s[j].id != id@,
        decreases items.len() - i,
    {
        let cur: Vec<char> = chars_of(items[i].id.as_str());
        if chars_eq(&cur, &idv) {
            return Some(i);
        }
        i = i + 1;
    }
    None
}

/// An item after a change at time `now`.
#[derive(Debug)]
pub enum ItemChange {
    /// The item moves to a new status.
    Status(DownloadStatus),
    /// The byte counters of a running download.
    Progress { downloaded_bytes: u64, total_bytes: u64 },
    /// The item goes back to the queue with its progress reset.
    Requeue,
}

pub open spec fn with_status(m: ItemModel, st: StatusModel, now: u64) -> ItemModel {
    ItemModel { status: st, updated_at: now, ..m }
}

pub open spec fn apply_change(m: ItemModel, c: ItemChange, now: u64) -> ItemModel {
    match c {
        ItemChange::Status(st) => with_status(m, st@, now),
        ItemChange::Progress { downloaded_bytes, total_bytes } => ItemModel {
            downloaded_bytes,
            total_bytes,
            updated_at: now,
            ..m
        },
        ItemChange::Requeue => ItemModel {
            downloaded_bytes: 0,
            status: StatusModel::Queued,
            updated_at: now,
            ..m
        },
    }
}

fn changed_item(item: &DownloadItem, change: ItemChange, now: u64) -> (r: DownloadItem)
    ensures
        r@ == apply_change(item@, change, now),
{
    let mut it = item.duplicate();
    match change {
        ItemChange::Status(st) => {
            it.status = st;
        },
        ItemChange::Progress { downloaded_bytes, total_bytes } => {
            it.downloaded_bytes = downloaded_bytes;
            it.total_bytes = total_bytes;
        },
        ItemChange::Requeue => {
            it.downloaded_bytes = 0;
            it.status = DownloadStatus::Queued;
        },
    }
    it.updated_at = now;
    it
}

/// Applies `change` to the first item with identifier `id`, stamping it
/// with `now`, and returns the updated item; `None` when there is no such
/// item.
pub fn update_item(items: &mut Vec<DownloadItem>, id: &str, change: ItemChange, now: u64) -> (r:
    Option<DownloadItem>)
    ensures
        !has_id(items_view(old(items)@), id@) ==> r is None && items_view(final(items)@)
            == items_view(old(items)@),
        forall|i: int|
            first_index(items_view(old(items)@), id@, i) ==> {
                &&& r matches Some(it)
                &&& it@ == apply_change(items_view(old(items)@)[i], change, now)
                &&& items_view(final(items)@) == items_view(old(items)@).update(i, it@)
            },
{
    match find_item(items, id) {
        None => None,
        Some(i) => {
            let it = changed_item(&items[i], change, now);
            let copy = it.duplicate();
            items.set(i, it);
            assert(items_view(items@) =~= items_view(old(items)@).update(i as int, copy@));
            Some(copy)
        },
    }
}

pub open spec fn created_keys(s: Seq<DownloadItem>) -> Seq<u64> {
    s.map_values(|d: DownloadItem| d.created_at)
}

/// The items newest first (by `created_at`; items created at the same time
/// keep their order).
pub fn list(items: &Vec<DownloadItem>) -> (r: Vec<DownloadItem>)
    ensures
        r@.len() == items@.len(),
        exists|order: Seq<usize>|
            #![trigger crate::sorting::sorted_desc(created_keys(items@), order)]
            {
                &&& crate::sorting::sorted_desc(created_keys(items@), order)
                &&& forall|i: int| 0 <= i < r@.len() ==> #[trigger] r@[i]@ == items@[order[i] as int]@
            },
{
    let mut keys: Vec<u64> = Vec::new();
    let mut k: usize = 0;
    while k < items.len()
        invariant
            k <= items.len(),
            keys@ == items@.subrange(0, k as int).map_values(|d: DownloadItem| d.created_at),
        decreases items.len() - k,
    {
        keys.push(items[k].created_at);
        k = k + 1;
        assert(keys@ =~= items@.subrange(0, k as int).map_values(|d: DownloadItem| d.created_at));
    }
    assert(items@.subrange(0, items.len() as int) =~= items@);
    let order: Vec<usize> = crate::sorting::order_by_number_desc(&keys);
    let mut out: Vec<DownloadItem> = Vec::new();
    let mut j: usize = 0;
    while j < order.len()
        invariant
            j <= order.len(),
            crate::sorting::sorted_desc(keys@, order@),
            keys@.len() == items@.len(),
            out@.len() == j,
            forall|i: int| 0 <= i < j ==> out@[i]@ == items@[order@[i] as int]@,
        decreases order.len() - j,
    {
        let idx: usize = order[j];
        out.push(items[idx].duplicate());
        j = j + 1;
    }
    assert(keys@ == created_keys(items@));
    assert(forall|i: int| 0 <= i < out@.len() ==> #[trigger] out@[i]@ == items@[order@[i] as int]@);
    out
}

pub open spec fn without_id(s: Seq<ItemModel>, id: Seq<char>) -> Seq<ItemModel>
    decreases s.len(),
{
    if s.len() == 0 {
        Seq::<ItemModel>::empty()
    } else if s.last().id == id {
        without_id(s.drop_last(), id)
    } else {
        without_id(s.drop_last(), id).push(s.last())
    }
}

/// Removes every item with identifier `id` from the list. Refused while the
/// (first) item with that identifier is being worked on.
pub fn remove(items: &mut Vec<DownloadItem>, id: &str) -> (r: Result<(), String>)
    ensures
        !has_id(items_view(old(items)@), id@) ==> (r matches Err(e) && e@ == not_found_message(
            id@,
        )) && items_view(final(items)@) == items_view(old(items)@),
        forall|i: int|
            first_index(items_view(old(items)@), id@, i) ==> if is_active_status(
                items_view(old(items)@)[i].status,
            ) {
                (r matches Err(e) && e@ == "Cancel this download before removing it"@)
                    && items_view(final(items)@) == items_view(old(items)@)
            } else {
                r is Ok && items_view(final(items)@) == without_id(items_view(old(items)@), id@)
            },
{
    let ghost s = items_view(items@);
    let i: usize = match find_item(items, id) {
        None => {
            return Err(not_found(id));
        },
        Some(i) => i,
    };
    if items[i].status.is_active() {
        return Err(lit("Cancel this download before removing it"));
    }
    let idv: Vec<char> = chars_of(id);
    let mut out: Vec<DownloadItem> = Vec::new();
    let mut k: usize = 0;
    while k < items.len()
        invariant
            k <= items.len(),
            s == items_view(items@),
            idv@ == id@,
            items_view(out@) == without_id(s.subrange(0, k as int), id@),
        decreases items.len() - k,
    {
        let ghost pre = s.subrange(0, k as int);
        let cur: Vec<char> = chars_of(items[k].id.as_str());
        if !chars_eq(&cur, &idv) {
            out.push(items[k].duplicate());
        }
        k = k + 1;
        proof {
            let post = s.subrange(0, k as int);
            assert(post.drop_last() =~= pre);
            assert(post.last() == s[k - 1]);
            assert(items_view(out@) =~= without_id(post, id@));
        }
    }
    assert(s.subrange(0, items.len() as int) =~= s);
    *items = out;
    Ok(())
}

/// What `cancel` did.
#[derive(Debug)]
pub enum CancelOutcome {
    /// The item was still queued and is now cancelled.
    Cancelled(DownloadItem),
    /// The item is in flight: its worker has to be told to stop.
    Flagged,
}

/// Cancels a download: a queued item is cancelled at once; one in flight is
/// left to its worker, which must be flagged; anything else is refused.
pub fn cancel(items: &mut Vec<DownloadItem>, id: &str, now: u64) -> (r: Result<
    CancelOutcome,
    String,
>)
    ensures
        !has_id(items_view(old(items)@), id@) ==> (r matches Err(e) && e@ == not_found_message(
            id@,
        )) && items_view(final(items)@) == items_view(old(items)@),
        forall|i: int|
            first_index(items_view(old(items)@), id@, i) ==> {
                let m = items_view(old(items)@)[i];
                if m.status is Queued {
                    &&& r matches Ok(CancelOutcome::Cancelled(it))
                    &&& it@ == with_status(m, StatusModel::Cancelled, now)
                    &&& items_view(final(items)@) == items_view(old(items)@).update(i, it@)
                } else if is_active_status(m.status) {
                    &&& r matches Ok(CancelOutcome::Flagged)
                    &&& items_view(final(items)@) == items_view(old(items)@)
                } else {
                    &&& r matches Err(e)
                    &&& e@ == "This download isn't in a cancellable state"@
                    &&& items_view(final(items)@) == items_view(old(items)@)
                }
            },
{
    let i: usize = match find_item(items, id) {
        None => {
            return Err(not_found(id));
        },
        Some(i) => i,
    };
    match items[i].status {
        DownloadStatus::Queued => {
            let it = changed_item(&items[i], ItemChange::Status(DownloadStatus::Cancelled), now);
            let copy = it.duplicate();
            items.set(i, it);
            assert(items_view(items@) =~= items_view(old(items)@).update(i as int, copy@));
            Ok(CancelOutcome::Cancelled(copy))
        },
        DownloadStatus::Downloading | DownloadStatus::Extracting | DownloadStatus::Installing => Ok(
            CancelOutcome::Flagged,
        ),
        _ => Err(lit("This download isn't in a cancellable state")),
    }
}

/// Puts a failed or cancelled download back in the queue with its progress
/// reset; anything else is refused.
pub fn retry(items: &mut Vec<DownloadItem>, id: &str, now: u64) -> (r: Result<DownloadItem, String>)
    ensures
        !has_id(items_view(old(items)@), id@) ==> (r matches Err(e) && e@ == not_found_message(
            id@,
        )) && items_view(final(items)@) == items_view(old(items)@),
        forall|i: int|
            first_index(items_view(old(items)@), id@, i) ==> {
                let m = items_view(old(items)@)[i];
                if m.status is Failed || m.status is Cancelled {
                    &&& r matches Ok(it)
                    &&& it@ == apply_change(m, ItemChange::Requeue, now)
                    &&& items_view(final(items)@) == items_view(old(items)@).update(i, it@)
                } else {
                    &&& r matches Err(e)
                    &&& e@ == "Only failed or cancelled downloads can be retried"@
                    &&& items_view(final(items)@) == items_view(old(items)@)
                }
            },
{
    let i: usize = match find_item(items, id) {
        None => {
            return Err(not_found(id));
        },
        Some(i) => i,
    };
    match items[i].status {
        DownloadStatus::Failed { .. } | DownloadStatus::Cancelled => {},
        _ => {
            return Err(lit("Only failed or cancelled downloads can be retried"));
        },
    }
    let it = changed_item(&items[i], ItemChange::Requeue, now);
    let copy = it.duplicate();
    items.set(i, it);
    assert(items_view(items@) =~= items_view(old(items)@).update(i as int, copy@));
    Ok(copy)
}

/// `i` is the queued item that runs next: the oldest by `created_at`, the
/// first of those on a tie.
pub open spec fn next_queued(s: Seq<ItemModel>, i: int) -> bool {
    &&& 0 <= i < s.len()
    &&& s[i].status is Queued
    &&& forall|j: int|
        0 <= j < s.len() && (#[trigger] s[j]).status is Queued ==> s[i].created_at < s[j].created_at
            || (s[i].created_at == s[j].created_at && i <= j)
}

pub open spec fn any_queued(s: Seq<ItemModel>) -> bool {
    exists|i: int| 0 <= i < s.len() && (#[trigger] s[i]).status is Queued
}

/// Starts the next queued download (see `next_queued`): it becomes
/// `Downloading` and is returned. `None` when nothing is queued.
pub fn start_next(items: &mut Vec<DownloadItem>, now: u64) -> (r: Option<DownloadItem>)
    ensures
        !any_queued(items_view(old(items)@)) ==> r is None && items_view(final(items)@)
            == items_view(old(items)@),
        forall|i: int|
            next_queued(items_view(old(items)@), i) ==> {
                &&& r matches Some(it)
                &&& it@ == with_status(items_view(old(items)@)[i], StatusModel::Downloading, now)
                &&& items_view(final(items)@) == items_view(old(items)@).update(i, it@)
            },
{
    let ghost s = items_view(items@);
    let mut best: Option<usize> = None;
    let mut k: usize = 0;
    while k < items.len()
        invariant
            k <= items.len(),
            s == items_view(items@),
            match best {
                Some(b) => b < k && s[b as int].status is Queued && forall|j: int|
                    0 <= j < k && (#[trigger] s[j]).status is Queued ==> s[b as int].created_at
                        < s[j].created_at || (s[b as int].created_at == s[j].created_at && b <= j),
                None => forall|j: int| 0 <= j < k ==> !((#[trigger] s[j]).status is Queued),
            },
        decreases items.len() - k,
    {
        if let DownloadStatus::Queued = items[k].status {
            match best {
                None => {
                    best = Some(k);
                },
                Some(b) => {
                    if items[k].created_at < items[b].created_at {
                        best = Some(k);
                    }
                },
            }
        }
        k = k + 1;
    }
    match best {
        None => None,
        Some(b) => {
            let it = changed_item(&items[b], ItemChange::Status(DownloadStatus::Downloading), now);
            let copy = it.duplicate();
            items.set(b, it);
            assert(items_view(items@) =~= items_view(old(items)@).update(b as int, copy@));
            proof {
                assert forall|i: int| next_queued(s, i) implies i == b by {
                    assert(s[b as int].status is Queued);
                    assert(s[i].status is Queued);
                }
            }
            Some(copy)
        },
    }
}

pub const INTERRUPTED_MESSAGE: &'static str = "Interrupted by app restart — please retry";

/// An item as found when the manifest is loaded: anything that was in
/// flight or waiting on a conflict belonged to a process that is gone, so it
/// becomes a failure the user can retry.
pub open spec fn after_restart(m: ItemModel, now: u64) -> ItemModel {
    if is_active_status(m.status) || m.status is WaitingForConflict {
        with_status(m, StatusModel::Failed(INTERRUPTED_MESSAGE@), now)
    } else {
        m
    }
}

/// The identifiers of the items `after_restart` fails, in order.
pub open spec fn interrupted_ids(s: Seq<ItemModel>) -> Seq<Seq<char>>
    decreases s.len(),
{
    if s.len() == 0 {
        Seq::<Seq<char>>::empty()
    } else if is_active_status(s.last().status) || s.last().status is WaitingForConflict {
        interrupted_ids(s.drop_last()).push(s.last().id)
    } else {
        interrupted_ids(s.drop_last())
    }
}

/// Marks the downloads interrupted by a restart as failed (see
/// `after_restart`) and returns their identifiers, whose staged files are
/// orphaned.
pub fn mark_interrupted(items: &mut Vec<DownloadItem>, now: u64) -> (r: Vec<String>)
    ensures
        items_view(final(items)@) == items_view(old(items)@).map_values(
            |m: ItemModel| after_restart(m, now),
        ),
        names_view(r@) == interrupted_ids(items_view(old(items)@)),
        forall|i: int|
            0 <= i < final(items)@.len() ==> !is_active_status(final(items)@[i]@.status) && !(
            final(items)@[i]@.status is WaitingForConflict),
{
    let ghost s = items_view(items@);
    let mut ids: Vec<String> = Vec::new();
    let mut k: usize = 0;
    while k < items.len()
        invariant
            k <= items.len(),
            items@.len() == s.len(),
            forall|j: int| k <= j < s.len() ==> items_view(items@)[j] == s[j],
            forall|j: int| 0 <= j < k ==> items_view(items@)[j] == after_restart(s[j], now),
            names_view(ids@) == interrupted_ids(s.subrange(0, k as int)),
        decreases items.len() - k,
    {
        let ghost pre = s.subrange(0, k as int);
        let ghost before = items@;
        let hit: bool = match items[k].status {
            DownloadStatus::Downloading | DownloadStatus::Extracting | DownloadStatus::Installing
            | DownloadStatus::WaitingForConflict { .. } => true,
            _ => false,
        };
        assert(items_view(items@)[k as int] == items@[k as int]@);
        let ghost m = items@[k as int]@;
        assert(m == s[k as int]);
        if hit {
            ids.push(items[k].id.clone());
            let msg: String = lit(INTERRUPTED_MESSAGE);
            let it = changed_item(&items[k], ItemChange::Status(DownloadStatus::Failed { message: msg }), now);
            assert(it@ == with_status(m, StatusModel::Failed(INTERRUPTED_MESSAGE@), now));
            items.set(k, it);
            assert(items@[k as int]@ == after_restart(m, now));
        } else {
            assert(after_restart(m, now) == m);
        }
        k = k + 1;
        proof {
            let post = s.subrange(0, k as int);
            assert(post.drop_last() =~= pre);
            assert(post.last() == s[k - 1]);
            assert(names_view(ids@) =~= interrupted_ids(post));
            assert forall|j: int| 0 <= j < k implies items_view(items@)[j] == after_restart(
                s[j],
                now,
            ) by {
                assert(items_view(items@)[j] == items@[j]@);
                if j < k - 1 {
                    assert(items@[j] == before[j]);
                    assert(items_view(before)[j] == before[j]@);
                }
            }
            assert forall|j: int| k <= j < s.len() implies items_view(items@)[j] == s[j] by {
                assert(items_view(items@)[j] == items@[j]@);
                assert(items@[j] == before[j]);
                assert(items_view(before)[j] == before[j]@);
            }
        }
    }
    assert(items_view(items@) =~= s.map_values(|m: ItemModel| after_restart(m, now)));
    assert(s.subrange(0, items.len() as int) =~= s);
    assert forall|i: int| 0 <= i < items@.len() implies !is_active_status(items@[i]@.status) && !(
    items@[i]@.status is WaitingForConflict) by {
        assert(items_view(items@)[i] == items@[i]@);
        law_restart_leaves_nothing_in_flight(s[i], now);
    }
    ids
}

/// After a restart no download is left in flight or waiting on a conflict,
/// and nothing else about the list changes but the failed items.
pub proof fn law_restart_leaves_nothing_in_flight(m: ItemModel, now: u64)
    ensures
        !is_active_status(after_restart(m, now).status),
        !(after_restart(m, now).status is WaitingForConflict),
        after_restart(m, now).id == m.id,
        !(is_active_status(m.status) || m.status is WaitingForConflict) ==> after_restart(m, now)
            == m,
{
}

// ---------------------------------------------------------------------------
// Queueing
// ---------------------------------------------------------------------------

/// The archive kind of a file name: its extension, lower-cased (empty when
/// it has none).
pub open spec fn archive_ext(file_name: Seq<char>) -> Seq<char> {
    ascii_lower(
        match extension_of(file_name) {
            Some(e) => e,
            None => Seq::<char>::empty(),
        },
    )
}

pub open spec fn is_supported_archive(file_name: Seq<char>) -> bool {
    let e = archive_ext(file_name);
    e == "zip"@ || e == "7z"@ || e == "rar"@
}

pub open spec fn unsupported_archive_message(ext: Seq<char>) -> Seq<char> {
    "Unsupported archive format \"."@ + ext
        + "\" — only .zip, .7z, and .rar can be auto-installed. Download it from the GameBanana page and extract it manually."@
}

/// A category hint that says nothing (blank) is dropped.
pub open spec fn kept_hint(hint: Option<Seq<char>>) -> Option<Seq<char>> {
    match hint {
        Some(c) => if trim(c).len() > 0 {
            Some(c)
        } else {
            None
        },
        None => None,
    }
}

/// The new queue entry for a download.
pub open spec fn new_item(
    id: Seq<char>,
    created_at: u64,
    updated_at: u64,
    game_id: Seq<char>,
    mod_path: Seq<char>,
    mod_id: u32,
    mod_name: Seq<char>,
    file_id: u64,
    file_name: Seq<char>,
    download_url: Seq<char>,
    total_bytes: u64,
    category_hint: Option<Seq<char>>,
    preview_image_url: Option<Seq<char>>,
) -> ItemModel {
    ItemModel {
        id,
        game_id,
        mod_id,
        mod_name,
        file_id,
        file_name,
        download_url,
        total_bytes,
        downloaded_bytes: 0,
        category_hint: kept_hint(category_hint),
        preview_image_url,
        mod_path,
        status: StatusModel::Queued,
        created_at,
        updated_at,
    }
}

fn archive_ext_exec(file_name: &str) -> (r: Vec<char>)
    ensures
        r@ == archive_ext(file_name@),
{
    match extension(file_name) {
        Some(e) => {
            let v: Vec<char> = chars_of(e.as_str());
            to_lower_ascii(&v)
        },
        None => {
            let v: Vec<char> = Vec::new();
            let r: Vec<char> = to_lower_ascii(&v);
            assert(r@ =~= ascii_lower(Seq::<char>::empty()));
            r
        },
    }
}

fn kept_hint_exec(hint: Option<String>) -> (r: Option<String>)
    ensures
        opt_view(r) == kept_hint(opt_view(hint)),
{
    match hint {
        Some(c) => {
            let v: Vec<char> = chars_of(c.as_str());
            let (a, b) = trim_range(&v, 0, v.len());
            assert(v@.subrange(0, v.len() as int) =~= v@);
            if a < b {
                Some(c)
            } else {
                None
            }
        },
        None => None,
    }
}

/// Adds a download to the queue under identifier `id`, created at `now`.
/// Only `.zip`, `.7z` and `.rar` archives (any letter case) are accepted;
/// anything else is refused up front.
pub fn queue_item(
    items: &mut Vec<DownloadItem>,
    id: String,
    now: u64,
    game_id: String,
    mod_path: String,
    mod_id: u32,
    mod_name: String,
    file_id: u64,
    file_name: String,
    download_url: String,
    total_bytes: u64,
    category_hint: Option<String>,
    preview_image_url: Option<String>,
) -> (r: Result<DownloadItem, String>)
    ensures
        !is_supported_archive(file_name@) ==> (r matches Err(e) && e@
            == unsupported_archive_message(archive_ext(file_name@))) && items_view(final(items)@)
            == items_view(old(items)@),
        is_supported_archive(file_name@) ==> {
            &&& r matches Ok(it)
            &&& it@ == new_item(
                id@,
                now,
                now,
                game_id@,
                mod_path@,
                mod_id,
                mod_name@,
                file_id,
                file_name@,
                download_url@,
                total_bytes,
                opt_view(category_hint),
                opt_view(preview_image_url),
            )
            &&& items_view(final(items)@) == items_view(old(items)@).push(it@)
        },
{
    let ext: Vec<char> = archive_ext_exec(file_name.as_str());
    if !(eq_str(&ext, "zip") || eq_str(&ext, "7z") || eq_str(&ext, "rar")) {
        let mut m: Vec<char> = chars_of("Unsupported archive format \".");
        append_chars(&mut m, &ext);
        append_str(
            &mut m,
            "\" — only .zip, .7z, and .rar can be auto-installed. Download it from the GameBanana page and extract it manually.",
        );
        return Err(string_of(&m));
    }
    let item = DownloadItem {
        id,
        game_id,
        mod_id,
        mod_name,
        file_id,
        file_name,
        download_url,
        total_bytes,
        downloaded_bytes: 0,
        category_hint: kept_hint_exec(category_hint),
        preview_image_url,
        mod_path,
        status: DownloadStatus::Queued,
        created_at: now,
        updated_at: now,
    };
    let copy = item.duplicate();
    items.push(item);
    assert(items_view(items@) =~= items_view(old(items)@).push(copy@));
    Ok(copy)
}

/// A fresh random identifier from `uuid::Uuid::new_v4()`, in the
/// hyphenated lower-case form its `Display` writes: 36 characters, dashes at
/// positions 8, 13, 18 and 23, lower-case hex digits elsewhere. Which digits
/// come back is chance.
#[verifier::external_body]
fn new_download_id() -> (r: String)
    ensures
        r@.len() == 36,
        forall|i: int|
            0 <= i < 36 ==> if i == 8 || i == 13 || i == 18 || i == 23 {
                r@[i] == '-'
            } else {
                ('0' <= r@[i] <= '9') || ('a' <= r@[i] <= 'f')
            },
{
    uuid::Uuid::new_v4().to_string()
}

/// Queues a download under a fresh random identifier, stamped with `now`
/// (see `queue_item`).
pub fn queue(
    items: &mut Vec<DownloadItem>,
    now: u64,
    game_id: String,
    mod_path: String,
    mod_id: u32,
    mod_name: String,
    file_id: u64,
    file_name: String,
    download_url: String,
    total_bytes: u64,
    category_hint: Option<String>,
    preview_image_url: Option<String>,
) -> (r: Result<DownloadItem, String>)
    ensures
        !is_supported_archive(file_name@) ==> (r matches Err(e) && e@
            == unsupported_archive_message(archive_ext(file_name@))) && items_view(final(items)@)
            == items_view(old(items)@),
        is_supported_archive(file_name@) ==> {
            &&& r matches Ok(it)
            &&& it@.id.len() == 36
            &&& it@ == new_item(
                it@.id,
                now,
                now,
                game_id@,
                mod_path@,
                mod_id,
                mod_name@,
                file_id,
                file_name@,
                download_url@,
                total_bytes,
                opt_view(category_hint),
                opt_view(preview_image_url),
            )
            &&& items_view(final(items)@) == items_view(old(items)@).push(it@)
        },
{
    let id = new_download_id();
    queue_item(
        items,
        id,
        now,
        game_id,
        mod_path,
        mod_id,
        mod_name,
        file_id,
        file_name,
        download_url,
        total_bytes,
        category_hint,
        preview_image_url,
    )
}

// ---------------------------------------------------------------------------
// Staging and manifest locations
// ---------------------------------------------------------------------------

/// Where a download's archive and extracted files live while it is
/// processed: `<data dir>/download_staging/<id>`.
pub open spec fn staging_dir_of(data_dir: Seq<char>, id: Seq<char>) -> Seq<char> {
    join(join(data_dir, "download_staging"@), id)
}

pub fn staging_dir(data_dir: &str, id: &str) -> (r: String)
    ensures
        r@ == staging_dir_of(data_dir@, id@),
{
    let base: String = join_path(data_dir, "download_staging");
    join_path(base.as_str(), id)
}

pub fn extracted_dir(data_dir: &str, id: &str) -> (r: String)
    ensures
        r@ == join(staging_dir_of(data_dir@, id@), "extracted"@),
{
    let st: String = staging_dir(data_dir, id);
    join_path(st.as_str(), "extracted")
}

/// The staged archive's file name: `archive.` and the download's own
/// extension, or `archive.bin` when it has none.
pub open spec fn archive_file_name(file_name: Seq<char>) -> Seq<char> {
    "archive."@ + match extension_of(file_name) {
        Some(e) => e,
        None => "bin"@,
    }
}

pub fn archive_path(data_dir: &str, id: &str, file_name: &str) -> (r: String)
    ensures
        r@ == join(staging_dir_of(data_dir@, id@), archive_file_name(file_name@)),
{
    let mut v: Vec<char> = chars_of("archive.");
    match extension(file_name) {
        Some(e) => append_str(&mut v, e.as_str()),
        None => append_str(&mut v, "bin"),
    }
    let name: String = string_of(&v);
    let st: String = staging_dir(data_dir, id);
    join_path(st.as_str(), name.as_str())
}

/// The queue's manifest: `<config dir>/downloads.json`.
pub fn manifest_path(config_dir: &str) -> (r: String)
    ensures
        r@ == join(config_dir@, "downloads.json"@),
{
    join_path(config_dir, "downloads.json")
}

// ---------------------------------------------------------------------------
// Pipeline decisions
// ---------------------------------------------------------------------------

/// What follows a finished download or extraction step.
#[derive(Debug)]
pub enum StageOutcome {
    /// Go on to the next step.
    Continue,
    /// The user cancelled meanwhile: clean up and mark the item cancelled.
    Cancel,
    /// The step failed: clean up and mark the item failed with this message.
    Fail(String),
}

/// A failed step fails the item (even when a cancel was requested); a
/// successful one is followed by the cancellation if one was requested.
pub fn after_stage(result: Result<(), String>, cancel_requested: bool) -> (r: StageOutcome)
    ensures
        match result {
            Err(e) => r matches StageOutcome::Fail(m) && m@ == e@,
            Ok(()) => if cancel_requested {
                r is Cancel
            } else {
                r is Continue
            },
        },
{
    match result {
        Err(e) => StageOutcome::Fail(e),
        Ok(()) => if cancel_requested {
            StageOutcome::Cancel
        } else {
            StageOutcome::Continue
        },
    }
}

/// The status a failed step leaves its item in.
pub fn failed_status(message: String) -> (r: DownloadStatus)
    ensures
        r@ == StatusModel::Failed(message@),
{
    DownloadStatus::Failed { message }
}

/// The folder a download is installed into: its category folder under the
/// mod folder when it has a category, else the mod folder itself.
pub open spec fn placement_parent_of(m: ItemModel) -> Seq<char> {
    match m.category_hint {
        Some(c) => join(m.mod_path, sanitized(c)),
        None => m.mod_path,
    }
}

/// The folder a download is installed as.
pub open spec fn placement_dest_of(m: ItemModel) -> Seq<char> {
    join(placement_parent_of(m), sanitized(m.mod_name))
}

pub fn placement_parent(item: &DownloadItem) -> (r: String)
    ensures
        r@ == placement_parent_of(item@),
{
    match &item.category_hint {
        Some(c) => {
            let cat: String = sanitize_component(c.as_str());
            join_path(item.mod_path.as_str(), cat.as_str())
        },
        None => item.mod_path.clone(),
    }
}

/// Where a download goes: `Clear` when the destination is free, `Conflict`
/// when something is already there.
#[derive(Debug)]
pub enum Placement {
    Clear(String),
    Conflict(String),
}

/// Decides the placement of a download, given the names already present in
/// its parent folder (see `placement_parent`).
pub fn plan_placement(item: &DownloadItem, parent_entries: &Vec<String>) -> (r: Placement)
    ensures
        names_view(parent_entries@).contains(sanitized(item@.mod_name)) ==> (r matches Placement::Conflict(
            d,
        ) && d@ == placement_dest_of(item@)),
        !names_view(parent_entries@).contains(sanitized(item@.mod_name)) ==> (r matches Placement::Clear(
            d,
        ) && d@ == placement_dest_of(item@)),
{
    let parent: String = placement_parent(item);
    let name: String = sanitize_component(item.mod_name.as_str());
    let dest: String = join_path(parent.as_str(), name.as_str());
    if contains_name(parent_entries, name.as_str()) {
        Placement::Conflict(dest)
    } else {
        Placement::Clear(dest)
    }
}

/// What resolving a conflict requires.
#[derive(Debug)]
pub enum ConflictPlan {
    /// The user gave up: the item is now cancelled.
    Cancelled(DownloadItem),
    /// Move the staged content to `dest`, removing what is there first when
    /// `overwrite` is set.
    Install { item: DownloadItem, dest: String, overwrite: bool },
}

fn waiting_path(st: &DownloadStatus) -> (r: String)
    requires
        st@ is WaitingForConflict,
    ensures
        st@ == StatusModel::WaitingForConflict(r@),
{
    match st {
        DownloadStatus::WaitingForConflict { existing_path } => existing_path.clone(),
        _ => lit(""),
    }
}

/// How `resolve_conflict` answers for the item at index `i` of `before`.
pub open spec fn resolved_as(
    before: Seq<ItemModel>,
    i: int,
    action: ConflictResolution,
    siblings: Seq<Seq<char>>,
    now: u64,
    r: Result<ConflictPlan, String>,
    after: Seq<ItemModel>,
) -> bool {
    let m = before[i];
    match m.status {
        StatusModel::WaitingForConflict(existing) => match action {
            ConflictResolution::Cancel => {
                &&& r matches Ok(ConflictPlan::Cancelled(it))
                &&& it@ == with_status(m, StatusModel::Cancelled, now)
                &&& after == before.update(i, it@)
            },
            ConflictResolution::Overwrite => {
                &&& r matches Ok(ConflictPlan::Install { item, dest, overwrite })
                &&& item@ == m && dest@ == existing && overwrite
                &&& after == before
            },
            ConflictResolution::Rename => {
                &&& r matches Ok(ConflictPlan::Install { item, dest, overwrite })
                &&& item@ == m && !overwrite
                &&& free_sibling(existing, siblings, dest@)
                &&& after == before
            },
        },
        _ => {
            &&& r matches Err(e)
            &&& e@ == "This download has no conflict to resolve"@
            &&& after == before
        },
    }
}

/// Resolves a paused conflict: cancel the item, or install over the
/// existing folder, or beside it under the first free "(n)" name, given the
/// names present in the existing folder's parent.
pub fn resolve_conflict(
    items: &mut Vec<DownloadItem>,
    id: &str,
    action: ConflictResolution,
    siblings: &Vec<String>,
    now: u64,
) -> (r: Result<ConflictPlan, String>)
    requires
        siblings@.len() + 2 <= u64::MAX,
    ensures
        !has_id(items_view(old(items)@), id@) ==> (r matches Err(e) && e@ == not_found_message(
            id@,
        )) && items_view(final(items)@) == items_view(old(items)@),
        forall|i: int|
            first_index(items_view(old(items)@), id@, i) ==> resolved_as(
                items_view(old(items)@),
                i,
                action,
                names_view(siblings@),
                now,
                r,
                items_view(final(items)@),
            ),
{
    let i: usize = match find_item(items, id) {
        None => {
            return Err(not_found(id));
        },
        Some(i) => i,
    };
    match items[i].status {
        DownloadStatus::WaitingForConflict { .. } => {},
        _ => {
            return Err(lit("This download has no conflict to resolve"));
        },
    }
    assert(forall|j: int| first_index(items_view(old(items)@), id@, j) ==> j == i as int);
    if action == ConflictResolution::Cancel {
        let it = changed_item(&items[i], ItemChange::Status(DownloadStatus::Cancelled), now);
        let copy = it.duplicate();
        items.set(i, it);
        assert(items_view(items@) =~= items_view(old(items)@).update(i as int, copy@));
        return Ok(ConflictPlan::Cancelled(copy));
    }
    let existing: String = waiting_path(&items[i].status);
    let item: DownloadItem = items[i].duplicate();
    assert(item@ == items_view(old(items)@)[i as int]);
    let r = if action == ConflictResolution::Overwrite {
        Ok(ConflictPlan::Install { item, dest: existing, overwrite: true })
    } else {
        let dest: String = unique_sibling_path(existing.as_str(), siblings);
        Ok(ConflictPlan::Install { item, dest, overwrite: false })
    };
    assert(resolved_as(
        items_view(old(items)@),
        i as int,
        action,
        names_view(siblings@),
        now,
        r,
        items_view(items@),
    ));
    r
}

/// The key the installed mod is tracked under: its category (or
/// `Uncategorized`) and the installed folder's name.
pub open spec fn installed_key(m: ItemModel, dest: Seq<char>) -> Seq<char> {
    let category = match m.category_hint {
        Some(c) => if c.len() > 0 {
            c
        } else {
            "Uncategorized"@
        },
        None => "Uncategorized"@,
    };
    category + "/"@ + match file_name_of(dest) {
        Some(f) => f,
        None => Seq::<char>::empty(),
    }
}

pub fn installed_mod_key(item: &DownloadItem, dest: &str) -> (r: String)
    ensures
        r@ == installed_key(item@, dest@),
{
    let mut v: Vec<char> = match &item.category_hint {
        Some(c) => if c.as_str().is_empty() {
            chars_of("Uncategorized")
        } else {
            chars_of(c.as_str())
        },
        None => chars_of("Uncategorized"),
    };
    proof {
        reveal_strlit("");
    }
    append_str(&mut v, "/");
    match file_name(dest) {
        Some(f) => append_str(&mut v, f.as_str()),
        None => {
            assert(v@ + Seq::<char>::empty() =~= v@);
        },
    }
    string_of(&v)
}

/// The status of a finished install.
pub fn completed_status(installed_path: String) -> (r: DownloadStatus)
    ensures
        r@ == StatusModel::Completed(installed_path@),
{
    DownloadStatus::Completed { installed_path }
}

pub open spec fn is_image_ext(e: Seq<char>) -> bool {
    e == "png"@ || e == "jpg"@ || e == "jpeg"@ || e == "webp"@
}

/// The extension a downloaded thumbnail is saved under: the URL's own when
/// it is an image extension (in any letter case), else `jpg`.
pub open spec fn preview_ext(url: Seq<char>) -> Seq<char> {
    match extension_of(url) {
        Some(e) => if is_image_ext(ascii_lower(e)) {
            e
        } else {
            "jpg"@
        },
        None => "jpg"@,
    }
}

/// The file name a downloaded thumbnail is saved as: `preview.<ext>`.
pub fn preview_file_name(url: &str) -> (r: String)
    ensures
        r@ == "preview."@ + preview_ext(url@),
{
    let mut v: Vec<char> = chars_of("preview.");
    match extension(url) {
        Some(e) => {
            let ev: Vec<char> = chars_of(e.as_str());
            let lower: Vec<char> = to_lower_ascii(&ev);
            if eq_str(&lower, "png") || eq_str(&lower, "jpg") || eq_str(&lower, "jpeg") || eq_str(
                &lower,
                "webp",
            ) {
                append_chars(&mut v, &ev);
            } else {
                append_str(&mut v, "jpg");
            }
        },
        None => append_str(&mut v, "jpg"),
    }
    string_of(&v)
}

/// The archive formats that can be extracted.
#[derive(Debug, Clone, Copy, PartialEq, Eq, Structural)]
pub enum ArchiveKind {
    Zip,
    SevenZ,
    Rar,
}

pub open spec fn unsupported_format_message(ext: Seq<char>) -> Seq<char> {
    "Unsupported archive format: ."@ + ext
}

/// The extractor for a staged archive, chosen by its extension in any
/// letter case.
pub fn archive_kind(path: &str) -> (r: Result<ArchiveKind, String>)
    ensures
        archive_ext(path@) == "zip"@ ==> r == Ok::<ArchiveKind, String>(ArchiveKind::Zip),
        archive_ext(path@) == "7z"@ ==> r == Ok::<ArchiveKind, String>(ArchiveKind::SevenZ),
        archive_ext(path@) == "rar"@ ==> r == Ok::<ArchiveKind, String>(ArchiveKind::Rar),
        !is_supported_archive(path@) ==> (r matches Err(e) && e@ == unsupported_format_message(
            archive_ext(path@),
        )),
{
    let ext: Vec<char> = archive_ext_exec(path);
    proof {
        reveal_strlit("zip");
        reveal_strlit("7z");
        reveal_strlit("rar");
        assert("zip"@.len() == 3 && "7z"@.len() == 2 && "rar"@.len() == 3);
        assert("zip"@[0] == 'z' && "rar"@[0] == 'r');
    }
    if eq_str(&ext, "zip") {
        Ok(ArchiveKind::Zip)
    } else if eq_str(&ext, "7z") {
        Ok(ArchiveKind::SevenZ)
    } else if eq_str(&ext, "rar") {
        Ok(ArchiveKind::Rar)
    } else {
        let mut m: Vec<char> = chars_of("Unsupported archive format: .");
        append_chars(&mut m, &ext);
        Err(string_of(&m))
    }
}

// ---------------------------------------------------------------------------
// Content root
// ---------------------------------------------------------------------------

/// How many single-folder wrappers the content-root search descends
/// through at most.
pub const CONTENT_ROOT_MAX_DEPTH: usize = 5;

/// One entry of a folder listing.
#[derive(Debug)]
pub struct DirEntryInfo {
    pub name: String,
    pub is_dir: bool,
}

/// The entries that do not start with '.'.
pub open spec fn visible_entries(s: Seq<DirEntryInfo>) -> Seq<DirEntryInfo>
    decreases s.len(),
{
    if s.len() == 0 {
        Seq::<DirEntryInfo>::empty()
    } else if crate::text::starts_with(s.last().name@, "."@) {
        visible_entries(s.drop_last())
    } else {
        visible_entries(s.drop_last()).push(s.last())
    }
}

/// One step of the content-root search: the single visible entry of a
/// folder when it is itself a folder (the archive wraps its content in one
/// extra folder), else none — the folder is the content root.
pub fn single_wrapper(entries: &Vec<DirEntryInfo>) -> (r: Option<String>)
    ensures
        match r {
            Some(n) => visible_entries(entries@).len() == 1 && visible_entries(entries@)[0].is_dir
                && n@ == visible_entries(entries@)[0].name@,
            None => !(visible_entries(entries@).len() == 1 && visible_entries(entries@)[0].is_dir),
        },
{
    let mut count: usize = 0;
    let mut found: Option<usize> = None;
    let mut k: usize = 0;
    while k < entries.len()
        invariant
            k <= entries.len(),
            count == visible_entries(entries@.subrange(0, k as int)).len(),
            count <= k,
            count == 0 <==> found is None,
            found matches Some(f) ==> f < k && visible_entries(entries@.subrange(0, k as int))[0]
                == entries@[f as int],
        decreases entries.len() - k,
    {
        let ghost pre = entries@.subrange(0, k as int);
        let nv: Vec<char> = chars_of(entries[k].name.as_str());
        let hidden: bool = crate::text::starts_with_str(&nv, ".");
        if !hidden {
            if count == 0 {
                found = Some(k);
            }
            count = count + 1;
        }
        k = k + 1;
        proof {
            let post = entries@.subrange(0, k as int);
            assert(post.drop_last() =~= pre);
            assert(post.last() == entries@[k - 1]);
            if !hidden && count > 1 {
                assert(visible_entries(post)[0] == visible_entries(pre)[0]);
            }
        }
    }
    assert(entries@.subrange(0, entries.len() as int) =~= entries@);
    match found {
        Some(f) => if count == 1 && entries[f].is_dir {
            Some(entries[f].name.clone())
        } else {
            None
        },
        None => None,
    }
}

// ---------------------------------------------------------------------------
// Download progress
// ---------------------------------------------------------------------------

/// Milliseconds between progress events.
pub const PROGRESS_EMIT_MS: u64 = 200;

/// Milliseconds between progress writes to the manifest.
pub const PROGRESS_PERSIST_MS: u64 = 2000;

/// The bookkeeping after one received chunk.
#[derive(Debug)]
pub struct ProgressTick {
    pub downloaded: u64,
    /// Send a progress event now.
    pub emit: bool,
    /// Write the counters to the manifest now.
    pub persist: bool,
}

/// Adds a received chunk to the byte count and says whether a progress
/// event and a manifest write are due, given the milliseconds since each.
pub fn progress_tick(downloaded: u64, chunk_len: u64, ms_since_emit: u64, ms_since_persist: u64) -> (r:
    ProgressTick)
    requires
        downloaded + chunk_len <= u64::MAX,
    ensures
        r.downloaded == downloaded + chunk_len,
        r.emit == (ms_since_emit >= PROGRESS_EMIT_MS),
        r.persist == (ms_since_persist >= PROGRESS_PERSIST_MS),
{
    ProgressTick {
        downloaded: downloaded + chunk_len,
        emit: ms_since_emit >= PROGRESS_EMIT_MS,
        persist: ms_since_persist >= PROGRESS_PERSIST_MS,
    }
}

} // verus!
