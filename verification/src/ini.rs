//! Line-preserving 3DMigoto `.ini` parser and editor.
//!
//! A mod `.ini` is parsed into an ordered list of lines, each tagged by kind
//! and carrying its original text, so that writing the document back gives
//! the original text exactly and a targeted value edit rewrites only the line
//! it touches.

use vstd::prelude::*;
use crate::keys::{key_label, translate_key};
use crate::text::{
    ascii_lower, eq_str, starts_with, starts_with_str, to_lower_ascii,
    append_chars, append_str, decimal, decimal_chars, lemma_find_char, chars_of, find_char, find_char_in, string_of, string_of_range, trim, trim_range,
};

verus! {

// ---------------------------------------------------------------------------
// Model
// ---------------------------------------------------------------------------

/// The abstract content of one line.
pub enum LineModel {
    Section { name: Seq<char>, raw: Seq<char> },
    Pair { key: Seq<char>, value: Seq<char>, raw: Seq<char> },
    Comment { raw: Seq<char> },
    Blank { raw: Seq<char> },
    Other { raw: Seq<char> },
}

impl LineModel {
    pub open spec fn raw(self) -> Seq<char> {
        match self {
            LineModel::Section { raw, .. } => raw,
            LineModel::Pair { raw, .. } => raw,
            LineModel::Comment { raw } => raw,
            LineModel::Blank { raw } => raw,
            LineModel::Other { raw } => raw,
        }
    }
}

/// A single parsed line of an ini file, tagged by kind. `raw` always holds
/// the original text of the line (without its trailing newline).
#[derive(Debug)]
pub enum IniLine {
    /// A `[Section]` header. `name` is the trimmed section name.
    Section { name: String, raw: String },
    /// A `key = value` pair. `key` and `value` are trimmed; `raw` is original.
    Pair { key: String, value: String, raw: String },
    /// A comment line (starts with `;` or `#` after optional whitespace).
    Comment { raw: String },
    /// A blank / whitespace-only line.
    Blank { raw: String },
    /// Anything that doesn't parse as the above (kept verbatim).
    Other { raw: String },
}

impl View for IniLine {
    type V = LineModel;

    open spec fn view(&self) -> LineModel {
        match self {
            IniLine::Section { name, raw } => LineModel::Section { name: name@, raw: raw@ },
            IniLine::Pair { key, value, raw } => LineModel::Pair {
                key: key@,
                value: value@,
                raw: raw@,
            },
            IniLine::Comment { raw } => LineModel::Comment { raw: raw@ },
            IniLine::Blank { raw } => LineModel::Blank { raw: raw@ },
            IniLine::Other { raw } => LineModel::Other { raw: raw@ },
        }
    }
}

impl IniLine {
    /// The original text of this line (no trailing newline).
    pub fn raw(&self) -> (r: &String)
        ensures
            r@ == self@.raw(),
    {
        match self {
            IniLine::Section { raw, .. } => raw,
            IniLine::Pair { raw, .. } => raw,
            IniLine::Comment { raw } => raw,
            IniLine::Blank { raw } => raw,
            IniLine::Other { raw } => raw,
        }
    }

    pub fn duplicate(&self) -> (r: IniLine)
        ensures
            r@ == self@,
    {
        match self {
            IniLine::Section { name, raw } => IniLine::Section {
                name: name.clone(),
                raw: raw.clone(),
            },
            IniLine::Pair { key, value, raw } => IniLine::Pair {
                key: key.clone(),
                value: value.clone(),
                raw: raw.clone(),
            },
            IniLine::Comment { raw } => IniLine::Comment { raw: raw.clone() },
            IniLine::Blank { raw } => IniLine::Blank { raw: raw.clone() },
            IniLine::Other { raw } => IniLine::Other { raw: raw.clone() },
        }
    }
}

pub open spec fn lines_view(lines: Seq<IniLine>) -> Seq<LineModel> {
    lines.map_values(|l: IniLine| l@)
}

pub open spec fn raws(lines: Seq<LineModel>) -> Seq<Seq<char>> {
    lines.map_values(|l: LineModel| l.raw())
}

/// How a single line of text is classified.
pub open spec fn classify(raw: Seq<char>) -> LineModel {
    let t = trim(raw);
    if t.len() == 0 {
        LineModel::Blank { raw }
    } else if t[0] == ';' || t[0] == '#' {
        LineModel::Comment { raw }
    } else if t[0] == '[' && t.last() == ']' && t.len() >= 2 {
        LineModel::Section { name: trim(t.subrange(1, t.len() - 1)), raw }
    } else {
        match find_char(raw, '=') {
            Some(eq) => {
                let key = trim(raw.subrange(0, eq));
                if key.len() > 0 {
                    LineModel::Pair {
                        key,
                        value: trim(raw.subrange(eq + 1, raw.len() as int)),
                        raw,
                    }
                } else {
                    LineModel::Other { raw }
                }
            },
            None => LineModel::Other { raw },
        }
    }
}

/// The pieces of `t` between `'\n'` characters, as `str::split('\n')`
/// yields them (there is always at least one piece).
pub open spec fn split_lines(t: Seq<char>) -> Seq<Seq<char>>
    decreases t.len(),
{
    if t.len() == 0 {
        seq![Seq::<char>::empty()]
    } else {
        let p = split_lines(t.drop_last());
        if t.last() == '\n' {
            p.push(Seq::<char>::empty())
        } else {
            p.update(p.len() - 1, p.last().push(t.last()))
        }
    }
}

/// The pieces joined with `'\n'` between them.
pub open spec fn join_lines(ls: Seq<Seq<char>>) -> Seq<char>
    decreases ls.len(),
{
    if ls.len() == 0 {
        Seq::<char>::empty()
    } else if ls.len() == 1 {
        ls[0]
    } else {
        join_lines(ls.drop_last()) + seq!['\n'] + ls.last()
    }
}

pub open spec fn ends_with_newline(t: Seq<char>) -> bool {
    t.len() > 0 && t.last() == '\n'
}

/// The line list `parse` produces for `t`.
pub open spec fn parse_lines(t: Seq<char>) -> Seq<LineModel> {
    let pieces = split_lines(t);
    let kept = if ends_with_newline(t) {
        pieces.drop_last()
    } else {
        pieces
    };
    kept.map_values(|r: Seq<char>| classify(r))
}

/// The text a document with these lines is written as.
pub open spec fn render(lines: Seq<LineModel>, trailing_newline: bool) -> Seq<char> {
    join_lines(raws(lines)) + if trailing_newline {
        seq!['\n']
    } else {
        Seq::<char>::empty()
    }
}

// ---------------------------------------------------------------------------
// Lemmas on splitting and joining
// ---------------------------------------------------------------------------

pub proof fn lemma_split_lines_len(t: Seq<char>)
    ensures
        split_lines(t).len() >= 1,
        ends_with_newline(t) ==> split_lines(t).len() >= 2 && split_lines(t).last().len() == 0,
    decreases t.len(),
{
    if t.len() > 0 {
        lemma_split_lines_len(t.drop_last());
    }
}

pub proof fn lemma_split_lines_no_newline(t: Seq<char>)
    ensures
        forall|i: int, j: int|
            0 <= i < split_lines(t).len() && 0 <= j < split_lines(t)[i].len() ==> split_lines(
                t,
            )[i][j] != '\n',
    decreases t.len(),
{
    if t.len() > 0 {
        lemma_split_lines_no_newline(t.drop_last());
        lemma_split_lines_len(t.drop_last());
        let p = split_lines(t.drop_last());
        if t.last() != '\n' {
            assert forall|i: int, j: int|
                0 <= i < split_lines(t).len() && 0 <= j < split_lines(t)[i].len() implies split_lines(
                t,
            )[i][j] != '\n' by {
                if i == p.len() - 1 && j == p.last().len() {
                } else if i == p.len() - 1 {
                    assert(split_lines(t)[i][j] == p[i][j]);
                }
            }
        }
    }
}

pub proof fn lemma_join_split(t: Seq<char>)
    ensures
        join_lines(split_lines(t)) == t,
    decreases t.len(),
{
    if t.len() > 0 {
        let p = t.drop_last();
        lemma_join_split(p);
        lemma_split_lines_len(p);
        let ls = split_lines(p);
        if t.last() == '\n' {
            assert(split_lines(t).drop_last() =~= ls);
            assert(t =~= p + seq!['\n'] + Seq::<char>::empty());
        } else {
            let ls2 = split_lines(t);
            if ls.len() == 1 {
                assert(ls[0] == p);
                assert(ls2[0] =~= t);
            } else {
                assert(ls2.len() == ls.len());
                assert(ls2.drop_last() =~= ls.drop_last());
                assert(ls2.last() == ls.last().push(t.last()));
                assert(join_lines(ls) == join_lines(ls.drop_last()) + seq!['\n'] + ls.last());
                assert(t =~= p.push(t.last()));
                assert(join_lines(ls2) == join_lines(ls2.drop_last()) + seq!['\n'] + ls2.last());
                assert(join_lines(ls2) =~= t);
            }
        }
    }
}

/// Splitting a join gives back the pieces, when no piece holds a newline.
pub proof fn lemma_split_join(ls: Seq<Seq<char>>)
    requires
        ls.len() >= 1,
        forall|i: int, j: int| 0 <= i < ls.len() && 0 <= j < ls[i].len() ==> ls[i][j] != '\n',
    ensures
        split_lines(join_lines(ls)) == ls,
    decreases ls.len(), ls.last().len(),
{
    if ls.last().len() > 0 {
        let last = ls.last();
        let shorter = ls.update(ls.len() - 1, last.drop_last());
        assert forall|i: int, j: int|
            0 <= i < shorter.len() && 0 <= j < shorter[i].len() implies shorter[i][j] != '\n' by {
            if i == ls.len() - 1 {
                assert(shorter[i][j] == ls[i][j]);
            }
        }
        lemma_split_join(shorter);
        let t = join_lines(ls);
        if ls.len() == 1 {
            assert(t.drop_last() =~= join_lines(shorter));
        } else {
            assert(shorter.drop_last() =~= ls.drop_last());
            assert(t.drop_last() =~= join_lines(shorter));
        }
        assert(t.last() == last.last());
        assert(t.len() > 0);
        assert(t.last() != '\n');
        assert(split_lines(t) == split_lines(t.drop_last()).update(
            split_lines(t.drop_last()).len() - 1,
            split_lines(t.drop_last()).last().push(t.last()),
        ));
        assert(last.drop_last().push(last.last()) =~= last);
        assert(split_lines(t) =~= ls);
    } else if ls.len() == 1 {
        assert(join_lines(ls) =~= Seq::<char>::empty());
        assert(split_lines(Seq::<char>::empty()) =~= ls);
    } else {
        let front = ls.drop_last();
        assert forall|i: int, j: int|
            0 <= i < front.len() && 0 <= j < front[i].len() implies front[i][j] != '\n' by {
            assert(front[i] == ls[i]);
        }
        lemma_split_join(front);
        let t = join_lines(ls);
        assert(t =~= join_lines(front) + seq!['\n']);
        assert(t.drop_last() =~= join_lines(front));
        assert(split_lines(t) =~= front.push(Seq::<char>::empty()));
        assert(ls.last() =~= Seq::<char>::empty());
        assert(front.push(Seq::<char>::empty()) =~= ls);
    }
}

proof fn lemma_classify_raw(r: Seq<char>)
    ensures
        classify(r).raw() == r,
{
}

proof fn lemma_raws_of_parse(t: Seq<char>)
    ensures
        raws(parse_lines(t)) == (if ends_with_newline(t) {
            split_lines(t).drop_last()
        } else {
            split_lines(t)
        }),
{
    let pieces = split_lines(t);
    let kept = if ends_with_newline(t) {
        pieces.drop_last()
    } else {
        pieces
    };
    assert forall|i: int| 0 <= i < kept.len() implies raws(parse_lines(t))[i] == kept[i] by {
        lemma_classify_raw(kept[i]);
    }
    assert(raws(parse_lines(t)) =~= kept);
}

/// Parsing a text and writing it back yields the text, byte for byte.
pub proof fn law_parse_render_roundtrip(t: Seq<char>)
    ensures
        render(parse_lines(t), ends_with_newline(t)) == t,
{
    lemma_raws_of_parse(t);
    lemma_join_split(t);
    lemma_split_lines_len(t);
    let pieces = split_lines(t);
    if ends_with_newline(t) {
        let front = pieces.drop_last();
        assert(pieces =~= front.push(Seq::<char>::empty()));
        assert(pieces.drop_last() =~= front);
        assert(join_lines(pieces) =~= join_lines(front) + seq!['\n'] + Seq::<char>::empty());
        assert(render(parse_lines(t), true) =~= t);
    } else {
        assert(render(parse_lines(t), false) =~= t);
    }
}

// ---------------------------------------------------------------------------
// Parsing
// ---------------------------------------------------------------------------

/// A parsed ini document: an ordered list of lines. Order and content are
/// preserved exactly so it can be written back unchanged.
#[derive(Debug)]
pub struct IniDoc {
    pub lines: Vec<IniLine>,
    /// True if the original file ended with a trailing newline, so it is
    /// reproduced exactly on write.
    pub trailing_newline: bool,
}

impl IniDoc {
    pub open spec fn model(&self) -> Seq<LineModel> {
        lines_view(self.lines@)
    }

    /// The text this document is written as.
    pub open spec fn text(&self) -> Seq<char> {
        render(self.model(), self.trailing_newline)
    }

    /// Reconstruct the file text exactly as parsed.
    pub fn to_text(&self) -> (r: String)
        ensures
            r@ == self.text(),
    {
        let mut out: Vec<char> = Vec::new();
        let mut i: usize = 0;
        while i < self.lines.len()
            invariant
                i <= self.lines.len(),
                out@ == join_lines(raws(lines_view(self.lines@)).subrange(0, i as int)),
            decreases self.lines.len() - i,
        {
            let ghost prev = raws(lines_view(self.lines@)).subrange(0, i as int);
            if i > 0 {
                out.push('\n');
            }
            let raw: &String = self.lines[i].raw();
            let rv: Vec<char> = chars_of(raw.as_str());
            append_chars(&mut out, &rv);
            i = i + 1;
            proof {
                let cur = raws(lines_view(self.lines@)).subrange(0, i as int);
                assert(cur.drop_last() =~= prev);
                assert(cur.last() == self.lines@[i - 1]@.raw());
                if i == 1 {
                    assert(out@ =~= join_lines(cur));
                } else {
                    assert(out@ =~= join_lines(cur));
                }
            }
        }
        assert(raws(lines_view(self.lines@)).subrange(0, self.lines.len() as int) =~= raws(
            lines_view(self.lines@),
        ));
        if self.trailing_newline {
            out.push('\n');
        }
        let r: String = string_of(&out);
        assert(r@ =~= self.text());
        r
    }
}

/// Parse ini text into an ordered line list. Never fails — anything that
/// doesn't match a known line kind is preserved as `Other`.
pub fn parse(text: &str) -> (doc: IniDoc)
    ensures
        doc.model() == parse_lines(text@),
        doc.trailing_newline == ends_with_newline(text@),
{
    let t: Vec<char> = chars_of(text);
    let mut lines: Vec<IniLine> = Vec::new();
    let mut cur: Vec<char> = Vec::new();
    let mut i: usize = 0;
    while i < t.len()
        invariant
            i <= t.len(),
            t@ == text@,
            split_lines(t@.subrange(0, i as int)) == raws(lines_view(lines@)).push(cur@),
            lines_view(lines@) == raws(lines_view(lines@)).map_values(|r: Seq<char>| classify(r)),
        decreases t.len() - i,
    {
        let ghost before = t@.subrange(0, i as int);
        let c: char = t[i];
        let ghost old_lines = lines@;
        let ghost old_cur = cur@;
        if c == '\n' {
            let line: IniLine = classify_line(&cur);
            lines.push(line);
            cur = Vec::new();
        } else {
            cur.push(c);
        }
        i = i + 1;
        proof {
            let after = t@.subrange(0, i as int);
            assert(after.drop_last() =~= before);
            assert(after.last() == c);
            lemma_split_lines_len(before);
            if c == '\n' {
                assert(raws(lines_view(lines@)) =~= raws(lines_view(old_lines)).push(old_cur));
                assert(split_lines(after) =~= raws(lines_view(lines@)).push(cur@));
                assert(lines_view(lines@) =~= raws(lines_view(lines@)).map_values(
                    |r: Seq<char>| classify(r),
                ));
            } else {
                assert(raws(lines_view(lines@)) =~= raws(lines_view(old_lines)));
                assert(split_lines(after) =~= raws(lines_view(lines@)).push(cur@));
            }
        }
    }
    let ghost before_last = lines@;
    let line: IniLine = classify_line(&cur);
    lines.push(line);
    proof {
        assert(t@.subrange(0, t.len() as int) =~= text@);
        assert(raws(lines_view(lines@)) =~= raws(lines_view(before_last)).push(cur@));
        assert(raws(lines_view(lines@)) == split_lines(text@));
        assert(lines_view(lines@) =~= split_lines(text@).map_values(|r: Seq<char>| classify(r)));
    }
    let trailing: bool = t.len() > 0 && t[t.len() - 1] == '\n';
    if trailing {
        let ghost full = lines@;
        lines.pop();
        proof {
            assert(lines_view(lines@) =~= split_lines(text@).drop_last().map_values(
                |r: Seq<char>| classify(r),
            ));
        }
    }
    IniDoc { lines, trailing_newline: trailing }
}

fn classify_line(raw: &Vec<char>) -> (l: IniLine)
    ensures
        l@ == classify(raw@),
{
    let ghost r = raw@;
    let n: usize = raw.len();
    assert(raw@.subrange(0, n as int) =~= r);
    let (a, b) = trim_range(raw, 0, n);
    let raw_s: String = string_of(raw);
    if a == b {
        return IniLine::Blank { raw: raw_s };
    }
    let ghost t = trim(r);
    assert(t[0] == raw@[a as int]);
    let first: char = raw[a];
    if first == ';' || first == '#' {
        return IniLine::Comment { raw: raw_s };
    }
    assert(t.last() == raw@[b - 1]);
    if first == '[' && raw[b - 1] == ']' && b - a >= 2 {
        let (c, d) = trim_range(raw, a + 1, b - 1);
        assert(t.subrange(1, t.len() - 1) =~= raw@.subrange(a + 1, b - 1));
        let name: String = string_of_range(raw, c, d);
        return IniLine::Section { name, raw: raw_s };
    }
    match find_char_in(raw, 0, n, '=') {
        Some(eq) => {
            let (k0, k1) = trim_range(raw, 0, eq);
            if k0 < k1 {
                let (v0, v1) = trim_range(raw, eq + 1, n);
                let key: String = string_of_range(raw, k0, k1);
                let value: String = string_of_range(raw, v0, v1);
                IniLine::Pair { key, value, raw: raw_s }
            } else {
                IniLine::Other { raw: raw_s }
            }
        },
        None => IniLine::Other { raw: raw_s },
    }
}

// ---------------------------------------------------------------------------
// Targeted value edits
// ---------------------------------------------------------------------------

/// One targeted edit: on `line_index` (0-based into the parsed line list),
/// replace the value of a `Pair` line, keeping the original spacing up to and
/// after the `=`.
#[derive(Debug)]
pub struct LineEdit {
    pub line_index: usize,
    pub new_value: String,
}

/// Length of the run of spaces and tabs at the start of `s`.
pub open spec fn blank_run(s: Seq<char>) -> nat
    decreases s.len(),
{
    if s.len() > 0 && (s[0] == ' ' || s[0] == '\t') {
        1 + blank_run(s.drop_first())
    } else {
        0
    }
}

/// A pair's text with a new value: everything through the first `=`, the
/// spaces/tabs right after it, then the new value.
pub open spec fn rewrite_pair(raw: Seq<char>, new_value: Seq<char>) -> Seq<char> {
    match find_char(raw, '=') {
        Some(eq) => {
            let after = raw.subrange(eq + 1, raw.len() as int);
            raw.subrange(0, eq + 1) + after.subrange(0, blank_run(after) as int) + new_value
        },
        None => raw,
    }
}

pub open spec fn out_of_range_message(i: nat) -> Seq<char> {
    "Line "@ + decimal(i) + " is out of range"@
}

pub open spec fn not_pair_message(i: nat) -> Seq<char> {
    "Line "@ + decimal(i) + " is not a key=value pair; refusing to edit"@
}

/// One edit applied to a line list: the new lines and the error, if any.
pub open spec fn edit_one(lines: Seq<LineModel>, index: nat, new_value: Seq<char>) -> (
    Seq<LineModel>,
    Option<Seq<char>>,
) {
    if index >= lines.len() {
        (lines, Some(out_of_range_message(index)))
    } else {
        match lines[index as int] {
            LineModel::Pair { key, value, raw } => (
                lines.update(
                    index as int,
                    LineModel::Pair { key, value: new_value, raw: rewrite_pair(raw, new_value) },
                ),
                None,
            ),
            _ => (lines, Some(not_pair_message(index))),
        }
    }
}

/// The lines and error messages after applying `edits` in order.
pub open spec fn edit_all(lines: Seq<LineModel>, edits: Seq<LineEdit>) -> (
    Seq<LineModel>,
    Seq<Seq<char>>,
)
    decreases edits.len(),
{
    if edits.len() == 0 {
        (lines, Seq::<Seq<char>>::empty())
    } else {
        let (ls, errs) = edit_all(lines, edits.drop_last());
        let e = edits.last();
        let (ls2, err) = edit_one(ls, e.line_index as nat, e.new_value@);
        match err {
            Some(m) => (ls2, errs.push(m)),
            None => (ls2, errs),
        }
    }
}

pub open spec fn strings_view(v: Seq<String>) -> Seq<Seq<char>> {
    v.map_values(|s: String| s@)
}

fn blank_run_exec(v: &Vec<char>, lo: usize) -> (r: usize)
    requires
        lo <= v.len(),
    ensures
        lo <= r <= v.len(),
        r - lo == blank_run(v@.subrange(lo as int, v.len() as int)),
{
    let mut i: usize = lo;
    while i < v.len() && (v[i] == ' ' || v[i] == '\t')
        invariant
            lo <= i <= v.len(),
            blank_run(v@.subrange(lo as int, v.len() as int)) == (i - lo) + blank_run(
                v@.subrange(i as int, v.len() as int),
            ),
        decreases v.len() - i,
    {
        assert(v@.subrange(i as int, v.len() as int).drop_first() =~= v@.subrange(
            i + 1,
            v.len() as int,
        ));
        i = i + 1;
    }
    i
}

/// Rebuild a pair's raw text with a new value (see `rewrite_pair`).
fn rewrite_pair_raw(raw: &String, new_value: &String) -> (r: String)
    ensures
        r@ == rewrite_pair(raw@, new_value@),
{
    let v: Vec<char> = chars_of(raw.as_str());
    match find_char_in(&v, 0, v.len(), '=') {
        Some(eq) => {
            assert(v@.subrange(0, v.len() as int) =~= raw@);
            let end: usize = blank_run_exec(&v, eq + 1);
            let mut out: Vec<char> = Vec::new();
            let mut i: usize = 0;
            while i < end
                invariant
                    i <= end <= v.len(),
                    out@ == v@.subrange(0, i as int),
                decreases end - i,
            {
                out.push(v[i]);
                i = i + 1;
                assert(out@ =~= v@.subrange(0, i as int));
            }
            let nv: Vec<char> = chars_of(new_value.as_str());
            append_chars(&mut out, &nv);
            proof {
                let after = raw@.subrange(eq + 1, raw@.len() as int);
                assert(v@.subrange(0, end as int) =~= raw@.subrange(0, eq + 1) + after.subrange(
                    0,
                    blank_run(after) as int,
                ));
            }
            string_of(&out)
        },
        None => {
            assert(v@.subrange(0, v.len() as int) =~= raw@);
            raw.clone()
        },
    }
}

fn line_message(index: usize, tail: &str) -> (r: String)
    ensures
        r@ == "Line "@ + decimal(index as nat) + tail@,
{
    let mut v: Vec<char> = Vec::new();
    append_str(&mut v, "Line ");
    let d: Vec<char> = decimal_chars(index as u64);
    append_chars(&mut v, &d);
    append_str(&mut v, tail);
    string_of(&v)
}

/// Apply a set of value edits to a parsed doc in memory. Each edit must target
/// a `Pair` line; edits to non-pair lines (or out-of-range indices) are
/// reported as errors and skipped, so a bad edit never corrupts the file.
pub fn apply_edits(doc: &mut IniDoc, edits: &[LineEdit]) -> (errors: Vec<String>)
    ensures
        (final(doc).model(), strings_view(errors@)) == edit_all(old(doc).model(), edits@),
        final(doc).trailing_newline == old(doc).trailing_newline,
{
    let mut errors: Vec<String> = Vec::new();
    let mut k: usize = 0;
    while k < edits.len()
        invariant
            k <= edits.len(),
            doc.trailing_newline == old(doc).trailing_newline,
            (doc.model(), strings_view(errors@)) == edit_all(
                old(doc).model(),
                edits@.subrange(0, k as int),
            ),
        decreases edits.len() - k,
    {
        let ghost prev_lines = doc.model();
        let ghost prev_errors = strings_view(errors@);
        let edit: &LineEdit = &edits[k];
        let index: usize = edit.line_index;
        proof {
            let sub = edits@.subrange(0, k + 1);
            assert(sub.drop_last() =~= edits@.subrange(0, k as int));
            assert(sub.last() == edits@[k as int]);
        }
        if index >= doc.lines.len() {
            let m: String = line_message(index, " is out of range");
            errors.push(m);
            assert(strings_view(errors@) =~= prev_errors.push(out_of_range_message(index as nat)));
        } else {
            let replacement: Option<IniLine> = match &doc.lines[index] {
                IniLine::Pair { key, value, raw } => {
                    let new_raw: String = rewrite_pair_raw(raw, &edit.new_value);
                    Some(
                        IniLine::Pair {
                            key: key.clone(),
                            value: edit.new_value.clone(),
                            raw: new_raw,
                        },
                    )
                },
                _ => None,
            };
            match replacement {
                Some(line) => {
                    doc.lines.set(index, line);
                    assert(doc.model() =~= prev_lines.update(index as int, doc.lines@[index as int]@));
                },
                None => {
                    let m: String = line_message(
                        index,
                        " is not a key=value pair; refusing to edit",
                    );
                    errors.push(m);
                    assert(strings_view(errors@) =~= prev_errors.push(
                        not_pair_message(index as nat),
                    ));
                },
            }
        }
        k = k + 1;
    }
    assert(edits@.subrange(0, edits.len() as int) =~= edits@);
    errors
}

// ---------------------------------------------------------------------------
// Laws about edits
// ---------------------------------------------------------------------------

pub open spec fn no_newline(s: Seq<char>) -> bool {
    forall|j: int| 0 <= j < s.len() ==> s[j] != '\n'
}

/// Editing never adds or removes lines, and a line that no edit targets keeps
/// its exact content.
pub proof fn law_edits_touch_only_their_lines(lines: Seq<LineModel>, edits: Seq<LineEdit>, i: int)
    requires
        0 <= i < lines.len(),
        forall|k: int| 0 <= k < edits.len() ==> edits[k].line_index != i,
    ensures
        edit_all(lines, edits).0.len() == lines.len(),
        edit_all(lines, edits).0[i] == lines[i],
    decreases edits.len(),
{
    if edits.len() > 0 {
        law_edits_touch_only_their_lines(lines, edits.drop_last(), i);
    }
}

proof fn lemma_rewrite_no_newline(raw: Seq<char>, nv: Seq<char>)
    requires
        no_newline(raw),
        no_newline(nv),
    ensures
        no_newline(rewrite_pair(raw, nv)),
{
    match find_char(raw, '=') {
        Some(eq) => {
            lemma_find_char(raw, '=');
            let after = raw.subrange(eq + 1, raw.len() as int);
            let pre = raw.subrange(0, eq + 1);
            let ws = after.subrange(0, blank_run(after) as int);
            lemma_blank_run_bound(after);
            let r = pre + ws + nv;
            assert forall|j: int| 0 <= j < r.len() implies r[j] != '\n' by {
                if j < pre.len() {
                    assert(r[j] == raw[j]);
                } else if j < pre.len() + ws.len() {
                    assert(r[j] == raw[j]);
                } else {
                    assert(r[j] == nv[j - pre.len() - ws.len()]);
                }
            }
        },
        None => {},
    }
}

proof fn lemma_blank_run_bound(s: Seq<char>)
    ensures
        blank_run(s) <= s.len(),
    decreases s.len(),
{
    if s.len() > 0 {
        lemma_blank_run_bound(s.drop_first());
    }
}

proof fn lemma_edit_all_no_newline(lines: Seq<LineModel>, edits: Seq<LineEdit>)
    requires
        forall|i: int| 0 <= i < lines.len() ==> no_newline(#[trigger] lines[i].raw()),
        forall|k: int| 0 <= k < edits.len() ==> no_newline(#[trigger] edits[k].new_value@),
    ensures
        edit_all(lines, edits).0.len() == lines.len(),
        forall|i: int|
            0 <= i < lines.len() ==> no_newline(#[trigger] edit_all(lines, edits).0[i].raw()),
    decreases edits.len(),
{
    if edits.len() > 0 {
        let front = edits.drop_last();
        assert forall|k: int| 0 <= k < front.len() implies no_newline(
            #[trigger] front[k].new_value@,
        ) by {
            assert(front[k] == edits[k]);
        }
        lemma_edit_all_no_newline(lines, front);
        let ls = edit_all(lines, front).0;
        let e = edits.last();
        assert(no_newline(e.new_value@));
        if (e.line_index as nat) < ls.len() {
            match ls[e.line_index as int] {
                LineModel::Pair { key, value, raw } => {
                    assert(no_newline(ls[e.line_index as int].raw()));
                    lemma_rewrite_no_newline(raw, e.new_value@);
                    let ls2 = edit_all(lines, edits).0;
                    assert forall|i: int| 0 <= i < lines.len() implies no_newline(
                        #[trigger] ls2[i].raw(),
                    ) by {
                        if i != e.line_index {
                            assert(ls2[i] == ls[i]);
                        }
                    }
                },
                _ => {},
            }
        }
    }
}

/// Re-reading an edited document gives back exactly its lines' texts — so,
/// with `law_edits_touch_only_their_lines`, writing an edited file changes
/// only the lines the edits targeted (edit values hold no line breaks).
pub proof fn law_edited_text_rereads_line_for_line(t: Seq<char>, edits: Seq<LineEdit>)
    requires
        forall|k: int| 0 <= k < edits.len() ==> no_newline(#[trigger] edits[k].new_value@),
    ensures
        ({
            let edited = edit_all(parse_lines(t), edits).0;
            raws(parse_lines(render(edited, ends_with_newline(t)))) == raws(edited)
        }),
{
    let lines = parse_lines(t);
    lemma_raws_of_parse(t);
    lemma_split_lines_no_newline(t);
    lemma_split_lines_len(t);
    assert forall|i: int| 0 <= i < lines.len() implies no_newline(#[trigger] lines[i].raw()) by {
        assert(raws(lines)[i] == lines[i].raw());
        assert(lines[i].raw() == split_lines(t)[i]);
    }
    lemma_edit_all_no_newline(lines, edits);
    let edited = edit_all(lines, edits).0;
    let r = raws(edited);
    assert(r.len() == lines.len());
    assert(lines.len() >= 1);
    assert forall|i: int, j: int| 0 <= i < r.len() && 0 <= j < r[i].len() implies r[i][j]
        != '\n' by {
        assert(r[i] == edited[i].raw());
        assert(no_newline(edited[i].raw()));
    }
    lemma_split_join(r);
    let text = render(edited, ends_with_newline(t));
    if ends_with_newline(t) {
        let jt = join_lines(r);
        assert(text =~= jt.push('\n'));
        assert(text.drop_last() =~= jt);
        assert(split_lines(text) == split_lines(jt).push(Seq::<char>::empty()));
        assert(split_lines(text).drop_last() =~= r);
        lemma_raws_of_parse(text);
    } else {
        assert(text =~= join_lines(r));
        if t.len() > 0 {
            lemma_last_piece_nonempty(t);
            assert(lines.last().raw() == split_lines(t).last());
            lemma_edit_all_keeps_nonempty(lines, edits, lines.len() - 1);
            assert(r.last() == edited.last().raw());
            lemma_join_last(r);
        } else {
            assert(split_lines(t) =~= seq![Seq::<char>::empty()]);
            assert(r.len() == 1);
            assert(edited.len() == 1);
            if r[0].len() > 0 {
                lemma_join_last(r);
            } else {
                assert(text =~= Seq::<char>::empty());
            }
        }
        assert(!ends_with_newline(text));
        lemma_raws_of_parse(text);
    }
}

proof fn lemma_last_piece_nonempty(t: Seq<char>)
    requires
        t.len() > 0,
        !ends_with_newline(t),
    ensures
        split_lines(t).last().len() > 0,
{
    lemma_split_lines_len(t.drop_last());
}

proof fn lemma_join_last(r: Seq<Seq<char>>)
    requires
        r.len() >= 1,
        r.last().len() > 0,
    ensures
        join_lines(r).len() > 0,
        join_lines(r).last() == r.last().last(),
{
}

proof fn lemma_edit_all_keeps_nonempty(lines: Seq<LineModel>, edits: Seq<LineEdit>, i: int)
    requires
        0 <= i < lines.len(),
        lines[i].raw().len() > 0,
    ensures
        edit_all(lines, edits).0.len() == lines.len(),
        edit_all(lines, edits).0[i].raw().len() > 0,
    decreases edits.len(),
{
    if edits.len() > 0 {
        lemma_edit_all_keeps_nonempty(lines, edits.drop_last(), i);
        let ls = edit_all(lines, edits.drop_last()).0;
        let e = edits.last();
        if e.line_index == i {
            match ls[i] {
                LineModel::Pair { key, value, raw } => {
                    match find_char(raw, '=') {
                        Some(eq) => {
                            lemma_find_char(raw, '=');
                        },
                        None => {},
                    }
                },
                _ => {},
            }
        }
    }
}

// ---------------------------------------------------------------------------
// Keybind + hash extraction
// ---------------------------------------------------------------------------

pub open spec fn opt_view(o: Option<String>) -> Option<Seq<char>> {
    match o {
        Some(s) => Some(s@),
        None => None,
    }
}

pub struct KeybindModel {
    pub section: Seq<char>,
    pub key: Option<Seq<char>>,
    pub key_label: Option<Seq<char>>,
    pub back: Option<Seq<char>>,
    pub back_label: Option<Seq<char>>,
    pub bind_type: Option<Seq<char>>,
    pub variable: Option<Seq<char>>,
    pub values: Option<Seq<char>>,
}

/// A keybinding declared in a `[Key*]` / `[KeySwap*]` section.
#[derive(Debug, PartialEq)]
pub struct Keybind {
    /// The section name it was declared in (e.g. "KeySwap").
    pub section: String,
    /// Raw `key =` value (e.g. "VK_DOWN", "no_modifiers VK_F"), if present.
    pub key: Option<String>,
    /// Friendly-translated form of `key` (e.g. "↓ Arrow").
    pub key_label: Option<String>,
    /// Raw `back =` value (the reverse-cycle key), if present.
    pub back: Option<String>,
    /// Friendly-translated form of `back`.
    pub back_label: Option<String>,
    /// The `type =` value (cycle / toggle / hold), if present.
    pub bind_type: Option<String>,
    /// The command-list variable this key drives (e.g. "$swapvar").
    pub variable: Option<String>,
    /// The value list assigned to `variable` (e.g. "0,1,2").
    pub values: Option<String>,
}

impl View for Keybind {
    type V = KeybindModel;

    open spec fn view(&self) -> KeybindModel {
        KeybindModel {
            section: self.section@,
            key: opt_view(self.key),
            key_label: opt_view(self.key_label),
            back: opt_view(self.back),
            back_label: opt_view(self.back_label),
            bind_type: opt_view(self.bind_type),
            variable: opt_view(self.variable),
            values: opt_view(self.values),
        }
    }
}

pub struct HashModel {
    pub section: Seq<char>,
    pub value: Seq<char>,
    pub line_index: nat,
}

/// A `hash = <value>` occurrence, with enough info to target it for a write.
#[derive(Debug, PartialEq)]
pub struct HashEntry {
    /// The section the hash belongs to (e.g. "TextureOverrideFurinaBody").
    pub section: String,
    /// The current hash value.
    pub value: String,
    /// 0-based index of the line in the parsed doc — used to target the edit.
    pub line_index: usize,
}

impl View for HashEntry {
    type V = HashModel;

    open spec fn view(&self) -> HashModel {
        HashModel { section: self.section@, value: self.value@, line_index: self.line_index as nat }
    }
}

/// The extracted, display-ready contents of a single ini file.
#[derive(Debug)]
pub struct IniContents {
    pub keybinds: Vec<Keybind>,
    pub hashes: Vec<HashEntry>,
}

pub struct ExtractState {
    pub section: Seq<char>,
    pub pending: Option<KeybindModel>,
    pub keybinds: Seq<KeybindModel>,
    pub hashes: Seq<HashModel>,
}

/// Whether a section name denotes a keybinding section (`[Key…]`, any case).
pub open spec fn is_key_section(name: Seq<char>) -> bool {
    starts_with(ascii_lower(name), "key"@)
}

pub open spec fn binds_something(kb: KeybindModel) -> bool {
    kb.key is Some || kb.back is Some || kb.bind_type is Some
}

/// The keybind list with the pending section's keybind added, if it bound
/// anything.
pub open spec fn flushed(pending: Option<KeybindModel>, keybinds: Seq<KeybindModel>) -> Seq<
    KeybindModel,
> {
    match pending {
        Some(kb) => if binds_something(kb) {
            keybinds.push(kb)
        } else {
            keybinds
        },
        None => keybinds,
    }
}

pub open spec fn empty_keybind(section: Seq<char>) -> KeybindModel {
    KeybindModel {
        section,
        key: None,
        key_label: None,
        back: None,
        back_label: None,
        bind_type: None,
        variable: None,
        values: None,
    }
}

/// A key section's binding after reading one `key = value` pair in it.
pub open spec fn absorb_pair(kb: KeybindModel, key: Seq<char>, value: Seq<char>) -> KeybindModel {
    let kl = ascii_lower(key);
    if kl == "key"@ {
        KeybindModel { key: Some(value), key_label: Some(key_label(value)), ..kb }
    } else if kl == "back"@ {
        KeybindModel { back: Some(value), back_label: Some(key_label(value)), ..kb }
    } else if kl == "type"@ {
        KeybindModel { bind_type: Some(value), ..kb }
    } else if kb.variable is None && key.len() > 0 && key[0] == '$' && (exists|j: int|
        0 <= j < value.len() && value[j] == ',') {
        KeybindModel { variable: Some(key), values: Some(value), ..kb }
    } else {
        kb
    }
}

/// The scanner state after reading line `index`.
pub open spec fn extract_step(st: ExtractState, index: nat, line: LineModel) -> ExtractState {
    match line {
        LineModel::Section { name, .. } => ExtractState {
            section: name,
            pending: if is_key_section(name) {
                Some(empty_keybind(name))
            } else {
                None
            },
            keybinds: flushed(st.pending, st.keybinds),
            hashes: st.hashes,
        },
        LineModel::Pair { key, value, .. } => ExtractState {
            section: st.section,
            pending: match st.pending {
                Some(kb) => Some(absorb_pair(kb, key, value)),
                None => None,
            },
            keybinds: st.keybinds,
            hashes: if ascii_lower(key) == "hash"@ && value.len() > 0 {
                st.hashes.push(HashModel { section: st.section, value, line_index: index })
            } else {
                st.hashes
            },
        },
        _ => st,
    }
}

pub open spec fn extract_state(lines: Seq<LineModel>) -> ExtractState
    decreases lines.len(),
{
    if lines.len() == 0 {
        ExtractState {
            section: Seq::<char>::empty(),
            pending: None,
            keybinds: Seq::<KeybindModel>::empty(),
            hashes: Seq::<HashModel>::empty(),
        }
    } else {
        extract_step(
            extract_state(lines.drop_last()),
            (lines.len() - 1) as nat,
            lines.last(),
        )
    }
}

/// The keybinds and hashes extracted from a line list.
pub open spec fn extract_model(lines: Seq<LineModel>) -> (Seq<KeybindModel>, Seq<HashModel>) {
    let st = extract_state(lines);
    (flushed(st.pending, st.keybinds), st.hashes)
}

fn has_comma(v: &Vec<char>) -> (r: bool)
    ensures
        r == (exists|j: int| 0 <= j < v@.len() && v@[j] == ','),
{
    let mut i: usize = 0;
    while i < v.len()
        invariant
            i <= v.len(),
            forall|j: int| 0 <= j < i ==> v@[j] != ',',
        decreases v.len() - i,
    {
        if v[i] == ',' {
            return true;
        }
        i = i + 1;
    }
    false
}

fn flush_keybind(pending: Option<Keybind>, out: &mut Vec<Keybind>)
    ensures
        final(out)@.map_values(|k: Keybind| k@) == flushed(
            match pending {
                Some(kb) => Some(kb@),
                None => None,
            },
            old(out)@.map_values(|k: Keybind| k@),
        ),
{
    let ghost before = out@.map_values(|k: Keybind| k@);
    if let Some(kb) = pending {
        if kb.key.is_some() || kb.back.is_some() || kb.bind_type.is_some() {
            out.push(kb);
            assert(out@.map_values(|k: Keybind| k@) =~= before.push(out@.last()@));
        }
    }
}

fn absorb_pair_exec(kb: &mut Keybind, key: &String, value: &String)
    ensures
        final(kb)@ == absorb_pair(old(kb)@, key@, value@),
{
    let kv: Vec<char> = chars_of(key.as_str());
    let kl: Vec<char> = to_lower_ascii(&kv);
    if eq_str(&kl, "key") {
        kb.key = Some(value.clone());
        kb.key_label = Some(translate_key(value.as_str()));
    } else if eq_str(&kl, "back") {
        kb.back = Some(value.clone());
        kb.back_label = Some(translate_key(value.as_str()));
    } else if eq_str(&kl, "type") {
        kb.bind_type = Some(value.clone());
    } else {
        let vv: Vec<char> = chars_of(value.as_str());
        if kb.variable.is_none() && kv.len() > 0 && kv[0] == '$' && has_comma(&vv) {
            kb.variable = Some(key.clone());
            kb.values = Some(value.clone());
        }
    }
}

/// Extract keybinds and hashes from a parsed doc.
///
/// Walks lines in order, tracking the current section. Within a `[Key*]`
/// section it gathers `key`/`back`/`type` and the first `$var = a,b,c`
/// assignment (the driven variable). `hash =` lines are collected from any
/// section along with their line index for targeted rewriting.
pub fn extract(doc: &IniDoc) -> (r: IniContents)
    ensures
        (r.keybinds@.map_values(|k: Keybind| k@), r.hashes@.map_values(|h: HashEntry| h@))
            == extract_model(doc.model()),
{
    let mut keybinds: Vec<Keybind> = Vec::new();
    let mut hashes: Vec<HashEntry> = Vec::new();
    let mut section: String = String::new();
    let mut pending: Option<Keybind> = None;
    let mut idx: usize = 0;
    while idx < doc.lines.len()
        invariant
            idx <= doc.lines.len(),
            ({
                let st = extract_state(doc.model().subrange(0, idx as int));
                &&& st.section == section@
                &&& st.pending == match pending {
                    Some(kb) => Some(kb@),
                    None => None,
                }
                &&& st.keybinds == keybinds@.map_values(|k: Keybind| k@)
                &&& st.hashes == hashes@.map_values(|h: HashEntry| h@)
            }),
        decreases doc.lines.len() - idx,
    {
        let ghost prev_hashes = hashes@.map_values(|h: HashEntry| h@);
        proof {
            let sub = doc.model().subrange(0, idx + 1);
            assert(sub.drop_last() =~= doc.model().subrange(0, idx as int));
            assert(sub.last() == doc.lines@[idx as int]@);
        }
        match &doc.lines[idx] {
            IniLine::Section { name, .. } => {
                let p: Option<Keybind> = pending.take();
                flush_keybind(p, &mut keybinds);
                section = name.clone();
                let nv: Vec<char> = chars_of(name.as_str());
                let lower: Vec<char> = to_lower_ascii(&nv);
                if starts_with_str(&lower, "key") {
                    pending = Some(
                        Keybind {
                            section: name.clone(),
                            key: None,
                            key_label: None,
                            back: None,
                            back_label: None,
                            bind_type: None,
                            variable: None,
                            values: None,
                        },
                    );
                } else {
                    pending = None;
                }
            },
            IniLine::Pair { key, value, .. } => {
                let kv: Vec<char> = chars_of(key.as_str());
                let kl: Vec<char> = to_lower_ascii(&kv);
                if eq_str(&kl, "hash") && !value.as_str().is_empty() {
                    hashes.push(
                        HashEntry { section: section.clone(), value: value.clone(), line_index: idx },
                    );
                    assert(hashes@.map_values(|h: HashEntry| h@) =~= prev_hashes.push(
                        HashModel { section: section@, value: value@, line_index: idx as nat },
                    ));
                }
                let p: Option<Keybind> = pending.take();
                match p {
                    Some(mut kb) => {
                        absorb_pair_exec(&mut kb, key, value);
                        pending = Some(kb);
                    },
                    None => {},
                }
            },
            _ => {},
        }
        idx = idx + 1;
    }
    assert(doc.model().subrange(0, doc.lines.len() as int) =~= doc.model());
    flush_keybind(pending, &mut keybinds);
    IniContents { keybinds, hashes }
}

/// Every extracted hash entry points at a `hash = value` pair line holding
/// exactly that value, and entries come in line order.
pub proof fn law_hash_entries_point_at_hash_lines(lines: Seq<LineModel>)
    ensures
        forall|h: int|
            0 <= h < extract_model(lines).1.len() ==> {
                let e = #[trigger] extract_model(lines).1[h];
                &&& e.line_index < lines.len()
                &&& lines[e.line_index as int] matches LineModel::Pair { key, value, .. }
                &&& ascii_lower(key) == "hash"@
                &&& value == e.value
            },
        forall|a: int, b: int|
            0 <= a < b < extract_model(lines).1.len() ==> extract_model(lines).1[a].line_index
                < extract_model(lines).1[b].line_index,
    decreases lines.len(),
{
    if lines.len() > 0 {
        let front = lines.drop_last();
        law_hash_entries_point_at_hash_lines(front);
        let hs = extract_state(front).hashes;
        assert(extract_model(front).1 == hs);
        assert forall|h: int| 0 <= h < hs.len() implies hs[h].line_index < front.len() by {
            assert(extract_model(front).1[h] == hs[h]);
        }
    }
}

/// A keybinding section is reported whether or not another section follows
/// it: a file's keybinds stay the same when a section that binds no key is
/// appended after its last line.
pub proof fn law_keybinds_do_not_wait_for_a_next_section(
    lines: Seq<LineModel>,
    name: Seq<char>,
    raw: Seq<char>,
)
    requires
        !is_key_section(name),
    ensures
        extract_model(lines.push(LineModel::Section { name, raw })).0 == extract_model(lines).0,
{
    let more = lines.push(LineModel::Section { name, raw });
    assert(more.drop_last() =~= lines);
}

/// A `[Key…]` section whose `key` is set yields exactly one keybind more
/// than the lines before it: for that section, with that key and its label,
/// even when it is the last section of the file.
pub proof fn law_key_section_yields_one_keybind(
    before: Seq<LineModel>,
    name: Seq<char>,
    raw: Seq<char>,
    key: Seq<char>,
    value: Seq<char>,
    pair_raw: Seq<char>,
)
    requires
        is_key_section(name),
        ascii_lower(key) == "key"@,
    ensures
        ({
            let lines = before.push(LineModel::Section { name, raw }).push(
                LineModel::Pair { key, value, raw: pair_raw },
            );
            let kbs = extract_model(lines).0;
            &&& kbs.len() == extract_model(before).0.len() + 1
            &&& kbs.subrange(0, kbs.len() - 1) == extract_model(before).0
            &&& kbs.last().section == name
            &&& kbs.last().key == Some(value)
            &&& kbs.last().key_label == Some(key_label(value))
        }),
{
    let one = before.push(LineModel::Section { name, raw });
    let lines = one.push(LineModel::Pair { key, value, raw: pair_raw });
    assert(lines.drop_last() =~= one);
    assert(one.drop_last() =~= before);
    let s1 = extract_state(one);
    let s2 = extract_state(lines);
    assert(s1.pending == Some(empty_keybind(name)));
    assert(s1.keybinds == extract_model(before).0);
    let kb = absorb_pair(empty_keybind(name), key, value);
    assert(kb.key == Some(value));
    assert(s2.pending == Some(kb));
    assert(s2.keybinds == s1.keybinds);
    assert(binds_something(kb));
    let kbs = extract_model(lines).0;
    assert(kbs == s1.keybinds.push(kb));
    assert(kbs.subrange(0, kbs.len() - 1) =~= extract_model(before).0);
}

} // verus!
