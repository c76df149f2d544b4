//! The `.ini` files of one mod folder: which files count, how an edited file
//! is written back with a backup that never clobbers an earlier one, how a
//! batch of hash corrections is grouped by file and tallied, and how the
//! readable files become the per-file listing shown to the user.
//!
//! Walking the folder, reading and writing the files happen around these
//! functions; every decision about names, texts and counts is made here.

use vstd::prelude::*;
use crate::downloads::lemma_decimal_injective;
use crate::ini::{
    edit_all, ends_with_newline, extract, opt_view, parse, parse_lines, render, strings_view,
    IniContents, LineEdit,
};
use crate::mods::{contains_name, names_view};
use crate::paths::base_name_of;
use crate::text::{
    append_chars, append_str, ascii_lower, chars_eq, chars_of, decimal, decimal_chars, ends_with,
    ends_with_str, eq_str, string_of, to_lower_ascii,
};

verus! {

// ---------------------------------------------------------------------------
// Which files are mod inis
// ---------------------------------------------------------------------------

/// A file name is a mod ini when it ends in `.ini` (ignoring ASCII case) and
/// is not one of 3DMigoto's own loader files.
pub open spec fn is_mod_ini_name(name: Seq<char>) -> bool {
    let lower = ascii_lower(name);
    &&& ends_with(lower, ".ini"@)
    &&& lower != "d3dx.ini"@
    &&& lower != "d3dx_user.ini"@
}

/// Whether a file name is a mod ini that should be listed.
pub fn is_mod_ini(name: &str) -> (r: bool)
    ensures
        r == is_mod_ini_name(name@),
{
    let lower: Vec<char> = to_lower_ascii(&chars_of(name));
    if !ends_with_str(&lower, ".ini") {
        return false;
    }
    !eq_str(&lower, "d3dx.ini") && !eq_str(&lower, "d3dx_user.ini")
}

// ---------------------------------------------------------------------------
// Backup names
// ---------------------------------------------------------------------------

/// The suffix of the `n`-th backup: `.bak` first, then `.bak.2`, `.bak.3`, ….
pub open spec fn backup_suffix(n: nat) -> Seq<char> {
    if n <= 1 {
        ".bak"@
    } else {
        ".bak."@ + decimal(n)
    }
}

/// `n` is the first backup number whose file name is not among `names`.
pub open spec fn first_free_backup(name: Seq<char>, names: Seq<Seq<char>>, n: nat) -> bool {
    &&& n >= 1
    &&& !names.contains(name + backup_suffix(n))
    &&& forall|k: nat| 1 <= k < n ==> names.contains(#[trigger] (name + backup_suffix(k)))
}

proof fn lemma_backup_injective(name: Seq<char>, a: nat, b: nat)
    requires
        a >= 1,
        b >= 1,
        name + backup_suffix(a) == name + backup_suffix(b),
    ensures
        a == b,
{
    reveal_strlit(".bak");
    reveal_strlit(".bak.");
    let x = name + backup_suffix(a);
    let y = name + backup_suffix(b);
    assert(x.len() == y.len());
    if a >= 2 && b >= 2 {
        let lo = name.len() + 5;
        assert(x.subrange(lo as int, x.len() as int) =~= decimal(a));
        assert(y.subrange(lo as int, y.len() as int) =~= decimal(b));
        lemma_decimal_injective(a, b);
    } else if a >= 2 {
        crate::downloads::lemma_digits_nonempty(a);
    } else if b >= 2 {
        crate::downloads::lemma_digits_nonempty(b);
    }
}

/// When the backups numbered 1 up to `n` are all taken, `names` holds at
/// least that many entries.
proof fn lemma_backups_taken_bound(name: Seq<char>, names: Seq<Seq<char>>, n: int)
    requires
        n >= 1,
        forall|k: nat| 1 <= k < n ==> names.contains(#[trigger] (name + backup_suffix(k))),
    ensures
        n - 1 <= names.len(),
{
    let a = vstd::set_lib::set_int_range(1, n);
    vstd::set_lib::lemma_int_range(1, n);
    let f = |k: int| name + backup_suffix(k as nat);
    assert(vstd::relations::injective_on(f, a)) by {
        assert forall|x1: int, x2: int|
            a.contains(x1) && a.contains(x2) && #[trigger] f(x1) == #[trigger] f(x2) implies x1
            == x2 by {
            lemma_backup_injective(name, x1 as nat, x2 as nat);
        }
    }
    let b = a.map(f);
    vstd::set_lib::lemma_map_size(a, b, f);
    assert(b.subset_of(names.to_set())) by {
        assert forall|s: Seq<char>| b.contains(s) implies names.to_set().contains(s) by {
            let k = choose|k: int| a.contains(k) && f(k) == s;
            assert(names.contains(name + backup_suffix(k as nat)));
        }
    }
    vstd::set_lib::lemma_len_subset(b, names.to_set());
    names.lemma_cardinality_of_set();
}

/// Where the original of `path` is saved before it is overwritten:
/// `path.bak`, or `path.bak.2`, `path.bak.3`, … when earlier backups exist,
/// so that no earlier backup is ever overwritten. `existing` are the names
/// present in the file's folder.
pub fn next_backup_path(path: &str, existing: &Vec<String>) -> (r: String)
    requires
        existing@.len() + 2 <= u64::MAX,
    ensures
        exists|n: nat|
            first_free_backup(crate::paths::base_name(path@), names_view(existing@), n) && r@
                == path@ + backup_suffix(n),
{
    let name: String = base_name_of(path);
    let ghost names = names_view(existing@);
    let mut n: u64 = 1;
    loop
        invariant
            1 <= n <= existing@.len() + 1,
            existing@.len() + 2 <= u64::MAX,
            names == names_view(existing@),
            name@ == crate::paths::base_name(path@),
            forall|k: nat| 1 <= k < n ==> names.contains(#[trigger] (name@ + backup_suffix(k))),
        decreases existing@.len() + 1 - n,
    {
        let mut suffix: Vec<char> = Vec::new();
        append_str(&mut suffix, ".bak");
        if n >= 2 {
            append_str(&mut suffix, ".");
            let d: Vec<char> = decimal_chars(n);
            append_chars(&mut suffix, &d);
        }
        proof {
            reveal_strlit(".bak");
            reveal_strlit(".");
            reveal_strlit(".bak.");
            assert(suffix@ =~= backup_suffix(n as nat));
        }
        let mut cand: Vec<char> = chars_of(name.as_str());
        append_chars(&mut cand, &suffix);
        let cs: String = string_of(&cand);
        if !contains_name(existing, cs.as_str()) {
            let mut full: Vec<char> = chars_of(path);
            append_chars(&mut full, &suffix);
            let r: String = string_of(&full);
            assert(first_free_backup(name@, names, n as nat));
            return r;
        }
        proof {
            lemma_backups_taken_bound(name@, names, n + 1);
        }
        n = n + 1;
    }
}

// ---------------------------------------------------------------------------
// Writing edits back
// ---------------------------------------------------------------------------

/// The text of a file after `edits` are applied to it.
pub open spec fn edited_text(original: Seq<char>, edits: Seq<LineEdit>) -> Seq<char> {
    render(edit_all(parse_lines(original), edits).0, ends_with_newline(original))
}

/// The outcome of editing a file's text: the per-edit errors, and the new
/// text when it differs from the original (`None`: nothing to write, and no
/// backup to make).
#[derive(Debug)]
pub struct EditedText {
    pub errors: Vec<String>,
    pub new_text: Option<String>,
}

/// Apply `edits` to the text of an ini file. The caller backs the original
/// up (see `next_backup_path`) and writes the new text only when there is
/// one.
pub fn edit_ini_text(original: &str, edits: &[LineEdit]) -> (r: EditedText)
    ensures
        strings_view(r.errors@) == edit_all(parse_lines(original@), edits@).1,
        opt_view(r.new_text) == (if edited_text(original@, edits@) == original@ {
            None
        } else {
            Some(edited_text(original@, edits@))
        }),
{
    let mut doc = parse(original);
    let errors: Vec<String> = crate::ini::apply_edits(&mut doc, edits);
    let new_text: String = doc.to_text();
    let same: bool = chars_eq(&chars_of(new_text.as_str()), &chars_of(original));
    if same {
        EditedText { errors, new_text: None }
    } else {
        EditedText { errors, new_text: Some(new_text) }
    }
}

// ---------------------------------------------------------------------------
// Batches of hash corrections
// ---------------------------------------------------------------------------

/// One hash correction: the line `line_index` of the ini file `ini_path`
/// gets the value `new_value`.
#[derive(Debug)]
pub struct HashEdit {
    pub ini_path: String,
    pub line_index: usize,
    pub new_value: String,
}

/// The line edits of a batch that target the file `p`, in batch order.
pub open spec fn edits_for(edits: Seq<HashEdit>, p: Seq<char>) -> Seq<(usize, Seq<char>)>
    decreases edits.len(),
{
    if edits.len() == 0 {
        Seq::<(usize, Seq<char>)>::empty()
    } else {
        let rest = edits_for(edits.drop_last(), p);
        let e = edits.last();
        if e.ini_path@ == p {
            rest.push((e.line_index, e.new_value@))
        } else {
            rest
        }
    }
}

pub open spec fn line_edits_view(v: Seq<LineEdit>) -> Seq<(usize, Seq<char>)> {
    v.map_values(|e: LineEdit| (e.line_index, e.new_value@))
}

pub open spec fn edit_paths(edits: Seq<HashEdit>) -> Seq<Seq<char>> {
    edits.map_values(|e: HashEdit| e.ini_path@)
}

pub open spec fn group_paths(groups: Seq<(String, Vec<LineEdit>)>) -> Seq<Seq<char>> {
    groups.map_values(|g: (String, Vec<LineEdit>)| g.0@)
}

/// `groups` holds each file named in `edits` once, in ascending order of its
/// path, with that file's edits in batch order.
pub open spec fn grouped(edits: Seq<HashEdit>, groups: Seq<(String, Vec<LineEdit>)>) -> bool {
    &&& forall|i: int, j: int|
        0 <= i < j < groups.len() ==> crate::sorting::lex_lt(
            (#[trigger] groups[i]).0@,
            (#[trigger] groups[j]).0@,
        )
    &&& forall|i: int| 0 <= i < groups.len() ==> edit_paths(edits).contains(#[trigger] groups[i].0@)
    &&& forall|k: int| 0 <= k < edits.len() ==> group_paths(groups).contains(#[trigger] edits[k].ini_path@)
    &&& forall|i: int|
        0 <= i < groups.len() ==> line_edits_view((#[trigger] groups[i]).1@) == edits_for(
            edits,
            groups[i].0@,
        )
}

fn edits_for_path(edits: &Vec<HashEdit>, p: &Vec<char>) -> (r: Vec<LineEdit>)
    ensures
        line_edits_view(r@) == edits_for(edits@, p@),
{
    let mut out: Vec<LineEdit> = Vec::new();
    let mut k: usize = 0;
    while k < edits.len()
        invariant
            k <= edits.len(),
            line_edits_view(out@) == edits_for(edits@.subrange(0, k as int), p@),
        decreases edits.len() - k,
    {
        let ghost prev = line_edits_view(out@);
        let e: &HashEdit = &edits[k];
        proof {
            let sub = edits@.subrange(0, k + 1);
            assert(sub.drop_last() =~= edits@.subrange(0, k as int));
            assert(sub.last() == edits@[k as int]);
        }
        if eq_str(p, e.ini_path.as_str()) {
            out.push(LineEdit { line_index: e.line_index, new_value: e.new_value.clone() });
            assert(line_edits_view(out@) =~= prev.push((e.line_index, e.new_value@)));
        }
        k = k + 1;
    }
    assert(edits@.subrange(0, edits.len() as int) =~= edits@);
    out
}

/// The distinct paths named in `edits`, in order of first appearance.
fn distinct_paths(edits: &Vec<HashEdit>) -> (paths: Vec<Vec<char>>)
    ensures
        paths@.map_values(|v: Vec<char>| v@).no_duplicates(),
        forall|a: int| 0 <= a < paths.len() ==> edit_paths(edits@).contains(#[trigger] paths@[a]@),
        forall|x: int|
            0 <= x < edits.len() ==> paths@.map_values(|v: Vec<char>| v@).contains(
                #[trigger] edits@[x].ini_path@,
            ),
{
    let mut paths: Vec<Vec<char>> = Vec::new();
    let ghost all = edit_paths(edits@);
    let mut k: usize = 0;
    while k < edits.len()
        invariant
            k <= edits.len(),
            all == edit_paths(edits@),
            paths@.map_values(|v: Vec<char>| v@).no_duplicates(),
            forall|a: int| 0 <= a < paths.len() ==> all.contains(#[trigger] paths@[a]@),
            forall|x: int|
                0 <= x < k ==> paths@.map_values(|v: Vec<char>| v@).contains(
                    #[trigger] edits@[x].ini_path@,
                ),
        decreases edits.len() - k,
    {
        let ghost ks = paths@.map_values(|v: Vec<char>| v@);
        let p: Vec<char> = chars_of(edits[k].ini_path.as_str());
        assert(all[k as int] == p@);
        let mut found: bool = false;
        let mut a: usize = 0;
        while a < paths.len()
            invariant
                a <= paths.len(),
                ks == paths@.map_values(|v: Vec<char>| v@),
                found ==> ks.contains(p@),
                !found ==> forall|b: int| 0 <= b < a ==> ks[b] != p@,
            decreases paths.len() - a,
        {
            if !found && chars_eq(&paths[a], &p) {
                found = true;
                assert(ks[a as int] == p@);
            }
            a = a + 1;
        }
        if !found {
            paths.push(p);
            let ghost ks2 = paths@.map_values(|v: Vec<char>| v@);
            assert(ks2 =~= ks.push(p@));
            assert forall|x: int| 0 <= x < k implies ks2.contains(#[trigger] edits@[x].ini_path@) by {
                let j = choose|j: int| 0 <= j < ks.len() && ks[j] == edits@[x].ini_path@;
                assert(ks2[j] == ks[j]);
            }
            assert(ks2[ks.len() as int] == p@);
        }
        k = k + 1;
    }
    paths
}

/// Group a batch of hash corrections by file, so that each file is read and
/// rewritten once with a single backup. Files come in ascending order of
/// their paths.
pub fn group_hash_edits(edits: &Vec<HashEdit>) -> (groups: Vec<(String, Vec<LineEdit>)>)
    ensures
        grouped(edits@, groups@),
{
    let paths: Vec<Vec<char>> = distinct_paths(edits);
    let ghost ks = paths@.map_values(|v: Vec<char>| v@);
    let ghost all = edit_paths(edits@);
    let order: Vec<usize> = crate::sorting::order_by_text(&paths);
    let mut groups: Vec<(String, Vec<LineEdit>)> = Vec::new();
    let mut i: usize = 0;
    while i < order.len()
        invariant
            i <= order.len(),
            ks == paths@.map_values(|v: Vec<char>| v@),
            all == edit_paths(edits@),
            crate::sorting::sorted_asc(ks, order@),
            groups.len() == i,
            forall|t: int| 0 <= t < i ==> (#[trigger] groups@[t]).0@ == ks[order@[t] as int],
            forall|t: int|
                0 <= t < i ==> line_edits_view((#[trigger] groups@[t]).1@) == edits_for(
                    edits@,
                    groups@[t].0@,
                ),
        decreases order.len() - i,
    {
        let x: usize = order[i];
        let p: &Vec<char> = &paths[x];
        let list: Vec<LineEdit> = edits_for_path(edits, p);
        let name: String = string_of(p);
        groups.push((name, list));
        i = i + 1;
    }
    proof {
        let gp = group_paths(groups@);
        assert forall|a: int, b: int|
            0 <= a < b < groups.len() implies crate::sorting::lex_lt(
            (#[trigger] groups@[a]).0@,
            (#[trigger] groups@[b]).0@,
        ) by {
            let oa = order@[a] as int;
            let ob = order@[b] as int;
            assert(crate::sorting::before_asc(ks, oa, ob));
            assert(oa != ob);
            assert(ks[oa] != ks[ob]);
        }
        assert forall|t: int| 0 <= t < groups.len() implies all.contains(#[trigger] groups@[t].0@) by {
            let x = order@[t] as int;
            assert(ks[x] == paths@[x]@);
        }
        assert forall|k: int| 0 <= k < edits.len() implies gp.contains(#[trigger] edits@[k].ini_path@) by {
            let x = choose|x: int| 0 <= x < ks.len() && ks[x] == edits@[k].ini_path@;
            assert(order@.contains(x as usize));
            let t = choose|t: int| 0 <= t < order@.len() && order@[t] == x as usize;
            assert(gp[t] == groups@[t].0@);
        }
    }
    groups
}

// ---------------------------------------------------------------------------
// Tallying a batch
// ---------------------------------------------------------------------------

/// How many of the first `n` line positions differ between `a` and `b`.
pub open spec fn count_diff(a: Seq<Seq<char>>, b: Seq<Seq<char>>, n: nat) -> nat
    decreases n,
{
    if n == 0 {
        0
    } else {
        count_diff(a, b, (n - 1) as nat) + if a[n - 1] != b[n - 1] {
            1nat
        } else {
            0nat
        }
    }
}

/// The number of lines that differ between two texts, pairing their lines
/// (as `str::lines` yields them) position by position up to the shorter one.
pub open spec fn changed_lines(before: Seq<char>, after: Seq<char>) -> nat {
    let a = crate::mods::std_lines(before);
    let b = crate::mods::std_lines(after);
    count_diff(a, b, if a.len() <= b.len() { a.len() } else { b.len() })
}

proof fn lemma_count_diff_bound(a: Seq<Seq<char>>, b: Seq<Seq<char>>, n: nat)
    ensures
        count_diff(a, b, n) <= n,
    decreases n,
{
    if n > 0 {
        lemma_count_diff_bound(a, b, (n - 1) as nat);
    }
}

/// The number of lines that differ between `before` and `after`.
pub fn count_changed_lines(before: &str, after: &str) -> (r: usize)
    ensures
        r == changed_lines(before@, after@),
{
    let a: Vec<Vec<char>> = crate::mods::std_lines_exec(&chars_of(before));
    let b: Vec<Vec<char>> = crate::mods::std_lines_exec(&chars_of(after));
    let ghost av = a@.map_values(|x: Vec<char>| x@);
    let ghost bv = b@.map_values(|x: Vec<char>| x@);
    let n: usize = if a.len() <= b.len() {
        a.len()
    } else {
        b.len()
    };
    let mut count: usize = 0;
    let mut i: usize = 0;
    while i < n
        invariant
            i <= n,
            n <= a.len(),
            n <= b.len(),
            av == a@.map_values(|x: Vec<char>| x@),
            bv == b@.map_values(|x: Vec<char>| x@),
            count == count_diff(av, bv, i as nat),
        decreases n - i,
    {
        proof {
            lemma_count_diff_bound(av, bv, i as nat);
        }
        if !chars_eq(&a[i], &b[i]) {
            count = count + 1;
        }
        i = i + 1;
    }
    count
}

/// What became of one file of a batch.
#[derive(Debug)]
pub enum HashFileOutcome {
    /// Writing the file failed with this message.
    Failed { message: String },
    /// The edits were applied, with these per-edit errors; the file's text
    /// before and after, where it could be read.
    Applied { errors: Vec<String>, before: Option<String>, after: Option<String> },
}

pub enum OutcomeModel {
    Failed { message: Seq<char> },
    Applied { errors: Seq<Seq<char>>, before: Option<Seq<char>>, after: Option<Seq<char>> },
}

impl View for HashFileOutcome {
    type V = OutcomeModel;

    open spec fn view(&self) -> OutcomeModel {
        match self {
            HashFileOutcome::Failed { message } => OutcomeModel::Failed { message: message@ },
            HashFileOutcome::Applied { errors, before, after } => OutcomeModel::Applied {
                errors: strings_view(errors@),
                before: opt_view(*before),
                after: opt_view(*after),
            },
        }
    }
}

/// The number of hash lines that a file's outcome changed: the differing
/// lines when the file was read before and after and changed.
pub open spec fn file_changes(o: OutcomeModel) -> nat {
    match o {
        OutcomeModel::Applied { before: Some(b), after: Some(a), .. } => if b != a {
            changed_lines(b, a)
        } else {
            0
        },
        _ => 0,
    }
}

/// Whether a file's outcome counts as a written file.
pub open spec fn file_written(o: OutcomeModel) -> bool {
    match o {
        OutcomeModel::Applied { before: Some(b), after: Some(a), .. } => b != a,
        _ => false,
    }
}

/// The errors a file's outcome contributes to the batch result.
pub open spec fn file_errors(path: Seq<char>, o: OutcomeModel) -> Seq<Seq<char>> {
    match o {
        OutcomeModel::Failed { message } => seq![path + ": "@ + message],
        OutcomeModel::Applied { errors, .. } => errors,
    }
}

/// The files written, the lines changed and the errors of the first `n`
/// files of a batch.
pub open spec fn tally(paths: Seq<Seq<char>>, outs: Seq<OutcomeModel>, n: nat) -> (
    nat,
    nat,
    Seq<Seq<char>>,
)
    decreases n,
{
    if n == 0 {
        (0, 0, Seq::<Seq<char>>::empty())
    } else {
        let (w, c, e) = tally(paths, outs, (n - 1) as nat);
        let o = outs[n - 1];
        (
            w + if file_written(o) {
                1nat
            } else {
                0nat
            },
            c + file_changes(o),
            e + file_errors(paths[n - 1], o),
        )
    }
}

proof fn lemma_tally_monotone(paths: Seq<Seq<char>>, outs: Seq<OutcomeModel>, i: nat, n: nat)
    requires
        i <= n,
    ensures
        tally(paths, outs, i).0 <= tally(paths, outs, n).0,
        tally(paths, outs, i).1 <= tally(paths, outs, n).1,
        tally(paths, outs, n).0 <= n,
    decreases n,
{
    if n > 0 {
        if i < n {
            lemma_tally_monotone(paths, outs, i, (n - 1) as nat);
        } else {
            lemma_tally_monotone(paths, outs, (n - 1) as nat, (n - 1) as nat);
        }
    }
}

/// The result of a batch of hash corrections.
#[derive(Debug)]
pub struct HashUpdateResult {
    /// Number of files that were actually modified (and backed up).
    pub files_written: u32,
    /// Total number of lines changed across all files.
    pub hashes_changed: u32,
    pub errors: Vec<String>,
}

/// The result of a batch from what became of each of its files, in the
/// order of `groups` (see `group_hash_edits`).
pub fn tally_hash_updates(
    groups: &Vec<(String, Vec<LineEdit>)>,
    outcomes: &Vec<HashFileOutcome>,
) -> (r: HashUpdateResult)
    requires
        groups.len() == outcomes.len(),
        outcomes.len() <= u32::MAX,
        tally(
            group_paths(groups@),
            outcomes@.map_values(|o: HashFileOutcome| o@),
            outcomes.len() as nat,
        ).1 <= u32::MAX,
    ensures
        (r.files_written as nat, r.hashes_changed as nat, strings_view(r.errors@)) == tally(
            group_paths(groups@),
            outcomes@.map_values(|o: HashFileOutcome| o@),
            outcomes.len() as nat,
        ),
{
    let ghost paths = group_paths(groups@);
    let ghost outs = outcomes@.map_values(|o: HashFileOutcome| o@);
    let ghost total = outcomes.len() as nat;
    let mut files_written: u32 = 0;
    let mut hashes_changed: u32 = 0;
    let mut errors: Vec<String> = Vec::new();
    let mut i: usize = 0;
    while i < outcomes.len()
        invariant
            i <= outcomes.len(),
            groups.len() == outcomes.len(),
            outcomes.len() <= u32::MAX,
            paths == group_paths(groups@),
            outs == outcomes@.map_values(|o: HashFileOutcome| o@),
            total == outcomes.len() as nat,
            tally(paths, outs, total).1 <= u32::MAX,
            (files_written as nat, hashes_changed as nat, strings_view(errors@)) == tally(
                paths,
                outs,
                i as nat,
            ),
        decreases outcomes.len() - i,
    {
        proof {
            lemma_tally_monotone(paths, outs, (i + 1) as nat, total);
            lemma_tally_monotone(paths, outs, (i + 1) as nat, (i + 1) as nat);
        }
        let ghost prev = strings_view(errors@);
        match &outcomes[i] {
            HashFileOutcome::Failed { message } => {
                let mut m: Vec<char> = chars_of(groups[i].0.as_str());
                append_str(&mut m, ": ");
                append_chars(&mut m, &chars_of(message.as_str()));
                errors.push(string_of(&m));
                proof {
                    reveal_strlit(": ");
                    assert(strings_view(errors@) =~= prev + file_errors(paths[i as int], outs[i as int]));
                }
            },
            HashFileOutcome::Applied { errors: errs, before, after } => {
                let mut j: usize = 0;
                while j < errs.len()
                    invariant
                        j <= errs.len(),
                        strings_view(errors@) == prev + strings_view(errs@).subrange(0, j as int),
                    decreases errs.len() - j,
                {
                    let ghost before_push = strings_view(errors@);
                    let e: String = crate::text::copy_string(&errs[j]);
                    errors.push(e);
                    assert(strings_view(errors@) =~= before_push.push(errs@[j as int]@));
                    assert(strings_view(errs@).subrange(0, j + 1) =~= strings_view(errs@).subrange(
                        0,
                        j as int,
                    ).push(errs@[j as int]@));
                    j = j + 1;
                    assert(strings_view(errors@) =~= prev + strings_view(errs@).subrange(0, j as int));
                }
                assert(strings_view(errs@).subrange(0, errs.len() as int) =~= strings_view(errs@));
                match (before, after) {
                    (Some(b), Some(a)) => {
                        let same: bool = chars_eq(&chars_of(b.as_str()), &chars_of(a.as_str()));
                        if !same {
                            let changed: usize = count_changed_lines(b.as_str(), a.as_str());
                            files_written = files_written + 1;
                            hashes_changed = hashes_changed + changed as u32;
                        }
                    },
                    _ => {},
                }
            },
        }
        i = i + 1;
    }
    HashUpdateResult { files_written, hashes_changed, errors }
}

// ---------------------------------------------------------------------------
// Listing a mod's ini files
// ---------------------------------------------------------------------------

/// `s` with every backslash turned into a forward slash.
pub open spec fn forward_slashes(s: Seq<char>) -> Seq<char> {
    s.map_values(|c: char| if c == '\\' { '/' } else { c })
}

/// The path of `path` relative to the folder `root`, as shown to the user:
/// the components after those of `root` joined by `/` (the whole `path`
/// when it does not lie under `root`), with backslashes turned into `/`.
pub open spec fn relative_ini_path(root: Seq<char>, path: Seq<char>) -> Seq<char> {
    let rel = if crate::paths::path_starts_with(path, root) {
        crate::keys::join_with(
            crate::paths::components(path).skip(crate::paths::components(root).len() as int),
            "/"@,
        )
    } else {
        path
    };
    forward_slashes(rel)
}

/// The path of `path` relative to `root` (see `relative_ini_path`).
pub fn relative_path_of(root: &str, path: &str) -> (r: String)
    ensures
        r@ == relative_ini_path(root@, path@),
{
    let mut rel: Vec<char> = Vec::new();
    if crate::paths::path_starts_with_exec(path, root) {
        let pc: Vec<Vec<char>> = crate::paths::components_of(path);
        let bc: Vec<Vec<char>> = crate::paths::components_of(root);
        let ghost pv = pc@.map_values(|x: Vec<char>| x@);
        let ghost tail = pv.skip(bc.len() as int);
        let mut j: usize = bc.len();
        while j < pc.len()
            invariant
                bc.len() <= j <= pc.len(),
                pv == pc@.map_values(|x: Vec<char>| x@),
                tail == pv.skip(bc.len() as int),
                rel@ == crate::keys::join_with(tail.subrange(0, j - bc.len()), "/"@),
            decreases pc.len() - j,
        {
            let ghost prev = tail.subrange(0, j - bc.len());
            if j > bc.len() {
                rel.push('/');
            }
            append_chars(&mut rel, &pc[j]);
            j = j + 1;
            proof {
                reveal_strlit("/");
                let cur = tail.subrange(0, j - bc.len());
                assert(cur.drop_last() =~= prev);
                assert(cur.last() == pv[j - 1]);
                assert(rel@ =~= crate::keys::join_with(cur, "/"@));
            }
        }
        assert(tail.subrange(0, pc.len() - bc.len()) =~= tail);
    } else {
        rel = chars_of(path);
    }
    let ghost before = rel@;
    let mut out: Vec<char> = Vec::new();
    let mut i: usize = 0;
    while i < rel.len()
        invariant
            i <= rel.len(),
            before == rel@,
            out@ == forward_slashes(rel@.subrange(0, i as int)),
        decreases rel.len() - i,
    {
        let c: char = rel[i];
        if c == '\\' {
            out.push('/');
        } else {
            out.push(c);
        }
        i = i + 1;
        assert(out@ =~= forward_slashes(rel@.subrange(0, i as int)));
    }
    assert(rel@.subrange(0, rel.len() as int) =~= rel@);
    string_of(&out)
}

/// One mod ini with something to show: its keybinds and hashes.
#[derive(Debug)]
pub struct ModIniFile {
    /// Full path of the file.
    pub path: String,
    /// Path relative to the mod folder, with `/` separators.
    pub relative_path: String,
    pub keybinds: Vec<crate::ini::Keybind>,
    pub hashes: Vec<crate::ini::HashEntry>,
}

pub struct IniFileModel {
    pub path: Seq<char>,
    pub relative_path: Seq<char>,
    pub keybinds: Seq<crate::ini::KeybindModel>,
    pub hashes: Seq<crate::ini::HashModel>,
}

impl View for ModIniFile {
    type V = IniFileModel;

    open spec fn view(&self) -> IniFileModel {
        IniFileModel {
            path: self.path@,
            relative_path: self.relative_path@,
            keybinds: self.keybinds@.map_values(|k: crate::ini::Keybind| k@),
            hashes: self.hashes@.map_values(|h: crate::ini::HashEntry| h@),
        }
    }
}

pub open spec fn files_view(files: Seq<(String, Option<String>)>) -> Seq<(Seq<char>, Option<Seq<char>>)> {
    files.map_values(|f: (String, Option<String>)| (f.0@, opt_view(f.1)))
}

/// The listing of the ini files of the folder `root` from their paths and
/// texts (`None`: the file could not be read and is skipped): each file
/// whose keybinds or hashes are not both empty, in the given order.
pub open spec fn ini_listing(root: Seq<char>, files: Seq<(Seq<char>, Option<Seq<char>>)>) -> Seq<
    IniFileModel,
>
    decreases files.len(),
{
    if files.len() == 0 {
        Seq::<IniFileModel>::empty()
    } else {
        let rest = ini_listing(root, files.drop_last());
        let (path, text) = files.last();
        match text {
            None => rest,
            Some(t) => {
                let (keybinds, hashes) = crate::ini::extract_model(parse_lines(t));
                if keybinds.len() == 0 && hashes.len() == 0 {
                    rest
                } else {
                    rest.push(
                        IniFileModel {
                            path,
                            relative_path: relative_ini_path(root, path),
                            keybinds,
                            hashes,
                        },
                    )
                }
            },
        }
    }
}

pub open spec fn missing_folder_message(mod_path: Seq<char>) -> Seq<char> {
    "Mod folder does not exist: "@ + mod_path
}

/// Every mod ini of the folder `mod_path` with its keybinds and hashes.
/// `files` are the mod inis found under the folder (see `is_mod_ini`), in
/// order, each with its text, or `None` where it could not be read: such a
/// file is skipped rather than failing the whole listing. A missing folder
/// is an error.
pub fn read_mod_inis(
    mod_path: &str,
    folder_exists: bool,
    files: &Vec<(String, Option<String>)>,
) -> (r: Result<Vec<ModIniFile>, String>)
    ensures
        !folder_exists ==> (r matches Err(e) && e@ == missing_folder_message(mod_path@)),
        folder_exists ==> (r matches Ok(list) && list@.map_values(|f: ModIniFile| f@)
            == ini_listing(mod_path@, files_view(files@))),
{
    if !folder_exists {
        let mut m: Vec<char> = Vec::new();
        append_str(&mut m, "Mod folder does not exist: ");
        append_chars(&mut m, &chars_of(mod_path));
        proof {
            reveal_strlit("Mod folder does not exist: ");
        }
        return Err(string_of(&m));
    }
    let ghost fv = files_view(files@);
    let mut out: Vec<ModIniFile> = Vec::new();
    let mut k: usize = 0;
    while k < files.len()
        invariant
            k <= files.len(),
            fv == files_view(files@),
            out@.map_values(|f: ModIniFile| f@) == ini_listing(mod_path@, fv.subrange(0, k as int)),
        decreases files.len() - k,
    {
        let ghost prev = out@.map_values(|f: ModIniFile| f@);
        proof {
            let sub = fv.subrange(0, k + 1);
            assert(sub.drop_last() =~= fv.subrange(0, k as int));
            assert(sub.last() == fv[k as int]);
        }
        match &files[k].1 {
            None => {},
            Some(text) => {
                let doc = parse(text.as_str());
                let contents: IniContents = extract(&doc);
                if contents.keybinds.len() > 0 || contents.hashes.len() > 0 {
                    let rel: String = relative_path_of(mod_path, files[k].0.as_str());
                    let entry = ModIniFile {
                        path: crate::text::copy_string(&files[k].0),
                        relative_path: rel,
                        keybinds: contents.keybinds,
                        hashes: contents.hashes,
                    };
                    let ghost ev = entry@;
                    out.push(entry);
                    assert(out@.map_values(|f: ModIniFile| f@) =~= prev.push(ev));
                }
            },
        }
        k = k + 1;
    }
    assert(fv.subrange(0, files.len() as int) =~= fv);
    Ok(out)
}

} // verus!
