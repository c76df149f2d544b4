//! Mod naming, scanning and layout rules for both layout models.
//!
//! Legacy layout: mod folders live under `mod_path/Category/ModName` and a
//! disabled mod's folder carries the `DISABLED_` prefix.
//!
//! Symlink layout: real files live under `mod_path/managed_src/...` and an
//! enabled mod has a link at the same relative place under
//! `mod_path/managed_tgt/...`.
//!
//! Scanning works on a snapshot of the mod directory read by the caller
//! (`ModDirSnapshot`), so the rules here are pure functions of what is on
//! disk.

use vstd::prelude::*;
use crate::ini::{join_lines, opt_view, split_lines};
use crate::paths::{
    base_name, has_segment, has_segment_exec, join, join_path, parent_of,
    parent_path_of, path_starts_with, path_starts_with_exec, same_path, same_path_exec, segments,
    split_segments,
};
use crate::sorting::{order_by_text, sorted_asc};
use crate::keys::join_with;
use crate::text::{
    append_chars, eq_str, append_str, ascii_lower, ascii_upper, chars_of, lit, starts_with, starts_with_str,
    string_of, to_lower_ascii, to_upper_ascii, trim, trim_range,
};

verus! {

/// Prefix used to mark a mod folder as disabled in the legacy layout.
pub const DISABLED_PREFIX: &'static str = "DISABLED_";

/// The subdirectory of the mod directory that holds real mod files in the
/// symlink layout. Its presence selects that layout.
pub const MANAGED_SRC: &'static str = "managed_src";

/// The subdirectory of the mod directory that holds the links in the
/// symlink layout (what the mod loader reads).
pub const MANAGED_TGT: &'static str = "managed_tgt";

pub const UNCATEGORIZED: &'static str = "Uncategorized";

// ---------------------------------------------------------------------------
// Names
// ---------------------------------------------------------------------------

/// A folder name without its `DISABLED_` prefix (any letter case). The prefix
/// is only stripped when something follows it.
pub open spec fn strip_disabled(s: Seq<char>) -> Seq<char> {
    if s.len() > 9 && ascii_lower(s.subrange(0, 9)) == "disabled_"@ {
        s.subrange(9, s.len() as int)
    } else {
        s
    }
}

/// Whether a legacy folder name marks its mod as disabled.
pub open spec fn is_disabled_name(s: Seq<char>) -> bool {
    starts_with(ascii_upper(s), "DISABLED_"@)
}

pub open spec fn separators_to_spaces(s: Seq<char>) -> Seq<char> {
    s.map_values(|c: char| if c == '_' || c == '-' { ' ' } else { c })
}

/// Human-readable name of a folder: prefix stripped, `_` and `-` turned into
/// spaces, surrounding whitespace trimmed.
pub open spec fn display(s: Seq<char>) -> Seq<char> {
    trim(separators_to_spaces(strip_disabled(s)))
}

/// Strip the `DISABLED_` prefix (case-insensitive).
///
/// Works on characters, so a name that starts with multi-byte characters is
/// handled without splitting one.
pub fn strip_disabled_prefix(name: &str) -> (r: &str)
    ensures
        r@ == strip_disabled(name@),
{
    let n: usize = name.unicode_len();
    if n > 9 {
        let head: &str = name.substring_char(0, 9);
        let hv: Vec<char> = chars_of(head);
        let lower: Vec<char> = to_lower_ascii(&hv);
        if crate::text::eq_str(&lower, "disabled_") {
            return name.substring_char(9, n);
        }
    }
    name
}

pub fn is_disabled_folder(name: &str) -> (r: bool)
    ensures
        r == is_disabled_name(name@),
{
    let v: Vec<char> = chars_of(name);
    let upper: Vec<char> = to_upper_ascii(&v);
    starts_with_str(&upper, "DISABLED_")
}

/// Human-readable display name from a raw folder name: strip prefix + convert
/// underscores/dashes to spaces.
pub fn display_name(folder_name: &str) -> (r: String)
    ensures
        r@ == display(folder_name@),
{
    let stripped: &str = strip_disabled_prefix(folder_name);
    let v: Vec<char> = chars_of(stripped);
    let mut spaced: Vec<char> = Vec::new();
    let mut i: usize = 0;
    while i < v.len()
        invariant
            i <= v.len(),
            spaced@ == separators_to_spaces(v@.subrange(0, i as int)),
        decreases v.len() - i,
    {
        let c: char = v[i];
        if c == '_' || c == '-' {
            spaced.push(' ');
        } else {
            spaced.push(c);
        }
        i = i + 1;
        assert(spaced@ =~= separators_to_spaces(v@.subrange(0, i as int)));
    }
    assert(v@.subrange(0, v.len() as int) =~= v@);
    let (a, b) = trim_range(&spaced, 0, spaced.len());
    assert(spaced@.subrange(0, spaced.len() as int) =~= spaced@);
    crate::text::string_of_range(&spaced, a, b)
}

/// `mod_path/managed_src` — where real mod files live in the symlink layout.
pub fn src_root(mod_path: &str) -> (r: String)
    ensures
        r@ == join(mod_path@, MANAGED_SRC@),
{
    join_path(mod_path, MANAGED_SRC)
}

/// `mod_path/managed_tgt` — where links live in the symlink layout.
pub fn tgt_root(mod_path: &str) -> (r: String)
    ensures
        r@ == join(mod_path@, MANAGED_TGT@),
{
    join_path(mod_path, MANAGED_TGT)
}

/// The stable identity of a mod: `"<category>/<folder>"`.
pub open spec fn mod_key(category: Seq<char>, folder: Seq<char>) -> Seq<char> {
    category + "/"@ + folder
}

pub fn make_key(category: &str, folder: &str) -> (r: String)
    ensures
        r@ == mod_key(category@, folder@),
{
    let mut v: Vec<char> = chars_of(category);
    append_str(&mut v, "/");
    append_str(&mut v, folder);
    string_of(&v)
}

// ---------------------------------------------------------------------------
// Preview images
// ---------------------------------------------------------------------------

pub open spec fn preview_names() -> Seq<Seq<char>> {
    seq![
        "preview.png"@,
        "preview.jpg"@,
        "preview.jpeg"@,
        "preview.webp"@,
        "thumbnail.png"@,
        "thumbnail.jpg"@,
    ]
}

fn preview_name(k: usize) -> (r: &'static str)
    requires
        k < 6,
    ensures
        r@ == preview_names()[k as int],
{
    match k {
        0 => "preview.png",
        1 => "preview.jpg",
        2 => "preview.jpeg",
        3 => "preview.webp",
        4 => "thumbnail.png",
        _ => "thumbnail.jpg",
    }
}

pub open spec fn names_view(v: Seq<String>) -> Seq<Seq<char>> {
    v.map_values(|s: String| s@)
}

/// The preview image of a folder holding files named `files`: the first of
/// the recognised names (in `preview_names` order) that is present.
pub open spec fn preview_from(dir: Seq<char>, files: Seq<Seq<char>>, k: nat) -> Option<Seq<char>>
    decreases 6 - k,
{
    if k >= 6 {
        None
    } else if files.contains(preview_names()[k as int]) {
        Some(join(dir, preview_names()[k as int]))
    } else {
        preview_from(dir, files, k + 1)
    }
}

pub(crate) fn contains_name(files: &Vec<String>, name: &str) -> (r: bool)
    ensures
        r == names_view(files@).contains(name@),
{
    let mut i: usize = 0;
    while i < files.len()
        invariant
            i <= files.len(),
            forall|j: int| 0 <= j < i ==> files@[j]@ != name@,
        decreases files.len() - i,
    {
        let v: Vec<char> = chars_of(files[i].as_str());
        if crate::text::eq_str(&v, name) {
            assert(names_view(files@)[i as int] == name@);
            return true;
        }
        i = i + 1;
    }
    assert forall|j: int| 0 <= j < names_view(files@).len() implies names_view(files@)[j]
        != name@ by {
        assert(names_view(files@)[j] == files@[j]@);
    }
    false
}

/// The preview image inside `dir`, given the names of the files in it.
pub fn find_preview(dir: &str, files: &Vec<String>) -> (r: Option<String>)
    ensures
        opt_view(r) == preview_from(dir@, names_view(files@), 0),
{
    let mut k: usize = 0;
    while k < 6
        invariant
            k <= 6,
            preview_from(dir@, names_view(files@), 0) == preview_from(
                dir@,
                names_view(files@),
                k as nat,
            ),
        decreases 6 - k,
    {
        let name: &str = preview_name(k);
        if contains_name(files, name) {
            return Some(join_path(dir, name));
        }
        k = k + 1;
    }
    None
}

/// Whether a folder holding files named `files` already has a recognised
/// preview image.
pub fn has_preview_image(files: &Vec<String>) -> (r: bool)
    ensures
        r == (preview_from(""@, names_view(files@), 0) is Some),
{
    find_preview("", files).is_some()
}

// ---------------------------------------------------------------------------
// Data model
// ---------------------------------------------------------------------------

#[derive(Debug)]
pub struct ModInfo {
    /// Legacy layout: the path of the mod folder (changes on toggle).
    /// Symlink layout: the path inside `managed_src` (stable).
    pub id: String,
    /// Stable identity across enable/disable: `"<category>/<clean-folder-name>"`.
    pub key: String,
    /// Human-readable display name (prefix stripped, underscores → spaces).
    pub name: String,
    /// Raw folder name on disk.
    pub folder_name: String,
    /// Path used for toggle/delete operations.
    pub path: String,
    /// Category (display name of the parent folder), or `"Uncategorized"`.
    pub category: String,
    /// Whether the mod is currently active.
    pub enabled: bool,
    /// Path of a preview image inside the mod folder, if present.
    pub preview_path: Option<String>,
    /// Recursive file count (for display metadata).
    pub file_count: u32,
    /// Total folder size in bytes (for display metadata).
    pub size_bytes: u64,
    /// Last-modified time of the mod folder as unix seconds.
    pub modified_at: Option<u64>,
    /// True when this mod is managed under the symlink layout.
    pub using_symlink_layout: bool,
}

impl ModInfo {
    pub fn duplicate(&self) -> (r: ModInfo)
        ensures
            r == *self,
    {
        ModInfo {
            id: self.id.clone(),
            key: self.key.clone(),
            name: self.name.clone(),
            folder_name: self.folder_name.clone(),
            path: self.path.clone(),
            category: self.category.clone(),
            enabled: self.enabled,
            preview_path: match &self.preview_path {
                Some(p) => Some(p.clone()),
                None => None,
            },
            file_count: self.file_count,
            size_bytes: self.size_bytes,
            modified_at: self.modified_at,
            using_symlink_layout: self.using_symlink_layout,
        }
    }
}

/// One directory entry of the mod directory, with what the rules need to know
/// about it.
#[derive(Debug)]
pub struct FolderInfo {
    /// The entry's file name.
    pub name: String,
    /// The entry's path.
    pub path: String,
    /// Whether the path is a directory (following links).
    pub is_dir: bool,
    /// Whether the entry itself is a symbolic link.
    pub is_symlink: bool,
    /// Names of the regular files directly inside the folder.
    pub file_names: Vec<String>,
    /// Recursive file count.
    pub file_count: u32,
    /// Total size of the files in bytes.
    pub size_bytes: u64,
    /// Last-modified time as unix seconds, if known.
    pub modified_at: Option<u64>,
    /// Symlink layout: whether the mod's link exists in `managed_tgt`.
    pub link_present: bool,
}

/// A top-level entry and the listing of its own entries.
#[derive(Debug)]
pub struct TopFolder {
    pub folder: FolderInfo,
    /// The folder's entries, or the error reading it gave.
    pub children: Result<Vec<FolderInfo>, String>,
}

/// What scanning needs to know about a game's mod directory.
#[derive(Debug)]
pub struct ModDirSnapshot {
    pub mod_path: String,
    pub exists: bool,
    pub is_dir: bool,
    /// Whether `mod_path/managed_src` is a directory (symlink layout).
    pub managed_src_is_dir: bool,
    /// The top-level entries: of `mod_path` in the legacy layout, of
    /// `mod_path/managed_src` in the symlink layout; or the read error.
    pub top: Result<Vec<TopFolder>, String>,
}

/// Whether `mod_path/managed_src` exists, selecting the symlink layout.
pub fn is_symlink_layout(snapshot: &ModDirSnapshot) -> (r: bool)
    ensures
        r == snapshot.managed_src_is_dir,
{
    snapshot.managed_src_is_dir
}

/// Entries the scanner looks at: directories (or links), not hidden.
pub open spec fn listed(f: FolderInfo) -> bool {
    (f.is_dir || f.is_symlink) && !starts_with(f.name@, "."@)
}

pub open spec fn is_mod_folder(f: FolderInfo) -> bool {
    f.name@.len() > 0 && !starts_with(f.name@, "."@)
}

pub open spec fn info_name(folder: Seq<char>) -> Seq<char> {
    if display(folder).len() == 0 {
        folder
    } else {
        display(folder)
    }
}

/// `m` describes the mod in folder `f` under `category`.
pub open spec fn describes(m: ModInfo, f: FolderInfo, category: Seq<char>, symlink: bool) -> bool {
    &&& m.id@ == f.path@
    &&& m.path@ == f.path@
    &&& m.folder_name@ == f.name@
    &&& m.name@ == info_name(f.name@)
    &&& m.category@ == category
    &&& m.key@ == mod_key(
        category,
        if symlink {
            f.name@
        } else {
            strip_disabled(f.name@)
        },
    )
    &&& m.enabled == if symlink {
        f.link_present
    } else {
        !is_disabled_name(f.name@)
    }
    &&& opt_view(m.preview_path) == preview_from(f.path@, names_view(f.file_names@), 0)
    &&& m.file_count == f.file_count
    &&& m.size_bytes == f.size_bytes
    &&& m.modified_at == f.modified_at
    &&& m.using_symlink_layout == symlink
}

pub(crate) fn build_mod_info_exec(f: &FolderInfo, category: &str, symlink: bool) -> (r: ModInfo)
    ensures
        describes(r, *f, category@, symlink),
{
    let name: String = display_name(f.name.as_str());
    let folder: &str = if symlink {
        f.name.as_str()
    } else {
        strip_disabled_prefix(f.name.as_str())
    };
    let key: String = make_key(category, folder);
    let enabled: bool = if symlink {
        f.link_present
    } else {
        !is_disabled_folder(f.name.as_str())
    };
    let shown: String = if name.as_str().is_empty() {
        f.name.clone()
    } else {
        name
    };
    ModInfo {
        id: f.path.clone(),
        key,
        name: shown,
        folder_name: f.name.clone(),
        path: f.path.clone(),
        category: lit(category),
        enabled,
        preview_path: find_preview(f.path.as_str(), &f.file_names),
        file_count: f.file_count,
        size_bytes: f.size_bytes,
        modified_at: f.modified_at,
        using_symlink_layout: symlink,
    }
}

// ---------------------------------------------------------------------------
// Scanning
// ---------------------------------------------------------------------------

/// The listed mod folders among `children`, each under `category`.
pub open spec fn mods_in(children: Seq<FolderInfo>, category: Seq<char>) -> Seq<
    (FolderInfo, Seq<char>),
>
    decreases children.len(),
{
    if children.len() == 0 {
        Seq::empty()
    } else {
        let front = mods_in(children.drop_last(), category);
        let f = children.last();
        if listed(f) && is_mod_folder(f) {
            front.push((f, category))
        } else {
            front
        }
    }
}

pub open spec fn any_listed(children: Seq<FolderInfo>) -> bool {
    exists|i: int| 0 <= i < children.len() && listed(children[i])
}

/// The mods a top-level entry contributes: itself (uncategorized) when it has
/// no listed subfolder, otherwise its listed subfolders under its display name.
pub open spec fn mods_of_top(t: TopFolder, kids: Seq<FolderInfo>) -> Seq<(FolderInfo, Seq<char>)> {
    if !any_listed(kids) {
        if is_mod_folder(t.folder) {
            seq![(t.folder, UNCATEGORIZED@)]
        } else {
            Seq::empty()
        }
    } else {
        mods_in(kids, display(t.folder.name@))
    }
}

/// The (folder, category) pairs a scan finds, in directory order, or the first
/// read error met.
pub open spec fn scan_candidates(top: Seq<TopFolder>, symlink: bool) -> Result<
    Seq<(FolderInfo, Seq<char>)>,
    Seq<char>,
>
    decreases top.len(),
{
    if top.len() == 0 {
        Ok(Seq::empty())
    } else {
        match scan_candidates(top.drop_last(), symlink) {
            Err(e) => Err(e),
            Ok(front) => {
                let t = top.last();
                if !listed(t.folder) {
                    Ok(front)
                } else if !symlink && (t.folder.name@ == MANAGED_SRC@ || t.folder.name@
                    == MANAGED_TGT@) {
                    Ok(front)
                } else {
                    match t.children {
                        Err(e) => Err(e@),
                        Ok(kids) => Ok(front + mods_of_top(t, kids@)),
                    }
                }
            },
        }
    }
}

/// Full Unicode lower-casing (what `str::to_lowercase` returns).
pub uninterp spec fn unicode_lower(s: Seq<char>) -> Seq<char>;

/// Lower-cases `s` with `str::to_lowercase`; the result is named
/// `unicode_lower` of the input.
#[verifier::external_body]
pub(crate) fn lowercase(s: &str) -> (r: String)
    ensures
        r@ == unicode_lower(s@),
{
    s.to_lowercase()
}

pub open spec fn sort_keys(infos: Seq<ModInfo>) -> Seq<Seq<char>> {
    infos.map_values(|m: ModInfo| unicode_lower(m.name@))
}

/// `result` is `unsorted` ordered by lower-cased name (stable).
pub open spec fn sorted_by_name(unsorted: Seq<ModInfo>, result: Seq<ModInfo>) -> bool {
    exists|order: Seq<usize>|
        sorted_asc(sort_keys(unsorted), order) && result.len() == order.len() && forall|i: int|
            0 <= i < result.len() ==> result[i] == unsorted[order[i] as int]
}

/// Mod infos ordered by lower-cased name, as `sort_by` on
/// `name.to_lowercase()` orders them.
pub fn sort_by_name(infos: Vec<ModInfo>) -> (r: Vec<ModInfo>)
    ensures
        sorted_by_name(infos@, r@),
{
    let mut keys: Vec<Vec<char>> = Vec::new();
    let mut i: usize = 0;
    while i < infos.len()
        invariant
            i <= infos.len(),
            keys@.map_values(|k: Vec<char>| k@) == sort_keys(infos@).subrange(0, i as int),
        decreases infos.len() - i,
    {
        let low: String = lowercase(infos[i].name.as_str());
        let kv: Vec<char> = chars_of(low.as_str());
        let ghost prev = keys@;
        keys.push(kv);
        assert(keys@ == prev.push(kv));
        assert(kv@ == unicode_lower(infos@[i as int].name@));
        assert(keys@.map_values(|k: Vec<char>| k@) =~= prev.map_values(|k: Vec<char>| k@).push(
            kv@,
        ));
        i = i + 1;
        assert(keys@.map_values(|k: Vec<char>| k@) =~= sort_keys(infos@).subrange(0, i as int));
    }
    assert(sort_keys(infos@).subrange(0, infos.len() as int) =~= sort_keys(infos@));
    let order: Vec<usize> = order_by_text(&keys);
    let mut out: Vec<ModInfo> = Vec::new();
    let mut j: usize = 0;
    while j < order.len()
        invariant
            j <= order.len(),
            sorted_asc(sort_keys(infos@), order@),
            out@.len() == j,
            forall|q: int| 0 <= q < j ==> out@[q] == infos@[order@[q] as int],
        decreases order.len() - j,
    {
        let m: ModInfo = infos[order[j]].duplicate();
        out.push(m);
        j = j + 1;
    }
    out
}

/// What scanning the directory described by `snapshot` gives: the errors
/// for a missing or non-directory path or an unreadable listing, else the
/// mods of every candidate folder, ordered by lower-cased name.
pub open spec fn scan_outcome(snapshot: ModDirSnapshot, r: Result<Vec<ModInfo>, String>) -> bool {
    &&& !snapshot.exists ==> (r matches Err(e) && e@ == "Mod directory does not exist: "@
        + snapshot.mod_path@)
    &&& snapshot.exists && !snapshot.is_dir ==> (r matches Err(e) && e@
        == "Mod path is not a directory: "@ + snapshot.mod_path@)
    &&& snapshot.exists && snapshot.is_dir ==> {
        let symlink = snapshot.managed_src_is_dir;
        match snapshot.top {
            Err(e) => (r matches Err(e2) && e2@ == e@),
            Ok(top) => match scan_candidates(top@, symlink) {
                Err(e) => (r matches Err(e2) && e2@ == e),
                Ok(cands) => (r matches Ok(mods) && exists|unsorted: Seq<ModInfo>|
                    {
                        &&& unsorted.len() == cands.len()
                        &&& forall|i: int|
                            0 <= i < cands.len() ==> describes(
                                #[trigger] unsorted[i],
                                cands[i].0,
                                cands[i].1,
                                symlink,
                            )
                        &&& sorted_by_name(unsorted, mods@)
                    }),
            },
        }
    }
}

/// Scan a game's mod directory and return the list of detected mods, ordered
/// by lower-cased name. The symlink layout is used when `managed_src` exists,
/// the legacy `DISABLED_`-prefix layout otherwise.
pub fn scan_mods(snapshot: &ModDirSnapshot) -> (r: Result<Vec<ModInfo>, String>)
    ensures
        scan_outcome(*snapshot, r),
{
    if !snapshot.exists {
        let mut v: Vec<char> = chars_of("Mod directory does not exist: ");
        crate::text::append_str(&mut v, snapshot.mod_path.as_str());
        return Err(string_of(&v));
    }
    if !snapshot.is_dir {
        let mut v: Vec<char> = chars_of("Mod path is not a directory: ");
        crate::text::append_str(&mut v, snapshot.mod_path.as_str());
        return Err(string_of(&v));
    }
    let symlink: bool = snapshot.managed_src_is_dir;
    let top: &Vec<TopFolder> = match &snapshot.top {
        Err(e) => {
            return Err(e.clone());
        },
        Ok(t) => t,
    };
    let mut infos: Vec<ModInfo> = Vec::new();
    let ghost mut cands: Seq<(FolderInfo, Seq<char>)> = Seq::empty();
    let mut k: usize = 0;
    while k < top.len()
        invariant
            k <= top.len(),
            snapshot.exists,
            snapshot.is_dir,
            symlink == snapshot.managed_src_is_dir,
            snapshot.top matches Ok(tt) && tt@ == top@,
            scan_candidates(top@.subrange(0, k as int), symlink) == Ok::<
                Seq<(FolderInfo, Seq<char>)>,
                Seq<char>,
            >(cands),
            infos@.len() == cands.len(),
            forall|i: int|
                0 <= i < cands.len() ==> describes(
                    #[trigger] infos@[i],
                    cands[i].0,
                    cands[i].1,
                    symlink,
                ),
        decreases top.len() - k,
    {
        proof {
            let sub = top@.subrange(0, k + 1);
            assert(sub.drop_last() =~= top@.subrange(0, k as int));
            assert(sub.last() == top@[k as int]);
        }
        let t: &TopFolder = &top[k];
        let listed_top: bool = (t.folder.is_dir || t.folder.is_symlink) && !starts_with_str(
            &chars_of(t.folder.name.as_str()),
            ".",
        );
        let managed: bool = !symlink && (crate::text::eq_str(
            &chars_of(t.folder.name.as_str()),
            MANAGED_SRC,
        ) || crate::text::eq_str(&chars_of(t.folder.name.as_str()), MANAGED_TGT));
        if listed_top && !managed {
            match &t.children {
                Err(e) => {
                    proof {
                        lemma_scan_error_sticks(top@, k as int, symlink, e@);
                    }
                    return Err(e.clone());
                },
                Ok(kids) => {
                    let ghost before = cands;
                    let ghost added = mods_of_top(*t, kids@);
                    add_mods_of_top(t, kids, symlink, &mut infos, Ghost(before));
                    proof {
                        cands = before + added;
                    }
                },
            }
        }
        k = k + 1;
    }
    assert(top@.subrange(0, top.len() as int) =~= top@);
    let ghost unsorted = infos@;
    let sorted: Vec<ModInfo> = sort_by_name(infos);
    assert(unsorted.len() == cands.len());
    Ok(sorted)
}

proof fn lemma_scan_error_sticks(top: Seq<TopFolder>, k: int, symlink: bool, e: Seq<char>)
    requires
        0 <= k < top.len(),
        scan_candidates(top.subrange(0, k), symlink) is Ok,
        scan_candidates(top.subrange(0, k + 1), symlink) == Err::<
            Seq<(FolderInfo, Seq<char>)>,
            Seq<char>,
        >(e),
    ensures
        scan_candidates(top, symlink) == Err::<Seq<(FolderInfo, Seq<char>)>, Seq<char>>(e),
    decreases top.len() - k,
{
    if k + 1 < top.len() {
        lemma_scan_error_later(top, k + 1, symlink, e);
    } else {
        assert(top.subrange(0, k + 1) =~= top);
    }
}

proof fn lemma_scan_error_later(top: Seq<TopFolder>, n: int, symlink: bool, e: Seq<char>)
    requires
        0 < n <= top.len(),
        scan_candidates(top.subrange(0, n), symlink) == Err::<
            Seq<(FolderInfo, Seq<char>)>,
            Seq<char>,
        >(e),
    ensures
        scan_candidates(top, symlink) == Err::<Seq<(FolderInfo, Seq<char>)>, Seq<char>>(e),
    decreases top.len() - n,
{
    if n < top.len() {
        let sub = top.subrange(0, n + 1);
        assert(sub.drop_last() =~= top.subrange(0, n));
        lemma_scan_error_later(top, n + 1, symlink, e);
    } else {
        assert(top.subrange(0, n) =~= top);
    }
}

fn listed_exec(f: &FolderInfo) -> (r: bool)
    ensures
        r == listed(*f),
{
    (f.is_dir || f.is_symlink) && !starts_with_str(&chars_of(f.name.as_str()), ".")
}

fn add_mods_of_top(
    t: &TopFolder,
    kids: &Vec<FolderInfo>,
    symlink: bool,
    infos: &mut Vec<ModInfo>,
    Ghost(before): Ghost<Seq<(FolderInfo, Seq<char>)>>,
)
    requires
        old(infos)@.len() == before.len(),
        forall|i: int|
            0 <= i < before.len() ==> describes(
                #[trigger] old(infos)@[i],
                before[i].0,
                before[i].1,
                symlink,
            ),
    ensures
        ({
            let all = before + mods_of_top(*t, kids@);
            &&& final(infos)@.len() == all.len()
            &&& forall|i: int|
                0 <= i < all.len() ==> describes(
                    #[trigger] final(infos)@[i],
                    all[i].0,
                    all[i].1,
                    symlink,
                )
        }),
{
    let mut any: bool = false;
    let mut i: usize = 0;
    while i < kids.len()
        invariant
            i <= kids.len(),
            any == exists|j: int| 0 <= j < i && listed(kids@[j]),
        decreases kids.len() - i,
    {
        if listed_exec(&kids[i]) {
            any = true;
        }
        i = i + 1;
    }
    if !any {
        let nv: Vec<char> = chars_of(t.folder.name.as_str());
        if nv.len() > 0 && !starts_with_str(&nv, ".") {
            let m: ModInfo = build_mod_info_exec(&t.folder, UNCATEGORIZED, symlink);
            let ghost prev = infos@;
            infos.push(m);
            proof {
                let all = before + mods_of_top(*t, kids@);
                assert(all =~= before.push((t.folder, UNCATEGORIZED@)));
                assert forall|q: int| 0 <= q < all.len() implies describes(
                    #[trigger] infos@[q],
                    all[q].0,
                    all[q].1,
                    symlink,
                ) by {
                    if q < before.len() {
                        assert(infos@[q] == prev[q]);
                    }
                }
            }
        } else {
            assert(before + mods_of_top(*t, kids@) =~= before);
        }
    } else {
        let category: String = display_name(t.folder.name.as_str());
        let mut j: usize = 0;
        while j < kids.len()
            invariant
                j <= kids.len(),
                category@ == display(t.folder.name@),
                ({
                    let all = before + mods_in(kids@.subrange(0, j as int), category@);
                    &&& infos@.len() == all.len()
                    &&& forall|q: int|
                        0 <= q < all.len() ==> describes(
                            #[trigger] infos@[q],
                            all[q].0,
                            all[q].1,
                            symlink,
                        )
                }),
            decreases kids.len() - j,
        {
            let ghost prev = infos@;
            let ghost prev_all = before + mods_in(kids@.subrange(0, j as int), category@);
            proof {
                let sub = kids@.subrange(0, j + 1);
                assert(sub.drop_last() =~= kids@.subrange(0, j as int));
                assert(sub.last() == kids@[j as int]);
            }
            let f: &FolderInfo = &kids[j];
            let nv: Vec<char> = chars_of(f.name.as_str());
            if listed_exec(f) && nv.len() > 0 && !starts_with_str(&nv, ".") {
                let m: ModInfo = build_mod_info_exec(f, category.as_str(), symlink);
                infos.push(m);
                proof {
                    let all = before + mods_in(kids@.subrange(0, j + 1), category@);
                    assert(all =~= prev_all.push((*f, category@)));
                    assert forall|q: int| 0 <= q < all.len() implies describes(
                        #[trigger] infos@[q],
                        all[q].0,
                        all[q].1,
                        symlink,
                    ) by {
                        if q < prev_all.len() {
                            assert(infos@[q] == prev[q]);
                        }
                    }
                }
            } else {
                assert(before + mods_in(kids@.subrange(0, j + 1), category@) =~= prev_all);
            }
            j = j + 1;
        }
        assert(kids@.subrange(0, kids.len() as int) =~= kids@);
    }
}

// ---------------------------------------------------------------------------
// Locating the mod root of a symlink-layout mod
// ---------------------------------------------------------------------------

/// Whether `path` lies inside a `managed_src` folder (symlink layout).
pub open spec fn in_managed_src(path: Seq<char>) -> bool {
    has_segment(path, MANAGED_SRC@)
}

pub fn is_inside_managed_src(path: &str) -> (r: bool)
    ensures
        r == in_managed_src(path@),
{
    has_segment_exec(path, MANAGED_SRC)
}

/// The last index below `k` whose segment is `name`.
pub open spec fn last_seg_before(segs: Seq<Seq<char>>, name: Seq<char>, k: int) -> Option<int>
    decreases k,
{
    if k <= 0 {
        None
    } else if segs[k - 1] == name {
        Some(k - 1)
    } else {
        last_seg_before(segs, name, k - 1)
    }
}

/// The `managed_src` segment that walking up from the path meets first:
/// the parent's name is looked at before the path's own, then the
/// ancestors from the nearest on.
pub open spec fn src_marker_index(segs: Seq<Seq<char>>) -> Option<int> {
    let n = segs.len() as int;
    if n >= 2 && segs[n - 2] == MANAGED_SRC@ {
        Some(n - 2)
    } else if n >= 1 && segs[n - 1] == MANAGED_SRC@ {
        Some(n - 1)
    } else {
        last_seg_before(segs, MANAGED_SRC@, n - 2)
    }
}

/// The path made of the first `j` segments.
pub open spec fn prefix_path(segs: Seq<Seq<char>>, j: int) -> Seq<char> {
    if j == 1 && segs[0].len() == 0 {
        seq!['/']
    } else {
        join_with(segs.subrange(0, j), seq!['/'])
    }
}

/// The game's mod folder of a path inside `managed_src`: the folder that
/// holds that `managed_src`.
pub open spec fn mod_root_of_src(path: Seq<char>) -> Option<Seq<char>> {
    match src_marker_index(segments(path)) {
        Some(j) => Some(prefix_path(segments(path), j)),
        None => None,
    }
}

proof fn lemma_last_seg_before(segs: Seq<Seq<char>>, name: Seq<char>, k: int)
    requires
        k <= segs.len(),
    ensures
        last_seg_before(segs, name, k) matches Some(j) ==> 0 <= j < k && segs[j] == name,
    decreases k,
{
    if k > 0 {
        lemma_last_seg_before(segs, name, k - 1);
    }
}

pub fn find_mod_path_from_src(path: &str) -> (r: Option<String>)
    ensures
        opt_view(r) == mod_root_of_src(path@),
{
    let v: Vec<char> = chars_of(path);
    let segs: Vec<Vec<char>> = split_segments(&v);
    let ghost sv = segs@.map_values(|x: Vec<char>| x@);
    proof {
        crate::paths::lemma_segments_len(v@);
    }
    assert(sv.len() == segs@.len());
    let n: usize = segs.len();
    let j: usize = if n >= 2 && eq_str(&segs[n - 2], MANAGED_SRC) {
        n - 2
    } else if eq_str(&segs[n - 1], MANAGED_SRC) {
        n - 1
    } else {
        let mut k: usize = if n >= 2 {
            n - 2
        } else {
            0
        };
        let ghost k0 = k as int;
        assert(k0 == n as int - 2 || (n < 2 && k0 == 0));
        while k > 0 && !eq_str(&segs[k - 1], MANAGED_SRC)
            invariant
                k <= n,
                n == segs@.len(),
                sv == segs@.map_values(|x: Vec<char>| x@),
                last_seg_before(sv, MANAGED_SRC@, k as int) == last_seg_before(
                    sv,
                    MANAGED_SRC@,
                    n as int - 2,
                ),
            decreases k,
        {
            assert(sv[k - 1] == segs@[k - 1]@);
            k = k - 1;
        }
        if k == 0 {
            return None;
        }
        assert(sv[k - 1] == segs@[k - 1]@);
        k - 1
    };
    proof {
        assert(src_marker_index(sv) == Some(j as int));
    }
    if j == 1 && segs[0].len() == 0 {
        let mut out: Vec<char> = Vec::new();
        out.push('/');
        assert(out@ =~= seq!['/']);
        return Some(string_of(&out));
    }
    let mut out: Vec<char> = Vec::new();
    let mut q: usize = 0;
    while q < j
        invariant
            q <= j,
            j < segs@.len(),
            sv == segs@.map_values(|x: Vec<char>| x@),
            out@ == join_with(sv.subrange(0, q as int), seq!['/']),
        decreases j - q,
    {
        let ghost pre = sv.subrange(0, q as int);
        if q > 0 {
            out.push('/');
        }
        append_chars(&mut out, &segs[q]);
        q = q + 1;
        proof {
            let post = sv.subrange(0, q as int);
            assert(post.drop_last() =~= pre);
            assert(post.last() == segs@[q - 1]@);
            if q == 1 {
                assert(out@ =~= post[0]);
            } else {
                assert(out@ =~= join_with(pre, seq!['/']) + seq!['/'] + post.last());
            }
        }
    }
    Some(string_of(&out))
}

// ---------------------------------------------------------------------------
// Enabling and disabling
// ---------------------------------------------------------------------------

/// What toggling needs to know about the filesystem.
#[derive(Debug)]
pub struct ToggleFacts {
    /// Whether the mod's folder exists.
    pub path_exists: bool,
    /// Legacy layout: the names present in the mod's parent folder.
    pub parent_entries: Vec<String>,
    /// Symlink layout: whether something is at the mod's link location
    /// (see `toggle_link_path`).
    pub link_present: bool,
}

/// A rename of `d3dx_user.ini` keys that must follow a legacy rename, when
/// that file exists.
#[derive(Debug)]
pub struct IniKeyMove {
    pub ini_path: String,
    /// Where the file's previous text is kept (`d3dx_user.ini.bak`).
    pub backup_path: String,
    pub old_segment: String,
    pub new_segment: String,
}

/// The filesystem change a toggle makes.
#[derive(Debug)]
pub enum ToggleAction {
    /// The mod already is in the requested state.
    Keep,
    /// Rename the folder (legacy layout).
    Rename { from: String, to: String },
    /// Create a directory link at `link` pointing to `target`, creating its
    /// parent folders first (symlink layout).
    CreateLink { target: String, link: String },
    /// Remove the link at `link` (symlink layout).
    RemoveLink { link: String },
}

/// A decided toggle: the change to make, then the folder to describe.
#[derive(Debug)]
pub struct TogglePlan {
    pub action: ToggleAction,
    /// The folder the resulting mod info is read from.
    pub info_path: String,
    pub symlink: bool,
    /// The requested state.
    pub enabled: bool,
    pub ini_move: Option<IniKeyMove>,
}

pub enum ActionModel {
    Keep,
    Rename(Seq<char>, Seq<char>),
    CreateLink(Seq<char>, Seq<char>),
    RemoveLink(Seq<char>),
}

pub struct PlanModel {
    pub action: ActionModel,
    pub info_path: Seq<char>,
    pub symlink: bool,
    pub enabled: bool,
    pub ini_move: Option<(Seq<char>, Seq<char>, Seq<char>, Seq<char>)>,
}

impl View for TogglePlan {
    type V = PlanModel;

    open spec fn view(&self) -> PlanModel {
        PlanModel {
            action: match self.action {
                ToggleAction::Keep => ActionModel::Keep,
                ToggleAction::Rename { from, to } => ActionModel::Rename(from@, to@),
                ToggleAction::CreateLink { target, link } => ActionModel::CreateLink(
                    target@,
                    link@,
                ),
                ToggleAction::RemoveLink { link } => ActionModel::RemoveLink(link@),
            },
            info_path: self.info_path@,
            symlink: self.symlink,
            enabled: self.enabled,
            ini_move: match self.ini_move {
                Some(m) => Some((m.ini_path@, m.backup_path@, m.old_segment@, m.new_segment@)),
                None => None,
            },
        }
    }
}

pub open spec fn missing_folder_message(path: Seq<char>) -> Seq<char> {
    "Mod folder does not exist: "@ + path
}

pub open spec fn no_root_message(path: Seq<char>) -> Seq<char> {
    "Cannot locate mod root from path: "@ + path
}

/// Where a symlink-layout mod's link lives: `managed_tgt/<name>` for an
/// uncategorized mod, `managed_tgt/<category folder>/<name>` otherwise.
pub open spec fn link_path_of(path: Seq<char>, category: Seq<char>) -> Result<Seq<char>, Seq<char>> {
    match mod_root_of_src(path) {
        None => Err(no_root_message(path)),
        Some(root) => {
            let tgt = join(root, MANAGED_TGT@);
            let name = base_name(path);
            if category == UNCATEGORIZED@ {
                Ok(join(tgt, name))
            } else {
                match parent_of(path) {
                    None => Err("Mod folder has no parent in managed_src"@),
                    Some(p) => Ok(join(join(tgt, base_name(p)), name)),
                }
            }
        },
    }
}

pub open spec fn result_view(r: Result<String, String>) -> Result<Seq<char>, Seq<char>> {
    match r {
        Ok(s) => Ok(s@),
        Err(e) => Err(e@),
    }
}

/// The link location of a mod in the symlink layout (see `link_path_of`).
pub fn toggle_link_path(path: &str, category: &str) -> (r: Result<String, String>)
    ensures
        result_view(r) == link_path_of(path@, category@),
{
    let root: String = match find_mod_path_from_src(path) {
        None => {
            let mut m: Vec<char> = chars_of("Cannot locate mod root from path: ");
            append_str(&mut m, path);
            return Err(string_of(&m));
        },
        Some(r) => r,
    };
    let tgt: String = join_path(root.as_str(), MANAGED_TGT);
    let name: String = crate::paths::base_name_of(path);
    let cv: Vec<char> = chars_of(category);
    if eq_str(&cv, UNCATEGORIZED) {
        return Ok(join_path(tgt.as_str(), name.as_str()));
    }
    match parent_path_of(path) {
        None => Err(lit("Mod folder has no parent in managed_src")),
        Some(p) => {
            let cat: String = crate::paths::base_name_of(p.as_str());
            let dir: String = join_path(tgt.as_str(), cat.as_str());
            Ok(join_path(dir.as_str(), name.as_str()))
        },
    }
}

/// The `d3dx_user.ini` key fragment of a mod folder: `\mods\<category>\<folder>\`.
pub open spec fn key_segment(category: Seq<char>, folder: Seq<char>) -> Seq<char> {
    "\\mods\\"@ + category + "\\"@ + folder + "\\"@
}

pub open spec fn rename_conflict_message(enabled: bool, base: Seq<char>, new_folder: Seq<char>) -> Seq<
    char,
> {
    "Cannot "@ + (if enabled {
        "enable"@
    } else {
        "disable"@
    }) + " '"@ + base + "': a folder named '"@ + new_folder + "' already exists"@
}

/// The toggle of a legacy-layout mod: rename its folder to add or remove
/// the `DISABLED_` prefix, unless the new name is taken.
pub open spec fn legacy_plan(path: Seq<char>, enabled: bool, entries: Seq<Seq<char>>) -> Result<
    PlanModel,
    Seq<char>,
> {
    let old_folder = base_name(path);
    if !is_disabled_name(old_folder) == enabled {
        Ok(
            PlanModel {
                action: ActionModel::Keep,
                info_path: path,
                symlink: false,
                enabled,
                ini_move: None,
            },
        )
    } else {
        let base = strip_disabled(old_folder);
        let new_folder = if enabled {
            base
        } else {
            DISABLED_PREFIX@ + base
        };
        match parent_of(path) {
            None => Err("Mod folder has no parent directory"@),
            Some(parent) => if entries.contains(new_folder) {
                Err(rename_conflict_message(enabled, base, new_folder))
            } else {
                Ok(
                    PlanModel {
                        action: ActionModel::Rename(path, join(parent, new_folder)),
                        info_path: join(parent, new_folder),
                        symlink: false,
                        enabled,
                        ini_move: match parent_of(parent) {
                            None => None,
                            Some(gp) => Some(
                                (
                                    join(gp, "d3dx_user.ini"@),
                                    join(gp, "d3dx_user.ini.bak"@),
                                    unicode_lower(key_segment(base_name(parent), old_folder)),
                                    unicode_lower(key_segment(base_name(parent), new_folder)),
                                ),
                            ),
                        },
                    },
                )
            },
        }
    }
}

/// The toggle of a symlink-layout mod: create or remove its link.
pub open spec fn symlink_plan(path: Seq<char>, category: Seq<char>, enabled: bool, link_present: bool) -> Result<
    PlanModel,
    Seq<char>,
> {
    match link_path_of(path, category) {
        Err(e) => Err(e),
        Ok(link) => Ok(
            PlanModel {
                action: if link_present == enabled {
                    ActionModel::Keep
                } else if enabled {
                    ActionModel::CreateLink(path, link)
                } else {
                    ActionModel::RemoveLink(link)
                },
                info_path: path,
                symlink: true,
                enabled,
                ini_move: None,
            },
        ),
    }
}

/// How a mod is enabled or disabled: refused for a missing folder; by link
/// inside `managed_src`, by rename elsewhere.
pub open spec fn toggle_plan(path: Seq<char>, category: Seq<char>, enabled: bool, facts: ToggleFacts) -> Result<
    PlanModel,
    Seq<char>,
> {
    if !facts.path_exists {
        Err(missing_folder_message(path))
    } else if in_managed_src(path) {
        symlink_plan(path, category, enabled, facts.link_present)
    } else {
        legacy_plan(path, enabled, names_view(facts.parent_entries@))
    }
}

pub open spec fn plan_result_view(r: Result<TogglePlan, String>) -> Result<PlanModel, Seq<char>> {
    match r {
        Ok(p) => Ok(p@),
        Err(e) => Err(e@),
    }
}

fn segment_text(category: &str, folder: &str) -> (r: String)
    ensures
        r@ == unicode_lower(key_segment(category@, folder@)),
{
    let mut v: Vec<char> = chars_of("\\mods\\");
    append_str(&mut v, category);
    append_str(&mut v, "\\");
    append_str(&mut v, folder);
    append_str(&mut v, "\\");
    let raw: String = string_of(&v);
    lowercase(raw.as_str())
}

fn legacy_toggle(path: &str, enabled: bool, entries: &Vec<String>) -> (r: Result<TogglePlan, String>)
    ensures
        plan_result_view(r) == legacy_plan(path@, enabled, names_view(entries@)),
{
    let old_folder: String = crate::paths::base_name_of(path);
    if !is_disabled_folder(old_folder.as_str()) == enabled {
        return Ok(
            TogglePlan {
                action: ToggleAction::Keep,
                info_path: lit(path),
                symlink: false,
                enabled,
                ini_move: None,
            },
        );
    }
    let base: &str = strip_disabled_prefix(old_folder.as_str());
    let new_folder: String = if enabled {
        lit(base)
    } else {
        let mut v: Vec<char> = chars_of(DISABLED_PREFIX);
        append_str(&mut v, base);
        string_of(&v)
    };
    let parent: String = match parent_path_of(path) {
        None => {
            return Err(lit("Mod folder has no parent directory"));
        },
        Some(p) => p,
    };
    if contains_name(entries, new_folder.as_str()) {
        let mut m: Vec<char> = chars_of("Cannot ");
        if enabled {
            append_str(&mut m, "enable");
        } else {
            append_str(&mut m, "disable");
        }
        append_str(&mut m, " '");
        append_str(&mut m, base);
        append_str(&mut m, "': a folder named '");
        append_str(&mut m, new_folder.as_str());
        append_str(&mut m, "' already exists");
        let e = string_of(&m);
        assert(e@ == rename_conflict_message(enabled, strip_disabled(old_folder@), new_folder@));
        return Err(e);
    }
    let to: String = join_path(parent.as_str(), new_folder.as_str());
    let ini_move: Option<IniKeyMove> = match parent_path_of(parent.as_str()) {
        None => None,
        Some(gp) => {
            let cat: String = crate::paths::base_name_of(parent.as_str());
            Some(
                IniKeyMove {
                    ini_path: join_path(gp.as_str(), "d3dx_user.ini"),
                    backup_path: join_path(gp.as_str(), "d3dx_user.ini.bak"),
                    old_segment: segment_text(cat.as_str(), old_folder.as_str()),
                    new_segment: segment_text(cat.as_str(), new_folder.as_str()),
                },
            )
        },
    };
    Ok(
        TogglePlan {
            action: ToggleAction::Rename { from: lit(path), to: to.clone() },
            info_path: to,
            symlink: false,
            enabled,
            ini_move,
        },
    )
}

/// Decides how to enable or disable the mod at `path` (see `toggle_plan`).
/// The caller makes the change, migrates the `d3dx_user.ini` keys when
/// there is a key move and that file exists, and reads the result with
/// `toggled_mod_info`.
pub fn set_mod_enabled(path: &str, category: &str, enabled: bool, facts: &ToggleFacts) -> (r: Result<
    TogglePlan,
    String,
>)
    ensures
        plan_result_view(r) == toggle_plan(path@, category@, enabled, *facts),
{
    if !facts.path_exists {
        let mut m: Vec<char> = chars_of("Mod folder does not exist: ");
        append_str(&mut m, path);
        return Err(string_of(&m));
    }
    if is_inside_managed_src(path) {
        let link: String = match toggle_link_path(path, category) {
            Err(e) => {
                return Err(e);
            },
            Ok(l) => l,
        };
        let action: ToggleAction = if facts.link_present == enabled {
            ToggleAction::Keep
        } else if enabled {
            ToggleAction::CreateLink { target: lit(path), link }
        } else {
            ToggleAction::RemoveLink { link }
        };
        Ok(TogglePlan { action, info_path: lit(path), symlink: true, enabled, ini_move: None })
    } else {
        legacy_toggle(path, enabled, &facts.parent_entries)
    }
}

/// `f` seen with its link presence set to `present`.
pub open spec fn with_link(f: FolderInfo, present: bool) -> FolderInfo {
    FolderInfo { link_present: present, ..f }
}

/// The mod info after a toggle, read from the folder at the plan's
/// `info_path`; a folder that cannot be a mod (no name, or hidden) gives an
/// error. In the symlink layout the mod is reported in the requested state.
pub fn toggled_mod_info(plan: &TogglePlan, category: &str, folder: &FolderInfo) -> (r: Result<
    ModInfo,
    String,
>)
    ensures
        !is_mod_folder(*folder) ==> (r matches Err(e) && e@ == if plan.action is Keep {
            "Failed to read mod info"@
        } else {
            "Failed to read mod info after toggle"@
        }),
        is_mod_folder(*folder) ==> (r matches Ok(m) && describes(
            m,
            with_link(*folder, plan.enabled),
            category@,
            plan.symlink,
        )),
{
    let nv: Vec<char> = chars_of(folder.name.as_str());
    if nv.len() == 0 || starts_with_str(&nv, ".") {
        return match plan.action {
            ToggleAction::Keep => Err(lit("Failed to read mod info")),
            _ => Err(lit("Failed to read mod info after toggle")),
        };
    }
    let mut m: ModInfo = build_mod_info_exec(folder, category, plan.symlink);
    if plan.symlink {
        m.enabled = plan.enabled;
    }
    Ok(m)
}

/// The outcome of toggling several mods.
#[derive(Debug)]
pub struct BatchToggleResult {
    pub updated: Vec<ModInfo>,
    pub errors: Vec<String>,
}

/// A target of a batch toggle.
#[derive(Debug)]
pub struct ToggleTarget {
    pub path: String,
    pub category: String,
}

pub open spec fn oks<T>(s: Seq<Result<T, String>>) -> Seq<T>
    decreases s.len(),
{
    if s.len() == 0 {
        Seq::<T>::empty()
    } else {
        match s.last() {
            Ok(x) => oks(s.drop_last()).push(x),
            Err(_) => oks(s.drop_last()),
        }
    }
}

pub open spec fn errs<T>(s: Seq<Result<T, String>>) -> Seq<Seq<char>>
    decreases s.len(),
{
    if s.len() == 0 {
        Seq::<Seq<char>>::empty()
    } else {
        match s.last() {
            Ok(_) => errs(s.drop_last()),
            Err(e) => errs(s.drop_last()).push(e@),
        }
    }
}

/// Gathers the outcomes of toggling several mods, in order: the updated
/// mods and the error messages.
pub fn batch_set_enabled(outcomes: Vec<Result<ModInfo, String>>) -> (r: BatchToggleResult)
    ensures
        r.updated@ == oks(outcomes@),
        names_view(r.errors@) == errs(outcomes@),
{
    let ghost s = outcomes@;
    let mut updated: Vec<ModInfo> = Vec::new();
    let mut errors: Vec<String> = Vec::new();
    let mut rest = outcomes;
    let mut k: usize = 0;
    while k < rest.len()
        invariant
            k <= rest.len(),
            rest@ == s,
            updated@ == oks(s.subrange(0, k as int)),
            names_view(errors@) == errs(s.subrange(0, k as int)),
        decreases rest.len() - k,
    {
        let ghost pre = s.subrange(0, k as int);
        let ghost prev = errors@;
        match &rest[k] {
            Ok(m) => updated.push(m.duplicate()),
            Err(e) => {
                errors.push(e.clone());
                assert(names_view(errors@) =~= names_view(prev).push(e@));
            },
        }
        k = k + 1;
        proof {
            let post = s.subrange(0, k as int);
            assert(post.drop_last() =~= pre);
            assert(post.last() == s[k - 1]);
        }
    }
    assert(s.subrange(0, s.len() as int) =~= s);
    BatchToggleResult { updated, errors }
}

// ---------------------------------------------------------------------------
// Deleting
// ---------------------------------------------------------------------------

/// What deleting needs to know about the filesystem.
#[derive(Debug)]
pub struct DeleteFacts {
    /// The mod path with links resolved (`canonicalize`), or its error.
    pub canonical_path: Result<String, String>,
    /// The mod root with links resolved, or its error.
    pub canonical_root: Result<String, String>,
    pub exists: bool,
    pub is_dir: bool,
}

/// A decided deletion: remove the link (when present) and then the folder.
#[derive(Debug)]
pub struct DeletePlan {
    /// The stable key of the deleted mod.
    pub key: String,
    /// Symlink layout: the mod's link location, removed first when
    /// something is there.
    pub link: Option<String>,
    /// The folder to remove with everything in it.
    pub target: String,
    pub folder: String,
    pub symlink: bool,
}

pub struct DeleteModel {
    pub key: Seq<char>,
    pub link: Option<Seq<char>>,
    pub target: Seq<char>,
    pub folder: Seq<char>,
    pub symlink: bool,
}

impl View for DeletePlan {
    type V = DeleteModel;

    open spec fn view(&self) -> DeleteModel {
        DeleteModel {
            key: self.key@,
            link: opt_view(self.link),
            target: self.target@,
            folder: self.folder@,
            symlink: self.symlink,
        }
    }
}

/// Deleting a legacy-layout mod: only inside the configured mod folder
/// (with links resolved), only an existing folder.
pub open spec fn legacy_delete(path: Seq<char>, mod_root: Seq<char>, facts: DeleteFacts) -> Result<
    DeleteModel,
    Seq<char>,
> {
    match facts.canonical_path {
        Err(e) => Err("Mod path invalid: "@ + e@),
        Ok(cm) => match facts.canonical_root {
            Err(e) => Err("Mod root invalid: "@ + e@),
            Ok(cr) => if !path_starts_with(cm@, cr@) {
                Err("Refusing to delete: path is outside the configured mod directory"@)
            } else if !facts.exists {
                Err(missing_folder_message(path))
            } else if !facts.is_dir {
                Err("Path is not a directory: "@ + path)
            } else {
                let folder = base_name(path);
                let parent = match parent_of(path) {
                    Some(p) => p,
                    None => mod_root,
                };
                let category = if same_path(parent, mod_root) {
                    UNCATEGORIZED@
                } else {
                    display(base_name(parent))
                };
                Ok(
                    DeleteModel {
                        key: mod_key(category, strip_disabled(folder)),
                        link: None,
                        target: path,
                        folder,
                        symlink: false,
                    },
                )
            },
        },
    }
}

/// Deleting a symlink-layout mod: its link in `managed_tgt` and its files
/// in `managed_src`.
pub open spec fn symlink_delete(path: Seq<char>, exists: bool) -> Result<DeleteModel, Seq<char>> {
    if !exists {
        Err(missing_folder_message(path))
    } else {
        match mod_root_of_src(path) {
            None => Err(no_root_message(path)),
            Some(root) => match parent_of(path) {
                None => Err("No parent in managed_src"@),
                Some(src_parent) => {
                    let folder = base_name(path);
                    let cat_folder = base_name(src_parent);
                    let category = if cat_folder == MANAGED_SRC@ {
                        UNCATEGORIZED@
                    } else {
                        display(cat_folder)
                    };
                    let tgt = join(root, MANAGED_TGT@);
                    Ok(
                        DeleteModel {
                            key: mod_key(category, folder),
                            link: Some(
                                if category == UNCATEGORIZED@ {
                                    join(tgt, folder)
                                } else {
                                    join(join(tgt, cat_folder), folder)
                                },
                            ),
                            target: path,
                            folder,
                            symlink: true,
                        },
                    )
                },
            },
        }
    }
}

pub open spec fn delete_result_view(r: Result<DeletePlan, String>) -> Result<DeleteModel, Seq<char>> {
    match r {
        Ok(p) => Ok(p@),
        Err(e) => Err(e@),
    }
}

fn prefixed(prefix: &str, rest: &str) -> (r: String)
    ensures
        r@ == prefix@ + rest@,
{
    let mut v: Vec<char> = chars_of(prefix);
    append_str(&mut v, rest);
    string_of(&v)
}

fn legacy_delete_exec(path: &str, mod_root: &str, facts: &DeleteFacts) -> (r: Result<DeletePlan, String>)
    ensures
        delete_result_view(r) == legacy_delete(path@, mod_root@, *facts),
{
    let cm: &String = match &facts.canonical_path {
        Err(e) => {
            return Err(prefixed("Mod path invalid: ", e.as_str()));
        },
        Ok(c) => c,
    };
    let cr: &String = match &facts.canonical_root {
        Err(e) => {
            return Err(prefixed("Mod root invalid: ", e.as_str()));
        },
        Ok(c) => c,
    };
    if !path_starts_with_exec(cm.as_str(), cr.as_str()) {
        return Err(lit("Refusing to delete: path is outside the configured mod directory"));
    }
    if !facts.exists {
        return Err(prefixed("Mod folder does not exist: ", path));
    }
    if !facts.is_dir {
        return Err(prefixed("Path is not a directory: ", path));
    }
    let folder: String = crate::paths::base_name_of(path);
    let parent: String = match parent_path_of(path) {
        Some(p) => p,
        None => lit(mod_root),
    };
    let category: String = if same_path_exec(parent.as_str(), mod_root) {
        lit(UNCATEGORIZED)
    } else {
        let pn: String = crate::paths::base_name_of(parent.as_str());
        display_name(pn.as_str())
    };
    let key: String = make_key(category.as_str(), strip_disabled_prefix(folder.as_str()));
    Ok(DeletePlan { key, link: None, target: lit(path), folder, symlink: false })
}

fn symlink_delete_exec(path: &str, exists: bool) -> (r: Result<DeletePlan, String>)
    ensures
        delete_result_view(r) == symlink_delete(path@, exists),
{
    if !exists {
        return Err(prefixed("Mod folder does not exist: ", path));
    }
    let root: String = match find_mod_path_from_src(path) {
        None => {
            return Err(prefixed("Cannot locate mod root from path: ", path));
        },
        Some(r) => r,
    };
    let src_parent: String = match parent_path_of(path) {
        None => {
            return Err(lit("No parent in managed_src"));
        },
        Some(p) => p,
    };
    let folder: String = crate::paths::base_name_of(path);
    let cat_folder: String = crate::paths::base_name_of(src_parent.as_str());
    let cv: Vec<char> = chars_of(cat_folder.as_str());
    let category: String = if eq_str(&cv, MANAGED_SRC) {
        lit(UNCATEGORIZED)
    } else {
        display_name(cat_folder.as_str())
    };
    let key: String = make_key(category.as_str(), folder.as_str());
    let tgt: String = join_path(root.as_str(), MANAGED_TGT);
    let catv: Vec<char> = chars_of(category.as_str());
    let link: String = if eq_str(&catv, UNCATEGORIZED) {
        join_path(tgt.as_str(), folder.as_str())
    } else {
        let dir: String = join_path(tgt.as_str(), cat_folder.as_str());
        join_path(dir.as_str(), folder.as_str())
    };
    Ok(DeletePlan { key, link: Some(link), target: lit(path), folder, symlink: true })
}

/// Decides how to delete the mod at `path` permanently: by link and source
/// folder inside `managed_src`, by folder elsewhere. A legacy mod is only
/// ever deleted inside the configured mod folder.
pub fn delete_mod(path: &str, mod_root: &str, facts: &DeleteFacts) -> (r: Result<DeletePlan, String>)
    ensures
        delete_result_view(r) == if in_managed_src(path@) {
            symlink_delete(path@, facts.exists)
        } else {
            legacy_delete(path@, mod_root@, *facts)
        },
        r matches Ok(plan) ==> plan@.target == path@ && if plan@.symlink {
            in_managed_src(path@)
        } else {
            facts.canonical_path matches Ok(cm) && facts.canonical_root matches Ok(cr)
                && path_starts_with(cm@, cr@)
        },
{
    if is_inside_managed_src(path) {
        symlink_delete_exec(path, facts.exists)
    } else {
        legacy_delete_exec(path, mod_root, facts)
    }
}

/// The message for a failed removal of the planned folder.
pub fn delete_failed_message(plan: &DeletePlan, error: &str) -> (r: String)
    ensures
        r@ == (if plan.symlink {
            "Failed to delete source '"@
        } else {
            "Failed to delete '"@
        }) + plan.folder@ + "': "@ + error@,
{
    let mut v: Vec<char> = if plan.symlink {
        chars_of("Failed to delete source '")
    } else {
        chars_of("Failed to delete '")
    };
    append_str(&mut v, plan.folder.as_str());
    append_str(&mut v, "': ");
    append_str(&mut v, error);
    string_of(&v)
}

/// The outcome of deleting several mods.
#[derive(Debug)]
pub struct BatchDeleteResult {
    pub deleted_keys: Vec<String>,
    pub errors: Vec<String>,
}

/// Gathers the outcomes of deleting several mods, in order: the keys of the
/// deleted mods and the error messages.
pub fn batch_delete_mods(outcomes: Vec<Result<String, String>>) -> (r: BatchDeleteResult)
    ensures
        names_view(r.deleted_keys@) == names_view(oks(outcomes@)),
        names_view(r.errors@) == errs(outcomes@),
{
    let ghost s = outcomes@;
    let mut deleted_keys: Vec<String> = Vec::new();
    let mut errors: Vec<String> = Vec::new();
    let mut k: usize = 0;
    while k < outcomes.len()
        invariant
            k <= outcomes.len(),
            outcomes@ == s,
            names_view(deleted_keys@) == names_view(oks(s.subrange(0, k as int))),
            names_view(errors@) == errs(s.subrange(0, k as int)),
        decreases outcomes.len() - k,
    {
        let ghost pre = s.subrange(0, k as int);
        let ghost prev_k = deleted_keys@;
        let ghost prev_e = errors@;
        match &outcomes[k] {
            Ok(key) => {
                deleted_keys.push(key.clone());
                assert(names_view(deleted_keys@) =~= names_view(prev_k).push(key@));
            },
            Err(e) => {
                errors.push(e.clone());
                assert(names_view(errors@) =~= names_view(prev_e).push(e@));
            },
        }
        k = k + 1;
        proof {
            let post = s.subrange(0, k as int);
            assert(post.drop_last() =~= pre);
            assert(post.last() == s[k - 1]);
            assert(names_view(oks(post)) =~= names_view(deleted_keys@));
        }
    }
    assert(s.subrange(0, s.len() as int) =~= s);
    BatchDeleteResult { deleted_keys, errors }
}

// ---------------------------------------------------------------------------
// d3dx_user.ini key migration
// ---------------------------------------------------------------------------

pub open spec fn strip_cr(l: Seq<char>) -> Seq<char> {
    if l.len() > 0 && l.last() == '\r' {
        l.drop_last()
    } else {
        l
    }
}

/// The lines of `t` as `str::lines` yields them: split at '\n', a '\r'
/// before a '\n' dropped, no empty last line after a final '\n'.
pub open spec fn std_lines(t: Seq<char>) -> Seq<Seq<char>> {
    let parts = split_lines(t);
    let done = parts.drop_last().map_values(|l: Seq<char>| strip_cr(l));
    if parts.last().len() == 0 {
        done
    } else {
        done.push(parts.last())
    }
}

pub(crate) fn std_lines_exec(t: &Vec<char>) -> (r: Vec<Vec<char>>)
    ensures
        r@.map_values(|x: Vec<char>| x@) == std_lines(t@),
{
    let mut done: Vec<Vec<char>> = Vec::new();
    let mut cur: Vec<char> = Vec::new();
    let mut i: usize = 0;
    while i < t.len()
        invariant
            i <= t.len(),
            split_lines(t@.subrange(0, i as int)).drop_last().map_values(|l: Seq<char>| strip_cr(l))
                == done@.map_values(|x: Vec<char>| x@),
            split_lines(t@.subrange(0, i as int)).last() == cur@,
        decreases t.len() - i,
    {
        let ghost pre = t@.subrange(0, i as int);
        let ghost prev = done@;
        let c: char = t[i];
        proof {
            crate::ini::lemma_split_lines_len(pre);
        }
        if c == '\n' {
            let mut line: Vec<char> = cur;
            if line.len() > 0 && line[line.len() - 1] == '\r' {
                line.pop();
            }
            assert(line@ == strip_cr(split_lines(pre).last()));
            done.push(line);
            cur = Vec::new();
            assert(done@.map_values(|x: Vec<char>| x@) =~= prev.map_values(|x: Vec<char>| x@).push(
                strip_cr(split_lines(pre).last()),
            ));
        } else {
            cur.push(c);
        }
        i = i + 1;
        proof {
            let post = t@.subrange(0, i as int);
            assert(post.drop_last() =~= pre);
            assert(post.last() == c);
            if c == '\n' {
                assert(split_lines(post) == split_lines(pre).push(Seq::<char>::empty()));
                assert(split_lines(post).drop_last() =~= split_lines(pre));
                assert(split_lines(pre) =~= split_lines(pre).drop_last().push(
                    split_lines(pre).last(),
                ));
                assert(split_lines(post).drop_last().map_values(|l: Seq<char>| strip_cr(l))
                    =~= done@.map_values(|x: Vec<char>| x@));
            } else {
                let sp = split_lines(pre);
                assert(split_lines(post) == sp.update(sp.len() - 1, sp.last().push(c)));
                assert(split_lines(post).drop_last() =~= sp.drop_last());
            }
        }
    }
    assert(t@.subrange(0, t.len() as int) =~= t@);
    if cur.len() > 0 {
        let ghost prev = done@;
        let ghost last = cur@;
        done.push(cur);
        assert(done@.map_values(|x: Vec<char>| x@) =~= prev.map_values(|x: Vec<char>| x@).push(
            last,
        ));
    }
    done
}

/// At `i`, `line` has a stretch as long as `old` that reads as `old` once
/// both are lower-cased.
pub open spec fn lower_match_at(line: Seq<char>, i: int, old: Seq<char>) -> bool {
    &&& 0 <= i
    &&& i + old.len() <= line.len()
    &&& unicode_lower(line.subrange(i, i + old.len())) == unicode_lower(old)
}

/// `line` mentions `old`, ignoring case.
pub open spec fn mentions_ignoring_case(line: Seq<char>, old: Seq<char>) -> bool {
    exists|i: int| #[trigger] lower_match_at(line, i, old)
}

/// `s` with every stretch that reads as `pat` ignoring case, found left to
/// right without overlapping, replaced by `rep` (an empty `pat` puts `rep`
/// around every character, as `str::replace` does).
pub open spec fn replace_ignoring_case(s: Seq<char>, pat: Seq<char>, rep: Seq<char>) -> Seq<char>
    decreases s.len(),
{
    if pat.len() == 0 {
        crate::text::interleave(s, rep)
    } else if s.len() == 0 {
        s
    } else if lower_match_at(s, 0, pat) {
        rep + replace_ignoring_case(s.subrange(pat.len() as int, s.len() as int), pat, rep)
    } else {
        seq![s[0]] + replace_ignoring_case(s.drop_first(), pat, rep)
    }
}

/// A line whose key the migration rewrites: a `$` variable assignment that
/// mentions the old fragment, ignoring case.
pub open spec fn rewrites_line(line: Seq<char>, old: Seq<char>) -> bool {
    &&& line.contains('=')
    &&& starts_with(unicode_lower(line), "$"@)
    &&& mentions_ignoring_case(line, old)
}

/// A line after the migration: in a rewritten line, every mention of the
/// old fragment, in whatever case, becomes the new fragment.
pub open spec fn migrate_line(line: Seq<char>, old: Seq<char>, new: Seq<char>) -> Seq<char> {
    if rewrites_line(line, old) {
        replace_ignoring_case(line, old, new)
    } else {
        line
    }
}

fn lower_match_exec(line: &Vec<char>, i: usize, old: &Vec<char>, old_lower: &Vec<char>) -> (r: bool)
    requires
        i <= line.len(),
        old_lower@ == unicode_lower(old@),
    ensures
        r == lower_match_at(line@, i as int, old@),
{
    if old.len() > line.len() - i {
        return false;
    }
    let w: String = crate::text::string_of_range(line, i, i + old.len());
    let wl: String = lowercase(w.as_str());
    crate::text::chars_eq(&chars_of(wl.as_str()), old_lower)
}

fn mentions_ignoring_case_exec(line: &Vec<char>, old: &Vec<char>, old_lower: &Vec<char>) -> (r: bool)
    requires
        old_lower@ == unicode_lower(old@),
    ensures
        r == mentions_ignoring_case(line@, old@),
{
    if old.len() > line.len() {
        assert forall|j: int| !lower_match_at(line@, j, old@) by {}
        return false;
    }
    let last: usize = line.len() - old.len();
    let mut i: usize = 0;
    loop
        invariant
            last == line.len() - old.len(),
            i <= last,
            old_lower@ == unicode_lower(old@),
            forall|j: int| 0 <= j < i ==> !#[trigger] lower_match_at(line@, j, old@),
        decreases last - i,
    {
        if lower_match_exec(line, i, old, old_lower) {
            assert(lower_match_at(line@, i as int, old@));
            return true;
        }
        if i == last {
            assert forall|j: int| !lower_match_at(line@, j, old@) by {
                if 0 <= j < i {
                } else if j == i {
                } else {
                }
            }
            return false;
        }
        i = i + 1;
    }
}

fn replace_ignoring_case_exec(v: &Vec<char>, pat: &Vec<char>, rep: &Vec<char>, pat_lower: &Vec<char>) -> (r: Vec<char>)
    requires
        pat_lower@ == unicode_lower(pat@),
    ensures
        r@ == replace_ignoring_case(v@, pat@, rep@),
{
    if pat.len() == 0 {
        return crate::text::replace_chars(v, pat, rep);
    }
    let n: usize = v.len();
    let mut out: Vec<char> = Vec::new();
    let mut i: usize = 0;
    assert(v@.subrange(0, n as int) =~= v@);
    while i < n
        invariant
            i <= n,
            n == v.len(),
            pat@.len() > 0,
            pat_lower@ == unicode_lower(pat@),
            out@ + replace_ignoring_case(v@.subrange(i as int, n as int), pat@, rep@)
                == replace_ignoring_case(v@, pat@, rep@),
        decreases n - i,
    {
        let ghost t = v@.subrange(i as int, n as int);
        let ghost before = out@;
        let hit: bool = lower_match_exec(v, i, pat, pat_lower);
        proof {
            if t.len() >= pat@.len() {
                assert(t.subrange(0, pat@.len() as int) =~= v@.subrange(i as int, i + pat@.len()));
            }
            assert(hit == lower_match_at(t, 0, pat@));
        }
        if hit {
            assert(t.subrange(pat@.len() as int, t.len() as int) =~= v@.subrange(
                i + pat@.len(),
                n as int,
            ));
            crate::text::append_chars(&mut out, rep);
            i = i + pat.len();
            assert(out@ + replace_ignoring_case(v@.subrange(i as int, n as int), pat@, rep@)
                =~= before + replace_ignoring_case(t, pat@, rep@));
        } else {
            assert(t.drop_first() =~= v@.subrange(i + 1, n as int));
            out.push(v[i]);
            i = i + 1;
            assert(out@ + replace_ignoring_case(v@.subrange(i as int, n as int), pat@, rep@)
                =~= before + replace_ignoring_case(t, pat@, rep@));
        }
    }
    assert(out@ + replace_ignoring_case(v@.subrange(n as int, n as int), pat@, rep@) =~= out@);
    out
}

pub open spec fn count_rewrites(lines: Seq<Seq<char>>, old: Seq<char>) -> nat
    decreases lines.len(),
{
    if lines.len() == 0 {
        0
    } else {
        count_rewrites(lines.drop_last(), old) + if rewrites_line(lines.last(), old) {
            1nat
        } else {
            0nat
        }
    }
}

proof fn lemma_count_rewrites_bound(lines: Seq<Seq<char>>, old: Seq<char>)
    ensures
        count_rewrites(lines, old) <= lines.len(),
    decreases lines.len(),
{
    if lines.len() > 0 {
        lemma_count_rewrites_bound(lines.drop_last(), old);
    }
}

/// Whether moving keys from `old` to `new` can change anything at all.
pub fn needs_key_migration(old_segment: &str, new_segment: &str) -> (r: bool)
    ensures
        r == (old_segment@ != new_segment@),
{
    let a: Vec<char> = chars_of(old_segment);
    let b: Vec<char> = chars_of(new_segment);
    !crate::text::chars_eq(&a, &b)
}

/// Rewrites the path-keyed settings of a `d3dx_user.ini` text after a mod
/// folder moved: in every `$…=` line that mentions `old_segment` in any
/// letter case, each such mention becomes `new_segment`. Returns the new
/// text (lines joined with '\n') and how many lines were rewritten; with
/// none, the file is left as it is.
pub fn migrate_d3dx_ini_keys(data: &str, old_segment: &str, new_segment: &str) -> (r: (String, usize))
    ensures
        r.0@ == join_lines(std_lines(data@).map_values(
            |l: Seq<char>| migrate_line(l, old_segment@, new_segment@),
        )),
        r.1 == count_rewrites(std_lines(data@), old_segment@),
{
    let t: Vec<char> = chars_of(data);
    let lines: Vec<Vec<char>> = std_lines_exec(&t);
    let ghost lv = lines@.map_values(|x: Vec<char>| x@);
    let old_v: Vec<char> = chars_of(old_segment);
    let new_v: Vec<char> = chars_of(new_segment);
    let old_lower: String = lowercase(old_segment);
    let old_lower_v: Vec<char> = chars_of(old_lower.as_str());
    let mut text: Vec<char> = Vec::new();
    let mut changed: usize = 0;
    let mut k: usize = 0;
    while k < lines.len()
        invariant
            k <= lines.len(),
            lv == lines@.map_values(|x: Vec<char>| x@),
            lv == std_lines(data@),
            old_v@ == old_segment@,
            new_v@ == new_segment@,
            old_lower_v@ == unicode_lower(old_segment@),
            text@ == join_lines(lv.subrange(0, k as int).map_values(
                |l: Seq<char>| migrate_line(l, old_segment@, new_segment@),
            )),
            changed == count_rewrites(lv.subrange(0, k as int), old_segment@),
            changed <= k,
        decreases lines.len() - k,
    {
        let ghost pre = lv.subrange(0, k as int);
        let line: &Vec<char> = &lines[k];
        let ls: String = string_of(line);
        let lower: String = lowercase(ls.as_str());
        let lower_v: Vec<char> = chars_of(lower.as_str());
        let hit: bool = crate::text::has_char(line, '=') && crate::text::starts_with_str(&lower_v, "$")
            && mentions_ignoring_case_exec(line, &old_v, &old_lower_v);
        assert(hit == rewrites_line(lv[k as int], old_segment@));
        let new_line: Vec<char> = if hit {
            replace_ignoring_case_exec(line, &old_v, &new_v, &old_lower_v)
        } else {
            line.clone()
        };
        assert(new_line@ == migrate_line(lv[k as int], old_segment@, new_segment@));
        if k > 0 {
            text.push('\n');
        }
        append_chars(&mut text, &new_line);
        if hit {
            changed = changed + 1;
        }
        k = k + 1;
        proof {
            let post = lv.subrange(0, k as int);
            assert(post.drop_last() =~= pre);
            assert(post.last() == lv[k - 1]);
            let mp = post.map_values(|l: Seq<char>| migrate_line(l, old_segment@, new_segment@));
            let mq = pre.map_values(|l: Seq<char>| migrate_line(l, old_segment@, new_segment@));
            assert(mp.drop_last() =~= mq);
            assert(mp.last() == new_line@);
            if k == 1 {
                assert(text@ =~= mp[0]);
            } else {
                assert(text@ =~= join_lines(mq) + seq!['\n'] + mp.last());
            }
        }
    }
    assert(lv.subrange(0, lines.len() as int) =~= lv);
    (string_of(&text), changed)
}

// ---------------------------------------------------------------------------
// Laws
// ---------------------------------------------------------------------------

/// The entries of `kids` the scanner looks at (see `listed`), in order.
pub open spec fn listed_only(kids: Seq<FolderInfo>) -> Seq<FolderInfo> {
    kids.filter(|f: FolderInfo| listed(f))
}

proof fn lemma_listed_only(kids: Seq<FolderInfo>, category: Seq<char>)
    ensures
        mods_in(kids, category) == mods_in(listed_only(kids), category),
        any_listed(kids) <==> listed_only(kids).len() > 0,
        forall|i: int| 0 <= i < listed_only(kids).len() ==> listed(#[trigger] listed_only(kids)[i]),
    decreases kids.len(),
{
    reveal(Seq::filter);
    if kids.len() > 0 {
        let d = kids.drop_last();
        let f = kids.last();
        lemma_listed_only(d, category);
        let fd = listed_only(d);
        if listed(f) {
            assert(listed_only(kids) == fd.push(f));
            assert(fd.push(f).drop_last() =~= fd);
            assert(listed(kids[kids.len() - 1]));
            assert forall|i: int| 0 <= i < fd.push(f).len() implies listed(
                #[trigger] fd.push(f)[i],
            ) by {
                if i < fd.len() {
                    assert(fd.push(f)[i] == fd[i]);
                }
            }
        } else {
            assert(listed_only(kids) == fd);
            if any_listed(kids) {
                let j = choose|j: int| 0 <= j < kids.len() && listed(kids[j]);
                assert(j < d.len());
                assert(d[j] == kids[j]);
            }
            if any_listed(d) {
                let j = choose|j: int| 0 <= j < d.len() && listed(d[j]);
                assert(kids[j] == d[j]);
            }
        }
    }
}

/// A top-level folder none of whose entries is a listed subfolder is itself
/// one uncategorized mod (when its name makes it a mod folder), whatever
/// files it holds.
pub proof fn law_folder_without_subfolders_is_one_mod(t: TopFolder, kids: Seq<FolderInfo>)
    requires
        forall|i: int| 0 <= i < kids.len() ==> !listed(#[trigger] kids[i]),
    ensures
        is_mod_folder(t.folder) ==> mods_of_top(t, kids) == seq![(t.folder, UNCATEGORIZED@)],
        !is_mod_folder(t.folder) ==> mods_of_top(t, kids).len() == 0,
{
}

/// What a top-level folder contributes depends only on its listed
/// subfolders: files and hidden entries beside them change nothing.
pub proof fn law_top_folder_mods_depend_on_listed_subfolders(t: TopFolder, kids: Seq<FolderInfo>)
    ensures
        mods_of_top(t, kids) == mods_of_top(t, listed_only(kids)),
{
    lemma_listed_only(kids, display(t.folder.name@));
    let l = listed_only(kids);
    if l.len() > 0 {
        assert(listed(l[0]));
    }
}

/// Disabling a legacy mod and enabling it again gives its folder back its
/// name: the prefixed name reads as disabled, and stripping the prefix
/// restores the original name.
pub proof fn law_disable_then_enable_restores_name(folder: Seq<char>)
    requires
        folder.len() > 0,
        !is_disabled_name(folder),
    ensures
        is_disabled_name(DISABLED_PREFIX@ + folder),
        strip_disabled(DISABLED_PREFIX@ + folder) == folder,
{
    lemma_prefixed_name(folder);
}

/// A non-empty name with the `DISABLED_` prefix put in front reads as
/// disabled, and stripping the prefix gives the name back.
pub proof fn lemma_prefixed_name(base: Seq<char>)
    requires
        base.len() > 0,
    ensures
        is_disabled_name(DISABLED_PREFIX@ + base),
        strip_disabled(DISABLED_PREFIX@ + base) == base,
        !base.contains('/') ==> !(DISABLED_PREFIX@ + base).contains('/'),
{
    reveal_strlit("DISABLED_");
    reveal_strlit("disabled_");
    let d = DISABLED_PREFIX@ + base;
    assert(d.subrange(0, 9) =~= DISABLED_PREFIX@);
    assert(ascii_lower(d.subrange(0, 9)) =~= "disabled_"@);
    assert(d.subrange(9, d.len() as int) =~= base);
    assert(ascii_upper(d).subrange(0, 9) =~= "DISABLED_"@);
    if !base.contains('/') && d.contains('/') {
        let j = choose|j: int| 0 <= j < d.len() && d[j] == '/';
        if j >= 9 {
            assert(base.contains(d[j]));
        }
    }
}

/// A name that does not read as disabled has no prefix to strip.
pub proof fn lemma_strip_plain(s: Seq<char>)
    requires
        !is_disabled_name(s),
    ensures
        strip_disabled(s) == s,
{
    reveal_strlit("disabled_");
    reveal_strlit("DISABLED_");
    if s.len() > 9 && ascii_lower(s.subrange(0, 9)) == "disabled_"@ {
        assert forall|i: int| 0 <= i < 9 implies ascii_upper(s).subrange(0, 9)[i]
            == "DISABLED_"@[i] by {
            assert(ascii_lower(s.subrange(0, 9))[i] == crate::text::ascii_lower_char(s[i]));
            assert(ascii_upper(s)[i] == crate::text::ascii_upper_char(s[i]));
        }
        assert(ascii_upper(s).subrange(0, 9) =~= "DISABLED_"@);
    }
}

/// Disabling a legacy mod and enabling it again puts its folder back where
/// it was: `parent/name` is renamed to `parent/DISABLED_name`, and that back
/// to `parent/name`, when neither new name is taken.
pub proof fn law_legacy_disable_then_enable_round_trip(
    parent: Seq<char>,
    name: Seq<char>,
    before: Seq<Seq<char>>,
    after: Seq<Seq<char>>,
)
    requires
        parent.len() > 0,
        parent.last() != '/',
        name.len() > 0,
        !name.contains('/'),
        !is_disabled_name(name),
        !before.contains(DISABLED_PREFIX@ + name),
        !after.contains(name),
    ensures
        ({
            let on = join(parent, name);
            let off = join(parent, DISABLED_PREFIX@ + name);
            &&& legacy_plan(on, false, before) matches Ok(d) && d.action == ActionModel::Rename(on, off)
                && d.info_path == off && !d.enabled
            &&& legacy_plan(off, true, after) matches Ok(e) && e.action == ActionModel::Rename(off, on)
                && e.info_path == on && e.enabled
        }),
{
    let off_name = DISABLED_PREFIX@ + name;
    law_disable_then_enable_restores_name(name);
    lemma_strip_plain(name);
    reveal_strlit("DISABLED_");
    assert(!off_name.contains('/')) by {
        if off_name.contains('/') {
            let j = choose|j: int| 0 <= j < off_name.len() && off_name[j] == '/';
            if j >= 9 {
                assert(name.contains(off_name[j]));
            }
        }
    }
    crate::paths::lemma_base_name_join(parent, name);
    crate::paths::lemma_base_name_join(parent, off_name);
    crate::paths::lemma_parent_of_join(parent, name);
    crate::paths::lemma_parent_of_join(parent, off_name);
}

/// Toggling a mod to the state it is already in changes nothing, in either
/// layout: no folder is renamed, no link is made or removed, and the mod
/// keeps its path.
pub proof fn law_toggle_to_current_state_is_no_op(
    path: Seq<char>,
    category: Seq<char>,
    enabled: bool,
    facts: ToggleFacts,
)
    requires
        facts.path_exists,
        in_managed_src(path) ==> facts.link_present == enabled && link_path_of(path, category) is Ok,
        !in_managed_src(path) ==> !is_disabled_name(base_name(path)) == enabled,
    ensures
        toggle_plan(path, category, enabled, facts) matches Ok(p) && p.action is Keep && p.info_path
            == path && p.enabled == enabled,
{
}

/// A toggle to the state a legacy mod is already in changes nothing.
pub proof fn law_toggle_to_current_state_keeps(path: Seq<char>, enabled: bool, entries: Seq<Seq<char>>)
    requires
        !is_disabled_name(base_name(path)) == enabled,
    ensures
        legacy_plan(path, enabled, entries) matches Ok(p) && p.action is Keep && p.info_path == path,
{
}

/// In the symlink layout a toggle never moves the mod's files: the mod keeps
/// its path, and only its link changes. The link that enabling makes is the
/// one that disabling removes.
pub proof fn law_symlink_toggle_keeps_files(
    path: Seq<char>,
    category: Seq<char>,
    enabled: bool,
    facts: ToggleFacts,
)
    requires
        in_managed_src(path),
        facts.path_exists,
    ensures
        toggle_plan(path, category, enabled, facts) matches Ok(p) ==> {
            &&& p.symlink
            &&& p.info_path == path
            &&& !(p.action is Rename)
        },
        toggle_plan(path, category, enabled, facts) matches Ok(p) ==> (p.action matches ActionModel::CreateLink(
            target,
            link,
        ) ==> target == path && link_path_of(path, category) == Ok::<Seq<char>, Seq<char>>(link)),
        toggle_plan(path, category, enabled, facts) matches Ok(p) ==> (p.action matches ActionModel::RemoveLink(
            link,
        ) ==> link_path_of(path, category) == Ok::<Seq<char>, Seq<char>>(link)),
{
}

} // verus!
