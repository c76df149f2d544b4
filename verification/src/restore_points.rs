//! Restore points: snapshots of which mods existed and whether each was
//! enabled, optionally with a copy of every mod folder.
//!
//! Restoring is corrective, never destructive: mods that still exist are
//! switched back to their recorded state, missing ones are recreated from
//! the file backup when there is one, and mods added after the snapshot are
//! left alone. The snapshot list of a game is read from and written to a
//! JSON file around these functions, and the copying happens there too.

use vstd::prelude::*;
use crate::mods::{
    contains_name, is_disabled_name, names_view, scan_mods, scan_outcome, strip_disabled,
    ModDirSnapshot,
    ModInfo, DISABLED_PREFIX, MANAGED_SRC, MANAGED_TGT, UNCATEGORIZED,
};
use crate::paths::{base_name, base_name_of, join, join_path};
use crate::text::{
    append_chars, append_str, chars_eq, chars_of, decimal, decimal_chars, eq_str, lit,
    replace_all, replace_chars, string_of,
};

verus! {

/// One mod's state when a restore point was taken.
#[derive(Debug)]
pub struct SnapshotEntry {
    /// The mod's stable key, `category/folder`.
    pub key: String,
    pub category: String,
    pub enabled: bool,
}

/// A saved restore point.
#[derive(Debug)]
pub struct RestorePoint {
    pub id: String,
    pub name: String,
    pub created_at: u64,
    pub mods: Vec<SnapshotEntry>,
    /// Whether the mod folders were copied too (only then can a deleted mod
    /// be recreated).
    pub has_file_backup: bool,
    /// Total size of the copied files in bytes.
    pub backup_size_bytes: u64,
}

/// What restoring changed and what it could not restore.
#[derive(Debug)]
pub struct RestoreResult {
    pub enabled_count: u32,
    pub disabled_count: u32,
    pub recreated_count: u32,
    /// Mods in the snapshot that are gone and cannot be recreated.
    pub unrecoverable: Vec<String>,
    pub errors: Vec<String>,
}

pub struct EntryModel {
    pub key: Seq<char>,
    pub category: Seq<char>,
    pub enabled: bool,
}

pub open spec fn entry_view(e: SnapshotEntry) -> EntryModel {
    EntryModel { key: e.key@, category: e.category@, enabled: e.enabled }
}

pub open spec fn entries_view(s: Seq<SnapshotEntry>) -> Seq<EntryModel> {
    s.map_values(|e: SnapshotEntry| entry_view(e))
}

pub struct PointModel {
    pub id: Seq<char>,
    pub name: Seq<char>,
    pub created_at: u64,
    pub mods: Seq<EntryModel>,
    pub has_file_backup: bool,
    pub backup_size_bytes: u64,
}

impl View for RestorePoint {
    type V = PointModel;

    open spec fn view(&self) -> PointModel {
        PointModel {
            id: self.id@,
            name: self.name@,
            created_at: self.created_at,
            mods: entries_view(self.mods@),
            has_file_backup: self.has_file_backup,
            backup_size_bytes: self.backup_size_bytes,
        }
    }
}

pub open spec fn points_view(s: Seq<RestorePoint>) -> Seq<PointModel> {
    s.map_values(|p: RestorePoint| p@)
}

fn copy_entries(v: &Vec<SnapshotEntry>) -> (r: Vec<SnapshotEntry>)
    ensures
        entries_view(r@) == entries_view(v@),
{
    let mut out: Vec<SnapshotEntry> = Vec::new();
    let mut k: usize = 0;
    while k < v.len()
        invariant
            k <= v.len(),
            entries_view(out@) == entries_view(v@).subrange(0, k as int),
        decreases v.len() - k,
    {
        let ghost prev = out@;
        let e = SnapshotEntry {
            key: v[k].key.clone(),
            category: v[k].category.clone(),
            enabled: v[k].enabled,
        };
        assert(entry_view(e) == entry_view(v@[k as int]));
        out.push(e);
        assert(entries_view(out@) =~= entries_view(prev).push(entry_view(v@[k as int])));
        k = k + 1;
        assert(entries_view(out@) =~= entries_view(v@).subrange(0, k as int));
    }
    assert(entries_view(v@).subrange(0, v.len() as int) =~= entries_view(v@));
    out
}

impl RestorePoint {
    pub fn duplicate(&self) -> (r: RestorePoint)
        ensures
            r@ == self@,
    {
        RestorePoint {
            id: self.id.clone(),
            name: self.name.clone(),
            created_at: self.created_at,
            mods: copy_entries(&self.mods),
            has_file_backup: self.has_file_backup,
            backup_size_bytes: self.backup_size_bytes,
        }
    }
}

// ---------------------------------------------------------------------------
// Locations
// ---------------------------------------------------------------------------

/// A game's restore point list: `<config dir>/restore_points/<game id>.json`.
pub fn manifest_path(config_dir: &str, game_id: &str) -> (r: String)
    ensures
        r@ == join(join(config_dir@, "restore_points"@), game_id@ + ".json"@),
{
    let dir: String = join_path(config_dir, "restore_points");
    let mut v: Vec<char> = chars_of(game_id);
    append_str(&mut v, ".json");
    let name: String = string_of(&v);
    join_path(dir.as_str(), name.as_str())
}

/// Where a restore point's file backup lives:
/// `<data dir>/restore_backups/<game id>/<restore point id>`.
pub fn backup_dir(data_dir: &str, game_id: &str, restore_point_id: &str) -> (r: String)
    ensures
        r@ == join(join(join(data_dir@, "restore_backups"@), game_id@), restore_point_id@),
{
    let a: String = join_path(data_dir, "restore_backups");
    let b: String = join_path(a.as_str(), game_id);
    join_path(b.as_str(), restore_point_id)
}

/// A mod key as a single folder name: each '/' becomes `__`.
pub open spec fn key_folder(key: Seq<char>) -> Seq<char> {
    replace_all(key, seq!['/'], seq!['_', '_'])
}

pub fn sanitize_key(key: &str) -> (r: String)
    ensures
        r@ == key_folder(key@),
{
    let v: Vec<char> = chars_of(key);
    let mut pat: Vec<char> = Vec::new();
    pat.push('/');
    let mut rep: Vec<char> = Vec::new();
    rep.push('_');
    rep.push('_');
    assert(pat@ =~= seq!['/']);
    assert(rep@ =~= seq!['_', '_']);
    let out: Vec<char> = replace_chars(&v, &pat, &rep);
    string_of(&out)
}

// ---------------------------------------------------------------------------
// Listing, creating, deleting
// ---------------------------------------------------------------------------

pub open spec fn point_created_keys(s: Seq<RestorePoint>) -> Seq<u64> {
    s.map_values(|p: RestorePoint| p.created_at)
}

/// The restore points, newest first (points taken at the same second keep
/// their order).
pub fn list_restore_points(points: Vec<RestorePoint>) -> (r: Vec<RestorePoint>)
    ensures
        r@.len() == points@.len(),
        exists|order: Seq<usize>|
            #![trigger crate::sorting::sorted_desc(point_created_keys(points@), order)]
            {
                &&& crate::sorting::sorted_desc(point_created_keys(points@), order)
                &&& forall|i: int|
                    0 <= i < r@.len() ==> #[trigger] r@[i]@ == points@[order[i] as int]@
            },
{
    let mut keys: Vec<u64> = Vec::new();
    let mut k: usize = 0;
    while k < points.len()
        invariant
            k <= points.len(),
            keys@ == point_created_keys(points@).subrange(0, k as int),
        decreases points.len() - k,
    {
        keys.push(points[k].created_at);
        k = k + 1;
        assert(keys@ =~= point_created_keys(points@).subrange(0, k as int));
    }
    assert(point_created_keys(points@).subrange(0, points.len() as int) =~= point_created_keys(
        points@,
    ));
    let order: Vec<usize> = crate::sorting::order_by_number_desc(&keys);
    let mut out: Vec<RestorePoint> = Vec::new();
    let mut j: usize = 0;
    while j < order.len()
        invariant
            j <= order.len(),
            crate::sorting::sorted_desc(keys@, order@),
            keys@ == point_created_keys(points@),
            out@.len() == j,
            forall|i: int| 0 <= i < j ==> out@[i]@ == points@[order@[i] as int]@,
        decreases order.len() - j,
    {
        out.push(points[order[j]].duplicate());
        j = j + 1;
    }
    assert(forall|i: int| 0 <= i < out@.len() ==> #[trigger] out@[i]@ == points@[order@[i] as int]@);
    out
}

/// One mod folder to copy into a restore point's backup folder.
#[derive(Debug)]
pub struct BackupCopy {
    /// The mod folder.
    pub source: String,
    /// The folder name inside the backup folder (see `sanitize_key`).
    pub dest_name: String,
}

/// A restore point ready to be recorded once its copies are made.
#[derive(Debug)]
pub struct RestorePointDraft {
    pub point: RestorePoint,
    pub copies: Vec<BackupCopy>,
}

pub open spec fn entries_of(mods: Seq<ModInfo>) -> Seq<EntryModel> {
    mods.map_values(|m: ModInfo| EntryModel { key: m.key@, category: m.category@, enabled: m.enabled })
}

pub open spec fn copies_of(mods: Seq<ModInfo>) -> Seq<(Seq<char>, Seq<char>)> {
    mods.map_values(|m: ModInfo| (m.path@, key_folder(m.key@)))
}

pub open spec fn copies_view(s: Seq<BackupCopy>) -> Seq<(Seq<char>, Seq<char>)> {
    s.map_values(|c: BackupCopy| (c.source@, c.dest_name@))
}

/// What drafting a restore point gives, given the scan result.
pub open spec fn drafted_as(
    before: Seq<PointModel>,
    scan: Result<Vec<ModInfo>, String>,
    name: Seq<char>,
    with_file_backup: bool,
    now: u64,
    r: Result<RestorePointDraft, String>,
) -> bool {
    match scan {
        Err(e) => r matches Err(e2) && e2@ == e@,
        Ok(mods) => {
            &&& r matches Ok(d)
            &&& d.point@ == PointModel {
                id: decimal(now as nat) + "-"@ + decimal(before.len()),
                name,
                created_at: now,
                mods: entries_of(mods@),
                has_file_backup: with_file_backup,
                backup_size_bytes: 0,
            }
            &&& copies_view(d.copies@) == if with_file_backup {
                copies_of(mods@)
            } else {
                Seq::<(Seq<char>, Seq<char>)>::empty()
            }
        },
    }
}

/// Drafts a restore point taken at `now` of the scanned mod folder: the
/// state of every mod and, with a file backup, the folders to copy.
pub fn create_restore_point(
    points: &Vec<RestorePoint>,
    snapshot: &ModDirSnapshot,
    name: &str,
    with_file_backup: bool,
    now: u64,
) -> (r: Result<RestorePointDraft, String>)
    ensures
        exists|scan: Result<Vec<ModInfo>, String>|
            #![trigger scan_outcome(*snapshot, scan)]
            scan_outcome(*snapshot, scan) && drafted_as(
                points_view(points@),
                scan,
                name@,
                with_file_backup,
                now,
                r,
            ),
{
    let scan = scan_mods(snapshot);
    let mods: &Vec<ModInfo> = match &scan {
        Err(e) => {
            let r = Err(e.clone());
            assert(drafted_as(points_view(points@), scan, name@, with_file_backup, now, r));
            return r;
        },
        Ok(m) => m,
    };
    let mut entries: Vec<SnapshotEntry> = Vec::new();
    let mut copies: Vec<BackupCopy> = Vec::new();
    let mut k: usize = 0;
    while k < mods.len()
        invariant
            k <= mods.len(),
            entries_view(entries@) == entries_of(mods@).subrange(0, k as int),
            copies_view(copies@) == if with_file_backup {
                copies_of(mods@).subrange(0, k as int)
            } else {
                Seq::<(Seq<char>, Seq<char>)>::empty()
            },
        decreases mods.len() - k,
    {
        let ghost pe = entries@;
        let ghost pc = copies@;
        let m: &ModInfo = &mods[k];
        let e = SnapshotEntry { key: m.key.clone(), category: m.category.clone(), enabled: m.enabled };
        entries.push(e);
        assert(entries_view(entries@) =~= entries_view(pe).push(entries_of(mods@)[k as int]));
        if with_file_backup {
            let c = BackupCopy { source: m.path.clone(), dest_name: sanitize_key(m.key.as_str()) };
            copies.push(c);
            assert(copies_view(copies@) =~= copies_view(pc).push(copies_of(mods@)[k as int]));
        }
        k = k + 1;
        assert(entries_view(entries@) =~= entries_of(mods@).subrange(0, k as int));
        assert(with_file_backup ==> copies_view(copies@) =~= copies_of(mods@).subrange(
            0,
            k as int,
        ));
    }
    assert(entries_of(mods@).subrange(0, mods.len() as int) =~= entries_of(mods@));
    assert(copies_of(mods@).subrange(0, mods.len() as int) =~= copies_of(mods@));
    let mut idv: Vec<char> = decimal_chars(now);
    append_str(&mut idv, "-");
    let count: Vec<char> = decimal_chars(points.len() as u64);
    append_chars(&mut idv, &count);
    let point = RestorePoint {
        id: string_of(&idv),
        name: lit(name),
        created_at: now,
        mods: entries,
        has_file_backup: with_file_backup,
        backup_size_bytes: 0,
    };
    let r = Ok(RestorePointDraft { point, copies });
    assert(drafted_as(points_view(points@), scan, name@, with_file_backup, now, r));
    r
}

pub open spec fn sum_of(s: Seq<u64>) -> nat
    decreases s.len(),
{
    if s.len() == 0 {
        0
    } else {
        sum_of(s.drop_last()) + s.last() as nat
    }
}

/// A drafted point with the size of its copies recorded.
pub open spec fn committed(p: PointModel, total: nat) -> PointModel {
    PointModel {
        backup_size_bytes: if p.has_file_backup {
            total as u64
        } else {
            0
        },
        ..p
    }
}

/// Records a drafted restore point once its copies are made (`copied[i]`
/// is the number of bytes the `i`-th copy wrote) and returns it.
pub fn commit_restore_point(
    points: &mut Vec<RestorePoint>,
    draft: RestorePointDraft,
    copied: &Vec<u64>,
) -> (r: RestorePoint)
    requires
        copied@.len() == draft.copies@.len(),
        sum_of(copied@) <= u64::MAX,
    ensures
        r@ == committed(draft.point@, sum_of(copied@)),
        points_view(final(points)@) == points_view(old(points)@).push(r@),
{
    let mut total: u64 = 0;
    let mut k: usize = 0;
    while k < copied.len()
        invariant
            k <= copied.len(),
            sum_of(copied@) <= u64::MAX,
            total == sum_of(copied@.subrange(0, k as int)),
        decreases copied.len() - k,
    {
        proof {
            let post = copied@.subrange(0, k + 1);
            assert(post.drop_last() =~= copied@.subrange(0, k as int));
            lemma_sum_prefix(copied@, k + 1);
        }
        total = total + copied[k];
        k = k + 1;
    }
    assert(copied@.subrange(0, copied.len() as int) =~= copied@);
    let mut point = draft.point;
    point.backup_size_bytes = if point.has_file_backup {
        total
    } else {
        0
    };
    let copy = point.duplicate();
    points.push(point);
    assert(points_view(points@) =~= points_view(old(points)@).push(copy@));
    copy
}

proof fn lemma_sum_prefix(s: Seq<u64>, k: int)
    requires
        0 <= k <= s.len(),
    ensures
        sum_of(s.subrange(0, k)) <= sum_of(s),
    decreases s.len() - k,
{
    if k < s.len() {
        lemma_sum_prefix(s, k + 1);
        assert(s.subrange(0, k + 1).drop_last() =~= s.subrange(0, k));
    } else {
        assert(s.subrange(0, k) =~= s);
    }
}

pub open spec fn has_point(s: Seq<PointModel>, id: Seq<char>) -> bool {
    exists|i: int| 0 <= i < s.len() && s[i].id == id
}

pub open spec fn first_point(s: Seq<PointModel>, id: Seq<char>, i: int) -> bool {
    &&& 0 <= i < s.len()
    &&& s[i].id == id
    &&& forall|j: int| 0 <= j < i ==> s[j].id != id
}

pub open spec fn without_point(s: Seq<PointModel>, id: Seq<char>) -> Seq<PointModel>
    decreases s.len(),
{
    if s.len() == 0 {
        Seq::<PointModel>::empty()
    } else if s.last().id == id {
        without_point(s.drop_last(), id)
    } else {
        without_point(s.drop_last(), id).push(s.last())
    }
}

pub open spec fn point_not_found_message(id: Seq<char>) -> Seq<char> {
    "Restore point '"@ + id + "' not found"@
}

fn point_not_found(id: &str) -> (r: String)
    ensures
        r@ == point_not_found_message(id@),
{
    let mut v: Vec<char> = chars_of("Restore point '");
    append_str(&mut v, id);
    append_str(&mut v, "' not found");
    string_of(&v)
}

proof fn lemma_without_point_len(s: Seq<PointModel>, id: Seq<char>)
    ensures
        without_point(s, id).len() <= s.len(),
        without_point(s, id).len() == s.len() <==> !has_point(s, id),
    decreases s.len(),
{
    if s.len() > 0 {
        lemma_without_point_len(s.drop_last(), id);
        if has_point(s.drop_last(), id) {
            let i = choose|i: int| 0 <= i < s.drop_last().len() && s.drop_last()[i].id == id;
            assert(s[i].id == id);
        }
        if !has_point(s.drop_last(), id) && s.last().id != id {
            assert forall|i: int| 0 <= i < s.len() implies s[i].id != id by {
                if i < s.len() - 1 {
                    assert(s[i] == s.drop_last()[i]);
                }
            }
        }
    }
}

/// Deletes every restore point with identifier `restore_point_id`; refused
/// when there is none. (Its backup folder is removed by the caller.)
pub fn delete_restore_point(points: &mut Vec<RestorePoint>, restore_point_id: &str) -> (r: Result<
    (),
    String,
>)
    ensures
        !has_point(points_view(old(points)@), restore_point_id@) ==> (r matches Err(e) && e@
            == point_not_found_message(restore_point_id@)) && points_view(final(points)@)
            == points_view(old(points)@),
        has_point(points_view(old(points)@), restore_point_id@) ==> r is Ok && points_view(
            final(points)@,
        ) == without_point(points_view(old(points)@), restore_point_id@),
{
    let ghost s = points_view(points@);
    let idv: Vec<char> = chars_of(restore_point_id);
    let mut out: Vec<RestorePoint> = Vec::new();
    let mut k: usize = 0;
    while k < points.len()
        invariant
            k <= points.len(),
            s == points_view(points@),
            idv@ == restore_point_id@,
            points_view(out@) == without_point(s.subrange(0, k as int), restore_point_id@),
        decreases points.len() - k,
    {
        let ghost pre = s.subrange(0, k as int);
        let cur: Vec<char> = chars_of(points[k].id.as_str());
        if !chars_eq(&cur, &idv) {
            out.push(points[k].duplicate());
        }
        k = k + 1;
        proof {
            let post = s.subrange(0, k as int);
            assert(post.drop_last() =~= pre);
            assert(post.last() == s[k - 1]);
            assert(points_view(out@) =~= without_point(post, restore_point_id@));
        }
    }
    assert(s.subrange(0, points.len() as int) =~= s);
    proof {
        lemma_without_point_len(s, restore_point_id@);
    }
    if out.len() == points.len() {
        return Err(point_not_found(restore_point_id));
    }
    *points = out;
    Ok(())
}

fn find_point(points: &Vec<RestorePoint>, id: &str) -> (r: Option<usize>)
    ensures
        match r {
            Some(i) => first_point(points_view(points@), id@, i as int),
            None => !has_point(points_view(points@), id@),
        },
{
    let ghost s = points_view(points@);
    let idv: Vec<char> = chars_of(id);
    let mut i: usize = 0;
    while i < points.len()
        invariant
            i <= points.len(),
            s == points_view(points@),
            idv@ == id@,
            forall|j: int| 0 <= j < i ==> s[j].id != id@,
        decreases points.len() - i,
    {
        let cur: Vec<char> = chars_of(points[i].id.as_str());
        if chars_eq(&cur, &idv) {
            return Some(i);
        }
        i = i + 1;
    }
    None
}

// ---------------------------------------------------------------------------
// Restoring
// ---------------------------------------------------------------------------

/// The current mod a snapshot entry is matched with: the last one with its
/// key (a later mod with the same key replaces an earlier one).
pub open spec fn current_for(mods: Seq<ModInfo>, key: Seq<char>) -> Option<int>
    decreases mods.len(),
{
    if mods.len() == 0 {
        None
    } else if mods.last().key@ == key {
        Some(mods.len() - 1)
    } else {
        current_for(mods.drop_last(), key)
    }
}

proof fn lemma_current_for(mods: Seq<ModInfo>, key: Seq<char>)
    ensures
        current_for(mods, key) matches Some(j) ==> 0 <= j < mods.len() && mods[j].key@ == key,
    decreases mods.len(),
{
    if mods.len() > 0 {
        lemma_current_for(mods.drop_last(), key);
    }
}

/// One step of a restore.
#[derive(Debug)]
pub enum RestoreAction {
    /// Switch an existing mod to its recorded state.
    Toggle { key: String, path: String, category: String, enable: bool },
    /// Copy the backup at `source` to `dest` (after creating `dest_parent`),
    /// failing with `conflict_message` when `dest` exists; then create the
    /// link `link.1` inside `link.0` to it when there is one.
    Recreate {
        key: String,
        source: String,
        dest_parent: String,
        dest: String,
        conflict_message: String,
        link: Option<(String, String)>,
    },
    /// A missing mod without a backup to recreate it from.
    Unrecoverable { key: String },
}

pub enum ActionModel {
    Toggle(Seq<char>, Seq<char>, Seq<char>, bool),
    Recreate(Seq<char>, Seq<char>, Seq<char>, Seq<char>, Seq<char>, Option<(Seq<char>, Seq<char>)>),
    Unrecoverable(Seq<char>),
}

pub open spec fn action_view(a: RestoreAction) -> ActionModel {
    match a {
        RestoreAction::Toggle { key, path, category, enable } => ActionModel::Toggle(
            key@,
            path@,
            category@,
            enable,
        ),
        RestoreAction::Recreate { key, source, dest_parent, dest, conflict_message, link } =>
            ActionModel::Recreate(
            key@,
            source@,
            dest_parent@,
            dest@,
            conflict_message@,
            match link {
                Some(l) => Some((l.0@, l.1@)),
                None => None,
            },
        ),
        RestoreAction::Unrecoverable { key } => ActionModel::Unrecoverable(key@),
    }
}

pub open spec fn actions_view(s: Seq<RestoreAction>) -> Seq<ActionModel> {
    s.map_values(|a: RestoreAction| action_view(a))
}

/// The key an action is about.
pub open spec fn action_key(a: ActionModel) -> Seq<char> {
    match a {
        ActionModel::Toggle(k, _, _, _) => k,
        ActionModel::Recreate(k, _, _, _, _, _) => k,
        ActionModel::Unrecoverable(k) => k,
    }
}

/// Recreating a missing mod from its backup at `source`: in the symlink
/// layout under `managed_src` (linked from `managed_tgt` when it was
/// enabled), otherwise under the mod folder with the `DISABLED_` prefix when
/// it was disabled.
pub open spec fn recreate_action(mod_path: Seq<char>, symlink: bool, e: EntryModel, source: Seq<char>) -> ActionModel {
    let base = base_name(e.key);
    let unc = e.category == UNCATEGORIZED@;
    if symlink {
        let src = join(mod_path, MANAGED_SRC@);
        let parent = if unc {
            src
        } else {
            join(src, e.category)
        };
        let tgt = join(mod_path, MANAGED_TGT@);
        let link_parent = if unc {
            tgt
        } else {
            join(tgt, e.category)
        };
        ActionModel::Recreate(
            e.key,
            source,
            parent,
            join(parent, base),
            "A folder named '"@ + base + "' already exists in managed_src"@,
            if e.enabled {
                Some((link_parent, join(link_parent, base)))
            } else {
                None
            },
        )
    } else {
        let folder = if e.enabled {
            base
        } else {
            DISABLED_PREFIX@ + base
        };
        let parent = if unc {
            mod_path
        } else {
            join(mod_path, e.category)
        };
        ActionModel::Recreate(
            e.key,
            source,
            parent,
            join(parent, folder),
            "A folder named '"@ + folder + "' already exists"@,
            None,
        )
    }
}

/// A mod recreated from its backup comes back in the state the restore
/// point recorded, under the name its key gives: in the legacy layout its
/// folder reads as disabled exactly when the entry was recorded disabled,
/// and stripping the prefix gives the key's folder name; in the symlink
/// layout its folder keeps that name and gets a link exactly when the entry
/// was recorded enabled. The copy comes from the given backup.
pub proof fn law_recreated_mod_comes_back_as_recorded(
    mod_path: Seq<char>,
    symlink: bool,
    e: EntryModel,
    source: Seq<char>,
)
    requires
        mod_path.len() > 0,
        base_name(e.key).len() > 0,
        !symlink && e.enabled ==> !is_disabled_name(base_name(e.key)),
    ensures
        recreate_action(mod_path, symlink, e, source) matches ActionModel::Recreate(
            key,
            src,
            _parent,
            dest,
            _msg,
            link,
        ) && key == e.key && src == source && if symlink {
            &&& base_name(dest) == base_name(e.key)
            &&& (link is Some <==> e.enabled)
            &&& (link matches Some(l) ==> base_name(l.1) == base_name(e.key))
        } else {
            &&& is_disabled_name(base_name(dest)) == !e.enabled
            &&& strip_disabled(base_name(dest)) == base_name(e.key)
            &&& link is None
        },
{
    let base = base_name(e.key);
    crate::paths::lemma_base_name_has_no_slash(e.key);
    crate::mods::lemma_prefixed_name(base);
    let unc = e.category == UNCATEGORIZED@;
    if symlink {
        let src = join(mod_path, MANAGED_SRC@);
        let parent = if unc {
            src
        } else {
            join(src, e.category)
        };
        let tgt = join(mod_path, MANAGED_TGT@);
        let link_parent = if unc {
            tgt
        } else {
            join(tgt, e.category)
        };
        crate::paths::lemma_base_name_join(parent, base);
        crate::paths::lemma_base_name_join(link_parent, base);
    } else {
        let folder = if e.enabled {
            base
        } else {
            DISABLED_PREFIX@ + base
        };
        let parent = if unc {
            mod_path
        } else {
            join(mod_path, e.category)
        };
        crate::paths::lemma_base_name_join(parent, folder);
        if e.enabled {
            crate::mods::lemma_strip_plain(base);
        }
    }
}

/// What restoring does for one snapshot entry, if anything.
pub open spec fn restore_step(
    mods: Seq<ModInfo>,
    has_backup: bool,
    e: EntryModel,
    mod_path: Seq<char>,
    symlink: bool,
    backup_dir: Seq<char>,
    backup_names: Seq<Seq<char>>,
) -> Option<ActionModel> {
    match current_for(mods, e.key) {
        Some(j) => if mods[j].enabled != e.enabled {
            Some(ActionModel::Toggle(e.key, mods[j].path@, mods[j].category@, e.enabled))
        } else {
            None
        },
        None => if !has_backup || !backup_names.contains(key_folder(e.key)) {
            Some(ActionModel::Unrecoverable(e.key))
        } else {
            Some(recreate_action(mod_path, symlink, e, join(backup_dir, key_folder(e.key))))
        },
    }
}

/// The steps of a restore, in the order of the snapshot's entries.
pub open spec fn restore_plan(
    entries: Seq<EntryModel>,
    mods: Seq<ModInfo>,
    has_backup: bool,
    mod_path: Seq<char>,
    symlink: bool,
    backup_dir: Seq<char>,
    backup_names: Seq<Seq<char>>,
) -> Seq<ActionModel>
    decreases entries.len(),
{
    if entries.len() == 0 {
        Seq::<ActionModel>::empty()
    } else {
        let p = restore_plan(
            entries.drop_last(),
            mods,
            has_backup,
            mod_path,
            symlink,
            backup_dir,
            backup_names,
        );
        match restore_step(
            mods,
            has_backup,
            entries.last(),
            mod_path,
            symlink,
            backup_dir,
            backup_names,
        ) {
            Some(a) => p.push(a),
            None => p,
        }
    }
}

proof fn lemma_current_for_unique(mods: Seq<ModInfo>, i: int)
    requires
        0 <= i < mods.len(),
        forall|a: int, b: int| 0 <= a < b < mods.len() ==> mods[a].key@ != mods[b].key@,
    ensures
        current_for(mods, mods[i].key@) == Some(i),
    decreases mods.len(),
{
    if i < mods.len() - 1 {
        assert(mods[i].key@ != mods[mods.len() - 1].key@);
        lemma_current_for_unique(mods.drop_last(), i);
    }
}

proof fn lemma_unchanged_prefix(
    mods: Seq<ModInfo>,
    n: int,
    has_backup: bool,
    mod_path: Seq<char>,
    symlink: bool,
    backup_dir: Seq<char>,
    backup_names: Seq<Seq<char>>,
)
    requires
        0 <= n <= mods.len(),
        forall|a: int, b: int| 0 <= a < b < mods.len() ==> mods[a].key@ != mods[b].key@,
    ensures
        restore_plan(
            entries_of(mods).subrange(0, n),
            mods,
            has_backup,
            mod_path,
            symlink,
            backup_dir,
            backup_names,
        ) == Seq::<ActionModel>::empty(),
    decreases n,
{
    if n > 0 {
        let es = entries_of(mods).subrange(0, n);
        assert(es.drop_last() =~= entries_of(mods).subrange(0, n - 1));
        lemma_unchanged_prefix(mods, n - 1, has_backup, mod_path, symlink, backup_dir, backup_names);
        lemma_current_for_unique(mods, n - 1);
        assert(es.last().key == mods[n - 1].key@);
        assert(es.last().enabled == mods[n - 1].enabled);
    }
}

/// Restoring a point against the very state it recorded does nothing: when
/// no two mods share a key, every recorded mod is found in the state it was
/// recorded in, so no step is planned.
pub proof fn law_restore_of_unchanged_state_does_nothing(
    mods: Seq<ModInfo>,
    has_backup: bool,
    mod_path: Seq<char>,
    symlink: bool,
    backup_dir: Seq<char>,
    backup_names: Seq<Seq<char>>,
)
    requires
        forall|a: int, b: int| 0 <= a < b < mods.len() ==> mods[a].key@ != mods[b].key@,
    ensures
        restore_plan(entries_of(mods), mods, has_backup, mod_path, symlink, backup_dir, backup_names)
            == Seq::<ActionModel>::empty(),
{
    lemma_unchanged_prefix(mods, mods.len() as int, has_backup, mod_path, symlink, backup_dir, backup_names);
    assert(entries_of(mods).subrange(0, mods.len() as int) =~= entries_of(mods));
}

/// The switches that bring `later` back to the states recorded from
/// `saved` (matched by position): each mod whose state differs, to its
/// recorded state.
pub open spec fn toggles_back(saved: Seq<ModInfo>, later: Seq<ModInfo>) -> Seq<ActionModel>
    decreases later.len(),
{
    if later.len() == 0 || saved.len() == 0 {
        Seq::<ActionModel>::empty()
    } else {
        let m = later.last();
        let want = saved.last().enabled;
        if m.enabled == want {
            toggles_back(saved.drop_last(), later.drop_last())
        } else {
            toggles_back(saved.drop_last(), later.drop_last()).push(
                ActionModel::Toggle(m.key@, m.path@, m.category@, want),
            )
        }
    }
}

proof fn lemma_toggles_back_prefix(
    saved: Seq<ModInfo>,
    later: Seq<ModInfo>,
    n: int,
    has_backup: bool,
    mod_path: Seq<char>,
    symlink: bool,
    backup_dir: Seq<char>,
    backup_names: Seq<Seq<char>>,
)
    requires
        0 <= n <= later.len(),
        saved.len() == later.len(),
        forall|i: int| 0 <= i < later.len() ==> #[trigger] later[i].key@ == saved[i].key@,
        forall|a: int, b: int| 0 <= a < b < later.len() ==> later[a].key@ != later[b].key@,
    ensures
        restore_plan(
            entries_of(saved).subrange(0, n),
            later,
            has_backup,
            mod_path,
            symlink,
            backup_dir,
            backup_names,
        ) == toggles_back(saved.subrange(0, n), later.subrange(0, n)),
    decreases n,
{
    if n > 0 {
        let es = entries_of(saved).subrange(0, n);
        assert(es.drop_last() =~= entries_of(saved).subrange(0, n - 1));
        assert(saved.subrange(0, n).drop_last() =~= saved.subrange(0, n - 1));
        assert(later.subrange(0, n).drop_last() =~= later.subrange(0, n - 1));
        lemma_toggles_back_prefix(
            saved,
            later,
            n - 1,
            has_backup,
            mod_path,
            symlink,
            backup_dir,
            backup_names,
        );
        lemma_current_for_unique(later, n - 1);
        assert(later[n - 1].key@ == saved[n - 1].key@);
        assert(es.last().key == later[n - 1].key@);
        assert(es.last().enabled == saved[n - 1].enabled);
    }
}

/// Restoring a point recorded from `saved` against a later scan of the same
/// mods (the same keys in the same order, no key twice) switches exactly
/// the mods whose state changed since, each back to its recorded state, and
/// recreates nothing.
pub proof fn law_restore_reapplies_recorded_state(
    saved: Seq<ModInfo>,
    later: Seq<ModInfo>,
    has_backup: bool,
    mod_path: Seq<char>,
    symlink: bool,
    backup_dir: Seq<char>,
    backup_names: Seq<Seq<char>>,
)
    requires
        saved.len() == later.len(),
        forall|i: int| 0 <= i < later.len() ==> #[trigger] later[i].key@ == saved[i].key@,
        forall|a: int, b: int| 0 <= a < b < later.len() ==> later[a].key@ != later[b].key@,
    ensures
        restore_plan(entries_of(saved), later, has_backup, mod_path, symlink, backup_dir, backup_names)
            == toggles_back(saved, later),
{
    let n = later.len() as int;
    lemma_toggles_back_prefix(saved, later, n, has_backup, mod_path, symlink, backup_dir, backup_names);
    assert(entries_of(saved).subrange(0, n) =~= entries_of(saved));
    assert(saved.subrange(0, n) =~= saved);
    assert(later.subrange(0, n) =~= later);
}

/// What restoring point `i` of `points` gives, given the scan result.
pub open spec fn restored_as(
    points: Seq<PointModel>,
    i: int,
    scan: Result<Vec<ModInfo>, String>,
    mod_path: Seq<char>,
    symlink: bool,
    backup_dir: Seq<char>,
    backup_names: Seq<Seq<char>>,
    r: Result<Vec<RestoreAction>, String>,
) -> bool {
    match scan {
        Err(e) => r matches Err(e2) && e2@ == e@,
        Ok(mods) => r matches Ok(plan) && actions_view(plan@) == restore_plan(
            points[i].mods,
            mods@,
            points[i].has_file_backup,
            mod_path,
            symlink,
            backup_dir,
            backup_names,
        ),
    }
}

fn current_for_exec(mods: &Vec<ModInfo>, key: &String) -> (r: Option<usize>)
    ensures
        match r {
            Some(j) => current_for(mods@, key@) == Some(j as int),
            None => current_for(mods@, key@) is None,
        },
{
    let kv: Vec<char> = chars_of(key.as_str());
    let mut i: usize = mods.len();
    assert(mods@.subrange(0, mods.len() as int) =~= mods@);
    while i > 0
        invariant
            i <= mods.len(),
            kv@ == key@,
            current_for(mods@, key@) == current_for(mods@.subrange(0, i as int), key@),
        decreases i,
    {
        let cur: Vec<char> = chars_of(mods[i - 1].key.as_str());
        assert(mods@.subrange(0, i as int).last() == mods@[i - 1]);
        if chars_eq(&cur, &kv) {
            return Some(i - 1);
        }
        assert(mods@.subrange(0, i as int).drop_last() =~= mods@.subrange(0, i - 1));
        i = i - 1;
    }
    None
}

fn recreate_exec(mod_path: &str, symlink: bool, e: &SnapshotEntry, source: String) -> (r:
    RestoreAction)
    ensures
        action_view(r) == recreate_action(mod_path@, symlink, entry_view(*e), source@),
{
    let base: String = base_name_of(e.key.as_str());
    let cv: Vec<char> = chars_of(e.category.as_str());
    let unc: bool = eq_str(&cv, UNCATEGORIZED);
    if symlink {
        let src: String = join_path(mod_path, MANAGED_SRC);
        let parent: String = if unc {
            src
        } else {
            join_path(src.as_str(), e.category.as_str())
        };
        let tgt: String = join_path(mod_path, MANAGED_TGT);
        let link_parent: String = if unc {
            tgt
        } else {
            join_path(tgt.as_str(), e.category.as_str())
        };
        let dest: String = join_path(parent.as_str(), base.as_str());
        let mut m: Vec<char> = chars_of("A folder named '");
        append_str(&mut m, base.as_str());
        append_str(&mut m, "' already exists in managed_src");
        let link: Option<(String, String)> = if e.enabled {
            let l: String = join_path(link_parent.as_str(), base.as_str());
            Some((link_parent, l))
        } else {
            None
        };
        RestoreAction::Recreate {
            key: e.key.clone(),
            source,
            dest_parent: parent,
            dest,
            conflict_message: string_of(&m),
            link,
        }
    } else {
        let folder: String = if e.enabled {
            base
        } else {
            let mut v: Vec<char> = chars_of(DISABLED_PREFIX);
            append_str(&mut v, base.as_str());
            string_of(&v)
        };
        let parent: String = if unc {
            lit(mod_path)
        } else {
            join_path(mod_path, e.category.as_str())
        };
        let dest: String = join_path(parent.as_str(), folder.as_str());
        let mut m: Vec<char> = chars_of("A folder named '");
        append_str(&mut m, folder.as_str());
        append_str(&mut m, "' already exists");
        RestoreAction::Recreate {
            key: e.key.clone(),
            source,
            dest_parent: parent,
            dest,
            conflict_message: string_of(&m),
            link: None,
        }
    }
}

/// Restores the first restore point with identifier `restore_point_id` to
/// the scanned mod folder: the steps to take (see `restore_plan`), given the
/// point's backup folder and the names present in it. Every step is about a
/// mod recorded in the snapshot: mods added since are never touched.
pub fn restore(
    points: &Vec<RestorePoint>,
    restore_point_id: &str,
    snapshot: &ModDirSnapshot,
    backup_dir: &str,
    backup_names: &Vec<String>,
) -> (r: Result<Vec<RestoreAction>, String>)
    ensures
        !has_point(points_view(points@), restore_point_id@) ==> (r matches Err(e) && e@
            == point_not_found_message(restore_point_id@)),
        forall|i: int|
            first_point(points_view(points@), restore_point_id@, i) ==> exists|
                scan: Result<Vec<ModInfo>, String>,
            |
                #![trigger scan_outcome(*snapshot, scan)]
                scan_outcome(*snapshot, scan) && restored_as(
                    points_view(points@),
                    i,
                    scan,
                    snapshot.mod_path@,
                    snapshot.managed_src_is_dir,
                    backup_dir@,
                    names_view(backup_names@),
                    r,
                ),
        forall|i: int|
            first_point(points_view(points@), restore_point_id@, i) ==> (r matches Ok(plan)
                ==> forall|k: int|
                0 <= k < plan@.len() ==> exists|j: int|
                    0 <= j < points_view(points@)[i].mods.len() && #[trigger] action_key(
                        actions_view(plan@)[k],
                    ) == points_view(points@)[i].mods[j].key),
{
    let i: usize = match find_point(points, restore_point_id) {
        None => {
            return Err(point_not_found(restore_point_id));
        },
        Some(i) => i,
    };
    let point: &RestorePoint = &points[i];
    let ghost pm = points_view(points@)[i as int];
    assert(pm == point@);
    let scan = scan_mods(snapshot);
    let mods: &Vec<ModInfo> = match &scan {
        Err(e) => {
            let r = Err(e.clone());
            assert(restored_as(
                points_view(points@),
                i as int,
                scan,
                snapshot.mod_path@,
                snapshot.managed_src_is_dir,
                backup_dir@,
                names_view(backup_names@),
                r,
            ));
            return r;
        },
        Ok(m) => m,
    };
    let symlink: bool = snapshot.managed_src_is_dir;
    let ghost ev = entries_view(point.mods@);
    let mut plan: Vec<RestoreAction> = Vec::new();
    let mut k: usize = 0;
    while k < point.mods.len()
        invariant
            k <= point.mods.len(),
            ev == entries_view(point.mods@),
            pm == point@,
            symlink == snapshot.managed_src_is_dir,
            actions_view(plan@) == restore_plan(
                ev.subrange(0, k as int),
                mods@,
                pm.has_file_backup,
                snapshot.mod_path@,
                symlink,
                backup_dir@,
                names_view(backup_names@),
            ),
            forall|q: int|
                0 <= q < plan@.len() ==> exists|j: int|
                    0 <= j < k && #[trigger] action_key(actions_view(plan@)[q]) == ev[j].key,
        decreases point.mods.len() - k,
    {
        let ghost pre = ev.subrange(0, k as int);
        let ghost prev = plan@;
        let e: &SnapshotEntry = &point.mods[k];
        assert(entry_view(*e) == ev[k as int]);
        proof {
            lemma_current_for(mods@, e.key@);
        }
        let step: Option<RestoreAction> = match current_for_exec(mods, &e.key) {
            Some(j) => if mods[j].enabled != e.enabled {
                Some(
                    RestoreAction::Toggle {
                        key: e.key.clone(),
                        path: mods[j].path.clone(),
                        category: mods[j].category.clone(),
                        enable: e.enabled,
                    },
                )
            } else {
                None
            },
            None => {
                let folder: String = sanitize_key(e.key.as_str());
                if !point.has_file_backup || !contains_name(backup_names, folder.as_str()) {
                    Some(RestoreAction::Unrecoverable { key: e.key.clone() })
                } else {
                    let source: String = join_path(backup_dir, folder.as_str());
                    Some(recreate_exec(snapshot.mod_path.as_str(), symlink, e, source))
                }
            },
        };
        match step {
            Some(a) => {
                let ghost av = action_view(a);
                plan.push(a);
                assert(actions_view(plan@) =~= actions_view(prev).push(av));
            },
            None => {},
        }
        k = k + 1;
        proof {
            let post = ev.subrange(0, k as int);
            assert(post.drop_last() =~= pre);
            assert(post.last() == ev[k - 1]);
            assert forall|q: int| 0 <= q < plan@.len() implies exists|j: int|
                0 <= j < k && #[trigger] action_key(actions_view(plan@)[q]) == ev[j].key by {
                if q < prev.len() {
                    assert(actions_view(plan@)[q] == actions_view(prev)[q]);
                } else {
                    assert(action_key(actions_view(plan@)[q]) == ev[k - 1].key);
                }
            }
        }
    }
    assert(ev.subrange(0, point.mods.len() as int) =~= ev);
    let r = Ok(plan);
    assert(restored_as(
        points_view(points@),
        i as int,
        scan,
        snapshot.mod_path@,
        snapshot.managed_src_is_dir,
        backup_dir@,
        names_view(backup_names@),
        r,
    ));
    r
}

pub open spec fn is_switch_to(a: ActionModel, enable: bool) -> bool {
    match a {
        ActionModel::Toggle(_, _, _, en) => en == enable,
        _ => false,
    }
}

/// How many of the first `n` steps were switches in direction `enable` that
/// succeeded.
pub open spec fn switched(plan: Seq<ActionModel>, outcomes: Seq<Result<(), String>>, n: int, enable: bool) -> nat
    decreases n,
{
    if n <= 0 {
        0
    } else {
        switched(plan, outcomes, n - 1, enable) + if outcomes[n - 1] is Ok && is_switch_to(
            plan[n - 1],
            enable,
        ) {
            1nat
        } else {
            0nat
        }
    }
}

/// How many of the first `n` steps recreated a mod.
pub open spec fn recreated(plan: Seq<ActionModel>, outcomes: Seq<Result<(), String>>, n: int) -> nat
    decreases n,
{
    if n <= 0 {
        0
    } else {
        recreated(plan, outcomes, n - 1) + if outcomes[n - 1] is Ok && plan[n - 1] is Recreate {
            1nat
        } else {
            0nat
        }
    }
}

/// The keys of the unrecoverable mods among the first `n` steps.
pub open spec fn unrecoverable_keys(plan: Seq<ActionModel>, n: int) -> Seq<Seq<char>>
    decreases n,
{
    if n <= 0 {
        Seq::<Seq<char>>::empty()
    } else {
        match plan[n - 1] {
            ActionModel::Unrecoverable(k) => unrecoverable_keys(plan, n - 1).push(k),
            _ => unrecoverable_keys(plan, n - 1),
        }
    }
}

/// The messages of the failed steps among the first `n`: the key, a colon,
/// and the error.
pub open spec fn step_errors(plan: Seq<ActionModel>, outcomes: Seq<Result<(), String>>, n: int) -> Seq<
    Seq<char>,
>
    decreases n,
{
    if n <= 0 {
        Seq::<Seq<char>>::empty()
    } else {
        match outcomes[n - 1] {
            Err(e) => if plan[n - 1] is Unrecoverable {
                step_errors(plan, outcomes, n - 1)
            } else {
                step_errors(plan, outcomes, n - 1).push(action_key(plan[n - 1]) + ": "@ + e@)
            },
            Ok(_) => step_errors(plan, outcomes, n - 1),
        }
    }
}

proof fn lemma_counts_bound(plan: Seq<ActionModel>, outcomes: Seq<Result<(), String>>, n: int)
    requires
        n >= 0,
    ensures
        switched(plan, outcomes, n, true) <= n,
        switched(plan, outcomes, n, false) <= n,
        recreated(plan, outcomes, n) <= n,
    decreases n,
{
    if n > 0 {
        lemma_counts_bound(plan, outcomes, n - 1);
    }
}

/// The outcome of a restore from the outcomes of its steps (`outcomes[i]`
/// is that of `plan[i]`; an unrecoverable step's outcome is not looked at).
pub fn tally_restore(plan: &Vec<RestoreAction>, outcomes: &Vec<Result<(), String>>) -> (r:
    RestoreResult)
    requires
        plan@.len() == outcomes@.len(),
        plan@.len() <= u32::MAX,
    ensures
        r.enabled_count == switched(actions_view(plan@), outcomes@, plan@.len() as int, true),
        r.disabled_count == switched(actions_view(plan@), outcomes@, plan@.len() as int, false),
        r.recreated_count == recreated(actions_view(plan@), outcomes@, plan@.len() as int),
        names_view(r.unrecoverable@) == unrecoverable_keys(actions_view(plan@), plan@.len() as int),
        names_view(r.errors@) == step_errors(actions_view(plan@), outcomes@, plan@.len() as int),
{
    let ghost pv = actions_view(plan@);
    let mut enabled_count: u32 = 0;
    let mut disabled_count: u32 = 0;
    let mut recreated_count: u32 = 0;
    let mut unrecoverable: Vec<String> = Vec::new();
    let mut errors: Vec<String> = Vec::new();
    let mut k: usize = 0;
    while k < plan.len()
        invariant
            k <= plan.len(),
            pv == actions_view(plan@),
            plan@.len() == outcomes@.len(),
            plan@.len() <= u32::MAX,
            enabled_count == switched(pv, outcomes@, k as int, true),
            disabled_count == switched(pv, outcomes@, k as int, false),
            recreated_count == recreated(pv, outcomes@, k as int),
            names_view(unrecoverable@) == unrecoverable_keys(pv, k as int),
            names_view(errors@) == step_errors(pv, outcomes@, k as int),
        decreases plan.len() - k,
    {
        proof {
            lemma_counts_bound(pv, outcomes@, k as int);
        }
        assert(pv[k as int] == action_view(plan@[k as int]));
        let ghost pu = unrecoverable@;
        let ghost pe = errors@;
        match &plan[k] {
            RestoreAction::Unrecoverable { key } => {
                unrecoverable.push(key.clone());
                assert(names_view(unrecoverable@) =~= names_view(pu).push(key@));
            },
            RestoreAction::Toggle { key, enable, .. } => match &outcomes[k] {
                Ok(()) => {
                    if *enable {
                        enabled_count = enabled_count + 1;
                    } else {
                        disabled_count = disabled_count + 1;
                    }
                },
                Err(e) => {
                    let mut v: Vec<char> = chars_of(key.as_str());
                    append_str(&mut v, ": ");
                    append_str(&mut v, e.as_str());
                    let msg: String = string_of(&v);
                    errors.push(msg);
                    assert(names_view(errors@) =~= names_view(pe).push(msg@));
                },
            },
            RestoreAction::Recreate { key, .. } => match &outcomes[k] {
                Ok(()) => {
                    recreated_count = recreated_count + 1;
                },
                Err(e) => {
                    let mut v: Vec<char> = chars_of(key.as_str());
                    append_str(&mut v, ": ");
                    append_str(&mut v, e.as_str());
                    let msg: String = string_of(&v);
                    errors.push(msg);
                    assert(names_view(errors@) =~= names_view(pe).push(msg@));
                },
            },
        }
        k = k + 1;
    }
    RestoreResult { enabled_count, disabled_count, recreated_count, unrecoverable, errors }
}

} // verus!
