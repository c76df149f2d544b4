//! Moving a game from the legacy `DISABLED_` layout to the symlink layout.
//!
//! Every legacy mod moves into `managed_src/<category folder>/<clean name>`;
//! the enabled ones get a link in `managed_tgt`; `d3dx_user.ini` keys follow
//! the moved folders. A game already in the symlink layout is left as it is.
//! The moves happen around these functions, one mod at a time, and their
//! outcomes are recorded here.

use vstd::prelude::*;
use crate::keys::join_with;
use crate::mods::{
    scan_mods, scan_outcome, strip_disabled, strip_disabled_prefix, ModDirSnapshot, ModInfo,
    MANAGED_SRC, MANAGED_TGT, UNCATEGORIZED,
};
use crate::paths::{
    base_name, base_name_of, components, components_of, join, join_path, parent_of,
    parent_path_of, path_starts_with, path_starts_with_exec,
};
use crate::text::{append_chars, append_str, chars_of, eq_str, lit, string_of};

verus! {

/// The layout of a game's mod folder.
#[derive(Debug)]
pub struct LayoutStatus {
    pub mod_path: String,
    /// The symlink layout (`managed_src`) is active.
    pub is_symlink_layout: bool,
    /// Legacy mods are waiting to be moved (never in the symlink layout).
    pub has_legacy_mods: bool,
    /// How many legacy mods there are (0 in the symlink layout).
    pub legacy_mod_count: usize,
}

/// What the layout of the scanned mod folder is, given the scan result
/// (a failed scan counts as no legacy mods).
pub open spec fn status_as(snapshot: ModDirSnapshot, scan: Result<Vec<ModInfo>, String>, r: Result<
    LayoutStatus,
    String,
>) -> bool {
    if !snapshot.exists {
        r matches Err(e) && e@ == "Mod directory does not exist: "@ + snapshot.mod_path@
    } else if snapshot.managed_src_is_dir {
        r matches Ok(s) && s.mod_path@ == snapshot.mod_path@ && s.is_symlink_layout
            && !s.has_legacy_mods && s.legacy_mod_count == 0
    } else {
        let n = match scan {
            Ok(m) => m@.len(),
            Err(_) => 0,
        };
        r matches Ok(s) && s.mod_path@ == snapshot.mod_path@ && !s.is_symlink_layout
            && s.has_legacy_mods == (n > 0) && s.legacy_mod_count == n
    }
}

/// The layout of a game's mod folder, for deciding whether to offer the
/// migration.
pub fn get_layout_status(snapshot: &ModDirSnapshot) -> (r: Result<LayoutStatus, String>)
    ensures
        exists|scan: Result<Vec<ModInfo>, String>|
            #![trigger scan_outcome(*snapshot, scan)]
            scan_outcome(*snapshot, scan) && status_as(*snapshot, scan, r),
{
    let scan = scan_mods(snapshot);
    if !snapshot.exists {
        let mut v: Vec<char> = chars_of("Mod directory does not exist: ");
        append_str(&mut v, snapshot.mod_path.as_str());
        let r = Err(string_of(&v));
        assert(status_as(*snapshot, scan, r));
        return r;
    }
    if snapshot.managed_src_is_dir {
        let r = Ok(
            LayoutStatus {
                mod_path: snapshot.mod_path.clone(),
                is_symlink_layout: true,
                has_legacy_mods: false,
                legacy_mod_count: 0,
            },
        );
        assert(status_as(*snapshot, scan, r));
        return r;
    }
    let n: usize = match &scan {
        Ok(m) => m.len(),
        Err(_) => 0,
    };
    let r = Ok(
        LayoutStatus {
            mod_path: snapshot.mod_path.clone(),
            is_symlink_layout: false,
            has_legacy_mods: n > 0,
            legacy_mod_count: n,
        },
    );
    assert(status_as(*snapshot, scan, r));
    r
}

// ---------------------------------------------------------------------------
// d3dx_user.ini key fragments
// ---------------------------------------------------------------------------

/// The key fragment 3DMigoto uses for a legacy folder: `\mods\<folder>\` for
/// an uncategorized mod, `\mods\<category>\<folder>\` otherwise.
pub open spec fn ini_segment(category: Seq<char>, folder: Seq<char>) -> Seq<char> {
    if category == UNCATEGORIZED@ {
        "\\mods\\"@ + folder + "\\"@
    } else {
        "\\mods\\"@ + category + "\\"@ + folder + "\\"@
    }
}

pub fn build_ini_segment(category: &str, folder_name: &str) -> (r: String)
    ensures
        r@ == ini_segment(category@, folder_name@),
{
    let cv: Vec<char> = chars_of(category);
    let mut v: Vec<char> = chars_of("\\mods\\");
    if !eq_str(&cv, UNCATEGORIZED) {
        append_str(&mut v, category);
        append_str(&mut v, "\\");
    }
    append_str(&mut v, folder_name);
    append_str(&mut v, "\\");
    string_of(&v)
}

/// The key fragment of a folder moved into `managed_src`: its path below
/// the mod folder with `\` separators, between backslashes; or, when it is
/// not below the mod folder, `\mods\managed_src\<category>\<name>\`.
pub open spec fn src_segment(src_dest: Seq<char>, mod_path: Seq<char>) -> Seq<char> {
    if path_starts_with(src_dest, mod_path) {
        let rest = components(src_dest).subrange(
            components(mod_path).len() as int,
            components(src_dest).len() as int,
        );
        "\\"@ + join_with(rest, seq!['\\']) + "\\"@
    } else {
        let cat = match parent_of(src_dest) {
            Some(p) => base_name(p),
            None => Seq::<char>::empty(),
        };
        "\\mods\\"@ + MANAGED_SRC@ + "\\"@ + cat + "\\"@ + base_name(src_dest) + "\\"@
    }
}

pub fn build_ini_segment_from_src(src_dest: &str, mod_path: &str) -> (r: String)
    ensures
        r@ == src_segment(src_dest@, mod_path@),
{
    if path_starts_with_exec(src_dest, mod_path) {
        let dc: Vec<Vec<char>> = components_of(src_dest);
        let mc: Vec<Vec<char>> = components_of(mod_path);
        let ghost dv = dc@.map_values(|x: Vec<char>| x@);
        let mut v: Vec<char> = Vec::new();
        v.push('\\');
        let mut k: usize = mc.len();
        let ghost lo = mc@.len() as int;
        assert(lo == components(mod_path@).len());
        assert(dv.len() == dc@.len());
        assert(dv == components(src_dest@));
        while k < dc.len()
            invariant
                lo <= k <= dc.len(),
                lo == mc@.len(),
                dv == dc@.map_values(|x: Vec<char>| x@),
                dv.len() == dc@.len(),
                v@ == seq!['\\'] + join_with(dv.subrange(lo, k as int), seq!['\\']),
            decreases dc.len() - k,
        {
            let ghost pre = dv.subrange(lo, k as int);
            let ghost before = v@;
            if k > mc.len() {
                v.push('\\');
            }
            append_chars(&mut v, &dc[k]);
            k = k + 1;
            proof {
                let post = dv.subrange(lo, k as int);
                assert(post.drop_last() =~= pre);
                assert(post.last() == dc@[k - 1]@);
                if k - 1 == lo {
                    assert(join_with(post, seq!['\\']) == post[0]);
                    assert(v@ =~= seq!['\\'] + join_with(post, seq!['\\']));
                } else {
                    assert(v@ =~= seq!['\\'] + (join_with(pre, seq!['\\']) + seq!['\\']
                        + post.last()));
                }
            }
        }
        append_str(&mut v, "\\");
        assert(v@ =~= "\\"@ + join_with(dv.subrange(lo, dv.len() as int), seq!['\\']) + "\\"@) by {
            reveal_strlit("\\");
        }
        string_of(&v)
    } else {
        let cat: String = match parent_path_of(src_dest) {
            Some(p) => base_name_of(p.as_str()),
            None => lit(""),
        };
        proof {
            reveal_strlit("");
        }
        let name: String = base_name_of(src_dest);
        let mut v: Vec<char> = chars_of("\\mods\\");
        append_str(&mut v, MANAGED_SRC);
        append_str(&mut v, "\\");
        append_str(&mut v, cat.as_str());
        append_str(&mut v, "\\");
        append_str(&mut v, name.as_str());
        append_str(&mut v, "\\");
        string_of(&v)
    }
}

// ---------------------------------------------------------------------------
// Planning and recording the moves
// ---------------------------------------------------------------------------

/// What the migration does first.
#[derive(Debug)]
pub enum MigrationStart {
    /// The symlink layout is already in place: nothing to do.
    AlreadyMigrated,
    /// Take the restore point (when asked for), then plan the moves.
    Proceed,
}

/// Whether to migrate the scanned mod folder: refused when it does not
/// exist, nothing to do when it already uses the symlink layout.
pub fn migrate_to_symlink_layout(snapshot: &ModDirSnapshot) -> (r: Result<MigrationStart, String>)
    ensures
        !snapshot.exists ==> (r matches Err(e) && e@ == "Mod directory does not exist: "@
            + snapshot.mod_path@),
        snapshot.exists && snapshot.managed_src_is_dir ==> r matches Ok(
            MigrationStart::AlreadyMigrated,
        ),
        snapshot.exists && !snapshot.managed_src_is_dir ==> r matches Ok(MigrationStart::Proceed),
{
    if !snapshot.exists {
        let mut v: Vec<char> = chars_of("Mod directory does not exist: ");
        append_str(&mut v, snapshot.mod_path.as_str());
        return Err(string_of(&v));
    }
    if snapshot.managed_src_is_dir {
        Ok(MigrationStart::AlreadyMigrated)
    } else {
        Ok(MigrationStart::Proceed)
    }
}

/// The message when the restore point before a migration fails.
pub fn restore_point_failed_message(error: &str) -> (r: String)
    ensures
        r@ == "Failed to create pre-migration restore point: "@ + error@,
{
    let mut v: Vec<char> = chars_of("Failed to create pre-migration restore point: ");
    append_str(&mut v, error);
    string_of(&v)
}

/// Where the `d3dx_user.ini` that the keys live in is looked for: beside
/// the mod folder.
pub fn migration_ini_path(mod_path: &str) -> (r: Option<String>)
    ensures
        match r {
            Some(p) => parent_of(mod_path@) matches Some(q) && p@ == join(q, "d3dx_user.ini"@),
            None => parent_of(mod_path@) is None,
        },
{
    match parent_path_of(mod_path) {
        Some(p) => Some(join_path(p.as_str(), "d3dx_user.ini")),
        None => None,
    }
}

/// The move of one legacy mod.
#[derive(Debug)]
pub struct ModMigrationPlan {
    pub key: String,
    pub was_enabled: bool,
    /// The mod's current folder.
    pub from: String,
    /// The folder to create inside `managed_src`, then the mod's new folder.
    pub dest_parent: String,
    pub dest: String,
    /// For an enabled mod: the folder for its link and the link itself.
    pub link: Option<(String, String)>,
    /// The `d3dx_user.ini` key fragments before and after the move.
    pub old_segment: String,
    pub new_segment: String,
}

/// The category folder of a legacy mod: the name of its folder's parent,
/// or its category when the path has no parent.
pub open spec fn category_folder(m: ModInfo) -> Seq<char> {
    match parent_of(m.path@) {
        Some(p) => base_name(p),
        None => m.category@,
    }
}

/// `p` is the move of legacy mod `m` into the symlink layout of `mod_path`.
pub open spec fn plans_move(p: ModMigrationPlan, m: ModInfo, mod_path: Seq<char>) -> bool {
    let clean = strip_disabled(m.folder_name@);
    let unc = m.category@ == UNCATEGORIZED@;
    let src = join(mod_path, MANAGED_SRC@);
    let tgt = join(mod_path, MANAGED_TGT@);
    let parent = if unc {
        src
    } else {
        join(src, category_folder(m))
    };
    let link_parent = if unc {
        tgt
    } else {
        join(tgt, category_folder(m))
    };
    &&& p.key@ == m.key@
    &&& p.was_enabled == m.enabled
    &&& p.from@ == m.path@
    &&& p.dest_parent@ == parent
    &&& p.dest@ == join(parent, clean)
    &&& match p.link {
        Some(l) => m.enabled && l.0@ == link_parent && l.1@ == join(link_parent, clean),
        None => !m.enabled,
    }
    &&& p.old_segment@ == ini_segment(m.category@, m.folder_name@)
    &&& p.new_segment@ == src_segment(join(parent, clean), mod_path)
}

/// The move of one legacy mod (see `plans_move`).
pub fn plan_mod_migration(m: &ModInfo, mod_path: &str) -> (r: ModMigrationPlan)
    ensures
        plans_move(r, *m, mod_path@),
{
    let clean: &str = strip_disabled_prefix(m.folder_name.as_str());
    let cv: Vec<char> = chars_of(m.category.as_str());
    let unc: bool = eq_str(&cv, UNCATEGORIZED);
    let src: String = join_path(mod_path, MANAGED_SRC);
    let tgt: String = join_path(mod_path, MANAGED_TGT);
    let cat_dir: String = match parent_path_of(m.path.as_str()) {
        Some(p) => base_name_of(p.as_str()),
        None => m.category.clone(),
    };
    let parent: String = if unc {
        src
    } else {
        join_path(src.as_str(), cat_dir.as_str())
    };
    let link_parent: String = if unc {
        tgt
    } else {
        join_path(tgt.as_str(), cat_dir.as_str())
    };
    let dest: String = join_path(parent.as_str(), clean);
    let link: Option<(String, String)> = if m.enabled {
        let l: String = join_path(link_parent.as_str(), clean);
        Some((link_parent, l))
    } else {
        None
    };
    let new_segment: String = build_ini_segment_from_src(dest.as_str(), mod_path);
    ModMigrationPlan {
        key: m.key.clone(),
        was_enabled: m.enabled,
        from: m.path.clone(),
        dest_parent: parent,
        dest,
        link,
        old_segment: build_ini_segment(m.category.as_str(), m.folder_name.as_str()),
        new_segment,
    }
}

/// The category the symlink-layout scan finds a moved mod under: none when
/// it sits directly in `managed_src`, else that of its category folder.
pub open spec fn moved_category(m: ModInfo) -> Seq<char> {
    if m.category@ == UNCATEGORIZED@ {
        UNCATEGORIZED@
    } else {
        crate::mods::display(category_folder(m))
    }
}

/// Migration keeps what identifies a mod: a legacy mod `m`, found in folder
/// `f` under the category of the folder holding it, is moved to a folder
/// that the symlink-layout scan describes with the same key, and enabled
/// exactly when `m` was (its link is made just for an enabled mod).
pub proof fn law_migration_keeps_key_and_state(
    m: ModInfo,
    f: crate::mods::FolderInfo,
    mod_path: Seq<char>,
    p: ModMigrationPlan,
    g: crate::mods::FolderInfo,
    moved: ModInfo,
)
    requires
        crate::mods::describes(m, f, m.category@, false),
        m.category@ == UNCATEGORIZED@ || m.category@ == crate::mods::display(category_folder(m)),
        !f.name@.contains('/'),
        plans_move(p, m, mod_path),
        g.name@ == base_name(p.dest@),
        g.link_present == (p.link is Some),
        crate::mods::describes(moved, g, moved_category(m), true),
    ensures
        g.name@ == strip_disabled(m.folder_name@),
        moved.key@ == m.key@,
        moved.enabled == m.enabled,
{
    let clean = strip_disabled(m.folder_name@);
    assert(!clean.contains('/')) by {
        if clean.contains('/') {
            let j = choose|j: int| 0 <= j < clean.len() && clean[j] == '/';
            if clean =~= m.folder_name@ {
                assert(f.name@.contains(clean[j]));
            } else {
                assert(clean[j] == m.folder_name@[j + 9]);
                assert(f.name@.contains(m.folder_name@[j + 9]));
            }
        }
    }
    let src = join(mod_path, MANAGED_SRC@);
    reveal_strlit("managed_src");
    assert(src.len() > 0);
    let parent = if m.category@ == UNCATEGORIZED@ {
        src
    } else {
        join(src, category_folder(m))
    };
    assert(parent.len() > 0);
    crate::paths::lemma_base_name_join(parent, clean);
}

pub open spec fn plans_view(plans: Seq<ModMigrationPlan>, mods: Seq<ModInfo>, mod_path: Seq<char>) -> bool {
    &&& plans.len() == mods.len()
    &&& forall|i: int| 0 <= i < plans.len() ==> plans_move(#[trigger] plans[i], mods[i], mod_path)
}

/// The moves of every legacy mod of the scanned folder, in scan order; a
/// failed scan is passed on.
pub fn plan_migration(snapshot: &ModDirSnapshot) -> (r: Result<Vec<ModMigrationPlan>, String>)
    ensures
        exists|scan: Result<Vec<ModInfo>, String>|
            #![trigger scan_outcome(*snapshot, scan)]
            scan_outcome(*snapshot, scan) && match scan {
                Err(e) => r matches Err(e2) && e2@ == e@,
                Ok(mods) => r matches Ok(plans) && plans_view(plans@, mods@, snapshot.mod_path@),
            },
{
    let scan = scan_mods(snapshot);
    let mods: &Vec<ModInfo> = match &scan {
        Err(e) => {
            return Err(e.clone());
        },
        Ok(m) => m,
    };
    let mut plans: Vec<ModMigrationPlan> = Vec::new();
    let mut k: usize = 0;
    while k < mods.len()
        invariant
            k <= mods.len(),
            plans@.len() == k,
            forall|i: int|
                0 <= i < k ==> plans_move(#[trigger] plans@[i], mods@[i], snapshot.mod_path@),
        decreases mods.len() - k,
    {
        plans.push(plan_mod_migration(&mods[k], snapshot.mod_path.as_str()));
        k = k + 1;
    }
    Ok(plans)
}

/// Why a mod's move failed.
#[derive(Debug)]
pub enum MigrationStepError {
    /// Its folder inside `managed_src` could not be created.
    SrcDir(String),
    /// Its destination already exists.
    DestinationExists,
    /// Moving the folder failed.
    Move(String),
    /// The folder for its link could not be created.
    TgtDir(String),
    /// Creating its link failed.
    Link(String),
}

/// Per-mod outcome of a migration.
#[derive(Debug)]
pub struct ModMigrationEntry {
    pub key: String,
    pub was_enabled: bool,
    pub success: bool,
    pub error: Option<String>,
}

/// Overall outcome of a migration.
#[derive(Debug)]
pub struct MigrationResult {
    pub migrated_count: usize,
    pub skipped_count: usize,
    pub errors: Vec<String>,
    pub entries: Vec<ModMigrationEntry>,
    /// The restore point taken before the migration, if any.
    pub restore_point_id: Option<String>,
}

/// The outcome of a migration before any mod has moved.
pub fn empty_migration_result(restore_point_id: Option<String>) -> (r: MigrationResult)
    ensures
        r.migrated_count == 0,
        r.skipped_count == 0,
        r.errors@.len() == 0,
        r.entries@.len() == 0,
        r.restore_point_id == restore_point_id,
{
    MigrationResult {
        migrated_count: 0,
        skipped_count: 0,
        errors: Vec::new(),
        entries: Vec::new(),
        restore_point_id,
    }
}

/// The message for a failed move of the mod with key `key`.
pub open spec fn step_message(key: Seq<char>, e: MigrationStepError) -> Seq<char> {
    key + ": "@ + match e {
        MigrationStepError::SrcDir(x) => "failed to create src dir: "@ + x@,
        MigrationStepError::DestinationExists => "destination already exists in managed_src, skipping"@,
        MigrationStepError::Move(x) => x@,
        MigrationStepError::TgtDir(x) => "failed to create tgt dir: "@ + x@,
        MigrationStepError::Link(x) => x@,
    }
}

/// How `entry` reports the move `plan` whose outcome was `outcome`.
pub open spec fn reports_step(
    entry: ModMigrationEntry,
    plan: ModMigrationPlan,
    outcome: Result<(), MigrationStepError>,
) -> bool {
    &&& entry.key@ == plan.key@
    &&& entry.was_enabled == plan.was_enabled
    &&& entry.success == (outcome is Ok)
    &&& match outcome {
        Ok(()) => entry.error is None,
        Err(e) => entry.error matches Some(m) && m@ == step_message(plan.key@, e),
    }
}

/// How many of the moves succeeded.
pub open spec fn count_moved(outcomes: Seq<Result<(), MigrationStepError>>) -> nat
    decreases outcomes.len(),
{
    if outcomes.len() == 0 {
        0
    } else {
        count_moved(outcomes.drop_last()) + if outcomes.last() is Ok {
            1nat
        } else {
            0nat
        }
    }
}

/// The messages of the failed moves, in the order of the moves.
pub open spec fn step_errors(
    plans: Seq<ModMigrationPlan>,
    outcomes: Seq<Result<(), MigrationStepError>>,
) -> Seq<Seq<char>>
    decreases outcomes.len(),
{
    if outcomes.len() == 0 || plans.len() == 0 {
        Seq::empty()
    } else {
        step_errors(plans.drop_last(), outcomes.drop_last()) + match outcomes.last() {
            Ok(()) => Seq::<Seq<char>>::empty(),
            Err(e) => seq![step_message(plans.last().key@, e)],
        }
    }
}

/// `r` is the outcome of a migration that took restore point `rp` and then
/// carried out `plans`, the move of `plans[i]` ending in `outcomes[i]`.
pub open spec fn tallies(
    r: MigrationResult,
    plans: Seq<ModMigrationPlan>,
    outcomes: Seq<Result<(), MigrationStepError>>,
    rp: Option<String>,
) -> bool {
    &&& r.restore_point_id == rp
    &&& r.entries@.len() == plans.len()
    &&& forall|i: int|
        0 <= i < plans.len() ==> reports_step(#[trigger] r.entries@[i], plans[i], outcomes[i])
    &&& r.migrated_count == count_moved(outcomes)
    &&& r.migrated_count + r.skipped_count == plans.len()
    &&& r.errors@.len() == r.skipped_count
    &&& r.errors@.map_values(|e: String| e@) == step_errors(plans, outcomes)
}

/// Records the outcome of one mod's move: a success counts as migrated; a
/// failure is reported, counted as skipped, and the migration goes on.
pub fn record_mod_migration(
    result: &mut MigrationResult,
    plan: &ModMigrationPlan,
    outcome: &Result<(), MigrationStepError>,
)
    requires
        old(result).migrated_count < usize::MAX,
        old(result).skipped_count < usize::MAX,
    ensures
        final(result).restore_point_id == old(result).restore_point_id,
        final(result).entries@ == old(result).entries@.push(final(result).entries@.last()),
        reports_step(final(result).entries@.last(), *plan, *outcome),
        match *outcome {
            Ok(()) => {
                &&& final(result).migrated_count == old(result).migrated_count + 1
                &&& final(result).skipped_count == old(result).skipped_count
                &&& final(result).errors@ == old(result).errors@
            },
            Err(e) => {
                &&& final(result).migrated_count == old(result).migrated_count
                &&& final(result).skipped_count == old(result).skipped_count + 1
                &&& final(result).errors@ == old(result).errors@.push(final(result).errors@.last())
                &&& final(result).errors@.last()@ == step_message(plan.key@, e)
            },
        },
{
    match outcome {
        Ok(()) => {
            result.migrated_count = result.migrated_count + 1;
            result.entries.push(
                ModMigrationEntry {
                    key: plan.key.clone(),
                    was_enabled: plan.was_enabled,
                    success: true,
                    error: None,
                },
            );
        },
        Err(e) => {
            let mut v: Vec<char> = chars_of(plan.key.as_str());
            append_str(&mut v, ": ");
            match e {
                MigrationStepError::SrcDir(x) => {
                    append_str(&mut v, "failed to create src dir: ");
                    append_str(&mut v, x.as_str());
                },
                MigrationStepError::DestinationExists => {
                    append_str(&mut v, "destination already exists in managed_src, skipping");
                },
                MigrationStepError::Move(x) => {
                    append_str(&mut v, x.as_str());
                },
                MigrationStepError::TgtDir(x) => {
                    append_str(&mut v, "failed to create tgt dir: ");
                    append_str(&mut v, x.as_str());
                },
                MigrationStepError::Link(x) => {
                    append_str(&mut v, x.as_str());
                },
            }
            let msg: String = string_of(&v);
            result.errors.push(msg.clone());
            result.entries.push(
                ModMigrationEntry {
                    key: plan.key.clone(),
                    was_enabled: plan.was_enabled,
                    success: false,
                    error: Some(msg),
                },
            );
            result.skipped_count = result.skipped_count + 1;
            assert(*outcome == Err::<(), MigrationStepError>(*e));
            assert(msg@ == step_message(plan.key@, *e));
        },
    }
}

/// The outcome of a whole migration: the restore point taken before it,
/// then one entry per planned move, in order, with its key, whether the
/// mod was enabled and whether the move succeeded; the failed moves are
/// counted as skipped and their messages collected, and the migration goes
/// on past them.
pub fn tally_migration(
    plans: &Vec<ModMigrationPlan>,
    outcomes: &Vec<Result<(), MigrationStepError>>,
    restore_point_id: Option<String>,
) -> (r: MigrationResult)
    requires
        outcomes@.len() == plans@.len(),
    ensures
        tallies(r, plans@, outcomes@, restore_point_id),
{
    let mut result: MigrationResult = empty_migration_result(restore_point_id);
    let ghost rp = restore_point_id;
    let mut k: usize = 0;
    assert(result.errors@.map_values(|e: String| e@) =~= Seq::<Seq<char>>::empty());
    while k < plans.len()
        invariant
            k <= plans@.len(),
            outcomes@.len() == plans@.len(),
            result.restore_point_id == rp,
            result.entries@.len() == k,
            forall|i: int|
                0 <= i < k ==> reports_step(
                    #[trigger] result.entries@[i],
                    plans@[i],
                    outcomes@[i],
                ),
            result.migrated_count == count_moved(outcomes@.subrange(0, k as int)),
            result.migrated_count + result.skipped_count == k,
            result.errors@.len() == result.skipped_count,
            result.errors@.map_values(|e: String| e@) == step_errors(
                plans@.subrange(0, k as int),
                outcomes@.subrange(0, k as int),
            ),
        decreases plans@.len() - k,
    {
        let ghost before = result.errors@;
        let ghost ps = plans@.subrange(0, k + 1);
        let ghost os = outcomes@.subrange(0, k + 1);
        record_mod_migration(&mut result, &plans[k], &outcomes[k]);
        proof {
            assert(ps.drop_last() =~= plans@.subrange(0, k as int));
            assert(os.drop_last() =~= outcomes@.subrange(0, k as int));
            assert(os.last() == outcomes@[k as int]);
            assert(ps.last() == plans@[k as int]);
            match outcomes@[k as int] {
                Ok(()) => {
                    assert(result.errors@.map_values(|e: String| e@) =~= step_errors(ps, os));
                },
                Err(e) => {
                    assert(result.errors@.map_values(|e: String| e@) =~= before.map_values(
                        |e: String| e@,
                    ).push(step_message(plans@[k as int].key@, e)));
                    assert(result.errors@.map_values(|e: String| e@) =~= step_errors(ps, os));
                },
            }
        }
        k = k + 1;
    }
    assert(plans@.subrange(0, k as int) =~= plans@);
    assert(outcomes@.subrange(0, k as int) =~= outcomes@);
    result
}

/// A migration reports every scanned mod once, in scan order, with its key
/// and whether it was enabled; the migrated and the skipped mods add up to
/// all of them, and each skipped mod has one error.
pub proof fn law_migration_reports_every_mod(
    r: MigrationResult,
    plans: Seq<ModMigrationPlan>,
    mods: Seq<ModInfo>,
    mod_path: Seq<char>,
    outcomes: Seq<Result<(), MigrationStepError>>,
    rp: Option<String>,
)
    requires
        plans_view(plans, mods, mod_path),
        tallies(r, plans, outcomes, rp),
    ensures
        r.entries@.len() == mods.len(),
        forall|i: int|
            0 <= i < mods.len() ==> (#[trigger] r.entries@[i]).key@ == mods[i].key@
                && r.entries@[i].was_enabled == mods[i].enabled,
        r.migrated_count + r.skipped_count == mods.len(),
        r.errors@.len() == r.skipped_count,
        r.restore_point_id == rp,
{
    assert forall|i: int| 0 <= i < mods.len() implies (#[trigger] r.entries@[i]).key@
        == mods[i].key@ && r.entries@[i].was_enabled == mods[i].enabled by {
        assert(plans_move(plans[i], mods[i], mod_path));
        assert(reports_step(r.entries@[i], plans[i], outcomes[i]));
    }
}

} // verus!
