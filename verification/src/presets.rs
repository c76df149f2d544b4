//! Presets: named sets of enabled mods, per game.
//!
//! A preset stores the stable keys (`category/folder`) of the mods that
//! should be enabled; applying it enables exactly those and disables the
//! rest. The preset list of a game is read from and written to a JSON file
//! around these functions.

use vstd::prelude::*;
use crate::ini::opt_view;
use crate::mods::{lowercase, names_view, scan_mods, scan_outcome, unicode_lower, ModDirSnapshot, ModInfo};
use crate::paths::{join, join_path};
use crate::sorting::{order_by_text, sorted_asc};
use crate::text::{append_chars, append_str, chars_eq, chars_of, decimal, decimal_chars, lit, string_of};

verus! {

/// A named snapshot of which mods should be enabled for a game.
#[derive(Debug)]
pub struct Preset {
    pub id: String,
    pub name: String,
    /// Keys of every mod that is enabled when the preset is applied; every
    /// other mod is disabled.
    pub enabled_keys: Vec<String>,
    pub created_at: u64,
    /// Global keyboard shortcut bound to the preset, if any.
    pub hotkey: Option<String>,
}

pub struct PresetModel {
    pub id: Seq<char>,
    pub name: Seq<char>,
    pub enabled_keys: Seq<Seq<char>>,
    pub created_at: u64,
    pub hotkey: Option<Seq<char>>,
}

impl View for Preset {
    type V = PresetModel;

    open spec fn view(&self) -> PresetModel {
        PresetModel {
            id: self.id@,
            name: self.name@,
            enabled_keys: names_view(self.enabled_keys@),
            created_at: self.created_at,
            hotkey: opt_view(self.hotkey),
        }
    }
}

pub open spec fn presets_view(s: Seq<Preset>) -> Seq<PresetModel> {
    s.map_values(|p: Preset| p@)
}

fn copy_names(v: &Vec<String>) -> (r: Vec<String>)
    ensures
        names_view(r@) == names_view(v@),
{
    let mut out: Vec<String> = Vec::new();
    let mut k: usize = 0;
    while k < v.len()
        invariant
            k <= v.len(),
            names_view(out@) == names_view(v@).subrange(0, k as int),
        decreases v.len() - k,
    {
        let ghost prev = out@;
        let c: String = v[k].clone();
        assert(c@ == v@[k as int]@);
        out.push(c);
        assert(names_view(out@) =~= names_view(prev).push(c@));
        k = k + 1;
        assert(names_view(out@) =~= names_view(v@).subrange(0, k as int));
    }
    assert(names_view(v@).subrange(0, v.len() as int) =~= names_view(v@));
    out
}

impl Preset {
    pub fn duplicate(&self) -> (r: Preset)
        ensures
            r@ == self@,
    {
        Preset {
            id: self.id.clone(),
            name: self.name.clone(),
            enabled_keys: copy_names(&self.enabled_keys),
            created_at: self.created_at,
            hotkey: match &self.hotkey {
                Some(h) => Some(h.clone()),
                None => None,
            },
        }
    }
}

/// The outcome of applying a preset: how many mods were switched on and
/// off, and the per-mod failures.
#[derive(Debug)]
pub struct ApplyPresetResult {
    pub enabled_count: u32,
    pub disabled_count: u32,
    pub errors: Vec<String>,
}

/// The folder holding the preset files: `<config dir>/presets`.
pub fn presets_dir(config_dir: &str) -> (r: String)
    ensures
        r@ == join(config_dir@, "presets"@),
{
    join_path(config_dir, "presets")
}

/// A game's preset file: `<config dir>/presets/<game id>.json`.
pub fn presets_path(config_dir: &str, game_id: &str) -> (r: String)
    ensures
        r@ == join(join(config_dir@, "presets"@), game_id@ + ".json"@),
{
    let dir: String = presets_dir(config_dir);
    let mut v: Vec<char> = chars_of(game_id);
    append_str(&mut v, ".json");
    let name: String = string_of(&v);
    join_path(dir.as_str(), name.as_str())
}

pub open spec fn preset_sort_keys(s: Seq<Preset>) -> Seq<Seq<char>> {
    s.map_values(|p: Preset| unicode_lower(p.name@))
}

/// The presets ordered by lower-cased name (presets with the same
/// lower-cased name keep their order).
pub fn list_presets(presets: Vec<Preset>) -> (r: Vec<Preset>)
    ensures
        r@.len() == presets@.len(),
        exists|order: Seq<usize>|
            #![trigger sorted_asc(preset_sort_keys(presets@), order)]
            {
                &&& sorted_asc(preset_sort_keys(presets@), order)
                &&& forall|i: int|
                    0 <= i < r@.len() ==> #[trigger] r@[i]@ == presets@[order[i] as int]@
            },
{
    let mut keys: Vec<Vec<char>> = Vec::new();
    let mut i: usize = 0;
    while i < presets.len()
        invariant
            i <= presets.len(),
            keys@.map_values(|k: Vec<char>| k@) == preset_sort_keys(presets@).subrange(0, i as int),
        decreases presets.len() - i,
    {
        let low: String = lowercase(presets[i].name.as_str());
        let kv: Vec<char> = chars_of(low.as_str());
        let ghost prev = keys@;
        keys.push(kv);
        assert(keys@.map_values(|k: Vec<char>| k@) =~= prev.map_values(|k: Vec<char>| k@).push(
            kv@,
        ));
        i = i + 1;
        assert(keys@.map_values(|k: Vec<char>| k@) =~= preset_sort_keys(presets@).subrange(
            0,
            i as int,
        ));
    }
    assert(preset_sort_keys(presets@).subrange(0, presets.len() as int) =~= preset_sort_keys(
        presets@,
    ));
    let order: Vec<usize> = order_by_text(&keys);
    let mut out: Vec<Preset> = Vec::new();
    let mut j: usize = 0;
    while j < order.len()
        invariant
            j <= order.len(),
            sorted_asc(preset_sort_keys(presets@), order@),
            out@.len() == j,
            forall|q: int| 0 <= q < j ==> out@[q]@ == presets@[order@[q] as int]@,
        decreases order.len() - j,
    {
        out.push(presets[order[j]].duplicate());
        j = j + 1;
    }
    assert(forall|q: int| 0 <= q < out@.len() ==> #[trigger] out@[q]@ == presets@[order@[q] as int]@);
    out
}

/// The keys of the enabled mods, in order.
pub open spec fn enabled_keys_of(mods: Seq<ModInfo>) -> Seq<Seq<char>>
    decreases mods.len(),
{
    if mods.len() == 0 {
        Seq::<Seq<char>>::empty()
    } else if mods.last().enabled {
        enabled_keys_of(mods.drop_last()).push(mods.last().key@)
    } else {
        enabled_keys_of(mods.drop_last())
    }
}

/// The identifier of a preset saved at `now` into a list of `count`.
pub open spec fn preset_id(now: u64, count: nat) -> Seq<char> {
    decimal(now as nat) + "-"@ + decimal(count)
}

/// What saving a preset named `name` at `now` does, given the scan result.
pub open spec fn saved_as(
    before: Seq<PresetModel>,
    scan: Result<Vec<ModInfo>, String>,
    name: Seq<char>,
    now: u64,
    r: Result<Preset, String>,
    after: Seq<PresetModel>,
) -> bool {
    match scan {
        Err(e) => (r matches Err(e2) && e2@ == e@) && after == before,
        Ok(mods) => {
            &&& r matches Ok(p)
            &&& p@ == PresetModel {
                id: preset_id(now, before.len()),
                name,
                enabled_keys: enabled_keys_of(mods@),
                created_at: now,
                hotkey: None,
            }
            &&& after == before.push(p@)
        },
    }
}

/// Saves a new preset at time `now` holding the mods enabled in the scanned
/// directory; a failed scan is passed on and nothing is saved.
pub fn save_preset(presets: &mut Vec<Preset>, snapshot: &ModDirSnapshot, name: &str, now: u64) -> (r:
    Result<Preset, String>)
    ensures
        exists|scan: Result<Vec<ModInfo>, String>|
            #![trigger scan_outcome(*snapshot, scan)]
            scan_outcome(*snapshot, scan) && saved_as(
                presets_view(old(presets)@),
                scan,
                name@,
                now,
                r,
                presets_view(final(presets)@),
            ),
{
    let scan = scan_mods(snapshot);
    let mods: &Vec<ModInfo> = match &scan {
        Err(e) => {
            let r = Err(e.clone());
            assert(saved_as(
                presets_view(old(presets)@),
                scan,
                name@,
                now,
                r,
                presets_view(presets@),
            ));
            return r;
        },
        Ok(m) => m,
    };
    let mut keys: Vec<String> = Vec::new();
    let mut k: usize = 0;
    while k < mods.len()
        invariant
            k <= mods.len(),
            names_view(keys@) == enabled_keys_of(mods@.subrange(0, k as int)),
        decreases mods.len() - k,
    {
        let ghost pre = mods@.subrange(0, k as int);
        if mods[k].enabled {
            keys.push(mods[k].key.clone());
        }
        k = k + 1;
        proof {
            let post = mods@.subrange(0, k as int);
            assert(post.drop_last() =~= pre);
            assert(names_view(keys@) =~= enabled_keys_of(post));
        }
    }
    assert(mods@.subrange(0, mods.len() as int) =~= mods@);
    let mut idv: Vec<char> = decimal_chars(now);
    append_str(&mut idv, "-");
    let count: Vec<char> = decimal_chars(presets.len() as u64);
    append_chars(&mut idv, &count);
    let preset = Preset {
        id: string_of(&idv),
        name: lit(name),
        enabled_keys: keys,
        created_at: now,
        hotkey: None,
    };
    let copy = preset.duplicate();
    presets.push(preset);
    assert(presets_view(presets@) =~= presets_view(old(presets)@).push(copy@));
    let r = Ok(copy);
    assert(saved_as(presets_view(old(presets)@), scan, name@, now, r, presets_view(presets@)));
    r
}

/// `i` is the index of the first preset with identifier `id`.
pub open spec fn first_preset(s: Seq<PresetModel>, id: Seq<char>, i: int) -> bool {
    &&& 0 <= i < s.len()
    &&& s[i].id == id
    &&& forall|j: int| 0 <= j < i ==> s[j].id != id
}

pub open spec fn has_preset(s: Seq<PresetModel>, id: Seq<char>) -> bool {
    exists|i: int| 0 <= i < s.len() && s[i].id == id
}

pub open spec fn preset_not_found_message(id: Seq<char>) -> Seq<char> {
    "Preset '"@ + id + "' not found"@
}

fn preset_not_found(id: &str) -> (r: String)
    ensures
        r@ == preset_not_found_message(id@),
{
    let mut v: Vec<char> = chars_of("Preset '");
    append_str(&mut v, id);
    append_str(&mut v, "' not found");
    string_of(&v)
}

fn find_preset(presets: &Vec<Preset>, id: &str) -> (r: Option<usize>)
    ensures
        match r {
            Some(i) => first_preset(presets_view(presets@), id@, i as int),
            None => !has_preset(presets_view(presets@), id@),
        },
{
    let ghost s = presets_view(presets@);
    let idv: Vec<char> = chars_of(id);
    let mut i: usize = 0;
    while i < presets.len()
        invariant
            i <= presets.len(),
            s == presets_view(presets@),
            idv@ == id@,
            forall|j: int| 0 <= j < i ==> s[j].id != id@,
        decreases presets.len() - i,
    {
        let cur: Vec<char> = chars_of(presets[i].id.as_str());
        if chars_eq(&cur, &idv) {
            return Some(i);
        }
        i = i + 1;
    }
    None
}

/// Binds `hotkey` to the first preset with identifier `preset_id` (or
/// clears its binding with `None`) and returns the updated preset.
pub fn set_preset_hotkey(presets: &mut Vec<Preset>, preset_id: &str, hotkey: Option<String>) -> (r:
    Result<Preset, String>)
    ensures
        !has_preset(presets_view(old(presets)@), preset_id@) ==> (r matches Err(e) && e@
            == preset_not_found_message(preset_id@)) && presets_view(final(presets)@)
            == presets_view(old(presets)@),
        forall|i: int|
            first_preset(presets_view(old(presets)@), preset_id@, i) ==> {
                &&& r matches Ok(p)
                &&& p@ == PresetModel { hotkey: opt_view(hotkey), ..presets_view(old(presets)@)[i] }
                &&& presets_view(final(presets)@) == presets_view(old(presets)@).update(i, p@)
            },
{
    let i: usize = match find_preset(presets, preset_id) {
        None => {
            return Err(preset_not_found(preset_id));
        },
        Some(i) => i,
    };
    let mut p: Preset = presets[i].duplicate();
    p.hotkey = hotkey;
    let copy = p.duplicate();
    presets.set(i, p);
    assert(presets_view(presets@) =~= presets_view(old(presets)@).update(i as int, copy@));
    Ok(copy)
}

/// Gives the first preset with identifier `preset_id` a new name and
/// returns it.
pub fn rename_preset(presets: &mut Vec<Preset>, preset_id: &str, new_name: &str) -> (r: Result<
    Preset,
    String,
>)
    ensures
        !has_preset(presets_view(old(presets)@), preset_id@) ==> (r matches Err(e) && e@
            == preset_not_found_message(preset_id@)) && presets_view(final(presets)@)
            == presets_view(old(presets)@),
        forall|i: int|
            first_preset(presets_view(old(presets)@), preset_id@, i) ==> {
                &&& r matches Ok(p)
                &&& p@ == PresetModel { name: new_name@, ..presets_view(old(presets)@)[i] }
                &&& presets_view(final(presets)@) == presets_view(old(presets)@).update(i, p@)
            },
{
    let i: usize = match find_preset(presets, preset_id) {
        None => {
            return Err(preset_not_found(preset_id));
        },
        Some(i) => i,
    };
    let mut p: Preset = presets[i].duplicate();
    p.name = lit(new_name);
    let copy = p.duplicate();
    presets.set(i, p);
    assert(presets_view(presets@) =~= presets_view(old(presets)@).update(i as int, copy@));
    Ok(copy)
}

pub open spec fn without_preset(s: Seq<PresetModel>, id: Seq<char>) -> Seq<PresetModel>
    decreases s.len(),
{
    if s.len() == 0 {
        Seq::<PresetModel>::empty()
    } else if s.last().id == id {
        without_preset(s.drop_last(), id)
    } else {
        without_preset(s.drop_last(), id).push(s.last())
    }
}

proof fn lemma_without_preset_len(s: Seq<PresetModel>, id: Seq<char>)
    ensures
        without_preset(s, id).len() <= s.len(),
        without_preset(s, id).len() == s.len() <==> !has_preset(s, id),
    decreases s.len(),
{
    if s.len() > 0 {
        lemma_without_preset_len(s.drop_last(), id);
        if has_preset(s.drop_last(), id) {
            let i = choose|i: int| 0 <= i < s.drop_last().len() && s.drop_last()[i].id == id;
            assert(s[i].id == id);
        }
        if !has_preset(s.drop_last(), id) && s.last().id != id {
            assert forall|i: int| 0 <= i < s.len() implies s[i].id != id by {
                if i < s.len() - 1 {
                    assert(s[i] == s.drop_last()[i]);
                }
            }
        }
    }
}

/// Deletes every preset with identifier `preset_id`; refused when there is
/// none.
pub fn delete_preset(presets: &mut Vec<Preset>, preset_id: &str) -> (r: Result<(), String>)
    ensures
        !has_preset(presets_view(old(presets)@), preset_id@) ==> (r matches Err(e) && e@
            == preset_not_found_message(preset_id@)) && presets_view(final(presets)@)
            == presets_view(old(presets)@),
        has_preset(presets_view(old(presets)@), preset_id@) ==> r is Ok && presets_view(
            final(presets)@,
        ) == without_preset(presets_view(old(presets)@), preset_id@),
{
    let ghost s = presets_view(presets@);
    let idv: Vec<char> = chars_of(preset_id);
    let mut out: Vec<Preset> = Vec::new();
    let mut k: usize = 0;
    while k < presets.len()
        invariant
            k <= presets.len(),
            s == presets_view(presets@),
            idv@ == preset_id@,
            presets_view(out@) == without_preset(s.subrange(0, k as int), preset_id@),
        decreases presets.len() - k,
    {
        let ghost pre = s.subrange(0, k as int);
        let cur: Vec<char> = chars_of(presets[k].id.as_str());
        if !chars_eq(&cur, &idv) {
            out.push(presets[k].duplicate());
        }
        k = k + 1;
        proof {
            let post = s.subrange(0, k as int);
            assert(post.drop_last() =~= pre);
            assert(post.last() == s[k - 1]);
            assert(presets_view(out@) =~= without_preset(post, preset_id@));
        }
    }
    assert(s.subrange(0, presets.len() as int) =~= s);
    proof {
        lemma_without_preset_len(s, preset_id@);
    }
    if out.len() == presets.len() {
        return Err(preset_not_found(preset_id));
    }
    *presets = out;
    Ok(())
}

/// The presets of `s` that have a hotkey, each paired with `game`.
pub open spec fn hotkey_pairs(game: Seq<char>, s: Seq<PresetModel>) -> Seq<(Seq<char>, PresetModel)>
    decreases s.len(),
{
    if s.len() == 0 {
        Seq::<(Seq<char>, PresetModel)>::empty()
    } else if s.last().hotkey is Some {
        hotkey_pairs(game, s.drop_last()).push((game, s.last()))
    } else {
        hotkey_pairs(game, s.drop_last())
    }
}

/// The presets that have a hotkey, each with its game, from the games whose
/// preset list could be read (in order).
pub open spec fn hotkeyed(loaded: Seq<(String, Result<Vec<Preset>, String>)>) -> Seq<
    (Seq<char>, PresetModel),
>
    decreases loaded.len(),
{
    if loaded.len() == 0 {
        Seq::<(Seq<char>, PresetModel)>::empty()
    } else {
        let game = loaded.last().0@;
        hotkeyed(loaded.drop_last()) + match loaded.last().1 {
            Ok(ps) => hotkey_pairs(game, presets_view(ps@)),
            Err(_) => Seq::<(Seq<char>, PresetModel)>::empty(),
        }
    }
}

pub open spec fn pairs_view(s: Seq<(String, Preset)>) -> Seq<(Seq<char>, PresetModel)> {
    s.map_values(|x: (String, Preset)| (x.0@, x.1@))
}

/// Every preset with a hotkey across the games, with its game; games whose
/// presets could not be read are skipped.
pub fn list_all_presets_with_hotkeys(loaded: &Vec<(String, Result<Vec<Preset>, String>)>) -> (r: Vec<
    (String, Preset),
>)
    ensures
        pairs_view(r@) == hotkeyed(loaded@),
{
    let mut out: Vec<(String, Preset)> = Vec::new();
    let mut g: usize = 0;
    while g < loaded.len()
        invariant
            g <= loaded.len(),
            pairs_view(out@) == hotkeyed(loaded@.subrange(0, g as int)),
        decreases loaded.len() - g,
    {
        let ghost pre = loaded@.subrange(0, g as int);
        let ghost start = pairs_view(out@);
        let game: &String = &loaded[g].0;
        match &loaded[g].1 {
            Ok(ps) => {
                let ghost pv = presets_view(ps@);
                let mut k: usize = 0;
                while k < ps.len()
                    invariant
                        k <= ps.len(),
                        pv == presets_view(ps@),
                        pairs_view(out@) == start + hotkey_pairs(game@, pv.subrange(0, k as int)),
                    decreases ps.len() - k,
                {
                    let ghost before = pv.subrange(0, k as int);
                    let ghost prev = out@;
                    if ps[k].hotkey.is_some() {
                        let gc: String = game.clone();
                        let pd: Preset = ps[k].duplicate();
                        assert(pd@ == pv[k as int]);
                        out.push((gc, pd));
                        assert(pairs_view(out@) =~= pairs_view(prev).push((game@, pv[k as int])));
                    }
                    k = k + 1;
                    proof {
                        let after = pv.subrange(0, k as int);
                        assert(after.drop_last() =~= before);
                        assert(after.last() == pv[k - 1]);
                        assert(pairs_view(out@) =~= start + hotkey_pairs(game@, after));
                    }
                }
                assert(pv.subrange(0, ps.len() as int) =~= pv);
            },
            Err(_) => {
                assert(pairs_view(out@) =~= start + Seq::<(Seq<char>, PresetModel)>::empty());
            },
        }
        g = g + 1;
        proof {
            let post = loaded@.subrange(0, g as int);
            assert(post.drop_last() =~= pre);
            assert(post.last() == loaded@[g - 1]);
        }
    }
    assert(loaded@.subrange(0, loaded.len() as int) =~= loaded@);
    out
}

/// A mod that applying a preset switches, and the state it switches to.
#[derive(Debug)]
pub struct PresetToggle {
    pub path: String,
    pub category: String,
    pub name: String,
    pub enable: bool,
}

pub open spec fn toggle_view(t: PresetToggle) -> (Seq<char>, Seq<char>, Seq<char>, bool) {
    (t.path@, t.category@, t.name@, t.enable)
}

/// The mods whose state differs from what the preset wants, in order, each
/// with the state it wants: enabled exactly when its key is in `keys`.
pub open spec fn preset_toggles(keys: Seq<Seq<char>>, mods: Seq<ModInfo>) -> Seq<
    (Seq<char>, Seq<char>, Seq<char>, bool),
>
    decreases mods.len(),
{
    if mods.len() == 0 {
        Seq::<(Seq<char>, Seq<char>, Seq<char>, bool)>::empty()
    } else {
        let m = mods.last();
        let want = keys.contains(m.key@);
        if m.enabled == want {
            preset_toggles(keys, mods.drop_last())
        } else {
            preset_toggles(keys, mods.drop_last()).push((m.path@, m.category@, m.name@, want))
        }
    }
}

/// What applying preset `i` of `presets` gives, given the scan result.
pub open spec fn planned_as(
    presets: Seq<PresetModel>,
    i: int,
    scan: Result<Vec<ModInfo>, String>,
    r: Result<Vec<PresetToggle>, String>,
) -> bool {
    match scan {
        Err(e) => r matches Err(e2) && e2@ == e@,
        Ok(mods) => r matches Ok(plan) && plan@.map_values(|t: PresetToggle| toggle_view(t))
            == preset_toggles(presets[i].enabled_keys, mods@),
    }
}

fn contains_key(keys: &Vec<String>, key: &String) -> (r: bool)
    ensures
        r == names_view(keys@).contains(key@),
{
    crate::mods::contains_name(keys, key.as_str())
}

/// Applies the first preset with identifier `preset_id` to the scanned mod
/// folder: the mods to switch, each with the state the preset wants. The
/// caller switches them (see `crate::mods::set_mod_enabled`) and tallies
/// the outcomes with `tally_preset`.
pub fn apply_preset(presets: &Vec<Preset>, preset_id: &str, snapshot: &ModDirSnapshot) -> (r: Result<
    Vec<PresetToggle>,
    String,
>)
    ensures
        !has_preset(presets_view(presets@), preset_id@) ==> (r matches Err(e) && e@
            == preset_not_found_message(preset_id@)),
        forall|i: int|
            first_preset(presets_view(presets@), preset_id@, i) ==> exists|
                scan: Result<Vec<ModInfo>, String>,
            |
                #![trigger scan_outcome(*snapshot, scan)]
                scan_outcome(*snapshot, scan) && planned_as(presets_view(presets@), i, scan, r),
{
    let i: usize = match find_preset(presets, preset_id) {
        None => {
            return Err(preset_not_found(preset_id));
        },
        Some(i) => i,
    };
    let keys: &Vec<String> = &presets[i].enabled_keys;
    let scan = scan_mods(snapshot);
    let mods: &Vec<ModInfo> = match &scan {
        Err(e) => {
            let r = Err(e.clone());
            assert(planned_as(presets_view(presets@), i as int, scan, r));
            return r;
        },
        Ok(m) => m,
    };
    let mut plan: Vec<PresetToggle> = Vec::new();
    let mut k: usize = 0;
    while k < mods.len()
        invariant
            k <= mods.len(),
            names_view(keys@) == presets_view(presets@)[i as int].enabled_keys,
            plan@.map_values(|t: PresetToggle| toggle_view(t)) == preset_toggles(
                names_view(keys@),
                mods@.subrange(0, k as int),
            ),
        decreases mods.len() - k,
    {
        let ghost pre = mods@.subrange(0, k as int);
        let ghost prev = plan@;
        let m: &ModInfo = &mods[k];
        let want: bool = contains_key(keys, &m.key);
        if m.enabled != want {
            let t = PresetToggle {
                path: m.path.clone(),
                category: m.category.clone(),
                name: m.name.clone(),
                enable: want,
            };
            plan.push(t);
            assert(plan@.map_values(|t: PresetToggle| toggle_view(t)) =~= prev.map_values(
                |t: PresetToggle| toggle_view(t),
            ).push((m.path@, m.category@, m.name@, want)));
        }
        k = k + 1;
        proof {
            let post = mods@.subrange(0, k as int);
            assert(post.drop_last() =~= pre);
            assert(post.last() == mods@[k - 1]);
        }
    }
    assert(mods@.subrange(0, mods.len() as int) =~= mods@);
    let r = Ok(plan);
    assert(planned_as(presets_view(presets@), i as int, scan, r));
    r
}

/// How many of the first `n` switches succeeded in the direction `enable`.
pub open spec fn succeeded(plan: Seq<PresetToggle>, outcomes: Seq<Result<(), String>>, n: int, enable: bool) -> nat
    decreases n,
{
    if n <= 0 {
        0
    } else {
        succeeded(plan, outcomes, n - 1, enable) + if outcomes[n - 1] is Ok && plan[n - 1].enable
            == enable {
            1nat
        } else {
            0nat
        }
    }
}

/// The messages of the first `n` failed switches: the mod's name, a colon,
/// and the error.
pub open spec fn failures(plan: Seq<PresetToggle>, outcomes: Seq<Result<(), String>>, n: int) -> Seq<
    Seq<char>,
>
    decreases n,
{
    if n <= 0 {
        Seq::<Seq<char>>::empty()
    } else {
        match outcomes[n - 1] {
            Ok(_) => failures(plan, outcomes, n - 1),
            Err(e) => failures(plan, outcomes, n - 1).push(plan[n - 1].name@ + ": "@ + e@),
        }
    }
}

proof fn lemma_succeeded_bound(
    plan: Seq<PresetToggle>,
    outcomes: Seq<Result<(), String>>,
    n: int,
    enable: bool,
)
    requires
        n >= 0,
    ensures
        succeeded(plan, outcomes, n, enable) <= n,
    decreases n,
{
    if n > 0 {
        lemma_succeeded_bound(plan, outcomes, n - 1, enable);
    }
}

/// The outcome of applying a preset from the outcomes of its switches
/// (`outcomes[i]` is the outcome of `plan[i]`).
pub fn tally_preset(plan: &Vec<PresetToggle>, outcomes: &Vec<Result<(), String>>) -> (r:
    ApplyPresetResult)
    requires
        plan@.len() == outcomes@.len(),
        plan@.len() <= u32::MAX,
    ensures
        r.enabled_count == succeeded(plan@, outcomes@, plan@.len() as int, true),
        r.disabled_count == succeeded(plan@, outcomes@, plan@.len() as int, false),
        names_view(r.errors@) == failures(plan@, outcomes@, plan@.len() as int),
{
    let mut enabled_count: u32 = 0;
    let mut disabled_count: u32 = 0;
    let mut errors: Vec<String> = Vec::new();
    let mut k: usize = 0;
    while k < plan.len()
        invariant
            k <= plan.len(),
            plan@.len() == outcomes@.len(),
            plan@.len() <= u32::MAX,
            enabled_count == succeeded(plan@, outcomes@, k as int, true),
            disabled_count == succeeded(plan@, outcomes@, k as int, false),
            names_view(errors@) == failures(plan@, outcomes@, k as int),
        decreases plan.len() - k,
    {
        proof {
            lemma_succeeded_bound(plan@, outcomes@, k as int, true);
            lemma_succeeded_bound(plan@, outcomes@, k as int, false);
        }
        let ghost prev = errors@;
        match &outcomes[k] {
            Ok(()) => {
                if plan[k].enable {
                    enabled_count = enabled_count + 1;
                } else {
                    disabled_count = disabled_count + 1;
                }
            },
            Err(e) => {
                let mut v: Vec<char> = chars_of(plan[k].name.as_str());
                append_str(&mut v, ": ");
                append_str(&mut v, e.as_str());
                let msg: String = string_of(&v);
                errors.push(msg);
                assert(names_view(errors@) =~= names_view(prev).push(msg@));
            },
        }
        k = k + 1;
    }
    ApplyPresetResult { enabled_count, disabled_count, errors }
}

/// The switches that bring `later` back to the states recorded in `saved`
/// (matched by position): each mod whose state differs, to its saved state.
pub open spec fn switches_back(saved: Seq<ModInfo>, later: Seq<ModInfo>) -> Seq<
    (Seq<char>, Seq<char>, Seq<char>, bool),
>
    decreases later.len(),
{
    if later.len() == 0 || saved.len() == 0 {
        Seq::<(Seq<char>, Seq<char>, Seq<char>, bool)>::empty()
    } else {
        let m = later.last();
        let want = saved.last().enabled;
        if m.enabled == want {
            switches_back(saved.drop_last(), later.drop_last())
        } else {
            switches_back(saved.drop_last(), later.drop_last()).push(
                (m.path@, m.category@, m.name@, want),
            )
        }
    }
}

proof fn lemma_enabled_keys_contains(mods: Seq<ModInfo>, k: Seq<char>)
    ensures
        enabled_keys_of(mods).contains(k) <==> exists|i: int|
            0 <= i < mods.len() && mods[i].enabled && mods[i].key@ == k,
    decreases mods.len(),
{
    if mods.len() > 0 {
        let p = mods.drop_last();
        let e = enabled_keys_of(mods);
        let q = enabled_keys_of(p);
        lemma_enabled_keys_contains(p, k);
        if e.contains(k) {
            let j = choose|j: int| 0 <= j < e.len() && e[j] == k;
            if mods.last().enabled && j == q.len() {
                assert(mods[mods.len() - 1].enabled && mods[mods.len() - 1].key@ == k);
            } else {
                assert(q[j] == k);
                assert(q.contains(k));
                let i = choose|i: int| 0 <= i < p.len() && p[i].enabled && p[i].key@ == k;
                assert(mods[i].enabled && mods[i].key@ == k);
            }
        }
        if exists|i: int| 0 <= i < mods.len() && mods[i].enabled && mods[i].key@ == k {
            let i = choose|i: int| 0 <= i < mods.len() && mods[i].enabled && mods[i].key@ == k;
            if i < mods.len() - 1 {
                assert(p[i].enabled && p[i].key@ == k);
                assert(q.contains(k));
                let j = choose|j: int| 0 <= j < q.len() && q[j] == k;
                assert(e[j] == k);
            } else {
                assert(e[q.len() as int] == k);
            }
            assert(e.contains(k));
        }
    }
}

proof fn lemma_switches_back(keys: Seq<Seq<char>>, saved: Seq<ModInfo>, later: Seq<ModInfo>)
    requires
        saved.len() == later.len(),
        forall|i: int| 0 <= i < later.len() ==> keys.contains(#[trigger] later[i].key@) == saved[i].enabled,
    ensures
        preset_toggles(keys, later) == switches_back(saved, later),
    decreases later.len(),
{
    if later.len() > 0 {
        let sp = saved.drop_last();
        let lp = later.drop_last();
        assert forall|i: int| 0 <= i < lp.len() implies keys.contains(#[trigger] lp[i].key@)
            == sp[i].enabled by {
            assert(lp[i] == later[i]);
            assert(sp[i] == saved[i]);
        }
        lemma_switches_back(keys, sp, lp);
        assert(keys.contains(later[later.len() - 1].key@) == saved[saved.len() - 1].enabled);
    }
}

/// A preset saved from a scan and applied to a later scan of the same mods
/// (the same keys in the same order, no key twice) switches exactly the
/// mods whose state changed since, each back to its saved state.
pub proof fn law_preset_restores_saved_state(saved: Seq<ModInfo>, later: Seq<ModInfo>)
    requires
        saved.len() == later.len(),
        forall|i: int| 0 <= i < later.len() ==> #[trigger] later[i].key@ == saved[i].key@,
        forall|i: int, j: int|
            0 <= i < saved.len() && 0 <= j < saved.len() && i != j ==> (#[trigger] saved[i]).key@
                != (#[trigger] saved[j]).key@,
    ensures
        preset_toggles(enabled_keys_of(saved), later) == switches_back(saved, later),
{
    let keys = enabled_keys_of(saved);
    assert forall|i: int| 0 <= i < later.len() implies keys.contains(#[trigger] later[i].key@)
        == saved[i].enabled by {
        lemma_enabled_keys_contains(saved, later[i].key@);
        if keys.contains(later[i].key@) {
            let j = choose|j: int|
                0 <= j < saved.len() && saved[j].enabled && saved[j].key@ == later[i].key@;
            if j != i {
                assert(saved[j].key@ != saved[i].key@);
            }
        }
    }
    lemma_switches_back(keys, saved, later);
}

} // verus!
