//! Links between installed mods and their GameBanana origin, and the
//! update check built on them.
//!
//! A game's links are a table from a mod's stable key to its origin (mod
//! id, installed file id, version); it is read from and written to a JSON
//! file around these functions. The table holds each key at most once.

use vstd::prelude::*;
use crate::gamebanana::{ModDetail, ModFileInfo};
use crate::ini::opt_view;
use crate::paths::{join, join_path};
use crate::text::{append_str, chars_eq, chars_of, lit, string_of};

verus! {

/// The link between an installed mod and its GameBanana source.
#[derive(Debug)]
pub struct ModOrigin {
    /// The mod's stable key (e.g. `Characters/Furina`).
    pub mod_key: String,
    /// GameBanana mod id.
    pub gb_mod_id: u32,
    /// The file id that was installed.
    pub installed_file_id: u64,
    /// The installed file's version text, if the uploader set one.
    pub installed_version: Option<String>,
    /// When the link was made, in Unix seconds.
    pub installed_at: u64,
}

pub struct OriginModel {
    pub mod_key: Seq<char>,
    pub gb_mod_id: u32,
    pub installed_file_id: u64,
    pub installed_version: Option<Seq<char>>,
    pub installed_at: u64,
}

impl View for ModOrigin {
    type V = OriginModel;

    open spec fn view(&self) -> OriginModel {
        OriginModel {
            mod_key: self.mod_key@,
            gb_mod_id: self.gb_mod_id,
            installed_file_id: self.installed_file_id,
            installed_version: opt_view(self.installed_version),
            installed_at: self.installed_at,
        }
    }
}

impl ModOrigin {
    pub fn duplicate(&self) -> (r: ModOrigin)
        ensures
            r == *self,
    {
        ModOrigin {
            mod_key: self.mod_key.clone(),
            gb_mod_id: self.gb_mod_id,
            installed_file_id: self.installed_file_id,
            installed_version: match &self.installed_version {
                Some(v) => Some(v.clone()),
                None => None,
            },
            installed_at: self.installed_at,
        }
    }
}

/// A mod that has a newer file on GameBanana than the installed one.
#[derive(Debug)]
pub struct UpdateInfo {
    pub mod_key: String,
    pub gb_mod_id: u32,
    pub mod_name: String,
    pub installed_file_id: u64,
    pub installed_version: Option<String>,
    pub latest_file_id: u64,
    pub latest_version: Option<String>,
    pub latest_file_name: String,
    pub latest_download_url: String,
    pub latest_filesize: u64,
}

/// A game's link file: `<config dir>/origins/<game id>.json`.
pub fn origins_path(config_dir: &str, game_id: &str) -> (r: String)
    ensures
        r@ == join(join(config_dir@, "origins"@), game_id@ + ".json"@),
{
    let dir: String = join_path(config_dir, "origins");
    let mut v: Vec<char> = chars_of(game_id);
    append_str(&mut v, ".json");
    let name: String = string_of(&v);
    join_path(dir.as_str(), name.as_str())
}

// ---------------------------------------------------------------------------
// The link table
// ---------------------------------------------------------------------------

/// No key occurs twice in the table.
pub open spec fn unique_keys(s: Seq<(String, ModOrigin)>) -> bool {
    forall|i: int, j: int|
        0 <= i < s.len() && 0 <= j < s.len() && i != j ==> (#[trigger] s[i]).0@ != (#[trigger] s[j]).0@
}

/// The table as a map from key to origin.
pub open spec fn origins_map(s: Seq<(String, ModOrigin)>) -> Map<Seq<char>, OriginModel>
    decreases s.len(),
{
    if s.len() == 0 {
        Map::<Seq<char>, OriginModel>::empty()
    } else {
        origins_map(s.drop_last()).insert(s.last().0@, s.last().1@)
    }
}

proof fn lemma_map_dom(s: Seq<(String, ModOrigin)>, k: Seq<char>)
    ensures
        origins_map(s).dom().contains(k) <==> exists|i: int| 0 <= i < s.len() && s[i].0@ == k,
    decreases s.len(),
{
    if s.len() > 0 {
        lemma_map_dom(s.drop_last(), k);
        if exists|i: int| 0 <= i < s.drop_last().len() && s.drop_last()[i].0@ == k {
            let i = choose|i: int| 0 <= i < s.drop_last().len() && s.drop_last()[i].0@ == k;
            assert(s[i].0@ == k);
        }
        if exists|i: int| 0 <= i < s.len() && s[i].0@ == k {
            let i = choose|i: int| 0 <= i < s.len() && s[i].0@ == k;
            if i < s.len() - 1 {
                assert(s.drop_last()[i].0@ == k);
            }
        }
    }
}

proof fn lemma_map_update(s: Seq<(String, ModOrigin)>, i: int, e: (String, ModOrigin))
    requires
        unique_keys(s),
        0 <= i < s.len(),
        s[i].0@ == e.0@,
    ensures
        origins_map(s.update(i, e)) == origins_map(s).insert(e.0@, e.1@),
        unique_keys(s.update(i, e)),
    decreases s.len(),
{
    let t = s.update(i, e);
    if i == s.len() - 1 {
        assert(t.drop_last() =~= s.drop_last());
        assert(origins_map(t) =~= origins_map(s).insert(e.0@, e.1@));
    } else {
        assert(t.drop_last() =~= s.drop_last().update(i, e));
        lemma_map_update(s.drop_last(), i, e);
        assert(s.last().0@ != e.0@) by {
            assert(s[s.len() - 1].0@ != s[i].0@);
        }
        assert(origins_map(t) =~= origins_map(s).insert(e.0@, e.1@));
    }
    assert forall|a: int, b: int|
        0 <= a < t.len() && 0 <= b < t.len() && a != b implies (#[trigger] t[a]).0@ != (
        #[trigger] t[b]).0@ by {
        if a != i && b != i {
            assert(s[a].0@ != s[b].0@);
        } else if a == i {
            assert(s[i].0@ != s[b].0@);
        } else {
            assert(s[a].0@ != s[i].0@);
        }
    }
}

proof fn lemma_map_push(s: Seq<(String, ModOrigin)>, e: (String, ModOrigin))
    requires
        unique_keys(s),
        forall|i: int| 0 <= i < s.len() ==> s[i].0@ != e.0@,
    ensures
        origins_map(s.push(e)) == origins_map(s).insert(e.0@, e.1@),
        unique_keys(s.push(e)),
{
    let t = s.push(e);
    assert(t.drop_last() =~= s);
    assert forall|a: int, b: int|
        0 <= a < t.len() && 0 <= b < t.len() && a != b implies (#[trigger] t[a]).0@ != (
        #[trigger] t[b]).0@ by {
        if a < s.len() && b < s.len() {
            assert(s[a].0@ != s[b].0@);
        }
    }
}

/// The table without the entry for `k`.
pub open spec fn without_key(s: Seq<(String, ModOrigin)>, k: Seq<char>) -> Seq<(String, ModOrigin)>
    decreases s.len(),
{
    if s.len() == 0 {
        Seq::<(String, ModOrigin)>::empty()
    } else if s.last().0@ == k {
        without_key(s.drop_last(), k)
    } else {
        without_key(s.drop_last(), k).push(s.last())
    }
}

proof fn lemma_without_key(s: Seq<(String, ModOrigin)>, k: Seq<char>)
    requires
        unique_keys(s),
    ensures
        origins_map(without_key(s, k)) == origins_map(s).remove(k),
        unique_keys(without_key(s, k)),
        forall|j: int|
            0 <= j < without_key(s, k).len() ==> exists|i: int|
                0 <= i < s.len() && #[trigger] without_key(s, k)[j] == s[i],
    decreases s.len(),
{
    if s.len() > 0 {
        let p = s.drop_last();
        assert(unique_keys(p)) by {
            assert forall|a: int, b: int|
                0 <= a < p.len() && 0 <= b < p.len() && a != b implies (#[trigger] p[a]).0@ != (
                #[trigger] p[b]).0@ by {
                assert(s[a].0@ != s[b].0@);
            }
        }
        lemma_without_key(p, k);
        let w = without_key(p, k);
        assert forall|j: int| 0 <= j < w.len() implies #[trigger] w[j].0@ != s.last().0@ by {
            let i = choose|i: int| 0 <= i < p.len() && w[j] == p[i];
            assert(s[i].0@ != s[s.len() - 1].0@);
        }
        if s.last().0@ == k {
            lemma_map_dom(p, k);
            assert forall|i: int| 0 <= i < p.len() implies p[i].0@ != k by {
                assert(s[i].0@ != s[s.len() - 1].0@);
            }
            assert(!origins_map(p).dom().contains(k));
            assert(origins_map(w) =~= origins_map(s).remove(k));
        } else {
            lemma_map_push(w, s.last());
            assert(origins_map(without_key(s, k)) =~= origins_map(s).remove(k));
            assert forall|j: int| 0 <= j < without_key(s, k).len() implies exists|i: int|
                0 <= i < s.len() && #[trigger] without_key(s, k)[j] == s[i] by {
                if j < w.len() {
                    let i = choose|i: int| 0 <= i < p.len() && w[j] == p[i];
                    assert(without_key(s, k)[j] == s[i]);
                } else {
                    assert(without_key(s, k)[j] == s[s.len() - 1]);
                }
            }
        }
    }
}

fn find_key(origins: &Vec<(String, ModOrigin)>, key: &str) -> (r: Option<usize>)
    ensures
        match r {
            Some(i) => i < origins@.len() && origins@[i as int].0@ == key@,
            None => forall|i: int| 0 <= i < origins@.len() ==> origins@[i].0@ != key@,
        },
{
    let kv: Vec<char> = chars_of(key);
    let mut i: usize = 0;
    while i < origins.len()
        invariant
            i <= origins.len(),
            kv@ == key@,
            forall|j: int| 0 <= j < i ==> origins@[j].0@ != key@,
        decreases origins.len() - i,
    {
        let cur: Vec<char> = chars_of(origins[i].0.as_str());
        if chars_eq(&cur, &kv) {
            return Some(i);
        }
        i = i + 1;
    }
    None
}

/// Records that the mod with key `mod_key` came from GameBanana mod
/// `gb_mod_id`, file `installed_file_id`, linked at `now`; an earlier link
/// of that key is replaced.
pub fn link_mod(
    origins: &mut Vec<(String, ModOrigin)>,
    mod_key: &str,
    gb_mod_id: u32,
    installed_file_id: u64,
    installed_version: Option<String>,
    now: u64,
)
    requires
        unique_keys(old(origins)@),
    ensures
        unique_keys(final(origins)@),
        origins_map(final(origins)@) == origins_map(old(origins)@).insert(
            mod_key@,
            OriginModel {
                mod_key: mod_key@,
                gb_mod_id,
                installed_file_id,
                installed_version: opt_view(installed_version),
                installed_at: now,
            },
        ),
{
    let origin = ModOrigin {
        mod_key: lit(mod_key),
        gb_mod_id,
        installed_file_id,
        installed_version,
        installed_at: now,
    };
    let entry: (String, ModOrigin) = (lit(mod_key), origin);
    match find_key(origins, mod_key) {
        Some(i) => {
            proof {
                lemma_map_update(origins@, i as int, entry);
            }
            origins.set(i, entry);
        },
        None => {
            proof {
                lemma_map_push(origins@, entry);
            }
            origins.push(entry);
        },
    }
}

/// Removes the link of the mod with key `mod_key`, if there is one.
pub fn unlink_mod(origins: &mut Vec<(String, ModOrigin)>, mod_key: &str)
    requires
        unique_keys(old(origins)@),
    ensures
        unique_keys(final(origins)@),
        origins_map(final(origins)@) == origins_map(old(origins)@).remove(mod_key@),
{
    let ghost s = origins@;
    let kv: Vec<char> = chars_of(mod_key);
    let mut out: Vec<(String, ModOrigin)> = Vec::new();
    let mut k: usize = 0;
    while k < origins.len()
        invariant
            k <= origins.len(),
            s == origins@,
            kv@ == mod_key@,
            out@ == without_key(s.subrange(0, k as int), mod_key@),
        decreases origins.len() - k,
    {
        let ghost pre = s.subrange(0, k as int);
        let cur: Vec<char> = chars_of(origins[k].0.as_str());
        if !chars_eq(&cur, &kv) {
            let e: (String, ModOrigin) = (origins[k].0.clone(), origins[k].1.duplicate());
            assert(e == s[k as int]);
            out.push(e);
        }
        k = k + 1;
        proof {
            let post = s.subrange(0, k as int);
            assert(post.drop_last() =~= pre);
            assert(post.last() == s[k - 1]);
        }
    }
    assert(s.subrange(0, origins.len() as int) =~= s);
    proof {
        lemma_without_key(s, mod_key@);
    }
    *origins = out;
}

/// Every linked origin, in table order.
pub fn get_origins(origins: &Vec<(String, ModOrigin)>) -> (r: Vec<ModOrigin>)
    ensures
        r@.len() == origins@.len(),
        forall|i: int| 0 <= i < r@.len() ==> #[trigger] r@[i] == origins@[i].1,
{
    let mut out: Vec<ModOrigin> = Vec::new();
    let mut k: usize = 0;
    while k < origins.len()
        invariant
            k <= origins.len(),
            out@.len() == k,
            forall|i: int| 0 <= i < k ==> #[trigger] out@[i] == origins@[i].1,
        decreases origins.len() - k,
    {
        out.push(origins[k].1.duplicate());
        k = k + 1;
    }
    out
}

/// A link, once made, is what the table holds for its key.
pub proof fn law_link_then_get(m: Map<Seq<char>, OriginModel>, key: Seq<char>, o: OriginModel)
    ensures
        m.insert(key, o).dom().contains(key),
        m.insert(key, o)[key] == o,
{
}

/// Linking a key again replaces its earlier link.
pub proof fn law_link_overwrites(
    m: Map<Seq<char>, OriginModel>,
    key: Seq<char>,
    first: OriginModel,
    second: OriginModel,
)
    ensures
        m.insert(key, first).insert(key, second) == m.insert(key, second),
{
    assert(m.insert(key, first).insert(key, second) =~= m.insert(key, second));
}

/// Unlinking a key removes its link, whatever it was; other keys keep
/// theirs.
pub proof fn law_unlink_removes(m: Map<Seq<char>, OriginModel>, key: Seq<char>, o: OriginModel)
    ensures
        !m.insert(key, o).remove(key).dom().contains(key),
        m.insert(key, o).remove(key) == m.remove(key),
{
    assert(m.insert(key, o).remove(key) =~= m.remove(key));
}

/// `u` reports file `i` of `detail` as the update of `origin`.
pub open spec fn update_view(u: UpdateInfo, origin: ModOrigin, detail: ModDetail, i: int) -> bool {
    let f = detail.files@[i];
    &&& u.mod_key@ == origin.mod_key@
    &&& u.gb_mod_id == origin.gb_mod_id
    &&& u.mod_name@ == detail.name@
    &&& u.installed_file_id == origin.installed_file_id
    &&& opt_view(u.installed_version) == opt_view(origin.installed_version)
    &&& u.latest_file_id == f.id
    &&& opt_view(u.latest_version) == opt_view(f.version)
    &&& u.latest_file_name@ == f.file_name@
    &&& u.latest_download_url@ == f.download_url@
    &&& u.latest_filesize == f.filesize_bytes
}

fn clone_opt(o: &Option<String>) -> (r: Option<String>)
    ensures
        opt_view(r) == opt_view(*o),
{
    match o {
        Some(s) => Some(s.clone()),
        None => None,
    }
}

/// The update available for a tracked mod, given its current detail from
/// GameBanana: none when every file is archived or the newest file is the
/// installed one.
pub fn update_for(origin: &ModOrigin, detail: &ModDetail) -> (r: Option<UpdateInfo>)
    ensures
        match r {
            Some(u) => exists|i: int|
                0 <= i < detail.files@.len() && !detail.files@[i].is_archived && (forall|j: int|
                    0 <= j < i ==> detail.files@[j].is_archived) && detail.files@[i].id
                    != origin.installed_file_id && #[trigger] update_view(u, *origin, *detail, i),
            None => forall|i: int|
                0 <= i < detail.files@.len() && !detail.files@[i].is_archived && (forall|j: int|
                    0 <= j < i ==> detail.files@[j].is_archived) ==> detail.files@[i].id
                    == origin.installed_file_id,
        },
{
    let mut k: usize = 0;
    while k < detail.files.len()
        invariant
            k <= detail.files.len(),
            forall|j: int| 0 <= j < k ==> detail.files@[j].is_archived,
        decreases detail.files.len() - k,
    {
        if !detail.files[k].is_archived {
            let f: &ModFileInfo = &detail.files[k];
            if f.id == origin.installed_file_id {
                return None;
            }
            let u = UpdateInfo {
                mod_key: origin.mod_key.clone(),
                gb_mod_id: origin.gb_mod_id,
                mod_name: detail.name.clone(),
                installed_file_id: origin.installed_file_id,
                installed_version: clone_opt(&origin.installed_version),
                latest_file_id: f.id,
                latest_version: clone_opt(&f.version),
                latest_file_name: f.file_name.clone(),
                latest_download_url: f.download_url.clone(),
                latest_filesize: f.filesize_bytes,
            };
            assert(update_view(u, *origin, *detail, k as int));
            return Some(u);
        }
        k = k + 1;
    }
    None
}

} // verus!
