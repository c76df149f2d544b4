//! Installing a mod by hand, from a folder or from an archive, into a
//! game's mod folder in either layout.
//!
//! An empty category means "Uncategorized"; an empty name means "use the
//! source's name". An existing destination is refused rather than
//! overwritten. In the symlink layout the files go into `managed_src` and a
//! link at the usual place makes the mod visible (and enabled). The copying,
//! extracting and linking happen around these functions.

use vstd::prelude::*;
use crate::downloads::{
    archive_ext, extension, file_name, file_name_of, is_supported_archive, last_index,
    sanitize_component, sanitized,
};
use crate::mods::{
    build_mod_info_exec, contains_name, describes, is_mod_folder, names_view, with_link,
    FolderInfo, ModInfo, MANAGED_SRC, UNCATEGORIZED,
};
use crate::paths::{join, join_path};
use crate::text::{
    append_chars, append_str, chars_of, eq_str, hex, hex_chars, lit, string_of, trim, trim_range,
};

verus! {

/// The outcome of an install.
#[derive(Debug)]
pub struct InstallResult {
    /// The newly installed mod.
    pub mod_info: ModInfo,
    /// Where the mod's files now live.
    pub installed_path: String,
}

/// A decided install.
#[derive(Debug)]
pub struct InstallPlan {
    /// The folder name the mod gets.
    pub name: String,
    /// The folder to create, then the mod's folder inside it.
    pub dest_parent: String,
    pub dest: String,
    /// Symlink layout: the folder for the in-place link and the link (any
    /// stale link there is replaced).
    pub link: Option<(String, String)>,
    /// The category the mod is reported under.
    pub category: String,
}

pub open spec fn uncategorized(category: Seq<char>) -> bool {
    category.len() == 0 || category == UNCATEGORIZED@
}

/// Where an installed mod's folder goes: under `managed_src` in the
/// symlink layout, else directly in the mod folder; inside its category's
/// folder unless it is uncategorized.
pub open spec fn install_parent_of(mod_path: Seq<char>, symlink: bool, category: Seq<char>) -> Seq<
    char,
> {
    let base = if symlink {
        join(mod_path, MANAGED_SRC@)
    } else {
        mod_path
    };
    if uncategorized(category) {
        base
    } else {
        join(base, sanitized(category))
    }
}

pub fn install_parent(mod_path: &str, symlink: bool, category: &str) -> (r: String)
    ensures
        r@ == install_parent_of(mod_path@, symlink, category@),
{
    let base: String = if symlink {
        join_path(mod_path, MANAGED_SRC)
    } else {
        lit(mod_path)
    };
    let cv: Vec<char> = chars_of(category);
    if cv.len() == 0 || eq_str(&cv, UNCATEGORIZED) {
        base
    } else {
        let c: String = sanitize_component(category);
        join_path(base.as_str(), c.as_str())
    }
}

/// The name an installed folder gets: the given name, or when that is
/// blank the fallback, made safe with `sanitize_component`.
pub open spec fn chosen_name(override_name: Seq<char>, fallback: Seq<char>) -> Seq<char> {
    if trim(override_name).len() == 0 {
        sanitized(fallback)
    } else {
        sanitized(override_name)
    }
}

fn is_blank(s: &str) -> (r: bool)
    ensures
        r == (trim(s@).len() == 0),
{
    let v: Vec<char> = chars_of(s);
    let (a, b) = trim_range(&v, 0, v.len());
    assert(v@.subrange(0, v.len() as int) =~= v@);
    a == b
}

/// The folder name for an install from `source`: `override_name`, or the
/// source folder's name (`mod` when it has none).
pub fn derive_name(source: &str, override_name: &str) -> (r: String)
    ensures
        r@ == chosen_name(
            override_name@,
            match file_name_of(source@) {
                Some(f) => f,
                None => "mod"@,
            },
        ),
{
    if is_blank(override_name) {
        match file_name(source) {
            Some(f) => sanitize_component(f.as_str()),
            None => sanitize_component("mod"),
        }
    } else {
        sanitize_component(override_name)
    }
}

pub open spec fn exists_message(name: Seq<char>, category: Seq<char>) -> Seq<char> {
    "A mod named '"@ + name + "' already exists"@ + (if uncategorized(category) {
        Seq::<char>::empty()
    } else {
        " in '"@ + category + "'"@
    }) + ". Choose a different name."@
}

/// The install of a mod named `name` (see `install_parent_of`), refused
/// when the name is among `parent_entries`, the names already in the
/// destination's folder.
pub open spec fn install_plan_of(
    mod_path: Seq<char>,
    symlink: bool,
    category: Seq<char>,
    name: Seq<char>,
    parent_entries: Seq<Seq<char>>,
) -> Result<(Seq<char>, Seq<char>, Seq<char>, Option<(Seq<char>, Seq<char>)>, Seq<char>), Seq<char>> {
    let parent = install_parent_of(mod_path, symlink, category);
    if parent_entries.contains(name) {
        Err(exists_message(name, category))
    } else {
        let link_parent = if uncategorized(category) {
            mod_path
        } else {
            join(mod_path, sanitized(category))
        };
        Ok(
            (
                name,
                parent,
                join(parent, name),
                if symlink {
                    Some((link_parent, join(link_parent, name)))
                } else {
                    None
                },
                if category.len() == 0 {
                    UNCATEGORIZED@
                } else {
                    category
                },
            ),
        )
    }
}

pub open spec fn plan_view(r: Result<InstallPlan, String>) -> Result<
    (Seq<char>, Seq<char>, Seq<char>, Option<(Seq<char>, Seq<char>)>, Seq<char>),
    Seq<char>,
> {
    match r {
        Ok(p) => Ok(
            (
                p.name@,
                p.dest_parent@,
                p.dest@,
                match p.link {
                    Some(l) => Some((l.0@, l.1@)),
                    None => None,
                },
                p.category@,
            ),
        ),
        Err(e) => Err(e@),
    }
}

fn compute_plan(
    mod_path: &str,
    symlink: bool,
    category: &str,
    name: String,
    parent_entries: &Vec<String>,
) -> (r: Result<InstallPlan, String>)
    ensures
        plan_view(r) == install_plan_of(
            mod_path@,
            symlink,
            category@,
            name@,
            names_view(parent_entries@),
        ),
{
    let parent: String = install_parent(mod_path, symlink, category);
    let cv: Vec<char> = chars_of(category);
    let unc: bool = cv.len() == 0 || eq_str(&cv, UNCATEGORIZED);
    if contains_name(parent_entries, name.as_str()) {
        let mut m: Vec<char> = chars_of("A mod named '");
        append_str(&mut m, name.as_str());
        append_str(&mut m, "' already exists");
        if !unc {
            append_str(&mut m, " in '");
            append_str(&mut m, category);
            append_str(&mut m, "'");
        } else {
            proof {
                reveal_strlit("");
            }
            assert(m@ + Seq::<char>::empty() =~= m@);
        }
        append_str(&mut m, ". Choose a different name.");
        let e = string_of(&m);
        assert(e@ == exists_message(name@, category@));
        return Err(e);
    }
    let dest: String = join_path(parent.as_str(), name.as_str());
    let link: Option<(String, String)> = if symlink {
        let lp: String = if unc {
            lit(mod_path)
        } else {
            let c: String = sanitize_component(category);
            join_path(mod_path, c.as_str())
        };
        let l: String = join_path(lp.as_str(), name.as_str());
        Some((lp, l))
    } else {
        None
    };
    let effective: String = if cv.len() == 0 {
        lit(UNCATEGORIZED)
    } else {
        lit(category)
    };
    Ok(InstallPlan { name, dest_parent: parent, dest, link, category: effective })
}

/// Installs the folder at `source_path` (copied, never moved): refused when
/// it does not exist or is not a folder, or when the destination is taken
/// (see `install_plan_of`; `parent_entries` are the names present in
/// `install_parent`).
pub fn install_mod_from_folder(
    source_path: &str,
    source_exists: bool,
    source_is_dir: bool,
    mod_path: &str,
    symlink: bool,
    category: &str,
    mod_name: &str,
    parent_entries: &Vec<String>,
) -> (r: Result<InstallPlan, String>)
    ensures
        !source_exists ==> (r matches Err(e) && e@ == "Source folder does not exist: "@
            + source_path@),
        source_exists && !source_is_dir ==> (r matches Err(e) && e@
            == "Source path is not a folder: "@ + source_path@),
        source_exists && source_is_dir ==> plan_view(r) == install_plan_of(
            mod_path@,
            symlink,
            category@,
            chosen_name(
                mod_name@,
                match file_name_of(source_path@) {
                    Some(f) => f,
                    None => "mod"@,
                },
            ),
            names_view(parent_entries@),
        ),
{
    if !source_exists {
        let mut m: Vec<char> = chars_of("Source folder does not exist: ");
        append_str(&mut m, source_path);
        return Err(string_of(&m));
    }
    if !source_is_dir {
        let mut m: Vec<char> = chars_of("Source path is not a folder: ");
        append_str(&mut m, source_path);
        return Err(string_of(&m));
    }
    let name: String = derive_name(source_path, mod_name);
    compute_plan(mod_path, symlink, category, name, parent_entries)
}

/// What `Path::file_stem` gives for `p`: its file name without the last
/// extension (a leading dot does not start one).
pub open spec fn file_stem_of(p: Seq<char>) -> Option<Seq<char>> {
    match file_name_of(p) {
        None => None,
        Some(f) => match last_index(f, '.') {
            Some(i) => if i > 0 {
                Some(f.subrange(0, i))
            } else {
                Some(f)
            },
            None => Some(f),
        },
    }
}

/// The staging folder's name for an archive install: a hash of the archive
/// path (its byte length times 31 plus the sum of its characters' code
/// points, with wrap-around) in lower-case hex.
pub open spec fn char_total(s: Seq<char>) -> usize
    decreases s.len(),
{
    if s.len() == 0 {
        0
    } else {
        vstd::wrapping::usize_specs::wrapping_add(char_total(s.drop_last()), s.last() as u32 as usize)
    }
}

pub open spec fn staging_hash(byte_len: usize, s: Seq<char>) -> usize {
    vstd::wrapping::usize_specs::wrapping_add(
        vstd::wrapping::usize_specs::wrapping_mul(byte_len, 31),
        char_total(s),
    )
}

pub open spec fn unsupported_install_message(ext: Seq<char>) -> Seq<char> {
    "Unsupported archive format \"."@ + ext + "\" — only .zip, .7z, and .rar are supported."@
}

/// The first checks of an archive install: it must exist and be a `.zip`,
/// `.7z` or `.rar` (any letter case). Gives the staging folder to extract
/// into, `<data dir>/install_staging/<hash>`.
pub fn check_archive_install(archive_path: &str, archive_exists: bool, data_dir: &str) -> (r: Result<
    String,
    String,
>)
    ensures
        !archive_exists ==> (r matches Err(e) && e@ == "Archive does not exist: "@ + archive_path@),
        archive_exists && !is_supported_archive(archive_path@) ==> (r matches Err(e) && e@
            == unsupported_install_message(archive_ext(archive_path@))),
        archive_exists && is_supported_archive(archive_path@) ==> (r matches Ok(d) && d@ == join(
            join(data_dir@, "install_staging"@),
            hex(staging_hash(archive_path.len(), archive_path@) as nat),
        )),
{
    if !archive_exists {
        let mut m: Vec<char> = chars_of("Archive does not exist: ");
        append_str(&mut m, archive_path);
        return Err(string_of(&m));
    }
    let ext: Vec<char> = match extension(archive_path) {
        Some(e) => {
            let v: Vec<char> = chars_of(e.as_str());
            crate::text::to_lower_ascii(&v)
        },
        None => {
            let v: Vec<char> = Vec::new();
            let r: Vec<char> = crate::text::to_lower_ascii(&v);
            assert(r@ =~= crate::text::ascii_lower(Seq::<char>::empty()));
            r
        },
    };
    assert(ext@ == archive_ext(archive_path@));
    if !(eq_str(&ext, "zip") || eq_str(&ext, "7z") || eq_str(&ext, "rar")) {
        let mut m: Vec<char> = chars_of("Unsupported archive format \".");
        append_chars(&mut m, &ext);
        append_str(&mut m, "\" — only .zip, .7z, and .rar are supported.");
        return Err(string_of(&m));
    }
    let chars: Vec<char> = chars_of(archive_path);
    let mut acc: usize = 0;
    let mut k: usize = 0;
    while k < chars.len()
        invariant
            k <= chars.len(),
            chars@ == archive_path@,
            acc == char_total(chars@.subrange(0, k as int)),
        decreases chars.len() - k,
    {
        let c: char = chars[k];
        acc = acc.wrapping_add(c as u32 as usize);
        k = k + 1;
        assert(chars@.subrange(0, k as int).drop_last() =~= chars@.subrange(0, k - 1));
    }
    assert(chars@.subrange(0, chars.len() as int) =~= chars@);
    let hash: usize = archive_path.len().wrapping_mul(31).wrapping_add(acc);
    let hv: Vec<char> = hex_chars(hash as u64);
    let name: String = string_of(&hv);
    let base: String = join_path(data_dir, "install_staging");
    Ok(join_path(base.as_str(), name.as_str()))
}

/// The install of an extracted archive: named `mod_name`, or after the
/// archive's file stem (`mod` when it has none); refused when the
/// destination is taken (see `install_plan_of`).
pub fn install_mod_from_archive(
    archive_path: &str,
    mod_path: &str,
    symlink: bool,
    category: &str,
    mod_name: &str,
    parent_entries: &Vec<String>,
) -> (r: Result<InstallPlan, String>)
    ensures
        plan_view(r) == install_plan_of(
            mod_path@,
            symlink,
            category@,
            chosen_name(
                mod_name@,
                match file_stem_of(archive_path@) {
                    Some(f) => f,
                    None => "mod"@,
                },
            ),
            names_view(parent_entries@),
        ),
{
    let name: String = if is_blank(mod_name) {
        match file_name(archive_path) {
            None => sanitize_component("mod"),
            Some(f) => {
                let v: Vec<char> = chars_of(f.as_str());
                let stem: String = match crate::downloads::last_index_exec(&v, '.') {
                    Some(i) => {
                        proof {
                            crate::downloads::lemma_last_index(v@, '.');
                        }
                        if i > 0 {
                            crate::text::string_of_range(&v, 0, i)
                        } else {
                            f.clone()
                        }
                    },
                    None => f.clone(),
                };
                sanitize_component(stem.as_str())
            },
        }
    } else {
        sanitize_component(mod_name)
    };
    compute_plan(mod_path, symlink, category, name, parent_entries)
}

/// The outcome of an install once the files are in place, read from the
/// new folder: the mod, reported enabled in the symlink layout (its link was
/// just made); an unreadable folder gives an error.
pub fn installed_result(plan: &InstallPlan, folder: &FolderInfo, symlink: bool) -> (r: Result<
    InstallResult,
    String,
>)
    ensures
        !is_mod_folder(*folder) ==> (r matches Err(e) && e@ == "Failed to read new mod info"@),
        is_mod_folder(*folder) ==> (r matches Ok(res) && res.installed_path@ == plan.dest@
            && describes(res.mod_info, with_link(*folder, true), plan.category@, symlink)),
{
    let nv: Vec<char> = chars_of(folder.name.as_str());
    if nv.len() == 0 || crate::text::starts_with_str(&nv, ".") {
        return Err(lit("Failed to read new mod info"));
    }
    let mut m: ModInfo = build_mod_info_exec(folder, plan.category.as_str(), symlink);
    if symlink {
        m.enabled = true;
    }
    Ok(InstallResult { mod_info: m, installed_path: plan.dest.clone() })
}

} // verus!
