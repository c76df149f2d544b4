//! GameBanana API: game ids, request shapes and the mapping of API records
//! into the summaries the mod browser shows.
//!
//! The HTTP calls and JSON decoding happen at the edge; this module builds
//! the request URLs and turns decoded records into results.

use vstd::prelude::*;
use crate::ini::opt_view;
use crate::text::{append_chars, append_str, chars_of, decimal, decimal_chars, lit, string_of, trim, trim_range};

verus! {

pub const API_BASE: &'static str = "https://gamebanana.com/apiv11";

/// Page size of the category-filtered listing (the same as the feed's own).
pub const PER_PAGE: u32 = 15;

/// GameBanana's numeric game ids for the supported titles.
pub open spec fn gb_game_id(game_id: Seq<char>) -> Option<u32> {
    if game_id == "genshin-impact"@ {
        Some(8552)
    } else if game_id == "honkai-star-rail"@ {
        Some(18366)
    } else if game_id == "wuthering-waves"@ {
        Some(20357)
    } else if game_id == "zenless-zone-zero"@ {
        Some(19567)
    } else if game_id == "arknights-endfield"@ {
        Some(21842)
    } else {
        None
    }
}

/// GameBanana's numeric game id for one of our game ids.
pub fn gamebanana_game_id(game_id: &str) -> (r: Option<u32>)
    ensures
        r == gb_game_id(game_id@),
{
    let v: Vec<char> = chars_of(game_id);
    if crate::text::eq_str(&v, "genshin-impact") {
        Some(8552)
    } else if crate::text::eq_str(&v, "honkai-star-rail") {
        Some(18366)
    } else if crate::text::eq_str(&v, "wuthering-waves") {
        Some(20357)
    } else if crate::text::eq_str(&v, "zenless-zone-zero") {
        Some(19567)
    } else if crate::text::eq_str(&v, "arknights-endfield") {
        Some(21842)
    } else {
        None
    }
}

/// Sort orders the browse endpoints accept.
#[derive(Debug, Clone, Copy, PartialEq, Eq)]
pub enum SortOrder {
    Default,
    New,
    Updated,
}

impl SortOrder {
    pub open spec fn subfeed_value(self) -> Seq<char> {
        match self {
            SortOrder::Default => "default"@,
            SortOrder::New => "new"@,
            SortOrder::Updated => "updated"@,
        }
    }

    pub open spec fn mod_index_value(self) -> Option<Seq<char>> {
        match self {
            SortOrder::Default => None,
            SortOrder::New => Some("Generic_Newest"@),
            SortOrder::Updated => Some("Generic_LatestUpdated"@),
        }
    }

    /// Query value for the game feed endpoint.
    pub fn as_subfeed_query_value(&self) -> (r: &'static str)
        ensures
            r@ == self.subfeed_value(),
    {
        match self {
            SortOrder::Default => "default",
            SortOrder::New => "new",
            SortOrder::Updated => "updated",
        }
    }

    /// Sort alias for the category listing endpoint; the default order is
    /// expressed by leaving the parameter out.
    pub fn as_mod_index_query_value(&self) -> (r: Option<&'static str>)
        ensures
            match r {
                Some(s) => self.mod_index_value() == Some(s@),
                None => self.mod_index_value() is None,
            },
    {
        match self {
            SortOrder::Default => None,
            SortOrder::New => Some("Generic_Newest"),
            SortOrder::Updated => Some("Generic_LatestUpdated"),
        }
    }
}

// ---------------------------------------------------------------------------
// Records as the API returns them
// ---------------------------------------------------------------------------

#[derive(Debug)]
pub struct SubfeedMetadata {
    pub n_record_count: u32,
    pub n_perpage: u32,
    pub b_is_complete: bool,
}

#[derive(Debug)]
pub struct PreviewImage {
    pub base_url: String,
    pub file_220: Option<String>,
    pub file_530: Option<String>,
    pub file_100: Option<String>,
    pub file: String,
}

#[derive(Debug)]
pub struct PreviewMedia {
    pub images: Vec<PreviewImage>,
}

#[derive(Debug)]
pub struct Submitter {
    pub name: String,
    pub avatar_url: Option<String>,
}

#[derive(Debug)]
pub struct Category {
    pub name: String,
}

/// One record of the browse feed.
#[derive(Debug)]
pub struct SubfeedRecord {
    pub id_row: u32,
    pub model_name: String,
    pub name: String,
    pub profile_url: String,
    pub ts_date_added: Option<u64>,
    pub ts_date_updated: Option<u64>,
    pub preview_media: Option<PreviewMedia>,
    pub submitter: Option<Submitter>,
    pub root_category: Option<Category>,
    pub sub_category: Option<Category>,
    pub like_count: u32,
    pub view_count: u32,
    pub has_content_ratings: bool,
    pub initial_visibility: Option<String>,
    pub was_featured: bool,
}

#[derive(Debug)]
pub struct SubfeedResponse {
    pub metadata: SubfeedMetadata,
    pub records: Vec<SubfeedRecord>,
}

// ---------------------------------------------------------------------------
// Summaries
// ---------------------------------------------------------------------------

/// A single mod entry as shown in the browse grid.
#[derive(Debug)]
pub struct ModSummary {
    pub id: u32,
    pub name: String,
    pub profile_url: String,
    /// Best-effort thumbnail URL (prefers the 220px variant, then 100px, then
    /// 530px, then the raw file), or None if the mod has no images.
    pub thumbnail_url: Option<String>,
    pub submitter_name: Option<String>,
    pub submitter_avatar_url: Option<String>,
    pub category: Option<String>,
    pub sub_category: Option<String>,
    pub like_count: u32,
    pub view_count: u32,
    pub date_added: Option<u64>,
    pub date_updated: Option<u64>,
    pub featured: bool,
    /// Content-rated submissions that are hidden/warn-gated.
    pub likely_nsfw: bool,
}

pub open spec fn first_some(a: Option<String>, b: Option<String>, c: Option<String>, d: String) -> Seq<
    char,
> {
    match a {
        Some(x) => x@,
        None => match b {
            Some(x) => x@,
            None => match c {
                Some(x) => x@,
                None => d@,
            },
        },
    }
}

/// The thumbnail of a record: the first image's 220px, 100px or 530px
/// variant, or its raw file, under its base URL.
pub open spec fn thumbnail_of(media: Option<PreviewMedia>) -> Option<Seq<char>> {
    match media {
        Some(m) => if m.images@.len() > 0 {
            let img = m.images@[0];
            Some(img.base_url@ + "/"@ + first_some(img.file_220, img.file_100, img.file_530, img.file))
        } else {
            None
        },
        None => None,
    }
}

pub open spec fn is_nsfw(has_ratings: bool, visibility: Option<String>) -> bool {
    has_ratings && match visibility {
        Some(v) => v@ == "hide"@ || v@ == "warn"@,
        None => false,
    }
}

/// `s` is the summary of record `r`.
pub open spec fn summarizes(s: ModSummary, r: SubfeedRecord) -> bool {
    &&& s.id == r.id_row
    &&& s.name@ == r.name@
    &&& s.profile_url@ == r.profile_url@
    &&& opt_view(s.thumbnail_url) == thumbnail_of(r.preview_media)
    &&& opt_view(s.submitter_name) == match r.submitter {
        Some(x) => Some(x.name@),
        None => None,
    }
    &&& opt_view(s.submitter_avatar_url) == match r.submitter {
        Some(x) => opt_view(x.avatar_url),
        None => None,
    }
    &&& opt_view(s.category) == match r.root_category {
        Some(c) => Some(c.name@),
        None => None,
    }
    &&& opt_view(s.sub_category) == match r.sub_category {
        Some(c) => Some(c.name@),
        None => None,
    }
    &&& s.like_count == r.like_count
    &&& s.view_count == r.view_count
    &&& s.date_added == r.ts_date_added
    &&& s.date_updated == r.ts_date_updated
    &&& s.featured == r.was_featured
    &&& s.likely_nsfw == is_nsfw(r.has_content_ratings, r.initial_visibility)
}

fn clone_opt(o: &Option<String>) -> (r: Option<String>)
    ensures
        opt_view(r) == opt_view(*o),
{
    match o {
        Some(s) => Some(s.clone()),
        None => None,
    }
}

fn url_under(base: &String, file: &String) -> (r: String)
    ensures
        r@ == base@ + "/"@ + file@,
{
    let mut v: Vec<char> = chars_of(base.as_str());
    append_str(&mut v, "/");
    append_str(&mut v, file.as_str());
    string_of(&v)
}

fn thumbnail(media: &Option<PreviewMedia>) -> (r: Option<String>)
    ensures
        opt_view(r) == thumbnail_of(*media),
{
    match media {
        Some(m) => {
            if m.images.len() > 0 {
                let img: &PreviewImage = &m.images[0];
                let file: &String = match &img.file_220 {
                    Some(x) => x,
                    None => match &img.file_100 {
                        Some(x) => x,
                        None => match &img.file_530 {
                            Some(x) => x,
                            None => &img.file,
                        },
                    },
                };
                Some(url_under(&img.base_url, file))
            } else {
                None
            }
        },
        None => None,
    }
}

fn nsfw(has_ratings: bool, visibility: &Option<String>) -> (r: bool)
    ensures
        r == is_nsfw(has_ratings, *visibility),
{
    if !has_ratings {
        return false;
    }
    match visibility {
        Some(v) => {
            let c: Vec<char> = chars_of(v.as_str());
            crate::text::eq_str(&c, "hide") || crate::text::eq_str(&c, "warn")
        },
        None => false,
    }
}

impl ModSummary {
    /// The summary of one feed record.
    pub fn from_record(r: &SubfeedRecord) -> (s: ModSummary)
        ensures
            summarizes(s, *r),
    {
        ModSummary {
            id: r.id_row,
            name: r.name.clone(),
            profile_url: r.profile_url.clone(),
            thumbnail_url: thumbnail(&r.preview_media),
            submitter_name: match &r.submitter {
                Some(x) => Some(x.name.clone()),
                None => None,
            },
            submitter_avatar_url: match &r.submitter {
                Some(x) => clone_opt(&x.avatar_url),
                None => None,
            },
            category: match &r.root_category {
                Some(c) => Some(c.name.clone()),
                None => None,
            },
            sub_category: match &r.sub_category {
                Some(c) => Some(c.name.clone()),
                None => None,
            },
            like_count: r.like_count,
            view_count: r.view_count,
            date_added: r.ts_date_added,
            date_updated: r.ts_date_updated,
            featured: r.was_featured,
            likely_nsfw: nsfw(r.has_content_ratings, &r.initial_visibility),
        }
    }
}

impl From<SubfeedRecord> for ModSummary {
    /// The summary of one feed record (see `ModSummary::from_record`).
    fn from(r: SubfeedRecord) -> (s: ModSummary)
        ensures
            summarizes(s, r),
    {
        ModSummary::from_record(&r)
    }
}

impl vstd::std_specs::convert::FromSpecImpl<SubfeedRecord> for ModSummary {
    open spec fn obeys_from_spec() -> bool {
        false
    }

    open spec fn from_spec(r: SubfeedRecord) -> ModSummary {
        arbitrary()
    }
}

#[derive(Debug)]
pub struct BrowseResult {
    pub mods: Vec<ModSummary>,
    pub total_count: u32,
    pub per_page: u32,
    pub is_complete: bool,
}

/// The records of `records` that are mods (not requests, questions, …).
pub open spec fn mod_records(records: Seq<SubfeedRecord>) -> Seq<SubfeedRecord>
    decreases records.len(),
{
    if records.len() == 0 {
        Seq::empty()
    } else if records.last().model_name@ == "Mod"@ {
        mod_records(records.drop_last()).push(records.last())
    } else {
        mod_records(records.drop_last())
    }
}

/// The browse result for a decoded feed page: only `Mod` records are kept.
pub fn browse_result_from(body: &SubfeedResponse) -> (r: BrowseResult)
    ensures
        r.mods@.len() == mod_records(body.records@).len(),
        forall|i: int|
            0 <= i < r.mods@.len() ==> summarizes(r.mods@[i], mod_records(body.records@)[i]),
        r.total_count == body.metadata.n_record_count,
        r.per_page == body.metadata.n_perpage,
        r.is_complete == body.metadata.b_is_complete,
{
    let mut mods: Vec<ModSummary> = Vec::new();
    let mut k: usize = 0;
    while k < body.records.len()
        invariant
            k <= body.records.len(),
            mods@.len() == mod_records(body.records@.subrange(0, k as int)).len(),
            forall|i: int|
                0 <= i < mods@.len() ==> summarizes(
                    mods@[i],
                    mod_records(body.records@.subrange(0, k as int))[i],
                ),
        decreases body.records.len() - k,
    {
        proof {
            let sub = body.records@.subrange(0, k + 1);
            assert(sub.drop_last() =~= body.records@.subrange(0, k as int));
            assert(sub.last() == body.records@[k as int]);
        }
        let r: &SubfeedRecord = &body.records[k];
        let name: Vec<char> = chars_of(r.model_name.as_str());
        if crate::text::eq_str(&name, "Mod") {
            let s: ModSummary = ModSummary::from_record(r);
            mods.push(s);
        }
        k = k + 1;
    }
    assert(body.records@.subrange(0, body.records.len() as int) =~= body.records@);
    BrowseResult {
        mods,
        total_count: body.metadata.n_record_count,
        per_page: body.metadata.n_perpage,
        is_complete: body.metadata.b_is_complete,
    }
}

// ---------------------------------------------------------------------------
// Mod detail
// ---------------------------------------------------------------------------

#[derive(Debug)]
pub struct ModFile {
    pub id_row: u64,
    pub file_name: String,
    pub filesize: u64,
    pub date_added: Option<u64>,
    pub download_url: String,
    pub md5_checksum: Option<String>,
    pub version: Option<String>,
    pub description: Option<String>,
    pub is_archived: bool,
    pub av_result: Option<String>,
}

#[derive(Debug)]
pub struct ModDataResponse {
    pub name: String,
    pub profile_url: String,
    pub description_html: Option<String>,
    pub preview_media: Option<PreviewMedia>,
    pub submitter: Option<Submitter>,
    pub category: Option<Category>,
    pub files: Vec<ModFile>,
}

#[derive(Debug)]
pub struct ModFileInfo {
    pub id: u64,
    pub file_name: String,
    pub filesize_bytes: u64,
    pub date_added: Option<u64>,
    pub download_url: String,
    pub md5_checksum: Option<String>,
    pub version: Option<String>,
    pub description: Option<String>,
    /// True for older versions superseded by a newer upload.
    pub is_archived: bool,
    /// GameBanana's malware scan verdict for this file, e.g. "clean".
    pub av_result: Option<String>,
}

pub open spec fn file_info_of(i: ModFileInfo, f: ModFile) -> bool {
    &&& i.id == f.id_row
    &&& i.file_name@ == f.file_name@
    &&& i.filesize_bytes == f.filesize
    &&& i.date_added == f.date_added
    &&& i.download_url@ == f.download_url@
    &&& opt_view(i.md5_checksum) == opt_view(f.md5_checksum)
    &&& opt_view(i.version) == opt_view(f.version)
    &&& opt_view(i.description) == opt_view(f.description)
    &&& i.is_archived == f.is_archived
    &&& opt_view(i.av_result) == opt_view(f.av_result)
}

impl ModFileInfo {
    pub fn from_file(f: &ModFile) -> (i: ModFileInfo)
        ensures
            file_info_of(i, *f),
    {
        ModFileInfo {
            id: f.id_row,
            file_name: f.file_name.clone(),
            filesize_bytes: f.filesize,
            date_added: f.date_added,
            download_url: f.download_url.clone(),
            md5_checksum: clone_opt(&f.md5_checksum),
            version: clone_opt(&f.version),
            description: clone_opt(&f.description),
            is_archived: f.is_archived,
            av_result: clone_opt(&f.av_result),
        }
    }
}

impl From<ModFile> for ModFileInfo {
    /// The description of one downloadable file (see `ModFileInfo::from_file`).
    fn from(f: ModFile) -> (i: ModFileInfo)
        ensures
            file_info_of(i, f),
    {
        ModFileInfo::from_file(&f)
    }
}

impl vstd::std_specs::convert::FromSpecImpl<ModFile> for ModFileInfo {
    open spec fn obeys_from_spec() -> bool {
        false
    }

    open spec fn from_spec(f: ModFile) -> ModFileInfo {
        arbitrary()
    }
}

#[derive(Debug)]
pub struct ModDetail {
    pub id: u32,
    pub name: String,
    pub profile_url: String,
    pub description_html: Option<String>,
    /// Full-size image URLs (screenshots gallery), best available size first.
    pub images: Vec<String>,
    pub submitter_name: Option<String>,
    pub submitter_avatar_url: Option<String>,
    pub category: Option<String>,
    pub files: Vec<ModFileInfo>,
}

/// A gallery image URL: the 530px variant, else the 220px one, else the raw
/// file, under the image's base URL.
pub open spec fn gallery_url(img: PreviewImage) -> Seq<char> {
    img.base_url@ + "/"@ + match img.file_530 {
        Some(x) => x@,
        None => match img.file_220 {
            Some(x) => x@,
            None => img.file@,
        },
    }
}

/// The detail view of mod `mod_id` from its decoded record.
pub fn mod_detail_from(mod_id: u32, body: &ModDataResponse) -> (d: ModDetail)
    ensures
        d.id == mod_id,
        d.name@ == body.name@,
        d.profile_url@ == body.profile_url@,
        opt_view(d.description_html) == opt_view(body.description_html),
        d.images@.len() == match body.preview_media {
            Some(m) => m.images@.len(),
            None => 0,
        },
        forall|i: int|
            0 <= i < d.images@.len() ==> d.images@[i]@ == gallery_url(
                body.preview_media->0.images@[i],
            ),
        opt_view(d.submitter_name) == match body.submitter {
            Some(x) => Some(x.name@),
            None => None,
        },
        opt_view(d.submitter_avatar_url) == match body.submitter {
            Some(x) => opt_view(x.avatar_url),
            None => None,
        },
        opt_view(d.category) == match body.category {
            Some(c) => Some(c.name@),
            None => None,
        },
        d.files@.len() == body.files@.len(),
        forall|i: int| 0 <= i < d.files@.len() ==> file_info_of(d.files@[i], body.files@[i]),
{
    let mut images: Vec<String> = Vec::new();
    match &body.preview_media {
        Some(m) => {
            let mut k: usize = 0;
            while k < m.images.len()
                invariant
                    k <= m.images.len(),
                    body.preview_media == Some(*m),
                    images@.len() == k,
                    forall|i: int| 0 <= i < k ==> images@[i]@ == gallery_url(m.images@[i]),
                decreases m.images.len() - k,
            {
                let img: &PreviewImage = &m.images[k];
                let file: &String = match &img.file_530 {
                    Some(x) => x,
                    None => match &img.file_220 {
                        Some(x) => x,
                        None => &img.file,
                    },
                };
                images.push(url_under(&img.base_url, file));
                k = k + 1;
            }
        },
        None => {},
    }
    let mut files: Vec<ModFileInfo> = Vec::new();
    let mut j: usize = 0;
    while j < body.files.len()
        invariant
            j <= body.files.len(),
            files@.len() == j,
            forall|i: int| 0 <= i < j ==> file_info_of(files@[i], body.files@[i]),
        decreases body.files.len() - j,
    {
        files.push(ModFileInfo::from_file(&body.files[j]));
        j = j + 1;
    }
    ModDetail {
        id: mod_id,
        name: body.name.clone(),
        profile_url: body.profile_url.clone(),
        description_html: clone_opt(&body.description_html),
        images,
        submitter_name: match &body.submitter {
            Some(x) => Some(x.name.clone()),
            None => None,
        },
        submitter_avatar_url: match &body.submitter {
            Some(x) => clone_opt(&x.avatar_url),
            None => None,
        },
        category: match &body.category {
            Some(c) => Some(c.name.clone()),
            None => None,
        },
        files,
    }
}

// ---------------------------------------------------------------------------
// Category browsing
// ---------------------------------------------------------------------------

#[derive(Debug)]
pub struct CategoryRecord {
    pub id_row: u32,
    pub name: String,
    pub item_count: u32,
    /// Number of child categories nested under this one; 0 for a leaf.
    pub category_count: u32,
    pub icon_url: Option<String>,
}

/// A single node in GameBanana's category tree.
#[derive(Debug)]
pub struct CategoryNode {
    pub id: u32,
    pub name: String,
    pub item_count: u32,
    pub has_children: bool,
    pub icon_url: Option<String>,
}

impl CategoryNode {
    pub fn from_record(r: &CategoryRecord) -> (n: CategoryNode)
        ensures
            n.id == r.id_row,
            n.name@ == r.name@,
            n.item_count == r.item_count,
            n.has_children == (r.category_count > 0),
            opt_view(n.icon_url) == opt_view(r.icon_url),
    {
        CategoryNode {
            id: r.id_row,
            name: r.name.clone(),
            item_count: r.item_count,
            has_children: r.category_count > 0,
            icon_url: clone_opt(&r.icon_url),
        }
    }
}

impl From<CategoryRecord> for CategoryNode {
    /// The node of one category record (see `CategoryNode::from_record`).
    fn from(r: CategoryRecord) -> (n: CategoryNode)
        ensures
            n.id == r.id_row,
            n.name@ == r.name@,
            n.item_count == r.item_count,
            n.has_children == (r.category_count > 0),
            opt_view(n.icon_url) == opt_view(r.icon_url),
    {
        CategoryNode::from_record(&r)
    }
}

impl vstd::std_specs::convert::FromSpecImpl<CategoryRecord> for CategoryNode {
    open spec fn obeys_from_spec() -> bool {
        false
    }

    open spec fn from_spec(r: CategoryRecord) -> CategoryNode {
        arbitrary()
    }
}

// ---------------------------------------------------------------------------
// Requests
// ---------------------------------------------------------------------------

/// An endpoint URL and the query parameters to append to it, in order.
#[derive(Debug)]
pub struct ApiRequest {
    pub base: String,
    pub query: Vec<(String, String)>,
}

pub open spec fn pairs_view(q: Seq<(String, String)>) -> Seq<(Seq<char>, Seq<char>)> {
    q.map_values(|p: (String, String)| (p.0@, p.1@))
}

pub open spec fn unknown_game_message(game_id: Seq<char>) -> Seq<char> {
    "Unknown game: "@ + game_id
}

pub open spec fn nonblank_search(search: Option<Seq<char>>) -> Option<Seq<char>> {
    match search {
        Some(s) => if trim(s).len() > 0 {
            Some(trim(s))
        } else {
            None
        },
        None => None,
    }
}

/// The request that browses a game's mods: a full-text search when `search`
/// is non-blank, else the category listing when a category is given, else
/// the game's feed.
pub open spec fn browse_request_model(
    game_id: Seq<char>,
    page: u32,
    sort: SortOrder,
    category_id: Option<u32>,
    search: Option<Seq<char>>,
) -> Result<(Seq<char>, Seq<(Seq<char>, Seq<char>)>), Seq<char>> {
    match gb_game_id(game_id) {
        None => Err(unknown_game_message(game_id)),
        Some(gb) => match nonblank_search(search) {
            Some(q) => Ok(
                (
                    API_BASE@ + "/Util/Search/Results"@,
                    seq![
                        ("_sSearchString"@, q),
                        ("_idGameRow"@, decimal(gb as nat)),
                        ("_sModelName"@, "Mod"@),
                        ("_nPage"@, decimal(page as nat)),
                    ],
                ),
            ),
            None => match category_id {
                Some(cat) => {
                    let pairs = seq![
                        ("_nPage"@, decimal(page as nat)),
                        ("_nPerpage"@, decimal(PER_PAGE as nat)),
                        ("_aFilters[Generic_Category]"@, decimal(cat as nat)),
                    ];
                    Ok(
                        (
                            API_BASE@ + "/Mod/Index"@,
                            match sort.mod_index_value() {
                                Some(v) => pairs.push(("_sSort"@, v)),
                                None => pairs,
                            },
                        ),
                    )
                },
                None => Ok(
                    (
                        API_BASE@ + "/Game/"@ + decimal(gb as nat) + "/Subfeed"@,
                        seq![("_nPage"@, decimal(page as nat)), ("_sSort"@, sort.subfeed_value())],
                    ),
                ),
            },
        },
    }
}

pub open spec fn request_view(r: ApiRequest) -> (Seq<char>, Seq<(Seq<char>, Seq<char>)>) {
    (r.base@, pairs_view(r.query@))
}

fn number(n: u64) -> (r: String)
    ensures
        r@ == decimal(n as nat),
{
    let v: Vec<char> = decimal_chars(n);
    string_of(&v)
}

fn unknown_game(game_id: &str) -> (r: String)
    ensures
        r@ == unknown_game_message(game_id@),
{
    let mut v: Vec<char> = chars_of("Unknown game: ");
    append_str(&mut v, game_id);
    string_of(&v)
}

fn concat3(a: &str, b: &str, c: &str) -> (r: String)
    ensures
        r@ == a@ + b@ + c@,
{
    let mut v: Vec<char> = chars_of(a);
    append_str(&mut v, b);
    append_str(&mut v, c);
    string_of(&v)
}

/// The request that browses mods for a game (see `browse_request_model`).
pub fn browse_request(
    game_id: &str,
    page: u32,
    sort: SortOrder,
    category_id: Option<u32>,
    search: Option<&str>,
) -> (r: Result<ApiRequest, String>)
    ensures
        match r {
            Ok(req) => browse_request_model(
                game_id@,
                page,
                sort,
                category_id,
                match search {
                    Some(s) => Some(s@),
                    None => None,
                },
            ) == Ok::<_, Seq<char>>(request_view(req)),
            Err(e) => browse_request_model(
                game_id@,
                page,
                sort,
                category_id,
                match search {
                    Some(s) => Some(s@),
                    None => None,
                },
            ) == Err::<(Seq<char>, Seq<(Seq<char>, Seq<char>)>), _>(e@),
        },
{
    let gb: u32 = match gamebanana_game_id(game_id) {
        Some(g) => g,
        None => {
            return Err(unknown_game(game_id));
        },
    };
    let query_text: Option<String> = match search {
        Some(s) => {
            let v: Vec<char> = chars_of(s);
            let (a, b) = trim_range(&v, 0, v.len());
            assert(v@.subrange(0, v.len() as int) =~= s@);
            if a < b {
                Some(crate::text::string_of_range(&v, a, b))
            } else {
                None
            }
        },
        None => None,
    };
    let mut query: Vec<(String, String)> = Vec::new();
    match query_text {
        Some(q) => {
            query.push((lit("_sSearchString"), q));
            query.push((lit("_idGameRow"), number(gb as u64)));
            query.push((lit("_sModelName"), lit("Mod")));
            query.push((lit("_nPage"), number(page as u64)));
            let base: String = concat3(API_BASE, "/Util/Search/Results", "");
            proof {
                reveal_strlit("");
                assert(API_BASE@ + "/Util/Search/Results"@ + ""@ =~= API_BASE@
                    + "/Util/Search/Results"@);
            }
            let req = ApiRequest { base, query };
            assert(pairs_view(req.query@) =~= browse_request_model(
                game_id@,
                page,
                sort,
                category_id,
                match search {
                    Some(s) => Some(s@),
                    None => None,
                },
            )->Ok_0.1);
            Ok(req)
        },
        None => match category_id {
            Some(cat) => {
                query.push((lit("_nPage"), number(page as u64)));
                query.push((lit("_nPerpage"), number(PER_PAGE as u64)));
                query.push((lit("_aFilters[Generic_Category]"), number(cat as u64)));
                match sort.as_mod_index_query_value() {
                    Some(v) => {
                        query.push((lit("_sSort"), lit(v)));
                    },
                    None => {},
                }
                let base: String = concat3(API_BASE, "/Mod/Index", "");
                proof {
                    reveal_strlit("");
                    assert(API_BASE@ + "/Mod/Index"@ + ""@ =~= API_BASE@ + "/Mod/Index"@);
                }
                let req = ApiRequest { base, query };
                assert(pairs_view(req.query@) =~= browse_request_model(
                    game_id@,
                    page,
                    sort,
                    category_id,
                    match search {
                        Some(s) => Some(s@),
                        None => None,
                    },
                )->Ok_0.1);
                Ok(req)
            },
            None => {
                query.push((lit("_nPage"), number(page as u64)));
                query.push((lit("_sSort"), lit(sort.as_subfeed_query_value())));
                let mut bv: Vec<char> = chars_of(API_BASE);
                append_str(&mut bv, "/Game/");
                let gv: Vec<char> = decimal_chars(gb as u64);
                append_chars(&mut bv, &gv);
                append_str(&mut bv, "/Subfeed");
                let req = ApiRequest { base: string_of(&bv), query };
                assert(pairs_view(req.query@) =~= browse_request_model(
                    game_id@,
                    page,
                    sort,
                    category_id,
                    match search {
                        Some(s) => Some(s@),
                        None => None,
                    },
                )->Ok_0.1);
                Ok(req)
            },
        },
    }
}

/// The request for one level of a game's category tree: the game's root
/// categories, or the children of `parent_category_id`.
pub open spec fn categories_request_model(game_id: Seq<char>, parent: Option<u32>) -> Result<
    (Seq<char>, Seq<(Seq<char>, Seq<char>)>),
    Seq<char>,
> {
    match parent {
        Some(cat) => Ok(
            (
                API_BASE@ + "/Mod/Categories"@,
                seq![("_sSort"@, "a_to_z"@), ("_idCategoryRow"@, decimal(cat as nat))],
            ),
        ),
        None => match gb_game_id(game_id) {
            Some(gb) => Ok(
                (
                    API_BASE@ + "/Mod/Categories"@,
                    seq![("_sSort"@, "a_to_z"@), ("_idGameRow"@, decimal(gb as nat))],
                ),
            ),
            None => Err(unknown_game_message(game_id)),
        },
    }
}

pub fn categories_request(game_id: &str, parent_category_id: Option<u32>) -> (r: Result<
    ApiRequest,
    String,
>)
    ensures
        match r {
            Ok(req) => categories_request_model(game_id@, parent_category_id) == Ok::<
                _,
                Seq<char>,
            >(request_view(req)),
            Err(e) => categories_request_model(game_id@, parent_category_id) == Err::<
                (Seq<char>, Seq<(Seq<char>, Seq<char>)>),
                _,
            >(e@),
        },
{
    let mut query: Vec<(String, String)> = Vec::new();
    query.push((lit("_sSort"), lit("a_to_z")));
    match parent_category_id {
        Some(cat) => {
            query.push((lit("_idCategoryRow"), number(cat as u64)));
        },
        None => match gamebanana_game_id(game_id) {
            Some(gb) => {
                query.push((lit("_idGameRow"), number(gb as u64)));
            },
            None => {
                return Err(unknown_game(game_id));
            },
        },
    }
    let base: String = concat3(API_BASE, "/Mod/Categories", "");
    proof {
        reveal_strlit("");
        assert(API_BASE@ + "/Mod/Categories"@ + ""@ =~= API_BASE@ + "/Mod/Categories"@);
    }
    let req = ApiRequest { base, query };
    assert(pairs_view(req.query@) =~= categories_request_model(
        game_id@,
        parent_category_id,
    )->Ok_0.1);
    Ok(req)
}

/// The URL of a mod's detail record.
pub open spec fn detail_url_model(mod_id: u32) -> Seq<char> {
    API_BASE@ + "/Mod/"@ + decimal(mod_id as nat)
        + "?_csvProperties=_sName,_sProfileUrl,_sText,_aPreviewMedia,_aSubmitter,_aCategory,_aFiles"@
}

pub fn detail_url(mod_id: u32) -> (r: String)
    ensures
        r@ == detail_url_model(mod_id),
{
    let mut v: Vec<char> = chars_of(API_BASE);
    append_str(&mut v, "/Mod/");
    let d: Vec<char> = decimal_chars(mod_id as u64);
    append_chars(&mut v, &d);
    append_str(
        &mut v,
        "?_csvProperties=_sName,_sProfileUrl,_sText,_aPreviewMedia,_aSubmitter,_aCategory,_aFiles",
    );
    string_of(&v)
}

/// What `reqwest::Url` gives for `base` with `pairs` appended to its query
/// (form-urlencoded): the serialized URL, or the parse error's message.
pub uninterp spec fn url_with_query(base: Seq<char>, pairs: Seq<(Seq<char>, Seq<char>)>) -> Result<
    Seq<char>,
    Seq<char>,
>;

/// Parses `base` with `reqwest::Url::parse` and appends `pairs` with
/// `query_pairs_mut().extend_pairs`; the result is named `url_with_query`.
#[verifier::external_body]
fn encode_url(base: &str, pairs: &Vec<(String, String)>) -> (r: Result<String, String>)
    ensures
        match r {
            Ok(u) => url_with_query(base@, pairs_view(pairs@)) == Ok::<_, Seq<char>>(u@),
            Err(e) => url_with_query(base@, pairs_view(pairs@)) == Err::<Seq<char>, _>(e@),
        },
{
    let mut url = reqwest::Url::parse(base).map_err(|e| e.to_string())?;
    url.query_pairs_mut().extend_pairs(pairs.iter());
    Ok(url.to_string())
}

pub open spec fn url_result_view(r: Result<String, String>) -> Result<Seq<char>, Seq<char>> {
    match r {
        Ok(u) => Ok(u@),
        Err(e) => Err(e@),
    }
}

/// The full URL of a request.
pub fn request_url(req: &ApiRequest) -> (r: Result<String, String>)
    ensures
        url_result_view(r) == url_with_query(req.base@, pairs_view(req.query@)),
{
    encode_url(req.base.as_str(), &req.query)
}

/// The URL that browses mods for a game: the request of `browse_request`,
/// encoded.
pub fn browse_url(
    game_id: &str,
    page: u32,
    sort: SortOrder,
    category_id: Option<u32>,
    search: Option<&str>,
) -> (r: Result<String, String>)
    ensures
        url_result_view(r) == match browse_request_model(
            game_id@,
            page,
            sort,
            category_id,
            match search {
                Some(s) => Some(s@),
                None => None,
            },
        ) {
            Ok(req) => url_with_query(req.0, req.1),
            Err(e) => Err(e),
        },
{
    match browse_request(game_id, page, sort, category_id, search) {
        Ok(req) => request_url(&req),
        Err(e) => Err(e),
    }
}

/// The URL of one level of a game's category tree.
pub fn categories_url(game_id: &str, parent_category_id: Option<u32>) -> (r: Result<String, String>)
    ensures
        url_result_view(r) == match categories_request_model(game_id@, parent_category_id) {
            Ok(req) => url_with_query(req.0, req.1),
            Err(e) => Err(e),
        },
{
    match categories_request(game_id, parent_category_id) {
        Ok(req) => request_url(&req),
        Err(e) => Err(e),
    }
}

/// The nodes of one decoded level of the category tree, in order.
pub fn category_nodes(records: &Vec<CategoryRecord>) -> (r: Vec<CategoryNode>)
    ensures
        r@.len() == records@.len(),
        forall|i: int|
            0 <= i < r@.len() ==> {
                &&& r@[i].id == records@[i].id_row
                &&& r@[i].name@ == records@[i].name@
                &&& r@[i].item_count == records@[i].item_count
                &&& r@[i].has_children == (records@[i].category_count > 0)
                &&& opt_view(r@[i].icon_url) == opt_view(records@[i].icon_url)
            },
{
    let mut out: Vec<CategoryNode> = Vec::new();
    let mut k: usize = 0;
    while k < records.len()
        invariant
            k <= records.len(),
            out@.len() == k,
            forall|i: int|
                0 <= i < k ==> {
                    &&& out@[i].id == records@[i].id_row
                    &&& out@[i].name@ == records@[i].name@
                    &&& out@[i].item_count == records@[i].item_count
                    &&& out@[i].has_children == (records@[i].category_count > 0)
                    &&& opt_view(out@[i].icon_url) == opt_view(records@[i].icon_url)
                },
        decreases records.len() - k,
    {
        out.push(CategoryNode::from_record(&records[k]));
        k = k + 1;
    }
    out
}

/// The feed's sort parameter takes GameBanana's own names for the three
/// orders, and no two orders share a name.
pub proof fn law_subfeed_sort_names()
    ensures
        SortOrder::Default.subfeed_value() == "default"@,
        SortOrder::New.subfeed_value() == "new"@,
        SortOrder::Updated.subfeed_value() == "updated"@,
        forall|a: SortOrder, b: SortOrder| a != b ==> a.subfeed_value() != b.subfeed_value(),
{
    reveal_strlit("default");
    reveal_strlit("new");
    reveal_strlit("updated");
    assert("default"@.len() == 7 && "new"@.len() == 3 && "updated"@.len() == 7);
    assert("default"@[0] == 'd' && "updated"@[0] == 'u');
}

/// Browsing a game's feed (no search, no category) asks for the sort the
/// user chose: the request's `_sSort` parameter is that order's name, so
/// two different orders give two different requests.
pub proof fn law_feed_request_carries_the_sort(
    game_id: Seq<char>,
    page: u32,
    sort: SortOrder,
    other: SortOrder,
)
    requires
        gb_game_id(game_id) is Some,
    ensures
        browse_request_model(game_id, page, sort, None, None) matches Ok(req) && req.1.contains(
            ("_sSort"@, sort.subfeed_value()),
        ),
        sort != other ==> browse_request_model(game_id, page, sort, None, None)
            != browse_request_model(game_id, page, other, None, None),
{
    law_subfeed_sort_names();
    let q = seq![("_nPage"@, decimal(page as nat)), ("_sSort"@, sort.subfeed_value())];
    assert(q[1] == ("_sSort"@, sort.subfeed_value()));
    let r = browse_request_model(game_id, page, sort, None, None);
    let o = browse_request_model(game_id, page, other, None, None);
    if sort != other && r == o {
        assert(r->Ok_0.1[1] == o->Ok_0.1[1]);
    }
}

/// Browsing a category asks for the chosen order by its category-listing
/// name (`Generic_Newest`, `Generic_LatestUpdated`) and leaves the sort out
/// for the default order.
pub proof fn law_category_request_carries_the_sort(
    game_id: Seq<char>,
    page: u32,
    sort: SortOrder,
    category: u32,
)
    requires
        gb_game_id(game_id) is Some,
    ensures
        browse_request_model(game_id, page, sort, Some(category), None) matches Ok(req) && ({
            &&& sort == SortOrder::New ==> req.1.contains(("_sSort"@, "Generic_Newest"@))
            &&& sort == SortOrder::Updated ==> req.1.contains(
                ("_sSort"@, "Generic_LatestUpdated"@),
            )
            &&& sort == SortOrder::Default ==> forall|i: int|
                0 <= i < req.1.len() ==> (#[trigger] req.1[i]).0 != "_sSort"@
        }),
{
    let req = browse_request_model(game_id, page, sort, Some(category), None)->Ok_0;
    if sort == SortOrder::Default {
        reveal_strlit("_sSort");
        reveal_strlit("_nPage");
        reveal_strlit("_nPerpage");
        reveal_strlit("_aFilters[Generic_Category]");
        assert("_sSort"@.len() == 6 && "_nPage"@.len() == 6 && "_nPage"@[1] == 'n'
            && "_sSort"@[1] == 's');
    } else {
        assert(req.1[3].0 == "_sSort"@);
    }
}

} // verus!
