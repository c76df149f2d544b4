use mod_manager::gamebanana::{
    browse_request, browse_result_from, categories_request, category_nodes, detail_url,
    gamebanana_game_id, mod_detail_from, CategoryRecord, ModDataResponse, ModFile, ModSummary,
    PreviewImage, PreviewMedia, Submitter, Category, SortOrder, SubfeedMetadata, SubfeedRecord,
    SubfeedResponse,
};

#[test]
fn maps_all_supported_games_to_gamebanana_ids() {
    assert_eq!(gamebanana_game_id("genshin-impact"), Some(8552));
    assert_eq!(gamebanana_game_id("honkai-star-rail"), Some(18366));
    assert_eq!(gamebanana_game_id("wuthering-waves"), Some(20357));
    assert_eq!(gamebanana_game_id("zenless-zone-zero"), Some(19567));
    assert_eq!(gamebanana_game_id("arknights-endfield"), Some(21842));
    assert_eq!(gamebanana_game_id("not-a-real-game"), None);
}

#[test]
fn sort_order_query_values_match_gamebanana_api() {
    assert_eq!(SortOrder::Default.as_subfeed_query_value(), "default");
    assert_eq!(SortOrder::New.as_subfeed_query_value(), "new");
    assert_eq!(SortOrder::Updated.as_subfeed_query_value(), "updated");
}

#[test]
fn mod_index_sort_aliases_match_list_filter_config() {
    assert_eq!(SortOrder::Default.as_mod_index_query_value(), None);
    assert_eq!(SortOrder::New.as_mod_index_query_value(), Some("Generic_Newest"));
    assert_eq!(
        SortOrder::Updated.as_mod_index_query_value(),
        Some("Generic_LatestUpdated")
    );
}

fn sample_record(has_ratings: bool, visibility: Option<&str>) -> SubfeedRecord {
    SubfeedRecord {
        id_row: 12345,
        model_name: "Mod".to_string(),
        name: "Test Mod".to_string(),
        profile_url: "https://gamebanana.com/mods/12345".to_string(),
        ts_date_added: Some(1000),
        ts_date_updated: Some(2000),
        preview_media: Some(PreviewMedia {
            images: vec![PreviewImage {
                base_url: "https://images.gamebanana.com/img/ss/mods".to_string(),
                file_220: Some("220-90_abc.jpg".to_string()),
                file_530: Some("530-90_abc.jpg".to_string()),
                file_100: Some("100-90_abc.jpg".to_string()),
                file: "abc.jpg".to_string(),
            }],
        }),
        submitter: Some(Submitter {
            name: "SomeModder".to_string(),
            avatar_url: Some("https://images.gamebanana.com/img/av/abc.jpg".to_string()),
        }),
        root_category: Some(Category { name: "Skins".to_string() }),
        sub_category: Some(Category { name: "Furina".to_string() }),
        like_count: 42,
        view_count: 999,
        has_content_ratings: has_ratings,
        initial_visibility: visibility.map(String::from),
        was_featured: true,
    }
}

#[test]
fn thumbnail_prefers_220px_variant() {
    let summary: ModSummary = sample_record(false, Some("show")).into();
    assert_eq!(
        summary.thumbnail_url,
        Some("https://images.gamebanana.com/img/ss/mods/220-90_abc.jpg".to_string())
    );
}

#[test]
fn thumbnail_falls_back_when_220_missing() {
    let mut record = sample_record(false, Some("show"));
    if let Some(media) = record.preview_media.as_mut() {
        media.images[0].file_220 = None;
    }
    let summary: ModSummary = record.into();
    assert_eq!(
        summary.thumbnail_url,
        Some("https://images.gamebanana.com/img/ss/mods/100-90_abc.jpg".to_string())
    );
}

#[test]
fn thumbnail_uses_530_then_raw_file() {
    let mut record = sample_record(false, Some("show"));
    if let Some(media) = record.preview_media.as_mut() {
        media.images[0].file_220 = None;
        media.images[0].file_100 = None;
    }
    let summary = ModSummary::from_record(&record);
    assert_eq!(
        summary.thumbnail_url,
        Some("https://images.gamebanana.com/img/ss/mods/530-90_abc.jpg".to_string())
    );
    if let Some(media) = record.preview_media.as_mut() {
        media.images[0].file_530 = None;
    }
    let summary = ModSummary::from_record(&record);
    assert_eq!(
        summary.thumbnail_url,
        Some("https://images.gamebanana.com/img/ss/mods/abc.jpg".to_string())
    );
}

#[test]
fn empty_image_list_means_no_thumbnail() {
    let mut record = sample_record(false, Some("show"));
    record.preview_media = Some(PreviewMedia { images: vec![] });
    let summary: ModSummary = record.into();
    assert_eq!(summary.thumbnail_url, None);
}

#[test]
fn no_preview_media_means_no_thumbnail() {
    let mut record = sample_record(false, Some("show"));
    record.preview_media = None;
    let summary: ModSummary = record.into();
    assert_eq!(summary.thumbnail_url, None);
}

#[test]
fn nsfw_heuristic_flags_hidden_content_rated_mods() {
    let summary: ModSummary = sample_record(true, Some("hide")).into();
    assert!(summary.likely_nsfw);

    let summary: ModSummary = sample_record(true, Some("warn")).into();
    assert!(summary.likely_nsfw);
}

#[test]
fn nsfw_heuristic_does_not_flag_visible_content() {
    let summary: ModSummary = sample_record(true, Some("show")).into();
    assert!(!summary.likely_nsfw);

    let summary: ModSummary = sample_record(false, Some("hide")).into();
    assert!(!summary.likely_nsfw);

    let summary: ModSummary = sample_record(true, None).into();
    assert!(!summary.likely_nsfw);
}

#[test]
fn maps_record_fields_through_to_summary() {
    let summary: ModSummary = sample_record(false, Some("show")).into();
    assert_eq!(summary.id, 12345);
    assert_eq!(summary.name, "Test Mod");
    assert_eq!(summary.submitter_name, Some("SomeModder".to_string()));
    assert_eq!(summary.category, Some("Skins".to_string()));
    assert_eq!(summary.sub_category, Some("Furina".to_string()));
    assert_eq!(summary.like_count, 42);
    assert_eq!(summary.view_count, 999);
    assert!(summary.featured);
    assert_eq!(
        summary.submitter_avatar_url,
        Some("https://images.gamebanana.com/img/av/abc.jpg".to_string())
    );
    assert_eq!(summary.date_added, Some(1000));
    assert_eq!(summary.date_updated, Some(2000));
}

#[test]
fn browse_result_keeps_only_mod_records() {
    let mut request = sample_record(false, Some("show"));
    request.model_name = "Request".to_string();
    request.name = "Some request".to_string();
    let body = SubfeedResponse {
        metadata: SubfeedMetadata { n_record_count: 100, n_perpage: 15, b_is_complete: false },
        records: vec![sample_record(false, None), request, sample_record(true, Some("hide"))],
    };
    let result = browse_result_from(&body);
    assert_eq!(result.mods.len(), 2);
    assert_eq!(result.mods[0].name, "Test Mod");
    assert!(result.mods[1].likely_nsfw);
    assert_eq!(result.total_count, 100);
    assert_eq!(result.per_page, 15);
    assert!(!result.is_complete);
}

fn pairs(req: &mod_manager::gamebanana::ApiRequest) -> Vec<(String, String)> {
    req.query.clone()
}

fn p(a: &str, b: &str) -> (String, String) {
    (a.to_string(), b.to_string())
}

#[test]
fn browse_request_uses_search_when_query_is_not_blank() {
    let req = browse_request("genshin-impact", 2, SortOrder::New, Some(7), Some("  furina ")).unwrap();
    assert_eq!(req.base, "https://gamebanana.com/apiv11/Util/Search/Results");
    assert_eq!(
        pairs(&req),
        vec![
            p("_sSearchString", "furina"),
            p("_idGameRow", "8552"),
            p("_sModelName", "Mod"),
            p("_nPage", "2"),
        ]
    );
}

#[test]
fn browse_request_filters_by_category_without_search() {
    let req = browse_request("wuthering-waves", 1, SortOrder::Updated, Some(321), Some("   ")).unwrap();
    assert_eq!(req.base, "https://gamebanana.com/apiv11/Mod/Index");
    assert_eq!(
        pairs(&req),
        vec![
            p("_nPage", "1"),
            p("_nPerpage", "15"),
            p("_aFilters[Generic_Category]", "321"),
            p("_sSort", "Generic_LatestUpdated"),
        ]
    );
    let req = browse_request("wuthering-waves", 1, SortOrder::Default, Some(321), None).unwrap();
    assert_eq!(req.query.len(), 3);
}

#[test]
fn browse_request_uses_game_feed_otherwise() {
    let req = browse_request("zenless-zone-zero", 3, SortOrder::Default, None, None).unwrap();
    assert_eq!(req.base, "https://gamebanana.com/apiv11/Game/19567/Subfeed");
    assert_eq!(pairs(&req), vec![p("_nPage", "3"), p("_sSort", "default")]);
}

#[test]
fn browse_request_rejects_unknown_game() {
    let err = browse_request("minecraft", 1, SortOrder::Default, None, None).unwrap_err();
    assert_eq!(err, "Unknown game: minecraft");
}

#[test]
fn categories_request_root_and_children() {
    let req = categories_request("genshin-impact", None).unwrap();
    assert_eq!(req.base, "https://gamebanana.com/apiv11/Mod/Categories");
    assert_eq!(pairs(&req), vec![p("_sSort", "a_to_z"), p("_idGameRow", "8552")]);
    let req = categories_request("no-such-game", Some(17510)).unwrap();
    assert_eq!(pairs(&req), vec![p("_sSort", "a_to_z"), p("_idCategoryRow", "17510")]);
    let err = categories_request("no-such-game", None).unwrap_err();
    assert_eq!(err, "Unknown game: no-such-game");
}

#[test]
fn browse_url_encodes_query() {
    let url = mod_manager::gamebanana::browse_url("genshin-impact", 1, SortOrder::New, None, Some("a b&c"))
        .unwrap();
    assert_eq!(
        url,
        "https://gamebanana.com/apiv11/Util/Search/Results?_sSearchString=a+b%26c&_idGameRow=8552&_sModelName=Mod&_nPage=1"
    );
    let url = mod_manager::gamebanana::categories_url("genshin-impact", Some(5)).unwrap();
    assert_eq!(url, "https://gamebanana.com/apiv11/Mod/Categories?_sSort=a_to_z&_idCategoryRow=5");
}

#[test]
fn detail_url_lists_properties() {
    assert_eq!(
        detail_url(626136),
        "https://gamebanana.com/apiv11/Mod/626136?_csvProperties=_sName,_sProfileUrl,_sText,_aPreviewMedia,_aSubmitter,_aCategory,_aFiles"
    );
}

#[test]
fn mod_detail_maps_gallery_and_files() {
    let body = ModDataResponse {
        name: "FocusLines 7.0+".to_string(),
        profile_url: "https://gamebanana.com/mods/626136".to_string(),
        description_html: Some("<strong>Hello!</strong>".to_string()),
        preview_media: Some(PreviewMedia {
            images: vec![
                PreviewImage {
                    base_url: "https://images.gamebanana.com/img/ss/mods".to_string(),
                    file_220: Some("220-90_abc.jpg".to_string()),
                    file_530: Some("530-90_abc.jpg".to_string()),
                    file_100: None,
                    file: "abc.jpg".to_string(),
                },
                PreviewImage {
                    base_url: "https://b".to_string(),
                    file_220: None,
                    file_530: None,
                    file_100: Some("100.jpg".to_string()),
                    file: "raw.jpg".to_string(),
                },
            ],
        }),
        submitter: Some(Submitter { name: "Momoka_".to_string(), avatar_url: None }),
        category: Some(Category { name: "Other/Misc".to_string() }),
        files: vec![ModFile {
            id_row: 1798362,
            file_name: "focuslines_703.7z".to_string(),
            filesize: 92558756,
            date_added: Some(1787783417),
            download_url: "https://gamebanana.com/dl/1798362".to_string(),
            md5_checksum: Some("32deadbe83aa41d2d9ad2c0ce13f421e".to_string()),
            version: None,
            description: None,
            is_archived: false,
            av_result: Some("clean".to_string()),
        }],
    };
    let d = mod_detail_from(626136, &body);
    assert_eq!(d.id, 626136);
    assert_eq!(
        d.images,
        vec![
            "https://images.gamebanana.com/img/ss/mods/530-90_abc.jpg".to_string(),
            "https://b/raw.jpg".to_string()
        ]
    );
    assert_eq!(d.submitter_name, Some("Momoka_".to_string()));
    assert_eq!(d.submitter_avatar_url, None);
    assert_eq!(d.category, Some("Other/Misc".to_string()));
    assert_eq!(d.files.len(), 1);
    assert_eq!(d.files[0].id, 1798362);
    assert_eq!(d.files[0].filesize_bytes, 92558756);
    assert_eq!(d.files[0].av_result, Some("clean".to_string()));
    assert_eq!(d.description_html, Some("<strong>Hello!</strong>".to_string()));
}

#[test]
fn category_nodes_mark_leaves() {
    let records = vec![
        CategoryRecord {
            id_row: 17510,
            name: "Skins".to_string(),
            item_count: 12207,
            category_count: 3,
            icon_url: Some("https://x/1.png".to_string()),
        },
        CategoryRecord {
            id_row: 24279,
            name: "Waverider".to_string(),
            item_count: 11,
            category_count: 0,
            icon_url: None,
        },
    ];
    let nodes = category_nodes(&records);
    assert_eq!(nodes[0].id, 17510);
    assert_eq!(nodes[0].name, "Skins");
    assert!(nodes[0].has_children);
    assert!(!nodes[1].has_children);
    assert_eq!(nodes[1].item_count, 11);
}
