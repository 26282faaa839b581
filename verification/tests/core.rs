use volarc::discover::{filter_volumes, parse_listing_page, parse_volume_id, Discovery};
use volarc::error::NpError;
use volarc::extract::{
    extract_date, extract_extension, extract_images, extract_title, real_body,
};
use volarc::pipeline::{
    dir_name, plan_assets, skip_candidate, start, step, ItemAction, ItemEvent, ItemState,
};
use volarc::text::normalize_date;
use volarc::volume::Volume;

fn vol(id: &str, title: Option<&str>, date: Option<&str>) -> Volume {
    Volume {
        id: id.to_string(),
        title: title.map(|t| t.to_string()),
        date: date.map(|d| d.to_string()),
    }
}

fn page(ids: &[&str]) -> Vec<Volume> {
    ids.iter().map(|i| vol(i, Some(&format!("title {}", i)), Some("20230101"))).collect()
}

// --- date normalization ---

#[test]
fn date_normalization_basic() {
    assert_eq!(normalize_date("2023-05-07T12:34:56+09:00").unwrap(), "20230507");
}

#[test]
fn date_normalization_exact_prefix() {
    assert_eq!(normalize_date("1999-12-31").unwrap(), "19991231");
}

#[test]
fn date_normalization_too_short() {
    assert!(normalize_date("2023-05").is_none());
    assert!(normalize_date("").is_none());
}

// --- deduplication ---

#[test]
fn dedup_repeated_ids_keeps_first_metadata() {
    let mut d = Discovery::new(None);
    let vols = vec![
        vol("1", Some("first"), Some("20230101")),
        vol("2", Some("second"), None),
        vol("1", Some("stale"), Some("20240101")),
        vol("3", None, None),
        vol("2", Some("stale too"), None),
    ];
    d.step(&vols);
    let ids: Vec<&str> = d.vols.iter().map(|v| v.id.as_str()).collect();
    assert_eq!(ids, vec!["1", "2", "3"]);
    assert_eq!(d.vols[0].title.as_deref(), Some("first"));
    assert_eq!(d.vols[0].date.as_deref(), Some("20230101"));
    assert_eq!(d.vols[1].title.as_deref(), Some("second"));
}

#[test]
fn dedup_across_pages() {
    let mut d = Discovery::new(None);
    d.step(&page(&["1", "2"]));
    d.step(&page(&["2", "3"]));
    let ids: Vec<&str> = d.vols.iter().map(|v| v.id.as_str()).collect();
    assert_eq!(ids, vec!["1", "2", "3"]);
}

// --- pagination termination ---

#[test]
fn pagination_four_pages_thirty_volumes() {
    let ids: Vec<String> = (0..30).map(|i| i.to_string()).collect();
    let pages: Vec<Vec<&str>> = vec![
        ids[0..10].iter().map(|s| s.as_str()).collect(),
        ids[10..20].iter().map(|s| s.as_str()).collect(),
        ids[20..30].iter().map(|s| s.as_str()).collect(),
        Vec::new(),
    ];
    let mut d = Discovery::new(None);
    let mut fetched = 0;
    while !d.done {
        let p = page(&pages[(d.page - 1) as usize]);
        d.step(&p);
        fetched += 1;
    }
    assert_eq!(fetched, 4);
    assert_eq!(d.vols.len(), 30);
}

// --- limit truncation ---

#[test]
fn limit_truncates_to_fifteen_in_order() {
    let ids: Vec<String> = (0..30).map(|i| i.to_string()).collect();
    let pages: Vec<Vec<&str>> = vec![
        ids[0..10].iter().map(|s| s.as_str()).collect(),
        ids[10..20].iter().map(|s| s.as_str()).collect(),
        ids[20..30].iter().map(|s| s.as_str()).collect(),
        Vec::new(),
    ];
    let mut d = Discovery::new(Some(15));
    let mut fetched = 0;
    while !d.done {
        let p = page(&pages[(d.page - 1) as usize]);
        d.step(&p);
        fetched += 1;
    }
    assert_eq!(fetched, 2);
    assert_eq!(d.vols.len(), 15);
    let got: Vec<&str> = d.vols.iter().map(|v| v.id.as_str()).collect();
    let want: Vec<&str> = ids[0..15].iter().map(|s| s.as_str()).collect();
    assert_eq!(got, want);
}

// --- title filter ---

#[test]
fn filter_case_insensitive_keeps_order() {
    let vols = vec![
        vol("1", Some("Foo"), None),
        vol("2", Some("bar"), None),
        vol("3", Some("FooBar"), None),
    ];
    let kept = filter_volumes("foo", &vols).unwrap();
    let titles: Vec<&str> = kept.iter().map(|v| v.title.as_deref().unwrap()).collect();
    assert_eq!(titles, vec!["Foo", "FooBar"]);
}

#[test]
fn filter_drops_absent_titles() {
    let vols = vec![vol("1", None, None), vol("2", Some("anything"), None)];
    let kept = filter_volumes(".*", &vols).unwrap();
    assert_eq!(kept.len(), 1);
    assert_eq!(kept[0].id, "2");
}

#[test]
fn filter_rejects_malformed_pattern() {
    let vols = vec![vol("1", Some("a"), None)];
    let r = filter_volumes("(", &vols);
    assert!(matches!(r, Err(NpError::Parse { .. })));
}

// --- volume-id parsing ---

#[test]
fn volume_id_from_url() {
    let r = parse_volume_id("https://example.com/viewer/postView.nhn?volumeNo=12345&memberNo=9");
    assert_eq!(r.unwrap(), "12345");
}

#[test]
fn volume_id_first_occurrence_wins() {
    let r = parse_volume_id("x?volumeNo=77&y=volumeNo=88");
    assert_eq!(r.unwrap(), "77");
}

#[test]
fn volume_id_missing_is_parse_error() {
    let url = "https://example.com/viewer?memberNo=9";
    match parse_volume_id(url) {
        Err(NpError::Parse { what }) => assert_eq!(what, url),
        other => panic!("expected parse error, got {:?}", other),
    }
}

#[test]
fn volume_id_marker_without_digits_is_error() {
    assert!(parse_volume_id("x?volumeNo=abc").is_err());
}

// --- listing parsing ---

#[test]
fn listing_page_parses_entries() {
    let text = "{\"html\": \"<li volumeno=\\\"8\\\"><span class=\\\"tit_feed\\\">Hello\\nWorld </span><span class=\\\"date_post\\\"> 2024.01.02. </span></li><li volumeno=\\\"9\\\"></li>\"}";
    let vols = parse_listing_page(text).unwrap();
    assert_eq!(vols.len(), 2);
    assert_eq!(vols[0].id, "8");
    assert_eq!(vols[0].title.as_deref(), Some("HelloWorld"));
    assert_eq!(vols[0].date.as_deref(), Some("20240102"));
    assert_eq!(vols[1].id, "9");
    assert!(vols[1].title.is_none());
    assert!(vols[1].date.is_none());
}

#[test]
fn listing_page_unescapes_platform_quirk() {
    // The platform escapes `/` as `\/` inside the envelope; the unescape
    // pass must remove the backslash before JSON parsing.
    let text = "{\"html\": \"<li volumeno=\\\"3\\\"><i class=\\\"tit_feed\\\">a\\/b</i></li>\"}";
    let vols = parse_listing_page(text).unwrap();
    assert_eq!(vols.len(), 1);
    assert_eq!(vols[0].title.as_deref(), Some("a/b"));
}

#[test]
fn listing_page_malformed_envelope_is_error() {
    assert!(matches!(parse_listing_page("not json"), Err(NpError::Parse { .. })));
    assert!(matches!(parse_listing_page("{\"other\": 1}"), Err(NpError::Parse { .. })));
}

// --- detail extraction ---

#[test]
fn detail_date_extracted_and_normalized() {
    let html = "<html><head><meta property=\"og:createdate\" content=\" 2023-05-07T01:02 \"></head><body></body></html>";
    assert_eq!(extract_date(html).unwrap(), "20230507");
}

#[test]
fn detail_date_missing_is_parse_error() {
    assert!(matches!(extract_date("<html></html>"), Err(NpError::Parse { .. })));
}

#[test]
fn detail_date_too_short_is_parse_error() {
    let html = "<html><head><meta property=\"og:createdate\" content=\"2023\"></head></html>";
    assert!(matches!(extract_date(html), Err(NpError::Parse { .. })));
}

#[test]
fn detail_title_extracted_and_cleaned() {
    let html = "<html><head><meta property=\"nv:news:title\" content=\" My\nTitle \"></head></html>";
    assert_eq!(extract_title(html).unwrap(), "MyTitle");
}

#[test]
fn detail_title_missing_is_parse_error() {
    assert!(matches!(extract_title("<html></html>"), Err(NpError::Parse { .. })));
}

#[test]
fn real_body_decodes_embedded_script() {
    let html = "<html><body><script id=\"__clipContent\">&lt;div&gt;one&lt;/div&gt;</script><script id=\"__clipContent\">&lt;p&gt;two&lt;/p&gt;</script></body></html>";
    assert_eq!(real_body(html), "<div>one</div><p>two</p>");
}

#[test]
fn real_body_empty_without_script() {
    assert_eq!(real_body("<html><body><p>x</p></body></html>"), "");
}

// --- image extraction ---

#[test]
fn images_primary_selector_query_stripped() {
    let body = "<div><img class=\"se_mediaImage\" data-src=\"https://post-phinf.pstatic.net/a/one.JPG?type=w1200\"><img class=\"se_mediaImage\" data-src=\"https://post-phinf.pstatic.net/b/two.png\"></div>";
    let imgs = extract_images(body);
    assert_eq!(
        imgs,
        vec![
            "https://post-phinf.pstatic.net/a/one.JPG".to_string(),
            "https://post-phinf.pstatic.net/b/two.png".to_string(),
        ]
    );
}

#[test]
fn images_untrusted_host_dropped() {
    let body = "<div><img class=\"se_mediaImage\" data-src=\"https://elsewhere.example/one.jpg\"></div>";
    assert!(extract_images(body).is_empty());
}

#[test]
fn images_fallback_selector_used_when_primary_empty() {
    let body = "<div><img class=\"img_attachedfile\" data-src=\"https://post-phinf.pstatic.net/c/three.gif?x=1\"></div>";
    let imgs = extract_images(body);
    assert_eq!(imgs, vec!["https://post-phinf.pstatic.net/c/three.gif".to_string()]);
}

// --- extension extraction ---

#[test]
fn extension_lowercased_with_dot() {
    assert_eq!(extract_extension("https://host/a/photo.JPG"), ".jpg");
}

#[test]
fn extension_absent_is_empty() {
    assert_eq!(extract_extension("https://host/a/photo"), "");
}

#[test]
fn extension_hidden_name_is_empty() {
    assert_eq!(extract_extension("https://host/a/.hidden"), "");
}

#[test]
fn extension_parent_segment_is_empty() {
    assert_eq!(extract_extension("https://host/a/.."), "");
}

#[test]
fn extension_lowercases_beyond_ascii() {
    assert_eq!(extract_extension("https://host/a/f.ÖTF"), ".ötf");
}

// --- destination naming and skip decision ---

#[test]
fn dir_name_joins_with_dashes() {
    assert_eq!(dir_name("20230507", "123", "My Title"), "20230507-123-My Title");
}

#[test]
fn skip_candidate_needs_complete_numeric_metadata() {
    assert_eq!(
        skip_candidate(&vol("9", Some("T"), Some("20230507"))).as_deref(),
        Some("20230507-9-T")
    );
    assert!(skip_candidate(&vol("9", None, Some("20230507"))).is_none());
    assert!(skip_candidate(&vol("9", Some("T"), None)).is_none());
    assert!(skip_candidate(&vol("9", Some("T"), Some("2023.05.07"))).is_none());
}

// --- filename planning ---

#[test]
fn filenames_deterministic_by_ordinal() {
    let urls = vec![
        "https://post-phinf.pstatic.net/a/urlA.jpg".to_string(),
        "https://post-phinf.pstatic.net/b/urlB.PNG".to_string(),
        "https://post-phinf.pstatic.net/c/urlC".to_string(),
    ];
    let plan = plan_assets("20230507", "123", "T", &urls);
    assert_eq!(plan.len(), 3);
    assert_eq!(plan[0].name, "20230507-123-T-img001.jpg");
    assert_eq!(plan[1].name, "20230507-123-T-img002.png");
    assert_eq!(plan[2].name, "20230507-123-T-img003");
    assert_eq!(plan[0].url, urls[0]);
    assert_eq!(plan[2].url, urls[2]);
}

// --- the item pipeline state machine ---

#[test]
fn pipeline_skips_existing_destination_without_network() {
    let v = vol("11", Some("T"), Some("20230507"));
    let (st, act) = start(v);
    match &act {
        ItemAction::CheckExists(d) => assert_eq!(d, "20230507-11-T"),
        other => panic!("expected existence probe, got {:?}", other),
    }
    let (st2, act2) = step(st, ItemEvent::Exists(true)).unwrap();
    assert!(matches!(st2, ItemState::Skipped));
    assert!(matches!(act2, ItemAction::Finish));
}

#[test]
fn pipeline_second_check_skips_existing_destination() {
    let st = ItemState::CheckAgain {
        id: "21".to_string(),
        date: "20230507".to_string(),
        title: "T".to_string(),
        assets: vec!["https://post-phinf.pstatic.net/a/a.jpg".to_string()],
    };
    let (st2, act2) = step(st, ItemEvent::Exists(true)).unwrap();
    assert!(matches!(st2, ItemState::Skipped));
    assert!(matches!(act2, ItemAction::Finish));
}

#[test]
fn pipeline_incomplete_metadata_fetches_at_once() {
    let v = vol("12", None, None);
    let (st, act) = start(v);
    assert!(matches!(st, ItemState::FetchDetail { .. }));
    match act {
        ItemAction::FetchDetail(id) => assert_eq!(id, "12"),
        other => panic!("expected fetch, got {:?}", other),
    }
}

#[test]
fn pipeline_failed_fetch_is_network_error() {
    let st = ItemState::FetchDetail { id: "13".to_string() };
    match step(st, ItemEvent::Detail(None)) {
        Err(NpError::Network { url }) => assert_eq!(url, "13"),
        other => panic!("expected network error, got {:?}", other),
    }
}

#[test]
fn pipeline_detail_drives_canonical_check() {
    let html = "<html><head><meta property=\"og:createdate\" content=\"2023-05-07T00:00\"><meta property=\"nv:news:title\" content=\"Canon\"></head><body><script id=\"__clipContent\">&lt;img class=\"se_mediaImage\" data-src=\"https://post-phinf.pstatic.net/a/x.jpg?t=1\"&gt;</script></body></html>";
    let st = ItemState::FetchDetail { id: "14".to_string() };
    let (st2, act2) = step(st, ItemEvent::Detail(Some(html.to_string()))).unwrap();
    match &act2 {
        ItemAction::CheckExists(d) => assert_eq!(d, "20230507-14-Canon"),
        other => panic!("expected existence probe, got {:?}", other),
    }
    match st2 {
        ItemState::CheckAgain { id, date, title, assets } => {
            assert_eq!(id, "14");
            assert_eq!(date, "20230507");
            assert_eq!(title, "Canon");
            assert_eq!(assets, vec!["https://post-phinf.pstatic.net/a/x.jpg".to_string()]);
        },
        other => panic!("expected extracted state, got {:?}", other),
    }
}

#[test]
fn pipeline_detail_without_meta_is_parse_error() {
    let html = "<html></html>";
    let st = ItemState::FetchDetail { id: "15".to_string() };
    match step(st, ItemEvent::Detail(Some(html.to_string()))) {
        Err(NpError::Parse { what }) => assert_eq!(what, html),
        other => panic!("expected parse error, got {:?}", other),
    }
}

#[test]
fn pipeline_detail_short_date_error_names_it() {
    let html = "<html><head><meta property=\"og:createdate\" content=\"2023\"><meta property=\"nv:news:title\" content=\"T\"></head></html>";
    let st = ItemState::FetchDetail { id: "22".to_string() };
    match step(st, ItemEvent::Detail(Some(html.to_string()))) {
        Err(NpError::Parse { what }) => assert_eq!(what, "2023"),
        other => panic!("expected parse error, got {:?}", other),
    }
}

#[test]
fn pipeline_no_assets_finishes_without_directory() {
    let st = ItemState::CheckAgain {
        id: "16".to_string(),
        date: "20230507".to_string(),
        title: "T".to_string(),
        assets: Vec::new(),
    };
    let (st2, act2) = step(st, ItemEvent::Exists(false)).unwrap();
    assert!(matches!(st2, ItemState::Done));
    assert!(matches!(act2, ItemAction::Finish));
}

#[test]
fn pipeline_plans_downloads_with_fixed_names() {
    let st = ItemState::CheckAgain {
        id: "17".to_string(),
        date: "20230507".to_string(),
        title: "T".to_string(),
        assets: vec![
            "https://post-phinf.pstatic.net/a/a.jpg".to_string(),
            "https://post-phinf.pstatic.net/b/b.gif".to_string(),
        ],
    };
    let (st2, act2) = step(st, ItemEvent::Exists(false)).unwrap();
    assert!(matches!(st2, ItemState::Downloading { .. }));
    match act2 {
        ItemAction::Download(plan) => {
            assert_eq!(plan.len(), 2);
            assert_eq!(plan[0].name, "20230507-17-T-img001.jpg");
            assert_eq!(plan[1].name, "20230507-17-T-img002.gif");
        },
        other => panic!("expected download plan, got {:?}", other),
    }
}

#[test]
fn pipeline_failed_download_aborts_without_commit() {
    let st = ItemState::Downloading {
        id: "18".to_string(),
        date: "20230507".to_string(),
        title: "T".to_string(),
        assets: vec!["u1".to_string(), "u2".to_string(), "u3".to_string()],
    };
    let r = step(st, ItemEvent::Downloaded(vec![true, false, true]));
    match r {
        Err(NpError::Network { url }) => assert_eq!(url, "u2"),
        other => panic!("expected network error, got {:?}", other),
    }
}

#[test]
fn pipeline_all_downloads_commit_then_done() {
    let st = ItemState::Downloading {
        id: "19".to_string(),
        date: "20230507".to_string(),
        title: "T".to_string(),
        assets: vec!["u1".to_string(), "u2".to_string()],
    };
    let (st2, act2) = step(st, ItemEvent::Downloaded(vec![true, true])).unwrap();
    match &act2 {
        ItemAction::Commit(d) => assert_eq!(d, "20230507-19-T"),
        other => panic!("expected commit, got {:?}", other),
    }
    let (st3, act3) = step(st2, ItemEvent::Moved(true)).unwrap();
    assert!(matches!(st3, ItemState::Done));
    assert!(matches!(act3, ItemAction::Finish));
}

#[test]
fn pipeline_failed_move_is_filesystem_error() {
    let st = ItemState::Committing { dir: "20230507-20-T".to_string() };
    match step(st, ItemEvent::Moved(false)) {
        Err(NpError::Filesystem { path }) => assert_eq!(path, "20230507-20-T"),
        other => panic!("expected filesystem error, got {:?}", other),
    }
}

// --- error descriptions ---

#[test]
fn error_descriptions_name_the_offender() {
    assert_eq!(
        NpError::Network { url: "u".to_string() }.describe(),
        "network error fetching: u"
    );
    assert_eq!(
        NpError::Parse { what: "w".to_string() }.describe(),
        "error parsing string: w"
    );
    assert_eq!(
        NpError::Filesystem { path: "p".to_string() }.describe(),
        "filesystem error at: p"
    );
}

// --- volume equality ---

#[test]
fn volume_equality_is_by_id_alone() {
    let a = vol("1", Some("x"), None);
    let b = vol("1", Some("y"), Some("20230101"));
    let c = vol("2", Some("x"), None);
    assert_eq!(a, b);
    assert_ne!(a, c);
}
