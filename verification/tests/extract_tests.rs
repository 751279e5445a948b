use av_catalog::extract::{
    enrich_from_row, extract_magnet_infos_from_javdb, extract_magnet_infos_from_sukebei,
    items_from_titles, parse_javdb_detail, parse_sukebei_detail, sukebei_pick_row, JavdbDoc,
    PanelRow, SukebeiDoc, SukebeiRow,
};

fn strings(v: &[&str]) -> Vec<String> {
    v.iter().map(|s| s.to_string()).collect()
}

fn empty_doc() -> JavdbDoc {
    JavdbDoc {
        title_texts: Vec::new(),
        page_titles: Vec::new(),
        meta_values: Vec::new(),
        cover_srcs: Vec::new(),
        og_images: Vec::new(),
        actor_texts: Vec::new(),
        director_texts: Vec::new(),
        studio_texts: Vec::new(),
        label_texts: Vec::new(),
        series_texts: Vec::new(),
        plot_texts: Vec::new(),
        tag_texts: Vec::new(),
        rows: Vec::new(),
        preview_srcs: Vec::new(),
        body_text: String::new(),
        raw_html: String::new(),
    }
}

#[test]
fn primary_detail_reads_every_field() {
    let doc = JavdbDoc {
        title_texts: strings(&["ABCD-123 Some Title"]),
        page_titles: strings(&["fallback"]),
        meta_values: strings(&[" ABCD-123 ", "2023-07-15", "other"]),
        cover_srcs: strings(&["https://img.example/cover.jpg"]),
        og_images: strings(&["https://img.example/og.jpg"]),
        actor_texts: strings(&[" Actor One ", "", "Actor Two", "Actor One"]),
        director_texts: strings(&[" Director X "]),
        studio_texts: Vec::new(),
        label_texts: Vec::new(),
        series_texts: Vec::new(),
        plot_texts: strings(&["short", "  a plot text that is long enough  "]),
        tag_texts: strings(&["drama", " action ", "drama", "comedy"]),
        rows: vec![
            PanelRow { label: "片商 Studio".to_string(), value: " Studio Y ".to_string() },
            PanelRow { label: "时长 Length".to_string(), value: "120 minutes".to_string() },
            PanelRow { label: "评分 Rating".to_string(), value: "4.53 of 5".to_string() },
        ],
        preview_srcs: strings(&["p1.jpg", "p2.jpg"]),
        body_text: "some text 95 min elsewhere".to_string(),
        raw_html: "magnet:?xt=urn:btih:aaa magnet:?xt=urn:btih:bbb magnet:?xt=urn:btih:aaa"
            .to_string(),
    };
    let d = parse_javdb_detail(&doc);
    assert_eq!(d.code, "ABCD-123".to_string());
    assert_eq!(d.title, "ABCD-123 Some Title".to_string());
    assert_eq!(d.release_date, Some("2023-07-15".to_string()));
    assert_eq!(d.cover_url, Some("https://img.example/cover.jpg".to_string()));
    assert_eq!(d.actor_names, strings(&["Actor One", "Actor Two"]));
    assert_eq!(d.director, Some("Director X".to_string()));
    assert_eq!(d.studio, Some("Studio Y".to_string()));
    assert_eq!(d.label, None);
    assert_eq!(d.series, None);
    assert_eq!(d.plot, Some("a plot text that is long enough".to_string()));
    // The keyed row wins over the free-text scan.
    assert_eq!(d.duration_minutes, Some(120));
    assert_eq!(d.rating, Some("4.53".to_string()));
    // Sorted ascending, duplicates gone.
    assert_eq!(d.genres, strings(&["action", "comedy", "drama"]));
    assert_eq!(d.preview_images, strings(&["p1.jpg", "p2.jpg"]));
    // Document order kept, duplicate dropped.
    assert_eq!(
        d.magnets,
        strings(&["magnet:?xt=urn:btih:aaa", "magnet:?xt=urn:btih:bbb"])
    );
    assert_eq!(d.magnet_infos.len(), 2);
    assert_eq!(d.magnet_infos[0].url, "magnet:?xt=urn:btih:aaa".to_string());
    assert_eq!(d.magnet_infos[1].url, "magnet:?xt=urn:btih:bbb".to_string());
    assert_eq!(d.magnet_infos[0].name, None);
}

#[test]
fn primary_detail_falls_back_per_field() {
    let mut doc = empty_doc();
    doc.page_titles = strings(&["page title"]);
    doc.body_text = "duration 95 min Rating 4.5 date 2022-01-31".to_string();
    let d = parse_javdb_detail(&doc);
    assert_eq!(d.title, "page title".to_string());
    assert_eq!(d.code, String::new());
    assert_eq!(d.duration_minutes, Some(95));
    assert_eq!(d.rating, Some("4.5".to_string()));
    assert_eq!(d.release_date, Some("2022-01-31".to_string()));
    assert_eq!(d.cover_url, None);
    assert!(d.magnets.is_empty());
    assert!(d.genres.is_empty());
}

#[test]
fn genre_normalisation_is_input_order_independent() {
    let mut a = empty_doc();
    a.tag_texts = strings(&["b", "a", "c", "a"]);
    let mut b = empty_doc();
    b.tag_texts = strings(&["c", "c", "a", "b"]);
    let da = parse_javdb_detail(&a);
    let db = parse_javdb_detail(&b);
    assert_eq!(da.genres, strings(&["a", "b", "c"]));
    assert_eq!(da.genres, db.genres);
}

#[test]
fn secondary_detail_is_minimal() {
    let doc = SukebeiDoc {
        name_texts: strings(&["  "]),
        magnet_hrefs: strings(&[
            "magnet:?xt=urn:btih:xxx",
            "magnet:?xt=urn:btih:yyy",
            "magnet:?xt=urn:btih:xxx",
        ]),
    };
    let d = parse_sukebei_detail(&doc, "abcd-123", "row title");
    assert_eq!(d.code, "ABCD-123".to_string());
    // Blank torrent-name text falls back to the listing row's title.
    assert_eq!(d.title, "row title".to_string());
    assert_eq!(
        d.magnets,
        strings(&["magnet:?xt=urn:btih:xxx", "magnet:?xt=urn:btih:yyy"])
    );
    assert_eq!(d.magnet_infos.len(), 2);
    assert!(d.actor_names.is_empty());
    assert!(d.genres.is_empty());
    assert_eq!(d.rating, None);
    assert_eq!(d.release_date, None);
}

#[test]
fn row_enrichment_skips_a_duplicate_uri() {
    let doc = SukebeiDoc {
        name_texts: strings(&["Torrent Name"]),
        magnet_hrefs: strings(&["magnet:?xt=urn:btih:xxx"]),
    };
    let d = parse_sukebei_detail(&doc, "ABCD-123", "guess");
    let row = SukebeiRow {
        title: "row".to_string(),
        href: Some("/view/1".to_string()),
        magnet: Some("magnet:?xt=urn:btih:xxx".to_string()),
        cells: strings(&["", "", "", "1.2 GiB", "2023-01-01", "10", "2", "5"]),
    };
    let e = enrich_from_row(d, &row);
    // Exactly one entry for the URI in both collections.
    assert_eq!(e.magnets, strings(&["magnet:?xt=urn:btih:xxx"]));
    assert_eq!(e.magnet_infos.len(), 1);
}

#[test]
fn row_enrichment_appends_a_new_uri_with_swarm_data() {
    let doc = SukebeiDoc {
        name_texts: strings(&["Torrent Name"]),
        magnet_hrefs: strings(&["magnet:?xt=urn:btih:xxx"]),
    };
    let d = parse_sukebei_detail(&doc, "ABCD-123", "guess");
    let row = SukebeiRow {
        title: "ABCD-123 row title".to_string(),
        href: Some("/view/1".to_string()),
        magnet: Some("magnet:?xt=urn:btih:zzz".to_string()),
        cells: strings(&["c0", "c1", "c2", " 1.2 GiB ", " 2023-01-01 ", " 10 ", "2", "bad"]),
    };
    let e = enrich_from_row(d, &row);
    assert_eq!(
        e.magnets,
        strings(&["magnet:?xt=urn:btih:xxx", "magnet:?xt=urn:btih:zzz"])
    );
    assert_eq!(e.magnet_infos.len(), 2);
    let mi = &e.magnet_infos[1];
    assert_eq!(mi.url, "magnet:?xt=urn:btih:zzz".to_string());
    assert_eq!(mi.name, Some("ABCD-123 row title".to_string()));
    assert_eq!(mi.size, Some("1.2 GiB".to_string()));
    assert_eq!(mi.date, Some("2023-01-01".to_string()));
    assert_eq!(mi.seeders, Some(10));
    assert_eq!(mi.leechers, Some(2));
    assert_eq!(mi.downloads, None);
}

#[test]
fn bare_infos_mirror_their_magnet_list() {
    let magnets = strings(&["magnet:?xt=urn:btih:a", "magnet:?xt=urn:btih:b"]);
    for infos in [
        extract_magnet_infos_from_javdb(&magnets),
        extract_magnet_infos_from_sukebei(&magnets),
    ] {
        assert_eq!(infos.len(), 2);
        assert_eq!(infos[0].url, magnets[0]);
        assert_eq!(infos[1].url, magnets[1]);
        assert_eq!(infos[0].seeders, None);
        assert_eq!(infos[1].name, None);
    }
}

#[test]
fn bare_infos_skip_a_repeated_uri() {
    let magnets = strings(&[
        "magnet:?xt=urn:btih:a",
        "magnet:?xt=urn:btih:b",
        "magnet:?xt=urn:btih:a",
    ]);
    for infos in [
        extract_magnet_infos_from_javdb(&magnets),
        extract_magnet_infos_from_sukebei(&magnets),
    ] {
        assert_eq!(infos.len(), 2);
        assert_eq!(infos[0].url, "magnet:?xt=urn:btih:a".to_string());
        assert_eq!(infos[1].url, "magnet:?xt=urn:btih:b".to_string());
    }
}

#[test]
fn detail_code_is_the_code_alone() {
    // Only the canonical code is read off a code-shaped metadata value,
    // not whatever trails it.
    let mut doc = empty_doc();
    doc.meta_values = strings(&["abcd-123 4K remaster"]);
    let d = parse_javdb_detail(&doc);
    assert_eq!(d.code, "ABCD-123".to_string());
}

#[test]
fn listing_rows_match_by_upper_cased_title() {
    let rows = vec![
        SukebeiRow {
            title: "other-999".to_string(),
            href: Some("/view/9".to_string()),
            magnet: None,
            cells: Vec::new(),
        },
        SukebeiRow {
            title: "[sub] abcd-123 x264".to_string(),
            href: None,
            magnet: None,
            cells: Vec::new(),
        },
        SukebeiRow {
            title: "[raw] Abcd-123 hevc".to_string(),
            href: Some("/view/2".to_string()),
            magnet: None,
            cells: Vec::new(),
        },
    ];
    // The second row matches but has no link, so the third is taken.
    assert_eq!(sukebei_pick_row(&rows, "ABCD-123"), Some(2));
    assert_eq!(sukebei_pick_row(&rows, "ZZZZ-1"), None);
}

#[test]
fn titles_without_a_code_yield_no_item() {
    let titles = strings(&["ABCD-123 first", "no usable title", "efg 45 second"]);
    let items = items_from_titles(&titles);
    assert_eq!(items.len(), 2);
    assert_eq!(items[0].code, "ABCD-123".to_string());
    assert_eq!(items[0].title, "ABCD-123 first".to_string());
    assert_eq!(items[1].code, "EFG-45".to_string());
}

#[test]
fn only_a_full_iso_shape_counts_as_a_date() {
    // A ten-character value with a hyphen at the year boundary is not
    // enough: every digit position must hold a digit.
    let mut doc = empty_doc();
    doc.meta_values = strings(&["abcd-efghi", "2023-7-150", "2023-07-15"]);
    let d = parse_javdb_detail(&doc);
    assert_eq!(d.release_date, Some("2023-07-15".to_string()));
    let mut loose = empty_doc();
    loose.meta_values = strings(&["abcd-efghi"]);
    let d2 = parse_javdb_detail(&loose);
    assert_eq!(d2.release_date, None);
}
