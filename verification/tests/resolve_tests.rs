use av_catalog::extract::{parse_javdb_detail, parse_sukebei_detail, JavdbCard, JavdbDoc, SukebeiDoc};
use av_catalog::types::{AvError, AvItem};
use av_catalog::resolve::{
    absolute_url, detail_after_primary, detail_after_secondary, item_of_detail,
    javdb_actor_url, javdb_pick_detail_url, javdb_search_url, normalize_code, page_slice,
    search_after_primary, select_magnet, sukebei_row_url, sukebei_search_url, take_limit,
    DetailStep, SearchStep,
};

fn strings(v: &[&str]) -> Vec<String> {
    v.iter().map(|s| s.to_string()).collect()
}

fn sukebei_detail(code: &str, magnets: &[&str]) -> av_catalog::types::AvDetail {
    let doc = SukebeiDoc { name_texts: strings(&["name"]), magnet_hrefs: strings(magnets) };
    parse_sukebei_detail(&doc, code, "guess")
}

fn primary_without_magnets(code_meta: &str) -> av_catalog::types::AvDetail {
    let doc = JavdbDoc {
        title_texts: strings(&["title"]),
        page_titles: Vec::new(),
        meta_values: strings(&[code_meta]),
        cover_srcs: Vec::new(),
        og_images: Vec::new(),
        actor_texts: Vec::new(),
        director_texts: Vec::new(),
        studio_texts: Vec::new(),
        label_texts: Vec::new(),
        series_texts: Vec::new(),
        plot_texts: Vec::new(),
        tag_texts: Vec::new(),
        rows: Vec::new(),
        preview_srcs: Vec::new(),
        body_text: String::new(),
        raw_html: String::new(),
    };
    parse_javdb_detail(&doc)
}

#[test]
fn query_urls_encode_their_query() {
    assert_eq!(
        javdb_search_url("ABCD-123"),
        "https://javdb.com/search?q=ABCD-123&f=all".to_string()
    );
    // A query that needs encoding does not pass through unchanged.
    assert_eq!(
        javdb_search_url("two words"),
        "https://javdb.com/search?q=two%20words&f=all".to_string()
    );
    assert_eq!(
        javdb_actor_url("some actor"),
        "https://javdb.com/search?q=some%20actor&f=actor".to_string()
    );
    assert_eq!(
        sukebei_search_url("ABCD-123"),
        "https://sukebei.nyaa.si/?f=0&c=0_0&q=ABCD-123".to_string()
    );
}

#[test]
fn relative_addresses_resolve_against_the_origin() {
    assert_eq!(absolute_url("https://a.example", "/x/1"), "https://a.example/x/1".to_string());
    assert_eq!(absolute_url("https://a.example", "https://b.example/y"), "https://b.example/y");
    assert_eq!(sukebei_row_url("/view/1"), "https://sukebei.nyaa.si/view/1".to_string());
}

#[test]
fn detail_link_errors_name_their_cause() {
    // No result card: the source had nothing.
    assert_eq!(javdb_pick_detail_url(&Vec::new()), Err(AvError::NotFound));
    // A card without an address: broken markup.
    let cards = vec![JavdbCard { href: None, title_texts: Vec::new() }];
    assert_eq!(javdb_pick_detail_url(&cards), Err(AvError::ParseFailure));
    let cards = vec![JavdbCard { href: Some("/v/1".to_string()), title_texts: Vec::new() }];
    assert_eq!(javdb_pick_detail_url(&cards), Ok("https://javdb.com/v/1".to_string()));
}

#[test]
fn unreachable_primary_falls_back_to_the_secondary() {
    let sd = sukebei_detail("ABCD-123", &["magnet:?xt=urn:btih:a"]);
    let step = detail_after_primary(Err(AvError::Unreachable));
    let pending = match step {
        DetailStep::NeedSecondary(p) => p,
        DetailStep::Done(_) => panic!("an unreachable primary must fall back"),
    };
    assert!(pending.is_none());
    let out = detail_after_secondary(pending, Ok(sd.clone()));
    // The secondary's detail comes back whole; the primary's error is gone.
    assert_eq!(out, Ok(sd));
}

#[test]
fn both_sources_failing_surfaces_the_last_error() {
    let step = detail_after_primary(Err(AvError::NotFound));
    let pending = match step {
        DetailStep::NeedSecondary(p) => p,
        DetailStep::Done(_) => panic!("a failed primary must fall back"),
    };
    let out = detail_after_secondary(pending, Err(AvError::Unreachable));
    assert_eq!(out, Err(AvError::Unreachable));
}

#[test]
fn secondary_magnets_replace_an_empty_primary_list() {
    // The primary resolved, but without magnets; the secondary brings two
    // URIs, one of them emitted twice at its source.
    let pd = primary_without_magnets("ABCD-123");
    assert!(pd.magnets.is_empty());
    let sd = sukebei_detail(
        "ABCD-123",
        &["magnet:?xt=urn:btih:a", "magnet:?xt=urn:btih:b", "magnet:?xt=urn:btih:a"],
    );
    let step = detail_after_primary(Ok(pd.clone()));
    let pending = match step {
        DetailStep::NeedSecondary(p) => p,
        DetailStep::Done(_) => panic!("an empty magnet list must consult the secondary"),
    };
    let merged = match detail_after_secondary(pending, Ok(sd)) {
        Ok(d) => d,
        Err(_) => panic!("merge cannot fail"),
    };
    // The primary's fields stand; the magnets are exactly the secondary's
    // two distinct URIs, and the infos stay in step with them.
    assert_eq!(merged.code, "ABCD-123".to_string());
    assert_eq!(merged.title, "title".to_string());
    assert_eq!(
        merged.magnets,
        strings(&["magnet:?xt=urn:btih:a", "magnet:?xt=urn:btih:b"])
    );
    assert_eq!(merged.magnet_infos.len(), 2);
    assert_eq!(merged.magnet_infos[0].url, merged.magnets[0]);
    assert_eq!(merged.magnet_infos[1].url, merged.magnets[1]);
}

#[test]
fn a_primary_detail_with_magnets_is_final() {
    let sd = sukebei_detail("ABCD-123", &["magnet:?xt=urn:btih:a"]);
    match detail_after_primary(Ok(sd.clone())) {
        DetailStep::Done(r) => assert_eq!(r, Ok(sd)),
        DetailStep::NeedSecondary(_) => panic!("a detail with magnets needs no fallback"),
    }
}

#[test]
fn code_shaped_search_yields_one_item() {
    let code = normalize_code("abcd-123");
    assert_eq!(code, "ABCD-123".to_string());
    let d = sukebei_detail(&code, &["magnet:?xt=urn:btih:a"]);
    let items = item_of_detail(&d).unwrap();
    assert_eq!(items.len(), 1);
    assert_eq!(items[0].code, "ABCD-123".to_string());
}

#[test]
fn a_direct_hit_without_a_canonical_code_yields_no_item() {
    // A code-shaped query with trailing text resolves on the secondary
    // path to an upper-cased, non-canonical code: no placeholder item.
    let loose = sukebei_detail("ab12 rest", &["magnet:?xt=urn:btih:a"]);
    assert_eq!(loose.code, "AB12 REST".to_string());
    assert!(item_of_detail(&loose).is_none());
    // A primary detail that derived no code at all yields none either.
    let empty = primary_without_magnets("not a code");
    assert_eq!(empty.code, String::new());
    assert!(item_of_detail(&empty).is_none());
}

#[test]
fn empty_primary_search_passes_to_the_secondary() {
    match search_after_primary(Vec::new()) {
        SearchStep::NeedSecondary => {},
        SearchStep::Done(_) => panic!("an empty result set must fall back"),
    }
    let secondary = vec![
        AvItem { code: "AB-11".to_string(), title: "t1".to_string() },
        AvItem { code: "CD-22".to_string(), title: "t2".to_string() },
        AvItem { code: "EF-33".to_string(), title: "t3".to_string() },
    ];
    // The secondary's three items are the final answer, and no error.
    assert_eq!(secondary.len(), 3);
    match search_after_primary(secondary.clone()) {
        SearchStep::Done(items) => assert_eq!(items, secondary),
        SearchStep::NeedSecondary => panic!("three items are an answer"),
    }
}

#[test]
fn repeating_a_query_repeats_its_answer() {
    let doc = JavdbDoc {
        title_texts: strings(&["ABCD-123 t"]),
        page_titles: Vec::new(),
        meta_values: strings(&["ABCD-123", "2023-07-15"]),
        cover_srcs: Vec::new(),
        og_images: Vec::new(),
        actor_texts: strings(&["A", "B"]),
        director_texts: Vec::new(),
        studio_texts: Vec::new(),
        label_texts: Vec::new(),
        series_texts: Vec::new(),
        plot_texts: Vec::new(),
        tag_texts: strings(&["y", "x"]),
        rows: Vec::new(),
        preview_srcs: Vec::new(),
        body_text: "95 min Rating 4.5".to_string(),
        raw_html: "magnet:?xt=urn:btih:a".to_string(),
    };
    let d1 = parse_javdb_detail(&doc);
    let d2 = parse_javdb_detail(&doc);
    assert_eq!(d1, d2);
    let r1 = detail_after_secondary(Some(d1.clone()), Err(AvError::Unreachable));
    let r2 = detail_after_secondary(Some(d2.clone()), Err(AvError::Unreachable));
    assert_eq!(r1, r2);
}

#[test]
fn magnet_selection_prefers_seeders_then_first_uri() {
    let doc = SukebeiDoc {
        name_texts: strings(&["n"]),
        magnet_hrefs: strings(&["magnet:?xt=urn:btih:a", "magnet:?xt=urn:btih:b"]),
    };
    let mut d = parse_sukebei_detail(&doc, "AB-12", "g");
    d.magnet_infos[0].seeders = Some(3);
    d.magnet_infos[1].seeders = Some(9);
    assert_eq!(select_magnet(&d), Ok("magnet:?xt=urn:btih:b".to_string()));
    // Without infos the first plain URI serves.
    let mut d2 = parse_sukebei_detail(&doc, "AB-12", "g");
    d2.magnet_infos = Vec::new();
    assert_eq!(select_magnet(&d2), Ok("magnet:?xt=urn:btih:a".to_string()));
    // With nothing at all the operation fails, and only then.
    let none = parse_sukebei_detail(
        &SukebeiDoc { name_texts: Vec::new(), magnet_hrefs: Vec::new() },
        "AB-12",
        "g",
    );
    assert_eq!(select_magnet(&none), Err(AvError::NoMagnet));
}

#[test]
fn listings_are_cut_to_limit_and_page() {
    let items: Vec<AvItem> = (0..5)
        .map(|i| AvItem { code: format!("AB-{}{}", i, i), title: format!("t{}", i) })
        .collect();
    let top = take_limit(items.clone(), 2);
    assert_eq!(top.len(), 2);
    assert_eq!(top[0], items[0]);
    let all = take_limit(items.clone(), 20);
    assert_eq!(all.len(), 5);
    let page2 = page_slice(&items, 2, 2);
    assert_eq!(page2, vec![items[2].clone(), items[3].clone()]);
    let page9 = page_slice(&items, 9, 2);
    assert!(page9.is_empty());
    let page0 = page_slice(&items, 1, 0);
    assert!(page0.is_empty());
}
