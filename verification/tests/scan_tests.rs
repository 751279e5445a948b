use av_catalog::chars::{parse_u32_str, trim_str};
use av_catalog::scan::{
    scan_date, scan_duration_any, scan_duration_en, scan_first_decimal, scan_first_number,
    scan_magnets, scan_rating_alt, scan_rating_en,
};

#[test]
fn duration_is_the_leftmost_number_with_a_unit() {
    assert_eq!(scan_duration_en("runtime 120 min total"), Some(120));
    // A four-digit run never matches; the scan settles one position later.
    assert_eq!(scan_duration_en("1234 min"), Some(234));
    assert_eq!(scan_duration_en("no duration"), None);
    assert_eq!(scan_duration_en("120 MIN"), None);
}

#[test]
fn wider_duration_scan_accepts_more_units() {
    assert_eq!(scan_duration_any("片长 95分钟"), Some(95));
    assert_eq!(scan_duration_any("95 分"), Some(95));
    assert_eq!(scan_duration_any("120 MIN"), Some(120));
    assert_eq!(scan_duration_any("95 seconds"), None);
}

#[test]
fn rating_follows_its_label() {
    assert_eq!(scan_rating_en("Rating 4.53 (by 120 users)"), Some("4.53".to_string()));
    assert_eq!(scan_rating_en("no label 4.5"), None);
    assert_eq!(scan_rating_alt("评分 8.21"), Some("8.21".to_string()));
    assert_eq!(scan_rating_alt("Score 7"), Some("7".to_string()));
    assert_eq!(scan_rating_alt("nothing"), None);
}

#[test]
fn release_date_is_the_leftmost_iso_date() {
    assert_eq!(
        scan_date("released 2023-07-15, remastered 2024-01-01"),
        Some("2023-07-15".to_string())
    );
    assert_eq!(scan_date("15.07.2023"), None);
}

#[test]
fn magnet_scan_finds_every_uri_in_order() {
    let body = "<a href=\"magnet:?xt=urn:btih:aaa\">x</a> text magnet:?xt=urn:btih:bbb<end>";
    let found = scan_magnets(body);
    assert_eq!(
        found,
        vec![
            "magnet:?xt=urn:btih:aaa".to_string(),
            "magnet:?xt=urn:btih:bbb".to_string(),
        ]
    );
}

#[test]
fn magnet_scan_stops_at_quotes_and_whitespace() {
    let body = "magnet:?xt=urn:btih:ccc'tail magnet:?xt=urn:";
    let found = scan_magnets(body);
    assert_eq!(found, vec!["magnet:?xt=urn:btih:ccc".to_string()]);
}

#[test]
fn cell_numbers_read_like_parse() {
    assert_eq!(parse_u32_str("123"), Some(123));
    assert_eq!(parse_u32_str("0"), Some(0));
    assert_eq!(parse_u32_str("4294967295"), Some(u32::MAX));
    assert_eq!(parse_u32_str("4294967296"), None);
    assert_eq!(parse_u32_str("12a"), None);
    assert_eq!(parse_u32_str(""), None);
}

#[test]
fn trimming_strips_surrounding_whitespace() {
    assert_eq!(trim_str("  abc \t\n"), "abc".to_string());
    assert_eq!(trim_str(" \t "), String::new());
    assert_eq!(trim_str("a b"), "a b".to_string());
}

#[test]
fn row_scans_take_the_first_number_and_decimal() {
    assert_eq!(scan_first_number("120 minutes"), Some(120));
    assert_eq!(scan_first_number("1234"), Some(123));
    assert_eq!(scan_first_number("x7x"), None);
    assert_eq!(scan_first_decimal("about 4.5 of 5"), Some("4.5".to_string()));
    assert_eq!(scan_first_decimal("7 points"), Some("7".to_string()));
    assert_eq!(scan_first_decimal("none"), None);
}

#[test]
fn whitespace_is_unicode_wide() {
    // An ideographic space trims away, and a no-break space separates a
    // duration from its unit.
    assert_eq!(trim_str("\u{3000} abc\u{a0}"), "abc".to_string());
    assert_eq!(scan_duration_en("95\u{a0}min"), Some(95));
    // A magnet URI ends at a no-break space like at any whitespace.
    let found = scan_magnets("magnet:?xt=urn:btih:ddd\u{a0}tail");
    assert_eq!(found, vec!["magnet:?xt=urn:btih:ddd".to_string()]);
}
