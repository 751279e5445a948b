use av_catalog::code::{canonical_code_check, extract_code_from_title, looks_like_code};
use av_catalog::resolve::looks_uncensored;

#[test]
fn code_shaped_queries_are_accepted() {
    assert!(looks_like_code("ABCD-123"));
    assert!(looks_like_code("abcd-123"));
    assert!(looks_like_code("ab12"));
    assert!(looks_like_code("AB123 extra text after"));
    assert!(looks_like_code("abcde-12345"));
}

#[test]
fn non_code_queries_are_rejected() {
    assert!(!looks_like_code("no code here"));
    assert!(!looks_like_code("a1"));
    assert!(!looks_like_code("AB-1"));
    assert!(!looks_like_code("ABCDEF123"));
    assert!(!looks_like_code("1234"));
    assert!(!looks_like_code(""));
    assert!(!looks_like_code("some actor name"));
    assert!(!looks_like_code("ab_12"));
}

#[test]
fn code_is_recovered_from_noisy_titles() {
    assert_eq!(
        extract_code_from_title("摘要 ABCD-123 字幕"),
        Some("ABCD-123".to_string())
    );
    assert_eq!(
        extract_code_from_title("abc_045 bonus"),
        Some("ABC-045".to_string())
    );
    assert_eq!(extract_code_from_title("no code here"), None);
}

#[test]
fn code_recovery_is_leftmost_and_greedy() {
    // Only the last five letters can be part of a match.
    assert_eq!(
        extract_code_from_title("abcdefg-123"),
        Some("CDEFG-123".to_string())
    );
    // At most five digits are taken.
    assert_eq!(
        extract_code_from_title("abc12345678"),
        Some("ABC-12345".to_string())
    );
    // A space works as a separator, and the hyphen is inserted.
    assert_eq!(extract_code_from_title("ab 123 xy"), Some("AB-123".to_string()));
    // The leftmost of several candidates wins.
    assert_eq!(
        extract_code_from_title("xy-22 and ab-333"),
        Some("XY-22".to_string())
    );
}

#[test]
fn uncensored_heuristic_reads_title_markers() {
    assert!(looks_uncensored("ABCD-123 Uncensored Leak"));
    assert!(looks_uncensored("ABCD-123 无码"));
    assert!(!looks_uncensored("ABCD-123 plain"));
}

#[test]
fn canonical_shape_is_decided_exactly() {
    assert!(canonical_code_check("ABCD-123"));
    assert!(canonical_code_check("AB-12"));
    assert!(!canonical_code_check("abcd-123"));
    assert!(!canonical_code_check("ABCD123"));
    assert!(!canonical_code_check("ABCD-123 extra"));
    assert!(!canonical_code_check("AB12 REST"));
    assert!(!canonical_code_check(""));
    assert!(!canonical_code_check("ABCDEF-123"));
    assert!(!canonical_code_check("AB-123456"));
}

#[test]
fn recovered_codes_serve_as_direct_lookups() {
    for title in ["摘要 ABCD-123 字幕", "abc_045 bonus", "ab 123 xy", "abcdefg-123"] {
        let code = extract_code_from_title(title).unwrap();
        assert!(looks_like_code(&code));
    }
}
