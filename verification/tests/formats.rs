use zorka::rows::{parse_row, parse_rows};
use zorka::text::{format_decimal, parse_decimal, split_str};

#[test]
fn well_formed_row_parses() {
    let e = parse_row("gh,https://github.com,trusted,0,253370764861000").unwrap();
    assert_eq!(e.slug, "gh");
    assert_eq!(e.url, "https://github.com");
    assert_eq!(e.status, "trusted");
    assert_eq!(e.since, "0");
    assert_eq!(e.until, "253370764861000");
}

#[test]
fn uppercase_slug_is_rejected() {
    assert!(parse_row("GH,https://github.com,trusted,0,1").is_none());
}

#[test]
fn non_digit_timestamp_is_rejected() {
    assert!(parse_row("gh,https://github.com,trusted,soon,1").is_none());
    assert!(parse_row("gh,https://github.com,trusted,0,1x").is_none());
}

#[test]
fn unknown_status_is_rejected() {
    assert!(parse_row("gh,https://github.com,verified,0,1").is_none());
    assert!(parse_row("gh,https://github.com,Trusted,0,1").is_none());
}

#[test]
fn malformed_url_is_rejected() {
    assert!(parse_row("gh,notaurl,trusted,0,1").is_none());
    assert!(parse_row("gh,ftp://github.com,trusted,0,1").is_none());
    assert!(parse_row("gh,https://nodot,trusted,0,1").is_none());
    assert!(parse_row("gh,https://dot.,trusted,0,1").is_none());
    assert!(parse_row("gh,https://.com,trusted,0,1").is_none());
    assert!(parse_row("gh,https://spa ce.com,trusted,0,1").is_none());
}

#[test]
fn url_shapes_accepted() {
    assert!(parse_row("a,http://example.com,trusted,0,1").is_some());
    assert!(parse_row("a,https://www.example.com/path?q=1&x=2,untrusted,0,1").is_some());
    assert!(parse_row("a,https://sub.domain.example.org/deep/path,trusted,0,1").is_some());
}

#[test]
fn wrong_field_count_is_rejected() {
    assert!(parse_row("gh,https://github.com,trusted,0").is_none());
    assert!(parse_row("gh,https://github.com,trusted,0,1,extra").is_none());
    assert!(parse_row("").is_none());
}

#[test]
fn file_parsing_skips_bad_rows() {
    let text = "gh,https://github.com,trusted,0,1\nBAD,https://github.com,trusted,0,1\n\nrs,https://rust-lang.org,untrusted,2,3";
    let rows = parse_rows(text);
    assert_eq!(rows.len(), 2);
    assert_eq!(rows[0].slug, "gh");
    assert_eq!(rows[1].slug, "rs");
}

#[test]
fn empty_file_has_no_rows() {
    assert_eq!(parse_rows("").len(), 0);
}

#[test]
fn decimal_parsing_exact_values() {
    assert_eq!(parse_decimal("0"), Some(0));
    assert_eq!(parse_decimal("253370764861000"), Some(253370764861000));
    assert_eq!(
        parse_decimal("340282366920938463463374607431768211455"),
        Some(u128::MAX)
    );
    assert_eq!(parse_decimal("340282366920938463463374607431768211456"), None);
    assert_eq!(parse_decimal(""), None);
    assert_eq!(parse_decimal("12a"), None);
    assert_eq!(parse_decimal("-1"), None);
}

#[test]
fn decimal_formatting_exact_values() {
    assert_eq!(format_decimal(0), "0");
    assert_eq!(format_decimal(7), "7");
    assert_eq!(format_decimal(1234567890), "1234567890");
    assert_eq!(
        format_decimal(u128::MAX),
        "340282366920938463463374607431768211455"
    );
}

#[test]
fn decimal_round_trip() {
    for n in [0u128, 1, 9, 10, 99, 1000, 253370764861000, u128::MAX] {
        assert_eq!(parse_decimal(&format_decimal(n)), Some(n));
    }
}

#[test]
fn splitting_keeps_empty_fields() {
    let parts = split_str("a,,b,", ',');
    assert_eq!(parts, vec!["a", "", "b", ""]);
    assert_eq!(split_str("", ','), vec![""]);
    assert_eq!(split_str("abc", ','), vec!["abc"]);
}
