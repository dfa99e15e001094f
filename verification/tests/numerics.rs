//! The fixed-point helpers and text matching the pipeline builds on.

use edge_gateway::math::{div_floor_i128, div_floor_i64, ln_ratio_micro};
use edge_gateway::text::{str_eq, str_is_blank, str_matches_lower};

#[test]
fn division_rounds_toward_negative_infinity() {
    assert_eq!(div_floor_i64(7, 2), 3);
    assert_eq!(div_floor_i64(-7, 2), -4);
    assert_eq!(div_floor_i64(-8, 2), -4);
    assert_eq!(div_floor_i64(0, 5), 0);
    assert_eq!(div_floor_i128(-1, 1_000_000), -1);
    assert_eq!(div_floor_i128(999_999, 1_000_000), 0);
    assert_eq!(div_floor_i128(-999_999, 1_000_000), -1);
}

#[test]
fn the_scaled_logarithm_matches_known_points() {
    // ln(1) is zero
    assert_eq!(ln_ratio_micro(100_000), 0);
    // ln(0.5) is about -0.693147
    let half = ln_ratio_micro(50_000);
    assert!((-693_300..=-693_000).contains(&half), "ln half {half}");
    // ln(0.25) is twice that
    let quarter = ln_ratio_micro(25_000);
    assert!((half * 2 - 300..=half * 2 + 300).contains(&quarter), "ln quarter {quarter}");
    // the logarithm of a ratio below one is negative
    for rh in [1i64, 10, 999, 42_000, 99_999] {
        assert!(ln_ratio_micro(rh) < 0);
    }
    // above one the logarithm turns positive: ln 2 exactly at 200 %
    assert_eq!(ln_ratio_micro(200_000), 693_147);
    let one_and_a_half = ln_ratio_micro(150_000);
    assert!((405_000..=406_000).contains(&one_and_a_half), "ln 1.5 {one_and_a_half}");
    let thousand = ln_ratio_micro(100_000_000);
    // ln 1000 is about 6.9078
    assert!((6_903_000..=6_912_000).contains(&thousand), "ln 1000 {thousand}");
}

#[test]
fn name_matching_ignores_ascii_case_only() {
    assert!(str_matches_lower("Temperature", "temperature"));
    assert!(str_matches_lower("TEMPERATURE", "temperature"));
    assert!(str_matches_lower("humidity", "humidity"));
    assert!(!str_matches_lower("temperatura", "temperature"));
    assert!(!str_matches_lower("temperature ", "temperature"));
    assert!(!str_matches_lower("", "temperature"));
}

#[test]
fn blank_detection_covers_whitespace_only_text() {
    assert!(str_is_blank(""));
    assert!(str_is_blank("   "));
    assert!(str_is_blank(" \t\r\n"));
    assert!(!str_is_blank(" a "));
    assert!(!str_is_blank("lab"));
}

#[test]
fn text_equality_compares_characters() {
    assert!(str_eq("abc", "abc"));
    assert!(!str_eq("abc", "abd"));
    assert!(!str_eq("abc", "ab"));
    assert!(str_eq("", ""));
}
