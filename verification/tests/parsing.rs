use docstore::manifest::{parse_slot, ManifestSlot};
use docstore::numtext::{i32_to_dec, parse_u32};
use docstore::storage::path_join;

#[test]
fn paragraph_line_splits_at_first_slash() {
    assert_eq!(
        parse_slot("ab/cd1234"),
        Some(ManifestSlot::Par { shard: "ab".to_string(), key: "cd1234".to_string() })
    );
    assert_eq!(
        parse_slot("ab/cd/ef"),
        Some(ManifestSlot::Par { shard: "ab".to_string(), key: "cd/ef".to_string() })
    );
}

#[test]
fn line_without_slash_is_malformed() {
    assert_eq!(parse_slot("noslash"), None);
    assert_eq!(parse_slot(""), None);
}

#[test]
fn ref_line_parses() {
    assert_eq!(
        parse_slot("@ref 12 p1"),
        Some(ManifestSlot::Ref { dest_doc_id: 12, dest_id: "p1".to_string() })
    );
}

#[test]
fn ref_line_rejects_bad_number_or_empty_id() {
    assert_eq!(parse_slot("@ref x p1"), None);
    assert_eq!(parse_slot("@ref 12 "), None);
    assert_eq!(parse_slot("@ref 12"), None);
    assert_eq!(parse_slot("@ref 99999999999 p1"), None);
}

#[test]
fn area_line_parses() {
    assert_eq!(
        parse_slot("@area intro ab/cd"),
        Some(ManifestSlot::Area {
            name: "intro".to_string(),
            shard: "ab".to_string(),
            key: "cd".to_string(),
        })
    );
}

#[test]
fn area_line_rejects_missing_pieces() {
    assert_eq!(parse_slot("@area intro"), None);
    assert_eq!(parse_slot("@area  ab/cd"), None);
    assert_eq!(parse_slot("@area intro noslash"), None);
}

#[test]
fn decimal_formatting() {
    assert_eq!(i32_to_dec(0), "0");
    assert_eq!(i32_to_dec(10), "10");
    assert_eq!(i32_to_dec(2147483647), "2147483647");
    assert_eq!(i32_to_dec(-5), "-5");
    assert_eq!(i32_to_dec(-2147483648), "-2147483648");
}

#[test]
fn decimal_parsing() {
    assert_eq!(parse_u32("0"), Some(0));
    assert_eq!(parse_u32("42"), Some(42));
    assert_eq!(parse_u32("4294967295"), Some(4294967295));
    assert_eq!(parse_u32("4294967296"), None);
    assert_eq!(parse_u32(""), None);
    assert_eq!(parse_u32("12a"), None);
    assert_eq!(parse_u32("-3"), None);
}

#[test]
fn paths_join_with_one_separator() {
    assert_eq!(path_join("c", "ab"), "c/ab");
    assert_eq!(path_join("c/ab", "cd1234"), "c/ab/cd1234");
}
