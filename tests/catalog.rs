use werkverzeichnis::{
    is_fallback_key, looks_like_group, make_inclusive_ceiling, matches_group, normalize_catalog_number, parse_roman,
    resolve_catalog_def, sort_key, sort_numbers, sort_numbers_by_scheme, CatalogDefinition, CatalogDefs, SortKey,
    SortValue,
};

fn key(group: usize, sort_type: &str) -> SortKey {
    SortKey { group, sort_type: sort_type.into(), display: None }
}

fn defn(name: &str, pattern: Option<&str>, sort_keys: Option<Vec<SortKey>>, group_by: Option<Vec<usize>>) -> CatalogDefinition {
    CatalogDefinition {
        name: name.into(),
        description: None,
        canonical_format: None,
        pattern: pattern.map(String::from),
        sort_keys,
        group_by,
        aliases: None,
        editions: None,
    }
}

fn opus() -> CatalogDefinition {
    defn(
        "Op",
        Some(r"^(\d+)(?:/(\d+))?([a-z])?$"),
        Some(vec![key(1, "int"), key(2, "int"), key(3, "str")]),
        None,
    )
}

fn hoboken() -> CatalogDefinition {
    defn("Hoboken", Some(r"^([ivxlcdm]+):(\d+)$"), Some(vec![key(1, "roman"), key(2, "int")]), None)
}

fn strings(v: &[&str]) -> Vec<String> {
    v.iter().map(|s| s.to_string()).collect()
}

#[test]
fn test_parse_roman() {
    assert_eq!(parse_roman("I"), 1);
    assert_eq!(parse_roman("IV"), 4);
    assert_eq!(parse_roman("IX"), 9);
    assert_eq!(parse_roman("XIV"), 14);
    assert_eq!(parse_roman("XLII"), 42);
    assert_eq!(parse_roman("MCMXCIV"), 1994);
}

#[test]
fn roman_lower_case_and_invalid() {
    assert_eq!(parse_roman("xiv"), 14);
    assert_eq!(parse_roman("mcmxciv"), 1994);
    assert_eq!(parse_roman("XIZ"), 0);
    assert_eq!(parse_roman(""), 0);
}

#[test]
fn test_sort_value_ordering() {
    assert!(SortValue::NoneFirst < SortValue::Int(0));
    assert!(SortValue::Int(0) < SortValue::Int(1));
    assert!(SortValue::Int(100) < SortValue::NoneLast);
    assert!(SortValue::Str("a".into()) < SortValue::Str("b".into()));
}

#[test]
fn sort_value_kinds_order() {
    assert!(SortValue::Int(i64::MAX) < SortValue::Str("".into()));
    assert!(SortValue::Str("zzz".into()) < SortValue::NoneLast);
    assert!(SortValue::NoneFirst < SortValue::Str("a".into()));
    assert!(!(SortValue::Int(3) < SortValue::Int(3)));
    assert!(SortValue::Str("ab".into()) < SortValue::Str("b".into()));
    assert!(SortValue::Str("a".into()) < SortValue::Str("ab".into()));
    assert_eq!(SortValue::Int(5), SortValue::Int(5));
    assert_ne!(SortValue::Int(5), SortValue::Str("5".into()));
}

#[test]
fn test_simple_numeric_sort() {
    let d = defn("Test", Some(r"^(\d+)$"), Some(vec![key(1, "int")]), None);
    let mut nums = strings(&["10", "2", "1", "20"]);
    sort_numbers(&mut nums, Some(&d));
    assert_eq!(nums, vec!["1", "2", "10", "20"]);
}

#[test]
fn test_opus_subnumber_sort() {
    let d = opus();
    let mut nums = strings(&["2/1", "10", "2", "2/10", "2/2"]);
    sort_numbers(&mut nums, Some(&d));
    assert_eq!(nums, vec!["2", "2/1", "2/2", "2/10", "10"]);
}

#[test]
fn sort_without_definition_is_text_order() {
    let mut nums = strings(&["10", "2", "1", "20"]);
    sort_numbers(&mut nums, None);
    assert_eq!(nums, vec!["1", "10", "2", "20"]);
    let mut empty: Vec<String> = Vec::new();
    sort_numbers(&mut empty, None);
    assert!(empty.is_empty());
}

#[test]
fn sort_is_idempotent_and_stable() {
    let d = opus();
    let mut once = strings(&["7", "2/2", "abc", "2", "2/1", "zz", "10a", "10"]);
    sort_numbers(&mut once, Some(&d));
    assert_eq!(once, vec!["2", "2/1", "2/2", "7", "10", "10a", "abc", "zz"]);
    let mut twice = once.clone();
    sort_numbers(&mut twice, Some(&d));
    assert_eq!(once, twice);

    // "02" and "2" have equal keys: they keep their order either way.
    let mut a = strings(&["02", "1", "2"]);
    sort_numbers(&mut a, Some(&opus()));
    assert_eq!(a, vec!["1", "02", "2"]);
    let mut b = strings(&["2", "1", "02"]);
    sort_numbers(&mut b, Some(&opus()));
    assert_eq!(b, vec!["1", "2", "02"]);
}

#[test]
fn unreadable_numbers_sort_last_by_text() {
    let d = opus();
    let mut nums = strings(&["x2", "5", "a1", "3"]);
    sort_numbers(&mut nums, Some(&d));
    assert_eq!(nums, vec!["3", "5", "a1", "x2"]);
}

#[test]
fn invalid_pattern_sorts_by_text() {
    let d = defn("Bad", Some("(unclosed"), Some(vec![key(1, "int")]), None);
    let mut nums = strings(&["10", "9", "1"]);
    sort_numbers(&mut nums, Some(&d));
    assert_eq!(nums, vec!["1", "10", "9"]);
    assert_eq!(sort_key("10", &d), vec![SortValue::Int(999999999), SortValue::Str("10".into())]);
}

#[test]
fn sort_key_fields() {
    let d = opus();
    assert_eq!(sort_key("2/1", &d), vec![SortValue::Int(2), SortValue::Int(1), SortValue::NoneFirst]);
    assert_eq!(sort_key("2", &d), vec![SortValue::Int(2), SortValue::NoneFirst, SortValue::NoneFirst]);
    assert_eq!(sort_key("10a", &d), vec![SortValue::Int(10), SortValue::NoneFirst, SortValue::Str("a".into())]);
    // The pattern is read case-insensitively.
    assert_eq!(sort_key("10A", &d), vec![SortValue::Int(10), SortValue::NoneFirst, SortValue::Str("A".into())]);
    assert_eq!(sort_key("op", &d), vec![SortValue::Int(999999999), SortValue::Str("op".into())]);
    assert_eq!(sort_key("xvi:52", &hoboken()), vec![SortValue::Int(16), SortValue::Int(52)]);
    let no_pattern = defn("Plain", None, None, None);
    assert_eq!(sort_key("K. 1", &no_pattern), vec![SortValue::Str("K. 1".into())]);
    let no_keys = defn("NoKeys", Some(r"^(\d+)$"), None, None);
    assert_eq!(sort_key("12", &no_keys), vec![SortValue::Str("12".into())]);
}

#[test]
fn int_field_out_of_range_reads_zero() {
    let d = defn("Big", Some(r"^(\d+)$"), Some(vec![key(1, "int")]), None);
    assert_eq!(sort_key("9223372036854775807", &d), vec![SortValue::Int(i64::MAX)]);
    assert_eq!(sort_key("9223372036854775808", &d), vec![SortValue::Int(0)]);
    let signed = defn("Signed", Some(r"^([+-]?\d+)$"), Some(vec![key(1, "int")]), None);
    assert_eq!(sort_key("-9223372036854775808", &signed), vec![SortValue::Int(i64::MIN)]);
    assert_eq!(sort_key("+7", &signed), vec![SortValue::Int(7)]);
}

#[test]
fn key_order_follows_field_types() {
    let d = opus();
    let order = ["2", "2/1", "2/2", "2/10", "10", "10a", "10b"];
    for w in order.windows(2) {
        let a = sort_key(w[0], &d);
        let b = sort_key(w[1], &d);
        assert!(a < b, "{} before {}", w[0], w[1]);
    }
}

#[test]
fn catalog_test_normalize_catalog_number() {
    assert_eq!(normalize_catalog_number("300K"), "300k");
    assert_eq!(normalize_catalog_number("331A"), "331a");
    assert_eq!(normalize_catalog_number("I:13"), "i:13");
    assert_eq!(normalize_catalog_number("XVI:52"), "xvi:52");
    assert_eq!(normalize_catalog_number("BWV 846"), "bwv 846");
}

#[test]
fn test_is_fallback_key() {
    assert!(is_fallback_key(&vec![SortValue::Int(999999999), SortValue::Str("x".into())]));
    assert!(!is_fallback_key(&vec![SortValue::Int(1), SortValue::NoneFirst]));
    assert!(!is_fallback_key(&[]));
}

#[test]
fn test_make_inclusive_ceiling() {
    assert_eq!(
        make_inclusive_ceiling(vec![SortValue::Int(10), SortValue::NoneFirst, SortValue::NoneFirst]),
        vec![SortValue::Int(10), SortValue::NoneLast, SortValue::NoneLast]
    );
    assert_eq!(
        make_inclusive_ceiling(vec![SortValue::Int(10), SortValue::Int(1), SortValue::NoneFirst]),
        vec![SortValue::Int(10), SortValue::Int(1), SortValue::NoneLast]
    );
    assert_eq!(
        make_inclusive_ceiling(vec![SortValue::Int(10), SortValue::Int(1), SortValue::Int(2)]),
        vec![SortValue::Int(10), SortValue::Int(1), SortValue::Int(2)]
    );
}

#[test]
fn ceiling_keeps_inner_absent_fields() {
    assert_eq!(
        make_inclusive_ceiling(vec![SortValue::NoneFirst, SortValue::Int(1)]),
        vec![SortValue::NoneFirst, SortValue::Int(1)]
    );
    assert_eq!(make_inclusive_ceiling(vec![]), vec![]);
}

#[test]
fn group_membership_by_major_number() {
    let mut d = opus();
    d.group_by = Some(vec![1]);
    assert!(matches_group("2", "2", Some(&d)));
    assert!(matches_group("2/1", "2", Some(&d)));
    assert!(matches_group("2/2", "2", Some(&d)));
    assert!(!matches_group("10", "2", Some(&d)));
}

#[test]
fn group_membership_default_groups() {
    // Without group_by every sort-key group but the last is compared.
    let d = opus();
    assert!(matches_group("2/1", "2/1", Some(&d)));
    assert!(matches_group("2/1a", "2/1", Some(&d)));
    assert!(!matches_group("2/1", "2", Some(&d)));
    assert!(!matches_group("2/2", "2/1", Some(&d)));
    // A number the pattern does not read is in no group.
    assert!(!matches_group("x", "2", Some(&d)));
    // A group the pattern does not read falls back to a prefix test.
    assert!(matches_group("2/1", "2/", Some(&d)));
}

#[test]
fn group_membership_without_definition_is_prefix() {
    assert!(matches_group("2/1", "2", None));
    assert!(matches_group("20", "2", None));
    assert!(!matches_group("7", "2", None));
    let bad = defn("Bad", Some("("), None, None);
    assert!(matches_group("2/1", "2", Some(&bad)));
}

#[test]
fn groups_are_recognised() {
    let d = opus();
    assert!(looks_like_group("2", &d));
    assert!(looks_like_group("2/1", &d));
    assert!(!looks_like_group("2/1a", &d));
    assert!(!looks_like_group("abc", &d));
    assert!(!looks_like_group("1", &hoboken()) );
}

#[test]
fn composer_definition_wins_field_by_field() {
    let global = defn("Global", Some(r"^(\d+)$"), Some(vec![key(1, "int")]), None);
    let mut own = defn("Own", None, None, Some(vec![1]));
    own.canonical_format = Some("K. {number}".into());
    let r = resolve_catalog_def(Some(own), Some(global.clone())).unwrap();
    assert_eq!(r.name, "Own");
    assert_eq!(r.pattern.as_deref(), Some(r"^(\d+)$"));
    assert_eq!(r.sort_keys.unwrap().len(), 1);
    assert_eq!(r.canonical_format.as_deref(), Some("K. {number}"));
    assert_eq!(r.group_by, Some(vec![1]));
    assert_eq!(resolve_catalog_def(None, Some(global)).unwrap().name, "Global");
    assert!(resolve_catalog_def(None, None).is_none());
}

#[test]
fn sort_by_registered_scheme() {
    let mut defs = CatalogDefs::new();
    defs.insert("op", Some("beethoven"), opus());
    let mut nums = strings(&["10", "2/1", "2"]);
    sort_numbers_by_scheme(&mut nums, &defs, "op", Some("beethoven"));
    assert_eq!(nums, vec!["2", "2/1", "10"]);
    let mut other = strings(&["10", "2/1", "2"]);
    sort_numbers_by_scheme(&mut other, &defs, "op", Some("mozart"));
    assert_eq!(other, vec!["10", "2", "2/1"]);
    assert!(defs.get("op", None).is_none());
    assert_eq!(defs.get("op", Some("beethoven")).unwrap().name, "Op");
}
