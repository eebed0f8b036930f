use werkverzeichnis::{add_catalog_entry, CatalogEntry, Index};

fn cat(scheme: &str, number: &str, edition: Option<&str>) -> CatalogEntry {
    CatalogEntry {
        scheme: scheme.into(),
        number: number.into(),
        edition: edition.map(String::from),
        since: None,
        note: None,
    }
}

#[test]
fn test_add_catalog_entry_current() {
    let mut index = Index::new();
    add_catalog_entry(&mut index, "bach", &cat("bwv", "846", None), "abc12345", true);

    let si = index.scheme_index("bach", "bwv").unwrap();
    assert_eq!(si.current_id("846"), Some(&"abc12345".to_string()));
    assert!(si.superseded.is_empty());
    assert!(index.scheme_index("bach", "k").is_none());
}

#[test]
fn test_add_catalog_entry_superseded() {
    let mut index = Index::new();
    add_catalog_entry(&mut index, "mozart", &cat("k", "300i", Some("6")), "a7a495c0", false);

    let si = index.scheme_index("mozart", "k").unwrap();
    assert_eq!(si.superseded_id("300i"), Some(&"a7a495c0".to_string()));
    assert!(si.current.is_empty());
}

#[test]
fn test_add_catalog_entry_with_edition() {
    let mut index = Index::new();
    add_catalog_entry(&mut index, "mozart", &cat("k", "332", Some("9")), "bdb3e9e8", true);

    assert!(index.scheme_index("mozart", "k").unwrap().current_id("332").is_some());
    assert!(index.edition_map("mozart", "k", "9").is_some());
    assert!(index.edition_map("mozart", "k", "9").unwrap().contains_key("332"));
}

#[test]
fn current_number_is_never_superseded() {
    let mut index = Index::new();
    add_catalog_entry(&mut index, "mozart", &cat("k", "331", None), "aaaaaaaa", true);
    add_catalog_entry(&mut index, "mozart", &cat("k", "331", None), "bbbbbbbb", false);
    let si = index.scheme_index("mozart", "k").unwrap();
    assert!(si.superseded.is_empty());
    assert_eq!(si.current_id("331"), Some(&"aaaaaaaa".to_string()));
    // A later current entry for the same number replaces the earlier one.
    add_catalog_entry(&mut index, "mozart", &cat("k", "331", None), "cccccccc", true);
    let si = index.scheme_index("mozart", "k").unwrap();
    assert_eq!(si.current.len(), 1);
    assert_eq!(si.current_id("331"), Some(&"cccccccc".to_string()));
}

#[test]
fn hand_built_index_invariant_is_checked() {
    let mut index = Index::new();
    assert!(index.check_wf());
    add_catalog_entry(&mut index, "mozart", &cat("k", "300i", None), "a", false);
    add_catalog_entry(&mut index, "mozart", &cat("k", "300i", None), "b", true);
    assert!(index.check_wf());
    let si = index.scheme_index("mozart", "k").unwrap();
    assert!(si.superseded.is_empty());
    index.catalog[0].superseded.push(werkverzeichnis::NumberEntry { number: "300i".into(), id: "c".into(), note: None });
    assert!(!index.check_wf());
}
