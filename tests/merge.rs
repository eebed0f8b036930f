use werkverzeichnis::{
    all_catalog_entries, current_catalog_number, effective_composer, current_catalog_number_for_edition, current_composer,
    merge_attribution, merge_attribution_with_collections, state_as_of, AttributionEntry, CatalogEntry, Collection,
    CollectionSet, Dates, Status,
};

fn entry(composer: Option<&str>) -> AttributionEntry {
    AttributionEntry {
        composer: composer.map(String::from),
        cf: None,
        dates: None,
        status: None,
        catalog: None,
        since: None,
        note: None,
    }
}

fn cat(scheme: &str, number: &str, edition: Option<&str>) -> CatalogEntry {
    CatalogEntry {
        scheme: scheme.into(),
        number: number.into(),
        edition: edition.map(String::from),
        since: None,
        note: None,
    }
}

#[test]
fn test_simple_merge() {
    let entries = vec![AttributionEntry {
        composer: Some("mozart".into()),
        cf: None,
        dates: Some(Dates { composed: Some(1783), published: None, premiered: None, revised: None }),
        status: None,
        catalog: Some(vec![cat("k", "332", Some("9"))]),
        since: None,
        note: None,
    }];

    let merged = merge_attribution(&entries);
    assert_eq!(merged.composer, Some("mozart".into()));
    assert_eq!(merged.dates.composed, Some(1783));
    assert_eq!(merged.catalog.len(), 1);
    assert_eq!(merged.catalog[0].number, "332");
}

#[test]
fn test_merge_multiple_entries() {
    let entries = vec![
        AttributionEntry {
            composer: Some("telemann".into()),
            cf: None,
            dates: Some(Dates { composed: Some(1725), published: None, premiered: None, revised: None }),
            status: None,
            catalog: Some(vec![cat("twv", "1:877", None)]),
            since: Some("2020".into()),
            note: None,
        },
        AttributionEntry {
            composer: Some("bach".into()),
            cf: None,
            dates: None,
            status: Some(Status::Spurious),
            catalog: Some(vec![cat("bwv", "160", None)]),
            since: None,
            note: None,
        },
    ];

    let merged = merge_attribution(&entries);
    assert_eq!(merged.composer, Some("telemann".into()));
    assert_eq!(merged.dates.composed, Some(1725));
    assert_eq!(merged.catalog.len(), 2);
}

#[test]
fn merge_takes_status_from_first_and_dates_field_by_field() {
    let mut a = entry(None);
    a.dates = Some(Dates { composed: Some(1720), published: None, premiered: None, revised: None });
    a.note = Some("first".into());
    let mut b = entry(Some("bach"));
    b.status = Some(Status::Doubtful);
    b.dates = Some(Dates { composed: Some(1700), published: Some(1730), premiered: None, revised: None });
    b.note = Some("second".into());
    b.catalog = Some(vec![cat("bwv", "1", None), cat("bwv", "1", None)]);
    let merged = merge_attribution(&[a, b]);
    assert_eq!(merged.status, None);
    assert_eq!(merged.composer.as_deref(), Some("bach"));
    assert_eq!(merged.dates, Dates { composed: Some(1720), published: Some(1730), premiered: None, revised: None });
    assert_eq!(merged.catalog.len(), 2);
    assert_eq!(merged.notes, vec!["first".to_string(), "second".to_string()]);

    let empty = merge_attribution(&[]);
    assert!(empty.composer.is_none());
    assert!(empty.catalog.is_empty());
}

#[test]
fn test_current_composer() {
    let entries = vec![
        AttributionEntry {
            composer: None,
            cf: None,
            dates: Some(Dates { composed: Some(1725), ..Default::default() }),
            status: None,
            catalog: None,
            since: None,
            note: None,
        },
        entry(Some("bach")),
    ];

    assert_eq!(current_composer(&entries), Some("bach"));
}

#[test]
fn test_state_as_of() {
    let mut a = entry(Some("telemann"));
    a.since = Some("2020".into());
    let mut b = entry(Some("bach"));
    b.since = Some("1950".into());
    let entries = vec![a, b];

    let as_of_2000 = state_as_of(&entries, "2000");
    assert_eq!(as_of_2000.len(), 1);
    assert_eq!(as_of_2000[0].composer, Some("bach".into()));

    let as_of_2025 = state_as_of(&entries, "2025");
    assert_eq!(as_of_2025.len(), 2);
}

#[test]
fn state_as_of_keeps_undated_and_equal() {
    let mut a = entry(Some("a"));
    a.since = Some("1950-01-01".into());
    let b = entry(Some("b"));
    let entries = vec![a, b];
    assert_eq!(state_as_of(&entries, "1950-01-01").len(), 2);
    let early = state_as_of(&entries, "1949");
    assert_eq!(early.len(), 1);
    assert_eq!(early[0].composer.as_deref(), Some("b"));
}

#[test]
fn catalog_number_lookups() {
    let mut a = entry(Some("mozart"));
    a.catalog = Some(vec![cat("k", "331", Some("9")), cat("k", "300i", Some("6"))]);
    let mut b = entry(Some("mozart"));
    b.catalog = Some(vec![cat("bwv", "1", None)]);
    let entries = vec![a, b];
    assert_eq!(current_catalog_number(&entries, "k"), Some("331"));
    assert_eq!(current_catalog_number(&entries, "bwv"), Some("1"));
    assert_eq!(current_catalog_number(&entries, "hob"), None);
    assert_eq!(current_catalog_number_for_edition(&entries, "k", "6"), Some("300i"));
    assert_eq!(current_catalog_number_for_edition(&entries, "k", "1"), None);
    let all = all_catalog_entries(&entries);
    let numbers: Vec<&str> = all.iter().map(|c| c.number.as_str()).collect();
    assert_eq!(numbers, vec!["331", "300i", "1"]);
}

#[test]
fn collection_supplies_composer_and_dates() {
    let mut coll_entry = entry(Some("bach"));
    coll_entry.dates = Some(Dates { composed: Some(1722), published: None, premiered: None, revised: None });
    let coll = Collection {
        id: "bach-wtc-1".into(),
        title: vec![],
        expansion_pattern: None,
        composer: None,
        attribution: vec![coll_entry],
        scheme: "bwv".into(),
        description: None,
        compositions: vec!["846".into()],
    };
    let mut set = CollectionSet::new();
    set.insert("bach-wtc-1", coll);

    let mut e = entry(None);
    e.cf = Some("bach-wtc-1".into());
    e.catalog = Some(vec![cat("bwv", "846", None)]);
    let merged = merge_attribution_with_collections(&[e.clone()], &set);
    assert_eq!(merged.composer.as_deref(), Some("bach"));
    assert_eq!(merged.dates.composed, Some(1722));
    assert_eq!(merged.catalog.len(), 1);

    // An unknown reference leaves the entry as it is.
    let mut unknown = e.clone();
    unknown.cf = Some("bach-missing".into());
    let merged = merge_attribution_with_collections(&[unknown], &set);
    assert!(merged.composer.is_none());

    // An explicit composer is kept.
    let mut own = e;
    own.composer = Some("other".into());
    let merged = merge_attribution_with_collections(&[own], &set);
    assert_eq!(merged.composer.as_deref(), Some("other"));
}

#[test]
fn empty_composer_names_nobody() {
    let entries = vec![entry(Some("")), entry(Some("bach"))];
    assert_eq!(merge_attribution(&entries).composer.as_deref(), Some("bach"));
    assert_eq!(effective_composer(&entries), Some("bach"));
    assert_eq!(current_composer(&entries), Some(""));
}
