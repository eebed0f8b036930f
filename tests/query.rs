use werkverzeichnis::{EditionMap, Index, NumberEntry, SchemeIndex};

fn entry(number: &str, id: &str) -> NumberEntry {
    NumberEntry { number: number.into(), id: id.into(), note: None }
}

fn make_test_index() -> Index {
    Index {
        by_composer: vec![
            ("bach".into(), vec!["id1".into(), "id2".into()]),
            ("mozart".into(), vec!["id3".into()]),
        ],
        catalog: vec![
            SchemeIndex {
                composer: "bach".into(),
                scheme: "bwv".into(),
                current: vec![entry("846", "id1"), entry("847", "id2")],
                superseded: vec![],
            },
            SchemeIndex {
                composer: "mozart".into(),
                scheme: "k".into(),
                current: vec![entry("332", "id3")],
                superseded: vec![entry("300k", "id3")],
            },
        ],
        editions: vec![
            EditionMap {
                composer: "mozart".into(),
                scheme: "k".into(),
                edition: "6".into(),
                numbers: vec![("300k".into(), "id3".into())],
            },
            EditionMap {
                composer: "mozart".into(),
                scheme: "k".into(),
                edition: "9".into(),
                numbers: vec![("332".into(), "id3".into())],
            },
        ],
    }
}

#[test]
fn test_fetch_one_current() {
    let index = make_test_index();
    let id = index.query().composer("bach").scheme("bwv").number("846").fetch_one();
    assert_eq!(id, Some("id1".into()));
}

#[test]
fn test_fetch_one_superseded_fallback() {
    let index = make_test_index();
    let id = index.query().composer("mozart").scheme("k").number("300k").fetch_one();
    assert_eq!(id, Some("id3".into()));
}

#[test]
fn test_fetch_one_superseded_strict() {
    let index = make_test_index();
    let id = index.query().composer("mozart").scheme("k").number("300k").strict(true).fetch_one();
    assert_eq!(id, None);
}

#[test]
fn test_fetch_one_not_found() {
    let index = make_test_index();
    let id = index.query().composer("bach").scheme("bwv").number("999").fetch_one();
    assert_eq!(id, None);
}

#[test]
fn test_fetch_by_composer() {
    let index = make_test_index();
    let results = index.query().composer("bach").fetch();
    assert_eq!(results.len(), 2);
}

#[test]
fn test_fetch_by_scheme_current_only() {
    let index = make_test_index();
    let results = index.query().composer("mozart").scheme("k").fetch();
    assert!(results.iter().any(|r| r.number == Some("332".into())));
}

#[test]
fn scheme_listing_shows_superseded_unless_strict() {
    let index = make_test_index();
    let results = index.query().composer("mozart").scheme("k").fetch();
    assert_eq!(results.len(), 2);
    assert_eq!(results[1].number.as_deref(), Some("300k"));
    assert!(results[1].superseded);
    assert_eq!(results[1].current_number.as_deref(), Some("332"));
    let strict = index.query().composer("mozart").scheme("k").strict(true).fetch();
    assert_eq!(strict.len(), 1);
    assert!(!strict[0].superseded);
}

#[test]
fn test_fetch_by_edition() {
    let index = make_test_index();
    let id = index.query().composer("mozart").scheme("k").edition("6").number("300k").fetch_one();
    assert_eq!(id, Some("id3".into()));
}

#[test]
fn edition_lookup_has_no_superseded_fallback() {
    let index = make_test_index();
    let id = index.query().composer("mozart").scheme("k").edition("9").number("300k").fetch_one();
    assert_eq!(id, None);
    let id = index.query().composer("mozart").scheme("k").edition("7").number("332").fetch_one();
    assert_eq!(id, None);
    let listing = index.query().composer("mozart").scheme("k").edition("9").fetch();
    assert_eq!(listing.len(), 1);
    assert_eq!(listing[0].number.as_deref(), Some("332"));
}

#[test]
fn query_test_superseded_has_current_number() {
    let index = make_test_index();
    let results = index.query().composer("mozart").scheme("k").number("300k").fetch();
    assert_eq!(results.len(), 1);
    assert!(results[0].superseded);
    assert_eq!(results[0].current_number, Some("332".into()));
}

#[test]
fn test_count() {
    let index = make_test_index();
    let count = index.query().composer("bach").scheme("bwv").count();
    assert_eq!(count, 2);
}

#[test]
fn test_exists() {
    let index = make_test_index();
    assert!(index.query().composer("bach").scheme("bwv").number("846").exists_match());
    assert!(!index.query().composer("bach").scheme("bwv").number("999").exists_match());
}

#[test]
fn incomplete_queries_find_nothing() {
    let index = make_test_index();
    assert!(index.query().fetch().is_empty());
    assert!(index.query().scheme("bwv").fetch().is_empty());
    assert!(index.query().composer("bach").number("846").fetch().is_empty());
    assert!(index.query().composer("nobody").fetch().is_empty());
    assert!(index.query().composer("bach").scheme("k").fetch().is_empty());
    assert_eq!(index.query().composer("bach").fetch_one(), None);
}
