use werkverzeichnis::{
    build_index, AttributionEntry, CatalogDefinition, CatalogDefs, CatalogEntry, Collection, CollectionSet,
    Composition, SortKey,
};
use werkverzeichnis::normalize_catalog_number;

fn cat(scheme: &str, number: &str) -> CatalogEntry {
    CatalogEntry { scheme: scheme.into(), number: number.into(), edition: None, since: None, note: None }
}

fn cat_ed(scheme: &str, number: &str, edition: &str) -> CatalogEntry {
    CatalogEntry { edition: Some(edition.into()), ..cat(scheme, number) }
}

fn attr(composer: &str, catalog: Vec<CatalogEntry>) -> AttributionEntry {
    AttributionEntry {
        composer: Some(composer.into()),
        cf: None,
        dates: None,
        status: None,
        catalog: Some(catalog),
        since: None,
        note: None,
    }
}

fn comp(id: &str, form: &str, attribution: Vec<AttributionEntry>) -> Composition {
    Composition {
        id: id.into(),
        title: None,
        form: form.into(),
        key: None,
        instrumentation: None,
        attribution,
        movements: None,
        sections: None,
        xref: None,
    }
}

#[test]
fn test_index_roundtrip() {
    let docs = vec![
        comp("ab123456", "sonata", vec![attr("mozart", vec![cat("k", "545")])]),
        comp("cd789012", "sonata", vec![attr("mozart", vec![cat("k", "331")])]),
    ];
    let index = build_index(&docs, &CollectionSet::new());

    let result = index.query().composer("mozart").scheme("k").number("545").fetch_one();
    assert_eq!(result, Some("ab123456".to_string()));

    let result = index.query().composer("mozart").scheme("k").number("331").fetch_one();
    assert_eq!(result, Some("cd789012".to_string()));

    let mozart_works = index.composer_ids("mozart").unwrap();
    assert_eq!(mozart_works.len(), 2);
}

#[test]
fn test_cumulative_editions() {
    let docs = vec![
        comp("ab123456", "sonata", vec![attr("mozart", vec![cat_ed("k", "545", "1")])]),
        comp(
            "cd789012",
            "sonata",
            vec![attr("mozart", vec![cat_ed("k", "331", "9"), cat_ed("k", "300i", "1")])],
        ),
    ];
    let index = build_index(&docs, &CollectionSet::new());

    let ed1 = index.edition_map("mozart", "k", "1").unwrap();
    assert!(ed1.contains_key("545"));
    assert!(ed1.contains_key("300i"));
    assert!(!ed1.contains_key("331"));

    let ed9 = index.edition_map("mozart", "k", "9").unwrap();
    assert!(ed9.contains_key("545"), "545 should be inherited into edition 9");
    assert!(ed9.contains_key("331"), "331 should be in edition 9");
    assert!(!ed9.contains_key("300i"), "300i should be superseded by 331 in edition 9");
}

#[test]
fn editions_between_labels_take_the_latest_earlier_number() {
    let docs = vec![comp(
        "cd789012",
        "sonata",
        vec![attr("mozart", vec![cat_ed("k", "331", "9"), cat_ed("k", "300i", "6"), cat_ed("k", "300", "1")])],
    )];
    let index = build_index(&docs, &CollectionSet::new());
    assert_eq!(index.edition_map("mozart", "k", "1").unwrap().get("300"), Some(&"cd789012".to_string()));
    let ed6 = index.edition_map("mozart", "k", "6").unwrap();
    assert!(ed6.contains_key("300i"));
    assert!(!ed6.contains_key("300"));
    assert!(!ed6.contains_key("331"));
    assert!(index.edition_map("mozart", "k", "7").is_none());
    let id = index.query().composer("mozart").scheme("k").edition("6").number("300i").fetch_one();
    assert_eq!(id, Some("cd789012".to_string()));
}

#[test]
fn integration_test_normalize_catalog_number() {
    assert_eq!(normalize_catalog_number("BWV 812"), "bwv 812");
    assert_eq!(normalize_catalog_number("K. 331"), "k. 331");
    assert_eq!(normalize_catalog_number("Hob. I:104"), "hob. i:104");
    assert_eq!(normalize_catalog_number("Op. 2/1"), "op. 2/1");
    assert_eq!(normalize_catalog_number("ANH. III 141"), "anh. iii 141");
}

#[test]
fn test_case_insensitive_query() {
    let docs = vec![comp("ab123456", "symphony", vec![attr("haydn", vec![cat("hob", "i:104")])])];
    let index = build_index(&docs, &CollectionSet::new());

    let result = index.query().composer("haydn").scheme("hob").number("i:104").fetch_one();
    assert_eq!(result, Some("ab123456".to_string()));

    let result = index.query().composer("haydn").scheme("hob").number("I:104").fetch_one();
    assert_eq!(result, Some("ab123456".to_string()));
}

#[test]
fn test_superseded_lookup() {
    let docs = vec![comp("ab123456", "sonata", vec![attr("mozart", vec![cat("k", "331"), cat("k", "300i")])])];
    let index = build_index(&docs, &CollectionSet::new());

    let result = index.query().composer("mozart").scheme("k").number("331").fetch_one();
    assert_eq!(result, Some("ab123456".to_string()));

    let result = index.query().composer("mozart").scheme("k").number("300i").fetch_one();
    assert_eq!(result, Some("ab123456".to_string()));

    let result = index.query().composer("mozart").scheme("k").number("300i").strict(true).fetch_one();
    assert_eq!(result, None);
}

#[test]
fn integration_superseded_has_current_number() {
    let docs = vec![comp("ab123456", "sonata", vec![attr("mozart", vec![cat("k", "331"), cat("k", "300i")])])];
    let index = build_index(&docs, &CollectionSet::new());
    let defs = CatalogDefs::new();

    let results = index.query().composer("mozart").scheme("k").number("300i").data_dir(&defs).fetch();

    assert_eq!(results.len(), 1);
    assert!(results[0].superseded);
    assert_eq!(results[0].current_number, Some("331".to_string()));
}

#[test]
fn test_multi_composer_attribution() {
    let docs = vec![comp(
        "ab123456",
        "cantata",
        vec![
            attr("telemann", vec![cat("twv", "1:183")]),
            attr("bach", vec![cat("bwv", "anh. iii 141"), cat("bwv", "141")]),
        ],
    )];
    let index = build_index(&docs, &CollectionSet::new());

    let result = index.query().composer("telemann").scheme("twv").number("1:183").fetch_one();
    assert_eq!(result, Some("ab123456".to_string()));

    let result = index.query().composer("bach").scheme("bwv").number("anh. iii 141").fetch_one();
    assert_eq!(result, Some("ab123456".to_string()));

    let result = index.query().composer("bach").scheme("bwv").number("141").fetch_one();
    assert_eq!(result, Some("ab123456".to_string()));

    let result = index.query().composer("bach").scheme("bwv").number("141").strict(true).fetch_one();
    assert_eq!(result, None);

    assert_eq!(index.composer_ids("telemann").unwrap().len(), 1);
    assert_eq!(index.composer_ids("bach").unwrap().len(), 1);
}

#[test]
fn test_collection_hydration() {
    let coll = Collection {
        id: "bach-wtc-1".into(),
        title: vec![],
        expansion_pattern: None,
        composer: None,
        attribution: vec![AttributionEntry { catalog: None, ..attr("bach", vec![]) }],
        scheme: "bwv".into(),
        description: None,
        compositions: vec!["846".into(), "847".into()],
    };
    let mut collections = CollectionSet::new();
    collections.insert("bach-wtc-1", coll);

    let mut entry = attr("x", vec![cat("bwv", "846")]);
    entry.composer = None;
    entry.cf = Some("bach-wtc-1".into());
    let docs = vec![comp("ab123456", "prelude and fugue", vec![entry])];
    let index = build_index(&docs, &collections);

    let result = index.query().composer("bach").scheme("bwv").number("846").fetch_one();
    assert_eq!(result, Some("ab123456".to_string()));

    let bach_works = index.composer_ids("bach");
    assert!(bach_works.is_some());
    assert!(bach_works.unwrap().contains(&"ab123456".to_string()));
}

#[test]
fn test_note_in_index() {
    let mut c = cat("bwv", "anh. iii 141");
    c.note = Some("spurious; now attributed to Telemann".into());
    let docs = vec![comp("ab123456", "cantata", vec![attr("bach", vec![c])])];
    let index = build_index(&docs, &CollectionSet::new());
    let defs = CatalogDefs::new();

    let results = index.query().composer("bach").scheme("bwv").number("anh. iii 141").data_dir(&defs).fetch();

    assert_eq!(results.len(), 1);
    assert_eq!(results[0].note, Some("spurious; now attributed to Telemann".to_string()));
}

fn haydn_docs() -> Vec<Composition> {
    ["ab000001", "ab000002", "ab000003", "ab000004", "ab000005"]
        .iter()
        .enumerate()
        .map(|(i, id)| comp(id, "symphony", vec![attr("haydn", vec![cat("hob", &format!("i:{}", i + 1))])]))
        .collect()
}

#[test]
fn test_range_query() {
    let index = build_index(&haydn_docs(), &CollectionSet::new());
    let defs = CatalogDefs::new();

    let results = index.query().composer("haydn").scheme("hob").range("i:2", "i:4").data_dir(&defs).sorted(&defs).fetch();

    assert_eq!(results.len(), 3);
}

#[test]
fn range_query_under_definition_is_inclusive() {
    let mut docs = haydn_docs();
    docs.push(comp("ab000006", "symphony", vec![attr("haydn", vec![cat("hob", "ii:1")])]));
    let index = build_index(&docs, &CollectionSet::new());
    let mut defs = CatalogDefs::new();
    defs.insert(
        "hob",
        Some("haydn"),
        CatalogDefinition {
            name: "Hoboken".into(),
            description: None,
            canonical_format: None,
            pattern: Some(r"^([ivxlcdm]+)(?::(\d+))?$".into()),
            sort_keys: Some(vec![
                SortKey { group: 1, sort_type: "roman".into(), display: None },
                SortKey { group: 2, sort_type: "int".into(), display: None },
            ]),
            group_by: None,
            aliases: None,
            editions: None,
        },
    );
    let results = index.query().composer("haydn").scheme("hob").range("i:2", "i:4").sorted(&defs).fetch();
    let numbers: Vec<&str> = results.iter().map(|r| r.number.as_deref().unwrap()).collect();
    assert_eq!(numbers, vec!["i:2", "i:3", "i:4"]);
    // An end that names a whole group covers all of it.
    let results = index.query().composer("haydn").scheme("hob").range("i:4", "i").sorted(&defs).fetch();
    let numbers: Vec<&str> = results.iter().map(|r| r.number.as_deref().unwrap()).collect();
    assert_eq!(numbers, vec!["i:4", "i:5"]);
}

#[test]
fn test_group_query() {
    let docs = vec![
        comp("ab000001", "sonata", vec![attr("beethoven", vec![cat("op", "2/1")])]),
        comp("ab000002", "sonata", vec![attr("beethoven", vec![cat("op", "2/2")])]),
        comp("ab000003", "sonata", vec![attr("beethoven", vec![cat("op", "2/3")])]),
        comp("ab000004", "sonata", vec![attr("beethoven", vec![cat("op", "7")])]),
    ];
    let index = build_index(&docs, &CollectionSet::new());
    let defs = CatalogDefs::new();

    let results = index.query().composer("beethoven").scheme("op").group("2").data_dir(&defs).sorted(&defs).fetch();

    assert_eq!(results.len(), 3);
    let numbers: Vec<_> = results.iter().filter_map(|r| r.number.as_ref()).collect();
    assert!(numbers.contains(&&"2/1".to_string()));
    assert!(numbers.contains(&&"2/2".to_string()));
    assert!(numbers.contains(&&"2/3".to_string()));
}

#[test]
fn unknown_number_is_read_as_group() {
    let docs = vec![
        comp("ab000001", "sonata", vec![attr("beethoven", vec![cat("op", "2/1")])]),
        comp("ab000002", "sonata", vec![attr("beethoven", vec![cat("op", "2/2")])]),
        comp("ab000003", "sonata", vec![attr("beethoven", vec![cat("op", "7")])]),
    ];
    let index = build_index(&docs, &CollectionSet::new());
    let results = index.query().composer("beethoven").scheme("op").number("2").fetch();
    let numbers: Vec<&str> = results.iter().map(|r| r.number.as_deref().unwrap()).collect();
    assert_eq!(numbers, vec!["2/1", "2/2"]);
    assert_eq!(index.query().composer("beethoven").scheme("op").number("2").count(), 2);
}

#[test]
fn edition_maps_are_in_numeric_order() {
    let docs = vec![comp(
        "cd789012",
        "sonata",
        vec![attr("mozart", vec![cat_ed("k", "a", "10"), cat_ed("k", "b", "9"), cat_ed("k", "c", "1")])],
    )];
    let index = build_index(&docs, &CollectionSet::new());
    let order: Vec<&str> = index.editions.iter().map(|e| e.edition.as_str()).collect();
    assert_eq!(order, vec!["1", "9", "10"]);
    assert_eq!(index.edition_map("mozart", "k", "9").unwrap().get("b"), Some(&"cd789012".to_string()));
    assert!(!index.edition_map("mozart", "k", "10").unwrap().contains_key("b"));
}

#[test]
fn a_current_number_leaves_the_superseded_ones() {
    let docs = vec![
        comp("ab000001", "sonata", vec![attr("mozart", vec![cat("k", "331"), cat("k", "300i")])]),
        comp("ab000002", "sonata", vec![attr("mozart", vec![cat("k", "300i")])]),
    ];
    let index = build_index(&docs, &CollectionSet::new());
    assert!(index.check_wf());
    let si = index.scheme_index("mozart", "k").unwrap();
    assert_eq!(si.current_id("300i"), Some(&"ab000002".to_string()));
    assert!(si.superseded_id("300i").is_none());
    let listing = index.query().composer("mozart").scheme("k").fetch();
    let rows: Vec<(&str, bool)> = listing.iter().map(|r| (r.number.as_deref().unwrap(), r.superseded)).collect();
    assert_eq!(rows.len(), 2);
    assert!(rows.contains(&("331", false)));
    assert!(rows.contains(&("300i", false)));
}
