use werkverzeichnis::validate;
use werkverzeichnis::xref::{composer_to_pattern, default_format, split_number};
use werkverzeichnis::{
    check_duplicates, collection_path_from_id, extract_id_from_path, format_id_header, id_from_nanos, id_to_path,
    is_composition_id, parse_number_spec, path_for_id, scaffold_composition, AddError, AttributionEntry,
    CatalogDefinition, CatalogDefs, CatalogEntry, Composition, MbLookupResult, NumberSpec, ParseError, Validator,
};

#[test]
fn parse_test_extract_id_from_path() {
    let id = extract_id_from_path("compositions/ab/cd1234.json").unwrap();
    assert_eq!(id, "abcd1234");
}

#[test]
fn extract_id_needs_a_directory() {
    assert!(matches!(extract_id_from_path("cd1234.json"), Err(ParseError::InvalidPath(_))));
    assert!(extract_id_from_path("/").is_err());
    assert_eq!(extract_id_from_path("ab/cd1234.json/").unwrap(), "abcd1234");
    assert_eq!(extract_id_from_path("x/ab/.hidden").unwrap(), "ab.hidden");
}

#[test]
fn test_path_for_id() {
    let path = path_for_id("compositions", "abcd1234").unwrap();
    assert_eq!(path, "compositions/ab/cd1234.json");
}

#[test]
fn path_for_id_rejects_other_lengths() {
    match path_for_id("compositions", "abc1234") {
        Err(ParseError::InvalidPath(m)) => assert_eq!(m, "ID must be 8 characters: abc1234"),
        _ => panic!("expected an error"),
    }
    assert_eq!(path_for_id("data/compositions/", "abcd1234").unwrap(), "data/compositions/ab/cd1234.json");
    assert_eq!(id_to_path("data", "abcd1234"), "data/compositions/ab/cd1234.json");
}

#[test]
fn collection_paths() {
    assert_eq!(collection_path_from_id("collections", "bach-wtc-1"), "collections/bach/wtc-1.json");
    assert_eq!(collection_path_from_id("collections", "misc"), "collections/misc.json");
}

#[test]
fn validate_test_extract_id_from_path() {
    assert_eq!(validate::extract_id_from_path("compositions/ab/cd1234.json"), Some("abcd1234".into()));
    assert_eq!(validate::extract_id_from_path("compositions/ab/foo_bar_cd1234.json"), Some("abcd1234".into()));
    assert_eq!(validate::extract_id_from_path("compositions/ab/foo-bar-cd1234.json"), Some("abcd1234".into()));
    assert_eq!(validate::extract_id_from_path("compositions/abc/cd1234.json"), None);
}

#[test]
fn test_id_validation() {
    let validator = Validator { composers: vec![], catalog_schemes: vec![] };

    let path = "compositions/ab/cd1234.json";
    assert!(validator.validate_id("abcd1234", path, "test").is_empty());
    assert!(!validator.validate_id("ABCD1234", path, "test").is_empty());
    assert!(!validator.validate_id("abc1234", path, "test").is_empty());

    let path = "compositions/wx/yz5678.json";
    assert!(!validator.validate_id("wxyz5678", path, "test").is_empty());

    let path = "compositions/12/345678.json";
    assert!(validator.validate_id("12345678", path, "test").is_empty());
}

#[test]
fn id_must_match_path() {
    let validator = Validator { composers: vec![], catalog_schemes: vec![] };
    let errors = validator.validate_id("abcd1234", "compositions/ab/cd9999.json", "f");
    assert_eq!(errors.len(), 1);
    assert_eq!(errors[0].message, "ID 'abcd1234' doesn't match path (expected 'abcd9999')");
    assert_eq!(errors[0].to_string(), "f: ID 'abcd1234' doesn't match path (expected 'abcd9999')");
}

#[test]
fn key_codes_are_checked() {
    let validator = Validator { composers: vec![], catalog_schemes: vec![] };
    for ok in ["C", "c#", "Bb", "d.dor", "F#.lyd"] {
        assert!(validator.validate_key(&Some(ok.into()), "f").is_empty(), "{}", ok);
    }
    for bad in ["H", "C major", "c##", "d.ionian", ""] {
        assert_eq!(validator.validate_key(&Some(bad.into()), "f").len(), 1, "{}", bad);
    }
    assert!(validator.validate_key(&None, "f").is_empty());
}

fn comp(attribution: Vec<AttributionEntry>) -> Composition {
    Composition {
        id: "abcd1234".into(),
        title: None,
        form: "sonata".into(),
        key: Some("C".into()),
        instrumentation: None,
        attribution,
        movements: None,
        sections: None,
        xref: None,
    }
}

fn attr(composer: &str, schemes: &[&str]) -> AttributionEntry {
    AttributionEntry {
        composer: Some(composer.into()),
        cf: None,
        dates: None,
        status: None,
        catalog: Some(
            schemes
                .iter()
                .map(|s| CatalogEntry { scheme: s.to_string(), number: "1".into(), edition: None, since: None, note: None })
                .collect(),
        ),
        since: None,
        note: None,
    }
}

#[test]
fn attribution_references_are_checked() {
    let validator = Validator { composers: vec!["bach".into()], catalog_schemes: vec!["bwv".into()] };
    let errors = validator.validate_attribution(&comp(vec![]), "f");
    assert_eq!(errors.len(), 1);
    assert_eq!(errors[0].message, "Attribution array is empty");

    let errors = validator.validate_attribution(&comp(vec![attr("bach", &["bwv"]), attr("telemann", &["twv", "bwv"])]), "f");
    let messages: Vec<&str> = errors.iter().map(|e| e.message.as_str()).collect();
    assert_eq!(
        messages,
        vec!["attribution[1]: composer 'telemann' not found in composers/", "attribution[1]: catalog scheme 'twv' not defined"]
    );

    let all = validator.validate_composition(&comp(vec![attr("bach", &["bwv"])]), "compositions/ab/cd1234.json", "f");
    assert!(all.is_empty());
    assert_eq!(validator.check_spacing("a  b", "f").len(), 1);
    assert!(validator.check_spacing("a b", "f").is_empty());
}

#[test]
fn test_scaffold_composition() {
    let json = scaffold_composition("abcd1234", "sonata", "beethoven");
    assert!(json.contains("\"id\": \"abcd1234\""));
    assert!(json.contains("\"form\": \"sonata\""));
    assert!(json.contains("\"composer\": \"beethoven\""));
}

#[test]
fn ids_from_time() {
    assert_eq!(id_from_nanos(0), "00000000");
    assert_eq!(id_from_nanos(0xdeadbeef), "deadbeef");
    assert_eq!(id_from_nanos(0x1_0000_0001), "00000000");
    let id = id_from_nanos(1_700_000_000_123_456_789);
    assert_eq!(id.len(), 8);
    assert!(is_composition_id(&id));
}

#[test]
fn composition_ids_and_number_arguments() {
    assert!(is_composition_id("ABcd1234"));
    assert!(!is_composition_id("abcd123"));
    assert!(!is_composition_id("abcd123g"));
    match parse_number_spec("i:2-i:4") {
        NumberSpec::Range { start, end } => {
            assert_eq!(start, "i:2");
            assert_eq!(end, "i:4");
        }
        NumberSpec::Single(_) => panic!("expected a range"),
    }
    match parse_number_spec("2..5") {
        NumberSpec::Range { start, end } => {
            assert_eq!(start, "2");
            assert_eq!(end, "5");
        }
        NumberSpec::Single(_) => panic!("expected a range"),
    }
    assert!(matches!(parse_number_spec("anh. iii 141"), NumberSpec::Range { .. }));
    assert!(matches!(parse_number_spec("331"), NumberSpec::Single(s) if s == "331"));
    assert!(matches!(parse_number_spec("2-"), NumberSpec::Single(_)));
    assert!(matches!(parse_number_spec("2 - ?"), NumberSpec::Single(_)));
}

#[test]
fn duplicate_hits_are_reported() {
    let r = |n: &str, id: Option<&str>| MbLookupResult {
        catalog_number: n.into(),
        mb_id: id.map(String::from),
        mb_title: None,
    };
    let results = vec![r("1", Some("x")), r("2", Some("y")), r("3", None), r("4", Some("x")), r("5", Some("x"))];
    let dups = check_duplicates(&results);
    assert_eq!(dups, vec![("x".to_string(), vec!["1".to_string(), "4".to_string(), "5".to_string()])]);
    assert!(check_duplicates(&[]).is_empty());
}

#[test]
fn lookup_forms() {
    assert_eq!(split_number("1080.1"), ("1080".to_string(), Some("1".to_string())));
    assert_eq!(split_number("2/1"), ("2".to_string(), Some("1".to_string())));
    assert_eq!(default_format("op", "2/1"), ("op. 2".to_string(), Some("%no. 1%".to_string())));
    assert_eq!(default_format("bwv", "anh. 1"), ("BWV ANH. 1".to_string(), None));
    assert_eq!(default_format("k", "331"), ("331".to_string(), None));
    assert_eq!(composer_to_pattern("bach"), "%Bach%");
    assert_eq!(composer_to_pattern("vivaldi"), "%vivaldi%");
}

#[test]
fn headers_cite_the_first_number() {
    let defs = CatalogDefs::new();
    let c = comp(vec![attr("bach", &["bwv"])]);
    assert_eq!(format_id_header(&c, "abcd1234", &defs), "BWV 1");
    let none = comp(vec![]);
    assert_eq!(format_id_header(&none, "abcd1234", &defs), "abcd1234");
    let mut with_def = CatalogDefs::new();
    with_def.insert(
        "bwv",
        Some("bach"),
        CatalogDefinition {
            name: "BWV".into(),
            description: None,
            canonical_format: Some("BWV° {number}".into()),
            pattern: None,
            sort_keys: None,
            group_by: None,
            aliases: None,
            editions: None,
        },
    );
    assert_eq!(format_id_header(&c, "abcd1234", &with_def), "BWV° 1");
}

#[test]
fn add_errors_read_as_sentences() {
    assert_eq!(AddError::AlreadyExists("p".into()).to_string(), "File already exists: p");
    assert_eq!(
        AddError::ValidationError(vec!["a".into(), "b".into()]).to_string(),
        "Validation errors:\n  a\n  b\n"
    );
}
