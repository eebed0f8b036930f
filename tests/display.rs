use werkverzeichnis::{
    expand_key, expand_title, format_catalog, format_form, format_number_for_display, truncate_instrumentation,
    AttributionEntry, CatalogDefinition, CatalogEntry, Collection, Composition, DisplayConfig, ExpansionContext,
    KeySymbols, SortKey,
};

fn sk(group: usize, sort_type: &str, display: Option<&str>) -> SortKey {
    SortKey { group, sort_type: sort_type.into(), display: display.map(String::from) }
}

fn hob_defn() -> CatalogDefinition {
    CatalogDefinition {
        name: "Hoboken".into(),
        description: None,
        canonical_format: Some("Hob. {number}".into()),
        pattern: Some(r"^([ivxlcdm]+):(\d+)$".into()),
        sort_keys: Some(vec![sk(1, "roman", Some("upper")), sk(2, "int", None)]),
        group_by: None,
        aliases: None,
        editions: None,
    }
}

#[test]
fn test_expand_key_major() {
    let config = DisplayConfig::default();
    assert_eq!(expand_key("C", &config), "C major");
    assert_eq!(expand_key("F#", &config), "F♯ major");
    assert_eq!(expand_key("Bb", &config), "B♭ major");
}

#[test]
fn test_expand_key_minor() {
    let config = DisplayConfig::default();
    assert_eq!(expand_key("c", &config), "c minor");
    assert_eq!(expand_key("f#", &config), "f♯ minor");
}

#[test]
fn test_expand_key_german() {
    let config = DisplayConfig { language: "de".into(), ..Default::default() };
    assert_eq!(expand_key("C", &config), "C-Dur");
    assert_eq!(expand_key("c", &config), "c-Moll");
    assert_eq!(expand_key("Bb", &config), "B-Dur");
}

#[test]
fn test_expand_key_already_expanded() {
    let config = DisplayConfig::default();
    assert_eq!(expand_key("D minor", &config), "D minor");
    assert_eq!(expand_key("B minor", &config), "B minor");
    assert_eq!(expand_key("G major", &config), "G major");
    assert_eq!(expand_key("F-sharp minor", &config), "F-sharp minor");
}

#[test]
fn expand_key_reads_other_codes() {
    let config = DisplayConfig::default();
    assert_eq!(expand_key("D.dor", &config), "D Dorian");
    assert_eq!(expand_key("a#", &config), "a♯ minor");
    assert_eq!(expand_key("Fx", &config), "F𝄪 major");
    let ascii = DisplayConfig { key_symbols: KeySymbols::Ascii, ..Default::default() };
    assert_eq!(expand_key("Ebb", &ascii), "Ebb major");
    let custom = DisplayConfig { keys: vec![("C".into(), "Ut majeur".into())], ..Default::default() };
    assert_eq!(expand_key("C", &custom), "Ut majeur");
}

#[test]
fn test_format_form() {
    assert_eq!(format_form("sonata"), "Sonata");
    assert_eq!(format_form("character piece"), "Character Piece");
    assert_eq!(format_form("FUGUE"), "Fugue");
}

#[test]
fn format_form_collapses_white_space() {
    assert_eq!(format_form("  prelude   and\tfugue "), "Prelude And Fugue");
    assert_eq!(format_form(""), "");
}

#[test]
fn test_truncate_instrumentation() {
    assert_eq!(truncate_instrumentation("piano", 10), "piano");
    assert_eq!(truncate_instrumentation("violin, viola, and cello", 15), "violin, viola,…");
}

#[test]
fn truncate_at_small_limits() {
    assert_eq!(truncate_instrumentation("abc", 3), "abc");
    assert_eq!(truncate_instrumentation("abcd", 1), "…");
    assert_eq!(truncate_instrumentation("abcd", 0), "…");
}

#[test]
fn test_format_catalog_simple() {
    assert_eq!(format_catalog("bwv", "812", None), "BWV 812");
    assert_eq!(format_catalog("op", "27", None), "op. 27");
}

#[test]
fn format_catalog_other_schemes() {
    assert_eq!(format_catalog("KV", "331", None), "K. 331");
    assert_eq!(format_catalog("woo", "59", None), "WoO 59");
    assert_eq!(format_catalog("rv", "269", None), "RV 269");
}

#[test]
fn test_format_catalog_with_subnumber() {
    assert_eq!(format_catalog("op", "10/2", None), "op. 10 no. 2");
    assert_eq!(format_catalog("op", "2/1", None), "op. 2 no. 1");
}

#[test]
fn test_format_number_for_display() {
    let hob = hob_defn();
    assert_eq!(format_number_for_display("i:1", Some(&hob)), "I:1");
    assert_eq!(format_number_for_display("xvi:52", Some(&hob)), "XVI:52");
    assert_eq!(format_number_for_display("300k", None), "300k");
}

#[test]
fn test_format_number_bwv_anhang() {
    let bwv = CatalogDefinition {
        name: "BWV".into(),
        description: None,
        canonical_format: Some("BWV {number}".into()),
        pattern: Some(r"^(anh\.|app\.)?(\s*)([ivxlcdm]+|[a-d])?(\s*)(\d+)(?:\.(\d+))?([a-z]|r)?$".into()),
        sort_keys: Some(vec![
            sk(1, "str", Some("title")),
            sk(3, "roman", Some("upper")),
            sk(5, "int", None),
            sk(6, "int", None),
            sk(7, "str", None),
        ]),
        group_by: None,
        aliases: None,
        editions: None,
    };

    assert_eq!(format_number_for_display("anh. iii 141", Some(&bwv)), "Anh. III 141");
    assert_eq!(format_number_for_display("anh. ii 23", Some(&bwv)), "Anh. II 23");
    assert_eq!(format_number_for_display("812", Some(&bwv)), "812");
    assert_eq!(format_number_for_display("1080.1", Some(&bwv)), "1080.1");
}

#[test]
fn test_format_catalog_hoboken() {
    let hob = hob_defn();
    assert_eq!(format_catalog("hob", "i:1", Some(&hob)), "Hob. I:1");
    assert_eq!(format_catalog("hob", "xvi:52", Some(&hob)), "Hob. XVI:52");
}

fn composition(title: Option<Vec<(String, String)>>) -> Composition {
    Composition {
        id: "abcd1234".into(),
        title,
        form: "sonata".into(),
        key: Some("c#".into()),
        instrumentation: Some("violin and piano".into()),
        attribution: vec![AttributionEntry {
            composer: Some("beethoven".into()),
            cf: None,
            dates: None,
            status: None,
            catalog: Some(vec![CatalogEntry {
                scheme: "op".into(),
                number: "27/2".into(),
                edition: None,
                since: None,
                note: None,
            }]),
            since: None,
            note: None,
        }],
        movements: None,
        sections: None,
        xref: None,
    }
}

#[test]
fn titles_prefer_language_then_english() {
    let config = DisplayConfig { language: "de".into(), ..Default::default() };
    let comp = composition(Some(vec![("en".into(), "Moonlight".into()), ("de".into(), "Mondschein".into())]));
    let ctx = ExpansionContext { composition: &comp, collection: None, position_in_collection: None, config: &config };
    assert_eq!(expand_title(&ctx), "Mondschein");
    let config = DisplayConfig { language: "fr".into(), ..Default::default() };
    let ctx = ExpansionContext { composition: &comp, collection: None, position_in_collection: None, config: &config };
    assert_eq!(expand_title(&ctx), "Moonlight");
}

#[test]
fn titles_from_patterns() {
    let config = DisplayConfig::default();
    let comp = composition(None);
    let ctx = ExpansionContext { composition: &comp, collection: None, position_in_collection: None, config: &config };
    assert_eq!(expand_title(&ctx), "Sonata in c♯ minor");
    let ctx = ExpansionContext { composition: &comp, collection: None, position_in_collection: Some(14), config: &config };
    assert_eq!(expand_title(&ctx), "Sonata no. 14 in c♯ minor");
    let coll = Collection {
        id: "beethoven-op27".into(),
        title: vec![],
        expansion_pattern: Some(vec![("en".into(), "{form} ({catalog}, {instrumentation})".into())]),
        composer: None,
        attribution: vec![],
        scheme: "op".into(),
        description: None,
        compositions: vec![],
    };
    let ctx = ExpansionContext { composition: &comp, collection: Some(&coll), position_in_collection: Some(2), config: &config };
    assert_eq!(expand_title(&ctx), "Sonata (OP:27/2, violin and piano)");
}

#[test]
fn truncation_counts_bytes() {
    assert_eq!(truncate_instrumentation("é", 1), "…");
    assert_eq!(truncate_instrumentation("é", 2), "é");
    assert_eq!(truncate_instrumentation("éé", 3), "é…");
}
