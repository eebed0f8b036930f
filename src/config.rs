//! Display settings: language, key symbols, title patterns and key names.
use vstd::prelude::*;

verus! {

/// How accidentals are written.
#[derive(Debug, Clone, Copy, PartialEq, Eq, Structural)]
pub enum KeySymbols {
    Unicode,
    Ascii,
}

impl Default for KeySymbols {
    fn default() -> (r: KeySymbols)
        ensures
            r == KeySymbols::Unicode,
    {
        KeySymbols::Unicode
    }
}

/// Title patterns for compositions without a title of their own.
#[derive(Debug, Clone)]
pub struct PatternConfig {
    pub generic: String,
    pub with_number: String,
    pub instrumentation_max_chars: usize,
}

impl Default for PatternConfig {
    fn default() -> (r: PatternConfig)
        ensures
            r.generic@ == "{form} in {key}"@,
            r.with_number@ == "{form} no. {num} in {key}"@,
            r.instrumentation_max_chars == 40,
    {
        PatternConfig {
            generic: "{form} in {key}".to_owned(),
            with_number: "{form} no. {num} in {key}".to_owned(),
            instrumentation_max_chars: 40,
        }
    }
}

/// How titles and keys are shown.
#[derive(Debug, Clone)]
pub struct DisplayConfig {
    pub language: String,
    pub key_symbols: KeySymbols,
    pub patterns: PatternConfig,
    /// Key codes with the names to show for them, taking precedence.
    pub keys: Vec<(String, String)>,
}

impl Default for DisplayConfig {
    fn default() -> (r: DisplayConfig)
        ensures
            r.language@ == "en"@,
            r.key_symbols == KeySymbols::Unicode,
            r.keys@.len() == 0,
            r.patterns.generic@ == "{form} in {key}"@,
            r.patterns.with_number@ == "{form} no. {num} in {key}"@,
            r.patterns.instrumentation_max_chars == 40,
    {
        DisplayConfig {
            language: "en".to_owned(),
            key_symbols: KeySymbols::Unicode,
            patterns: PatternConfig::default(),
            keys: Vec::new(),
        }
    }
}

/// User settings: data directory, editor and display.
#[derive(Debug, Clone)]
pub struct Config {
    pub data_dir: Option<String>,
    pub editor: Option<String>,
    pub display: DisplayConfig,
}

impl Default for Config {
    fn default() -> (r: Config)
        ensures
            r.data_dir is None,
            r.editor is None,
            r.display.language@ == "en"@,
    {
        Config { data_dir: None, editor: None, display: DisplayConfig::default() }
    }
}

} // verus!
