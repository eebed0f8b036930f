//! Catalog numbers of classical-music compositions: typed sort keys,
//! attribution merging, an index of current, superseded and per-edition
//! numbers, and queries over it.

pub mod add;
pub mod args;
pub mod catalog;
pub mod config;
pub mod defs;
pub mod display;
pub mod index;
pub mod merge;
pub mod parse;
pub mod query;
pub mod text;
pub mod types;
pub mod validate;
pub mod xref;

pub use catalog::{
    is_fallback_key, looks_like_group, make_inclusive_ceiling, matches_group, normalize_catalog_number, parse_roman,
    sort_key, sort_numbers, SortValue,
};
pub use add::{id_from_nanos, scaffold_composition, AddError, AddResult};
pub use args::{is_composition_id, parse_number_spec, GetArgs, NumberSpec, SetArgs};
pub use display::{
    expand_key, expand_title, format_catalog, format_form, format_id_header, format_number_for_display,
    truncate_instrumentation, ExpansionContext,
};
pub use config::{Config, DisplayConfig, KeySymbols, PatternConfig};
pub use defs::{resolve_catalog_def, sort_numbers_by_scheme, CatalogDefs};
pub use index::{add_catalog_entry, build_index, EditionMap, Index, NumberEntry, SchemeIndex};
pub use merge::{
    all_catalog_entries, current_catalog_number, current_catalog_number_for_edition, current_composer, effective_composer,
    merge_attribution, merge_attribution_with_collections, state_as_of, CollectionSet, MergedAttribution,
};
pub use parse::{collection_path_from_id, extract_id_from_path, id_to_path, path_for_id, ParseError};
pub use query::{Query, QueryBuilder, QueryResult};
pub use types::{
    AttributionEntry, CatalogDefinition, CatalogEntry, Collection, Composer, ComposerName, Composition, Dates,
    EditionInfo, Movement, Section, SortKey, Status, Xref,
};
pub use validate::{ValidationError, Validator};
pub use xref::{check_duplicates, MbLookupResult, XrefStats};
