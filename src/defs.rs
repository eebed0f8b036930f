//! Catalog definitions as the data directory provides them: resolving a
//! composer's own definition against the global one, and a registry of
//! resolved definitions that callers fill once and pass to sorts and queries.
use crate::catalog::{deref_def, sort_numbers, sorted_numbers, strs_view};
use crate::text::str_eq;
use crate::types::CatalogDefinition;
use vstd::prelude::*;

verus! {

/// Merges a composer's own definition of a scheme with the global one: the
/// composer's wins; its unset pattern, sort keys and canonical format are
/// taken from the global definition. `None` when neither exists.
pub fn resolve_catalog_def(composer_def: Option<CatalogDefinition>, global_def: Option<CatalogDefinition>) -> (r: Option<CatalogDefinition>)
    ensures
        match (composer_def, global_def) {
            (None, None) => r is None,
            (Some(c), None) => r == Some(c),
            (None, Some(g)) => r == Some(g),
            (Some(c), Some(g)) => r == Some(CatalogDefinition {
                pattern: if c.pattern is Some { c.pattern } else { g.pattern },
                sort_keys: if c.sort_keys is Some { c.sort_keys } else { g.sort_keys },
                canonical_format: if c.canonical_format is Some { c.canonical_format } else { g.canonical_format },
                ..c
            }),
        },
{
    match (composer_def, global_def) {
        (Some(mut c), Some(g)) => {
            if c.pattern.is_none() {
                c.pattern = g.pattern;
            }
            if c.sort_keys.is_none() {
                c.sort_keys = g.sort_keys;
            }
            if c.canonical_format.is_none() {
                c.canonical_format = g.canonical_format;
            }
            Some(c)
        },
        (Some(c), None) => Some(c),
        (None, Some(g)) => Some(g),
        (None, None) => None,
    }
}

pub open spec fn opt_str_view(o: Option<&str>) -> Option<Seq<char>> {
    match o {
        Some(s) => Some(s@),
        None => None,
    }
}

/// The definition registered last for `scheme` and `composer` in `entries`.
pub open spec fn lookup_def(
    entries: Seq<(Seq<char>, Option<Seq<char>>, CatalogDefinition)>,
    scheme: Seq<char>,
    composer: Option<Seq<char>>,
) -> Option<CatalogDefinition>
    decreases entries.len(),
{
    if entries.len() == 0 {
        None
    } else if entries.last().0 == scheme && entries.last().1 == composer {
        Some(entries.last().2)
    } else {
        lookup_def(entries.drop_last(), scheme, composer)
    }
}

/// Resolved catalog definitions, keyed by scheme and optional composer.
pub struct CatalogDefs {
    entries: Vec<(String, Option<String>, CatalogDefinition)>,
}

impl View for CatalogDefs {
    type V = Seq<(Seq<char>, Option<Seq<char>>, CatalogDefinition)>;

    closed spec fn view(&self) -> Self::V {
        self.entries@.map_values(|e: (String, Option<String>, CatalogDefinition)| (e.0@, crate::types::opt_view(e.1), e.2))
    }
}

impl CatalogDefs {
    /// An empty registry.
    pub fn new() -> (r: CatalogDefs)
        ensures
            r@ == Seq::<(Seq<char>, Option<Seq<char>>, CatalogDefinition)>::empty(),
    {
        let r = CatalogDefs { entries: Vec::new() };
        assert(r@ =~= Seq::<(Seq<char>, Option<Seq<char>>, CatalogDefinition)>::empty());
        r
    }

    /// Registers `defn` for `scheme` and `composer`; it replaces what was
    /// registered for them before.
    pub fn insert(&mut self, scheme: &str, composer: Option<&str>, defn: CatalogDefinition)
        ensures
            final(self)@ == old(self)@.push((scheme@, opt_str_view(composer), defn)),
    {
        let c = match composer {
            Some(c) => Some(c.to_owned()),
            None => None,
        };
        self.entries.push((scheme.to_owned(), c, defn));
        assert(self@ =~= old(self)@.push((scheme@, opt_str_view(composer), defn)));
    }

    /// The definition registered for `scheme` and `composer`.
    pub fn get(&self, scheme: &str, composer: Option<&str>) -> (r: Option<&CatalogDefinition>)
        ensures
            deref_def(r) == lookup_def(self@, scheme@, opt_str_view(composer)),
    {
        let mut i: usize = self.entries.len();
        assert(self@.subrange(0, i as int) =~= self@);
        while i > 0
            invariant
                i <= self.entries@.len(),
                self@.len() == self.entries@.len(),
                lookup_def(self@, scheme@, opt_str_view(composer)) == lookup_def(self@.subrange(0, i as int), scheme@, opt_str_view(composer)),
            decreases i,
        {
            let e = &self.entries[i - 1];
            let same_composer = match (&e.1, composer) {
                (Some(a), Some(b)) => str_eq(a.as_str(), b),
                (None, None) => true,
                _ => false,
            };
            proof {
                let p = self@.subrange(0, i as int);
                assert(p.last() == self@[i - 1]);
                assert(p.drop_last() == self@.subrange(0, i - 1));
            }
            if str_eq(e.0.as_str(), scheme) && same_composer {
                return Some(&e.2);
            }
            i = i - 1;
        }
        None
    }
}

/// Sorts `numbers` under the definition registered for `scheme` and
/// `composer` (by raw text when there is none).
pub fn sort_numbers_by_scheme(numbers: &mut Vec<String>, defs: &CatalogDefs, scheme: &str, composer: Option<&str>)
    ensures
        strs_view(final(numbers)@) == sorted_numbers(strs_view(old(numbers)@), lookup_def(defs@, scheme@, opt_str_view(composer))),
{
    let defn = defs.get(scheme, composer);
    sort_numbers(numbers, defn);
}

} // verus!
