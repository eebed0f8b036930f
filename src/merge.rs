//! Folding a composition's attribution entries into one effective view,
//! delegating to shared collection records where an entry refers to one.
use crate::text::{seq_le, str_eq, str_le};
use crate::types::{
    attributions_view, copy_entries, copy_opt, entries_view, opt_view, AttributionEntry, AttributionView,
    CatalogEntry, CatalogEntryView, Collection, Dates,
};
use vstd::prelude::*;

verus! {

/// The effective attribution of a composition.
#[derive(Debug, Clone)]
pub struct MergedAttribution {
    pub composer: Option<String>,
    pub dates: Dates,
    pub status: Option<crate::types::Status>,
    pub catalog: Vec<CatalogEntry>,
    pub notes: Vec<String>,
}

/// The view of a `MergedAttribution`.
pub struct MergedView {
    pub composer: Option<Seq<char>>,
    pub dates: Dates,
    pub status: Option<crate::types::Status>,
    pub catalog: Seq<CatalogEntryView>,
    pub notes: Seq<Seq<char>>,
}

impl View for MergedAttribution {
    type V = MergedView;

    open spec fn view(&self) -> MergedView {
        MergedView {
            composer: opt_view(self.composer),
            dates: self.dates,
            status: self.status,
            catalog: entries_view(self.catalog@),
            notes: self.notes@.map_values(|s: String| s@),
        }
    }
}

pub open spec fn no_dates() -> Dates {
    Dates { composed: None, published: None, premiered: None, revised: None }
}

impl Default for MergedAttribution {
    fn default() -> (r: MergedAttribution)
        ensures
            r@ == (MergedView {
                composer: None,
                dates: no_dates(),
                status: None,
                catalog: Seq::empty(),
                notes: Seq::empty(),
            }),
    {
        let r = MergedAttribution {
            composer: None,
            dates: Dates { composed: None, published: None, premiered: None, revised: None },
            status: None,
            catalog: Vec::new(),
            notes: Vec::new(),
        };
        assert(r@.catalog =~= Seq::<CatalogEntryView>::empty());
        assert(r@.notes =~= Seq::<Seq<char>>::empty());
        r
    }
}

pub open spec fn first_set(a: Option<i32>, b: Option<i32>) -> Option<i32> {
    if a is Some {
        a
    } else {
        b
    }
}

/// `base` with each unset field taken from `overlay`.
pub open spec fn fill_dates(base: Dates, overlay: Dates) -> Dates {
    Dates {
        composed: first_set(base.composed, overlay.composed),
        published: first_set(base.published, overlay.published),
        premiered: first_set(base.premiered, overlay.premiered),
        revised: first_set(base.revised, overlay.revised),
    }
}

fn merge_dates(base: &mut Dates, overlay: &Dates)
    ensures
        *final(base) == fill_dates(*old(base), *overlay),
{
    if base.composed.is_none() {
        base.composed = overlay.composed;
    }
    if base.published.is_none() {
        base.published = overlay.published;
    }
    if base.premiered.is_none() {
        base.premiered = overlay.premiered;
    }
    if base.revised.is_none() {
        base.revised = overlay.revised;
    }
}

/// The first non-empty composer that the entries name.
pub open spec fn merged_composer(es: Seq<AttributionView>) -> Option<Seq<char>>
    decreases es.len(),
{
    if es.len() == 0 {
        None
    } else {
        let c = merged_composer(es.drop_last());
        if c is Some {
            c
        } else if es.last().composer matches Some(x) && x.len() > 0 {
            es.last().composer
        } else {
            None
        }
    }
}

/// Each date field from the first entry that sets it.
pub open spec fn merged_dates(es: Seq<AttributionView>) -> Dates
    decreases es.len(),
{
    if es.len() == 0 {
        no_dates()
    } else {
        let d = merged_dates(es.drop_last());
        match es.last().dates {
            Some(o) => fill_dates(d, o),
            None => d,
        }
    }
}

/// Every entry's catalog list, concatenated in entry order.
pub open spec fn merged_catalog(es: Seq<AttributionView>) -> Seq<CatalogEntryView>
    decreases es.len(),
{
    if es.len() == 0 {
        Seq::empty()
    } else {
        merged_catalog(es.drop_last()) + match es.last().catalog {
            Some(c) => c,
            None => Seq::empty(),
        }
    }
}

/// Every entry's note, in entry order.
pub open spec fn merged_notes(es: Seq<AttributionView>) -> Seq<Seq<char>>
    decreases es.len(),
{
    if es.len() == 0 {
        Seq::empty()
    } else {
        merged_notes(es.drop_last()) + match es.last().note {
            Some(n) => seq![n],
            None => Seq::empty(),
        }
    }
}

/// The effective attribution: status from the first entry alone, the first
/// composer named, each date field from the first entry that sets it, and
/// all catalog entries and notes in entry order.
pub open spec fn merged(es: Seq<AttributionView>) -> MergedView {
    MergedView {
        composer: merged_composer(es),
        dates: merged_dates(es),
        status: if es.len() > 0 { es[0].status } else { None },
        catalog: merged_catalog(es),
        notes: merged_notes(es),
    }
}

/// Folds the entries into one effective attribution.
pub fn merge_attribution(entries: &[AttributionEntry]) -> (r: MergedAttribution)
    ensures
        r@ == merged(attributions_view(entries@)),
{
    let ghost es = attributions_view(entries@);
    let mut result = MergedAttribution::default();
    if entries.len() > 0 {
        result.status = entries[0].status;
    }
    let mut i: usize = 0;
    assert(es.subrange(0, 0) =~= Seq::<AttributionView>::empty());
    while i < entries.len()
        invariant
            es == attributions_view(entries@),
            i <= entries@.len(),
            result.status == (if es.len() > 0 { es[0].status } else { None }),
            opt_view(result.composer) == merged_composer(es.subrange(0, i as int)),
            result.dates == merged_dates(es.subrange(0, i as int)),
            entries_view(result.catalog@) == merged_catalog(es.subrange(0, i as int)),
            result.notes@.map_values(|s: String| s@) == merged_notes(es.subrange(0, i as int)),
        decreases entries@.len() - i,
    {
        let entry = &entries[i];
        proof {
            let p = es.subrange(0, i + 1);
            assert(p.drop_last() =~= es.subrange(0, i as int));
            assert(p.last() == entry@);
        }
        if result.composer.is_none() {
            if let Some(c) = &entry.composer {
                if !c.as_str().is_empty() {
                    result.composer = Some(c.clone());
                }
            }
        }
        if let Some(dates) = &entry.dates {
            merge_dates(&mut result.dates, dates);
        }
        if let Some(catalog) = &entry.catalog {
            let ghost before = result.catalog@;
            let mut more = copy_entries(catalog);
            result.catalog.append(&mut more);
            assert(entries_view(result.catalog@) =~= entries_view(before) + entries_view(catalog@));
        } else {
            assert(entries_view(result.catalog@) =~= entries_view(result.catalog@) + Seq::<CatalogEntryView>::empty());
        }
        if let Some(note) = &entry.note {
            let ghost before = result.notes@;
            result.notes.push(note.clone());
            assert(result.notes@.map_values(|s: String| s@) =~= before.map_values(|s: String| s@) + seq![note@]);
        } else {
            assert(result.notes@.map_values(|s: String| s@) =~= result.notes@.map_values(|s: String| s@) + Seq::<Seq<char>>::empty());
        }
        i = i + 1;
    }
    assert(es.subrange(0, i as int) =~= es);
    result
}

/// The single entry that a collection's own attribution list stands for:
/// its merged composer, dates, status and catalog; `None` when the list is
/// empty.
pub open spec fn collection_entry(attrs: Seq<AttributionView>) -> Option<AttributionView> {
    if attrs.len() == 0 {
        None
    } else {
        let m = merged(attrs);
        Some(AttributionView {
            composer: m.composer,
            cf: None,
            dates: Some(m.dates),
            status: m.status,
            catalog: if m.catalog.len() == 0 { None } else { Some(m.catalog) },
            since: None,
            note: None,
        })
    }
}

fn merge_collection_attribution(collection: &Collection) -> (r: Option<AttributionEntry>)
    ensures
        match r {
            Some(e) => collection_entry(attributions_view(collection.attribution@)) == Some(e@),
            None => collection_entry(attributions_view(collection.attribution@)) is None,
        },
{
    if collection.attribution.len() == 0 {
        return None;
    }
    let merged = merge_attribution(collection.attribution.as_slice());
    let catalog = if merged.catalog.len() == 0 {
        None
    } else {
        Some(merged.catalog)
    };
    Some(AttributionEntry {
        composer: merged.composer,
        cf: None,
        dates: Some(merged.dates),
        status: merged.status,
        catalog,
        since: None,
        note: None,
    })
}

/// Collections that compositions may refer to, keyed by reference ID.
pub struct CollectionSet {
    entries: Vec<(String, Collection)>,
}

impl View for CollectionSet {
    type V = Seq<(Seq<char>, Seq<AttributionView>)>;

    closed spec fn view(&self) -> Self::V {
        self.entries@.map_values(|e: (String, Collection)| (e.0@, attributions_view(e.1.attribution@)))
    }
}

/// The attribution list of the collection registered last under `id`.
pub open spec fn lookup_collection(cs: Seq<(Seq<char>, Seq<AttributionView>)>, id: Seq<char>) -> Option<Seq<AttributionView>>
    decreases cs.len(),
{
    if cs.len() == 0 {
        None
    } else if cs.last().0 == id {
        Some(cs.last().1)
    } else {
        lookup_collection(cs.drop_last(), id)
    }
}

impl CollectionSet {
    /// An empty set.
    pub fn new() -> (r: CollectionSet)
        ensures
            r@ == Seq::<(Seq<char>, Seq<AttributionView>)>::empty(),
    {
        let r = CollectionSet { entries: Vec::new() };
        assert(r@ =~= Seq::<(Seq<char>, Seq<AttributionView>)>::empty());
        r
    }

    /// Registers `collection` under the reference `id`.
    pub fn insert(&mut self, id: &str, collection: Collection)
        ensures
            final(self)@ == old(self)@.push((id@, attributions_view(collection.attribution@))),
    {
        let ghost a = attributions_view(collection.attribution@);
        self.entries.push((id.to_owned(), collection));
        assert(self@ =~= old(self)@.push((id@, a)));
    }

    /// The collection registered under `id`.
    pub fn get(&self, id: &str) -> (r: Option<&Collection>)
        ensures
            match r {
                Some(c) => lookup_collection(self@, id@) == Some(attributions_view(c.attribution@)),
                None => lookup_collection(self@, id@) is None,
            },
    {
        let mut i: usize = self.entries.len();
        assert(self@.subrange(0, i as int) =~= self@);
        while i > 0
            invariant
                i <= self.entries@.len(),
                self@.len() == self.entries@.len(),
                lookup_collection(self@, id@) == lookup_collection(self@.subrange(0, i as int), id@),
            decreases i,
        {
            proof {
                let p = self@.subrange(0, i as int);
                assert(p.last() == self@[i - 1]);
                assert(p.drop_last() == self@.subrange(0, i - 1));
            }
            if str_eq(self.entries[i - 1].0.as_str(), id) {
                return Some(&self.entries[i - 1].1);
            }
            i = i - 1;
        }
        None
    }
}

/// An entry with what its referenced collection supplies: a composer and
/// dates where the entry has none of its own.
pub open spec fn hydrated(e: AttributionView, cs: Seq<(Seq<char>, Seq<AttributionView>)>) -> AttributionView {
    match e.cf {
        None => e,
        Some(id) => match lookup_collection(cs, id) {
            None => e,
            Some(attrs) => match collection_entry(attrs) {
                None => e,
                Some(c) => AttributionView {
                    composer: if e.composer is Some { e.composer } else { c.composer },
                    dates: if e.dates is Some { e.dates } else { c.dates },
                    ..e
                },
            },
        },
    }
}

/// Every entry completed from its collection.
pub open spec fn hydrated_all(es: Seq<AttributionView>, cs: Seq<(Seq<char>, Seq<AttributionView>)>) -> Seq<AttributionView> {
    es.map_values(|e: AttributionView| hydrated(e, cs))
}

/// An entry completed from its referenced collection, if any.
pub fn hydrate_entry(entry: &AttributionEntry, collections: &CollectionSet) -> (r: AttributionEntry)
    ensures
        r@ == hydrated(entry@, collections@),
{
    let mut e = entry.copy();
    if let Some(cf) = &entry.cf {
        if let Some(coll) = collections.get(cf.as_str()) {
            if let Some(coll_entry) = merge_collection_attribution(coll) {
                if e.composer.is_none() {
                    e.composer = coll_entry.composer;
                }
                if e.dates.is_none() {
                    e.dates = coll_entry.dates;
                }
            }
        }
    }
    e
}

/// Merges the entries after completing each from the collection it refers
/// to; a reference to no known collection leaves the entry as it is.
pub fn merge_attribution_with_collections(entries: &[AttributionEntry], collections: &CollectionSet) -> (r: MergedAttribution)
    ensures
        r@ == merged(hydrated_all(attributions_view(entries@), collections@)),
{
    let mut expanded: Vec<AttributionEntry> = Vec::new();
    let mut i: usize = 0;
    while i < entries.len()
        invariant
            i <= entries@.len(),
            expanded@.len() == i,
            forall|j: int| 0 <= j < i ==> (#[trigger] expanded@[j])@ == hydrated(entries@[j]@, collections@),
        decreases entries@.len() - i,
    {
        expanded.push(hydrate_entry(&entries[i], collections));
        i = i + 1;
    }
    assert(attributions_view(expanded@) =~= hydrated_all(attributions_view(entries@), collections@));
    merge_attribution(expanded.as_slice())
}

/// The first non-empty composer of the entries, the one merging takes.
pub fn effective_composer(entries: &[AttributionEntry]) -> (r: Option<&str>)
    ensures
        crate::defs::opt_str_view(r) == merged_composer(attributions_view(entries@)),
{
    let ghost es = attributions_view(entries@);
    let mut found: Option<&str> = None;
    let mut i: usize = 0;
    assert(es.subrange(0, 0) =~= Seq::<AttributionView>::empty());
    while i < entries.len()
        invariant
            es == attributions_view(entries@),
            i <= entries@.len(),
            crate::defs::opt_str_view(found) == merged_composer(es.subrange(0, i as int)),
        decreases entries@.len() - i,
    {
        proof {
            let p = es.subrange(0, i + 1);
            assert(p.drop_last() =~= es.subrange(0, i as int));
        }
        if found.is_none() {
            if let Some(c) = &entries[i].composer {
                if !c.as_str().is_empty() {
                    found = Some(c.as_str());
                }
            }
        }
        i = i + 1;
    }
    assert(es.subrange(0, i as int) =~= es);
    found
}

/// The composer of the first entry that has one set, even an empty one.
pub open spec fn first_set_composer(es: Seq<AttributionView>) -> Option<Seq<char>>
    decreases es.len(),
{
    if es.len() == 0 {
        None
    } else {
        let c = first_set_composer(es.drop_last());
        if c is Some {
            c
        } else {
            es.last().composer
        }
    }
}

/// The composer of the first entry that has one set.
pub fn current_composer(entries: &[AttributionEntry]) -> (r: Option<&str>)
    ensures
        crate::defs::opt_str_view(r) == first_set_composer(attributions_view(entries@)),
{
    let ghost es = attributions_view(entries@);
    let mut found: Option<&str> = None;
    let mut i: usize = 0;
    assert(es.subrange(0, 0) =~= Seq::<AttributionView>::empty());
    while i < entries.len()
        invariant
            es == attributions_view(entries@),
            i <= entries@.len(),
            crate::defs::opt_str_view(found) == first_set_composer(es.subrange(0, i as int)),
        decreases entries@.len() - i,
    {
        proof {
            let p = es.subrange(0, i + 1);
            assert(p.drop_last() =~= es.subrange(0, i as int));
        }
        if found.is_none() {
            if let Some(c) = &entries[i].composer {
                found = Some(c.as_str());
            }
        }
        i = i + 1;
    }
    assert(es.subrange(0, i as int) =~= es);
    found
}

/// Whether a catalog entry is in `scheme` and, when `edition` is given, in
/// that edition.
pub open spec fn entry_matches(c: CatalogEntryView, scheme: Seq<char>, edition: Option<Seq<char>>) -> bool {
    c.scheme == scheme && match edition {
        Some(e) => c.edition == Some(e),
        None => true,
    }
}

/// The number of the first entry of `cs` that matches.
pub open spec fn first_number(cs: Seq<CatalogEntryView>, scheme: Seq<char>, edition: Option<Seq<char>>) -> Option<Seq<char>>
    decreases cs.len(),
{
    if cs.len() == 0 {
        None
    } else {
        let f = first_number(cs.drop_last(), scheme, edition);
        if f is Some {
            f
        } else if entry_matches(cs.last(), scheme, edition) {
            Some(cs.last().number)
        } else {
            None
        }
    }
}

proof fn lemma_first_number_append(a: Seq<CatalogEntryView>, b: Seq<CatalogEntryView>, scheme: Seq<char>, edition: Option<Seq<char>>, j: int)
    requires
        0 <= j < b.len(),
    ensures
        first_number(a + b.subrange(0, j + 1), scheme, edition) == (if first_number(a + b.subrange(0, j), scheme, edition) is Some {
            first_number(a + b.subrange(0, j), scheme, edition)
        } else if entry_matches(b[j], scheme, edition) {
            Some(b[j].number)
        } else {
            None
        }),
{
    let x = a + b.subrange(0, j + 1);
    assert(x.drop_last() =~= a + b.subrange(0, j));
    assert(x.last() == b[j]);
}

fn find_number<'a>(entries: &'a [AttributionEntry], scheme: &str, edition: Option<&str>) -> (r: Option<&'a str>)
    ensures
        crate::defs::opt_str_view(r) == first_number(merged_catalog(attributions_view(entries@)), scheme@, crate::defs::opt_str_view(edition)),
{
    let ghost es = attributions_view(entries@);
    let ghost ed = crate::defs::opt_str_view(edition);
    let mut found: Option<&'a str> = None;
    let mut i: usize = 0;
    assert(es.subrange(0, 0) =~= Seq::<AttributionView>::empty());
    while i < entries.len()
        invariant
            es == attributions_view(entries@),
            ed == crate::defs::opt_str_view(edition),
            i <= entries@.len(),
            crate::defs::opt_str_view(found) == first_number(merged_catalog(es.subrange(0, i as int)), scheme@, ed),
        decreases entries@.len() - i,
    {
        let ghost prefix = merged_catalog(es.subrange(0, i as int));
        proof {
            let p = es.subrange(0, i + 1);
            assert(p.drop_last() =~= es.subrange(0, i as int));
        }
        if let Some(catalog) = &entries[i].catalog {
            let ghost cv = entries_view(catalog@);
            let mut j: usize = 0;
            assert(prefix + cv.subrange(0, 0) =~= prefix);
            while j < catalog.len()
                invariant
                    cv == entries_view(catalog@),
                    ed == crate::defs::opt_str_view(edition),
                    j <= catalog@.len(),
                    crate::defs::opt_str_view(found) == first_number(prefix + cv.subrange(0, j as int), scheme@, ed),
                decreases catalog@.len() - j,
            {
                proof {
                    lemma_first_number_append(prefix, cv, scheme@, ed, j as int);
                    assert(cv[j as int] == catalog@[j as int]@);
                }
                if found.is_none() {
                    let c = &catalog[j];
                    let ed_ok = match edition {
                        Some(e) => match &c.edition {
                            Some(ce) => str_eq(ce.as_str(), e),
                            None => false,
                        },
                        None => true,
                    };
                    if str_eq(c.scheme.as_str(), scheme) && ed_ok {
                        found = Some(c.number.as_str());
                    }
                }
                j = j + 1;
            }
            assert(cv.subrange(0, j as int) =~= cv);
        } else {
            assert(prefix + Seq::<CatalogEntryView>::empty() =~= prefix);
        }
        i = i + 1;
    }
    assert(es.subrange(0, i as int) =~= es);
    found
}

/// The number of the first catalog entry, across all entries in order, in
/// `scheme`.
pub fn current_catalog_number<'a>(entries: &'a [AttributionEntry], scheme: &str) -> (r: Option<&'a str>)
    ensures
        crate::defs::opt_str_view(r) == first_number(merged_catalog(attributions_view(entries@)), scheme@, None),
{
    find_number(entries, scheme, None)
}

/// The number of the first catalog entry, across all entries in order, in
/// `scheme` and recorded for `edition`.
pub fn current_catalog_number_for_edition<'a>(entries: &'a [AttributionEntry], scheme: &str, edition: &str) -> (r: Option<&'a str>)
    ensures
        crate::defs::opt_str_view(r) == first_number(merged_catalog(attributions_view(entries@)), scheme@, Some(edition@)),
{
    find_number(entries, scheme, Some(edition))
}

/// Every catalog entry of every attribution entry, in order.
pub fn all_catalog_entries(entries: &[AttributionEntry]) -> (r: Vec<CatalogEntry>)
    ensures
        entries_view(r@) == merged_catalog(attributions_view(entries@)),
{
    let ghost es = attributions_view(entries@);
    let mut out: Vec<CatalogEntry> = Vec::new();
    let mut i: usize = 0;
    assert(es.subrange(0, 0) =~= Seq::<AttributionView>::empty());
    while i < entries.len()
        invariant
            es == attributions_view(entries@),
            i <= entries@.len(),
            entries_view(out@) == merged_catalog(es.subrange(0, i as int)),
        decreases entries@.len() - i,
    {
        proof {
            let p = es.subrange(0, i + 1);
            assert(p.drop_last() =~= es.subrange(0, i as int));
        }
        let ghost before = out@;
        if let Some(catalog) = &entries[i].catalog {
            let mut more = copy_entries(catalog);
            out.append(&mut more);
            assert(entries_view(out@) =~= entries_view(before) + entries_view(catalog@));
        } else {
            assert(entries_view(out@) =~= entries_view(before) + Seq::<CatalogEntryView>::empty());
        }
        i = i + 1;
    }
    assert(es.subrange(0, i as int) =~= es);
    out
}

/// Whether an entry was in effect at `date`: it has no `since`, or its
/// `since` does not come after `date` as text.
pub open spec fn in_effect(e: AttributionView, date: Seq<char>) -> bool {
    match e.since {
        None => true,
        Some(s) => seq_le(s, date),
    }
}

/// The entries in effect at `date`, in order.
pub open spec fn entries_as_of(es: Seq<AttributionView>, date: Seq<char>) -> Seq<AttributionView> {
    es.filter(|e: AttributionView| in_effect(e, date))
}

/// The entries whose `since` is absent or not after `date`.
pub fn state_as_of(entries: &[AttributionEntry], date: &str) -> (r: Vec<AttributionEntry>)
    ensures
        attributions_view(r@) == entries_as_of(attributions_view(entries@), date@),
{
    let ghost es = attributions_view(entries@);
    let mut out: Vec<AttributionEntry> = Vec::new();
    let mut i: usize = 0;
    assert(es.subrange(0, 0).filter(|e: AttributionView| in_effect(e, date@)) =~= Seq::<AttributionView>::empty());
    while i < entries.len()
        invariant
            es == attributions_view(entries@),
            i <= entries@.len(),
            attributions_view(out@) == es.subrange(0, i as int).filter(|e: AttributionView| in_effect(e, date@)),
        decreases entries@.len() - i,
    {
        let e = &entries[i];
        let keep = match &e.since {
            None => true,
            Some(s) => str_le(s.as_str(), date),
        };
        proof {
            let p = es.subrange(0, i + 1);
            assert(p.drop_last() =~= es.subrange(0, i as int));
            assert(p.last() == e@);
            reveal_with_fuel(Seq::<AttributionView>::filter, 1);
            assert(p.filter(|e: AttributionView| in_effect(e, date@)) == (if in_effect(e@, date@) {
                es.subrange(0, i as int).filter(|e: AttributionView| in_effect(e, date@)).push(e@)
            } else {
                es.subrange(0, i as int).filter(|e: AttributionView| in_effect(e, date@))
            }));
        }
        if keep {
            let ghost before = out@;
            out.push(e.copy());
            assert(attributions_view(out@) =~= attributions_view(before).push(e@));
        }
        i = i + 1;
    }
    assert(es.subrange(0, i as int) =~= es);
    out
}

} // verus!
