//! The records that describe compositions, collections, composers and
//! catalog-numbering schemes, with their mathematical views.
use vstd::prelude::*;

verus! {

/// How firmly a composition is attributed.
#[derive(Debug, Clone, Copy, PartialEq, Eq, Structural)]
pub enum Status {
    Certain,
    Probable,
    Doubtful,
    Spurious,
}

/// Years of composition, publication, first performance and revision.
#[derive(Debug, Clone, Copy, PartialEq, Eq, Structural)]
pub struct Dates {
    pub composed: Option<i32>,
    pub published: Option<i32>,
    pub premiered: Option<i32>,
    pub revised: Option<i32>,
}

impl Default for Dates {
    fn default() -> (r: Dates)
        ensures
            r == (Dates { composed: None, published: None, premiered: None, revised: None }),
    {
        Dates { composed: None, published: None, premiered: None, revised: None }
    }
}

/// The characters of an optional string.
pub open spec fn opt_view(o: Option<String>) -> Option<Seq<char>> {
    match o {
        Some(s) => Some(s@),
        None => None,
    }
}

/// A copy of an optional string.
pub fn copy_opt(o: &Option<String>) -> (r: Option<String>)
    ensures
        opt_view(r) == opt_view(*o),
{
    match o {
        Some(s) => Some(s.clone()),
        None => None,
    }
}

/// One number of a composition in one catalog scheme.
#[derive(Debug, Clone)]
pub struct CatalogEntry {
    pub scheme: String,
    pub number: String,
    pub edition: Option<String>,
    pub since: Option<String>,
    pub note: Option<String>,
}

/// The view of a `CatalogEntry`.
pub struct CatalogEntryView {
    pub scheme: Seq<char>,
    pub number: Seq<char>,
    pub edition: Option<Seq<char>>,
    pub since: Option<Seq<char>>,
    pub note: Option<Seq<char>>,
}

impl View for CatalogEntry {
    type V = CatalogEntryView;

    open spec fn view(&self) -> CatalogEntryView {
        CatalogEntryView {
            scheme: self.scheme@,
            number: self.number@,
            edition: opt_view(self.edition),
            since: opt_view(self.since),
            note: opt_view(self.note),
        }
    }
}

pub open spec fn entries_view(v: Seq<CatalogEntry>) -> Seq<CatalogEntryView> {
    v.map_values(|e: CatalogEntry| e@)
}

impl CatalogEntry {
    /// A copy with the same view.
    pub fn copy(&self) -> (r: CatalogEntry)
        ensures
            r@ == self@,
    {
        CatalogEntry {
            scheme: self.scheme.clone(),
            number: self.number.clone(),
            edition: copy_opt(&self.edition),
            since: copy_opt(&self.since),
            note: copy_opt(&self.note),
        }
    }
}

/// A copy of a list of catalog entries.
pub fn copy_entries(v: &Vec<CatalogEntry>) -> (r: Vec<CatalogEntry>)
    ensures
        entries_view(r@) == entries_view(v@),
{
    let mut r: Vec<CatalogEntry> = Vec::new();
    let mut i: usize = 0;
    while i < v.len()
        invariant
            i <= v@.len(),
            r@.len() == i,
            forall|j: int| 0 <= j < i ==> (#[trigger] r@[j])@ == v@[j]@,
        decreases v@.len() - i,
    {
        r.push(v[i].copy());
        i = i + 1;
    }
    assert(entries_view(r@) =~= entries_view(v@));
    r
}

/// One historical claim of authorship and numbering for a composition.
#[derive(Debug, Clone)]
pub struct AttributionEntry {
    pub composer: Option<String>,
    pub cf: Option<String>,
    pub dates: Option<Dates>,
    pub status: Option<Status>,
    pub catalog: Option<Vec<CatalogEntry>>,
    pub since: Option<String>,
    pub note: Option<String>,
}

/// The view of an `AttributionEntry`.
pub struct AttributionView {
    pub composer: Option<Seq<char>>,
    pub cf: Option<Seq<char>>,
    pub dates: Option<Dates>,
    pub status: Option<Status>,
    pub catalog: Option<Seq<CatalogEntryView>>,
    pub since: Option<Seq<char>>,
    pub note: Option<Seq<char>>,
}

impl View for AttributionEntry {
    type V = AttributionView;

    open spec fn view(&self) -> AttributionView {
        AttributionView {
            composer: opt_view(self.composer),
            cf: opt_view(self.cf),
            dates: self.dates,
            status: self.status,
            catalog: match self.catalog {
                Some(c) => Some(entries_view(c@)),
                None => None,
            },
            since: opt_view(self.since),
            note: opt_view(self.note),
        }
    }
}

pub open spec fn attributions_view(v: Seq<AttributionEntry>) -> Seq<AttributionView> {
    v.map_values(|e: AttributionEntry| e@)
}

impl AttributionEntry {
    /// A copy with the same view.
    pub fn copy(&self) -> (r: AttributionEntry)
        ensures
            r@ == self@,
    {
        AttributionEntry {
            composer: copy_opt(&self.composer),
            cf: copy_opt(&self.cf),
            dates: self.dates,
            status: self.status,
            catalog: match &self.catalog {
                Some(c) => Some(copy_entries(c)),
                None => None,
            },
            since: copy_opt(&self.since),
            note: copy_opt(&self.note),
        }
    }
}

/// A movement of a composition.
#[derive(Debug)]
pub struct Movement {
    pub title: Option<String>,
    pub key: Option<String>,
    pub form: Option<String>,
    pub soloists: Option<String>,
    pub sections: Option<Vec<Section>>,
}

/// A section of a composition or movement.
#[derive(Debug)]
pub struct Section {
    pub title: Option<String>,
    pub key: Option<String>,
    pub form: Option<String>,
    pub soloists: Option<String>,
    pub movements: Option<Vec<Movement>>,
    pub sections: Option<Vec<Section>>,
}

/// Identifiers of a record in outside databases.
#[derive(Debug, Clone)]
pub struct Xref {
    pub oo: Option<String>,
    pub mb: Option<String>,
    pub imslp: Option<String>,
    pub wp: Option<String>,
    pub wd: Option<String>,
    pub viaf: Option<String>,
}

/// One composition document, identified by eight hexadecimal characters.
#[derive(Debug)]
pub struct Composition {
    pub id: String,
    /// Titles by language code, in document order.
    pub title: Option<Vec<(String, String)>>,
    pub form: String,
    pub key: Option<String>,
    pub instrumentation: Option<String>,
    pub attribution: Vec<AttributionEntry>,
    pub movements: Option<Vec<Movement>>,
    pub sections: Option<Vec<Section>>,
    pub xref: Option<Xref>,
}

/// A shared record that compositions can delegate their attribution to.
#[derive(Debug, Clone)]
pub struct Collection {
    pub id: String,
    /// Titles by language code, in document order.
    pub title: Vec<(String, String)>,
    /// Title patterns for member compositions, by language code.
    pub expansion_pattern: Option<Vec<(String, String)>>,
    pub composer: Option<String>,
    pub attribution: Vec<AttributionEntry>,
    pub scheme: String,
    pub description: Option<String>,
    pub compositions: Vec<String>,
}

/// A composer's full and sorting names.
#[derive(Debug, Clone)]
pub struct ComposerName {
    pub full: String,
    pub sort: String,
}

/// A composer record, possibly with catalog definitions of its own.
#[derive(Debug, Clone)]
pub struct Composer {
    pub id: String,
    pub name: ComposerName,
    pub default_scheme: Option<String>,
    pub born: Option<String>,
    pub died: Option<String>,
    pub nationality: Option<String>,
    /// The composer's own definitions, by scheme.
    pub catalogs: Option<Vec<(String, CatalogDefinition)>>,
    pub xref: Option<Xref>,
}

/// One field of a catalog number: the capture group it comes from, how it
/// compares (`int`, `roman`, anything else as text) and how it is shown.
#[derive(Debug, Clone)]
pub struct SortKey {
    pub group: usize,
    pub sort_type: String,
    pub display: Option<String>,
}

/// The year and editor of one edition of a catalog.
#[derive(Debug, Clone)]
pub struct EditionInfo {
    pub year: i32,
    pub editor: String,
}

/// How the numbers of one catalog scheme are read, compared and grouped.
#[derive(Debug, Clone)]
pub struct CatalogDefinition {
    pub name: String,
    pub description: Option<String>,
    pub canonical_format: Option<String>,
    pub pattern: Option<String>,
    pub sort_keys: Option<Vec<SortKey>>,
    pub group_by: Option<Vec<usize>>,
    pub aliases: Option<Vec<String>>,
    /// Edition metadata, by edition label.
    pub editions: Option<Vec<(String, EditionInfo)>>,
}

} // verus!
