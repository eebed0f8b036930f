//! The index: compositions by composer, current and superseded numbers per
//! composer and scheme, and cumulative number maps per catalog edition.
use crate::text::str_eq;
use crate::catalog::{int_field, parse_int_field};
use crate::merge::{effective_composer, hydrate_entry, hydrated_all, merged_composer, CollectionSet};
use crate::types::{attributions_view, copy_opt, opt_view, AttributionEntry, AttributionView, CatalogEntry, CatalogEntryView, Composition};
use vstd::prelude::*;

verus! {

/// A catalog number and the composition it names.
#[derive(Debug, Clone)]
pub struct NumberEntry {
    pub number: String,
    pub id: String,
    pub note: Option<String>,
}

/// The view of a `NumberEntry`.
pub struct NumberEntryView {
    pub number: Seq<char>,
    pub id: Seq<char>,
    pub note: Option<Seq<char>>,
}

impl View for NumberEntry {
    type V = NumberEntryView;

    open spec fn view(&self) -> NumberEntryView {
        NumberEntryView { number: self.number@, id: self.id@, note: opt_view(self.note) }
    }
}

pub open spec fn numbers_view(v: Seq<NumberEntry>) -> Seq<NumberEntryView> {
    v.map_values(|e: NumberEntry| e@)
}

/// The current and superseded numbers of one composer in one scheme.
#[derive(Debug, Clone)]
pub struct SchemeIndex {
    pub composer: String,
    pub scheme: String,
    pub current: Vec<NumberEntry>,
    pub superseded: Vec<NumberEntry>,
}

/// The view of a `SchemeIndex`.
pub struct SchemeIndexView {
    pub composer: Seq<char>,
    pub scheme: Seq<char>,
    pub current: Seq<NumberEntryView>,
    pub superseded: Seq<NumberEntryView>,
}

impl View for SchemeIndex {
    type V = SchemeIndexView;

    open spec fn view(&self) -> SchemeIndexView {
        SchemeIndexView {
            composer: self.composer@,
            scheme: self.scheme@,
            current: numbers_view(self.current@),
            superseded: numbers_view(self.superseded@),
        }
    }
}

/// The numbers of one composer's scheme as of one edition: number to ID.
#[derive(Debug, Clone)]
pub struct EditionMap {
    pub composer: String,
    pub scheme: String,
    pub edition: String,
    pub numbers: Vec<(String, String)>,
}

/// The view of an `EditionMap`.
pub struct EditionMapView {
    pub composer: Seq<char>,
    pub scheme: Seq<char>,
    pub edition: Seq<char>,
    pub numbers: Seq<(Seq<char>, Seq<char>)>,
}

pub open spec fn pairs_view(v: Seq<(String, String)>) -> Seq<(Seq<char>, Seq<char>)> {
    v.map_values(|p: (String, String)| (p.0@, p.1@))
}

impl View for EditionMap {
    type V = EditionMapView;

    open spec fn view(&self) -> EditionMapView {
        EditionMapView {
            composer: self.composer@,
            scheme: self.scheme@,
            edition: self.edition@,
            numbers: pairs_view(self.numbers@),
        }
    }
}

/// The index over all compositions.
#[derive(Debug, Clone)]
pub struct Index {
    pub by_composer: Vec<(String, Vec<String>)>,
    pub catalog: Vec<SchemeIndex>,
    pub editions: Vec<EditionMap>,
}

/// The view of an `Index`.
pub struct IndexView {
    pub by_composer: Seq<(Seq<char>, Seq<Seq<char>>)>,
    pub catalog: Seq<SchemeIndexView>,
    pub editions: Seq<EditionMapView>,
}

pub open spec fn ids_view(v: Seq<String>) -> Seq<Seq<char>> {
    v.map_values(|s: String| s@)
}

pub open spec fn composers_view(v: Seq<(String, Vec<String>)>) -> Seq<(Seq<char>, Seq<Seq<char>>)> {
    v.map_values(|p: (String, Vec<String>)| (p.0@, ids_view(p.1@)))
}

impl View for Index {
    type V = IndexView;

    open spec fn view(&self) -> IndexView {
        IndexView {
            by_composer: composers_view(self.by_composer@),
            catalog: self.catalog@.map_values(|s: SchemeIndex| s@),
            editions: self.editions@.map_values(|e: EditionMap| e@),
        }
    }
}

/// The view of an index with nothing in it.
pub open spec fn empty_index() -> IndexView {
    IndexView { by_composer: Seq::empty(), catalog: Seq::empty(), editions: Seq::empty() }
}

impl Index {
    /// An empty index.
    pub fn new() -> (r: Index)
        ensures
            r.wf(),
            r@ == empty_index(),
    {
        let r = Index { by_composer: Vec::new(), catalog: Vec::new(), editions: Vec::new() };
        assert(r@.by_composer =~= Seq::<(Seq<char>, Seq<Seq<char>>)>::empty());
        assert(r@.catalog =~= Seq::<SchemeIndexView>::empty());
        assert(r@.editions =~= Seq::<EditionMapView>::empty());
        r
    }
}

// ---- keyed lists -------------------------------------------------------

/// Position of `number` in a number list; -1 when absent.
pub open spec fn number_pos(s: Seq<NumberEntryView>, number: Seq<char>) -> int
    decreases s.len(),
{
    if s.len() == 0 {
        -1
    } else if s.last().number == number {
        s.len() - 1
    } else {
        number_pos(s.drop_last(), number)
    }
}

/// The list with `number` mapped to `id` and `note`, replacing an earlier
/// mapping of `number`.
pub open spec fn put_number(s: Seq<NumberEntryView>, number: Seq<char>, id: Seq<char>, note: Option<Seq<char>>) -> Seq<NumberEntryView> {
    let e = NumberEntryView { number, id, note };
    if number_pos(s, number) >= 0 {
        s.update(number_pos(s, number), e)
    } else {
        s.push(e)
    }
}

proof fn lemma_number_pos_range(s: Seq<NumberEntryView>, number: Seq<char>)
    ensures
        -1 <= number_pos(s, number) < s.len(),
        number_pos(s, number) >= 0 ==> s[number_pos(s, number)].number == number,
    decreases s.len(),
{
    if s.len() > 0 {
        lemma_number_pos_range(s.drop_last(), number);
    }
}

fn find_number_entry(s: &Vec<NumberEntry>, number: &str) -> (r: Option<usize>)
    ensures
        match r {
            Some(i) => i as int == number_pos(numbers_view(s@), number@),
            None => number_pos(numbers_view(s@), number@) == -1,
        },
{
    let ghost v = numbers_view(s@);
    let mut i: usize = s.len();
    assert(v.subrange(0, i as int) =~= v);
    while i > 0
        invariant
            v == numbers_view(s@),
            i <= s@.len(),
            number_pos(v, number@) == number_pos(v.subrange(0, i as int), number@),
        decreases i,
    {
        proof {
            let p = v.subrange(0, i as int);
            assert(p.drop_last() =~= v.subrange(0, i - 1));
            assert(p.last() == s@[i - 1]@);
        }
        if str_eq(s[i - 1].number.as_str(), number) {
            return Some(i - 1);
        }
        i = i - 1;
    }
    None
}

fn put_number_entry(s: &mut Vec<NumberEntry>, number: &str, id: &str, note: &Option<String>)
    ensures
        numbers_view(final(s)@) == put_number(numbers_view(old(s)@), number@, id@, opt_view(*note)),
{
    let e = NumberEntry { number: number.to_owned(), id: id.to_owned(), note: copy_opt(note) };
    proof {
        lemma_number_pos_range(numbers_view(s@), number@);
    }
    match find_number_entry(s, number) {
        Some(i) => {
            s.set(i, e);
            assert(numbers_view(s@) =~= put_number(numbers_view(old(s)@), number@, id@, opt_view(*note)));
        },
        None => {
            s.push(e);
            assert(numbers_view(s@) =~= put_number(numbers_view(old(s)@), number@, id@, opt_view(*note)));
        },
    }
}

/// Position of the scheme index of `composer` and `scheme`; -1 when absent.
pub open spec fn scheme_pos(s: Seq<SchemeIndexView>, composer: Seq<char>, scheme: Seq<char>) -> int
    decreases s.len(),
{
    if s.len() == 0 {
        -1
    } else if s.last().composer == composer && s.last().scheme == scheme {
        s.len() - 1
    } else {
        scheme_pos(s.drop_last(), composer, scheme)
    }
}

pub(crate) proof fn lemma_scheme_pos_range(s: Seq<SchemeIndexView>, composer: Seq<char>, scheme: Seq<char>)
    ensures
        -1 <= scheme_pos(s, composer, scheme) < s.len(),
        scheme_pos(s, composer, scheme) >= 0 ==> s[scheme_pos(s, composer, scheme)].composer == composer
            && s[scheme_pos(s, composer, scheme)].scheme == scheme,
    decreases s.len(),
{
    if s.len() > 0 {
        lemma_scheme_pos_range(s.drop_last(), composer, scheme);
    }
}

fn find_scheme(s: &Vec<SchemeIndex>, composer: &str, scheme: &str) -> (r: Option<usize>)
    ensures
        match r {
            Some(i) => i as int == scheme_pos(s@.map_values(|x: SchemeIndex| x@), composer@, scheme@),
            None => scheme_pos(s@.map_values(|x: SchemeIndex| x@), composer@, scheme@) == -1,
        },
{
    let ghost v = s@.map_values(|x: SchemeIndex| x@);
    let mut i: usize = s.len();
    assert(v.subrange(0, i as int) =~= v);
    while i > 0
        invariant
            v == s@.map_values(|x: SchemeIndex| x@),
            i <= s@.len(),
            scheme_pos(v, composer@, scheme@) == scheme_pos(v.subrange(0, i as int), composer@, scheme@),
        decreases i,
    {
        proof {
            let p = v.subrange(0, i as int);
            assert(p.drop_last() =~= v.subrange(0, i - 1));
            assert(p.last() == s@[i - 1]@);
        }
        if str_eq(s[i - 1].composer.as_str(), composer) && str_eq(s[i - 1].scheme.as_str(), scheme) {
            return Some(i - 1);
        }
        i = i - 1;
    }
    None
}

/// Position of `number` in an edition map's pairs; -1 when absent.
pub open spec fn pair_pos(s: Seq<(Seq<char>, Seq<char>)>, number: Seq<char>) -> int
    decreases s.len(),
{
    if s.len() == 0 {
        -1
    } else if s.last().0 == number {
        s.len() - 1
    } else {
        pair_pos(s.drop_last(), number)
    }
}

/// The pairs with `number` mapped to `id`, replacing an earlier mapping.
pub open spec fn put_pair(s: Seq<(Seq<char>, Seq<char>)>, number: Seq<char>, id: Seq<char>) -> Seq<(Seq<char>, Seq<char>)> {
    if pair_pos(s, number) >= 0 {
        s.update(pair_pos(s, number), (number, id))
    } else {
        s.push((number, id))
    }
}

proof fn lemma_pair_pos_range(s: Seq<(Seq<char>, Seq<char>)>, number: Seq<char>)
    ensures
        -1 <= pair_pos(s, number) < s.len(),
        pair_pos(s, number) >= 0 ==> s[pair_pos(s, number)].0 == number,
    decreases s.len(),
{
    if s.len() > 0 {
        lemma_pair_pos_range(s.drop_last(), number);
    }
}

fn find_pair(s: &Vec<(String, String)>, number: &str) -> (r: Option<usize>)
    ensures
        match r {
            Some(i) => i as int == pair_pos(pairs_view(s@), number@),
            None => pair_pos(pairs_view(s@), number@) == -1,
        },
{
    let ghost v = pairs_view(s@);
    let mut i: usize = s.len();
    assert(v.subrange(0, i as int) =~= v);
    while i > 0
        invariant
            v == pairs_view(s@),
            i <= s@.len(),
            pair_pos(v, number@) == pair_pos(v.subrange(0, i as int), number@),
        decreases i,
    {
        proof {
            let p = v.subrange(0, i as int);
            assert(p.drop_last() =~= v.subrange(0, i - 1));
            assert(p.last() == (s@[i - 1].0@, s@[i - 1].1@));
        }
        if str_eq(s[i - 1].0.as_str(), number) {
            return Some(i - 1);
        }
        i = i - 1;
    }
    None
}

fn put_pair_exec(s: &mut Vec<(String, String)>, number: &str, id: &str)
    ensures
        pairs_view(final(s)@) == put_pair(pairs_view(old(s)@), number@, id@),
{
    proof {
        lemma_pair_pos_range(pairs_view(s@), number@);
    }
    match find_pair(s, number) {
        Some(i) => {
            s.set(i, (number.to_owned(), id.to_owned()));
            assert(pairs_view(s@) =~= put_pair(pairs_view(old(s)@), number@, id@));
        },
        None => {
            s.push((number.to_owned(), id.to_owned()));
            assert(pairs_view(s@) =~= put_pair(pairs_view(old(s)@), number@, id@));
        },
    }
}

/// Position of the edition map of `composer`, `scheme` and `edition`; -1
/// when absent.
pub open spec fn edition_pos(s: Seq<EditionMapView>, composer: Seq<char>, scheme: Seq<char>, edition: Seq<char>) -> int
    decreases s.len(),
{
    if s.len() == 0 {
        -1
    } else if s.last().composer == composer && s.last().scheme == scheme && s.last().edition == edition {
        s.len() - 1
    } else {
        edition_pos(s.drop_last(), composer, scheme, edition)
    }
}

proof fn lemma_edition_pos_range(s: Seq<EditionMapView>, composer: Seq<char>, scheme: Seq<char>, edition: Seq<char>)
    ensures
        -1 <= edition_pos(s, composer, scheme, edition) < s.len(),
        edition_pos(s, composer, scheme, edition) >= 0 ==> s[edition_pos(s, composer, scheme, edition)].composer == composer
            && s[edition_pos(s, composer, scheme, edition)].scheme == scheme
            && s[edition_pos(s, composer, scheme, edition)].edition == edition,
    decreases s.len(),
{
    if s.len() > 0 {
        lemma_edition_pos_range(s.drop_last(), composer, scheme, edition);
    }
}

fn find_edition(s: &Vec<EditionMap>, composer: &str, scheme: &str, edition: &str) -> (r: Option<usize>)
    ensures
        match r {
            Some(i) => i as int == edition_pos(s@.map_values(|x: EditionMap| x@), composer@, scheme@, edition@),
            None => edition_pos(s@.map_values(|x: EditionMap| x@), composer@, scheme@, edition@) == -1,
        },
{
    let ghost v = s@.map_values(|x: EditionMap| x@);
    let mut i: usize = s.len();
    assert(v.subrange(0, i as int) =~= v);
    while i > 0
        invariant
            v == s@.map_values(|x: EditionMap| x@),
            i <= s@.len(),
            edition_pos(v, composer@, scheme@, edition@) == edition_pos(v.subrange(0, i as int), composer@, scheme@, edition@),
        decreases i,
    {
        proof {
            let p = v.subrange(0, i as int);
            assert(p.drop_last() =~= v.subrange(0, i - 1));
            assert(p.last() == s@[i - 1]@);
        }
        let e = &s[i - 1];
        if str_eq(e.composer.as_str(), composer) && str_eq(e.scheme.as_str(), scheme) && str_eq(e.edition.as_str(), edition) {
            return Some(i - 1);
        }
        i = i - 1;
    }
    None
}

// ---- adding catalog entries --------------------------------------------

/// The list without the entry of `number` (the last one, where there are
/// several).
pub open spec fn drop_number(s: Seq<NumberEntryView>, number: Seq<char>) -> Seq<NumberEntryView> {
    let p = number_pos(s, number);
    if p >= 0 {
        s.remove(p)
    } else {
        s
    }
}

/// No number appears twice in the list.
pub open spec fn unique_numbers(s: Seq<NumberEntryView>) -> bool {
    forall|i: int, j: int| 0 <= i < j < s.len() ==> #[trigger] s[i].number != #[trigger] s[j].number
}

/// Each list maps a number once, and no number is both current and
/// superseded.
pub open spec fn scheme_wf(si: SchemeIndexView) -> bool {
    &&& unique_numbers(si.current)
    &&& unique_numbers(si.superseded)
    &&& forall|i: int, j: int|
        0 <= i < si.current.len() && 0 <= j < si.superseded.len() ==> #[trigger] si.current[i].number
            != #[trigger] si.superseded[j].number
}

/// No number appears twice in an edition map.
pub open spec fn unique_pairs(s: Seq<(Seq<char>, Seq<char>)>) -> bool {
    forall|i: int, j: int| 0 <= i < j < s.len() ==> #[trigger] s[i].0 != #[trigger] s[j].0
}

/// The index's invariant: every scheme index is well formed and every
/// edition map maps a number once.
pub open spec fn index_wf(idx: IndexView) -> bool {
    &&& forall|k: int| 0 <= k < idx.catalog.len() ==> scheme_wf(#[trigger] idx.catalog[k])
    &&& forall|k: int| 0 <= k < idx.editions.len() ==> unique_pairs(#[trigger] idx.editions[k].numbers)
}

impl Index {
    /// The index's invariant.
    pub open spec fn wf(&self) -> bool {
        index_wf(self@)
    }
}

proof fn lemma_number_pos_absent(s: Seq<NumberEntryView>, number: Seq<char>)
    ensures
        number_pos(s, number) == -1 ==> forall|i: int| 0 <= i < s.len() ==> #[trigger] s[i].number != number,
    decreases s.len(),
{
    if s.len() > 0 {
        lemma_number_pos_absent(s.drop_last(), number);
        lemma_number_pos_range(s, number);
        if number_pos(s, number) == -1 {
            assert forall|i: int| 0 <= i < s.len() implies #[trigger] s[i].number != number by {
                if i < s.len() - 1 {
                    assert(s[i] == s.drop_last()[i]);
                }
            }
        }
    }
}

proof fn lemma_put_number(s: Seq<NumberEntryView>, number: Seq<char>, id: Seq<char>, note: Option<Seq<char>>)
    ensures
        put_number(s, number, id, note).len() >= s.len(),
        forall|i: int| 0 <= i < put_number(s, number, id, note).len() ==> (i < s.len() && #[trigger] put_number(s, number, id, note)[i] == s[i])
            || put_number(s, number, id, note)[i].number == number,
        unique_numbers(s) ==> unique_numbers(put_number(s, number, id, note)),
{
    lemma_number_pos_range(s, number);
    lemma_number_pos_absent(s, number);
}

proof fn lemma_drop_number(s: Seq<NumberEntryView>, number: Seq<char>)
    requires
        unique_numbers(s),
    ensures
        unique_numbers(drop_number(s, number)),
        forall|i: int| 0 <= i < drop_number(s, number).len() ==> #[trigger] drop_number(s, number)[i].number != number,
        forall|i: int| 0 <= i < drop_number(s, number).len() ==> (#[trigger] drop_number(s, number)[i] == s[i] && i < s.len())
            || (drop_number(s, number)[i] == s[i + 1] && i + 1 < s.len()),
{
    lemma_number_pos_range(s, number);
    lemma_number_pos_absent(s, number);
    let p = number_pos(s, number);
    if p >= 0 {
        let r = s.remove(p);
        assert forall|i: int, j: int| 0 <= i < j < r.len() implies #[trigger] r[i].number != #[trigger] r[j].number by {
            let a = if i < p { i } else { i + 1 };
            let b = if j < p { j } else { j + 1 };
            assert(r[i] == s[a] && r[j] == s[b] && a < b);
        }
        assert forall|i: int| 0 <= i < r.len() implies #[trigger] r[i].number != number by {
            let a = if i < p { i } else { i + 1 };
            assert(r[i] == s[a] && a != p);
        }
    }
}

proof fn lemma_add_to_scheme_wf(si: SchemeIndexView, cat: CatalogEntryView, id: Seq<char>, is_current: bool)
    requires
        scheme_wf(si),
    ensures
        scheme_wf(add_to_scheme(si, cat, id, is_current)),
{
    let n = cat.number;
    if is_current {
        lemma_put_number(si.current, n, id, cat.note);
        lemma_drop_number(si.superseded, n);
        let c = put_number(si.current, n, id, cat.note);
        let d = drop_number(si.superseded, n);
        assert forall|i: int, j: int| 0 <= i < c.len() && 0 <= j < d.len() implies #[trigger] c[i].number != #[trigger] d[j].number by {
            if c[i].number != n {
                assert(c[i] == si.current[i]);
                if d[j] == si.superseded[j] && j < si.superseded.len() {
                    assert(si.current[i].number != si.superseded[j].number);
                } else {
                    assert(d[j] == si.superseded[j + 1]);
                    assert(si.current[i].number != si.superseded[j + 1].number);
                }
            } else {
                assert(d[j].number != n);
            }
        }
    } else if number_pos(si.current, n) >= 0 {
    } else {
        lemma_number_pos_range(si.current, n);
        lemma_number_pos_absent(si.current, n);
        lemma_put_number(si.superseded, n, id, cat.note);
        let d = put_number(si.superseded, n, id, cat.note);
        assert forall|i: int, j: int| 0 <= i < si.current.len() && 0 <= j < d.len() implies #[trigger] si.current[i].number
            != #[trigger] d[j].number by {
            if d[j].number != n {
                assert(d[j] == si.superseded[j]);
                assert(si.current[i].number != si.superseded[j].number);
            } else {
                assert(si.current[i].number != n);
            }
        }
    }
}

proof fn lemma_put_pair(s: Seq<(Seq<char>, Seq<char>)>, number: Seq<char>, id: Seq<char>)
    requires
        unique_pairs(s),
    ensures
        unique_pairs(put_pair(s, number, id)),
    decreases s.len(),
{
    lemma_pair_pos_range(s, number);
    lemma_pair_pos_absent(s, number);
}

proof fn lemma_pair_pos_absent(s: Seq<(Seq<char>, Seq<char>)>, number: Seq<char>)
    ensures
        pair_pos(s, number) == -1 ==> forall|i: int| 0 <= i < s.len() ==> #[trigger] s[i].0 != number,
    decreases s.len(),
{
    if s.len() > 0 {
        lemma_pair_pos_absent(s.drop_last(), number);
        if pair_pos(s, number) == -1 {
            assert forall|i: int| 0 <= i < s.len() implies #[trigger] s[i].0 != number by {
                if i < s.len() - 1 {
                    assert(s[i] == s.drop_last()[i]);
                }
            }
        }
    }
}

proof fn lemma_add_entry_wf(idx: IndexView, composer: Seq<char>, cat: CatalogEntryView, id: Seq<char>, is_current: bool)
    requires
        index_wf(idx),
    ensures
        index_wf(add_entry(idx, composer, cat, id, is_current)),
{
    let r = add_entry(idx, composer, cat, id, is_current);
    let p = scheme_pos(idx.catalog, composer, cat.scheme);
    lemma_scheme_pos_range(idx.catalog, composer, cat.scheme);
    if p >= 0 {
        lemma_add_to_scheme_wf(idx.catalog[p], cat, id, is_current);
    } else {
        let e = SchemeIndexView { composer, scheme: cat.scheme, current: Seq::empty(), superseded: Seq::empty() };
        assert(scheme_wf(e));
        lemma_add_to_scheme_wf(e, cat, id, is_current);
    }
    assert forall|k: int| 0 <= k < r.catalog.len() implies scheme_wf(#[trigger] r.catalog[k]) by {
        if p >= 0 && k != p {
            assert(r.catalog[k] == idx.catalog[k]);
        } else if p < 0 && k < idx.catalog.len() {
            assert(r.catalog[k] == idx.catalog[k]);
        }
    }
    match cat.edition {
        None => {},
        Some(e) => {
            let q = edition_pos(idx.editions, composer, cat.scheme, e);
            lemma_edition_pos_range(idx.editions, composer, cat.scheme, e);
            if q >= 0 {
                lemma_put_pair(idx.editions[q].numbers, cat.number, id);
            }
            assert forall|k: int| 0 <= k < r.editions.len() implies unique_pairs(#[trigger] r.editions[k].numbers) by {
                if k < idx.editions.len() && k != q {
                    assert(r.editions[k] == idx.editions[k]);
                }
            }
        },
    }
}

/// The scheme index of `composer` and `scheme` with a catalog entry added:
/// as current it maps its number (replacing what the number mapped to) and
/// the number leaves the superseded ones; as superseded it maps it among
/// the superseded numbers, unless the number is already current.
pub open spec fn add_to_scheme(si: SchemeIndexView, cat: CatalogEntryView, id: Seq<char>, is_current: bool) -> SchemeIndexView {
    if is_current {
        SchemeIndexView {
            current: put_number(si.current, cat.number, id, cat.note),
            superseded: drop_number(si.superseded, cat.number),
            ..si
        }
    } else if number_pos(si.current, cat.number) >= 0 {
        si
    } else {
        SchemeIndexView { superseded: put_number(si.superseded, cat.number, id, cat.note), ..si }
    }
}

/// The scheme indexes with the entry added under `composer`, creating the
/// scheme index when it does not exist yet.
pub open spec fn add_to_catalog(s: Seq<SchemeIndexView>, composer: Seq<char>, cat: CatalogEntryView, id: Seq<char>, is_current: bool) -> Seq<SchemeIndexView> {
    let p = scheme_pos(s, composer, cat.scheme);
    if p >= 0 {
        s.update(p, add_to_scheme(s[p], cat, id, is_current))
    } else {
        s.push(add_to_scheme(
            SchemeIndexView { composer, scheme: cat.scheme, current: Seq::empty(), superseded: Seq::empty() },
            cat,
            id,
            is_current,
        ))
    }
}

/// The edition maps with the entry's number mapped to `id` in the map of
/// its own edition (nothing changes for an entry without edition).
pub open spec fn add_to_editions(s: Seq<EditionMapView>, composer: Seq<char>, cat: CatalogEntryView, id: Seq<char>) -> Seq<EditionMapView> {
    match cat.edition {
        None => s,
        Some(e) => {
            let p = edition_pos(s, composer, cat.scheme, e);
            if p >= 0 {
                s.update(p, EditionMapView { numbers: put_pair(s[p].numbers, cat.number, id), ..s[p] })
            } else {
                s.push(EditionMapView { composer, scheme: cat.scheme, edition: e, numbers: seq![(cat.number, id)] })
            }
        },
    }
}

/// The index with one catalog entry recorded, as `add_catalog_entry` does.
pub open spec fn add_entry(idx: IndexView, composer: Seq<char>, cat: CatalogEntryView, id: Seq<char>, is_current: bool) -> IndexView {
    IndexView {
        catalog: add_to_catalog(idx.catalog, composer, cat, id, is_current),
        editions: add_to_editions(idx.editions, composer, cat, id),
        ..idx
    }
}

/// Records catalog entry `cat` of composition `id` under `composer`, as the
/// current number of its scheme or as a superseded one, and in the map of
/// its edition when it names one.
pub fn add_catalog_entry(index: &mut Index, composer: &str, cat: &CatalogEntry, id: &str, is_current: bool)
    ensures
        final(index)@ == add_entry(old(index)@, composer@, cat@, id@, is_current),
        old(index).wf() ==> final(index).wf(),
{
    proof {
        if old(index).wf() {
            lemma_add_entry_wf(old(index)@, composer@, cat@, id@, is_current);
        }
    }
    let ghost old_cat = index@.catalog;
    proof {
        lemma_scheme_pos_range(old_cat, composer@, cat.scheme@);
    }
    let pos = match find_scheme(&index.catalog, composer, cat.scheme.as_str()) {
        Some(p) => p,
        None => {
            index.catalog.push(SchemeIndex {
                composer: composer.to_owned(),
                scheme: cat.scheme.clone(),
                current: Vec::new(),
                superseded: Vec::new(),
            });
            proof {
                assert(numbers_view(Seq::<NumberEntry>::empty()) =~= Seq::<NumberEntryView>::empty());
            }
            index.catalog.len() - 1
        },
    };
    let mut si = index.catalog.remove(pos);
    let ghost si0 = si@;
    if is_current {
        put_number_entry(&mut si.current, cat.number.as_str(), id, &cat.note);
        proof {
            lemma_number_pos_range(numbers_view(si.superseded@), cat.number@);
        }
        if let Some(p) = find_number_entry(&si.superseded, cat.number.as_str()) {
            let ghost before = si.superseded@;
            si.superseded.remove(p);
            assert(numbers_view(si.superseded@) =~= numbers_view(before).remove(p as int));
        }
    } else {
        if find_number_entry(&si.current, cat.number.as_str()).is_none() {
            put_number_entry(&mut si.superseded, cat.number.as_str(), id, &cat.note);
        }
    }
    assert(si@ == add_to_scheme(si0, cat@, id@, is_current));
    index.catalog.insert(pos, si);
    proof {
        let v = index@.catalog;
        if scheme_pos(old_cat, composer@, cat.scheme@) >= 0 {
            assert(v =~= add_to_catalog(old_cat, composer@, cat@, id@, is_current));
        } else {
            assert(v =~= add_to_catalog(old_cat, composer@, cat@, id@, is_current));
        }
    }
    if let Some(edition) = &cat.edition {
        let ghost old_eds = index@.editions;
        proof {
            lemma_edition_pos_range(old_eds, composer@, cat.scheme@, edition@);
        }
        match find_edition(&index.editions, composer, cat.scheme.as_str(), edition.as_str()) {
            Some(p) => {
                let mut em = index.editions.remove(p);
                let ghost em0 = em@;
                put_pair_exec(&mut em.numbers, cat.number.as_str(), id);
                index.editions.insert(p, em);
                assert(index@.editions =~= add_to_editions(old_eds, composer@, cat@, id@));
            },
            None => {
                let numbers = vec![(cat.number.clone(), id.to_owned())];
                assert(pairs_view(numbers@) =~= seq![(cat.number@, id@)]);
                index.editions.push(EditionMap {
                    composer: composer.to_owned(),
                    scheme: cat.scheme.clone(),
                    edition: edition.clone(),
                    numbers,
                });
                assert(index@.editions =~= add_to_editions(old_eds, composer@, cat@, id@));
            },
        }
    }
}

// ---- the composer index ------------------------------------------------

/// Position of `composer` in the composer index; -1 when absent.
pub open spec fn composer_pos(s: Seq<(Seq<char>, Seq<Seq<char>>)>, composer: Seq<char>) -> int
    decreases s.len(),
{
    if s.len() == 0 {
        -1
    } else if s.last().0 == composer {
        s.len() - 1
    } else {
        composer_pos(s.drop_last(), composer)
    }
}

proof fn lemma_composer_pos_range(s: Seq<(Seq<char>, Seq<Seq<char>>)>, composer: Seq<char>)
    ensures
        -1 <= composer_pos(s, composer) < s.len(),
        composer_pos(s, composer) >= 0 ==> s[composer_pos(s, composer)].0 == composer,
    decreases s.len(),
{
    if s.len() > 0 {
        lemma_composer_pos_range(s.drop_last(), composer);
    }
}

/// The index with `id` appended to the compositions of `composer`.
pub open spec fn add_id(idx: IndexView, composer: Seq<char>, id: Seq<char>) -> IndexView {
    let p = composer_pos(idx.by_composer, composer);
    IndexView {
        by_composer: if p >= 0 {
            idx.by_composer.update(p, (composer, idx.by_composer[p].1.push(id)))
        } else {
            idx.by_composer.push((composer, seq![id]))
        },
        ..idx
    }
}

fn find_composer(s: &Vec<(String, Vec<String>)>, composer: &str) -> (r: Option<usize>)
    ensures
        match r {
            Some(i) => i as int == composer_pos(composers_view(s@), composer@),
            None => composer_pos(composers_view(s@), composer@) == -1,
        },
{
    let ghost v = composers_view(s@);
    let mut i: usize = s.len();
    assert(v.subrange(0, i as int) =~= v);
    while i > 0
        invariant
            v == composers_view(s@),
            i <= s@.len(),
            composer_pos(v, composer@) == composer_pos(v.subrange(0, i as int), composer@),
        decreases i,
    {
        proof {
            let p = v.subrange(0, i as int);
            assert(p.drop_last() =~= v.subrange(0, i - 1));
            assert(p.last() == v[i - 1]);
        }
        if str_eq(s[i - 1].0.as_str(), composer) {
            return Some(i - 1);
        }
        i = i - 1;
    }
    None
}

fn add_composition_id(index: &mut Index, composer: &str, id: &str)
    ensures
        old(index).wf() ==> final(index).wf(),
        final(index)@ == add_id(old(index)@, composer@, id@),
{
    let ghost old_bc = index@.by_composer;
    proof {
        lemma_composer_pos_range(old_bc, composer@);
    }
    match find_composer(&index.by_composer, composer) {
        Some(p) => {
            let mut entry = index.by_composer.remove(p);
            let ghost ids0 = ids_view(entry.1@);
            entry.1.push(id.to_owned());
            assert(ids_view(entry.1@) =~= ids0.push(id@));
            index.by_composer.insert(p, entry);
            assert(index@.by_composer =~= add_id(old(index)@, composer@, id@).by_composer);
        },
        None => {
            let ids = vec![id.to_owned()];
            assert(ids_view(ids@) =~= seq![id@]);
            index.by_composer.push((composer.to_owned(), ids));
            assert(index@.by_composer =~= add_id(old(index)@, composer@, id@).by_composer);
        },
    }
}

// ---- scanning documents ------------------------------------------------

/// A catalog entry that names an edition, as met during the scan.
#[derive(Debug, Clone)]
pub struct EditionRecord {
    pub composer: String,
    pub scheme: String,
    pub edition: String,
    pub number: String,
    pub id: String,
}

/// The view of an `EditionRecord`.
pub struct EditionRecordView {
    pub composer: Seq<char>,
    pub scheme: Seq<char>,
    pub edition: Seq<char>,
    pub number: Seq<char>,
    pub id: Seq<char>,
}

impl View for EditionRecord {
    type V = EditionRecordView;

    open spec fn view(&self) -> EditionRecordView {
        EditionRecordView {
            composer: self.composer@,
            scheme: self.scheme@,
            edition: self.edition@,
            number: self.number@,
            id: self.id@,
        }
    }
}

pub open spec fn records_view(v: Seq<EditionRecord>) -> Seq<EditionRecordView> {
    v.map_values(|r: EditionRecord| r@)
}

/// What the scan of one document has built so far: the index, the edition
/// records, and the composers and (composer, scheme) pairs already met in
/// this document.
pub struct DocScan {
    pub idx: IndexView,
    pub buf: Seq<EditionRecordView>,
    pub composers: Seq<Seq<char>>,
    pub schemes: Seq<(Seq<char>, Seq<char>)>,
}

/// One catalog entry under `composer`: current when its scheme is met for
/// the first time under that composer in this document, else superseded.
pub open spec fn scan_catalog_entry(d: DocScan, composer: Seq<char>, cat: CatalogEntryView, id: Seq<char>) -> DocScan {
    let is_current = !d.schemes.contains((composer, cat.scheme));
    DocScan {
        idx: add_entry(d.idx, composer, cat, id, is_current),
        buf: match cat.edition {
            Some(e) => d.buf.push(EditionRecordView { composer, scheme: cat.scheme, edition: e, number: cat.number, id }),
            None => d.buf,
        },
        composers: d.composers,
        schemes: if is_current { d.schemes.push((composer, cat.scheme)) } else { d.schemes },
    }
}

/// The catalog entries of one attribution entry, in order.
pub open spec fn scan_catalog(d: DocScan, composer: Seq<char>, cats: Seq<CatalogEntryView>, id: Seq<char>) -> DocScan
    decreases cats.len(),
{
    if cats.len() == 0 {
        d
    } else {
        scan_catalog_entry(scan_catalog(d, composer, cats.drop_last(), id), composer, cats.last(), id)
    }
}

/// The composer an entry's catalog numbers are filed under: its own, or
/// the document's first composer when it names none.
pub open spec fn entry_composer(e: AttributionView, fallback: Option<Seq<char>>) -> Option<Seq<char>> {
    if e.composer is Some {
        e.composer
    } else {
        fallback
    }
}

/// One attribution entry: the composition is listed under the entry's
/// composer the first time the document names that composer, then the
/// entry's catalog numbers are filed under it.
pub open spec fn scan_entry(d: DocScan, e: AttributionView, fallback: Option<Seq<char>>, id: Seq<char>) -> DocScan {
    match entry_composer(e, fallback) {
        None => d,
        Some(c) => {
            let d1 = if d.composers.contains(c) {
                d
            } else {
                DocScan { idx: add_id(d.idx, c, id), composers: d.composers.push(c), ..d }
            };
            scan_catalog(d1, c, match e.catalog {
                Some(cs) => cs,
                None => Seq::empty(),
            }, id)
        },
    }
}

/// The attribution entries of one document, in order.
pub open spec fn scan_entries(d: DocScan, es: Seq<AttributionView>, fallback: Option<Seq<char>>, id: Seq<char>) -> DocScan
    decreases es.len(),
{
    if es.len() == 0 {
        d
    } else {
        scan_entry(scan_entries(d, es.drop_last(), fallback, id), es.last(), fallback, id)
    }
}

/// A document's ID and attribution entries.
pub open spec fn docs_view(docs: Seq<Composition>) -> Seq<(Seq<char>, Seq<AttributionView>)> {
    docs.map_values(|c: Composition| (c.id@, attributions_view(c.attribution@)))
}

/// One document, its entries completed from their collections.
pub open spec fn scan_doc(
    st: (IndexView, Seq<EditionRecordView>),
    doc: (Seq<char>, Seq<AttributionView>),
    cs: Seq<(Seq<char>, Seq<AttributionView>)>,
) -> (IndexView, Seq<EditionRecordView>) {
    let es = hydrated_all(doc.1, cs);
    let d = scan_entries(
        DocScan { idx: st.0, buf: st.1, composers: Seq::empty(), schemes: Seq::empty() },
        es,
        merged_composer(es),
        doc.0,
    );
    (d.idx, d.buf)
}

/// The documents, in order, from an empty index.
pub open spec fn scan_docs(docs: Seq<(Seq<char>, Seq<AttributionView>)>, cs: Seq<(Seq<char>, Seq<AttributionView>)>) -> (IndexView, Seq<EditionRecordView>)
    decreases docs.len(),
{
    if docs.len() == 0 {
        (empty_index(), Seq::empty())
    } else {
        scan_doc(scan_docs(docs.drop_last(), cs), docs.last(), cs)
    }
}

fn contains_str(v: &Vec<String>, s: &str) -> (r: bool)
    ensures
        r == ids_view(v@).contains(s@),
{
    let mut i: usize = 0;
    while i < v.len()
        invariant
            i <= v@.len(),
            forall|k: int| 0 <= k < i ==> v@[k]@ != s@,
        decreases v@.len() - i,
    {
        if str_eq(v[i].as_str(), s) {
            assert(ids_view(v@)[i as int] == s@);
            return true;
        }
        i = i + 1;
    }
    assert(!ids_view(v@).contains(s@)) by {
        assert forall|k: int| 0 <= k < ids_view(v@).len() implies ids_view(v@)[k] != s@ by {
            assert(ids_view(v@)[k] == v@[k]@);
        }
    }
    false
}

fn contains_pair(v: &Vec<(String, String)>, a: &str, b: &str) -> (r: bool)
    ensures
        r == pairs_view(v@).contains((a@, b@)),
{
    let mut i: usize = 0;
    while i < v.len()
        invariant
            i <= v@.len(),
            forall|k: int| 0 <= k < i ==> (v@[k].0@, v@[k].1@) != (a@, b@),
        decreases v@.len() - i,
    {
        if str_eq(v[i].0.as_str(), a) && str_eq(v[i].1.as_str(), b) {
            assert(pairs_view(v@)[i as int] == (a@, b@));
            return true;
        }
        i = i + 1;
    }
    assert(!pairs_view(v@).contains((a@, b@))) by {
        assert forall|k: int| 0 <= k < pairs_view(v@).len() implies pairs_view(v@)[k] != (a@, b@) by {
            assert(pairs_view(v@)[k] == (v@[k].0@, v@[k].1@));
        }
    }
    false
}

fn scan_catalog_exec(
    index: &mut Index,
    buf: &mut Vec<EditionRecord>,
    composers: &Vec<String>,
    schemes: &mut Vec<(String, String)>,
    composer: &str,
    cats: &Vec<CatalogEntry>,
    id: &str,
)
    requires
        old(index).wf(),
    ensures
        final(index).wf(),
        ({
            let d = scan_catalog(
                DocScan { idx: old(index)@, buf: records_view(old(buf)@), composers: ids_view(composers@), schemes: pairs_view(old(schemes)@) },
                composer@,
                crate::types::entries_view(cats@),
                id@,
            );
            &&& final(index)@ == d.idx
            &&& records_view(final(buf)@) == d.buf
            &&& pairs_view(final(schemes)@) == d.schemes
            &&& d.composers == ids_view(composers@)
        }),
{
    let ghost d0 = DocScan { idx: index@, buf: records_view(buf@), composers: ids_view(composers@), schemes: pairs_view(schemes@) };
    let ghost cv = crate::types::entries_view(cats@);
    let mut j: usize = 0;
    assert(cv.subrange(0, 0) =~= Seq::<CatalogEntryView>::empty());
    while j < cats.len()
        invariant
            index.wf(),
            cv == crate::types::entries_view(cats@),
            j <= cats@.len(),
            ({
                let d = scan_catalog(d0, composer@, cv.subrange(0, j as int), id@);
                &&& index@ == d.idx
                &&& records_view(buf@) == d.buf
                &&& pairs_view(schemes@) == d.schemes
                &&& d.composers == ids_view(composers@)
            }),
        decreases cats@.len() - j,
    {
        let cat = &cats[j];
        proof {
            let p = cv.subrange(0, j + 1);
            assert(p.drop_last() =~= cv.subrange(0, j as int));
            assert(p.last() == cat@);
        }
        let is_current = !contains_pair(schemes, composer, cat.scheme.as_str());
        add_catalog_entry(index, composer, cat, id, is_current);
        if let Some(e) = &cat.edition {
            let ghost before = records_view(buf@);
            buf.push(EditionRecord {
                composer: composer.to_owned(),
                scheme: cat.scheme.clone(),
                edition: e.clone(),
                number: cat.number.clone(),
                id: id.to_owned(),
            });
            assert(records_view(buf@) =~= before.push(EditionRecordView { composer: composer@, scheme: cat.scheme@, edition: e@, number: cat.number@, id: id@ }));
        }
        if is_current {
            let ghost before = pairs_view(schemes@);
            schemes.push((composer.to_owned(), cat.scheme.clone()));
            assert(pairs_view(schemes@) =~= before.push((composer@, cat.scheme@)));
        }
        j = j + 1;
    }
    assert(cv.subrange(0, j as int) =~= cv);
}

fn scan_document(index: &mut Index, buf: &mut Vec<EditionRecord>, doc: &Composition, collections: &CollectionSet)
    requires
        old(index).wf(),
    ensures
        final(index).wf(),
        (final(index)@, records_view(final(buf)@)) == scan_doc(
            (old(index)@, records_view(old(buf)@)),
            (doc.id@, attributions_view(doc.attribution@)),
            collections@,
        ),
{
    let ghost es = hydrated_all(attributions_view(doc.attribution@), collections@);
    let mut expanded: Vec<AttributionEntry> = Vec::new();
    let mut i: usize = 0;
    while i < doc.attribution.len()
        invariant
            i <= doc.attribution@.len(),
            expanded@.len() == i,
            forall|k: int| 0 <= k < i ==> (#[trigger] expanded@[k])@ == crate::merge::hydrated(doc.attribution@[k]@, collections@),
        decreases doc.attribution@.len() - i,
    {
        expanded.push(hydrate_entry(&doc.attribution[i], collections));
        i = i + 1;
    }
    assert(attributions_view(expanded@) =~= es);
    let fallback = effective_composer(expanded.as_slice());
    let ghost fb = merged_composer(es);
    let id = doc.id.as_str();
    let mut composers: Vec<String> = Vec::new();
    let mut schemes: Vec<(String, String)> = Vec::new();
    let ghost d0 = DocScan { idx: index@, buf: records_view(buf@), composers: Seq::empty(), schemes: Seq::empty() };
    assert(ids_view(composers@) =~= Seq::<Seq<char>>::empty());
    assert(pairs_view(schemes@) =~= Seq::<(Seq<char>, Seq<char>)>::empty());
    let mut k: usize = 0;
    assert(es.subrange(0, 0) =~= Seq::<AttributionView>::empty());
    while k < expanded.len()
        invariant
            index.wf(),
            es == attributions_view(expanded@),
            fb == merged_composer(es),
            crate::defs::opt_str_view(fallback) == fb,
            k <= expanded@.len(),
            id@ == doc.id@,
            ({
                let d = scan_entries(d0, es.subrange(0, k as int), fb, id@);
                &&& index@ == d.idx
                &&& records_view(buf@) == d.buf
                &&& ids_view(composers@) == d.composers
                &&& pairs_view(schemes@) == d.schemes
            }),
        decreases expanded@.len() - k,
    {
        let e = &expanded[k];
        proof {
            let p = es.subrange(0, k + 1);
            assert(p.drop_last() =~= es.subrange(0, k as int));
            assert(p.last() == e@);
        }
        let c: Option<&str> = match &e.composer {
            Some(c) => Some(c.as_str()),
            None => fallback,
        };
        if let Some(c) = c {
            if !contains_str(&composers, c) {
                add_composition_id(index, c, id);
                let ghost before = ids_view(composers@);
                composers.push(c.to_owned());
                assert(ids_view(composers@) =~= before.push(c@));
            }
            match &e.catalog {
                Some(cats) => {
                    scan_catalog_exec(index, buf, &composers, &mut schemes, c, cats, id);
                },
                None => {
                    proof {
                        let d = scan_entries(d0, es.subrange(0, k as int), fb, id@);
                        let d1 = if d.composers.contains(c@) { d } else { DocScan { idx: add_id(d.idx, c@, id@), composers: d.composers.push(c@), ..d } };
                        assert(scan_catalog(d1, c@, Seq::<CatalogEntryView>::empty(), id@) == d1);
                    }
                },
            }
        }
        k = k + 1;
    }
    assert(es.subrange(0, k as int) =~= es);
}

// ---- cumulative editions -----------------------------------------------

/// An edition label's place in the order of editions: its integer value
/// (0 when it is no numeral).
pub open spec fn edition_rank(e: Seq<char>) -> int {
    int_field(e)
}

/// The (composer, scheme, edition) triples met, each once, in order of
/// first appearance.
pub open spec fn edition_labels(buf: Seq<EditionRecordView>) -> Seq<(Seq<char>, Seq<char>, Seq<char>)>
    decreases buf.len(),
{
    if buf.len() == 0 {
        Seq::empty()
    } else {
        let l = edition_labels(buf.drop_last());
        let t = (buf.last().composer, buf.last().scheme, buf.last().edition);
        if l.contains(t) {
            l
        } else {
            l.push(t)
        }
    }
}

/// Whether record `i` is the one that gives its composition's number as of
/// edition `e`: among the records of the same composer, scheme and
/// composition at editions up to `e`, it has the highest edition, and is
/// the first such in scan order.
pub open spec fn is_in_force(buf: Seq<EditionRecordView>, i: int, composer: Seq<char>, scheme: Seq<char>, e: Seq<char>) -> bool {
    &&& buf[i].composer == composer
    &&& buf[i].scheme == scheme
    &&& edition_rank(buf[i].edition) <= edition_rank(e)
    &&& forall|j: int|
        0 <= j < buf.len() && (#[trigger] buf[j]).composer == composer && buf[j].scheme == scheme && buf[j].id == buf[i].id
            && edition_rank(buf[j].edition) <= edition_rank(e) ==> edition_rank(buf[j].edition) < edition_rank(buf[i].edition)
            || (edition_rank(buf[j].edition) == edition_rank(buf[i].edition) && j >= i)
}

/// The cumulative map of `composer`'s `scheme` as of edition `e`, built
/// from the first `n` records: each composition's number in force.
pub open spec fn cumulative_pairs(buf: Seq<EditionRecordView>, composer: Seq<char>, scheme: Seq<char>, e: Seq<char>, n: int) -> Seq<(Seq<char>, Seq<char>)>
    decreases n,
{
    if n <= 0 {
        Seq::empty()
    } else {
        let p = cumulative_pairs(buf, composer, scheme, e, n - 1);
        if is_in_force(buf, n - 1, composer, scheme, e) {
            put_pair(p, buf[n - 1].number, buf[n - 1].id)
        } else {
            p
        }
    }
}

pub type Label = (Seq<char>, Seq<char>, Seq<char>);

/// `x` placed into the labels `t` (in edition order) after every label
/// whose edition does not come later.
pub open spec fn insert_label(t: Seq<Label>, x: Label) -> Seq<Label>
    decreases t.len(),
{
    if t.len() == 0 {
        seq![x]
    } else if edition_rank(t.last().2) <= edition_rank(x.2) {
        t.push(x)
    } else {
        insert_label(t.drop_last(), x).push(t.last())
    }
}

/// The labels in numeric edition order, equal editions keeping their order.
pub open spec fn sorted_labels(s: Seq<Label>) -> Seq<Label>
    decreases s.len(),
{
    if s.len() == 0 {
        s
    } else {
        insert_label(sorted_labels(s.drop_last()), s.last())
    }
}

proof fn lemma_insert_label_at(t: Seq<Label>, x: Label, j: int)
    requires
        0 <= j <= t.len(),
        forall|m: int| j <= m < t.len() ==> edition_rank((#[trigger] t[m]).2) > edition_rank(x.2),
        j == 0 || edition_rank(t[j - 1].2) <= edition_rank(x.2),
    ensures
        insert_label(t, x) == t.insert(j, x),
    decreases t.len(),
{
    if j == t.len() {
        if t.len() == 0 {
            assert(t.insert(0, x) =~= seq![x]);
        } else {
            assert(t.insert(j, x) =~= t.push(x));
        }
    } else {
        let u = t.drop_last();
        assert(edition_rank(t[t.len() - 1].2) > edition_rank(x.2));
        assert forall|m: int| j <= m < u.len() implies edition_rank((#[trigger] u[m]).2) > edition_rank(x.2) by {
            assert(u[m] == t[m]);
        }
        lemma_insert_label_at(u, x, j);
        assert(u.insert(j, x).push(t.last()) =~= t.insert(j, x));
    }
}

pub open spec fn label_of(r: EditionRecord) -> Label {
    (r@.composer, r@.scheme, r@.edition)
}

pub open spec fn labels_view(v: Seq<EditionRecord>) -> Seq<Label> {
    v.map_values(|x: EditionRecord| label_of(x))
}

fn sort_labels(v: Vec<EditionRecord>) -> (r: Vec<EditionRecord>)
    ensures
        labels_view(r@) == sorted_labels(labels_view(v@)),
{
    let ghost s = labels_view(v@);
    let mut out: Vec<EditionRecord> = Vec::new();
    let mut ranks: Vec<i64> = Vec::new();
    let mut i: usize = 0;
    assert(s.subrange(0, 0) =~= Seq::<Label>::empty());
    while i < v.len()
        invariant
            s == labels_view(v@),
            i <= v@.len(),
            labels_view(out@) == sorted_labels(s.subrange(0, i as int)),
            ranks@.len() == out@.len(),
            forall|k: int| 0 <= k < out@.len() ==> (#[trigger] ranks@[k]) as int == edition_rank(out@[k]@.edition),
        decreases v@.len() - i,
    {
        let x = EditionRecord {
            composer: v[i].composer.clone(),
            scheme: v[i].scheme.clone(),
            edition: v[i].edition.clone(),
            number: v[i].number.clone(),
            id: v[i].id.clone(),
        };
        let rx = parse_int_field(x.edition.as_str());
        let mut j: usize = out.len();
        while j > 0 && ranks[j - 1] > rx
            invariant
                j <= out@.len(),
                ranks@.len() == out@.len(),
                forall|m: int| j <= m < out@.len() ==> (#[trigger] ranks@[m]) > rx,
            decreases j,
        {
            j = j - 1;
        }
        proof {
            let t = labels_view(out@);
            assert forall|m: int| j <= m < t.len() implies edition_rank((#[trigger] t[m]).2) > edition_rank(label_of(x).2) by {
                assert(t[m] == label_of(out@[m]));
                assert(ranks@[m] > rx);
            }
            if j > 0 {
                assert(t[j - 1] == label_of(out@[j - 1]));
            }
            lemma_insert_label_at(t, label_of(x), j as int);
            assert(s.subrange(0, i + 1).drop_last() =~= s.subrange(0, i as int));
            assert(s.subrange(0, i + 1).last() == label_of(x));
        }
        let ghost before = out@;
        let ghost rbefore = ranks@;
        out.insert(j, x);
        ranks.insert(j, rx);
        proof {
            assert(labels_view(out@) =~= labels_view(before).insert(j as int, label_of(x)));
            assert forall|k: int| 0 <= k < out@.len() implies (#[trigger] ranks@[k]) as int == edition_rank(out@[k]@.edition) by {
                if k < j {
                    assert(out@[k] == before[k] && ranks@[k] == rbefore[k]);
                } else if k > j {
                    assert(out@[k] == before[k - 1] && ranks@[k] == rbefore[k - 1]);
                }
            }
        }
        i = i + 1;
    }
    assert(s.subrange(0, i as int) =~= s);
    out
}

/// One cumulative map per (composer, scheme, edition) met in the scan,
/// in numeric edition order.
pub open spec fn cumulative_editions(buf: Seq<EditionRecordView>) -> Seq<EditionMapView> {
    sorted_labels(edition_labels(buf)).map_values(|t: (Seq<char>, Seq<char>, Seq<char>)| EditionMapView {
        composer: t.0,
        scheme: t.1,
        edition: t.2,
        numbers: cumulative_pairs(buf, t.0, t.1, t.2, buf.len() as int),
    })
}

/// The index that a scan of `docs` builds, its edition maps made cumulative.
pub open spec fn built_index(docs: Seq<(Seq<char>, Seq<AttributionView>)>, cs: Seq<(Seq<char>, Seq<AttributionView>)>) -> IndexView {
    let st = scan_docs(docs, cs);
    IndexView { editions: cumulative_editions(st.1), ..st.0 }
}

fn in_force(buf: &Vec<EditionRecord>, ranks: &Vec<i64>, i: usize, composer: &str, scheme: &str, e_rank: i64) -> (r: bool)
    requires
        i < buf@.len(),
        ranks@.len() == buf@.len(),
        forall|k: int| 0 <= k < buf@.len() ==> (#[trigger] ranks@[k]) as int == edition_rank(buf@[k]@.edition),
    ensures
        forall|e: Seq<char>| edition_rank(e) == e_rank as int ==> r == is_in_force(records_view(buf@), i as int, composer@, scheme@, e),
{
    let ghost b = records_view(buf@);
    let ri = &buf[i];
    if !(str_eq(ri.composer.as_str(), composer) && str_eq(ri.scheme.as_str(), scheme) && ranks[i] <= e_rank) {
        return false;
    }
    let mut j: usize = 0;
    while j < buf.len()
        invariant
            b == records_view(buf@),
            i < buf@.len(),
            ranks@.len() == buf@.len(),
            forall|k: int| 0 <= k < buf@.len() ==> (#[trigger] ranks@[k]) as int == edition_rank(buf@[k]@.edition),
            j <= buf@.len(),
            forall|k: int| 0 <= k < j && (#[trigger] b[k]).composer == composer@ && b[k].scheme == scheme@ && b[k].id == b[i as int].id
                && edition_rank(b[k].edition) <= e_rank ==> edition_rank(b[k].edition) < edition_rank(b[i as int].edition)
                || (edition_rank(b[k].edition) == edition_rank(b[i as int].edition) && k >= i),
        decreases buf@.len() - j,
    {
        let rj = &buf[j];
        assert(b[j as int] == rj@);
        if str_eq(rj.composer.as_str(), composer) && str_eq(rj.scheme.as_str(), scheme) && str_eq(rj.id.as_str(), buf[i].id.as_str())
            && ranks[j] <= e_rank {
            if !(ranks[j] < ranks[i] || (ranks[j] == ranks[i] && j >= i)) {
                return false;
            }
        }
        j = j + 1;
    }
    true
}

fn cumulative_map(buf: &Vec<EditionRecord>, ranks: &Vec<i64>, composer: &str, scheme: &str, edition: &str) -> (r: Vec<(String, String)>)
    requires
        ranks@.len() == buf@.len(),
        forall|k: int| 0 <= k < buf@.len() ==> (#[trigger] ranks@[k]) as int == edition_rank(buf@[k]@.edition),
    ensures
        pairs_view(r@) == cumulative_pairs(records_view(buf@), composer@, scheme@, edition@, buf@.len() as int),
{
    let e_rank = parse_int_field(edition);
    let mut out: Vec<(String, String)> = Vec::new();
    let mut i: usize = 0;
    assert(pairs_view(out@) =~= Seq::<(Seq<char>, Seq<char>)>::empty());
    while i < buf.len()
        invariant
            ranks@.len() == buf@.len(),
            forall|k: int| 0 <= k < buf@.len() ==> (#[trigger] ranks@[k]) as int == edition_rank(buf@[k]@.edition),
            e_rank as int == edition_rank(edition@),
            i <= buf@.len(),
            pairs_view(out@) == cumulative_pairs(records_view(buf@), composer@, scheme@, edition@, i as int),
        decreases buf@.len() - i,
    {
        if in_force(buf, ranks, i, composer, scheme, e_rank) {
            assert(records_view(buf@)[i as int] == buf@[i as int]@);
            put_pair_exec(&mut out, buf[i].number.as_str(), buf[i].id.as_str());
        }
        i = i + 1;
    }
    out
}

fn cumulative_edition_maps(buf: &Vec<EditionRecord>) -> (r: Vec<EditionMap>)
    ensures
        r@.map_values(|x: EditionMap| x@) == cumulative_editions(records_view(buf@)),
{
    let ghost b = records_view(buf@);
    let mut ranks: Vec<i64> = Vec::new();
    let mut i: usize = 0;
    while i < buf.len()
        invariant
            i <= buf@.len(),
            ranks@.len() == i,
            forall|k: int| 0 <= k < i ==> (#[trigger] ranks@[k]) as int == edition_rank(buf@[k]@.edition),
        decreases buf@.len() - i,
    {
        ranks.push(parse_int_field(buf[i].edition.as_str()));
        i = i + 1;
    }
    let mut labels: Vec<EditionRecord> = Vec::new();
    let mut k: usize = 0;
    assert(b.subrange(0, 0) =~= Seq::<EditionRecordView>::empty());
    while k < buf.len()
        invariant
            b == records_view(buf@),
            k <= buf@.len(),
            labels@.map_values(|x: EditionRecord| (x@.composer, x@.scheme, x@.edition)) == edition_labels(b.subrange(0, k as int)),
        decreases buf@.len() - k,
    {
        let r = &buf[k];
        let ghost lv = labels@.map_values(|x: EditionRecord| (x@.composer, x@.scheme, x@.edition));
        proof {
            let p = b.subrange(0, k + 1);
            assert(p.drop_last() =~= b.subrange(0, k as int));
            assert(p.last() == r@);
        }
        let mut found = false;
        let mut m: usize = 0;
        while m < labels.len()
            invariant
                m <= labels@.len(),
                lv == labels@.map_values(|x: EditionRecord| (x@.composer, x@.scheme, x@.edition)),
                !found ==> forall|q: int| 0 <= q < m ==> lv[q] != (r@.composer, r@.scheme, r@.edition),
                found ==> lv.contains((r@.composer, r@.scheme, r@.edition)),
            decreases labels@.len() - m,
        {
            let l = &labels[m];
            assert(lv[m as int] == (l@.composer, l@.scheme, l@.edition));
            if str_eq(l.composer.as_str(), r.composer.as_str()) && str_eq(l.scheme.as_str(), r.scheme.as_str())
                && str_eq(l.edition.as_str(), r.edition.as_str()) {
                found = true;
            }
            m = m + 1;
        }
        if !found {
            labels.push(EditionRecord {
                composer: r.composer.clone(),
                scheme: r.scheme.clone(),
                edition: r.edition.clone(),
                number: r.number.clone(),
                id: r.id.clone(),
            });
            assert(labels@.map_values(|x: EditionRecord| (x@.composer, x@.scheme, x@.edition)) =~= lv.push((r@.composer, r@.scheme, r@.edition)));
        }
        k = k + 1;
    }
    assert(b.subrange(0, k as int) =~= b);
    assert(labels_view(labels@) =~= labels@.map_values(|x: EditionRecord| (x@.composer, x@.scheme, x@.edition)));
    let labels = sort_labels(labels);
    let ghost lv = labels@.map_values(|x: EditionRecord| (x@.composer, x@.scheme, x@.edition));
    assert(lv =~= labels_view(labels@));
    let mut out: Vec<EditionMap> = Vec::new();
    let mut t: usize = 0;
    while t < labels.len()
        invariant
            b == records_view(buf@),
            ranks@.len() == buf@.len(),
            forall|k: int| 0 <= k < buf@.len() ==> (#[trigger] ranks@[k]) as int == edition_rank(buf@[k]@.edition),
            lv == labels@.map_values(|x: EditionRecord| (x@.composer, x@.scheme, x@.edition)),
            lv == sorted_labels(edition_labels(b)),
            t <= labels@.len(),
            out@.len() == t,
            forall|q: int| 0 <= q < t ==> (#[trigger] out@[q])@ == (EditionMapView {
                composer: lv[q].0,
                scheme: lv[q].1,
                edition: lv[q].2,
                numbers: cumulative_pairs(b, lv[q].0, lv[q].1, lv[q].2, b.len() as int),
            }),
        decreases labels@.len() - t,
    {
        let l = &labels[t];
        let numbers = cumulative_map(buf, &ranks, l.composer.as_str(), l.scheme.as_str(), l.edition.as_str());
        out.push(EditionMap { composer: l.composer.clone(), scheme: l.scheme.clone(), edition: l.edition.clone(), numbers });
        t = t + 1;
    }
    assert(out@.map_values(|x: EditionMap| x@) =~= cumulative_editions(b));
    out
}

/// Builds the index from the documents, each one's entries completed from
/// the collections they refer to: compositions by composer, current and
/// superseded numbers, and cumulative maps per edition.
pub fn build_index(documents: &[Composition], collections: &CollectionSet) -> (r: Index)
    ensures
        r@ == built_index(docs_view(documents@), collections@),
        r.wf(),
{
    let ghost dv = docs_view(documents@);
    let mut index = Index::new();
    let mut buf: Vec<EditionRecord> = Vec::new();
    let mut i: usize = 0;
    assert(records_view(buf@) =~= Seq::<EditionRecordView>::empty());
    assert(dv.subrange(0, 0) =~= Seq::<(Seq<char>, Seq<AttributionView>)>::empty());
    while i < documents.len()
        invariant
            index.wf(),
            dv == docs_view(documents@),
            i <= documents@.len(),
            (index@, records_view(buf@)) == scan_docs(dv.subrange(0, i as int), collections@),
        decreases documents@.len() - i,
    {
        proof {
            let p = dv.subrange(0, i + 1);
            assert(p.drop_last() =~= dv.subrange(0, i as int));
            assert(p.last() == (documents@[i as int].id@, attributions_view(documents@[i as int].attribution@)));
        }
        scan_document(&mut index, &mut buf, &documents[i], collections);
        i = i + 1;
    }
    assert(dv.subrange(0, i as int) =~= dv);
    let ghost cat_before = index@.catalog;
    assert(forall|k: int| 0 <= k < cat_before.len() ==> scheme_wf(#[trigger] cat_before[k]));
    index.editions = cumulative_edition_maps(&buf);
    proof {
        let b = records_view(buf@);
        let eds = cumulative_editions(b);
        assert(index@.catalog == cat_before);
        assert(index@.editions == eds);
        assert forall|k: int| 0 <= k < eds.len() implies unique_pairs(#[trigger] eds[k].numbers) by {
            let l = sorted_labels(edition_labels(b))[k];
            lemma_cumulative_pairs_unique(b, l.0, l.1, l.2, b.len() as int);
        }
    }
    index
}

proof fn lemma_cumulative_pairs_unique(buf: Seq<EditionRecordView>, composer: Seq<char>, scheme: Seq<char>, e: Seq<char>, n: int)
    ensures
        unique_pairs(cumulative_pairs(buf, composer, scheme, e, n)),
    decreases n,
{
    if n > 0 {
        lemma_cumulative_pairs_unique(buf, composer, scheme, e, n - 1);
        if is_in_force(buf, n - 1, composer, scheme, e) {
            lemma_put_pair(cumulative_pairs(buf, composer, scheme, e, n - 1), buf[n - 1].number, buf[n - 1].id);
        }
    }
}

fn numbers_unique(s: &Vec<NumberEntry>) -> (r: bool)
    ensures
        r == unique_numbers(numbers_view(s@)),
{
    let ghost v = numbers_view(s@);
    let mut i: usize = 0;
    while i < s.len()
        invariant
            v == numbers_view(s@),
            i <= s@.len(),
            forall|a: int, b: int| 0 <= a < i && a < b < v.len() ==> #[trigger] v[a].number != #[trigger] v[b].number,
        decreases s@.len() - i,
    {
        let mut j: usize = i + 1;
        while j < s.len()
            invariant
                v == numbers_view(s@),
                i < s@.len(),
                i + 1 <= j <= s@.len(),
                forall|a: int, b: int| 0 <= a < i && a < b < v.len() ==> #[trigger] v[a].number != #[trigger] v[b].number,
                forall|b: int| i < b < j ==> v[i as int].number != #[trigger] v[b].number,
            decreases s@.len() - j,
        {
            if str_eq(s[i].number.as_str(), s[j].number.as_str()) {
                assert(v[i as int].number == v[j as int].number);
                return false;
            }
            j = j + 1;
        }
        i = i + 1;
    }
    true
}

fn lists_disjoint(c: &Vec<NumberEntry>, d: &Vec<NumberEntry>) -> (r: bool)
    ensures
        r == (forall|i: int, j: int| 0 <= i < c@.len() && 0 <= j < d@.len() ==> #[trigger] numbers_view(c@)[i].number
            != #[trigger] numbers_view(d@)[j].number),
{
    let ghost cv = numbers_view(c@);
    let ghost dv = numbers_view(d@);
    let mut i: usize = 0;
    while i < c.len()
        invariant
            cv == numbers_view(c@),
            dv == numbers_view(d@),
            i <= c@.len(),
            forall|a: int, b: int| 0 <= a < i && 0 <= b < d@.len() ==> #[trigger] cv[a].number != #[trigger] dv[b].number,
        decreases c@.len() - i,
    {
        let mut j: usize = 0;
        while j < d.len()
            invariant
                cv == numbers_view(c@),
                dv == numbers_view(d@),
                i < c@.len(),
                j <= d@.len(),
                forall|a: int, b: int| 0 <= a < i && 0 <= b < d@.len() ==> #[trigger] cv[a].number != #[trigger] dv[b].number,
                forall|b: int| 0 <= b < j ==> cv[i as int].number != #[trigger] dv[b].number,
            decreases d@.len() - j,
        {
            if str_eq(c[i].number.as_str(), d[j].number.as_str()) {
                assert(cv[i as int].number == dv[j as int].number);
                return false;
            }
            j = j + 1;
        }
        i = i + 1;
    }
    true
}

fn pairs_unique(s: &Vec<(String, String)>) -> (r: bool)
    ensures
        r == unique_pairs(pairs_view(s@)),
{
    let ghost v = pairs_view(s@);
    let mut i: usize = 0;
    while i < s.len()
        invariant
            v == pairs_view(s@),
            i <= s@.len(),
            forall|a: int, b: int| 0 <= a < i && a < b < v.len() ==> #[trigger] v[a].0 != #[trigger] v[b].0,
        decreases s@.len() - i,
    {
        let mut j: usize = i + 1;
        while j < s.len()
            invariant
                v == pairs_view(s@),
                i < s@.len(),
                i + 1 <= j <= s@.len(),
                forall|a: int, b: int| 0 <= a < i && a < b < v.len() ==> #[trigger] v[a].0 != #[trigger] v[b].0,
                forall|b: int| i < b < j ==> v[i as int].0 != #[trigger] v[b].0,
            decreases s@.len() - j,
        {
            if str_eq(s[i].0.as_str(), s[j].0.as_str()) {
                assert(v[i as int].0 == v[j as int].0);
                return false;
            }
            j = j + 1;
        }
        i = i + 1;
    }
    true
}

impl Index {
    /// Whether the index keeps its invariant: for an index read back from
    /// a cache, which nothing else vouches for.
    pub fn check_wf(&self) -> (r: bool)
        ensures
            r == self.wf(),
    {
        let ghost cat = self@.catalog;
        let mut k: usize = 0;
        while k < self.catalog.len()
            invariant
                cat == self@.catalog,
                k <= self.catalog@.len(),
                forall|m: int| 0 <= m < k ==> scheme_wf(#[trigger] cat[m]),
            decreases self.catalog@.len() - k,
        {
            let si = &self.catalog[k];
            assert(cat[k as int] == si@);
            if !(numbers_unique(&si.current) && numbers_unique(&si.superseded) && lists_disjoint(&si.current, &si.superseded)) {
                assert(!scheme_wf(cat[k as int]));
                return false;
            }
            k = k + 1;
        }
        let ghost eds = self@.editions;
        let mut e: usize = 0;
        while e < self.editions.len()
            invariant
                cat == self@.catalog,
                eds == self@.editions,
                forall|m: int| 0 <= m < cat.len() ==> scheme_wf(#[trigger] cat[m]),
                e <= self.editions@.len(),
                forall|m: int| 0 <= m < e ==> unique_pairs(#[trigger] eds[m].numbers),
            decreases self.editions@.len() - e,
        {
            assert(eds[e as int] == self.editions@[e as int]@);
            if !pairs_unique(&self.editions[e].numbers) {
                assert(!unique_pairs(eds[e as int].numbers));
                return false;
            }
            e = e + 1;
        }
        true
    }
}

/// Whether `number` is a key of the pairs.
pub open spec fn has_pair_key(s: Seq<(Seq<char>, Seq<char>)>, number: Seq<char>) -> bool {
    exists|i: int| 0 <= i < s.len() && (#[trigger] s[i]).0 == number
}

proof fn lemma_put_pair_keys(s: Seq<(Seq<char>, Seq<char>)>, number: Seq<char>, id: Seq<char>)
    ensures
        has_pair_key(put_pair(s, number, id), number),
        forall|k: int| 0 <= k < s.len() ==> has_pair_key(put_pair(s, number, id), #[trigger] s[k].0),
        forall|k: int| 0 <= k < put_pair(s, number, id).len() ==> (#[trigger] put_pair(s, number, id)[k]).0 == number
            || (k < s.len() && put_pair(s, number, id)[k] == s[k]),
{
    lemma_pair_pos_range(s, number);
    let r = put_pair(s, number, id);
    let p = pair_pos(s, number);
    if p >= 0 {
        assert(r[p].0 == number);
        assert forall|k: int| 0 <= k < s.len() implies has_pair_key(r, #[trigger] s[k].0) by {
            if k == p {
                assert(r[p].0 == s[k].0);
            } else {
                assert(r[k] == s[k]);
            }
        }
    } else {
        assert(r[s.len() as int].0 == number);
        assert forall|k: int| 0 <= k < s.len() implies has_pair_key(r, #[trigger] s[k].0) by {
            assert(r[k] == s[k]);
        }
    }
}

/// The cumulative map of an edition holds exactly the numbers in force at
/// that edition: every record in force puts its number in, and every
/// number in comes from a record in force.
pub proof fn lemma_cumulative_keys(buf: Seq<EditionRecordView>, composer: Seq<char>, scheme: Seq<char>, e: Seq<char>, m: int)
    requires
        0 <= m <= buf.len(),
    ensures
        forall|i: int| 0 <= i < m && #[trigger] is_in_force(buf, i, composer, scheme, e) ==> has_pair_key(
            cumulative_pairs(buf, composer, scheme, e, m),
            buf[i].number,
        ),
        forall|k: int| 0 <= k < cumulative_pairs(buf, composer, scheme, e, m).len() ==> exists|i: int|
            0 <= i < m && #[trigger] is_in_force(buf, i, composer, scheme, e) && buf[i].number == (
            #[trigger] cumulative_pairs(buf, composer, scheme, e, m)[k]).0,
    decreases m,
{
    if m > 0 {
        lemma_cumulative_keys(buf, composer, scheme, e, m - 1);
        let p = cumulative_pairs(buf, composer, scheme, e, m - 1);
        let r = cumulative_pairs(buf, composer, scheme, e, m);
        if is_in_force(buf, m - 1, composer, scheme, e) {
            lemma_put_pair_keys(p, buf[m - 1].number, buf[m - 1].id);
            assert forall|i: int| 0 <= i < m && #[trigger] is_in_force(buf, i, composer, scheme, e) implies has_pair_key(r, buf[i].number) by {
                if i < m - 1 {
                    let w = choose|w: int| 0 <= w < p.len() && (#[trigger] p[w]).0 == buf[i].number;
                    assert(has_pair_key(r, p[w].0));
                }
            }
            assert forall|k: int| 0 <= k < r.len() implies exists|i: int| 0 <= i < m && #[trigger] is_in_force(buf, i, composer, scheme, e)
                && buf[i].number == (#[trigger] r[k]).0 by {
                if r[k].0 == buf[m - 1].number {
                    assert(is_in_force(buf, m - 1, composer, scheme, e));
                } else {
                    assert(r[k] == p[k]);
                    let i = choose|i: int| 0 <= i < m - 1 && #[trigger] is_in_force(buf, i, composer, scheme, e) && buf[i].number == (
                        #[trigger] p[k]).0;
                    assert(is_in_force(buf, i, composer, scheme, e));
                }
            }
        } else {
            assert forall|k: int| 0 <= k < r.len() implies exists|i: int| 0 <= i < m && #[trigger] is_in_force(buf, i, composer, scheme, e)
                && buf[i].number == (#[trigger] r[k]).0 by {
                let i = choose|i: int| 0 <= i < m - 1 && #[trigger] is_in_force(buf, i, composer, scheme, e) && buf[i].number == (
                    #[trigger] p[k]).0;
                assert(is_in_force(buf, i, composer, scheme, e));
            }
        }
    }
}

/// Editions are cumulative: in a built index, the map of each edition E of
/// a composer's scheme holds exactly the numbers that are in force at E,
/// each composition's number from its entry at the highest edition up to
/// E; a work never renumbered stays in every later edition's map.
pub proof fn lemma_editions_cumulative(docs: Seq<(Seq<char>, Seq<AttributionView>)>, cs: Seq<(Seq<char>, Seq<AttributionView>)>, k: int)
    requires
        0 <= k < built_index(docs, cs).editions.len(),
    ensures
        holds_numbers_in_force(scan_docs(docs, cs).1, built_index(docs, cs).editions[k]),
{
    let buf = scan_docs(docs, cs).1;
    let eds = built_index(docs, cs).editions;
    assert(eds == cumulative_editions(buf));
    let l = sorted_labels(edition_labels(buf))[k];
    let m = eds[k];
    assert(m.composer == l.0 && m.scheme == l.1 && m.edition == l.2);
    let cp = cumulative_pairs(buf, l.0, l.1, l.2, buf.len() as int);
    assert(m.numbers == cp);
    lemma_cumulative_keys(buf, l.0, l.1, l.2, buf.len() as int);
    assert forall|i: int| 0 <= i < buf.len() && #[trigger] is_in_force(buf, i, m.composer, m.scheme, m.edition) implies has_pair_key(
        m.numbers,
        buf[i].number,
    ) by {
        assert(is_in_force(buf, i, l.0, l.1, l.2));
    }
    assert forall|j: int| 0 <= j < m.numbers.len() implies #[trigger] from_force(buf, m, m.numbers[j].0) by {
        assert(m.numbers[j] == cp[j]);
        let i = choose|i: int| 0 <= i < buf.len() && #[trigger] is_in_force(buf, i, l.0, l.1, l.2) && buf[i].number == (#[trigger] cp[j]).0;
        assert(is_in_force(buf, i, m.composer, m.scheme, m.edition));
    }
    assert(holds_numbers_in_force(buf, m));
}

/// Whether an edition map holds exactly the numbers that the records in
/// `buf` have in force at its edition.
pub open spec fn holds_numbers_in_force(buf: Seq<EditionRecordView>, m: EditionMapView) -> bool {
    &&& forall|i: int| 0 <= i < buf.len() && #[trigger] is_in_force(buf, i, m.composer, m.scheme, m.edition)
        ==> has_pair_key(m.numbers, buf[i].number)
    &&& forall|j: int| 0 <= j < m.numbers.len() ==> #[trigger] from_force(buf, m, m.numbers[j].0)
}

/// Whether some record in `buf` has `number` in force at the map's edition.
pub open spec fn from_force(buf: Seq<EditionRecordView>, m: EditionMapView, number: Seq<char>) -> bool {
    exists|i: int| 0 <= i < buf.len() && #[trigger] is_in_force(buf, i, m.composer, m.scheme, m.edition) && buf[i].number == number
}

/// A work recorded once in a composer's scheme, at an edition up to `e`,
/// has that record in force at `e`: its number is inherited into every
/// later edition's map.
pub proof fn lemma_unrenumbered_in_force(buf: Seq<EditionRecordView>, i: int, e: Seq<char>)
    requires
        0 <= i < buf.len(),
        edition_rank(buf[i].edition) <= edition_rank(e),
        forall|j: int| 0 <= j < buf.len() && (#[trigger] buf[j]).composer == buf[i].composer && buf[j].scheme == buf[i].scheme
            && buf[j].id == buf[i].id ==> j == i,
    ensures
        is_in_force(buf, i, buf[i].composer, buf[i].scheme, e),
{
}

/// A record renumbered at a later edition up to `e` is no longer in force
/// at `e`.
pub proof fn lemma_renumbered_not_in_force(buf: Seq<EditionRecordView>, i: int, j: int, e: Seq<char>)
    requires
        0 <= i < buf.len(),
        0 <= j < buf.len(),
        buf[j].composer == buf[i].composer,
        buf[j].scheme == buf[i].scheme,
        buf[j].id == buf[i].id,
        edition_rank(buf[i].edition) < edition_rank(buf[j].edition) <= edition_rank(e),
    ensures
        !is_in_force(buf, i, buf[i].composer, buf[i].scheme, e),
{
    assert(buf[j] == buf[j]);
}

} // verus!
