//! Queries over a built index: one number, a group, a range, an edition, a
//! whole scheme or all of a composer's works.
use crate::catalog::{
    ceiling, deref_def, in_group, key_le, key_less, key_of, key_view, lemma_key_order_strict_total,
    make_inclusive_ceiling, matches_group, normalize_catalog_number, sort_key, sort_numbers, sorted_numbers, strs_view,
    SortValue,
};
use crate::defs::{lookup_def, CatalogDefs};
use crate::index::{
    edition_pos, index_wf, number_pos, numbers_view, pair_pos, pairs_view, scheme_pos, scheme_wf, composer_pos, composers_view, ids_view,
    EditionMap, EditionMapView, Index, IndexView, NumberEntry, NumberEntryView, SchemeIndex, SchemeIndexView,
};
use crate::text::{lower_of, seq_le, str_eq, str_le};
use crate::types::{copy_opt, opt_view, CatalogDefinition};
use vstd::prelude::*;

verus! {

/// One composition a query found.
#[derive(Debug, Clone)]
pub struct QueryResult {
    pub id: String,
    pub number: Option<String>,
    pub superseded: bool,
    pub current_number: Option<String>,
    pub note: Option<String>,
}

/// The view of a `QueryResult`.
pub struct QueryResultView {
    pub id: Seq<char>,
    pub number: Option<Seq<char>>,
    pub superseded: bool,
    pub current_number: Option<Seq<char>>,
    pub note: Option<Seq<char>>,
}

impl View for QueryResult {
    type V = QueryResultView;

    open spec fn view(&self) -> QueryResultView {
        QueryResultView {
            id: self.id@,
            number: opt_view(self.number),
            superseded: self.superseded,
            current_number: opt_view(self.current_number),
            note: opt_view(self.note),
        }
    }
}

pub open spec fn results_view(v: Seq<QueryResult>) -> Seq<QueryResultView> {
    v.map_values(|r: QueryResult| r@)
}

/// What a query asks for.
#[derive(Debug, Clone)]
pub struct Query {
    pub composer: Option<String>,
    pub scheme: Option<String>,
    pub edition: Option<String>,
    pub number: Option<String>,
    pub group: Option<String>,
    pub range_start: Option<String>,
    pub range_end: Option<String>,
    pub sorted: bool,
    pub strict: bool,
}

/// The view of a `Query`.
pub struct QueryView {
    pub composer: Option<Seq<char>>,
    pub scheme: Option<Seq<char>>,
    pub edition: Option<Seq<char>>,
    pub number: Option<Seq<char>>,
    pub group: Option<Seq<char>>,
    pub range_start: Option<Seq<char>>,
    pub range_end: Option<Seq<char>>,
    pub sorted: bool,
    pub strict: bool,
}

impl View for Query {
    type V = QueryView;

    open spec fn view(&self) -> QueryView {
        QueryView {
            composer: opt_view(self.composer),
            scheme: opt_view(self.scheme),
            edition: opt_view(self.edition),
            number: opt_view(self.number),
            group: opt_view(self.group),
            range_start: opt_view(self.range_start),
            range_end: opt_view(self.range_end),
            sorted: self.sorted,
            strict: self.strict,
        }
    }
}

impl Query {
    /// A query that asks for nothing yet.
    pub fn new() -> (r: Query)
        ensures
            r@ == empty_query(),
    {
        Query {
            composer: None,
            scheme: None,
            edition: None,
            number: None,
            group: None,
            range_start: None,
            range_end: None,
            sorted: false,
            strict: false,
        }
    }

    fn copy(&self) -> (r: Query)
        ensures
            r@ == self@,
    {
        Query {
            composer: copy_opt(&self.composer),
            scheme: copy_opt(&self.scheme),
            edition: copy_opt(&self.edition),
            number: copy_opt(&self.number),
            group: copy_opt(&self.group),
            range_start: copy_opt(&self.range_start),
            range_end: copy_opt(&self.range_end),
            sorted: self.sorted,
            strict: self.strict,
        }
    }
}

/// The view of a query that asks for nothing.
pub open spec fn empty_query() -> QueryView {
    QueryView {
        composer: None,
        scheme: None,
        edition: None,
        number: None,
        group: None,
        range_start: None,
        range_end: None,
        sorted: false,
        strict: false,
    }
}

// ---- lookups ------------------------------------------------------------

pub open spec fn scheme_of(idx: IndexView, composer: Seq<char>, scheme: Seq<char>) -> Option<SchemeIndexView> {
    let p = scheme_pos(idx.catalog, composer, scheme);
    if p >= 0 {
        Some(idx.catalog[p])
    } else {
        None
    }
}

pub open spec fn edition_of(idx: IndexView, composer: Seq<char>, scheme: Seq<char>, edition: Seq<char>) -> Option<EditionMapView> {
    let p = edition_pos(idx.editions, composer, scheme, edition);
    if p >= 0 {
        Some(idx.editions[p])
    } else {
        None
    }
}

pub open spec fn number_in(s: Seq<NumberEntryView>, number: Seq<char>) -> Option<NumberEntryView> {
    let p = number_pos(s, number);
    if p >= 0 {
        Some(s[p])
    } else {
        None
    }
}

pub open spec fn id_in(s: Seq<(Seq<char>, Seq<char>)>, number: Seq<char>) -> Option<Seq<char>> {
    let p = pair_pos(s, number);
    if p >= 0 {
        Some(s[p].1)
    } else {
        None
    }
}

/// The number of the first entry of `s` that names composition `id`.
pub open spec fn number_of_id(s: Seq<NumberEntryView>, id: Seq<char>) -> Option<Seq<char>>
    decreases s.len(),
{
    if s.len() == 0 {
        None
    } else {
        let f = number_of_id(s.drop_last(), id);
        if f is Some {
            f
        } else if s.last().id == id {
            Some(s.last().number)
        } else {
            None
        }
    }
}

impl Index {
    /// A query over this index.
    pub fn query(&self) -> (r: QueryBuilder<'_>)
        ensures
            r.index == self,
            r.query@ == empty_query(),
            r.defs is None,
    {
        QueryBuilder::new(self)
    }

    /// The compositions listed under `composer`, in scan order.
    pub fn composer_ids(&self, composer: &str) -> (r: Option<&Vec<String>>)
        ensures
            match r {
                Some(ids) => composer_pos(self@.by_composer, composer@) >= 0
                    && ids_view(ids@) == self@.by_composer[composer_pos(self@.by_composer, composer@)].1,
                None => composer_pos(self@.by_composer, composer@) == -1,
            },
    {
        let ghost v = self@.by_composer;
        let mut i: usize = self.by_composer.len();
        assert(v.subrange(0, i as int) =~= v);
        while i > 0
            invariant
                v == self@.by_composer,
                v == composers_view(self.by_composer@),
                i <= self.by_composer@.len(),
                composer_pos(v, composer@) == composer_pos(v.subrange(0, i as int), composer@),
            decreases i,
        {
            proof {
                let p = v.subrange(0, i as int);
                assert(p.drop_last() =~= v.subrange(0, i - 1));
                assert(p.last() == v[i - 1]);
            }
            if str_eq(self.by_composer[i - 1].0.as_str(), composer) {
                return Some(&self.by_composer[i - 1].1);
            }
            i = i - 1;
        }
        None
    }

    /// The current and superseded numbers of `composer` in `scheme`.
    pub fn scheme_index(&self, composer: &str, scheme: &str) -> (r: Option<&SchemeIndex>)
        ensures
            match r {
                Some(si) => scheme_of(self@, composer@, scheme@) == Some(si@),
                None => scheme_of(self@, composer@, scheme@) is None,
            },
    {
        let ghost v = self@.catalog;
        let mut i: usize = self.catalog.len();
        assert(v.subrange(0, i as int) =~= v);
        while i > 0
            invariant
                v == self@.catalog,
                i <= self.catalog@.len(),
                scheme_pos(v, composer@, scheme@) == scheme_pos(v.subrange(0, i as int), composer@, scheme@),
            decreases i,
        {
            proof {
                let p = v.subrange(0, i as int);
                assert(p.drop_last() =~= v.subrange(0, i - 1));
                assert(p.last() == v[i - 1]);
            }
            let si = &self.catalog[i - 1];
            if str_eq(si.composer.as_str(), composer) && str_eq(si.scheme.as_str(), scheme) {
                return Some(si);
            }
            i = i - 1;
        }
        None
    }

    /// The cumulative map of `composer`'s `scheme` as of `edition`.
    pub fn edition_map(&self, composer: &str, scheme: &str, edition: &str) -> (r: Option<&EditionMap>)
        ensures
            match r {
                Some(m) => edition_of(self@, composer@, scheme@, edition@) == Some(m@),
                None => edition_of(self@, composer@, scheme@, edition@) is None,
            },
    {
        let ghost v = self@.editions;
        let mut i: usize = self.editions.len();
        assert(v.subrange(0, i as int) =~= v);
        while i > 0
            invariant
                v == self@.editions,
                i <= self.editions@.len(),
                edition_pos(v, composer@, scheme@, edition@) == edition_pos(v.subrange(0, i as int), composer@, scheme@, edition@),
            decreases i,
        {
            proof {
                let p = v.subrange(0, i as int);
                assert(p.drop_last() =~= v.subrange(0, i - 1));
                assert(p.last() == v[i - 1]);
            }
            let m = &self.editions[i - 1];
            if str_eq(m.composer.as_str(), composer) && str_eq(m.scheme.as_str(), scheme) && str_eq(m.edition.as_str(), edition) {
                return Some(m);
            }
            i = i - 1;
        }
        None
    }
}

/// The entry that maps `number` in `s`.
pub fn find_number_in<'a>(s: &'a Vec<NumberEntry>, number: &str) -> (r: Option<&'a NumberEntry>)
    ensures
        match r {
            Some(e) => number_in(numbers_view(s@), number@) == Some(e@),
            None => number_in(numbers_view(s@), number@) is None,
        },
{
    let ghost v = numbers_view(s@);
    let mut i: usize = s.len();
    assert(v.subrange(0, i as int) =~= v);
    while i > 0
        invariant
            v == numbers_view(s@),
            i <= s@.len(),
            number_pos(v, number@) == number_pos(v.subrange(0, i as int), number@),
        decreases i,
    {
        proof {
            let p = v.subrange(0, i as int);
            assert(p.drop_last() =~= v.subrange(0, i - 1));
            assert(p.last() == s@[i - 1]@);
        }
        if str_eq(s[i - 1].number.as_str(), number) {
            return Some(&s[i - 1]);
        }
        i = i - 1;
    }
    None
}

impl EditionMap {
    /// The composition that `number` names in this edition.
    pub fn get(&self, number: &str) -> (r: Option<&String>)
        ensures
            match r {
                Some(id) => id_in(self@.numbers, number@) == Some(id@),
                None => id_in(self@.numbers, number@) is None,
            },
    {
        let ghost v = pairs_view(self.numbers@);
        let mut i: usize = self.numbers.len();
        assert(v.subrange(0, i as int) =~= v);
        while i > 0
            invariant
                v == pairs_view(self.numbers@),
                i <= self.numbers@.len(),
                pair_pos(v, number@) == pair_pos(v.subrange(0, i as int), number@),
            decreases i,
        {
            proof {
                let p = v.subrange(0, i as int);
                assert(p.drop_last() =~= v.subrange(0, i - 1));
                assert(p.last() == v[i - 1]);
            }
            if str_eq(self.numbers[i - 1].0.as_str(), number) {
                return Some(&self.numbers[i - 1].1);
            }
            i = i - 1;
        }
        None
    }

    /// Whether `number` is in this edition's map.
    pub fn contains_key(&self, number: &str) -> (r: bool)
        ensures
            r == (id_in(self@.numbers, number@) is Some),
    {
        self.get(number).is_some()
    }
}

impl SchemeIndex {
    /// The composition whose current number is `number`.
    pub fn current_id(&self, number: &str) -> (r: Option<&String>)
        ensures
            match r {
                Some(id) => number_in(self@.current, number@) matches Some(e) && e.id == id@,
                None => number_in(self@.current, number@) is None,
            },
    {
        match find_number_in(&self.current, number) {
            Some(e) => Some(&e.id),
            None => None,
        }
    }

    /// The composition that `number` named before it was superseded.
    pub fn superseded_id(&self, number: &str) -> (r: Option<&String>)
        ensures
            match r {
                Some(id) => number_in(self@.superseded, number@) matches Some(e) && e.id == id@,
                None => number_in(self@.superseded, number@) is None,
            },
    {
        match find_number_in(&self.superseded, number) {
            Some(e) => Some(&e.id),
            None => None,
        }
    }
}

fn number_of_id_exec(s: &Vec<NumberEntry>, id: &str) -> (r: Option<String>)
    ensures
        opt_view(r) == number_of_id(numbers_view(s@), id@),
{
    let ghost v = numbers_view(s@);
    let mut found: Option<String> = None;
    let mut i: usize = 0;
    assert(v.subrange(0, 0) =~= Seq::<NumberEntryView>::empty());
    while i < s.len()
        invariant
            v == numbers_view(s@),
            i <= s@.len(),
            opt_view(found) == number_of_id(v.subrange(0, i as int), id@),
        decreases s@.len() - i,
    {
        proof {
            let p = v.subrange(0, i + 1);
            assert(p.drop_last() =~= v.subrange(0, i as int));
            assert(p.last() == s@[i as int]@);
        }
        if found.is_none() && str_eq(s[i].id.as_str(), id) {
            found = Some(s[i].number.clone());
        }
        i = i + 1;
    }
    assert(v.subrange(0, i as int) =~= v);
    found
}

// ---- what a query returns -----------------------------------------------

/// The single result for composer, scheme and number: from the edition map
/// when an edition is set; else the current number, else (unless strict)
/// the superseded one with the current number of the same composition.
pub open spec fn one_result(idx: IndexView, q: QueryView) -> Option<QueryResultView> {
    match (q.composer, q.scheme, q.number) {
        (Some(c), Some(s), Some(n)) => match q.edition {
            Some(e) => match edition_of(idx, c, s, e) {
                Some(m) => match id_in(m.numbers, n) {
                    Some(id) => Some(QueryResultView { id, number: Some(n), superseded: false, current_number: None, note: None }),
                    None => None,
                },
                None => None,
            },
            None => match scheme_of(idx, c, s) {
                Some(si) => match number_in(si.current, n) {
                    Some(e) => Some(QueryResultView { id: e.id, number: Some(n), superseded: false, current_number: None, note: e.note }),
                    None => if q.strict {
                        None
                    } else {
                        match number_in(si.superseded, n) {
                            Some(e) => Some(QueryResultView {
                                id: e.id,
                                number: Some(n),
                                superseded: true,
                                current_number: number_of_id(si.current, e.id),
                                note: e.note,
                            }),
                            None => None,
                        }
                    },
                },
                None => None,
            },
        },
        _ => None,
    }
}

/// A number the index offers for a scheme-wide query: the number, its
/// composition, whether it is superseded, and its note.
pub struct Candidate {
    pub number: Seq<char>,
    pub id: Seq<char>,
    pub superseded: bool,
    pub note: Option<Seq<char>>,
}

pub open spec fn as_candidates(s: Seq<NumberEntryView>, superseded: bool) -> Seq<Candidate> {
    s.map_values(|e: NumberEntryView| Candidate { number: e.number, id: e.id, superseded, note: e.note })
}

/// The numbers a scheme-wide query starts from: an edition's cumulative
/// map, or the current numbers followed, for an unfiltered and non-strict
/// query, by the superseded ones. `None` when the index has no such map.
pub open spec fn candidates(idx: IndexView, q: QueryView, c: Seq<char>, s: Seq<char>) -> Option<Seq<Candidate>> {
    match q.edition {
        Some(e) => match edition_of(idx, c, s, e) {
            Some(m) => Some(m.numbers.map_values(|p: (Seq<char>, Seq<char>)| Candidate { number: p.0, id: p.1, superseded: false, note: None })),
            None => None,
        },
        None => match scheme_of(idx, c, s) {
            Some(si) => Some(as_candidates(si.current, false) + if q.range_start is None && q.group is None && !q.strict {
                as_candidates(si.superseded, true)
            } else {
                Seq::empty()
            }),
            None => None,
        },
    }
}

/// Whether `k` lies in the inclusive range from `a` to `b`: by sort key, the
/// end widened to the whole group it names, under a definition; by text
/// without one.
pub open spec fn in_range(k: Seq<char>, a: Seq<char>, b: Seq<char>, d: Option<CatalogDefinition>) -> bool {
    match d {
        Some(d) => key_le(key_of(a, d), key_of(k, d)) && key_le(key_of(k, d), ceiling(key_of(b, d))),
        None => seq_le(a, k) && seq_le(k, b),
    }
}

/// The numbers kept: sorted when asked for or when a group or range is set,
/// then filtered by group and by range.
pub open spec fn selected_numbers(q: QueryView, numbers: Seq<Seq<char>>, d: Option<CatalogDefinition>) -> Seq<Seq<char>> {
    let k1 = if q.sorted || q.group is Some || q.range_start is Some {
        sorted_numbers(numbers, d)
    } else {
        numbers
    };
    let k2 = match q.group {
        Some(g) => k1.filter(|k: Seq<char>| in_group(k, g, d)),
        None => k1,
    };
    match (q.range_start, q.range_end) {
        (Some(a), Some(b)) => k2.filter(|k: Seq<char>| in_range(k, a, b, d)),
        _ => k2,
    }
}

/// Position of the first candidate with number `k`; -1 when none.
pub open spec fn candidate_pos(cs: Seq<Candidate>, k: Seq<char>) -> int
    decreases cs.len(),
{
    if cs.len() == 0 {
        -1
    } else {
        let p = candidate_pos(cs.drop_last(), k);
        if p >= 0 {
            p
        } else if cs.last().number == k {
            cs.len() - 1
        } else {
            -1
        }
    }
}

/// One result per kept number, from the first candidate with that number;
/// a superseded one carries the current number of its composition.
pub open spec fn scheme_results(keys: Seq<Seq<char>>, cs: Seq<Candidate>, current: Seq<NumberEntryView>) -> Seq<QueryResultView>
    decreases keys.len(),
{
    if keys.len() == 0 {
        Seq::empty()
    } else {
        let r = scheme_results(keys.drop_last(), cs, current);
        let p = candidate_pos(cs, keys.last());
        if p >= 0 {
            r.push(QueryResultView {
                id: cs[p].id,
                number: Some(keys.last()),
                superseded: cs[p].superseded,
                current_number: if cs[p].superseded { number_of_id(current, cs[p].id) } else { None },
                note: cs[p].note,
            })
        } else {
            r
        }
    }
}

pub open spec fn defn_for(defs: Option<&CatalogDefs>, c: Seq<char>, s: Seq<char>) -> Option<CatalogDefinition> {
    match defs {
        Some(ds) => lookup_def(ds@, s, Some(c)),
        None => None,
    }
}

/// The results of a scheme-wide query of composer `c` and scheme `s`.
pub open spec fn by_scheme(idx: IndexView, q: QueryView, c: Seq<char>, s: Seq<char>, d: Option<CatalogDefinition>) -> Seq<QueryResultView> {
    match candidates(idx, q, c, s) {
        None => Seq::empty(),
        Some(cs) => scheme_results(
            selected_numbers(q, cs.map_values(|x: Candidate| x.number), d),
            cs,
            match scheme_of(idx, c, s) {
                Some(si) => si.current,
                None => Seq::empty(),
            },
        ),
    }
}

/// Every composition listed under composer `c`, in scan order.
pub open spec fn by_composer(idx: IndexView, c: Seq<char>) -> Seq<QueryResultView> {
    let p = composer_pos(idx.by_composer, c);
    if p >= 0 {
        idx.by_composer[p].1.map_values(|id: Seq<char>| QueryResultView { id, number: None, superseded: false, current_number: None, note: None })
    } else {
        Seq::empty()
    }
}

/// The results of a query: the single result for a number, or else the
/// number read as a group; a scheme-wide listing; or a composer's works.
pub open spec fn query_results(idx: IndexView, q: QueryView, defs: Option<&CatalogDefs>) -> Seq<QueryResultView> {
    match (q.composer, q.scheme, q.number) {
        (Some(c), Some(s), Some(n)) => match one_result(idx, q) {
            Some(r) => seq![r],
            None => by_scheme(idx, QueryView { number: None, group: Some(n), ..q }, c, s, defn_for(defs, c, s)),
        },
        (Some(c), Some(s), None) => by_scheme(idx, q, c, s, defn_for(defs, c, s)),
        (Some(c), None, None) => by_composer(idx, c),
        _ => Seq::empty(),
    }
}

pub open spec fn cand_view(c: (String, String, bool, Option<String>)) -> Candidate {
    Candidate { number: c.0@, id: c.1@, superseded: c.2, note: opt_view(c.3) }
}

fn push_candidates(cands: &mut Vec<(String, String, bool, Option<String>)>, s: &Vec<NumberEntry>, superseded: bool)
    ensures
        final(cands)@.map_values(|c: (String, String, bool, Option<String>)| cand_view(c))
            == old(cands)@.map_values(|c: (String, String, bool, Option<String>)| cand_view(c)) + as_candidates(numbers_view(s@), superseded),
{
    let ghost start = cands@.map_values(|c: (String, String, bool, Option<String>)| cand_view(c));
    let ghost n0 = cands@.len();
    let mut i: usize = 0;
    while i < s.len()
        invariant
            i <= s@.len(),
            cands@.len() == n0 + i,
            forall|k: int| 0 <= k < n0 ==> cand_view(#[trigger] cands@[k]) == start[k],
            start.len() == n0,
            forall|k: int| 0 <= k < i ==> cand_view(#[trigger] cands@[n0 + k]) == (Candidate {
                number: s@[k].number@,
                id: s@[k].id@,
                superseded,
                note: opt_view(s@[k].note),
            }),
        decreases s@.len() - i,
    {
        cands.push((s[i].number.clone(), s[i].id.clone(), superseded, copy_opt(&s[i].note)));
        proof {
            assert(cands@[n0 + i] == cands@.last());
        }
        i = i + 1;
    }
    proof {
        let r = cands@.map_values(|c: (String, String, bool, Option<String>)| cand_view(c));
        let t = start + as_candidates(numbers_view(s@), superseded);
        assert forall|k: int| 0 <= k < r.len() implies r[k] == t[k] by {
            if k >= n0 {
                assert(cand_view(cands@[n0 + (k - n0)]) == r[k]);
            }
        }
        assert(r =~= t);
    }
}

fn first_candidate(cands: &Vec<(String, String, bool, Option<String>)>, k: &str) -> (r: Option<usize>)
    ensures
        match r {
            Some(p) => p < cands@.len() && p as int == candidate_pos(cands@.map_values(|c: (String, String, bool, Option<String>)| cand_view(c)), k@),
            None => candidate_pos(cands@.map_values(|c: (String, String, bool, Option<String>)| cand_view(c)), k@) == -1,
        },
{
    let ghost cs = cands@.map_values(|c: (String, String, bool, Option<String>)| cand_view(c));
    let mut found: Option<usize> = None;
    let mut i: usize = 0;
    assert(cs.subrange(0, 0) =~= Seq::<Candidate>::empty());
    while i < cands.len()
        invariant
            cs == cands@.map_values(|c: (String, String, bool, Option<String>)| cand_view(c)),
            i <= cands@.len(),
            match found {
                Some(p) => p < i && p as int == candidate_pos(cs.subrange(0, i as int), k@),
                None => candidate_pos(cs.subrange(0, i as int), k@) == -1,
            },
        decreases cands@.len() - i,
    {
        proof {
            let p = cs.subrange(0, i + 1);
            assert(p.drop_last() =~= cs.subrange(0, i as int));
            assert(p.last() == cand_view(cands@[i as int]));
        }
        if found.is_none() && str_eq(cands[i].0.as_str(), k) {
            found = Some(i);
        }
        i = i + 1;
    }
    assert(cs.subrange(0, i as int) =~= cs);
    found
}

fn filter_group(keys: Vec<String>, g: &str, defn: Option<&CatalogDefinition>) -> (r: Vec<String>)
    ensures
        strs_view(r@) == strs_view(keys@).filter(|k: Seq<char>| in_group(k, g@, deref_def(defn))),
{
    let ghost kv = strs_view(keys@);
    let mut out: Vec<String> = Vec::new();
    let mut i: usize = 0;
    proof {
        reveal_with_fuel(Seq::<Seq<char>>::filter, 1);
        assert(kv.subrange(0, 0) =~= Seq::<Seq<char>>::empty());
    }
    while i < keys.len()
        invariant
            kv == strs_view(keys@),
            i <= keys@.len(),
            strs_view(out@) == kv.subrange(0, i as int).filter(|k: Seq<char>| in_group(k, g@, deref_def(defn))),
        decreases keys@.len() - i,
    {
        proof {
            reveal_with_fuel(Seq::<Seq<char>>::filter, 1);
            let p = kv.subrange(0, i + 1);
            assert(p.drop_last() =~= kv.subrange(0, i as int));
            assert(p.last() == keys@[i as int]@);
        }
        if matches_group(keys[i].as_str(), g, defn) {
            let ghost before = strs_view(out@);
            out.push(keys[i].clone());
            assert(strs_view(out@) =~= before.push(keys@[i as int]@));
        }
        i = i + 1;
    }
    assert(kv.subrange(0, i as int) =~= kv);
    out
}

fn key_at_most(a: &Vec<SortValue>, b: &Vec<SortValue>) -> (r: bool)
    ensures
        r == key_le(key_view(a@), key_view(b@)),
{
    proof {
        lemma_key_order_strict_total(key_view(a@), key_view(b@), key_view(b@));
        lemma_key_order_strict_total(key_view(b@), key_view(a@), key_view(a@));
    }
    !key_less(b.as_slice(), a.as_slice())
}

fn filter_range(keys: Vec<String>, start: &str, end: &str, defn: Option<&CatalogDefinition>) -> (r: Vec<String>)
    ensures
        strs_view(r@) == strs_view(keys@).filter(|k: Seq<char>| in_range(k, start@, end@, deref_def(defn))),
{
    let ghost kv = strs_view(keys@);
    let bounds = match defn {
        Some(d) => Some((sort_key(start, d), make_inclusive_ceiling(sort_key(end, d)))),
        None => None,
    };
    let mut out: Vec<String> = Vec::new();
    let mut i: usize = 0;
    proof {
        reveal_with_fuel(Seq::<Seq<char>>::filter, 1);
        assert(kv.subrange(0, 0) =~= Seq::<Seq<char>>::empty());
    }
    while i < keys.len()
        invariant
            kv == strs_view(keys@),
            i <= keys@.len(),
            match (defn, bounds) {
                (Some(d), Some(b)) => key_view(b.0@) == key_of(start@, *d) && key_view(b.1@) == ceiling(key_of(end@, *d)),
                (None, None) => true,
                _ => false,
            },
            strs_view(out@) == kv.subrange(0, i as int).filter(|k: Seq<char>| in_range(k, start@, end@, deref_def(defn))),
        decreases keys@.len() - i,
    {
        proof {
            reveal_with_fuel(Seq::<Seq<char>>::filter, 1);
            let p = kv.subrange(0, i + 1);
            assert(p.drop_last() =~= kv.subrange(0, i as int));
            assert(p.last() == keys@[i as int]@);
        }
        let keep = match (defn, &bounds) {
            (Some(d), Some(b)) => {
                let kk = sort_key(keys[i].as_str(), d);
                key_at_most(&b.0, &kk) && key_at_most(&kk, &b.1)
            },
            _ => str_le(start, keys[i].as_str()) && str_le(keys[i].as_str(), end),
        };
        if keep {
            let ghost before = strs_view(out@);
            out.push(keys[i].clone());
            assert(strs_view(out@) =~= before.push(keys@[i as int]@));
        }
        i = i + 1;
    }
    assert(kv.subrange(0, i as int) =~= kv);
    out
}

fn select_numbers(q: &Query, keys: Vec<String>, defn: Option<&CatalogDefinition>) -> (r: Vec<String>)
    ensures
        strs_view(r@) == selected_numbers(q@, strs_view(keys@), deref_def(defn)),
{
    let mut keys = keys;
    if q.sorted || q.group.is_some() || q.range_start.is_some() {
        sort_numbers(&mut keys, defn);
    }
    let keys = match &q.group {
        Some(g) => filter_group(keys, g.as_str(), defn),
        None => keys,
    };
    match (&q.range_start, &q.range_end) {
        (Some(a), Some(b)) => filter_range(keys, a.as_str(), b.as_str(), defn),
        _ => keys,
    }
}

/// The row a scheme listing gives for one candidate.
pub open spec fn candidate_row(x: Candidate, current: Seq<NumberEntryView>) -> QueryResultView {
    QueryResultView {
        id: x.id,
        number: Some(x.number),
        superseded: x.superseded,
        current_number: if x.superseded { number_of_id(current, x.id) } else { None },
        note: x.note,
    }
}

pub open spec fn unique_candidates(cs: Seq<Candidate>) -> bool {
    forall|i: int, j: int| 0 <= i < j < cs.len() ==> #[trigger] cs[i].number != #[trigger] cs[j].number
}

proof fn lemma_candidate_pos(cs: Seq<Candidate>, n: Seq<char>)
    ensures
        -1 <= candidate_pos(cs, n) < cs.len(),
        candidate_pos(cs, n) >= 0 ==> cs[candidate_pos(cs, n)].number == n,
        candidate_pos(cs, n) == -1 ==> forall|i: int| 0 <= i < cs.len() ==> #[trigger] cs[i].number != n,
    decreases cs.len(),
{
    if cs.len() > 0 {
        lemma_candidate_pos(cs.drop_last(), n);
        if candidate_pos(cs, n) == -1 {
            assert forall|i: int| 0 <= i < cs.len() implies #[trigger] cs[i].number != n by {
                if i < cs.len() - 1 {
                    assert(cs[i] == cs.drop_last()[i]);
                }
            }
        } else if candidate_pos(cs.drop_last(), n) >= 0 {
            assert(cs[candidate_pos(cs, n)] == cs.drop_last()[candidate_pos(cs, n)]);
        }
    }
}

proof fn lemma_candidate_pos_unique(cs: Seq<Candidate>, k: int)
    requires
        unique_candidates(cs),
        0 <= k < cs.len(),
    ensures
        candidate_pos(cs, cs[k].number) == k,
    decreases cs.len(),
{
    let u = cs.drop_last();
    assert forall|i: int, j: int| 0 <= i < j < u.len() implies #[trigger] u[i].number != #[trigger] u[j].number by {
        assert(u[i] == cs[i] && u[j] == cs[j]);
    }
    if k == cs.len() - 1 {
        lemma_candidate_pos(u, cs[k].number);
        if candidate_pos(u, cs[k].number) >= 0 {
            let p = candidate_pos(u, cs[k].number);
            assert(u[p] == cs[p]);
            assert(cs[p].number != cs[k].number);
        }
    } else {
        assert(u[k] == cs[k]);
        lemma_candidate_pos_unique(u, k);
    }
}

proof fn lemma_rows(cs: Seq<Candidate>, current: Seq<NumberEntryView>, m: int)
    requires
        unique_candidates(cs),
        0 <= m <= cs.len(),
    ensures
        scheme_results(cs.map_values(|x: Candidate| x.number).subrange(0, m), cs, current)
            == cs.subrange(0, m).map_values(|x: Candidate| candidate_row(x, current)),
    decreases m,
{
    let keys = cs.map_values(|x: Candidate| x.number);
    if m == 0 {
        assert(keys.subrange(0, 0) =~= Seq::<Seq<char>>::empty());
        assert(cs.subrange(0, 0).map_values(|x: Candidate| candidate_row(x, current)) =~= Seq::<QueryResultView>::empty());
    } else {
        lemma_rows(cs, current, m - 1);
        assert(keys.subrange(0, m).drop_last() =~= keys.subrange(0, m - 1));
        assert(keys.subrange(0, m).last() == cs[m - 1].number);
        lemma_candidate_pos_unique(cs, m - 1);
        assert(cs.subrange(0, m).map_values(|x: Candidate| candidate_row(x, current))
            =~= cs.subrange(0, m - 1).map_values(|x: Candidate| candidate_row(x, current)).push(candidate_row(cs[m - 1], current)));
    }
}

/// On a well-formed index, an unsorted and unfiltered listing of a scheme
/// gives one row per candidate, in order: each current number, then (unless
/// strict) each superseded one with the current number of its composition.
pub proof fn lemma_scheme_listing(idx: IndexView, q: QueryView, c: Seq<char>, s: Seq<char>, d: Option<CatalogDefinition>)
    requires
        index_wf(idx),
        q.edition is None,
        q.group is None,
        q.range_start is None,
        !q.sorted,
        scheme_of(idx, c, s) is Some,
    ensures
        by_scheme(idx, q, c, s, d) == candidates(idx, q, c, s)->0.map_values(
            |x: Candidate| candidate_row(x, scheme_of(idx, c, s)->0.current),
        ),
{
    let si = scheme_of(idx, c, s)->0;
    let p = scheme_pos(idx.catalog, c, s);
    crate::index::lemma_scheme_pos_range(idx.catalog, c, s);
    assert(si == idx.catalog[p]);
    assert(scheme_wf(si));
    let cs = candidates(idx, q, c, s)->0;
    let a = as_candidates(si.current, false);
    let b = if !q.strict { as_candidates(si.superseded, true) } else { Seq::empty() };
    assert(cs == a + b);
    assert forall|i: int, j: int| 0 <= i < j < cs.len() implies #[trigger] cs[i].number != #[trigger] cs[j].number by {
        if j < a.len() {
            assert(cs[i].number == si.current[i].number && cs[j].number == si.current[j].number);
        } else if i >= a.len() {
            assert(cs[i].number == si.superseded[i - a.len()].number && cs[j].number == si.superseded[j - a.len()].number);
        } else {
            assert(cs[i].number == si.current[i].number && cs[j].number == si.superseded[j - a.len()].number);
        }
    }
    lemma_rows(cs, si.current, cs.len() as int);
    let keys = cs.map_values(|x: Candidate| x.number);
    assert(keys.subrange(0, cs.len() as int) =~= keys);
    assert(cs.subrange(0, cs.len() as int) =~= cs);
    assert(selected_numbers(q, keys, d) == keys);
}

/// A query being built over an index.
pub struct QueryBuilder<'a> {
    pub index: &'a Index,
    pub query: Query,
    pub defs: Option<&'a CatalogDefs>,
}

impl<'a> QueryBuilder<'a> {
    /// A query over `index` that asks for nothing yet.
    pub fn new(index: &'a Index) -> (r: Self)
        ensures
            r.index == index,
            r.query@ == empty_query(),
            r.defs is None,
    {
        QueryBuilder { index, query: Query::new(), defs: None }
    }

    /// Asks for works of composer `c`.
    pub fn composer(self, c: &str) -> (r: Self)
        ensures
            r.index == self.index,
            r.defs == self.defs,
            r.query@ == (QueryView { composer: Some(c@), ..self.query@ }),
    {
        let mut this = self;
        this.query.composer = Some(c.to_owned());
        this
    }

    /// Restricts to catalog scheme `s`.
    pub fn scheme(self, s: &str) -> (r: Self)
        ensures
            r.index == self.index,
            r.defs == self.defs,
            r.query@ == (QueryView { scheme: Some(s@), ..self.query@ }),
    {
        let mut this = self;
        this.query.scheme = Some(s.to_owned());
        this
    }

    /// Reads numbers as of edition `e`.
    pub fn edition(self, e: &str) -> (r: Self)
        ensures
            r.index == self.index,
            r.defs == self.defs,
            r.query@ == (QueryView { edition: Some(e@), ..self.query@ }),
    {
        let mut this = self;
        this.query.edition = Some(e.to_owned());
        this
    }

    /// Asks for catalog number `n`, in the lower case the index stores.
    pub fn number(self, n: &str) -> (r: Self)
        ensures
            r.index == self.index,
            r.defs == self.defs,
            r.query@ == (QueryView { number: Some(lower_of(n@)), ..self.query@ }),
    {
        let mut this = self;
        this.query.number = Some(normalize_catalog_number(n));
        this
    }

    /// Keeps the numbers of group `g`.
    pub fn group(self, g: &str) -> (r: Self)
        ensures
            r.index == self.index,
            r.defs == self.defs,
            r.query@ == (QueryView { group: Some(g@), ..self.query@ }),
    {
        let mut this = self;
        this.query.group = Some(g.to_owned());
        this
    }

    /// Keeps the numbers from `start` to `end`, both included.
    pub fn range(self, start: &str, end: &str) -> (r: Self)
        ensures
            r.index == self.index,
            r.defs == self.defs,
            r.query@ == (QueryView { range_start: Some(start@), range_end: Some(end@), ..self.query@ }),
    {
        let mut this = self;
        this.query.range_start = Some(start.to_owned());
        this.query.range_end = Some(end.to_owned());
        this
    }

    /// Orders results by sort key, under the catalog definitions given.
    pub fn sorted(self, catalogs: &'a CatalogDefs) -> (r: Self)
        ensures
            r.index == self.index,
            r.defs == Some(catalogs),
            r.query@ == (QueryView { sorted: true, ..self.query@ }),
    {
        let mut this = self;
        this.query.sorted = true;
        this.defs = Some(catalogs);
        this
    }

    /// Whether superseded numbers are left out everywhere.
    pub fn strict(self, s: bool) -> (r: Self)
        ensures
            r.index == self.index,
            r.defs == self.defs,
            r.query@ == (QueryView { strict: s, ..self.query@ }),
    {
        let mut this = self;
        this.query.strict = s;
        this
    }

    /// The catalog definitions of the data directory, used for ordering,
    /// groups and ranges.
    pub fn data_dir(self, catalogs: &'a CatalogDefs) -> (r: Self)
        ensures
            r.index == self.index,
            r.defs == Some(catalogs),
            r.query@ == self.query@,
    {
        let mut this = self;
        this.defs = Some(catalogs);
        this
    }

    /// The composition that composer, scheme and number name, if any.
    pub fn fetch_one(&self) -> (r: Option<String>)
        requires
            self.index.wf(),
        ensures
            match one_result(self.index@, self.query@) {
                Some(x) => r matches Some(id) && id@ == x.id,
                None => r is None,
            },
    {
        match self.fetch_one_with_info() {
            Some(x) => Some(x.id),
            None => None,
        }
    }

    fn fetch_one_with_info(&self) -> (r: Option<QueryResult>)
        ensures
            match r {
                Some(x) => one_result(self.index@, self.query@) == Some(x@),
                None => one_result(self.index@, self.query@) is None,
            },
    {
        let composer = match &self.query.composer {
            Some(c) => c,
            None => return None,
        };
        let scheme = match &self.query.scheme {
            Some(s) => s,
            None => return None,
        };
        let number = match &self.query.number {
            Some(n) => n,
            None => return None,
        };
        if let Some(edition) = &self.query.edition {
            let m = match self.index.edition_map(composer.as_str(), scheme.as_str(), edition.as_str()) {
                Some(m) => m,
                None => return None,
            };
            return match m.get(number.as_str()) {
                Some(id) => Some(QueryResult {
                    id: id.clone(),
                    number: Some(number.clone()),
                    superseded: false,
                    current_number: None,
                    note: None,
                }),
                None => None,
            };
        }
        let si = match self.index.scheme_index(composer.as_str(), scheme.as_str()) {
            Some(si) => si,
            None => return None,
        };
        if let Some(e) = find_number_in(&si.current, number.as_str()) {
            return Some(QueryResult {
                id: e.id.clone(),
                number: Some(number.clone()),
                superseded: false,
                current_number: None,
                note: copy_opt(&e.note),
            });
        }
        if self.query.strict {
            return None;
        }
        match find_number_in(&si.superseded, number.as_str()) {
            Some(e) => {
                let current_number = number_of_id_exec(&si.current, e.id.as_str());
                Some(QueryResult {
                    id: e.id.clone(),
                    number: Some(number.clone()),
                    superseded: true,
                    current_number,
                    note: copy_opt(&e.note),
                })
            },
            None => None,
        }
    }

    /// The results of the query: for composer, scheme and number the single
    /// match, or else the number read as a group; for composer and scheme
    /// the scheme's numbers, filtered and ordered; for a composer alone all
    /// of its works; nothing otherwise.
    pub fn fetch(&self) -> (r: Vec<QueryResult>)
        requires
            self.index.wf(),
        ensures
            results_view(r@) == query_results(self.index@, self.query@, self.defs),
    {
        match (&self.query.composer, &self.query.scheme, &self.query.number) {
            (Some(composer), Some(scheme), Some(number)) => {
                match self.fetch_one_with_info() {
                    Some(x) => {
                        let r = vec![x];
                        assert(results_view(r@) =~= seq![r@[0]@]);
                        r
                    },
                    None => {
                        let mut query = self.query.copy();
                        query.number = None;
                        query.group = Some(number.clone());
                        let builder = QueryBuilder { index: self.index, query, defs: self.defs };
                        builder.fetch_by_scheme(composer.as_str(), scheme.as_str())
                    },
                }
            },
            (Some(composer), Some(scheme), None) => self.fetch_by_scheme(composer.as_str(), scheme.as_str()),
            (Some(composer), None, None) => self.fetch_by_composer(composer.as_str()),
            _ => {
                let r: Vec<QueryResult> = Vec::new();
                assert(results_view(r@) =~= Seq::<QueryResultView>::empty());
                r
            },
        }
    }

    fn fetch_by_composer(&self, composer: &str) -> (r: Vec<QueryResult>)
        ensures
            results_view(r@) == by_composer(self.index@, composer@),
    {
        let mut out: Vec<QueryResult> = Vec::new();
        match self.index.composer_ids(composer) {
            None => {
                assert(results_view(out@) =~= Seq::<QueryResultView>::empty());
            },
            Some(ids) => {
                let mut i: usize = 0;
                while i < ids.len()
                    invariant
                        i <= ids@.len(),
                        out@.len() == i,
                        forall|k: int| 0 <= k < i ==> (#[trigger] out@[k])@ == (QueryResultView {
                            id: ids@[k]@,
                            number: None,
                            superseded: false,
                            current_number: None,
                            note: None,
                        }),
                    decreases ids@.len() - i,
                {
                    out.push(QueryResult { id: ids[i].clone(), number: None, superseded: false, current_number: None, note: None });
                    i = i + 1;
                }
                proof {
                    let p = composer_pos(self.index@.by_composer, composer@);
                    assert(ids_view(ids@) == self.index@.by_composer[p].1);
                    assert(results_view(out@) =~= by_composer(self.index@, composer@));
                }
            },
        }
        out
    }

    fn fetch_by_scheme(&self, composer: &str, scheme: &str) -> (r: Vec<QueryResult>)
        ensures
            results_view(r@) == by_scheme(self.index@, self.query@, composer@, scheme@, defn_for(self.defs, composer@, scheme@)),
    {
        let ghost q = self.query@;
        let ghost idx = self.index@;
        let filtered = self.query.range_start.is_some() || self.query.group.is_some();
        let mut cands: Vec<(String, String, bool, Option<String>)> = Vec::new();
        let si_opt = self.index.scheme_index(composer, scheme);
        if let Some(edition) = &self.query.edition {
            match self.index.edition_map(composer, scheme, edition.as_str()) {
                None => {
                    let r: Vec<QueryResult> = Vec::new();
                    assert(results_view(r@) =~= Seq::<QueryResultView>::empty());
                    return r;
                },
                Some(m) => {
                    let mut i: usize = 0;
                    while i < m.numbers.len()
                        invariant
                            i <= m.numbers@.len(),
                            cands@.len() == i,
                            forall|k: int| 0 <= k < i ==> cand_view(#[trigger] cands@[k]) == (Candidate {
                                number: m.numbers@[k].0@,
                                id: m.numbers@[k].1@,
                                superseded: false,
                                note: None,
                            }),
                        decreases m.numbers@.len() - i,
                    {
                        cands.push((m.numbers[i].0.clone(), m.numbers[i].1.clone(), false, None));
                        i = i + 1;
                    }
                    proof {
                        assert(cands@.map_values(|c: (String, String, bool, Option<String>)| cand_view(c)) =~= candidates(idx, q, composer@, scheme@)->0);
                    }
                },
            }
        } else {
            match si_opt {
                None => {
                    let r: Vec<QueryResult> = Vec::new();
                    assert(results_view(r@) =~= Seq::<QueryResultView>::empty());
                    return r;
                },
                Some(si) => {
                    push_candidates(&mut cands, &si.current, false);
                    if !filtered && !self.query.strict {
                        push_candidates(&mut cands, &si.superseded, true);
                        assert(cands@.map_values(|c: (String, String, bool, Option<String>)| cand_view(c))
                            =~= candidates(idx, q, composer@, scheme@)->0);
                    } else {
                        assert(cands@.map_values(|c: (String, String, bool, Option<String>)| cand_view(c))
                            =~= candidates(idx, q, composer@, scheme@)->0);
                    }
                },
            }
        }
        let ghost cs = cands@.map_values(|c: (String, String, bool, Option<String>)| cand_view(c));
        assert(candidates(idx, q, composer@, scheme@) == Some(cs));
        let mut keys: Vec<String> = Vec::new();
        let mut i: usize = 0;
        while i < cands.len()
            invariant
                i <= cands@.len(),
                keys@.len() == i,
                forall|k: int| 0 <= k < i ==> (#[trigger] keys@[k])@ == cands@[k].0@,
            decreases cands@.len() - i,
        {
            keys.push(cands[i].0.clone());
            i = i + 1;
        }
        assert(strs_view(keys@) =~= cs.map_values(|x: Candidate| x.number));
        let defn: Option<&CatalogDefinition> = match self.defs {
            Some(ds) => ds.get(scheme, Some(composer)),
            None => None,
        };
        let ghost d = deref_def(defn);
        assert(d == defn_for(self.defs, composer@, scheme@));
        let keys = select_numbers(&self.query, keys, defn);
        let ghost current = match scheme_of(idx, composer@, scheme@) {
            Some(si) => si.current,
            None => Seq::<NumberEntryView>::empty(),
        };
        let mut out: Vec<QueryResult> = Vec::new();
        let mut k: usize = 0;
        let ghost kv = strs_view(keys@);
        assert(kv.subrange(0, 0) =~= Seq::<Seq<char>>::empty());
        while k < keys.len()
            invariant
                kv == strs_view(keys@),
                cs == cands@.map_values(|c: (String, String, bool, Option<String>)| cand_view(c)),
                k <= keys@.len(),
                match si_opt {
                    Some(si) => current == numbers_view(si.current@),
                    None => current == Seq::<NumberEntryView>::empty(),
                },
                results_view(out@) == scheme_results(kv.subrange(0, k as int), cs, current),
            decreases keys@.len() - k,
        {
            proof {
                let p = kv.subrange(0, k + 1);
                assert(p.drop_last() =~= kv.subrange(0, k as int));
                assert(p.last() == keys@[k as int]@);
            }
            match first_candidate(&cands, keys[k].as_str()) {
                None => {},
                Some(p) => {
                    let c = &cands[p];
                    let current_number = if c.2 {
                        match si_opt {
                            Some(si) => number_of_id_exec(&si.current, c.1.as_str()),
                            None => None,
                        }
                    } else {
                        None
                    };
                    let ghost before = results_view(out@);
                    out.push(QueryResult {
                        id: c.1.clone(),
                        number: Some(keys[k].clone()),
                        superseded: c.2,
                        current_number,
                        note: copy_opt(&c.3),
                    });
                    assert(results_view(out@) =~= before.push(out@[out@.len() - 1]@));
                },
            }
            k = k + 1;
        }
        assert(kv.subrange(0, k as int) =~= kv);
        out
    }

    /// How many results `fetch` returns.
    pub fn count(&self) -> (r: usize)
        requires
            self.index.wf(),
        ensures
            r == query_results(self.index@, self.query@, self.defs).len(),
    {
        self.fetch().len()
    }

    /// Whether `fetch_one` finds a composition.
    pub fn exists_match(&self) -> (r: bool)
        requires
            self.index.wf(),
        ensures
            r == (one_result(self.index@, self.query@) is Some),
    {
        self.fetch_one().is_some()
    }
}

} // verus!
