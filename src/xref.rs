//! Cross-references to an outside work database: how numbers are written
//! for its lookups, and which of its IDs a batch of lookups hit twice.
use crate::index::{composer_pos, composers_view, ids_view};
use crate::text::{str_eq, uppercase, upper_of};
use crate::types::opt_view;
use vstd::prelude::*;

verus! {

/// What a lookup found for one catalog number.
#[derive(Debug, Clone)]
pub struct MbLookupResult {
    pub catalog_number: String,
    pub mb_id: Option<String>,
    pub mb_title: Option<String>,
}

/// Totals of a batch of lookups.
#[derive(Debug, Clone)]
pub struct XrefStats {
    pub matched: usize,
    pub not_found: usize,
    pub duplicates: Vec<(String, Vec<String>)>,
}

/// The catalog numbers found for each outside ID, IDs in order of first
/// hit, the first `n` results read.
pub open spec fn hits(results: Seq<MbLookupResult>, n: int) -> Seq<(Seq<char>, Seq<Seq<char>>)>
    decreases n,
{
    if n <= 0 {
        Seq::empty()
    } else {
        let g = hits(results, n - 1);
        let r = results[n - 1];
        match r.mb_id {
            None => g,
            Some(m) => {
                let p = composer_pos(g, m@);
                if p >= 0 {
                    g.update(p, (m@, g[p].1.push(r.catalog_number@)))
                } else {
                    g.push((m@, seq![r.catalog_number@]))
                }
            },
        }
    }
}

/// The outside IDs that more than one catalog number hit, with those
/// numbers.
pub open spec fn duplicate_hits(results: Seq<MbLookupResult>) -> Seq<(Seq<char>, Seq<Seq<char>>)> {
    hits(results, results.len() as int).filter(|g: (Seq<char>, Seq<Seq<char>>)| g.1.len() > 1)
}

proof fn lemma_composer_pos_range(s: Seq<(Seq<char>, Seq<Seq<char>>)>, k: Seq<char>)
    ensures
        -1 <= composer_pos(s, k) < s.len(),
        composer_pos(s, k) >= 0 ==> s[composer_pos(s, k)].0 == k,
    decreases s.len(),
{
    if s.len() > 0 {
        lemma_composer_pos_range(s.drop_last(), k);
    }
}

fn group_pos(g: &Vec<(String, Vec<String>)>, key: &str) -> (r: Option<usize>)
    ensures
        match r {
            Some(i) => i as int == composer_pos(composers_view(g@), key@),
            None => composer_pos(composers_view(g@), key@) == -1,
        },
{
    let ghost v = composers_view(g@);
    let mut i: usize = g.len();
    assert(v.subrange(0, i as int) =~= v);
    while i > 0
        invariant
            v == composers_view(g@),
            i <= g@.len(),
            composer_pos(v, key@) == composer_pos(v.subrange(0, i as int), key@),
        decreases i,
    {
        proof {
            let p = v.subrange(0, i as int);
            assert(p.drop_last() =~= v.subrange(0, i - 1));
            assert(p.last() == v[i - 1]);
        }
        if str_eq(g[i - 1].0.as_str(), key) {
            return Some(i - 1);
        }
        i = i - 1;
    }
    None
}

/// The outside IDs that several catalog numbers of the batch were matched
/// to, each with those numbers in batch order.
pub fn check_duplicates(results: &[MbLookupResult]) -> (r: Vec<(String, Vec<String>)>)
    ensures
        composers_view(r@) == duplicate_hits(results@),
{
    let mut groups: Vec<(String, Vec<String>)> = Vec::new();
    let mut i: usize = 0;
    assert(composers_view(groups@) =~= Seq::<(Seq<char>, Seq<Seq<char>>)>::empty());
    while i < results.len()
        invariant
            i <= results@.len(),
            composers_view(groups@) == hits(results@, i as int),
        decreases results@.len() - i,
    {
        let r = &results[i];
        if let Some(m) = &r.mb_id {
            proof {
                lemma_composer_pos_range(composers_view(groups@), m@);
            }
            let ghost before = composers_view(groups@);
            match group_pos(&groups, m.as_str()) {
                Some(p) => {
                    let mut entry = groups.remove(p);
                    let ghost ids0 = ids_view(entry.1@);
                    entry.1.push(r.catalog_number.clone());
                    assert(ids_view(entry.1@) =~= ids0.push(r.catalog_number@));
                    groups.insert(p, entry);
                    assert(composers_view(groups@) =~= before.update(p as int, (m@, before[p as int].1.push(r.catalog_number@))));
                },
                None => {
                    let nums = vec![r.catalog_number.clone()];
                    assert(ids_view(nums@) =~= seq![r.catalog_number@]);
                    groups.push((m.clone(), nums));
                    assert(composers_view(groups@) =~= before.push((m@, seq![r.catalog_number@])));
                },
            }
        }
        i = i + 1;
    }
    let ghost gv = composers_view(groups@);
    let mut out: Vec<(String, Vec<String>)> = Vec::new();
    let mut k: usize = 0;
    proof {
        reveal_with_fuel(Seq::<(Seq<char>, Seq<Seq<char>>)>::filter, 1);
        assert(gv.subrange(0, 0) =~= Seq::<(Seq<char>, Seq<Seq<char>>)>::empty());
    }
    while k < groups.len()
        invariant
            gv == composers_view(groups@),
            k <= groups@.len(),
            composers_view(out@) == gv.subrange(0, k as int).filter(|g: (Seq<char>, Seq<Seq<char>>)| g.1.len() > 1),
        decreases groups@.len() - k,
    {
        proof {
            reveal_with_fuel(Seq::<(Seq<char>, Seq<Seq<char>>)>::filter, 1);
            let p = gv.subrange(0, k + 1);
            assert(p.drop_last() =~= gv.subrange(0, k as int));
            assert(p.last() == gv[k as int]);
        }
        if groups[k].1.len() > 1 {
            let ghost before = composers_view(out@);
            let item = (groups[k].0.clone(), groups[k].1.clone());
            out.push(item);
            assert(composers_view(out@) =~= before.push(gv[k as int]));
        }
        k = k + 1;
    }
    assert(gv.subrange(0, k as int) =~= gv);
    out
}

/// A number split at its first `.`, else its first `/`, into major and
/// minor parts.
pub open spec fn number_parts(number: Seq<char>) -> (Seq<char>, Option<Seq<char>>) {
    let d = crate::parse::first_pos(number, '.');
    let s = crate::parse::first_pos(number, '/');
    if d >= 0 {
        (number.subrange(0, d), Some(number.subrange(d + 1, number.len() as int)))
    } else if s >= 0 {
        (number.subrange(0, s), Some(number.subrange(s + 1, number.len() as int)))
    } else {
        (number, None)
    }
}

/// Splits a number into its major part and the minor part after `.` or `/`.
pub fn split_number(number: &str) -> (r: (String, Option<String>))
    ensures
        (r.0@, opt_view(r.1)) == number_parts(number@),
{
    let n = number.unicode_len();
    match crate::parse::first_index_of(number, '.') {
        Some(d) => (number.substring_char(0, d).to_owned(), Some(number.substring_char(d + 1, n).to_owned())),
        None => match crate::parse::first_index_of(number, '/') {
            Some(s) => (number.substring_char(0, s).to_owned(), Some(number.substring_char(s + 1, n).to_owned())),
            None => (number.to_owned(), None),
        },
    }
}

/// How the outside database writes a number of `scheme`, and the pattern
/// that picks a part of a work by its minor number.
pub open spec fn lookup_form(scheme: Seq<char>, number: Seq<char>) -> (Seq<char>, Option<Seq<char>>) {
    let (major, minor) = number_parts(number);
    if scheme == "op"@ {
        ("op. "@ + major, match minor {
            Some(m) => Some("%no. "@ + m + "%"@),
            None => None,
        })
    } else if scheme == "bwv"@ {
        ("BWV "@ + upper_of(number), None)
    } else if scheme == "d"@ {
        ("D. "@ + number, None)
    } else if scheme == "hob"@ {
        ("Hob. "@ + upper_of(number), None)
    } else if scheme == "twv"@ {
        ("TWV "@ + upper_of(number), None)
    } else {
        (number, None)
    }
}

/// A number as the outside database writes it, with a part filter for
/// opus sub-numbers.
pub fn default_format(scheme: &str, number: &str) -> (r: (String, Option<String>))
    ensures
        (r.0@, opt_view(r.1)) == lookup_form(scheme@, number@),
{
    let (major, minor) = split_number(number);
    if str_eq(scheme, "op") {
        let mut f = "op. ".to_owned();
        f.append(major.as_str());
        let part = match minor {
            Some(m) => {
                let mut p = "%no. ".to_owned();
                p.append(m.as_str());
                p.append("%");
                Some(p)
            },
            None => None,
        };
        (f, part)
    } else if str_eq(scheme, "bwv") {
        let mut f = "BWV ".to_owned();
        f.append(uppercase(number).as_str());
        (f, None)
    } else if str_eq(scheme, "d") {
        let mut f = "D. ".to_owned();
        f.append(number);
        (f, None)
    } else if str_eq(scheme, "hob") {
        let mut f = "Hob. ".to_owned();
        f.append(uppercase(number).as_str());
        (f, None)
    } else if str_eq(scheme, "twv") {
        let mut f = "TWV ".to_owned();
        f.append(uppercase(number).as_str());
        (f, None)
    } else {
        (number.to_owned(), None)
    }
}

/// The name pattern by which the outside database is searched for a
/// composer: a known spelling, else the slug itself, in `%` wildcards.
pub open spec fn composer_pattern(composer: Seq<char>) -> Seq<char> {
    let name = if composer == "mozart"@ {
        "Mozart"@
    } else if composer == "beethoven"@ {
        "Beethoven"@
    } else if composer == "bach"@ {
        "Bach"@
    } else if composer == "schubert"@ {
        "Schubert"@
    } else if composer == "haydn"@ {
        "Haydn"@
    } else if composer == "telemann"@ {
        "Telemann"@
    } else if composer == "handel"@ {
        "Handel"@
    } else if composer == "brahms"@ {
        "Brahms"@
    } else if composer == "chopin"@ {
        "Chopin"@
    } else if composer == "liszt"@ {
        "Liszt"@
    } else {
        composer
    };
    "%"@ + name + "%"@
}

/// The search pattern for a composer slug.
pub fn composer_to_pattern(composer: &str) -> (r: String)
    ensures
        r@ == composer_pattern(composer@),
{
    let name: &str = if str_eq(composer, "mozart") {
        "Mozart"
    } else if str_eq(composer, "beethoven") {
        "Beethoven"
    } else if str_eq(composer, "bach") {
        "Bach"
    } else if str_eq(composer, "schubert") {
        "Schubert"
    } else if str_eq(composer, "haydn") {
        "Haydn"
    } else if str_eq(composer, "telemann") {
        "Telemann"
    } else if str_eq(composer, "handel") {
        "Handel"
    } else if str_eq(composer, "brahms") {
        "Brahms"
    } else if str_eq(composer, "chopin") {
        "Chopin"
    } else if str_eq(composer, "liszt") {
        "Liszt"
    } else {
        composer
    };
    let mut r = "%".to_owned();
    r.append(name);
    r.append("%");
    r
}

} // verus!
