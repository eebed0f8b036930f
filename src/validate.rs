//! Checks on a composition document: its ID and where it is stored, its key
//! code, and that its composers and catalog schemes are defined.
use crate::display::{decimal, decimal_string, occurs_in, contains_text};
use crate::parse::{file_stem, last_pos, last_index_of, split_file};
use crate::text::str_eq;
use crate::types::{AttributionEntry, Composition};
use vstd::prelude::*;

verus! {

/// One problem found in a document.
#[derive(Debug, Clone)]
pub struct ValidationError {
    pub path: String,
    pub message: String,
}

impl ValidationError {
    /// `path: message`.
    pub fn to_string(&self) -> (r: String)
        ensures
            r@ == self.path@ + ": "@ + self.message@,
    {
        let mut r = self.path.clone();
        r.append(": ");
        r.append(self.message.as_str());
        r
    }
}

/// The composers and catalog schemes that documents may refer to.
#[derive(Debug, Clone)]
pub struct Validator {
    pub composers: Vec<String>,
    pub catalog_schemes: Vec<String>,
}

pub open spec fn is_hex_lower(c: char) -> bool {
    ('0' <= c && c <= '9') || ('a' <= c && c <= 'f')
}

/// Eight lower-case hexadecimal characters.
pub open spec fn is_hex_id(id: Seq<char>) -> bool {
    id.len() == 8 && forall|i: int| 0 <= i < 8 ==> is_hex_lower(#[trigger] id[i])
}

fn is_hex_id_exec(id: &str) -> (r: bool)
    ensures
        r == is_hex_id(id@),
{
    if id.unicode_len() != 8 {
        return false;
    }
    let mut i: usize = 0;
    while i < 8
        invariant
            id@.len() == 8,
            i <= 8,
            forall|k: int| 0 <= k < i ==> is_hex_lower(#[trigger] id@[k]),
        decreases 8 - i,
    {
        let c = id.get_char(i);
        if !(('0' <= c && c <= '9') || ('a' <= c && c <= 'f')) {
            assert(!is_hex_lower(id@[i as int]));
            return false;
        }
        i = i + 1;
    }
    true
}

/// The part of a file stem that holds the ID: after the last `-`, else
/// after the last `_`, else the whole stem.
pub open spec fn id_part(stem: Seq<char>) -> Seq<char> {
    let d = last_pos(stem, '-');
    let u = last_pos(stem, '_');
    if d >= 0 {
        stem.subrange(d + 1, stem.len() as int)
    } else if u >= 0 {
        stem.subrange(u + 1, stem.len() as int)
    } else {
        stem
    }
}

/// The ID that a document's path announces: its two-character directory
/// and the six characters that end its file stem (after any `-` or `_`
/// prefix); `None` when the path has no such shape.
pub open spec fn expected_id(path: Seq<char>) -> Option<Seq<char>> {
    match split_file(path) {
        None => None,
        Some((name, parent)) => match parent {
            None => None,
            Some(dir) => match split_file(dir) {
                None => None,
                Some((dname, _)) => {
                    let part = id_part(file_stem(name));
                    if dname.len() == 2 && part.len() == 6 {
                        Some(dname + part)
                    } else {
                        None
                    }
                },
            },
        },
    }
}

/// The ID that a document's path announces, if it has the shape of one.
pub fn extract_id_from_path(path: &str) -> (r: Option<String>)
    ensures
        crate::types::opt_view(r) == expected_id(path@),
{
    let id = match crate::parse::extract_parts(path) {
        Some(x) => x,
        None => return None,
    };
    let (dname, stem) = id;
    let n = stem.unicode_len();
    let part = match last_index_of(stem, '-') {
        Some(d) => stem.substring_char(d + 1, n),
        None => match last_index_of(stem, '_') {
            Some(u) => stem.substring_char(u + 1, n),
            None => stem,
        },
    };
    if dname.unicode_len() == 2 && part.unicode_len() == 6 {
        let mut r = dname.to_owned();
        r.append(part);
        Some(r)
    } else {
        None
    }
}

/// The key codes that documents may use: a note `A`-`G` (lower case for
/// minor), an optional `#` or `b`, and an optional mode suffix.
pub open spec fn is_valid_key(k: Seq<char>) -> bool {
    let note_ok = k.len() >= 1 && (('A' <= k[0] && k[0] <= 'G') || ('a' <= k[0] && k[0] <= 'g'));
    let acc = if k.len() >= 2 && (k[1] == '#' || k[1] == 'b') { 1int } else { 0int };
    let rest = k.subrange(1 + acc, k.len() as int);
    note_ok && (rest.len() == 0 || rest == ".dor"@ || rest == ".phr"@ || rest == ".lyd"@ || rest == ".mix"@ || rest == ".loc"@)
}

fn is_valid_key_exec(k: &str) -> (r: bool)
    ensures
        r == is_valid_key(k@),
{
    let n = k.unicode_len();
    if n == 0 {
        return false;
    }
    let c = k.get_char(0);
    let note_ok = ('A' <= c && c <= 'G') || ('a' <= c && c <= 'g');
    let acc: usize = if n >= 2 && (k.get_char(1) == '#' || k.get_char(1) == 'b') { 1 } else { 0 };
    let rest = k.substring_char(1 + acc, n);
    note_ok && (rest.unicode_len() == 0 || str_eq(rest, ".dor") || str_eq(rest, ".phr") || str_eq(rest, ".lyd")
        || str_eq(rest, ".mix") || str_eq(rest, ".loc"))
}

fn error(path_str: &str, message: String) -> (r: ValidationError)
    ensures
        r.path@ == path_str@,
        r.message@ == message@,
{
    ValidationError { path: path_str.to_owned(), message }
}

pub open spec fn messages(v: Seq<ValidationError>) -> Seq<Seq<char>> {
    v.map_values(|e: ValidationError| e.message@)
}

/// The problems with a document's ID: not eight lower-case hexadecimal
/// characters, or not the ID its path announces.
pub open spec fn id_errors(id: Seq<char>, path: Seq<char>) -> Seq<Seq<char>> {
    if !is_hex_id(id) {
        seq!["ID '"@ + id + "' is not 8 lowercase hex characters"@]
    } else {
        match expected_id(path) {
            Some(e) => if e != id {
                seq!["ID '"@ + id + "' doesn't match path (expected '"@ + e + "')"@]
            } else {
                Seq::empty()
            },
            None => Seq::empty(),
        }
    }
}

/// The problems with a document's key code.
pub open spec fn key_errors(key: Option<Seq<char>>) -> Seq<Seq<char>> {
    match key {
        Some(k) => if is_valid_key(k) {
            Seq::empty()
        } else {
            seq!["Invalid key format: '"@ + k + "'"@]
        },
        None => Seq::empty(),
    }
}

pub open spec fn strs(v: Seq<String>) -> Seq<Seq<char>> {
    v.map_values(|s: String| s@)
}

/// The problems with the catalog entries of attribution entry `i`.
pub open spec fn scheme_errors(i: nat, schemes: Seq<Seq<char>>, known: Seq<Seq<char>>) -> Seq<Seq<char>>
    decreases schemes.len(),
{
    if schemes.len() == 0 {
        Seq::empty()
    } else {
        scheme_errors(i, schemes.drop_last(), known) + if known.contains(schemes.last()) {
            Seq::<Seq<char>>::empty()
        } else {
            seq!["attribution["@ + decimal(i) + "]: catalog scheme '"@ + schemes.last() + "' not defined"@]
        }
    }
}

/// The problems with attribution entries `0..n`: a composer or a catalog
/// scheme that is not defined.
pub open spec fn entry_errors(entries: Seq<AttributionEntry>, n: int, composers: Seq<Seq<char>>, schemes: Seq<Seq<char>>) -> Seq<Seq<char>>
    decreases n,
{
    if n <= 0 {
        Seq::empty()
    } else {
        let e = entries[n - 1];
        entry_errors(entries, n - 1, composers, schemes) + match e.composer {
            Some(c) => if composers.contains(c@) {
                Seq::<Seq<char>>::empty()
            } else {
                seq!["attribution["@ + decimal((n - 1) as nat) + "]: composer '"@ + c@ + "' not found in composers/"@]
            },
            None => Seq::empty(),
        } + match e.catalog {
            Some(cs) => scheme_errors((n - 1) as nat, cs@.map_values(|c: crate::types::CatalogEntry| c.scheme@), schemes),
            None => Seq::empty(),
        }
    }
}

/// The problems with a document's attribution.
pub open spec fn attribution_errors(entries: Seq<AttributionEntry>, composers: Seq<Seq<char>>, schemes: Seq<Seq<char>>) -> Seq<Seq<char>> {
    if entries.len() == 0 {
        seq!["Attribution array is empty"@]
    } else {
        entry_errors(entries, entries.len() as int, composers, schemes)
    }
}

fn contains_name(v: &Vec<String>, s: &str) -> (r: bool)
    ensures
        r == strs(v@).contains(s@),
{
    let mut i: usize = 0;
    while i < v.len()
        invariant
            i <= v@.len(),
            forall|k: int| 0 <= k < i ==> v@[k]@ != s@,
        decreases v@.len() - i,
    {
        if str_eq(v[i].as_str(), s) {
            assert(strs(v@)[i as int] == s@);
            return true;
        }
        i = i + 1;
    }
    assert(!strs(v@).contains(s@)) by {
        assert forall|k: int| 0 <= k < strs(v@).len() implies strs(v@)[k] != s@ by {
            assert(strs(v@)[k] == v@[k]@);
        }
    }
    false
}

fn push_message(errors: &mut Vec<ValidationError>, path_str: &str, message: String)
    ensures
        messages(final(errors)@) == messages(old(errors)@).push(message@),
        forall|k: int| 0 <= k < final(errors)@.len() ==> (k < old(errors)@.len() ==> final(errors)@[k] == old(errors)@[k]),
{
    let ghost before = messages(errors@);
    errors.push(error(path_str, message));
    assert(messages(errors@) =~= before.push(message@));
}

impl Validator {
    /// Problems with the ID of the document at `path`.
    pub fn validate_id(&self, id: &str, path: &str, path_str: &str) -> (r: Vec<ValidationError>)
        ensures
            messages(r@) == id_errors(id@, path@),
    {
        let mut errors: Vec<ValidationError> = Vec::new();
        if !is_hex_id_exec(id) {
            let mut m = "ID '".to_owned();
            m.append(id);
            m.append("' is not 8 lowercase hex characters");
            push_message(&mut errors, path_str, m);
            assert(messages(errors@) =~= id_errors(id@, path@));
            return errors;
        }
        if let Some(expected) = extract_id_from_path(path) {
            if !str_eq(expected.as_str(), id) {
                let mut m = "ID '".to_owned();
                m.append(id);
                m.append("' doesn't match path (expected '");
                m.append(expected.as_str());
                m.append("')");
                push_message(&mut errors, path_str, m);
            }
        }
        assert(messages(errors@) =~= id_errors(id@, path@));
        errors
    }

    /// Problems with the key code of a document.
    pub fn validate_key(&self, key: &Option<String>, path_str: &str) -> (r: Vec<ValidationError>)
        ensures
            messages(r@) == key_errors(crate::types::opt_view(*key)),
    {
        let mut errors: Vec<ValidationError> = Vec::new();
        if let Some(k) = key {
            if !is_valid_key_exec(k.as_str()) {
                let mut m = "Invalid key format: '".to_owned();
                m.append(k.as_str());
                m.append("'");
                push_message(&mut errors, path_str, m);
            }
        }
        assert(messages(errors@) =~= key_errors(crate::types::opt_view(*key)));
        errors
    }

    /// Problems with the attribution of a document: none at all, or
    /// composers and catalog schemes that are not defined.
    pub fn validate_attribution(&self, comp: &Composition, path_str: &str) -> (r: Vec<ValidationError>)
        ensures
            messages(r@) == attribution_errors(comp.attribution@, strs(self.composers@), strs(self.catalog_schemes@)),
    {
        let mut errors: Vec<ValidationError> = Vec::new();
        let ghost known_c = strs(self.composers@);
        let ghost known_s = strs(self.catalog_schemes@);
        if comp.attribution.len() == 0 {
            push_message(&mut errors, path_str, "Attribution array is empty".to_owned());
            assert(messages(errors@) =~= attribution_errors(comp.attribution@, known_c, known_s));
            return errors;
        }
        let mut i: usize = 0;
        assert(messages(errors@) =~= Seq::<Seq<char>>::empty());
        while i < comp.attribution.len()
            invariant
                known_c == strs(self.composers@),
                known_s == strs(self.catalog_schemes@),
                i <= comp.attribution@.len(),
                messages(errors@) == entry_errors(comp.attribution@, i as int, known_c, known_s),
            decreases comp.attribution@.len() - i,
        {
            let entry = &comp.attribution[i];
            let ghost base = messages(errors@);
            if let Some(c) = &entry.composer {
                if !contains_name(&self.composers, c.as_str()) {
                    let mut m = "attribution[".to_owned();
                    m.append(decimal_string(i).as_str());
                    m.append("]: composer '");
                    m.append(c.as_str());
                    m.append("' not found in composers/");
                    push_message(&mut errors, path_str, m);
                }
            }
            let ghost mid = messages(errors@);
            proof {
                match &entry.composer {
                    Some(c) => {},
                    None => {
                        assert(mid =~= base + Seq::<Seq<char>>::empty());
                    },
                }
            }
            if let Some(catalog) = &entry.catalog {
                let ghost sv = catalog@.map_values(|c: crate::types::CatalogEntry| c.scheme@);
                let mut j: usize = 0;
                assert(sv.subrange(0, 0) =~= Seq::<Seq<char>>::empty());
                assert(mid + scheme_errors(i as nat, sv.subrange(0, 0), known_s) =~= mid);
                while j < catalog.len()
                    invariant
                        known_s == strs(self.catalog_schemes@),
                        sv == catalog@.map_values(|c: crate::types::CatalogEntry| c.scheme@),
                        j <= catalog@.len(),
                        messages(errors@) == mid + scheme_errors(i as nat, sv.subrange(0, j as int), known_s),
                    decreases catalog@.len() - j,
                {
                    let scheme = catalog[j].scheme.as_str();
                    proof {
                        let p = sv.subrange(0, j + 1);
                        assert(p.drop_last() =~= sv.subrange(0, j as int));
                        assert(p.last() == scheme@);
                    }
                    if !contains_name(&self.catalog_schemes, scheme) {
                        let mut m = "attribution[".to_owned();
                        m.append(decimal_string(i).as_str());
                        m.append("]: catalog scheme '");
                        m.append(scheme);
                        m.append("' not defined");
                        push_message(&mut errors, path_str, m);
                    }
                    proof {
                        let p = sv.subrange(0, j + 1);
                        let e = if known_s.contains(p.last()) { Seq::<Seq<char>>::empty() } else {
                            seq!["attribution["@ + decimal(i as nat) + "]: catalog scheme '"@ + p.last() + "' not defined"@]
                        };
                        assert(mid + (scheme_errors(i as nat, sv.subrange(0, j as int), known_s) + e)
                            =~= (mid + scheme_errors(i as nat, sv.subrange(0, j as int), known_s)) + e);
                    }
                    j = j + 1;
                }
                assert(sv.subrange(0, j as int) =~= sv);
            } else {
                assert(mid + Seq::<Seq<char>>::empty() =~= mid);
            }
            proof {
                let n = i + 1;
                assert(comp.attribution@[n - 1] == *entry);
                let ce = match &entry.composer {
                    Some(c) => if known_c.contains(c@) {
                        Seq::<Seq<char>>::empty()
                    } else {
                        seq!["attribution["@ + decimal(i as nat) + "]: composer '"@ + c@ + "' not found in composers/"@]
                    },
                    None => Seq::empty(),
                };
                let se = match &entry.catalog {
                    Some(cs) => scheme_errors(i as nat, cs@.map_values(|c: crate::types::CatalogEntry| c.scheme@), known_s),
                    None => Seq::empty(),
                };
                assert(mid =~= base + ce);
                assert(messages(errors@) =~= base + ce + se);
            }
            i = i + 1;
        }
        errors
    }

    /// The problem of text with runs of spaces.
    pub fn check_spacing(&self, content: &str, path_str: &str) -> (r: Vec<ValidationError>)
        ensures
            messages(r@) == (if occurs_in("  "@, content@) {
                seq!["Contains multiple consecutive spaces"@]
            } else {
                Seq::<Seq<char>>::empty()
            }),
    {
        let mut errors: Vec<ValidationError> = Vec::new();
        if contains_text(content, "  ") {
            push_message(&mut errors, path_str, "Contains multiple consecutive spaces".to_owned());
        }
        assert(messages(errors@) =~= (if occurs_in("  "@, content@) {
            seq!["Contains multiple consecutive spaces"@]
        } else {
            Seq::<Seq<char>>::empty()
        }));
        errors
    }

    /// Problems with a parsed document stored at `path`: its ID, its key and
    /// its attribution, in that order.
    pub fn validate_composition(&self, comp: &Composition, path: &str, path_str: &str) -> (r: Vec<ValidationError>)
        ensures
            messages(r@) == id_errors(comp.id@, path@) + key_errors(crate::types::opt_view(comp.key))
                + attribution_errors(comp.attribution@, strs(self.composers@), strs(self.catalog_schemes@)),
    {
        let mut errors = self.validate_id(comp.id.as_str(), path, path_str);
        let mut k = self.validate_key(&comp.key, path_str);
        let mut a = self.validate_attribution(comp, path_str);
        let ghost e0 = messages(errors@);
        let ghost k0 = messages(k@);
        errors.append(&mut k);
        assert(messages(errors@) =~= e0 + k0);
        let ghost e1 = messages(errors@);
        let ghost a0 = messages(a@);
        errors.append(&mut a);
        assert(messages(errors@) =~= e1 + a0);
        errors
    }
}

} // verus!
