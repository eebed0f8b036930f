//! Reading what the `get` command is asked for: composition IDs, or a
//! composer query with a single number or a range.
use crate::display::{occurs_in, trim_ws, trimmed};
use crate::parse::first_index_of;
use vstd::prelude::*;

verus! {

/// What the `get` command was given.
#[derive(Debug, Clone)]
pub struct GetArgs {
    pub target: Option<String>,
    pub scheme: Option<String>,
    pub number: Option<String>,
    pub edition: Option<String>,
    pub group: Option<String>,
    pub sorted: bool,
    pub terse: bool,
    pub movements: bool,
    pub json: bool,
    pub quiet: bool,
    pub edit: bool,
    pub stdin: bool,
    pub strict: bool,
}

/// What the `set` command was given: a composer, a scheme, an optional
/// number or range, and the kind of cross-reference to record.
#[derive(Debug, Clone)]
pub struct SetArgs {
    pub target: String,
    pub scheme: Option<String>,
    pub number: Option<String>,
    pub xref: Option<String>,
}

pub open spec fn is_hex_char(c: char) -> bool {
    ('0' <= c && c <= '9') || ('a' <= c && c <= 'f') || ('A' <= c && c <= 'F')
}

/// Eight hexadecimal characters of either case.
pub open spec fn looks_like_id(s: Seq<char>) -> bool {
    s.len() == 8 && forall|i: int| 0 <= i < 8 ==> is_hex_char(#[trigger] s[i])
}

/// Whether `s` has the shape of a composition ID.
pub fn is_composition_id(s: &str) -> (r: bool)
    ensures
        r == looks_like_id(s@),
{
    if s.unicode_len() != 8 {
        return false;
    }
    let mut i: usize = 0;
    while i < 8
        invariant
            s@.len() == 8,
            i <= 8,
            forall|k: int| 0 <= k < i ==> is_hex_char(#[trigger] s@[k]),
        decreases 8 - i,
    {
        let c = s.get_char(i);
        if !(('0' <= c && c <= '9') || ('a' <= c && c <= 'f') || ('A' <= c && c <= 'F')) {
            assert(!is_hex_char(s@[i as int]));
            return false;
        }
        i = i + 1;
    }
    true
}

/// A number argument: one number, or a range of two.
#[derive(Debug, Clone)]
pub enum NumberSpec {
    Single(String),
    Range { start: String, end: String },
}

/// The view of a `NumberSpec`.
pub enum NumberSpecView {
    Single(Seq<char>),
    Range(Seq<char>, Seq<char>),
}

/// Whether a range bound looks like a catalog number: after trimming it
/// starts with an ASCII digit or letter, or holds a `:`.
pub open spec fn catalog_like(s: Seq<char>) -> bool {
    let t = trimmed(s);
    (t.len() > 0 && (('0' <= t[0] && t[0] <= '9') || ('A' <= t[0] && t[0] <= 'Z') || ('a' <= t[0] && t[0] <= 'z')))
        || t.contains(':')
}

/// Position of the first occurrence of `sep` in `s`; -1 when none.
pub open spec fn is_first_at(s: Seq<char>, sep: Seq<char>, i: int) -> bool {
    0 <= i && i + sep.len() <= s.len() && s.subrange(i, i + sep.len()) == sep && forall|k: int|
        0 <= k < i && k + sep.len() <= s.len() ==> #[trigger] s.subrange(k, k + sep.len()) != sep
}

/// Where `s` splits: at its first `-`, else its first `..`, else its first
/// space: the text before and after the separator.
pub open spec fn split_at_sep(s: Seq<char>, i: int, sep_len: int) -> (Seq<char>, Seq<char>) {
    (s.subrange(0, i), s.subrange(i + sep_len, s.len() as int))
}

fn find_text(s: &str, sep: &str) -> (r: Option<usize>)
    requires
        sep@.len() > 0,
    ensures
        match r {
            Some(i) => is_first_at(s@, sep@, i as int),
            None => !occurs_in(sep@, s@),
        },
{
    let n = s.unicode_len();
    let m = sep.unicode_len();
    let mut i: usize = 0;
    while i < n
        invariant
            n == s@.len(),
            m == sep@.len(),
            m > 0,
            i <= n,
            forall|k: int| 0 <= k < i && k + m <= n ==> #[trigger] s@.subrange(k, k + m) != sep@,
        decreases n - i,
    {
        if m <= n - i && crate::text::str_eq(s.substring_char(i, i + m), sep) {
            return Some(i);
        }
        i = i + 1;
    }
    assert(!occurs_in(sep@, s@)) by {
        assert forall|k: int| 0 <= k && k + m <= n implies #[trigger] s@.subrange(k, k + m) != sep@ by {
            assert(k < n);
        }
    }
    None
}

fn has_colon(s: &str) -> (r: bool)
    ensures
        r == s@.contains(':'),
{
    match first_index_of(s, ':') {
        Some(i) => {
            assert(s@[i as int] == ':') by {
                crate::parse::lemma_first_pos_found(s@, ':');
            }
            true
        },
        None => {
            proof {
                crate::parse::lemma_first_pos_found(s@, ':');
            }
            false
        },
    }
}

fn catalog_like_exec(s: &str) -> (r: bool)
    ensures
        r == catalog_like(s@),
{
    let t = trim_ws(s);
    let starts = t.unicode_len() > 0 && {
        let c = t.get_char(0);
        ('0' <= c && c <= '9') || ('A' <= c && c <= 'Z') || ('a' <= c && c <= 'z')
    };
    starts || has_colon(t)
}

proof fn lemma_first_at_unique(s: Seq<char>, sep: Seq<char>, i: int, j: int)
    requires
        is_first_at(s, sep, i),
        is_first_at(s, sep, j),
    ensures
        i == j,
{
    if i < j {
        assert(s.subrange(i, i + sep.len()) != sep);
    } else if j < i {
        assert(s.subrange(j, j + sep.len()) != sep);
    }
}

/// Position of the first occurrence of `sep` in `s`; -1 when none.
pub open spec fn first_text_pos(s: Seq<char>, sep: Seq<char>) -> int {
    if exists|i: int| is_first_at(s, sep, i) {
        choose|i: int| is_first_at(s, sep, i)
    } else {
        -1
    }
}

proof fn lemma_first_text_pos(s: Seq<char>, sep: Seq<char>, r: Option<usize>)
    requires
        match r {
            Some(i) => is_first_at(s, sep, i as int),
            None => !occurs_in(sep, s),
        },
    ensures
        match r {
            Some(i) => first_text_pos(s, sep) == i as int,
            None => first_text_pos(s, sep) == -1,
        },
{
    match r {
        Some(i) => {
            assert(exists|k: int| is_first_at(s, sep, k)) by {
                assert(is_first_at(s, sep, i as int));
            }
            let k = choose|k: int| is_first_at(s, sep, k);
            lemma_first_at_unique(s, sep, k, i as int);
        },
        None => {
            if exists|k: int| is_first_at(s, sep, k) {
                let k = choose|k: int| is_first_at(s, sep, k);
                assert(s.subrange(k, k + sep.len()) == sep);
            }
        },
    }
}

/// How a number argument is read: split at its first `-`, else `..`,
/// else space, it is a range when both trimmed bounds look like catalog
/// numbers (the end not empty); otherwise a single number.
pub open spec fn number_spec(s: Seq<char>) -> NumberSpecView {
    let pd = first_text_pos(s, "-"@);
    let pp = first_text_pos(s, ".."@);
    let ps = first_text_pos(s, " "@);
    let split = if pd >= 0 {
        Some(split_at_sep(s, pd, 1))
    } else if pp >= 0 {
        Some(split_at_sep(s, pp, 2))
    } else if ps >= 0 {
        Some(split_at_sep(s, ps, 1))
    } else {
        None
    };
    match split {
        Some((a, b)) => {
            let (ta, tb) = (trimmed(a), trimmed(b));
            if catalog_like(ta) && catalog_like(tb) && tb.len() > 0 {
                NumberSpecView::Range(ta, tb)
            } else {
                NumberSpecView::Single(s)
            }
        },
        None => NumberSpecView::Single(s),
    }
}

impl View for NumberSpec {
    type V = NumberSpecView;

    open spec fn view(&self) -> NumberSpecView {
        match self {
            NumberSpec::Single(s) => NumberSpecView::Single(s@),
            NumberSpec::Range { start, end } => NumberSpecView::Range(start@, end@),
        }
    }
}

fn find_split(s: &str) -> (r: Option<(usize, usize)>)
    ensures
        match r {
            Some((i, len)) => {
                let pd = first_text_pos(s@, "-"@);
                let pp = first_text_pos(s@, ".."@);
                let ps = first_text_pos(s@, " "@);
                &&& i + len <= s@.len()
                &&& (if pd >= 0 {
                    i == pd && len == 1
                } else if pp >= 0 {
                    i == pp && len == 2
                } else {
                    ps >= 0 && i == ps && len == 1
                })
            },
            None => first_text_pos(s@, "-"@) < 0 && first_text_pos(s@, ".."@) < 0 && first_text_pos(s@, " "@) < 0,
        },
{
    proof {
        reveal_strlit("-");
        reveal_strlit("..");
        reveal_strlit(" ");
    }
    let d = find_text(s, "-");
    proof {
        lemma_first_text_pos(s@, "-"@, d);
    }
    if let Some(i) = d {
        return Some((i, 1));
    }
    let p = find_text(s, "..");
    proof {
        lemma_first_text_pos(s@, ".."@, p);
    }
    if let Some(i) = p {
        return Some((i, 2));
    }
    let sp = find_text(s, " ");
    proof {
        lemma_first_text_pos(s@, " "@, sp);
    }
    match sp {
        Some(i) => Some((i, 1)),
        None => None,
    }
}

/// Reads a number argument as one number or as a range.
pub fn parse_number_spec(s: &str) -> (r: NumberSpec)
    ensures
        r@ == number_spec(s@),
{
    if let Some((i, len)) = find_split(s) {
        let n = s.unicode_len();
        let start = trim_ws(s.substring_char(0, i));
        let end = trim_ws(s.substring_char(i + len, n));
        if catalog_like_exec(start) && catalog_like_exec(end) && end.unicode_len() > 0 {
            return NumberSpec::Range { start: start.to_owned(), end: end.to_owned() };
        }
    }
    NumberSpec::Single(s.to_owned())
}

} // verus!
