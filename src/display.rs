//! Human-readable forms: catalog numbers as a scheme writes them, form
//! names, shortened instrumentation and key names.
use crate::catalog::{capture_spans, captured_spans, pattern_compiles, spans_view};
use crate::config::{DisplayConfig, KeySymbols};
use crate::defs::CatalogDefs;
use crate::text::{copy_str, lower_of, lowercase, push_char, str_eq, upper_of, uppercase};
use crate::types::{CatalogDefinition, Collection, Composition, SortKey};
use vstd::prelude::*;
use vstd::string::StringSliceAdditionalSpecFns;
use vstd::utf8::{decode_utf8, encode_utf8, encode_utf8_decode_utf8, is_char_boundary};

verus! {

/// Unicode White_Space, as `char::is_whitespace` reads it.
pub open spec fn is_ws(c: char) -> bool {
    ('\u{9}' <= c && c <= '\u{d}') || c == ' ' || c == '\u{85}' || c == '\u{a0}' || c == '\u{1680}'
        || ('\u{2000}' <= c && c <= '\u{200a}') || c == '\u{2028}' || c == '\u{2029}' || c == '\u{202f}'
        || c == '\u{205f}' || c == '\u{3000}'
}

/// Whether `c` is white space.
pub fn is_whitespace(c: char) -> (r: bool)
    ensures
        r == is_ws(c),
{
    ('\u{9}' <= c && c <= '\u{d}') || c == ' ' || c == '\u{85}' || c == '\u{a0}' || c == '\u{1680}'
        || ('\u{2000}' <= c && c <= '\u{200a}') || c == '\u{2028}' || c == '\u{2029}' || c == '\u{202f}'
        || c == '\u{205f}' || c == '\u{3000}'
}

/// A word with its first character upper-cased and the rest lower-cased.
pub open spec fn capitalized(w: Seq<char>) -> Seq<char> {
    upper_of(seq![w[0]]) + lower_of(w.drop_first())
}

/// The state of the scan that capitalizes a form name word by word.
pub struct FormScan {
    pub out: Seq<char>,
    pub word: Seq<char>,
    pub started: bool,
}

pub open spec fn flush_word(st: FormScan) -> FormScan {
    if st.word.len() == 0 {
        st
    } else {
        FormScan {
            out: if st.started { st.out + seq![' '] + capitalized(st.word) } else { capitalized(st.word) },
            word: Seq::empty(),
            started: true,
        }
    }
}

pub open spec fn scan_form(s: Seq<char>) -> FormScan
    decreases s.len(),
{
    if s.len() == 0 {
        FormScan { out: Seq::empty(), word: Seq::empty(), started: false }
    } else {
        let st = scan_form(s.drop_last());
        if is_ws(s.last()) {
            flush_word(st)
        } else {
            FormScan { word: st.word.push(s.last()), ..st }
        }
    }
}

/// The words of `form` (split at white space), each capitalized, joined
/// by single spaces.
pub open spec fn formatted_form(s: Seq<char>) -> Seq<char> {
    flush_word(scan_form(s)).out
}

fn capitalize(w: &str) -> (r: String)
    requires
        w@.len() > 0,
    ensures
        r@ == capitalized(w@),
{
    let n = w.unicode_len();
    let mut first = String::new();
    push_char(&mut first, w.get_char(0));
    assert(first@ =~= seq![w@[0]]);
    let mut r = uppercase(first.as_str());
    let rest = lowercase(w.substring_char(1, n));
    assert(w@.subrange(1, n as int) =~= w@.drop_first());
    r.append(rest.as_str());
    r
}

fn flush_word_exec(out: &mut String, word: &mut String, started: &mut bool)
    ensures
        ({
            let st = flush_word(FormScan { out: old(out)@, word: old(word)@, started: *old(started) });
            final(out)@ == st.out && final(word)@ == st.word && *final(started) == st.started
        }),
{
    if word.as_str().unicode_len() == 0 {
        return;
    }
    let c = capitalize(word.as_str());
    if *started {
        out.append(" ");
        proof {
            reveal_strlit(" ");
        }
        out.append(c.as_str());
    } else {
        *out = c;
    }
    *word = String::new();
    *started = true;
    proof {
        reveal_strlit(" ");
        assert(" "@ =~= seq![' ']);
    }
}

/// `form` with each word capitalized and single spaces between words.
pub fn format_form(form: &str) -> (r: String)
    ensures
        r@ == formatted_form(form@),
{
    let n = form.unicode_len();
    let mut out = String::new();
    let mut word = String::new();
    let mut started = false;
    let mut i: usize = 0;
    assert(form@.subrange(0, 0) =~= Seq::<char>::empty());
    while i < n
        invariant
            n == form@.len(),
            i <= n,
            scan_form(form@.subrange(0, i as int)) == (FormScan { out: out@, word: word@, started }),
        decreases n - i,
    {
        let c = form.get_char(i);
        proof {
            let p = form@.subrange(0, i + 1);
            assert(p.drop_last() =~= form@.subrange(0, i as int));
            assert(p.last() == c);
        }
        if is_whitespace(c) {
            flush_word_exec(&mut out, &mut word, &mut started);
        } else {
            push_char(&mut word, c);
        }
        i = i + 1;
    }
    assert(form@.subrange(0, n as int) =~= form@);
    flush_word_exec(&mut out, &mut word, &mut started);
    out
}

/// The number of UTF-8 bytes kept when a text is cut for a limit of
/// `max_bytes`: one less, leaving room for the ellipsis.
pub open spec fn cut_point(max_bytes: nat) -> int {
    if max_bytes > 0 {
        max_bytes - 1
    } else {
        0
    }
}

/// Whether `inst` can be shortened to `max_bytes`: it fits already, or the
/// cut falls between two characters.
pub open spec fn fits_cut(inst: Seq<char>, max_bytes: nat) -> bool {
    encode_utf8(inst).len() <= max_bytes || is_char_boundary(encode_utf8(inst), cut_point(max_bytes))
}

/// `inst` when its UTF-8 encoding has at most `max_bytes` bytes; else its
/// first `max_bytes - 1` bytes followed by an ellipsis.
pub open spec fn truncated(inst: Seq<char>, max_bytes: nat) -> Seq<char> {
    let b = encode_utf8(inst);
    if b.len() <= max_bytes {
        inst
    } else {
        decode_utf8(b.subrange(0, cut_point(max_bytes))) + "…"@
    }
}

/// Shortens an instrumentation list to at most `max_chars` bytes of UTF-8,
/// marking a cut with an ellipsis; the cut may not fall inside a
/// character.
pub fn truncate_instrumentation(inst: &str, max_chars: usize) -> (r: String)
    requires
        fits_cut(inst@, max_chars as nat),
    ensures
        r@ == truncated(inst@, max_chars as nat),
{
    let n = inst.as_bytes().len();
    assert(inst.spec_bytes() == encode_utf8(inst@));
    if n <= max_chars {
        assert(encode_utf8(inst@).len() <= max_chars);
        return inst.to_owned();
    }
    let keep: usize = if max_chars > 0 { max_chars - 1 } else { 0 };
    let (head, _) = inst.split_at(keep);
    proof {
        encode_utf8_decode_utf8(head@);
    }
    let mut r = head.to_owned();
    r.append("…");
    r
}

/// `s` with every occurrence of `from`, found left to right without
/// overlap, replaced by `to`.
pub open spec fn replaced(s: Seq<char>, from: Seq<char>, to: Seq<char>) -> Seq<char>
    decreases s.len(),
{
    if from.len() == 0 || s.len() == 0 {
        s
    } else if from.len() <= s.len() && s.subrange(0, from.len() as int) == from {
        to + replaced(s.skip(from.len() as int), from, to)
    } else {
        seq![s[0]] + replaced(s.drop_first(), from, to)
    }
}

fn matches_at(s: &str, i: usize, from: &str) -> (r: bool)
    requires
        i <= s@.len(),
    ensures
        r == (i + from@.len() <= s@.len() && s@.subrange(i as int, i + from@.len()) == from@),
{
    let n = s.unicode_len();
    let m = from.unicode_len();
    if m > n - i {
        return false;
    }
    str_eq(s.substring_char(i, i + m), from)
}

/// `s` with every occurrence of the non-empty `from` replaced by `to`.
fn replace_all(s: &str, from: &str, to: &str) -> (r: String)
    requires
        from@.len() > 0,
    ensures
        r@ == replaced(s@, from@, to@),
{
    let n = s.unicode_len();
    let m = from.unicode_len();
    let mut out = String::new();
    let mut i: usize = 0;
    assert(s@.skip(0) =~= s@);
    while i < n
        invariant
            n == s@.len(),
            m == from@.len(),
            m > 0,
            i <= n,
            out@ + replaced(s@.skip(i as int), from@, to@) == replaced(s@, from@, to@),
        decreases n - i,
    {
        let ghost t = s@.skip(i as int);
        if matches_at(s, i, from) {
            proof {
                assert(t.subrange(0, m as int) =~= s@.subrange(i as int, i + m));
                assert(t.skip(m as int) =~= s@.skip(i + m));
                assert(out@ + (to@ + replaced(t.skip(m as int), from@, to@)) == (out@ + to@) + replaced(t.skip(m as int), from@, to@));
            }
            out.append(to);
            i = i + m;
        } else {
            let c = s.get_char(i);
            proof {
                if m <= t.len() {
                    assert(t.subrange(0, m as int) =~= s@.subrange(i as int, i + m));
                }
                assert(t.drop_first() =~= s@.skip(i + 1));
                assert(t[0] == c);
                assert(out@ + (seq![c] + replaced(t.drop_first(), from@, to@)) == out@.push(c) + replaced(t.drop_first(), from@, to@));
            }
            push_char(&mut out, c);
            i = i + 1;
        }
    }
    assert(s@.skip(i as int) =~= Seq::<char>::empty());
    assert(out@ + Seq::<char>::empty() =~= out@);
    out
}

/// `s` as a display transform shows it: `upper`, `lower`, `title` (first
/// character upper-cased), anything else unchanged.
pub open spec fn transformed(s: Seq<char>, t: Seq<char>) -> Seq<char> {
    if t == "upper"@ {
        upper_of(s)
    } else if t == "lower"@ {
        lower_of(s)
    } else if t == "title"@ {
        if s.len() == 0 {
            s
        } else {
            upper_of(seq![s[0]]) + s.drop_first()
        }
    } else {
        s
    }
}

fn apply_display_transform(s: &str, transform: &str) -> (r: String)
    ensures
        r@ == transformed(s@, transform@),
{
    if str_eq(transform, "upper") {
        uppercase(s)
    } else if str_eq(transform, "lower") {
        lowercase(s)
    } else if str_eq(transform, "title") {
        let n = s.unicode_len();
        if n == 0 {
            return String::new();
        }
        let mut first = String::new();
        push_char(&mut first, s.get_char(0));
        assert(first@ =~= seq![s@[0]]);
        let mut r = uppercase(first.as_str());
        r.append(s.substring_char(1, n));
        assert(s@.subrange(1, n as int) =~= s@.drop_first());
        r
    } else {
        copy_str(s)
    }
}

/// A span of a number to show transformed: start, end and transform.
pub type Span = (int, int, Seq<char>);

/// The spans that the sort keys with a display transform mark, in sort-key
/// order; a key whose group took no part marks none.
pub open spec fn marked_spans(sks: Seq<SortKey>, sp: Seq<Option<(int, int)>>) -> Seq<Span>
    decreases sks.len(),
{
    if sks.len() == 0 {
        Seq::empty()
    } else {
        let r = marked_spans(sks.drop_last(), sp);
        let sk = sks.last();
        match sk.display {
            Some(t) => if sk.group < sp.len() {
                match sp[sk.group as int] {
                    Some((a, b)) => r.push((a, b, t@)),
                    None => r,
                }
            } else {
                r
            },
            None => r,
        }
    }
}

/// `x` placed into the spans `t` (ordered by start) after every span that
/// does not start later.
pub open spec fn insert_span(t: Seq<Span>, x: Span) -> Seq<Span>
    decreases t.len(),
{
    if t.len() == 0 {
        seq![x]
    } else if t.last().0 <= x.0 {
        t.push(x)
    } else {
        insert_span(t.drop_last(), x).push(t.last())
    }
}

/// The spans ordered by start, spans with equal starts keeping their order.
pub open spec fn sorted_spans(s: Seq<Span>) -> Seq<Span>
    decreases s.len(),
{
    if s.len() == 0 {
        s
    } else {
        insert_span(sorted_spans(s.drop_last()), s.last())
    }
}

/// The number rebuilt with each span transformed, the text between spans
/// copied; `(result, position reached)`.
pub open spec fn rebuilt(number: Seq<char>, spans: Seq<Span>) -> (Seq<char>, int)
    decreases spans.len(),
{
    if spans.len() == 0 {
        (Seq::empty(), 0)
    } else {
        let (r, pos) = rebuilt(number, spans.drop_last());
        let (a, b, t) = spans.last();
        let gap = if a > pos { number.subrange(pos, a) } else { Seq::empty() };
        (r + gap + transformed(number.subrange(a, b), t), b)
    }
}

/// How `number` is shown under `defn`: the parts that sort keys with a
/// display transform capture are transformed, the rest is kept; the number
/// itself without a definition, pattern, sort keys, match or transform.
pub open spec fn displayed_number(number: Seq<char>, defn: Option<CatalogDefinition>) -> Seq<char> {
    match defn {
        None => number,
        Some(d) => match (d.pattern, d.sort_keys) {
            (Some(p), Some(sks)) => if !pattern_compiles(p@) {
                number
            } else {
                match captured_spans(p@, number) {
                    None => number,
                    Some(sp) => {
                        let spans = marked_spans(sks@, sp);
                        if spans.len() == 0 {
                            number
                        } else {
                            let (r, pos) = rebuilt(number, sorted_spans(spans));
                            if pos < number.len() {
                                r + number.subrange(pos, number.len() as int)
                            } else {
                                r
                            }
                        }
                    },
                }
            },
            _ => number,
        },
    }
}

pub open spec fn span_view(x: (usize, usize, String)) -> Span {
    (x.0 as int, x.1 as int, x.2@)
}

pub open spec fn span_list_view(v: Seq<(usize, usize, String)>) -> Seq<Span> {
    v.map_values(|x: (usize, usize, String)| span_view(x))
}

proof fn lemma_insert_span_at(t: Seq<Span>, x: Span, j: int)
    requires
        0 <= j <= t.len(),
        forall|m: int| j <= m < t.len() ==> (#[trigger] t[m]).0 > x.0,
        j == 0 || t[j - 1].0 <= x.0,
    ensures
        insert_span(t, x) == t.insert(j, x),
    decreases t.len(),
{
    if j == t.len() {
        if t.len() == 0 {
            assert(t.insert(0, x) =~= seq![x]);
        } else {
            assert(t.insert(j, x) =~= t.push(x));
        }
    } else {
        let u = t.drop_last();
        assert(t[t.len() - 1].0 > x.0);
        assert forall|m: int| j <= m < u.len() implies (#[trigger] u[m]).0 > x.0 by {
            assert(u[m] == t[m]);
        }
        lemma_insert_span_at(u, x, j);
        assert(u.insert(j, x).push(t.last()) =~= t.insert(j, x));
    }
}

fn sort_spans(v: Vec<(usize, usize, String)>) -> (r: Vec<(usize, usize, String)>)
    ensures
        span_list_view(r@) == sorted_spans(span_list_view(v@)),
        forall|k: int| 0 <= k < r@.len() ==> exists|m: int| 0 <= m < v@.len() && #[trigger] r@[k] == v@[m],
{
    let ghost s = span_list_view(v@);
    let mut out: Vec<(usize, usize, String)> = Vec::new();
    let mut i: usize = 0;
    assert(s.subrange(0, 0) =~= Seq::<Span>::empty());
    while i < v.len()
        invariant
            s == span_list_view(v@),
            i <= v@.len(),
            span_list_view(out@) == sorted_spans(s.subrange(0, i as int)),
            forall|k: int| 0 <= k < out@.len() ==> exists|m: int| 0 <= m < v@.len() && #[trigger] out@[k] == v@[m],
        decreases v@.len() - i,
    {
        let x = (v[i].0, v[i].1, v[i].2.clone());
        assert(x == v@[i as int]);
        let mut j: usize = out.len();
        while j > 0 && out[j - 1].0 > x.0
            invariant
                j <= out@.len(),
                forall|m: int| j <= m < out@.len() ==> (#[trigger] out@[m]).0 > x.0,
            decreases j,
        {
            j = j - 1;
        }
        proof {
            let t = span_list_view(out@);
            assert forall|m: int| j <= m < t.len() implies (#[trigger] t[m]).0 > span_view(x).0 by {
                assert(t[m] == span_view(out@[m]));
            }
            if j > 0 {
                assert(t[j - 1] == span_view(out@[j - 1]));
            }
            lemma_insert_span_at(t, span_view(x), j as int);
            assert(s.subrange(0, i + 1).drop_last() =~= s.subrange(0, i as int));
            assert(s.subrange(0, i + 1).last() == span_view(x));
        }
        let ghost before = out@;
        out.insert(j, x);
        proof {
            assert(span_list_view(out@) =~= span_list_view(before).insert(j as int, span_view(x)));
            assert forall|k: int| 0 <= k < out@.len() implies exists|m: int| 0 <= m < v@.len() && #[trigger] out@[k] == v@[m] by {
                if k < j {
                    assert(out@[k] == before[k]);
                } else if k == j {
                    assert(out@[k] == v@[i as int]);
                } else {
                    assert(out@[k] == before[k - 1]);
                }
            }
        }
        i = i + 1;
    }
    assert(s.subrange(0, i as int) =~= s);
    out
}

fn marked_spans_exec(sks: &Vec<SortKey>, sp: &Vec<Option<(usize, usize)>>, len: usize) -> (r: Vec<(usize, usize, String)>)
    requires
        forall|i: int| 0 <= i < sp@.len() ==> (#[trigger] sp@[i] matches Some((a, b)) ==> a <= b <= len),
    ensures
        span_list_view(r@) == marked_spans(sks@, spans_view(sp@)),
        forall|k: int| 0 <= k < r@.len() ==> (#[trigger] r@[k]).0 <= r@[k].1 <= len,
{
    let ghost spv = spans_view(sp@);
    let mut out: Vec<(usize, usize, String)> = Vec::new();
    let mut i: usize = 0;
    assert(sks@.subrange(0, 0) =~= Seq::<SortKey>::empty());
    while i < sks.len()
        invariant
            spv == spans_view(sp@),
            forall|q: int| 0 <= q < sp@.len() ==> (#[trigger] sp@[q] matches Some((a, b)) ==> a <= b <= len),
            i <= sks@.len(),
            span_list_view(out@) == marked_spans(sks@.subrange(0, i as int), spv),
            forall|k: int| 0 <= k < out@.len() ==> (#[trigger] out@[k]).0 <= out@[k].1 <= len,
        decreases sks@.len() - i,
    {
        let sk = &sks[i];
        proof {
            let p = sks@.subrange(0, i + 1);
            assert(p.drop_last() =~= sks@.subrange(0, i as int));
            assert(p.last() == *sk);
        }
        if let Some(t) = &sk.display {
            if sk.group < sp.len() {
                if let Some((a, b)) = sp[sk.group] {
                    let ghost before = out@;
                    out.push((a, b, t.clone()));
                    assert(span_list_view(out@) =~= span_list_view(before).push((a as int, b as int, t@)));
                }
            }
        }
        i = i + 1;
    }
    assert(sks@.subrange(0, i as int) =~= sks@);
    out
}

/// `number` with the parts that sort keys with a display transform
/// capture shown transformed (`I:1` for `i:1` under an upper-case roman
/// field); the number itself where no transform applies.
pub fn format_number_for_display(number: &str, defn: Option<&CatalogDefinition>) -> (r: String)
    ensures
        r@ == displayed_number(number@, crate::catalog::deref_def(defn)),
{
    let d = match defn {
        None => return copy_str(number),
        Some(d) => d,
    };
    let (pattern, sks) = match (&d.pattern, &d.sort_keys) {
        (Some(p), Some(sks)) => (p, sks),
        _ => return copy_str(number),
    };
    let sp = match capture_spans(pattern.as_str(), number) {
        None => return copy_str(number),
        Some(None) => return copy_str(number),
        Some(Some(sp)) => sp,
    };
    let n = number.unicode_len();
    let spans = marked_spans_exec(sks, &sp, n);
    if spans.len() == 0 {
        return copy_str(number);
    }
    let sorted = sort_spans(spans);
    let ghost sv = span_list_view(sorted@);
    let mut result = String::new();
    let mut pos: usize = 0;
    let mut k: usize = 0;
    assert(sv.subrange(0, 0) =~= Seq::<Span>::empty());
    while k < sorted.len()
        invariant
            n == number@.len(),
            sv == span_list_view(sorted@),
            forall|q: int| 0 <= q < sorted@.len() ==> (#[trigger] sorted@[q]).0 <= sorted@[q].1 <= n,
            k <= sorted@.len(),
            pos <= n,
            rebuilt(number@, sv.subrange(0, k as int)) == (result@, pos as int),
        decreases sorted@.len() - k,
    {
        let (a, b) = (sorted[k].0, sorted[k].1);
        proof {
            let p = sv.subrange(0, k + 1);
            assert(p.drop_last() =~= sv.subrange(0, k as int));
            assert(p.last() == span_view(sorted@[k as int]));
        }
        if a > pos {
            result.append(number.substring_char(pos, a));
        } else {
            assert(result@ + Seq::<char>::empty() =~= result@);
        }
        let piece = apply_display_transform(number.substring_char(a, b), sorted[k].2.as_str());
        result.append(piece.as_str());
        pos = b;
        k = k + 1;
    }
    assert(sv.subrange(0, k as int) =~= sv);
    if pos < n {
        result.append(number.substring_char(pos, n));
    }
    result
}

/// The display template of a scheme without a canonical format.
pub open spec fn default_template(lower_scheme: Seq<char>, upper_scheme: Seq<char>) -> Seq<char> {
    if lower_scheme == "op"@ {
        "op. {}"@
    } else if lower_scheme == "bwv"@ {
        "BWV {}"@
    } else if lower_scheme == "k"@ || lower_scheme == "kv"@ {
        "K. {}"@
    } else if lower_scheme == "hob"@ {
        "Hob. {}"@
    } else if lower_scheme == "twv"@ {
        "TWV {}"@
    } else if lower_scheme == "d"@ {
        "D. {}"@
    } else if lower_scheme == "woo"@ {
        "WoO {}"@
    } else {
        upper_scheme + " {}"@
    }
}

/// The template a catalog number is written into: the definition's
/// canonical format, or a default for the scheme.
pub open spec fn catalog_template(scheme: Seq<char>, defn: Option<CatalogDefinition>) -> Seq<char> {
    match defn {
        Some(d) => match d.canonical_format {
            Some(f) => replaced(f@, "{number}"@, "{}"@),
            None => default_template(lower_of(scheme), upper_of(scheme)),
        },
        None => default_template(lower_of(scheme), upper_of(scheme)),
    }
}

/// A number written in its scheme's template; a sub-number after `/` is
/// written as `no.`.
pub open spec fn formatted_catalog(scheme: Seq<char>, number: Seq<char>, defn: Option<CatalogDefinition>) -> Seq<char> {
    let dn = displayed_number(number, defn);
    let t = catalog_template(scheme, defn);
    let p = crate::parse::first_pos(dn, '/');
    if p >= 0 {
        replaced(t, "{}"@, dn.subrange(0, p)) + " no. "@ + dn.subrange(p + 1, dn.len() as int)
    } else {
        replaced(t, "{}"@, dn)
    }
}

fn default_template_exec(scheme: &str) -> (r: String)
    ensures
        r@ == default_template(lower_of(scheme@), upper_of(scheme@)),
{
    let lower = lowercase(scheme);
    let l = lower.as_str();
    if str_eq(l, "op") {
        "op. {}".to_owned()
    } else if str_eq(l, "bwv") {
        "BWV {}".to_owned()
    } else if str_eq(l, "k") || str_eq(l, "kv") {
        "K. {}".to_owned()
    } else if str_eq(l, "hob") {
        "Hob. {}".to_owned()
    } else if str_eq(l, "twv") {
        "TWV {}".to_owned()
    } else if str_eq(l, "d") {
        "D. {}".to_owned()
    } else if str_eq(l, "woo") {
        "WoO {}".to_owned()
    } else {
        let mut r = uppercase(scheme);
        r.append(" {}");
        r
    }
}

/// How a catalog number is cited: `BWV 812`, `op. 10 no. 2`, `Hob. I:1`.
pub fn format_catalog(scheme: &str, number: &str, defn: Option<&CatalogDefinition>) -> (r: String)
    ensures
        r@ == formatted_catalog(scheme@, number@, crate::catalog::deref_def(defn)),
{
    proof {
        reveal_strlit("{number}");
        reveal_strlit("{}");
    }
    let dn = format_number_for_display(number, defn);
    let template = match defn {
        Some(d) => match &d.canonical_format {
            Some(f) => replace_all(f.as_str(), "{number}", "{}"),
            None => default_template_exec(scheme),
        },
        None => default_template_exec(scheme),
    };
    let n = dn.as_str().unicode_len();
    match crate::parse::first_index_of(dn.as_str(), '/') {
        Some(p) => {
            let mut r = replace_all(template.as_str(), "{}", dn.as_str().substring_char(0, p));
            r.append(" no. ");
            r.append(dn.as_str().substring_char(p + 1, n));
            r
        },
        None => replace_all(template.as_str(), "{}", dn.as_str()),
    }
}

/// Whether `sub` occurs in `s`.
pub open spec fn occurs_in(sub: Seq<char>, s: Seq<char>) -> bool {
    exists|i: int| 0 <= i && i + sub.len() <= s.len() && #[trigger] s.subrange(i, i + sub.len()) == sub
}

/// Whether `sub` occurs in `s`.
pub fn contains_text(s: &str, sub: &str) -> (r: bool)
    ensures
        r == occurs_in(sub@, s@),
{
    let n = s.unicode_len();
    let mut i: usize = 0;
    while i <= n
        invariant
            n == s@.len(),
            i <= n,
            forall|k: int| 0 <= k < i && k + sub@.len() <= s@.len() ==> #[trigger] s@.subrange(k, k + sub@.len()) != sub@,
        decreases n + 1 - i,
    {
        if matches_at(s, i, sub) {
            return true;
        }
        if i == n {
            assert(!occurs_in(sub@, s@));
            return false;
        }
        i = i + 1;
    }
    false
}

/// Whether a key text already names a key or mode in words.
pub open spec fn names_mode(lower: Seq<char>) -> bool {
    occurs_in("major"@, lower) || occurs_in("minor"@, lower) || occurs_in("dur"@, lower) || occurs_in("moll"@, lower)
        || occurs_in("dorian"@, lower) || occurs_in("phrygian"@, lower) || occurs_in("lydian"@, lower)
        || occurs_in("mixolydian"@, lower) || occurs_in("locrian"@, lower)
}

fn names_mode_exec(lower: &str) -> (r: bool)
    ensures
        r == names_mode(lower@),
{
    contains_text(lower, "major") || contains_text(lower, "minor") || contains_text(lower, "dur") || contains_text(lower, "moll")
        || contains_text(lower, "dorian") || contains_text(lower, "phrygian") || contains_text(lower, "lydian")
        || contains_text(lower, "mixolydian") || contains_text(lower, "locrian")
}

/// The name that the configured key names give `code`: the first entry
/// for it.
pub open spec fn configured_name(keys: Seq<(String, String)>, code: Seq<char>) -> Option<Seq<char>>
    decreases keys.len(),
{
    if keys.len() == 0 {
        None
    } else if configured_name(keys.drop_last(), code) is Some {
        configured_name(keys.drop_last(), code)
    } else if keys.last().0@ == code {
        Some(keys.last().1@)
    } else {
        None
    }
}

fn configured_name_exec(keys: &Vec<(String, String)>, code: &str) -> (r: Option<String>)
    ensures
        crate::types::opt_view(r) == configured_name(keys@, code@),
{
    let mut found: Option<String> = None;
    let mut i: usize = 0;
    assert(keys@.subrange(0, 0) =~= Seq::<(String, String)>::empty());
    while i < keys.len()
        invariant
            i <= keys@.len(),
            crate::types::opt_view(found) == configured_name(keys@.subrange(0, i as int), code@),
        decreases keys@.len() - i,
    {
        proof {
            let p = keys@.subrange(0, i + 1);
            assert(p.drop_last() =~= keys@.subrange(0, i as int));
            assert(p.last() == keys@[i as int]);
        }
        if found.is_none() && str_eq(keys[i].0.as_str(), code) {
            found = Some(keys[i].1.clone());
        }
        i = i + 1;
    }
    assert(keys@.subrange(0, i as int) =~= keys@);
    found
}

/// English names of the common key codes.
pub open spec fn english_key_name(code: Seq<char>) -> Option<Seq<char>> {
    if code == "C"@ {
        Some("C major"@)
    } else if code == "D"@ {
        Some("D major"@)
    } else if code == "E"@ {
        Some("E major"@)
    } else if code == "F"@ {
        Some("F major"@)
    } else if code == "G"@ {
        Some("G major"@)
    } else if code == "A"@ {
        Some("A major"@)
    } else if code == "B"@ {
        Some("B major"@)
    } else if code == "F#"@ {
        Some("F♯ major"@)
    } else if code == "C#"@ {
        Some("C♯ major"@)
    } else if code == "Bb"@ {
        Some("B♭ major"@)
    } else if code == "Eb"@ {
        Some("E♭ major"@)
    } else if code == "Ab"@ {
        Some("A♭ major"@)
    } else if code == "Db"@ {
        Some("D♭ major"@)
    } else if code == "Gb"@ {
        Some("G♭ major"@)
    } else if code == "Cb"@ {
        Some("C♭ major"@)
    } else if code == "c"@ {
        Some("c minor"@)
    } else if code == "d"@ {
        Some("d minor"@)
    } else if code == "e"@ {
        Some("e minor"@)
    } else if code == "f"@ {
        Some("f minor"@)
    } else if code == "g"@ {
        Some("g minor"@)
    } else if code == "a"@ {
        Some("a minor"@)
    } else if code == "b"@ {
        Some("b minor"@)
    } else if code == "f#"@ {
        Some("f♯ minor"@)
    } else if code == "c#"@ {
        Some("c♯ minor"@)
    } else if code == "g#"@ {
        Some("g♯ minor"@)
    } else if code == "bb"@ {
        Some("b♭ minor"@)
    } else if code == "eb"@ {
        Some("e♭ minor"@)
    } else {
        None
    }
}

/// German names of the common key codes.
pub open spec fn german_key_name(code: Seq<char>) -> Option<Seq<char>> {
    if code == "C"@ {
        Some("C-Dur"@)
    } else if code == "D"@ {
        Some("D-Dur"@)
    } else if code == "E"@ {
        Some("E-Dur"@)
    } else if code == "F"@ {
        Some("F-Dur"@)
    } else if code == "G"@ {
        Some("G-Dur"@)
    } else if code == "A"@ {
        Some("A-Dur"@)
    } else if code == "B"@ {
        Some("H-Dur"@)
    } else if code == "F#"@ {
        Some("Fis-Dur"@)
    } else if code == "C#"@ {
        Some("Cis-Dur"@)
    } else if code == "Bb"@ {
        Some("B-Dur"@)
    } else if code == "Eb"@ {
        Some("Es-Dur"@)
    } else if code == "Ab"@ {
        Some("As-Dur"@)
    } else if code == "Db"@ {
        Some("Des-Dur"@)
    } else if code == "Gb"@ {
        Some("Ges-Dur"@)
    } else if code == "c"@ {
        Some("c-Moll"@)
    } else if code == "d"@ {
        Some("d-Moll"@)
    } else if code == "e"@ {
        Some("e-Moll"@)
    } else if code == "f"@ {
        Some("f-Moll"@)
    } else if code == "g"@ {
        Some("g-Moll"@)
    } else if code == "a"@ {
        Some("a-Moll"@)
    } else if code == "b"@ {
        Some("h-Moll"@)
    } else if code == "f#"@ {
        Some("fis-Moll"@)
    } else if code == "c#"@ {
        Some("cis-Moll"@)
    } else if code == "g#"@ {
        Some("gis-Moll"@)
    } else if code == "bb"@ {
        Some("b-Moll"@)
    } else if code == "eb"@ {
        Some("es-Moll"@)
    } else {
        None
    }
}

fn english_key_name_exec(code: &str) -> (r: Option<&'static str>)
    ensures
        crate::defs::opt_str_view(r) == english_key_name(code@),
{
    if str_eq(code, "C") {
        Some("C major")
    } else if str_eq(code, "D") {
        Some("D major")
    } else if str_eq(code, "E") {
        Some("E major")
    } else if str_eq(code, "F") {
        Some("F major")
    } else if str_eq(code, "G") {
        Some("G major")
    } else if str_eq(code, "A") {
        Some("A major")
    } else if str_eq(code, "B") {
        Some("B major")
    } else if str_eq(code, "F#") {
        Some("F♯ major")
    } else if str_eq(code, "C#") {
        Some("C♯ major")
    } else if str_eq(code, "Bb") {
        Some("B♭ major")
    } else if str_eq(code, "Eb") {
        Some("E♭ major")
    } else if str_eq(code, "Ab") {
        Some("A♭ major")
    } else if str_eq(code, "Db") {
        Some("D♭ major")
    } else if str_eq(code, "Gb") {
        Some("G♭ major")
    } else if str_eq(code, "Cb") {
        Some("C♭ major")
    } else if str_eq(code, "c") {
        Some("c minor")
    } else if str_eq(code, "d") {
        Some("d minor")
    } else if str_eq(code, "e") {
        Some("e minor")
    } else if str_eq(code, "f") {
        Some("f minor")
    } else if str_eq(code, "g") {
        Some("g minor")
    } else if str_eq(code, "a") {
        Some("a minor")
    } else if str_eq(code, "b") {
        Some("b minor")
    } else if str_eq(code, "f#") {
        Some("f♯ minor")
    } else if str_eq(code, "c#") {
        Some("c♯ minor")
    } else if str_eq(code, "g#") {
        Some("g♯ minor")
    } else if str_eq(code, "bb") {
        Some("b♭ minor")
    } else if str_eq(code, "eb") {
        Some("e♭ minor")
    } else {
        None
    }
}

fn german_key_name_exec(code: &str) -> (r: Option<&'static str>)
    ensures
        crate::defs::opt_str_view(r) == german_key_name(code@),
{
    if str_eq(code, "C") {
        Some("C-Dur")
    } else if str_eq(code, "D") {
        Some("D-Dur")
    } else if str_eq(code, "E") {
        Some("E-Dur")
    } else if str_eq(code, "F") {
        Some("F-Dur")
    } else if str_eq(code, "G") {
        Some("G-Dur")
    } else if str_eq(code, "A") {
        Some("A-Dur")
    } else if str_eq(code, "B") {
        Some("H-Dur")
    } else if str_eq(code, "F#") {
        Some("Fis-Dur")
    } else if str_eq(code, "C#") {
        Some("Cis-Dur")
    } else if str_eq(code, "Bb") {
        Some("B-Dur")
    } else if str_eq(code, "Eb") {
        Some("Es-Dur")
    } else if str_eq(code, "Ab") {
        Some("As-Dur")
    } else if str_eq(code, "Db") {
        Some("Des-Dur")
    } else if str_eq(code, "Gb") {
        Some("Ges-Dur")
    } else if str_eq(code, "c") {
        Some("c-Moll")
    } else if str_eq(code, "d") {
        Some("d-Moll")
    } else if str_eq(code, "e") {
        Some("e-Moll")
    } else if str_eq(code, "f") {
        Some("f-Moll")
    } else if str_eq(code, "g") {
        Some("g-Moll")
    } else if str_eq(code, "a") {
        Some("a-Moll")
    } else if str_eq(code, "b") {
        Some("h-Moll")
    } else if str_eq(code, "f#") {
        Some("fis-Moll")
    } else if str_eq(code, "c#") {
        Some("cis-Moll")
    } else if str_eq(code, "g#") {
        Some("gis-Moll")
    } else if str_eq(code, "bb") {
        Some("b-Moll")
    } else if str_eq(code, "eb") {
        Some("es-Moll")
    } else {
        None
    }
}


/// The name of `code` in the tables of `language` (German for `de`,
/// English otherwise).
pub open spec fn table_name(language: Seq<char>, code: Seq<char>) -> Option<Seq<char>> {
    if language == "de"@ {
        german_key_name(code)
    } else {
        english_key_name(code)
    }
}

/// Name for what `char::is_lowercase` says of a character.
pub uninterp spec fn lowercase_letter(c: char) -> bool;

/// Relies on `char::is_lowercase`: whether the character has the Unicode
/// Lowercase property.
#[verifier::external_body]
fn is_lowercase_char(c: char) -> (r: bool)
    ensures
        r == lowercase_letter(c),
{
    c.is_lowercase()
}

pub open spec fn trim_start_ws(s: Seq<char>) -> Seq<char>
    decreases s.len(),
{
    if s.len() > 0 && is_ws(s[0]) {
        trim_start_ws(s.drop_first())
    } else {
        s
    }
}

pub open spec fn trim_end_ws(s: Seq<char>) -> Seq<char>
    decreases s.len(),
{
    if s.len() > 0 && is_ws(s.last()) {
        trim_end_ws(s.drop_last())
    } else {
        s
    }
}

/// `s` without white space at either end.
pub open spec fn trimmed(s: Seq<char>) -> Seq<char> {
    trim_end_ws(trim_start_ws(s))
}

/// `s` without white space at either end.
pub fn trim_ws(s: &str) -> (r: &str)
    ensures
        r@ == trimmed(s@),
{
    let n = s.unicode_len();
    let mut a: usize = 0;
    assert(s@.skip(0) =~= s@);
    while a < n && is_whitespace(s.get_char(a))
        invariant
            n == s@.len(),
            a <= n,
            trim_start_ws(s@) == trim_start_ws(s@.skip(a as int)),
        decreases n - a,
    {
        assert(s@.skip(a as int).drop_first() =~= s@.skip(a + 1));
        a = a + 1;
    }
    let t = s.substring_char(a, n);
    assert(t@ =~= s@.skip(a as int));
    let m = t.unicode_len();
    let mut b: usize = m;
    assert(t@.subrange(0, m as int) =~= t@);
    while b > 0 && is_whitespace(t.get_char(b - 1))
        invariant
            m == t@.len(),
            b <= m,
            trim_end_ws(t@) == trim_end_ws(t@.subrange(0, b as int)),
        decreases b,
    {
        assert(t@.subrange(0, b as int).drop_last() =~= t@.subrange(0, b - 1));
        b = b - 1;
    }
    t.substring_char(0, b)
}

/// A key code split into note, accidental and optional mode suffix (after
/// `.`, lower-cased): `F#.dor` gives `F`, `#` and `dor`.
pub open spec fn key_parts(code: Seq<char>) -> (Seq<char>, Seq<char>, Option<Seq<char>>) {
    let t = trimmed(code);
    let p = crate::parse::first_pos(t, '.');
    let main = if p >= 0 { t.subrange(0, p) } else { t };
    let mode = if p >= 0 { Some(lower_of(t.subrange(p + 1, t.len() as int))) } else { None };
    let note = if main.len() > 0 { seq![main[0]] } else { seq!['C'] };
    let acc = if main.len() > 0 { main.drop_first() } else { Seq::empty() };
    (note, acc, mode)
}

fn parse_key_code(code: &str) -> (r: (String, String, Option<String>))
    ensures
        (r.0@, r.1@, crate::types::opt_view(r.2)) == key_parts(code@),
{
    let t = trim_ws(code);
    let n = t.unicode_len();
    let (main, mode) = match crate::parse::first_index_of(t, '.') {
        Some(p) => (t.substring_char(0, p), Some(lowercase(t.substring_char(p + 1, n)))),
        None => (t, None),
    };
    let m = main.unicode_len();
    let mut note = String::new();
    if m > 0 {
        push_char(&mut note, main.get_char(0));
        assert(note@ =~= seq![main@[0]]);
        let acc = main.substring_char(1, m).to_owned();
        assert(acc@ =~= main@.drop_first());
        (note, acc, mode)
    } else {
        push_char(&mut note, 'C');
        assert(note@ =~= seq!['C']);
        (note, String::new(), mode)
    }
}

/// The sign of an accidental in Unicode or ASCII.
pub open spec fn accidental_sign(acc_upper: Seq<char>, unicode: bool) -> Seq<char> {
    if acc_upper == "#"@ {
        if unicode { "♯"@ } else { "#"@ }
    } else if acc_upper == "B"@ {
        if unicode { "♭"@ } else { "b"@ }
    } else if acc_upper == "BB"@ {
        if unicode { "𝄫"@ } else { "bb"@ }
    } else if acc_upper == "##"@ || acc_upper == "X"@ {
        if unicode { "𝄪"@ } else { "##"@ }
    } else {
        ""@
    }
}

fn accidental_sign_exec(acc_upper: &str, unicode: bool) -> (r: &'static str)
    ensures
        r@ == accidental_sign(acc_upper@, unicode),
{
    if str_eq(acc_upper, "#") {
        if unicode { "♯" } else { "#" }
    } else if str_eq(acc_upper, "B") {
        if unicode { "♭" } else { "b" }
    } else if str_eq(acc_upper, "BB") {
        if unicode { "𝄫" } else { "bb" }
    } else if str_eq(acc_upper, "##") || str_eq(acc_upper, "X") {
        if unicode { "𝄪" } else { "##" }
    } else {
        ""
    }
}

/// The word for a mode suffix, or for the quality when there is none.
pub open spec fn mode_word(mode: Option<Seq<char>>, minor: bool) -> Seq<char> {
    let quality = if minor { "minor"@ } else { "major"@ };
    match mode {
        Some(m) => if m == "dor"@ {
            "Dorian"@
        } else if m == "phr"@ {
            "Phrygian"@
        } else if m == "lyd"@ {
            "Lydian"@
        } else if m == "mix"@ {
            "Mixolydian"@
        } else if m == "loc"@ {
            "Locrian"@
        } else {
            quality
        },
        None => quality,
    }
}

fn mode_word_exec(mode: &Option<String>, minor: bool) -> (r: &'static str)
    ensures
        r@ == mode_word(crate::types::opt_view(*mode), minor),
{
    let quality = if minor { "minor" } else { "major" };
    match mode {
        Some(m) => {
            let m = m.as_str();
            if str_eq(m, "dor") {
                "Dorian"
            } else if str_eq(m, "phr") {
                "Phrygian"
            } else if str_eq(m, "lyd") {
                "Lydian"
            } else if str_eq(m, "mix") {
                "Mixolydian"
            } else if str_eq(m, "loc") {
                "Locrian"
            } else {
                quality
            }
        },
        None => quality,
    }
}

/// A key code read letter by letter: note and accidental sign, lower-cased
/// for a minor key without mode, then the mode or quality.
pub open spec fn dynamic_key_name(code: Seq<char>, symbols: KeySymbols) -> Seq<char> {
    let minor = code.len() > 0 && lowercase_letter(code[0]);
    let (note, acc, mode) = key_parts(upper_of(code));
    let note_str = note + accidental_sign(upper_of(acc), symbols == KeySymbols::Unicode);
    let shown = if minor && mode is None { lower_of(note_str) } else { note_str };
    shown + " "@ + mode_word(mode, minor)
}

fn expand_key_dynamic(code: &str, config: &DisplayConfig) -> (r: String)
    ensures
        r@ == dynamic_key_name(code@, config.key_symbols),
{
    let minor = code.unicode_len() > 0 && is_lowercase_char(code.get_char(0));
    let base = uppercase(code);
    let (note, acc, mode) = parse_key_code(base.as_str());
    let acc_upper = uppercase(acc.as_str());
    let unicode = match config.key_symbols {
        KeySymbols::Unicode => true,
        KeySymbols::Ascii => false,
    };
    let mut note_str = note;
    note_str.append(accidental_sign_exec(acc_upper.as_str(), unicode));
    let mut shown = if minor && mode.is_none() {
        lowercase(note_str.as_str())
    } else {
        note_str
    };
    shown.append(" ");
    shown.append(mode_word_exec(&mode, minor));
    shown
}

/// The name a key is shown by: a configured name; the code itself when it
/// already names a key or mode in words; the language's table entry; else
/// the code read letter by letter.
pub open spec fn key_name(code: Seq<char>, config: DisplayConfig) -> Seq<char> {
    match configured_name(config.keys@, code) {
        Some(n) => n,
        None => if names_mode(lower_of(code)) {
            code
        } else {
            match table_name(config.language@, code) {
                Some(n) => n,
                None => dynamic_key_name(code, config.key_symbols),
            }
        },
    }
}

/// The name of key `code` under `config` (`C major`, `f♯ minor`, `C-Dur`).
pub fn expand_key(code: &str, config: &DisplayConfig) -> (r: String)
    ensures
        r@ == key_name(code@, *config),
{
    if let Some(name) = configured_name_exec(&config.keys, code) {
        return name;
    }
    let lower = lowercase(code);
    if names_mode_exec(lower.as_str()) {
        return copy_str(code);
    }
    let table = if str_eq(config.language.as_str(), "de") {
        german_key_name_exec(code)
    } else {
        english_key_name_exec(code)
    };
    match table {
        Some(name) => name.to_owned(),
        None => expand_key_dynamic(code, config),
    }
}

/// The decimal numeral of `n`.
pub open spec fn decimal(n: nat) -> Seq<char>
    decreases n,
{
    if n < 10 {
        seq![digit_char(n)]
    } else {
        decimal(n / 10).push(digit_char(n % 10))
    }
}

pub open spec fn digit_char(d: nat) -> char {
    if d == 0 { '0' } else if d == 1 { '1' } else if d == 2 { '2' } else if d == 3 { '3' } else if d == 4 { '4' }
    else if d == 5 { '5' } else if d == 6 { '6' } else if d == 7 { '7' } else if d == 8 { '8' } else { '9' }
}

fn digit_char_exec(d: usize) -> (r: char)
    requires
        d < 10,
    ensures
        r == digit_char(d as nat),
{
    if d == 0 { '0' } else if d == 1 { '1' } else if d == 2 { '2' } else if d == 3 { '3' } else if d == 4 { '4' }
    else if d == 5 { '5' } else if d == 6 { '6' } else if d == 7 { '7' } else if d == 8 { '8' } else { '9' }
}

/// The decimal numeral of `n`.
pub fn decimal_string(n: usize) -> (r: String)
    ensures
        r@ == decimal(n as nat),
    decreases n,
{
    if n < 10 {
        let mut r = String::new();
        push_char(&mut r, digit_char_exec(n));
        assert(r@ =~= seq![digit_char(n as nat)]);
        r
    } else {
        let mut r = decimal_string(n / 10);
        push_char(&mut r, digit_char_exec(n % 10));
        r
    }
}

/// The value for `language` in a list of per-language texts; else the
/// English one; else the first.
pub open spec fn localized(entries: Seq<(String, String)>, language: Seq<char>) -> Option<Seq<char>> {
    match configured_name(entries, language) {
        Some(t) => Some(t),
        None => match configured_name(entries, "en"@) {
            Some(t) => Some(t),
            None => if entries.len() > 0 { Some(entries[0].1@) } else { None },
        },
    }
}

fn localized_exec(entries: &Vec<(String, String)>, language: &str) -> (r: Option<String>)
    ensures
        crate::types::opt_view(r) == localized(entries@, language@),
{
    if let Some(t) = configured_name_exec(entries, language) {
        return Some(t);
    }
    if let Some(t) = configured_name_exec(entries, "en") {
        return Some(t);
    }
    if entries.len() > 0 {
        Some(entries[0].1.clone())
    } else {
        None
    }
}

/// What a title is built from: the composition, the collection it belongs
/// to and its place there, and the display settings.
pub struct ExpansionContext<'a> {
    pub composition: &'a Composition,
    pub collection: Option<&'a Collection>,
    pub position_in_collection: Option<usize>,
    pub config: &'a DisplayConfig,
}

/// The catalog citation a pattern's `{catalog}` stands for: the first
/// catalog entry of the first attribution entry, as `SCHEME:number`.
pub open spec fn first_citation(comp: Composition) -> Seq<char> {
    if comp.attribution@.len() > 0 {
        match comp.attribution@[0].catalog {
            Some(c) => if c@.len() > 0 {
                upper_of(c@[0].scheme@) + ":"@ + c@[0].number@
            } else {
                Seq::empty()
            },
            None => Seq::empty(),
        }
    } else {
        Seq::empty()
    }
}

/// A title pattern with `{form}`, `{key}`, `{num}`, `{catalog}` and
/// `{instrumentation}` filled in, in that order.
pub open spec fn expanded_pattern(pattern: Seq<char>, comp: Composition, position: Option<usize>, config: DisplayConfig) -> Seq<char> {
    let form = formatted_form(comp.form@);
    let key = match comp.key {
        Some(k) => key_name(k@, config),
        None => Seq::empty(),
    };
    let num = match position {
        Some(n) => decimal(n as nat),
        None => Seq::empty(),
    };
    let inst = match comp.instrumentation {
        Some(i) => truncated(i@, config.patterns.instrumentation_max_chars as nat),
        None => Seq::empty(),
    };
    replaced(
        replaced(replaced(replaced(replaced(pattern, "{form}"@, form), "{key}"@, key), "{num}"@, num), "{catalog}"@, first_citation(comp)),
        "{instrumentation}"@,
        inst,
    )
}

fn first_citation_exec(comp: &Composition) -> (r: String)
    ensures
        r@ == first_citation(*comp),
{
    if comp.attribution.len() > 0 {
        match &comp.attribution[0].catalog {
            Some(c) => if c.len() > 0 {
                let mut r = uppercase(c[0].scheme.as_str());
                r.append(":");
                r.append(c[0].number.as_str());
                r
            } else {
                String::new()
            },
            None => String::new(),
        }
    } else {
        String::new()
    }
}

/// Whether the composition's instrumentation can be shortened to the
/// configured length without cutting inside a character.
pub open spec fn instrumentation_fits(comp: Composition, config: DisplayConfig) -> bool {
    match comp.instrumentation {
        Some(i) => fits_cut(i@, config.patterns.instrumentation_max_chars as nat),
        None => true,
    }
}

fn expand_pattern(pattern: &str, ctx: &ExpansionContext) -> (r: String)
    requires
        instrumentation_fits(*ctx.composition, *ctx.config),
    ensures
        r@ == expanded_pattern(pattern@, *ctx.composition, ctx.position_in_collection, *ctx.config),
{
    proof {
        reveal_strlit("{form}");
        reveal_strlit("{key}");
        reveal_strlit("{num}");
        reveal_strlit("{catalog}");
        reveal_strlit("{instrumentation}");
    }
    let comp = ctx.composition;
    let form = format_form(comp.form.as_str());
    let key = match &comp.key {
        Some(k) => expand_key(k.as_str(), ctx.config),
        None => String::new(),
    };
    let num = match ctx.position_in_collection {
        Some(n) => decimal_string(n),
        None => String::new(),
    };
    let catalog = first_citation_exec(comp);
    let inst = match &comp.instrumentation {
        Some(i) => truncate_instrumentation(i.as_str(), ctx.config.patterns.instrumentation_max_chars),
        None => String::new(),
    };
    let a = replace_all(pattern, "{form}", form.as_str());
    let b = replace_all(a.as_str(), "{key}", key.as_str());
    let c = replace_all(b.as_str(), "{num}", num.as_str());
    let d = replace_all(c.as_str(), "{catalog}", catalog.as_str());
    replace_all(d.as_str(), "{instrumentation}", inst.as_str())
}

/// The title of a composition: its own title in the display language (else
/// English, else its first); else its collection's pattern for the
/// language; else the configured pattern, with a number when the
/// composition has a place in a collection.
pub open spec fn title_of(comp: Composition, collection: Option<Collection>, position: Option<usize>, config: DisplayConfig) -> Seq<char> {
    let own = match comp.title {
        Some(t) => localized(t@, config.language@),
        None => None,
    };
    let from_collection = match collection {
        Some(c) => match c.expansion_pattern {
            Some(p) => localized(p@, config.language@),
            None => None,
        },
        None => None,
    };
    match own {
        Some(t) => t,
        None => match from_collection {
            Some(p) => expanded_pattern(p, comp, position, config),
            None => expanded_pattern(
                if position is Some { config.patterns.with_number@ } else { config.patterns.generic@ },
                comp,
                position,
                config,
            ),
        },
    }
}

/// The title to show for the context's composition.
pub fn expand_title(ctx: &ExpansionContext) -> (r: String)
    requires
        instrumentation_fits(*ctx.composition, *ctx.config),
    ensures
        r@ == title_of(*ctx.composition, match ctx.collection {
            Some(c) => Some(*c),
            None => None,
        }, ctx.position_in_collection, *ctx.config),
{
    let comp = ctx.composition;
    let config = ctx.config;
    if let Some(title) = &comp.title {
        if let Some(t) = localized_exec(title, config.language.as_str()) {
            return t;
        }
    }
    if let Some(coll) = ctx.collection {
        if let Some(patterns) = &coll.expansion_pattern {
            if let Some(p) = localized_exec(patterns, config.language.as_str()) {
                return expand_pattern(p.as_str(), ctx);
            }
        }
    }
    let pattern = if ctx.position_in_collection.is_some() {
        config.patterns.with_number.as_str()
    } else {
        config.patterns.generic.as_str()
    };
    expand_pattern(pattern, ctx)
}

/// The heading of a composition listed by ID: its first catalog number,
/// cited under its scheme's definition for the first entry's composer;
/// the ID when it has no catalog number.
pub open spec fn id_header(comp: Composition, id: Seq<char>, defs: Seq<(Seq<char>, Option<Seq<char>>, CatalogDefinition)>) -> Seq<char> {
    if comp.attribution@.len() > 0 {
        let attr = comp.attribution@[0];
        match attr.catalog {
            Some(c) => if c@.len() > 0 {
                formatted_catalog(c@[0].scheme@, c@[0].number@, crate::defs::lookup_def(defs, c@[0].scheme@, crate::types::opt_view(attr.composer)))
            } else {
                id
            },
            None => id,
        }
    } else {
        id
    }
}

/// The heading of a composition listed by ID.
pub fn format_id_header(comp: &Composition, id: &str, defs: &CatalogDefs) -> (r: String)
    ensures
        r@ == id_header(*comp, id@, defs@),
{
    if comp.attribution.len() > 0 {
        let attr = &comp.attribution[0];
        if let Some(c) = &attr.catalog {
            if c.len() > 0 {
                let composer: Option<&str> = match &attr.composer {
                    Some(x) => Some(x.as_str()),
                    None => None,
                };
                let defn = defs.get(c[0].scheme.as_str(), composer);
                return format_catalog(c[0].scheme.as_str(), c[0].number.as_str(), defn);
            }
        }
    }
    copy_str(id)
}

} // verus!
