//! The sort-key algebra: a catalog number and its scheme's definition give a
//! sequence of typed values, ordered lexicographically; group membership and
//! range ceilings are built on the same values.
use crate::text::{copy_str, starts_with, lowercase, lower_of, seq_lt, str_eq, str_less, upper_of, uppercase};
use crate::types::{opt_view, CatalogDefinition, SortKey};

use vstd::prelude::*;

verus! {

/// One typed field of a sort key.
#[derive(Debug, Clone)]
pub enum SortValue {
    Int(i64),
    Str(String),
    NoneFirst,
    NoneLast,
}

/// The mathematical value of a `SortValue`.
pub enum SortVal {
    Int(int),
    Str(Seq<char>),
    NoneFirst,
    NoneLast,
}

impl View for SortValue {
    type V = SortVal;

    open spec fn view(&self) -> SortVal {
        match self {
            SortValue::Int(i) => SortVal::Int(*i as int),
            SortValue::Str(s) => SortVal::Str(s@),
            SortValue::NoneFirst => SortVal::NoneFirst,
            SortValue::NoneLast => SortVal::NoneLast,
        }
    }
}

/// Position of a value's kind: absent-first, integers, text, absent-last.
pub open spec fn rank(v: SortVal) -> int {
    match v {
        SortVal::NoneFirst => 0,
        SortVal::Int(_) => 1,
        SortVal::Str(_) => 2,
        SortVal::NoneLast => 3,
    }
}

/// The total order `NoneFirst < Int < Str < NoneLast`, integers by value and
/// text by code points.
pub open spec fn val_lt(a: SortVal, b: SortVal) -> bool {
    if rank(a) != rank(b) {
        rank(a) < rank(b)
    } else {
        match (a, b) {
            (SortVal::Int(x), SortVal::Int(y)) => x < y,
            (SortVal::Str(x), SortVal::Str(y)) => seq_lt(x, y),
            _ => false,
        }
    }
}

/// Lexicographic order of keys; a proper prefix comes first.
pub open spec fn key_lt(a: Seq<SortVal>, b: Seq<SortVal>) -> bool
    decreases a.len(),
{
    if b.len() == 0 {
        false
    } else if a.len() == 0 {
        true
    } else if val_lt(a[0], b[0]) {
        true
    } else if a[0] == b[0] {
        key_lt(a.drop_first(), b.drop_first())
    } else {
        false
    }
}

/// `a` orders before `b` or equals it.
pub open spec fn key_le(a: Seq<SortVal>, b: Seq<SortVal>) -> bool {
    key_lt(a, b) || a == b
}

pub open spec fn key_view(k: Seq<SortValue>) -> Seq<SortVal> {
    k.map_values(|v: SortValue| v@)
}

impl PartialEq for SortValue {
    fn eq(&self, other: &SortValue) -> (r: bool) {
        match (self, other) {
            (SortValue::Int(a), SortValue::Int(b)) => *a == *b,
            (SortValue::Str(a), SortValue::Str(b)) => str_eq(a.as_str(), b.as_str()),
            (SortValue::NoneFirst, SortValue::NoneFirst) => true,
            (SortValue::NoneLast, SortValue::NoneLast) => true,
            _ => false,
        }
    }
}

impl vstd::std_specs::cmp::PartialEqSpecImpl for SortValue {
    open spec fn obeys_eq_spec() -> bool {
        true
    }

    open spec fn eq_spec(&self, other: &SortValue) -> bool {
        self@ == other@
    }
}

impl Eq for SortValue {}

impl PartialOrd for SortValue {
    fn partial_cmp(&self, other: &SortValue) -> (r: Option<core::cmp::Ordering>) {
        if value_less(self, other) {
            Some(core::cmp::Ordering::Less)
        } else if value_less(other, self) {
            Some(core::cmp::Ordering::Greater)
        } else {
            Some(core::cmp::Ordering::Equal)
        }
    }
}

impl vstd::std_specs::cmp::PartialOrdSpecImpl for SortValue {
    open spec fn obeys_partial_cmp_spec() -> bool {
        true
    }

    open spec fn partial_cmp_spec(&self, other: &SortValue) -> Option<core::cmp::Ordering> {
        if val_lt(self@, other@) {
            Some(core::cmp::Ordering::Less)
        } else if val_lt(other@, self@) {
            Some(core::cmp::Ordering::Greater)
        } else {
            Some(core::cmp::Ordering::Equal)
        }
    }
}

/// Whether `a` orders strictly before `b`.
pub fn value_less(a: &SortValue, b: &SortValue) -> (r: bool)
    ensures
        r == val_lt(a@, b@),
{
    match (a, b) {
        (SortValue::Int(x), SortValue::Int(y)) => *x < *y,
        (SortValue::Str(x), SortValue::Str(y)) => str_less(x.as_str(), y.as_str()),
        (SortValue::NoneFirst, SortValue::NoneFirst) => false,
        (SortValue::NoneFirst, _) => true,
        (_, SortValue::NoneFirst) => false,
        (SortValue::NoneLast, _) => false,
        (_, SortValue::NoneLast) => true,
        (SortValue::Int(_), SortValue::Str(_)) => true,
        (SortValue::Str(_), SortValue::Int(_)) => false,
    }
}

/// Whether the two values are equal.
pub fn value_eq(a: &SortValue, b: &SortValue) -> (r: bool)
    ensures
        r == (a@ == b@),
{
    match (a, b) {
        (SortValue::Int(x), SortValue::Int(y)) => *x == *y,
        (SortValue::Str(x), SortValue::Str(y)) => str_eq(x.as_str(), y.as_str()),
        (SortValue::NoneFirst, SortValue::NoneFirst) => true,
        (SortValue::NoneLast, SortValue::NoneLast) => true,
        _ => false,
    }
}

proof fn lemma_seq_lt_irreflexive(a: Seq<char>)
    ensures
        !seq_lt(a, a),
    decreases a.len(),
{
    if a.len() > 0 {
        lemma_seq_lt_irreflexive(a.drop_first());
    }
}

proof fn lemma_val_lt_irreflexive(a: SortVal)
    ensures
        !val_lt(a, a),
{
    if let SortVal::Str(s) = a {
        lemma_seq_lt_irreflexive(s);
    }
}

proof fn lemma_key_lt_skip(a: Seq<SortVal>, b: Seq<SortVal>, i: int)
    requires
        0 <= i < a.len(),
        i < b.len(),
        a[i] == b[i],
    ensures
        key_lt(a.skip(i), b.skip(i)) == key_lt(a.skip(i + 1), b.skip(i + 1)),
{
    assert(a.skip(i).drop_first() == a.skip(i + 1));
    assert(b.skip(i).drop_first() == b.skip(i + 1));
    assert(a.skip(i)[0] == a[i]);
    assert(b.skip(i)[0] == b[i]);
    lemma_val_lt_irreflexive(a[i]);
}

/// Whether key `a` orders strictly before key `b`.
pub fn key_less(a: &[SortValue], b: &[SortValue]) -> (r: bool)
    ensures
        r == key_lt(key_view(a@), key_view(b@)),
{
    let ghost ka = key_view(a@);
    let ghost kb = key_view(b@);
    let mut i: usize = 0;
    assert(ka.skip(0) == ka);
    assert(kb.skip(0) == kb);
    while i < a.len() && i < b.len()
        invariant
            ka == key_view(a@),
            kb == key_view(b@),
            i <= a@.len(),
            i <= b@.len(),
            key_lt(ka, kb) == key_lt(ka.skip(i as int), kb.skip(i as int)),
        decreases a@.len() - i,
    {
        assert(ka.skip(i as int)[0] == a@[i as int]@);
        assert(kb.skip(i as int)[0] == b@[i as int]@);
        if value_less(&a[i], &b[i]) {
            return true;
        }
        if !value_eq(&a[i], &b[i]) {
            return false;
        }
        proof {
            lemma_key_lt_skip(ka, kb, i as int);
        }
        i = i + 1;
    }
    i < b.len()
}

/// The first field of every key that falls back to raw text.
pub const FALLBACK_RANK: i64 = 999999999;

/// The key of a number that its scheme's pattern does not read.
pub open spec fn fallback_key(number: Seq<char>) -> Seq<SortVal> {
    seq![SortVal::Int(FALLBACK_RANK as int), SortVal::Str(number)]
}

/// Whether a key is the fallback key of an unreadable number.
pub open spec fn is_fallback(k: Seq<SortVal>) -> bool {
    k.len() > 0 && k[0] == SortVal::Int(FALLBACK_RANK as int)
}

/// Whether `key` is the fallback key of an unreadable number.
pub fn is_fallback_key(key: &[SortValue]) -> (r: bool)
    ensures
        r == is_fallback(key_view(key@)),
{
    if key.len() == 0 {
        return false;
    }
    match &key[0] {
        SortValue::Int(v) => *v == FALLBACK_RANK,
        _ => false,
    }
}

/// `key` with its trailing run of `NoneFirst` turned into `NoneLast`, so that
/// an end bound covers every number below the group it names.
pub open spec fn ceiling(k: Seq<SortVal>) -> Seq<SortVal>
    decreases k.len(),
{
    if k.len() == 0 {
        k
    } else if k.last() == SortVal::NoneFirst {
        ceiling(k.drop_last()).push(SortVal::NoneLast)
    } else {
        k
    }
}

fn is_none_first(v: &SortValue) -> (r: bool)
    ensures
        r == (v@ == SortVal::NoneFirst),
{
    match v {
        SortValue::NoneFirst => true,
        _ => false,
    }
}

/// The inclusive upper bound that an end key stands for.
pub fn make_inclusive_ceiling(key: Vec<SortValue>) -> (r: Vec<SortValue>)
    ensures
        key_view(r@) == ceiling(key_view(key@)),
{
    let mut result = key;
    let ghost k0 = key_view(result@);
    let mut i: usize = result.len();
    assert(k0.subrange(0, i as int) == k0);
    assert(key_view(result@).subrange(i as int, i as int) == Seq::<SortVal>::empty());
    while i > 0 && is_none_first(&result[i - 1])
        invariant
            k0 == key_view(key@),
            i <= result@.len(),
            result@.len() == key@.len(),
            key_view(result@).subrange(0, i as int) == k0.subrange(0, i as int),
            ceiling(k0) == ceiling(k0.subrange(0, i as int)) + key_view(result@).subrange(i as int, result@.len() as int),
        decreases i,
    {
        proof {
            let p = k0.subrange(0, i as int);
            assert(p.last() == SortVal::NoneFirst);
            assert(p.drop_last() == k0.subrange(0, i - 1));
        }
        let ghost before = key_view(result@);
        result.set(i - 1, SortValue::NoneLast);
        proof {
            let after = key_view(result@);
            assert(after.subrange(0, i - 1) == before.subrange(0, i - 1));
            assert(after.subrange(i - 1, result@.len() as int)
                == seq![SortVal::NoneLast] + before.subrange(i as int, result@.len() as int));
            assert(k0.subrange(0, i - 1) == before.subrange(0, i - 1));
        }
        i = i - 1;
    }
    proof {
        let kr = key_view(result@);
        let p = k0.subrange(0, i as int);
        if i > 0 {
            assert(p.last() == kr[i - 1]);
        }
        assert(ceiling(p) == p);
        assert(kr == kr.subrange(0, i as int) + kr.subrange(i as int, result@.len() as int));
    }
    result
}

pub open spec fn is_digit(c: char) -> bool {
    '0' <= c && c <= '9'
}

pub open spec fn digit_value(c: char) -> int {
    (c as u32) as int - ('0' as u32) as int
}

/// The value of a string of decimal digits.
pub open spec fn digits_value(s: Seq<char>) -> int
    decreases s.len(),
{
    if s.len() == 0 {
        0
    } else {
        10 * digits_value(s.drop_last()) + digit_value(s.last())
    }
}

pub open spec fn all_digits(s: Seq<char>) -> bool {
    forall|i: int| 0 <= i < s.len() ==> is_digit(#[trigger] s[i])
}

/// The integer that a decimal numeral with an optional `+` or `-` sign
/// denotes, as `i64`'s `FromStr` reads it; `None` where it reads none.
pub open spec fn decimal_value(s: Seq<char>) -> Option<int> {
    let signed = s.len() > 0 && (s[0] == '+' || s[0] == '-');
    let body = if signed { s.drop_first() } else { s };
    let v = if signed && s[0] == '-' { -digits_value(body) } else { digits_value(body) };
    if body.len() > 0 && all_digits(body) && i64::MIN <= v <= i64::MAX {
        Some(v)
    } else {
        None
    }
}

/// An `int` field: its decimal value, or 0 where it is not a numeral that
/// fits in `i64`.
pub open spec fn int_field(s: Seq<char>) -> int {
    match decimal_value(s) {
        Some(v) => v,
        None => 0,
    }
}

proof fn lemma_digits_value_nonneg(s: Seq<char>)
    requires
        all_digits(s),
    ensures
        digits_value(s) >= 0,
    decreases s.len(),
{
    if s.len() > 0 {
        assert(all_digits(s.drop_last()));
        lemma_digits_value_nonneg(s.drop_last());
        assert(is_digit(s[s.len() - 1]));
    }
}

proof fn lemma_digits_value_grows(s: Seq<char>, i: int)
    requires
        all_digits(s),
        0 <= i <= s.len(),
    ensures
        digits_value(s.subrange(0, i)) <= digits_value(s),
    decreases s.len(),
{
    if i < s.len() {
        let t = s.drop_last();
        assert(all_digits(t));
        assert(t.subrange(0, i) == s.subrange(0, i));
        lemma_digits_value_grows(t, i);
        lemma_digits_value_nonneg(t);
        assert(is_digit(s[s.len() - 1]));
    } else {
        assert(s.subrange(0, i) == s);
    }
}

const I64_MAX_MAGNITUDE: u64 = 9223372036854775808;

/// The value of an `int` field of a catalog number: its decimal value, or 0
/// where it is not a numeral that fits in `i64`.
pub fn parse_int_field(s: &str) -> (r: i64)
    ensures
        r as int == int_field(s@),
{
    let n = s.unicode_len();
    if n == 0 {
        return 0;
    }
    let first = s.get_char(0);
    let signed = first == '+' || first == '-';
    let negative = first == '-';
    let start: usize = if signed { 1 } else { 0 };
    let ghost body = if signed { s@.drop_first() } else { s@ };
    assert(s@[0] == first);
    assert(signed == (s@.len() > 0 && (s@[0] == '+' || s@[0] == '-')));
    assert(decimal_value(s@) == (if body.len() > 0 && all_digits(body) && i64::MIN <= (if negative { -digits_value(body) } else { digits_value(body) }) <= i64::MAX {
        Some(if negative { -digits_value(body) } else { digits_value(body) })
    } else {
        None::<int>
    }));
    assert(body == s@.subrange(start as int, n as int));
    if start == n {
        return 0;
    }
    let mut acc: u64 = 0;
    let mut i: usize = start;
    while i < n
        invariant
            n == s@.len(),
            start <= i <= n,
            body == s@.subrange(start as int, n as int),
            all_digits(body.subrange(0, i - start)),
            acc as int == digits_value(body.subrange(0, i - start)),
            acc <= I64_MAX_MAGNITUDE,
            decimal_value(s@) == (if body.len() > 0 && all_digits(body) && i64::MIN <= (if negative { -digits_value(body) } else { digits_value(body) }) <= i64::MAX {
                Some(if negative { -digits_value(body) } else { digits_value(body) })
            } else {
                None::<int>
            }),
        decreases n - i,
    {
        let c = s.get_char(i);
        proof {
            assert(body[i - start] == c);
        }
        if !('0' <= c && c <= '9') {
            assert(!is_digit(body[i - start]));
            assert(!all_digits(body));
            assert(decimal_value(s@) is None);
            return 0;
        }
        let d = (c as u32 - '0' as u32) as u64;
        proof {
            let p = body.subrange(0, i - start + 1);
            assert(p.drop_last() == body.subrange(0, i - start));
            assert(p.last() == c);
            assert(all_digits(p));
        }
        if acc > (I64_MAX_MAGNITUDE - d) / 10 {
            proof {
                let p = body.subrange(0, i - start + 1);
                assert(digits_value(p) == 10 * acc + d);
                assert(10 * acc + d > I64_MAX_MAGNITUDE) by (nonlinear_arith)
                    requires acc > (I64_MAX_MAGNITUDE - d) / 10, d <= 9;
                if all_digits(body) {
                    lemma_digits_value_grows(body, i - start + 1);
                    assert(digits_value(body) > I64_MAX_MAGNITUDE);
                }
                assert(decimal_value(s@) is None);
            }
            return 0;
        }
        acc = acc * 10 + d;
        i = i + 1;
    }
    assert(body.subrange(0, n - start) == body);
    if negative {
        (0i128 - acc as i128) as i64
    } else if acc <= i64::MAX as u64 {
        acc as i64
    } else {
        0
    }
}

/// The value of one Roman digit; 0 for any other character.
pub open spec fn roman_digit(c: char) -> int {
    if c == 'I' {
        1
    } else if c == 'V' {
        5
    } else if c == 'X' {
        10
    } else if c == 'L' {
        50
    } else if c == 'C' {
        100
    } else if c == 'D' {
        500
    } else if c == 'M' {
        1000
    } else {
        0
    }
}

pub open spec fn is_roman_digit(c: char) -> bool {
    roman_digit(c) > 0
}

/// Subtractive reading: a digit counts negatively when the next one is larger.
pub open spec fn roman_sum(u: Seq<char>) -> int
    decreases u.len(),
{
    if u.len() == 0 {
        0
    } else {
        let v = roman_digit(u[0]);
        let rest = roman_sum(u.drop_first());
        if u.len() > 1 && v < roman_digit(u[1]) {
            rest - v
        } else {
            rest + v
        }
    }
}

/// The value of an upper-case Roman numeral; 0 when any character is not
/// one of `IVXLCDM`.
pub open spec fn roman_value(u: Seq<char>) -> int {
    if forall|i: int| 0 <= i < u.len() ==> is_roman_digit(#[trigger] u[i]) {
        roman_sum(u)
    } else {
        0
    }
}

/// `v`, held within the bounds of `i64`.
pub open spec fn clamp_i64(v: int) -> int {
    if v > i64::MAX {
        i64::MAX as int
    } else if v < i64::MIN {
        i64::MIN as int
    } else {
        v
    }
}

fn roman_digit_exec(c: char) -> (r: i128)
    ensures
        r as int == roman_digit(c),
{
    if c == 'I' {
        1
    } else if c == 'V' {
        5
    } else if c == 'X' {
        10
    } else if c == 'L' {
        50
    } else if c == 'C' {
        100
    } else if c == 'D' {
        500
    } else if c == 'M' {
        1000
    } else {
        0
    }
}

proof fn lemma_roman_sum_bound(u: Seq<char>)
    ensures
        -1000 * u.len() <= roman_sum(u) <= 1000 * u.len(),
    decreases u.len(),
{
    if u.len() > 0 {
        lemma_roman_sum_bound(u.drop_first());
    }
}

/// The value of an upper-case Roman numeral (0 on any character outside
/// `IVXLCDM`), saturating at the bounds of `i64`.
pub fn roman_of_upper(u: &str) -> (r: i64)
    ensures
        r as int == clamp_i64(roman_value(u@)),
{
    let n = u.unicode_len();
    let mut k: usize = 0;
    while k < n
        invariant
            n == u@.len(),
            k <= n,
            forall|j: int| 0 <= j < k ==> is_roman_digit(#[trigger] u@[j]),
        decreases n - k,
    {
        let c = u.get_char(k);
        if roman_digit_exec(c) == 0 {
            assert(!is_roman_digit(u@[k as int]));
            return 0;
        }
        k = k + 1;
    }
    let mut total: i128 = 0;
    let mut prev: i128 = 0;
    let mut i: usize = n;
    assert(u@.skip(n as int) == Seq::<char>::empty());
    while i > 0
        invariant
            n == u@.len(),
            i <= n,
            total as int == roman_sum(u@.skip(i as int)),
            i < n ==> prev as int == roman_digit(u@[i as int]),
            i == n ==> prev == 0,
            -1000 * n <= total <= 1000 * n,
            n <= usize::MAX,
        decreases i,
    {
        let c = u.get_char(i - 1);
        let v = roman_digit_exec(c);
        proof {
            let t = u@.skip(i - 1);
            assert(t.drop_first() == u@.skip(i as int));
            assert(t[0] == c);
            if i < n {
                assert(t[1] == u@[i as int]);
            }
            lemma_roman_sum_bound(t);
        }
        if v < prev {
            total = total - v;
        } else {
            total = total + v;
        }
        prev = v;
        i = i - 1;
    }
    assert(u@.skip(0) == u@);
    if total > i64::MAX as i128 {
        i64::MAX
    } else if total < i64::MIN as i128 {
        i64::MIN
    } else {
        total as i64
    }
}

/// The value of a Roman numeral in either case: upper-cased, then read as
/// by `roman_of_upper`.
pub fn parse_roman(s: &str) -> (r: i64)
    ensures
        r as int == clamp_i64(roman_value(upper_of(s@))),
{
    let u = uppercase(s);
    roman_of_upper(u.as_str())
}

/// `number` in lower case, the form in which catalog numbers are stored.
pub fn normalize_catalog_number(number: &str) -> (r: String)
    ensures
        r@ == lower_of(number@),
{
    lowercase(number)
}

/// Name for where the case-insensitive regular expression `pattern` matches
/// in `text`: for each group of the pattern, group 0 first, the character
/// range that it matched, or `None` where it took no part; `None` where
/// `text` does not match.
pub uninterp spec fn captured_spans(pattern: Seq<char>, text: Seq<char>) -> Option<Seq<Option<(int, int)>>>;

/// Name for whether `pattern` compiles as a regular expression.
pub uninterp spec fn pattern_compiles(pattern: Seq<char>) -> bool;

pub open spec fn span_text(text: Seq<char>, sp: Option<(int, int)>) -> Option<Seq<char>> {
    match sp {
        Some((a, b)) => Some(text.subrange(a, b)),
        None => None,
    }
}

/// What groups `1..` of `pattern` capture in `text`: the text each matched,
/// or `None` where it took no part; `None` where `text` does not match.
pub open spec fn captured_groups(pattern: Seq<char>, text: Seq<char>) -> Option<Seq<Option<Seq<char>>>> {
    match captured_spans(pattern, text) {
        None => None,
        Some(sp) => Some(sp.drop_first().map_values(|x: Option<(int, int)>| span_text(text, x))),
    }
}

pub open spec fn groups_view(g: Seq<Option<String>>) -> Seq<Option<Seq<char>>> {
    g.map_values(|o: Option<String>| opt_view(o))
}

pub open spec fn spans_view(g: Seq<Option<(usize, usize)>>) -> Seq<Option<(int, int)>> {
    g.map_values(|o: Option<(usize, usize)>| match o {
        Some((a, b)) => Some((a as int, b as int)),
        None => None,
    })
}

/// Relies on `regex::RegexBuilder` with `case_insensitive(true)` to compile
/// `pattern` (`None` when it fails), then on `Regex::captures` and
/// `Captures::iter` for the groups of the first match in `text`;
/// `Match::start` and `Match::end` are byte offsets into `text`, given here
/// as character positions.
#[verifier::external_body]
pub(crate) fn capture_spans(pattern: &str, text: &str) -> (r: Option<Option<Vec<Option<(usize, usize)>>>>)
    ensures
        r is Some <==> pattern_compiles(pattern@),
        r matches Some(m) ==> (m is Some <==> captured_spans(pattern@, text@) is Some),
        r matches Some(Some(g)) ==> captured_spans(pattern@, text@) == Some(spans_view(g@)),
        r matches Some(Some(g)) ==> g@.len() >= 1 && forall|i: int| 0 <= i < g@.len() ==> (#[trigger] g@[i] matches Some((a, b)) ==> a <= b <= text@.len()),
{
    let re = match regex::RegexBuilder::new(pattern).case_insensitive(true).build() {
        Ok(re) => re,
        Err(_) => return None,
    };
    let at = |byte: usize| text[..byte].chars().count();
    match re.captures(text) {
        None => Some(None),
        Some(caps) => Some(Some(caps.iter().map(|m| m.map(|m| (at(m.start()), at(m.end())))).collect())),
    }
}

/// What groups `1..` of `pattern` capture in `text`; the outer `None`
/// when the pattern does not compile.
fn capture_groups(pattern: &str, text: &str) -> (r: Option<Option<Vec<Option<String>>>>)
    ensures
        r is Some <==> pattern_compiles(pattern@),
        r matches Some(m) ==> (m is Some <==> captured_groups(pattern@, text@) is Some),
        r matches Some(Some(g)) ==> captured_groups(pattern@, text@) == Some(groups_view(g@)),
{
    let spans = match capture_spans(pattern, text) {
        None => return None,
        Some(None) => return Some(None),
        Some(Some(sp)) => sp,
    };
    let ghost sv = spans_view(spans@);
    let mut out: Vec<Option<String>> = Vec::new();
    let mut i: usize = 1;
    while i < spans.len()
        invariant
            sv == spans_view(spans@),
            1 <= spans@.len(),
            forall|k: int| 0 <= k < spans@.len() ==> (#[trigger] spans@[k] matches Some((a, b)) ==> a <= b <= text@.len()),
            1 <= i <= spans@.len(),
            out@.len() == i - 1,
            forall|k: int| 0 <= k < i - 1 ==> opt_view(#[trigger] out@[k]) == span_text(text@, sv[k + 1]),
        decreases spans@.len() - i,
    {
        let piece = match spans[i] {
            Some((a, b)) => Some(text.substring_char(a, b).to_owned()),
            None => None,
        };
        out.push(piece);
        i = i + 1;
    }
    assert(groups_view(out@) =~= sv.drop_first().map_values(|x: Option<(int, int)>| span_text(text@, x)));
    Some(Some(out))
}

/// The largest capture group that the definition's sort keys read; 0 with none.
pub open spec fn max_group_of(sks: Seq<SortKey>) -> nat
    decreases sks.len(),
{
    if sks.len() == 0 {
        0
    } else {
        let rest = max_group_of(sks.drop_last());
        if sks.last().group as nat > rest {
            sks.last().group as nat
        } else {
            rest
        }
    }
}

/// The largest capture group that `d`'s sort keys read.
pub open spec fn max_group(d: CatalogDefinition) -> nat {
    match d.sort_keys {
        Some(sks) => max_group_of(sks@),
        None => 0,
    }
}

proof fn lemma_max_group_bound(sks: Seq<SortKey>)
    ensures
        max_group_of(sks) <= usize::MAX,
        forall|i: int| 0 <= i < sks.len() ==> (#[trigger] sks[i]).group <= max_group_of(sks),
    decreases sks.len(),
{
    if sks.len() > 0 {
        lemma_max_group_bound(sks.drop_last());
        assert forall|i: int| 0 <= i < sks.len() implies (#[trigger] sks[i]).group <= max_group_of(sks) by {
            if i < sks.len() - 1 {
                assert(sks[i] == sks.drop_last()[i]);
            }
        }
    }
}

pub(crate) fn max_group_exec(d: &CatalogDefinition) -> (r: usize)
    ensures
        r as nat == max_group(*d),
{
    match &d.sort_keys {
        None => 0,
        Some(sks) => {
            let mut m: usize = 0;
            let mut i: usize = 0;
            assert(sks@.subrange(0, 0) == Seq::<SortKey>::empty());
            while i < sks.len()
                invariant
                    i <= sks@.len(),
                    m as nat == max_group_of(sks@.subrange(0, i as int)),
                decreases sks@.len() - i,
            {
                assert(sks@.subrange(0, i + 1).drop_last() == sks@.subrange(0, i as int));
                if sks[i].group > m {
                    m = sks[i].group;
                }
                i = i + 1;
            }
            assert(sks@.subrange(0, sks@.len() as int) == sks@);
            m
        }
    }
}

/// The value that one sort key gives to the captured groups.
pub open spec fn field_value(sk: SortKey, caps: Seq<Option<Seq<char>>>) -> SortVal {
    let raw = if 1 <= sk.group && sk.group <= caps.len() { caps[sk.group - 1] } else { None };
    match raw {
        None => SortVal::NoneFirst,
        Some(t) => if t.len() == 0 {
            SortVal::NoneFirst
        } else if sk.sort_type@ == "int"@ {
            SortVal::Int(int_field(t))
        } else if sk.sort_type@ == "roman"@ {
            SortVal::Int(clamp_i64(roman_value(upper_of(t))))
        } else {
            SortVal::Str(t)
        },
    }
}

/// The key of `number` once the pattern has captured `caps` from it.
pub open spec fn key_from_groups(number: Seq<char>, d: CatalogDefinition, caps: Option<Seq<Option<Seq<char>>>>) -> Seq<SortVal> {
    match caps {
        None => fallback_key(number),
        Some(c) => match d.sort_keys {
            None => seq![SortVal::Str(number)],
            Some(sks) => sks@.map_values(|sk: SortKey| field_value(sk, c)),
        },
    }
}

/// The sort key of `number` under definition `d`.
pub open spec fn key_of(number: Seq<char>, d: CatalogDefinition) -> Seq<SortVal> {
    match d.pattern {
        None => seq![SortVal::Str(number)],
        Some(p) => if !pattern_compiles(p@) {
            fallback_key(number)
        } else {
            key_from_groups(number, d, captured_groups(p@, number))
        },
    }
}

fn field_value_exec(sk: &SortKey, caps: &Vec<Option<String>>) -> (r: SortValue)
    ensures
        r@ == field_value(*sk, groups_view(caps@)),
{
    let raw: Option<&String> = if 1 <= sk.group && sk.group <= caps.len() {
        match &caps[sk.group - 1] {
            Some(t) => Some(t),
            None => None,
        }
    } else {
        None
    };
    match raw {
        None => SortValue::NoneFirst,
        Some(t) => {
            if t.as_str().unicode_len() == 0 {
                SortValue::NoneFirst
            } else if str_eq(sk.sort_type.as_str(), "int") {
                SortValue::Int(parse_int_field(t.as_str()))
            } else if str_eq(sk.sort_type.as_str(), "roman") {
                SortValue::Int(parse_roman(t.as_str()))
            } else {
                SortValue::Str(t.clone())
            }
        },
    }
}

fn fallback_key_exec(number: &str) -> (r: Vec<SortValue>)
    ensures
        key_view(r@) == fallback_key(number@),
{
    let r = vec![SortValue::Int(FALLBACK_RANK), SortValue::Str(copy_str(number))];
    assert(key_view(r@) =~= fallback_key(number@));
    r
}

/// The typed sort key of `number` under definition `defn`: its raw text
/// without a pattern; the fallback key `[999999999, number]` where the
/// pattern does not compile or match; else one value per sort key, read from
/// its capture group (`NoneFirst` where the group is empty or absent).
pub fn sort_key(number: &str, defn: &CatalogDefinition) -> (r: Vec<SortValue>)
    ensures
        key_view(r@) == key_of(number@, *defn),
{
    let pattern = match &defn.pattern {
        None => {
            let r = vec![SortValue::Str(copy_str(number))];
            assert(key_view(r@) =~= seq![SortVal::Str(number@)]);
            return r;
        },
        Some(p) => p,
    };
    let caps = match capture_groups(pattern.as_str(), number) {
        None => return fallback_key_exec(number),
        Some(None) => return fallback_key_exec(number),
        Some(Some(c)) => c,
    };
    match &defn.sort_keys {
        None => {
            let r = vec![SortValue::Str(copy_str(number))];
            assert(key_view(r@) =~= seq![SortVal::Str(number@)]);
            r
        },
        Some(sks) => {
            let mut key: Vec<SortValue> = Vec::new();
            let mut i: usize = 0;
            while i < sks.len()
                invariant
                    i <= sks@.len(),
                    key@.len() == i,
                    forall|j: int| 0 <= j < i ==> (#[trigger] key@[j])@ == field_value(sks@[j], groups_view(caps@)),
                decreases sks@.len() - i,
            {
                key.push(field_value_exec(&sks[i], &caps));
                i = i + 1;
            }
            assert(key_view(key@) =~= sks@.map_values(|sk: SortKey| field_value(sk, groups_view(caps@))));
            key
        },
    }
}

/// Whether `number` names a group rather than a single entry: it is read by
/// the pattern and its most specific fields are absent.
pub open spec fn is_group_key(k: Seq<SortVal>) -> bool {
    !is_fallback(k) && k.len() > 0 && k.last() == SortVal::NoneFirst
}

/// Whether `number` under-specifies its scheme: its key is no fallback key
/// and ends in at least one absent field.
pub fn looks_like_group(number: &str, defn: &CatalogDefinition) -> (r: bool)
    ensures
        r == is_group_key(key_of(number@, *defn)),
{
    let key = sort_key(number, defn);
    if is_fallback_key(key.as_slice()) {
        return false;
    }
    key.len() > 0 && is_none_first(&key[key.len() - 1])
}

/// The key by which a number sorts: under a definition its sort key, without
/// one its raw text.
pub open spec fn number_key(n: Seq<char>, d: Option<CatalogDefinition>) -> Seq<SortVal> {
    match d {
        Some(d) => key_of(n, d),
        None => seq![SortVal::Str(n)],
    }
}

pub open spec fn deref_def(d: Option<&CatalogDefinition>) -> Option<CatalogDefinition> {
    match d {
        Some(d) => Some(*d),
        None => None,
    }
}

pub open spec fn strs_view(v: Seq<String>) -> Seq<Seq<char>> {
    v.map_values(|s: String| s@)
}

/// `x` placed into the sorted list `t` after every number whose key is not
/// greater than its own.
pub open spec fn insert_sorted(t: Seq<Seq<char>>, x: Seq<char>, d: Option<CatalogDefinition>) -> Seq<Seq<char>>
    decreases t.len(),
{
    if t.len() == 0 {
        seq![x]
    } else if !key_lt(number_key(x, d), number_key(t.last(), d)) {
        t.push(x)
    } else {
        insert_sorted(t.drop_last(), x, d).push(t.last())
    }
}

/// The numbers of `s` in key order; numbers with equal keys keep their order.
pub open spec fn sorted_numbers(s: Seq<Seq<char>>, d: Option<CatalogDefinition>) -> Seq<Seq<char>>
    decreases s.len(),
{
    if s.len() == 0 {
        s
    } else {
        insert_sorted(sorted_numbers(s.drop_last(), d), s.last(), d)
    }
}

/// No number's key is smaller than the key of the number before it.
pub open spec fn is_sorted_by_key(t: Seq<Seq<char>>, d: Option<CatalogDefinition>) -> bool {
    forall|i: int| 0 < i < t.len() ==> !key_lt(number_key(#[trigger] t[i], d), number_key(t[i - 1], d))
}

proof fn lemma_insert_at(t: Seq<Seq<char>>, x: Seq<char>, d: Option<CatalogDefinition>, j: int)
    requires
        0 <= j <= t.len(),
        forall|m: int| j <= m < t.len() ==> key_lt(number_key(x, d), number_key(#[trigger] t[m], d)),
        j == 0 || !key_lt(number_key(x, d), number_key(t[j - 1], d)),
    ensures
        insert_sorted(t, x, d) == t.insert(j, x),
    decreases t.len(),
{
    if j == t.len() {
        if t.len() == 0 {
            assert(t.insert(0, x) =~= seq![x]);
        } else {
            assert(t.insert(j, x) =~= t.push(x));
        }
    } else {
        let u = t.drop_last();
        assert(key_lt(number_key(x, d), number_key(t[t.len() - 1], d)));
        assert forall|m: int| j <= m < u.len() implies key_lt(number_key(x, d), number_key(#[trigger] u[m], d)) by {
            assert(u[m] == t[m]);
        }
        lemma_insert_at(u, x, d, j);
        assert(u.insert(j, x).push(t.last()) =~= t.insert(j, x));
    }
}

fn number_sort_key(n: &str, defn: Option<&CatalogDefinition>) -> (r: Vec<SortValue>)
    ensures
        key_view(r@) == number_key(n@, deref_def(defn)),
{
    match defn {
        Some(d) => sort_key(n, d),
        None => {
            let r = vec![SortValue::Str(copy_str(n))];
            assert(key_view(r@) =~= seq![SortVal::Str(n@)]);
            r
        },
    }
}

/// Sorts `numbers` by their sort keys under `defn` (by raw text without a
/// definition); the sort is stable.
pub fn sort_numbers(numbers: &mut Vec<String>, defn: Option<&CatalogDefinition>)
    ensures
        strs_view(final(numbers)@) == sorted_numbers(strs_view(old(numbers)@), deref_def(defn)),
{
    let ghost d = deref_def(defn);
    let ghost s = strs_view(numbers@);
    let n = numbers.len();
    let mut out: Vec<String> = Vec::new();
    let mut out_keys: Vec<Vec<SortValue>> = Vec::new();
    let mut i: usize = 0;
    assert(s.subrange(0, 0) =~= Seq::<Seq<char>>::empty());
    while i < n
        invariant
            n == numbers@.len(),
            s == strs_view(numbers@),
            d == deref_def(defn),
            i <= n,
            strs_view(out@) == sorted_numbers(s.subrange(0, i as int), d),
            out_keys@.len() == out@.len(),
            forall|m: int| 0 <= m < out@.len() ==> key_view((#[trigger] out_keys@[m])@) == number_key(out@[m]@, d),
        decreases n - i,
    {
        let x = numbers[i].clone();
        let kx = number_sort_key(numbers[i].as_str(), defn);
        let mut j: usize = out.len();
        while j > 0 && key_less(kx.as_slice(), out_keys[j - 1].as_slice())
            invariant
                j <= out@.len(),
                out_keys@.len() == out@.len(),
                forall|m: int| 0 <= m < out@.len() ==> key_view((#[trigger] out_keys@[m])@) == number_key(out@[m]@, d),
                key_view(kx@) == number_key(x@, d),
                forall|m: int| j <= m < out@.len() ==> key_lt(number_key(x@, d), number_key((#[trigger] out@[m])@, d)),
            decreases j,
        {
            j = j - 1;
        }
        proof {
            let t = strs_view(out@);
            assert forall|m: int| j <= m < t.len() implies key_lt(number_key(x@, d), number_key(#[trigger] t[m], d)) by {
                assert(t[m] == out@[m]@);
            }
            if j > 0 {
                assert(t[j - 1] == out@[j - 1]@);
            }
            lemma_insert_at(t, x@, d, j as int);
            assert(s.subrange(0, i + 1).drop_last() =~= s.subrange(0, i as int));
            assert(s.subrange(0, i + 1).last() == x@);
        }
        let ghost before = out@;
        out.insert(j, x);
        out_keys.insert(j, kx);
        proof {
            assert(strs_view(out@) =~= strs_view(before).insert(j as int, x@));
            assert forall|m: int| 0 <= m < out@.len() implies key_view((#[trigger] out_keys@[m])@) == number_key(out@[m]@, d) by {
                if m < j {
                } else if m == j {
                } else {
                    assert(out@[m] == before[m - 1]);
                }
            }
        }
        i = i + 1;
    }
    assert(s.subrange(0, n as int) =~= s);
    *numbers = out;
}

proof fn lemma_seq_lt_asymmetric(a: Seq<char>, b: Seq<char>)
    ensures
        seq_lt(a, b) ==> !seq_lt(b, a),
    decreases a.len(),
{
    if a.len() > 0 && b.len() > 0 && a[0] == b[0] {
        lemma_seq_lt_asymmetric(a.drop_first(), b.drop_first());
    }
}

proof fn lemma_seq_lt_transitive(a: Seq<char>, b: Seq<char>, c: Seq<char>)
    requires
        seq_lt(a, b),
        seq_lt(b, c),
    ensures
        seq_lt(a, c),
    decreases a.len(),
{
    if a.len() > 0 && b.len() > 0 && c.len() > 0 && a[0] == b[0] && b[0] == c[0] {
        lemma_seq_lt_transitive(a.drop_first(), b.drop_first(), c.drop_first());
    }
}

proof fn lemma_seq_lt_total(a: Seq<char>, b: Seq<char>)
    requires
        a != b,
    ensures
        seq_lt(a, b) || seq_lt(b, a),
    decreases a.len(),
{
    if a.len() > 0 && b.len() > 0 {
        if a[0] == b[0] {
            if a.drop_first() == b.drop_first() {
                assert(a =~= seq![a[0]] + a.drop_first());
                assert(b =~= seq![b[0]] + b.drop_first());
            }
            lemma_seq_lt_total(a.drop_first(), b.drop_first());
        } else {
            assert((a[0] as int) != (b[0] as int));
        }
    } else if a.len() == 0 && b.len() == 0 {
        assert(a =~= b);
    }
}

proof fn lemma_val_lt_asymmetric(a: SortVal, b: SortVal)
    ensures
        val_lt(a, b) ==> !val_lt(b, a),
{
    if let (SortVal::Str(x), SortVal::Str(y)) = (a, b) {
        lemma_seq_lt_asymmetric(x, y);
    }
}

proof fn lemma_val_lt_transitive(a: SortVal, b: SortVal, c: SortVal)
    requires
        val_lt(a, b),
        val_lt(b, c),
    ensures
        val_lt(a, c),
{
    if let (SortVal::Str(x), SortVal::Str(y), SortVal::Str(z)) = (a, b, c) {
        lemma_seq_lt_transitive(x, y, z);
    }
}

proof fn lemma_val_lt_total(a: SortVal, b: SortVal)
    requires
        a != b,
    ensures
        val_lt(a, b) || val_lt(b, a),
{
    if let (SortVal::Str(x), SortVal::Str(y)) = (a, b) {
        lemma_seq_lt_total(x, y);
    }
}

proof fn lemma_key_lt_asymmetric(a: Seq<SortVal>, b: Seq<SortVal>)
    ensures
        key_lt(a, b) ==> !key_lt(b, a),
    decreases a.len(),
{
    if a.len() > 0 && b.len() > 0 {
        lemma_val_lt_asymmetric(a[0], b[0]);
        lemma_val_lt_irreflexive(a[0]);
        if a[0] == b[0] {
            lemma_key_lt_asymmetric(a.drop_first(), b.drop_first());
        }
    }
}

proof fn lemma_key_lt_irreflexive(a: Seq<SortVal>)
    ensures
        !key_lt(a, a),
    decreases a.len(),
{
    if a.len() > 0 {
        lemma_val_lt_irreflexive(a[0]);
        lemma_key_lt_irreflexive(a.drop_first());
    }
}

proof fn lemma_key_lt_transitive(a: Seq<SortVal>, b: Seq<SortVal>, c: Seq<SortVal>)
    requires
        key_lt(a, b),
        key_lt(b, c),
    ensures
        key_lt(a, c),
    decreases a.len(),
{
    if a.len() > 0 {
        lemma_val_lt_irreflexive(a[0]);
        lemma_val_lt_irreflexive(b[0]);
        lemma_val_lt_asymmetric(a[0], b[0]);
        lemma_val_lt_asymmetric(b[0], c[0]);
        if val_lt(a[0], b[0]) && val_lt(b[0], c[0]) {
            lemma_val_lt_transitive(a[0], b[0], c[0]);
        } else if a[0] == b[0] && b[0] == c[0] {
            lemma_key_lt_transitive(a.drop_first(), b.drop_first(), c.drop_first());
        }
    }
}

proof fn lemma_key_lt_total(a: Seq<SortVal>, b: Seq<SortVal>)
    requires
        a != b,
    ensures
        key_lt(a, b) || key_lt(b, a),
    decreases a.len(),
{
    if a.len() > 0 && b.len() > 0 {
        if a[0] == b[0] {
            if a.drop_first() == b.drop_first() {
                assert(a =~= seq![a[0]] + a.drop_first());
                assert(b =~= seq![b[0]] + b.drop_first());
            }
            lemma_key_lt_total(a.drop_first(), b.drop_first());
        } else {
            lemma_val_lt_total(a[0], b[0]);
        }
    } else if a.len() == 0 && b.len() == 0 {
        assert(a =~= b);
    }
}

/// The order on sort keys is a strict total order: irreflexive, asymmetric,
/// transitive, and any two different keys are ordered one way or the other.
pub proof fn lemma_key_order_strict_total(a: Seq<SortVal>, b: Seq<SortVal>, c: Seq<SortVal>)
    ensures
        !key_lt(a, a),
        key_lt(a, b) ==> !key_lt(b, a),
        key_lt(a, b) && key_lt(b, c) ==> key_lt(a, c),
        a != b ==> key_lt(a, b) || key_lt(b, a),
{
    lemma_key_lt_irreflexive(a);
    lemma_key_lt_asymmetric(a, b);
    if key_lt(a, b) && key_lt(b, c) {
        lemma_key_lt_transitive(a, b, c);
    }
    if a != b {
        lemma_key_lt_total(a, b);
    }
}

proof fn lemma_insert_keeps_sorted(t: Seq<Seq<char>>, x: Seq<char>, d: Option<CatalogDefinition>)
    requires
        is_sorted_by_key(t, d),
    ensures
        is_sorted_by_key(insert_sorted(t, x, d), d),
        insert_sorted(t, x, d).len() == t.len() + 1,
        t.len() > 0 ==> (insert_sorted(t, x, d).last() == x || insert_sorted(t, x, d).last() == t.last()),
        t.len() == 0 ==> insert_sorted(t, x, d).last() == x,
    decreases t.len(),
{
    if t.len() == 0 {
    } else if !key_lt(number_key(x, d), number_key(t.last(), d)) {
        let r = t.push(x);
        assert forall|i: int| 0 < i < r.len() implies !key_lt(number_key(#[trigger] r[i], d), number_key(r[i - 1], d)) by {
            if i < t.len() {
                assert(r[i] == t[i]);
                assert(r[i - 1] == t[i - 1]);
            }
        }
    } else {
        let u = t.drop_last();
        assert forall|i: int| 0 < i < u.len() implies !key_lt(number_key(#[trigger] u[i], d), number_key(u[i - 1], d)) by {
            assert(u[i] == t[i]);
            assert(u[i - 1] == t[i - 1]);
        }
        lemma_insert_keeps_sorted(u, x, d);
        let v = insert_sorted(u, x, d);
        let r = v.push(t.last());
        lemma_key_lt_asymmetric(number_key(x, d), number_key(t.last(), d));
        if u.len() > 0 && v.last() == u.last() {
            assert(u.last() == t[t.len() - 2]);
        }
        assert forall|i: int| 0 < i < r.len() implies !key_lt(number_key(#[trigger] r[i], d), number_key(r[i - 1], d)) by {
            if i < v.len() {
                assert(r[i] == v[i]);
                assert(r[i - 1] == v[i - 1]);
            } else {
                assert(r[i - 1] == v.last());
            }
        }
    }
}

proof fn lemma_sorted_numbers_sorted(s: Seq<Seq<char>>, d: Option<CatalogDefinition>)
    ensures
        is_sorted_by_key(sorted_numbers(s, d), d),
        sorted_numbers(s, d).len() == s.len(),
    decreases s.len(),
{
    if s.len() > 0 {
        lemma_sorted_numbers_sorted(s.drop_last(), d);
        lemma_insert_keeps_sorted(sorted_numbers(s.drop_last(), d), s.last(), d);
    }
}

/// A list already in key order comes out of the sort unchanged; in
/// particular numbers with equal keys keep their order.
pub proof fn lemma_sorted_numbers_fixed(s: Seq<Seq<char>>, d: Option<CatalogDefinition>)
    requires
        is_sorted_by_key(s, d),
    ensures
        sorted_numbers(s, d) == s,
    decreases s.len(),
{
    if s.len() > 0 {
        let u = s.drop_last();
        assert forall|i: int| 0 < i < u.len() implies !key_lt(number_key(#[trigger] u[i], d), number_key(u[i - 1], d)) by {
            assert(u[i] == s[i]);
            assert(u[i - 1] == s[i - 1]);
        }
        lemma_sorted_numbers_fixed(u, d);
        if u.len() > 0 {
            assert(u.last() == s[s.len() - 2]);
        }
        assert(u.push(s.last()) =~= s);
    }
}

/// Sorting is idempotent: sorting a sorted list yields the same list.
pub proof fn lemma_sort_numbers_idempotent(s: Seq<Seq<char>>, d: Option<CatalogDefinition>)
    ensures
        sorted_numbers(sorted_numbers(s, d), d) == sorted_numbers(s, d),
        is_sorted_by_key(sorted_numbers(s, d), d),
{
    lemma_sorted_numbers_sorted(s, d);
    lemma_sorted_numbers_fixed(sorted_numbers(s, d), d);
}

proof fn lemma_insert_filter(t: Seq<Seq<char>>, x: Seq<char>, d: Option<CatalogDefinition>, k: Seq<SortVal>)
    ensures
        insert_sorted(t, x, d).filter(|y: Seq<char>| number_key(y, d) == k) == (if number_key(x, d) == k {
            t.filter(|y: Seq<char>| number_key(y, d) == k).push(x)
        } else {
            t.filter(|y: Seq<char>| number_key(y, d) == k)
        }),
    decreases t.len(),
{
    reveal_with_fuel(Seq::<Seq<char>>::filter, 1);
    let p = |y: Seq<char>| number_key(y, d) == k;
    if t.len() == 0 {
        assert(seq![x].drop_last() =~= Seq::<Seq<char>>::empty());
        assert(Seq::<Seq<char>>::empty().filter(p) =~= Seq::<Seq<char>>::empty());
    } else if !key_lt(number_key(x, d), number_key(t.last(), d)) {
        assert(t.push(x).drop_last() =~= t);
    } else {
        let u = t.drop_last();
        lemma_insert_filter(u, x, d, k);
        let v = insert_sorted(u, x, d);
        assert(v.push(t.last()).drop_last() =~= v);
        lemma_key_lt_irreflexive(number_key(x, d));
        if number_key(x, d) == k {
            assert(number_key(t.last(), d) != k);
        }
    }
}

/// Sorting is stable: for every key, the numbers with that key come out in
/// the order they went in.
pub proof fn lemma_sort_numbers_stable(s: Seq<Seq<char>>, d: Option<CatalogDefinition>, k: Seq<SortVal>)
    ensures
        sorted_numbers(s, d).filter(|y: Seq<char>| number_key(y, d) == k) == s.filter(|y: Seq<char>| number_key(y, d) == k),
    decreases s.len(),
{
    reveal_with_fuel(Seq::<Seq<char>>::filter, 1);
    if s.len() > 0 {
        lemma_sort_numbers_stable(s.drop_last(), d, k);
        lemma_insert_filter(sorted_numbers(s.drop_last(), d), s.last(), d, k);
    }
}

proof fn lemma_insert_sorted_multiset(t: Seq<Seq<char>>, x: Seq<char>, d: Option<CatalogDefinition>)
    ensures
        insert_sorted(t, x, d).to_multiset() =~= t.to_multiset().insert(x),
    decreases t.len(),
{
    broadcast use vstd::seq_lib::group_to_multiset_ensures;
    if t.len() == 0 {
        assert(seq![x] =~= Seq::<Seq<char>>::empty().push(x));
    } else if !key_lt(number_key(x, d), number_key(t.last(), d)) {
    } else {
        let u = t.drop_last();
        lemma_insert_sorted_multiset(u, x, d);
        assert(u.push(t.last()) =~= t);
    }
}

/// Sorting only reorders: the sorted list holds the same numbers, each as
/// often as the input does.
pub proof fn lemma_sort_numbers_permutes(s: Seq<Seq<char>>, d: Option<CatalogDefinition>)
    ensures
        sorted_numbers(s, d).to_multiset() =~= s.to_multiset(),
    decreases s.len(),
{
    broadcast use vstd::seq_lib::group_to_multiset_ensures;
    if s.len() > 0 {
        lemma_sort_numbers_permutes(s.drop_last(), d);
        lemma_insert_sorted_multiset(sorted_numbers(s.drop_last(), d), s.last(), d);
        assert(s.drop_last().push(s.last()) =~= s);
    }
}

/// Whether `g` is a prefix of `n`.
pub open spec fn is_prefix(g: Seq<char>, n: Seq<char>) -> bool {
    g.len() <= n.len() && n.subrange(0, g.len() as int) == g
}

/// The capture groups compared for group membership: `group_by` when set,
/// else every sort-key group but the last (all of them when there is one).
pub open spec fn compared_groups(d: CatalogDefinition) -> Seq<usize> {
    match d.group_by {
        Some(g) => g@,
        None => match d.sort_keys {
            Some(sks) => {
                let gs = sks@.map_values(|sk: SortKey| sk.group);
                if gs.len() > 1 {
                    gs.drop_last()
                } else {
                    gs
                }
            },
            None => Seq::empty(),
        },
    }
}

pub open spec fn captures_agree(a: Option<Seq<char>>, b: Option<Seq<char>>) -> bool {
    match (a, b) {
        (Some(x), Some(y)) => x == y,
        (None, None) => true,
        _ => false,
    }
}

/// Every compared group (ignoring indices outside `1..=count`) is captured
/// alike in both numbers.
pub open spec fn groups_agree(gs: Seq<usize>, count: nat, nc: Seq<Option<Seq<char>>>, gc: Seq<Option<Seq<char>>>) -> bool {
    forall|k: int| 0 <= k < gs.len() ==> (#[trigger] gs[k] == 0 || gs[k] > count || captures_agree(cap_at(nc, gs[k] - 1), cap_at(gc, gs[k] - 1)))
}

/// Group `i` of a capture list; `None` past its end.
pub open spec fn cap_at(caps: Seq<Option<Seq<char>>>, i: int) -> Option<Seq<char>> {
    if 0 <= i < caps.len() {
        caps[i]
    } else {
        None
    }
}

fn cap_at_exec(caps: &Vec<Option<String>>, i: usize) -> (r: &Option<String>)
    ensures
        opt_view(*r) == cap_at(groups_view(caps@), i as int),
{
    if i < caps.len() {
        &caps[i]
    } else {
        &None
    }
}

/// Whether number `n` belongs to group `g`.
pub open spec fn in_group(n: Seq<char>, g: Seq<char>, d: Option<CatalogDefinition>) -> bool {
    match d {
        None => is_prefix(g, n),
        Some(d) => match d.pattern {
            None => is_prefix(g, n),
            Some(p) => if !pattern_compiles(p@) {
                is_prefix(g, n)
            } else {
                match captured_groups(p@, n) {
                    None => false,
                    Some(nc) => match captured_groups(p@, g) {
                        None => is_prefix(g, n),
                        Some(gc) => groups_agree(compared_groups(d), max_group(d), nc, gc),
                    },
                }
            },
        },
    }
}

fn compared_groups_exec(d: &CatalogDefinition) -> (r: Vec<usize>)
    ensures
        r@ == compared_groups(*d),
{
    match &d.group_by {
        Some(g) => g.clone(),
        None => match &d.sort_keys {
            None => Vec::new(),
            Some(sks) => {
                let mut gs: Vec<usize> = Vec::new();
                let mut i: usize = 0;
                while i < sks.len()
                    invariant
                        i <= sks@.len(),
                        gs@ == sks@.subrange(0, i as int).map_values(|sk: SortKey| sk.group),
                    decreases sks@.len() - i,
                {
                    gs.push(sks[i].group);
                    i = i + 1;
                    assert(gs@ =~= sks@.subrange(0, i as int).map_values(|sk: SortKey| sk.group));
                }
                assert(sks@.subrange(0, sks@.len() as int) == sks@);
                if gs.len() > 1 {
                    gs.pop();
                }
                gs
            },
        },
    }
}

fn opt_str_eq(a: &Option<String>, b: &Option<String>) -> (r: bool)
    ensures
        r == captures_agree(opt_view(*a), opt_view(*b)),
{
    match (a, b) {
        (Some(x), Some(y)) => str_eq(x.as_str(), y.as_str()),
        (None, None) => true,
        _ => false,
    }
}

/// Whether `number` belongs to `group`: a prefix test without a definition
/// or pattern; else both are read by the pattern and must agree on every
/// compared group (a number the pattern does not read belongs to no group,
/// and a group it does not read falls back to the prefix test).
pub fn matches_group(number: &str, group: &str, defn: Option<&CatalogDefinition>) -> (r: bool)
    ensures
        r == in_group(number@, group@, deref_def(defn)),
{
    let d = match defn {
        None => return starts_with(number, group),
        Some(d) => d,
    };
    let pattern = match &d.pattern {
        None => return starts_with(number, group),
        Some(p) => p,
    };
    let count = max_group_exec(d);
    let nc = match capture_groups(pattern.as_str(), number) {
        None => return starts_with(number, group),
        Some(None) => return false,
        Some(Some(c)) => c,
    };
    let gc = match capture_groups(pattern.as_str(), group) {
        None => return starts_with(number, group),
        Some(None) => return starts_with(number, group),
        Some(Some(c)) => c,
    };
    let gs = compared_groups_exec(d);
    let mut k: usize = 0;
    while k < gs.len()
        invariant
            k <= gs@.len(),
            gs@ == compared_groups(*d),
            count as nat == max_group(*d),
            in_group(number@, group@, deref_def(defn)) == groups_agree(compared_groups(*d), max_group(*d), groups_view(nc@), groups_view(gc@)),
            forall|m: int| 0 <= m < k ==> (#[trigger] gs@[m] == 0 || gs@[m] > count
                || captures_agree(cap_at(groups_view(nc@), gs@[m] - 1), cap_at(groups_view(gc@), gs@[m] - 1))),
        decreases gs@.len() - k,
    {
        let gi = gs[k];
        if gi != 0 && gi <= count {
            if !opt_str_eq(cap_at_exec(&nc, gi - 1), cap_at_exec(&gc, gi - 1)) {
                proof {
                    assert(gs@[k as int] == gi);
                    assert(!groups_agree(compared_groups(*d), max_group(*d), groups_view(nc@), groups_view(gc@)));
                }
                return false;
            }
        }
        k = k + 1;
    }
    true
}

/// The text that a sort key's group captured; an empty capture counts as
/// none.
pub open spec fn field_text(sk: SortKey, caps: Seq<Option<Seq<char>>>) -> Option<Seq<char>> {
    let raw = if 1 <= sk.group && sk.group <= caps.len() { caps[sk.group - 1] } else { None };
    match raw {
        Some(t) => if t.len() == 0 {
            None
        } else {
            Some(t)
        },
        None => None,
    }
}

/// The text fields of a number that the pattern reads.
pub open spec fn fields_of(number: Seq<char>, d: CatalogDefinition) -> Seq<Option<Seq<char>>> {
    match (d.pattern, d.sort_keys) {
        (Some(p), Some(sks)) => match captured_groups(p@, number) {
            Some(c) => sks@.map_values(|sk: SortKey| field_text(sk, c)),
            None => Seq::empty(),
        },
        _ => Seq::empty(),
    }
}

/// Whether the pattern of `d` compiles and reads `number` through sort keys.
pub open spec fn reads(number: Seq<char>, d: CatalogDefinition) -> bool {
    &&& d.pattern is Some
    &&& d.sort_keys is Some
    &&& pattern_compiles(d.pattern->0@)
    &&& captured_groups(d.pattern->0@, number) is Some
}

/// Whether every sort key of `d` compares its field as text.
pub open spec fn text_fields_only(d: CatalogDefinition) -> bool {
    d.sort_keys matches Some(sks) && forall|i: int| 0 <= i < sks@.len() ==> (#[trigger] sks@[i]).sort_type@ != "int"@
        && sks@[i].sort_type@ != "roman"@
}

/// Keys follow the declared field types: for two numbers that the same
/// pattern reads, equal captured fields give equal keys, and one value per
/// sort key, read from its group by its type, stands in each key. Where
/// every field compares as text, equal keys also mean equal captured
/// fields, so distinct fields never compare equal.
pub proof fn lemma_key_fields(a: Seq<char>, b: Seq<char>, d: CatalogDefinition)
    requires
        reads(a, d),
        reads(b, d),
    ensures
        key_of(a, d).len() == d.sort_keys->0@.len(),
        forall|i: int| 0 <= i < d.sort_keys->0@.len() ==> #[trigger] key_of(a, d)[i] == field_value(
            d.sort_keys->0@[i],
            captured_groups(d.pattern->0@, a)->0,
        ),
        fields_of(a, d) == fields_of(b, d) ==> key_of(a, d) == key_of(b, d),
        text_fields_only(d) && key_of(a, d) == key_of(b, d) ==> fields_of(a, d) == fields_of(b, d),
{
    let sks = d.sort_keys->0@;
    let ca = captured_groups(d.pattern->0@, a)->0;
    let cb = captured_groups(d.pattern->0@, b)->0;
    if fields_of(a, d) == fields_of(b, d) {
        assert forall|i: int| 0 <= i < sks.len() implies field_value(sks[i], ca) == field_value(sks[i], cb) by {
            assert(fields_of(a, d)[i] == field_text(sks[i], ca));
            assert(fields_of(b, d)[i] == field_text(sks[i], cb));
        }
        assert(key_of(a, d) =~= key_of(b, d));
    }
    if text_fields_only(d) && key_of(a, d) == key_of(b, d) {
        assert forall|i: int| 0 <= i < sks.len() implies field_text(sks[i], ca) == field_text(sks[i], cb) by {
            assert(key_of(a, d)[i] == key_of(b, d)[i]);
            assert(sks[i].sort_type@ != "int"@ && sks[i].sort_type@ != "roman"@);
        }
        assert(fields_of(a, d) =~= fields_of(b, d));
    }
}

/// The standard spelling of a positive number in Roman numerals.
pub open spec fn roman_spelling(v: int) -> Seq<char>
    decreases v,
{
    if v <= 0 {
        Seq::empty()
    } else if v >= 1000 {
        "M"@ + roman_spelling(v - 1000)
    } else if v >= 900 {
        "CM"@ + roman_spelling(v - 900)
    } else if v >= 500 {
        "D"@ + roman_spelling(v - 500)
    } else if v >= 400 {
        "CD"@ + roman_spelling(v - 400)
    } else if v >= 100 {
        "C"@ + roman_spelling(v - 100)
    } else if v >= 90 {
        "XC"@ + roman_spelling(v - 90)
    } else if v >= 50 {
        "L"@ + roman_spelling(v - 50)
    } else if v >= 40 {
        "XL"@ + roman_spelling(v - 40)
    } else if v >= 10 {
        "X"@ + roman_spelling(v - 10)
    } else if v >= 9 {
        "IX"@ + roman_spelling(v - 9)
    } else if v >= 5 {
        "V"@ + roman_spelling(v - 5)
    } else if v >= 4 {
        "IV"@ + roman_spelling(v - 4)
    } else if v >= 1 {
        "I"@ + roman_spelling(v - 1)
    } else {
        Seq::empty()
    }
}

/// Whether a captured field is spelled the standard way for its type: an
/// `int` field as a decimal numeral without leading zeros, a `roman` field
/// (in either case) as the standard numeral of a value that fits in `i64`.
pub open spec fn canonical_field(sk: SortKey, t: Seq<char>) -> bool {
    if sk.sort_type@ == "int"@ {
        int_field(t) >= 0 && t == crate::display::decimal(int_field(t) as nat)
    } else if sk.sort_type@ == "roman"@ {
        0 < roman_value(upper_of(t)) <= i64::MAX && upper_of(t) == roman_spelling(roman_value(upper_of(t)))
    } else {
        true
    }
}

/// Every field that the sort keys of `d` read in `number` is spelled the
/// standard way.
pub open spec fn canonical_fields(number: Seq<char>, d: CatalogDefinition) -> bool {
    forall|i: int| 0 <= i < d.sort_keys->0@.len() ==> (#[trigger] field_text(d.sort_keys->0@[i], captured_groups(d.pattern->0@, number)->0)
        matches Some(t) ==> canonical_field(d.sort_keys->0@[i], t))
}

/// Whether two captured fields are the same for their type: both absent,
/// or the same text (Roman numerals compared case-insensitively).
pub open spec fn same_field(sk: SortKey, x: Option<Seq<char>>, y: Option<Seq<char>>) -> bool {
    match (x, y) {
        (None, None) => true,
        (Some(a), Some(b)) => if sk.sort_type@ == "roman"@ {
            upper_of(a) == upper_of(b)
        } else {
            a == b
        },
        _ => false,
    }
}

/// For numbers read by the same pattern whose fields are spelled the
/// standard way, equal keys mean the same captured fields: two distinct
/// well-formed numbers never compare equal.
pub proof fn lemma_canonical_keys_identify_fields(a: Seq<char>, b: Seq<char>, d: CatalogDefinition)
    requires
        reads(a, d),
        reads(b, d),
        canonical_fields(a, d),
        canonical_fields(b, d),
        key_of(a, d) == key_of(b, d),
    ensures
        forall|i: int| 0 <= i < d.sort_keys->0@.len() ==> same_field(
            #[trigger] d.sort_keys->0@[i],
            field_text(d.sort_keys->0@[i], captured_groups(d.pattern->0@, a)->0),
            field_text(d.sort_keys->0@[i], captured_groups(d.pattern->0@, b)->0),
        ),
{
    let sks = d.sort_keys->0@;
    let ca = captured_groups(d.pattern->0@, a)->0;
    let cb = captured_groups(d.pattern->0@, b)->0;
    assert forall|i: int| 0 <= i < sks.len() implies same_field(#[trigger] sks[i], field_text(sks[i], ca), field_text(sks[i], cb)) by {
        let sk = sks[i];
        assert(key_of(a, d)[i] == field_value(sk, ca));
        assert(key_of(b, d)[i] == field_value(sk, cb));
        assert(field_text(sk, ca) matches Some(t) ==> canonical_field(sk, t));
        assert(field_text(sk, cb) matches Some(t) ==> canonical_field(sk, t));
    }
}

} // verus!
