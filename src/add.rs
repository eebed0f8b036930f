//! New compositions: a skeleton document and a fresh ID.
use crate::text::push_char;
use vstd::prelude::*;

verus! {

/// Why a composition could not be added to the data directory.
#[derive(Debug, Clone)]
pub enum AddError {
    ReadError(String),
    ParseError(String),
    ValidationError(Vec<String>),
    WriteError(String),
    AlreadyExists(String),
}

/// The validation messages, each on an indented line of its own.
pub open spec fn message_lines(errs: Seq<String>) -> Seq<char>
    decreases errs.len(),
{
    if errs.len() == 0 {
        Seq::empty()
    } else {
        message_lines(errs.drop_last()) + "  "@ + errs.last()@ + "\n"@
    }
}

/// What an `AddError` says.
pub open spec fn add_error_text(e: AddError) -> Seq<char> {
    match e {
        AddError::ReadError(m) => "Failed to read file: "@ + m@,
        AddError::ParseError(m) => "Failed to parse: "@ + m@,
        AddError::ValidationError(errs) => "Validation errors:\n"@ + message_lines(errs@),
        AddError::WriteError(m) => "Failed to write: "@ + m@,
        AddError::AlreadyExists(p) => "File already exists: "@ + p@,
    }
}

impl AddError {
    /// A sentence describing the error; validation errors one per line.
    pub fn to_string(&self) -> (r: String)
        ensures
            r@ == add_error_text(*self),
    {
        match self {
            AddError::ReadError(e) => {
                let mut r = "Failed to read file: ".to_owned();
                r.append(e.as_str());
                r
            },
            AddError::ParseError(e) => {
                let mut r = "Failed to parse: ".to_owned();
                r.append(e.as_str());
                r
            },
            AddError::ValidationError(errs) => {
                let mut r = "Validation errors:\n".to_owned();
                let mut i: usize = 0;
                assert(errs@.subrange(0, 0) =~= Seq::<String>::empty());
                assert(r@ =~= "Validation errors:\n"@ + message_lines(errs@.subrange(0, 0)));
                while i < errs.len()
                    invariant
                        i <= errs@.len(),
                        r@ == "Validation errors:\n"@ + message_lines(errs@.subrange(0, i as int)),
                    decreases errs@.len() - i,
                {
                    proof {
                        let p = errs@.subrange(0, i + 1);
                        assert(p.drop_last() =~= errs@.subrange(0, i as int));
                        assert(p.last() == errs@[i as int]);
                    }
                    r.append("  ");
                    r.append(errs[i].as_str());
                    r.append("\n");
                    i = i + 1;
                }
                assert(errs@.subrange(0, i as int) =~= errs@);
                r
            },
            AddError::WriteError(e) => {
                let mut r = "Failed to write: ".to_owned();
                r.append(e.as_str());
                r
            },
            AddError::AlreadyExists(p) => {
                let mut r = "File already exists: ".to_owned();
                r.append(p.as_str());
                r
            },
        }
    }
}

/// Where a composition was added from and to.
#[derive(Debug, Clone)]
pub struct AddResult {
    pub id: String,
    pub source: String,
    pub destination: String,
}

/// A skeleton document with an ID, a form and one attribution entry.
pub open spec fn skeleton(id: Seq<char>, form: Seq<char>, composer: Seq<char>) -> Seq<char> {
    "{\n\t\"id\": \""@ + id + "\",\n\t\"form\": \""@ + form + "\",\n\t\"attribution\": [\n\t\t{\n\t\t\t\"composer\": \""@ + composer
        + "\"\n\t\t}\n\t]\n}"@
}

/// The text of a new composition document.
pub fn scaffold_composition(id: &str, form: &str, composer: &str) -> (r: String)
    ensures
        r@ == skeleton(id@, form@, composer@),
{
    let mut r = "{\n\t\"id\": \"".to_owned();
    r.append(id);
    r.append("\",\n\t\"form\": \"");
    r.append(form);
    r.append("\",\n\t\"attribution\": [\n\t\t{\n\t\t\t\"composer\": \"");
    r.append(composer);
    r.append("\"\n\t\t}\n\t]\n}");
    r
}

pub open spec fn hex_char(d: nat) -> char {
    if d < 10 {
        (('0' as nat) + d) as char
    } else {
        (('a' as nat) + (d - 10)) as char
    }
}

/// The last `n` hexadecimal digits of `v`, most significant first.
pub open spec fn hex_digits(v: nat, n: nat) -> Seq<char>
    decreases n,
{
    if n == 0 {
        Seq::empty()
    } else {
        hex_digits(v / 16, (n - 1) as nat).push(hex_char(v % 16))
    }
}

fn hex_char_exec(d: u32) -> (r: char)
    requires
        d < 16,
    ensures
        r == hex_char(d as nat),
{
    if d == 0 { '0' } else if d == 1 { '1' } else if d == 2 { '2' } else if d == 3 { '3' } else if d == 4 { '4' }
    else if d == 5 { '5' } else if d == 6 { '6' } else if d == 7 { '7' } else if d == 8 { '8' } else if d == 9 { '9' }
    else if d == 10 { 'a' } else if d == 11 { 'b' } else if d == 12 { 'c' } else if d == 13 { 'd' } else if d == 14 { 'e' }
    else { 'f' }
}

fn hex_string(v: u32, n: usize) -> (r: String)
    ensures
        r@ == hex_digits(v as nat, n as nat),
    decreases n,
{
    if n == 0 {
        return String::new();
    }
    let mut r = hex_string(v / 16, n - 1);
    push_char(&mut r, hex_char_exec(v % 16));
    r
}

/// The ID for a moment given in nanoseconds: its four 32-bit words folded
/// by exclusive or, as eight lower-case hexadecimal digits.
pub open spec fn id_for(nanos: u128) -> Seq<char> {
    hex_digits(((nanos ^ (nanos >> 32u32) ^ (nanos >> 64u32) ^ (nanos >> 96u32)) % 4294967296) as nat, 8)
}

/// The ID for a moment given in nanoseconds since the epoch.
pub fn id_from_nanos(nanos: u128) -> (r: String)
    ensures
        r@ == id_for(nanos),
        r@.len() == 8,
{
    let folded: u128 = nanos ^ (nanos >> 32u32) ^ (nanos >> 64u32) ^ (nanos >> 96u32);
    let low = (folded % 4294967296) as u32;
    let r = hex_string(low, 8);
    proof {
        lemma_hex_digits_len(low as nat, 8);
    }
    r
}

proof fn lemma_hex_digits_len(v: nat, n: nat)
    ensures
        hex_digits(v, n).len() == n,
    decreases n,
{
    if n > 0 {
        lemma_hex_digits_len(v / 16, (n - 1) as nat);
    }
}

} // verus!
