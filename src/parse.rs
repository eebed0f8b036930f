//! Where documents live: the two-level layout of composition files, and
//! reading an ID back from a path.
use crate::text::str_eq;
use vstd::prelude::*;

verus! {

/// `std::io::Error`, carried opaquely in `ParseError`.
#[verifier::external_type_specification]
#[verifier::external_body]
pub struct ExIoError(std::io::Error);

/// `serde_json::Error`, carried opaquely in `ParseError`.
#[verifier::external_type_specification]
#[verifier::external_body]
pub struct ExJsonError(serde_json::Error);

/// Why a document could not be read.
#[derive(Debug)]
pub enum ParseError {
    Io(std::io::Error),
    Json(serde_json::Error),
    InvalidPath(String),
}

/// `dir` and `part` joined by one `/` (just `part` when `dir` is empty).
pub open spec fn path_join(dir: Seq<char>, part: Seq<char>) -> Seq<char> {
    if dir.len() == 0 {
        part
    } else if dir.last() == '/' {
        dir + part
    } else {
        dir + seq!['/'] + part
    }
}

/// Joins `dir` and `part` with one `/`.
pub fn join_path(dir: &str, part: &str) -> (r: String)
    ensures
        r@ == path_join(dir@, part@),
{
    let n = dir.unicode_len();
    if n == 0 {
        return part.to_owned();
    }
    let mut r = dir.to_owned();
    if dir.get_char(n - 1) != '/' {
        r.append("/");
        proof {
            reveal_strlit("/");
        }
    }
    r.append(part);
    proof {
        if dir@.last() != '/' {
            assert("/"@ =~= seq!['/']);
        }
    }
    r
}

/// The file of composition `id` under `base_dir`: a directory named by its
/// first two characters, a file named by the other six and `.json`.
pub open spec fn id_path(base_dir: Seq<char>, id: Seq<char>) -> Seq<char> {
    path_join(path_join(base_dir, id.subrange(0, 2)), id.subrange(2, id.len() as int) + ".json"@)
}

/// The file of the composition with ID `id` under `base_dir`; an error
/// when the ID does not have eight characters.
pub fn path_for_id(base_dir: &str, id: &str) -> (r: Result<String, ParseError>)
    ensures
        id@.len() == 8 <==> r is Ok,
        r matches Ok(p) ==> p@ == id_path(base_dir@, id@),
{
    let n = id.unicode_len();
    if n != 8 {
        let mut msg = "ID must be 8 characters: ".to_owned();
        msg.append(id);
        return Err(ParseError::InvalidPath(msg));
    }
    Ok(id_file(base_dir, id))
}

fn id_file(base_dir: &str, id: &str) -> (r: String)
    requires
        id@.len() >= 2,
    ensures
        r@ == id_path(base_dir@, id@),
{
    let n = id.unicode_len();
    let prefix = id.substring_char(0, 2);
    let suffix = id.substring_char(2, n);
    let dir = join_path(base_dir, prefix);
    let mut file = suffix.to_owned();
    file.append(".json");
    join_path(dir.as_str(), file.as_str())
}

/// The file of composition `id` under `data_dir`'s `compositions` directory.
pub fn id_to_path(data_dir: &str, id: &str) -> (r: String)
    requires
        id@.len() >= 2,
    ensures
        r@ == id_path(path_join(data_dir@, "compositions"@), id@),
{
    let dir = join_path(data_dir, "compositions");
    id_file(dir.as_str(), id)
}

/// Position of the last `c` in `s`; -1 when there is none.
pub open spec fn last_pos(s: Seq<char>, c: char) -> int
    decreases s.len(),
{
    if s.len() == 0 {
        -1
    } else if s.last() == c {
        s.len() - 1
    } else {
        last_pos(s.drop_last(), c)
    }
}

proof fn lemma_last_pos_range(s: Seq<char>, c: char)
    ensures
        -1 <= last_pos(s, c) < s.len(),
        last_pos(s, c) >= 0 ==> s[last_pos(s, c)] == c,
    decreases s.len(),
{
    if s.len() > 0 {
        lemma_last_pos_range(s.drop_last(), c);
    }
}

/// Position of the last `c` in `s`.
pub fn last_index_of(s: &str, c: char) -> (r: Option<usize>)
    ensures
        match r {
            Some(i) => i as int == last_pos(s@, c) && i < s@.len(),
            None => last_pos(s@, c) == -1,
        },
{
    proof {
        lemma_last_pos_range(s@, c);
    }
    let mut i: usize = s.unicode_len();
    assert(s@.subrange(0, i as int) =~= s@);
    while i > 0
        invariant
            i <= s@.len(),
            last_pos(s@, c) == last_pos(s@.subrange(0, i as int), c),
        decreases i,
    {
        proof {
            let p = s@.subrange(0, i as int);
            assert(p.drop_last() =~= s@.subrange(0, i - 1));
        }
        if s.get_char(i - 1) == c {
            return Some(i - 1);
        }
        i = i - 1;
    }
    None
}

/// `s` without its trailing `/` characters.
pub open spec fn trim_slashes(s: Seq<char>) -> Seq<char>
    decreases s.len(),
{
    if s.len() > 0 && s.last() == '/' {
        trim_slashes(s.drop_last())
    } else {
        s
    }
}

fn trim_trailing_slashes(s: &str) -> (r: &str)
    ensures
        r@ == trim_slashes(s@),
{
    let mut n = s.unicode_len();
    assert(s@.subrange(0, n as int) =~= s@);
    while n > 0 && s.get_char(n - 1) == '/'
        invariant
            n <= s@.len(),
            trim_slashes(s@) == trim_slashes(s@.subrange(0, n as int)),
        decreases n,
    {
        proof {
            let p = s@.subrange(0, n as int);
            assert(p.drop_last() =~= s@.subrange(0, n - 1));
        }
        n = n - 1;
    }
    s.substring_char(0, n)
}

/// The last component of a path and what stands before it, as `Path`
/// splits them: trailing slashes are ignored; `None` for `..` or an empty
/// name.
pub open spec fn split_file(path: Seq<char>) -> Option<(Seq<char>, Option<Seq<char>>)> {
    let t = trim_slashes(path);
    let p = last_pos(t, '/');
    let name = t.subrange(p + 1, t.len() as int);
    if name.len() == 0 || name == ".."@ {
        None
    } else {
        Some((name, if p >= 0 { Some(t.subrange(0, p)) } else { None }))
    }
}

/// A file name without its extension: everything before the last `.`,
/// unless that `.` is the first character.
pub open spec fn file_stem(name: Seq<char>) -> Seq<char> {
    let p = last_pos(name, '.');
    if p > 0 {
        name.subrange(0, p)
    } else {
        name
    }
}

fn split_file_exec(path: &str) -> (r: Option<(&str, Option<&str>)>)
    ensures
        match r {
            Some((name, parent)) => split_file(path@) == Some((name@, crate::defs::opt_str_view(parent))),
            None => split_file(path@) is None,
        },
{
    let t = trim_trailing_slashes(path);
    let n = t.unicode_len();
    let p = last_index_of(t, '/');
    let start: usize = match p {
        Some(i) => i + 1,
        None => 0,
    };
    let name = t.substring_char(start, n);
    proof {
        reveal_strlit("..");
    }
    if name.unicode_len() == 0 || str_eq(name, "..") {
        return None;
    }
    let parent = match p {
        Some(i) => Some(t.substring_char(0, i)),
        None => None,
    };
    Some((name, parent))
}

fn file_stem_exec(name: &str) -> (r: &str)
    ensures
        r@ == file_stem(name@),
{
    match last_index_of(name, '.') {
        Some(i) => if i > 0 {
            name.substring_char(0, i)
        } else {
            name
        },
        None => name,
    }
}

/// The ID a composition file's path stands for: the name of its directory
/// followed by the stem of its file name.
pub open spec fn id_from_path(path: Seq<char>) -> Option<Seq<char>> {
    match split_file(path) {
        None => None,
        Some((name, parent)) => match parent {
            None => None,
            Some(dir) => match split_file(dir) {
                None => None,
                Some((dname, _)) => Some(dname + file_stem(name)),
            },
        },
    }
}

/// The name of a path's directory and the stem of its file name.
pub fn extract_parts(path: &str) -> (r: Option<(&str, &str)>)
    ensures
        match r {
            Some((d, stem)) => split_file(path@) matches Some((name, Some(dir))) && split_file(dir) matches Some((dname, _))
                && d@ == dname && stem@ == file_stem(name),
            None => !(split_file(path@) matches Some((name, Some(dir))) && split_file(dir) is Some),
        },
{
    let (name, parent) = match split_file_exec(path) {
        Some(x) => x,
        None => return None,
    };
    let dir = match parent {
        Some(d) => d,
        None => return None,
    };
    let (dname, _) = match split_file_exec(dir) {
        Some(x) => x,
        None => return None,
    };
    Some((dname, file_stem_exec(name)))
}

/// The ID of the composition stored at `path`; an error when the path has
/// no file name or no parent directory.
pub fn extract_id_from_path(path: &str) -> (r: Result<String, ParseError>)
    ensures
        match r {
            Ok(id) => id_from_path(path@) == Some(id@),
            Err(_) => id_from_path(path@) is None,
        },
{
    let (name, parent) = match split_file_exec(path) {
        Some(x) => x,
        None => return Err(ParseError::InvalidPath(path.to_owned())),
    };
    let dir = match parent {
        Some(d) => d,
        None => return Err(ParseError::InvalidPath(path.to_owned())),
    };
    let (dname, _) = match split_file_exec(dir) {
        Some(x) => x,
        None => return Err(ParseError::InvalidPath(path.to_owned())),
    };
    let mut id = dname.to_owned();
    id.append(file_stem_exec(name));
    Ok(id)
}

/// The path of collection `id` under `collections_dir`: `composer-name`
/// lives at `composer/name.json`, an ID without `-` at `id.json`.
pub open spec fn collection_path(collections_dir: Seq<char>, id: Seq<char>) -> Seq<char> {
    let p = first_pos(id, '-');
    if p >= 0 {
        path_join(path_join(collections_dir, id.subrange(0, p)), id.subrange(p + 1, id.len() as int) + ".json"@)
    } else {
        path_join(collections_dir, id + ".json"@)
    }
}

/// Position of the first `c` in `s`; -1 when there is none.
pub open spec fn first_pos(s: Seq<char>, c: char) -> int
    decreases s.len(),
{
    if s.len() == 0 {
        -1
    } else if first_pos(s.drop_last(), c) >= 0 {
        first_pos(s.drop_last(), c)
    } else if s.last() == c {
        s.len() - 1
    } else {
        -1
    }
}

/// Position of the first `c` in `s`.
pub fn first_index_of(s: &str, c: char) -> (r: Option<usize>)
    ensures
        match r {
            Some(i) => i as int == first_pos(s@, c) && i < s@.len(),
            None => first_pos(s@, c) == -1,
        },
{
    let n = s.unicode_len();
    let mut i: usize = 0;
    assert(s@.subrange(0, 0) =~= Seq::<char>::empty());
    while i < n
        invariant
            n == s@.len(),
            i <= n,
            first_pos(s@.subrange(0, i as int), c) == -1,
        decreases n - i,
    {
        proof {
            let p = s@.subrange(0, i + 1);
            assert(p.drop_last() =~= s@.subrange(0, i as int));
        }
        if s.get_char(i) == c {
            proof {
                lemma_first_pos_extends(s@, c, i as int + 1);
            }
            return Some(i);
        }
        i = i + 1;
    }
    assert(s@.subrange(0, n as int) =~= s@);
    None
}

/// What `first_pos` finds is the character sought; when it finds nothing,
/// the character does not occur.
pub proof fn lemma_first_pos_found(s: Seq<char>, c: char)
    ensures
        first_pos(s, c) >= 0 ==> first_pos(s, c) < s.len() && s[first_pos(s, c)] == c,
        first_pos(s, c) == -1 ==> !s.contains(c),
        first_pos(s, c) >= -1,
    decreases s.len(),
{
    if s.len() > 0 {
        lemma_first_pos_found(s.drop_last(), c);
        if first_pos(s, c) == -1 {
            assert forall|i: int| 0 <= i < s.len() implies s[i] != c by {
                if i < s.len() - 1 {
                    assert(s[i] == s.drop_last()[i]);
                }
            }
        }
    }
}

proof fn lemma_first_pos_extends(s: Seq<char>, c: char, m: int)
    requires
        0 <= m <= s.len(),
        first_pos(s.subrange(0, m), c) >= 0,
    ensures
        first_pos(s, c) == first_pos(s.subrange(0, m), c),
    decreases s.len() - m,
{
    if m < s.len() {
        let q = s.subrange(0, m + 1);
        assert(q.drop_last() =~= s.subrange(0, m));
        lemma_first_pos_extends(s, c, m + 1);
    } else {
        assert(s.subrange(0, m) =~= s);
    }
}

/// The file of collection `id` under `collections_dir`.
pub fn collection_path_from_id(collections_dir: &str, id: &str) -> (r: String)
    ensures
        r@ == collection_path(collections_dir@, id@),
{
    let n = id.unicode_len();
    match first_index_of(id, '-') {
        Some(p) => {
            let dir = join_path(collections_dir, id.substring_char(0, p));
            let mut file = id.substring_char(p + 1, n).to_owned();
            file.append(".json");
            join_path(dir.as_str(), file.as_str())
        },
        None => {
            let mut file = id.to_owned();
            file.append(".json");
            join_path(collections_dir, file.as_str())
        },
    }
}

} // verus!
