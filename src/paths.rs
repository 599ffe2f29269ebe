//! Path strings: joining a name onto a directory, the last component,
//! a file name's extension, and the path of a file relative to a base.
use vstd::prelude::*;

verus! {

/// Index of the last occurrence of `c` in `s`, or -1 when it does not occur.
pub open spec fn last_index(s: Seq<char>, c: char) -> int
    decreases s.len(),
{
    if s.len() == 0 {
        -1
    } else if s.last() == c {
        s.len() - 1
    } else {
        last_index(s.drop_last(), c)
    }
}

/// Where `last_index` points: at `c` itself, and nothing after it is `c`.
pub proof fn lemma_last_index(s: Seq<char>, c: char)
    ensures
        -1 <= last_index(s, c) < s.len(),
        last_index(s, c) >= 0 ==> s[last_index(s, c)] == c,
        forall|j: int| last_index(s, c) < j < s.len() ==> s[j] != c,
    decreases s.len(),
{
    if s.len() > 0 && s.last() != c {
        lemma_last_index(s.drop_last(), c);
        assert forall|j: int| last_index(s, c) < j < s.len() implies s[j] != c by {
            if j < s.len() - 1 {
                assert(s[j] == s.drop_last()[j]);
            }
        }
    }
}

/// A sequence in which `c` does not occur has no last index of it, and
/// appending a sequence without `c` keeps the last index.
pub proof fn lemma_last_index_append(s: Seq<char>, t: Seq<char>, c: char)
    requires
        forall|j: int| 0 <= j < t.len() ==> t[j] != c,
    ensures
        last_index(s + t, c) == last_index(s, c),
    decreases t.len(),
{
    if t.len() > 0 {
        assert((s + t).drop_last() =~= s + t.drop_last());
        lemma_last_index_append(s, t.drop_last(), c);
    } else {
        assert(s + t =~= s);
    }
}

/// The path separator.
pub open spec fn sep() -> char {
    '/'
}

/// True when `s` holds no separator.
pub open spec fn no_sep(s: Seq<char>) -> bool {
    forall|j: int| 0 <= j < s.len() ==> s[j] != sep()
}

/// `dir` joined with `name`: a separator is put between them unless `dir` is
/// empty or already ends with one.
pub open spec fn join_spec(dir: Seq<char>, name: Seq<char>) -> Seq<char> {
    if dir.len() == 0 || dir.last() == sep() {
        dir + name
    } else {
        dir + seq![sep()] + name
    }
}

/// `path` without the separators, and the `.` components, that end it.
pub open spec fn trim_end(path: Seq<char>) -> Seq<char>
    decreases path.len(),
{
    if path.len() > 0 && (path.last() == sep() || (path.len() >= 2 && path.last() == '.'
        && path[path.len() - 2] == sep())) {
        trim_end(path.drop_last())
    } else {
        path
    }
}

/// The final component of a path, or nothing where that component is `.`
/// or `..` or the path has none: what follows the last separator once
/// trailing separators and `.` components are gone.
pub open spec fn file_name_spec(path: Seq<char>) -> Seq<char> {
    let t = trim_end(path);
    let c = t.skip(last_index(t, sep()) + 1);
    if c == seq!['.'] || c == seq!['.', '.'] {
        seq![]
    } else {
        c
    }
}

/// The extension of a file name: what follows its last dot, where it has one.
pub open spec fn extension_spec(name: Seq<char>) -> Option<Seq<char>> {
    let k = last_index(name, '.');
    if k < 0 {
        None
    } else {
        Some(name.skip(k + 1))
    }
}

/// The path `path` relative to `base`, where `base` is a leading run of
/// whole components of `path`, as std's `Path::strip_prefix` gives it.
pub uninterp spec fn strip_prefix_of(path: Seq<char>, base: Seq<char>) -> Option<Seq<char>>;

/// Path error: a file's path does not start with the base directory.
#[derive(Debug, Clone, Copy, PartialEq, Eq, Structural)]
pub struct StripPrefixError;

/// Position of the last `c` in `s`.
pub fn find_last(s: &str, c: char) -> (r: Option<usize>)
    ensures
        match r {
            Some(i) => i as int == last_index(s@, c),
            None => last_index(s@, c) == -1,
        },
{
    let n = s.unicode_len();
    let mut i: usize = n;
    assert(s@.take(n as int) =~= s@);
    while i > 0
        invariant
            i <= n == s@.len(),
            last_index(s@, c) == last_index(s@.take(i as int), c),
        decreases i,
    {
        assert(s@.take(i as int).drop_last() =~= s@.take(i - 1));
        if s.get_char(i - 1) == c {
            return Some(i - 1);
        }
        i = i - 1;
    }
    None
}

/// Whether two strings hold the same characters.
pub fn same_chars(a: &str, b: &str) -> (r: bool)
    ensures
        r == (a@ == b@),
{
    let n = a.unicode_len();
    if n != b.unicode_len() {
        return false;
    }
    let mut i: usize = 0;
    while i < n
        invariant
            i <= n == a@.len() == b@.len(),
            forall|j: int| 0 <= j < i ==> a@[j] == b@[j],
        decreases n - i,
    {
        if a.get_char(i) != b.get_char(i) {
            return false;
        }
        i = i + 1;
    }
    assert(a@ =~= b@);
    true
}

/// `dir` joined with `name`.
pub fn join_path(dir: &str, name: &str) -> (r: String)
    ensures
        r@ == join_spec(dir@, name@),
{
    let n = dir.unicode_len();
    let mut r = String::from_str(dir);
    if n > 0 && dir.get_char(n - 1) != '/' {
        r.append("/");
        proof {
            reveal_strlit("/");
        }
    }
    r.append(name);
    r
}

/// The final component of `path`, or an empty string where it has none.
pub fn file_name_of(path: &str) -> (r: String)
    ensures
        r@ == file_name_spec(path@),
{
    let n = path.unicode_len();
    let mut e: usize = n;
    assert(path@.take(n as int) =~= path@);
    while e > 0 && (path.get_char(e - 1) == '/' || (e >= 2 && path.get_char(e - 1) == '.'
        && path.get_char(e - 2) == '/'))
        invariant
            e <= n == path@.len(),
            trim_end(path@) == trim_end(path@.take(e as int)),
        decreases e,
    {
        assert(path@.take(e as int).drop_last() =~= path@.take(e - 1));
        e = e - 1;
    }
    let t = path.substring_char(0, e);
    assert(t@ =~= path@.take(e as int));
    assert(trim_end(path@) == t@);
    proof {
        lemma_last_index(t@, sep());
        reveal_strlit(".");
        reveal_strlit("..");
    }
    let start: usize = match find_last(t, '/') {
        Some(i) => i + 1,
        None => 0,
    };
    let c = t.substring_char(start, e);
    if same_chars(c, ".") || same_chars(c, "..") {
        assert(c@ =~= seq!['.'] || c@ =~= seq!['.', '.']);
        return String::new();
    }
    assert(c@ != seq!['.']) by {
        if c@ == seq!['.'] {
            assert(c@ =~= "."@);
        }
    }
    assert(c@ != seq!['.', '.']) by {
        if c@ == seq!['.', '.'] {
            assert(c@ =~= ".."@);
        }
    }
    c.to_owned()
}

/// The extension of the file name `name`.
pub fn extension_of(name: &str) -> (r: Option<String>)
    ensures
        match r {
            Some(e) => extension_spec(name@) == Some(e@),
            None => extension_spec(name@) is None,
        },
{
    proof {
        lemma_last_index(name@, '.');
    }
    let n = name.unicode_len();
    match find_last(name, '.') {
        Some(k) => Some(name.substring_char(k + 1, n).to_owned()),
        None => None,
    }
}

/// Relies on std's `Path::strip_prefix`, which compares `path` and `base`
/// component by component and gives what follows `base` in `path`; the
/// result depends on the two paths alone.
#[verifier::external_body]
pub(crate) fn strip_base(path: &str, base: &str) -> (r: Result<String, StripPrefixError>)
    ensures
        match r {
            Ok(rel) => strip_prefix_of(path@, base@) == Some(rel@),
            Err(_) => strip_prefix_of(path@, base@) is None,
        },
{
    match std::path::Path::new(path).strip_prefix(base) {
        Ok(rel) => Ok(rel.display().to_string()),
        Err(_) => Err(StripPrefixError),
    }
}

} // verus!
