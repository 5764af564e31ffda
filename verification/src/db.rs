//! Database setup: which schema statements create indexes, and where an
//! SQLite connection URL keeps its database file.
use vstd::prelude::*;

use crate::text::{chars_of, contains_seq, find_chars, has_prefix, lemma_occurs_of_first, slice_chars, starts_with_chars, string_from_chars, trim, trim_range};

verus! {

/// Position of the first `c` in `s`, or its length where there is none.
pub open spec fn first_index_of(s: Seq<char>, c: char) -> int
    decreases s.len(),
{
    if s.len() == 0 {
        0
    } else if s[0] == c {
        0
    } else {
        1 + first_index_of(s.drop_first(), c)
    }
}

/// `first_index_of` is the position of the first `c`, or the length where
/// there is none.
pub proof fn lemma_first_index_of(s: Seq<char>, c: char)
    ensures
        0 <= first_index_of(s, c) <= s.len(),
        first_index_of(s, c) < s.len() ==> s[first_index_of(s, c)] == c,
        forall|k: int| 0 <= k < first_index_of(s, c) ==> s[k] != c,
    decreases s.len(),
{
    if s.len() > 0 && s[0] != c {
        lemma_first_index_of(s.drop_first(), c);
        assert forall|k: int| 0 <= k < first_index_of(s, c) implies s[k] != c by {
            if k > 0 {
                assert(s[k] == s.drop_first()[k - 1]);
            }
        }
    }
}

/// Index of the first `c` at or after `from`, or the length.
fn index_of_from(s: &[char], c: char, from: usize) -> (r: usize)
    requires
        from <= s@.len(),
    ensures
        r == from + first_index_of(s@.skip(from as int), c),
{
    proof {
        lemma_first_index_of(s@.skip(from as int), c);
    }
    let mut i = from;
    while i < s.len() && s[i] != c
        invariant
            from <= i <= s@.len(),
            forall|k: int| from <= k < i ==> s@[k] != c,
        decreases s.len() - i,
    {
        i = i + 1;
    }
    proof {
        let t = s@.skip(from as int);
        let f = first_index_of(t, c);
        if f < i - from {
            assert(t[f] == s@[from + f]);
        }
        if i - from < f {
            assert(t[i - from] == s@[i as int]);
        }
    }
    i
}

/// The first statement of an SQL text: its first line that is neither
/// blank nor a `--` comment, trimmed; empty when there is none.
pub open spec fn first_statement(sql: Seq<char>) -> Seq<char>
    decreases sql.len(),
{
    let i = first_index_of(sql, '\n');
    let line = trim(sql.take(i));
    if line.len() > 0 && !has_prefix(line, "--"@) {
        line
    } else if i >= sql.len() || i < 0 {
        seq![]
    } else {
        proof {
            lemma_first_index_of(sql, '\n');
        }
        first_statement(sql.skip(i + 1))
    }
}

/// A statement creates an index.
pub open spec fn index_statement(sql: Seq<char>) -> bool {
    has_prefix(first_statement(sql), "CREATE INDEX"@) || has_prefix(first_statement(sql), "CREATE UNIQUE INDEX"@)
}

/// Whether a schema statement creates an index, judged by its first line
/// that is not blank or a comment.
pub fn is_index_statement(sql: &str) -> (b: bool)
    ensures
        b == index_statement(sql@),
{
    proof {
        reveal_strlit("--");
        reveal_strlit("CREATE INDEX");
        reveal_strlit("CREATE UNIQUE INDEX");
    }
    let cs = chars_of(sql);
    let dashes = chars_of("--");
    let mut start: usize = 0;
    let mut stmt: Vec<char> = Vec::new();
    proof {
        assert(cs@.skip(0) =~= cs@);
    }
    while start < cs.len()
        invariant_except_break
            start <= cs@.len(),
            dashes@ == "--"@,
            stmt@.len() == 0,
            first_statement(cs@) == first_statement(cs@.skip(start as int)),
        ensures
            stmt@ == first_statement(cs@),
        decreases cs.len() - start,
    {
        assert(start < cs@.len());
        proof {
            lemma_first_index_of(cs@.skip(start as int), '\n');
        }
        let end = index_of_from(cs.as_slice(), '\n', start);
        let line = slice_chars(cs.as_slice(), start, end);
        let (a, b) = trim_range(line.as_slice());
        let t = slice_chars(line.as_slice(), a, b);
        proof {
            let rest = cs@.skip(start as int);
            assert(line@ =~= rest.take(end - start));
            assert(t@ == trim(rest.take(end - start)));
        }
        if t.len() > 0 && !starts_with_chars(t.as_slice(), dashes.as_slice()) {
            stmt = t;
            break;
        }
        if end >= cs.len() {
            proof {
                assert(first_statement(cs@.skip(start as int)) == Seq::<char>::empty());
            }
            break;
        }
        proof {
            assert(cs@.skip(start as int).skip(end - start + 1) =~= cs@.skip(end + 1));
        }
        start = end + 1;
    }
    let create_index = chars_of("CREATE INDEX");
    let create_unique = chars_of("CREATE UNIQUE INDEX");
    starts_with_chars(stmt.as_slice(), create_index.as_slice())
        || starts_with_chars(stmt.as_slice(), create_unique.as_slice())
}

/// The part of a URI before its query or fragment.
pub open spec fn strip_uri_suffix_spec(s: Seq<char>) -> Seq<char> {
    let q = first_index_of(s, '?');
    let f = first_index_of(s, '#');
    s.take(if q < f { q } else { f })
}

/// Drops a URI's query and fragment.
pub fn strip_uri_suffix(value: &[char]) -> (r: Vec<char>)
    ensures
        r@ == strip_uri_suffix_spec(value@),
{
    assert(value@.skip(0) =~= value@);
    let q = index_of_from(value, '?', 0);
    let f = index_of_from(value, '#', 0);
    let cut = if q < f { q } else { f };
    proof {
        lemma_first_index_of(value@, '?');
        lemma_first_index_of(value@, '#');
    }
    slice_chars(value, 0, cut)
}

/// Whether a URL names an in-memory database.
pub open spec fn memory_url(url: Seq<char>) -> bool {
    contains_seq(url, ":memory:"@) || contains_seq(url, "mode=memory"@)
}

/// Whether a URL names an in-memory database.
pub fn is_sqlite_memory_url(url: &[char]) -> (b: bool)
    ensures
        b == memory_url(url@),
{
    proof {
        reveal_strlit(":memory:");
        reveal_strlit("mode=memory");
    }
    let m = chars_of(":memory:");
    let mm = chars_of("mode=memory");
    let a = find_chars(url, m.as_slice()).is_some();
    let b = find_chars(url, mm.as_slice()).is_some();
    proof {
        lemma_occurs_of_first(url@, m@);
        lemma_occurs_of_first(url@, mm@);
    }
    a || b
}

/// `s` without every leading repetition of `//`.
pub open spec fn trim_leading_slashes(s: Seq<char>) -> Seq<char>
    decreases s.len(),
{
    if s.len() >= 2 && s[0] == '/' && s[1] == '/' {
        trim_leading_slashes(s.skip(2))
    } else {
        s
    }
}

fn strip_leading_slashes(s: &[char]) -> (r: Vec<char>)
    ensures
        r@ == trim_leading_slashes(s@),
{
    let mut i: usize = 0;
    assert(s@.skip(0) =~= s@);
    while s.len() - i >= 2 && s[i] == '/' && s[i + 1] == '/'
        invariant
            i <= s@.len(),
            trim_leading_slashes(s@) == trim_leading_slashes(s@.skip(i as int)),
        decreases s.len() - i,
    {
        proof {
            let t = s@.skip(i as int);
            assert(t.skip(2) =~= s@.skip(i + 2));
        }
        i = i + 2;
    }
    slice_chars(s, i, s.len())
}

/// The database file an SQLite URL names: none for an in-memory database,
/// an empty path, or a URL of another scheme. `sqlite://` is followed by the
/// path; after `sqlite:` or `file:` leading `//` are dropped; a query or
/// fragment is cut off; a bare path (no `scheme://`, and starting with `.`
/// or `/` or holding a `/`) is taken as it is.
pub open spec fn sqlite_path(url: Seq<char>) -> Option<Seq<char>> {
    let s = trim(url);
    let nonempty = |p: Seq<char>| if p.len() == 0 { None } else { Some(p) };
    if memory_url(s) {
        None
    } else if has_prefix(s, "sqlite://"@) {
        nonempty(strip_uri_suffix_spec(s.skip(9)))
    } else if has_prefix(s, "sqlite:"@) {
        nonempty(strip_uri_suffix_spec(trim_leading_slashes(s.skip(7))))
    } else if has_prefix(s, "file:"@) {
        if memory_url(s.skip(5)) {
            None
        } else {
            nonempty(strip_uri_suffix_spec(trim_leading_slashes(s.skip(5))))
        }
    } else if !contains_seq(s, "://"@) && ((s.len() > 0 && (s[0] == '.' || s[0] == '/')) || s.contains('/')) {
        Some(s)
    } else {
        None
    }
}

fn some_if_nonempty(p: Vec<char>) -> (r: Option<String>)
    ensures
        match r {
            Some(s) => p@.len() > 0 && s@ == p@,
            None => p@.len() == 0,
        },
{
    if p.len() == 0 {
        None
    } else {
        Some(string_from_chars(p.as_slice()))
    }
}

/// The path of the database file that an SQLite URL names.
pub fn sqlite_path_from_url(url: &str) -> (r: Option<String>)
    ensures
        match r {
            Some(p) => sqlite_path(url@) == Some(p@),
            None => sqlite_path(url@) is None,
        },
{
    proof {
        reveal_strlit("sqlite://");
        reveal_strlit("sqlite:");
        reveal_strlit("file:");
        reveal_strlit("://");
    }
    let all = chars_of(url);
    let (a, b) = trim_range(all.as_slice());
    let s = slice_chars(all.as_slice(), a, b);
    if is_sqlite_memory_url(s.as_slice()) {
        return None;
    }
    let p1 = chars_of("sqlite://");
    let p2 = chars_of("sqlite:");
    let p3 = chars_of("file:");
    if starts_with_chars(s.as_slice(), p1.as_slice()) {
        let rest = slice_chars(s.as_slice(), 9, s.len());
        assert(rest@ =~= s@.skip(9));
        return some_if_nonempty(strip_uri_suffix(rest.as_slice()));
    }
    if starts_with_chars(s.as_slice(), p2.as_slice()) {
        let rest = slice_chars(s.as_slice(), 7, s.len());
        assert(rest@ =~= s@.skip(7));
        let t = strip_leading_slashes(rest.as_slice());
        return some_if_nonempty(strip_uri_suffix(t.as_slice()));
    }
    if starts_with_chars(s.as_slice(), p3.as_slice()) {
        let rest = slice_chars(s.as_slice(), 5, s.len());
        assert(rest@ =~= s@.skip(5));
        if is_sqlite_memory_url(rest.as_slice()) {
            return None;
        }
        let t = strip_leading_slashes(rest.as_slice());
        return some_if_nonempty(strip_uri_suffix(t.as_slice()));
    }
    let sep = chars_of("://");
    let has_scheme = match find_chars(s.as_slice(), sep.as_slice()) {
        Some(_) => true,
        None => false,
    };
    let bare = !has_scheme && ((s.len() > 0 && (s[0] == '.' || s[0] == '/')) || crate::text::contains_char(s.as_slice(), '/'));
    if bare {
        Some(string_from_chars(s.as_slice()))
    } else {
        None
    }
}

} // verus!
