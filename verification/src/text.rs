//! Character-level text helpers shared by the whole library.
//!
//! Strings are modelled by their view, a `Seq<char>`. Byte lengths are the
//! UTF-8 encodings given by vstd's `encode_utf8`.
use vstd::prelude::*;
use vstd::utf8::*;

verus! {

/// Unicode `White_Space` property, the predicate behind `char::is_whitespace`
/// and `str::trim`.
pub open spec fn is_ws(c: char) -> bool {
    let u = c as u32;
    ||| 0x9 <= u <= 0xD
    ||| u == 0x20
    ||| u == 0x85
    ||| u == 0xA0
    ||| u == 0x1680
    ||| 0x2000 <= u <= 0x200A
    ||| u == 0x2028
    ||| u == 0x2029
    ||| u == 0x202F
    ||| u == 0x205F
    ||| u == 0x3000
}

/// Whether a character is Unicode white space.
pub fn is_whitespace(c: char) -> (b: bool)
    ensures
        b == is_ws(c),
{
    let u = c as u32;
    (0x9 <= u && u <= 0xD) || u == 0x20 || u == 0x85 || u == 0xA0 || u == 0x1680 || (0x2000 <= u
        && u <= 0x200A) || u == 0x2028 || u == 0x2029 || u == 0x202F || u == 0x205F || u == 0x3000
}

/// Drops leading white space.
pub open spec fn trim_start(s: Seq<char>) -> Seq<char>
    decreases s.len(),
{
    if s.len() > 0 && is_ws(s[0]) {
        trim_start(s.drop_first())
    } else {
        s
    }
}

/// Drops trailing white space.
pub open spec fn trim_end(s: Seq<char>) -> Seq<char>
    decreases s.len(),
{
    if s.len() > 0 && is_ws(s.last()) {
        trim_end(s.drop_last())
    } else {
        s
    }
}

/// Drops leading and trailing white space, as `str::trim` does.
pub open spec fn trim(s: Seq<char>) -> Seq<char> {
    trim_end(trim_start(s))
}

/// A sequence holding no character but white space.
pub open spec fn all_ws(s: Seq<char>) -> bool {
    forall|k: int| 0 <= k < s.len() ==> is_ws(#[trigger] s[k])
}

/// Blank characters at the start do not change what `trim_start` keeps.
pub proof fn lemma_trim_start_skip(s: Seq<char>, i: int)
    requires
        0 <= i <= s.len(),
        forall|k: int| 0 <= k < i ==> is_ws(#[trigger] s[k]),
    ensures
        trim_start(s) == trim_start(s.subrange(i, s.len() as int)),
    decreases i,
{
    if i == 0 {
        assert(s.subrange(0, s.len() as int) =~= s);
    } else {
        assert(is_ws(s[0]));
        let t = s.drop_first();
        assert forall|k: int| 0 <= k < i - 1 implies is_ws(#[trigger] t[k]) by {
            assert(t[k] == s[k + 1]);
        }
        lemma_trim_start_skip(t, i - 1);
        assert(t.subrange(i - 1, t.len() as int) =~= s.subrange(i, s.len() as int));
    }
}

/// Blank characters at the end do not change what `trim_end` keeps.
pub proof fn lemma_trim_end_skip(s: Seq<char>, j: int)
    requires
        0 <= j <= s.len(),
        forall|k: int| j <= k < s.len() ==> is_ws(#[trigger] s[k]),
    ensures
        trim_end(s) == trim_end(s.subrange(0, j)),
    decreases s.len() - j,
{
    if j == s.len() {
        assert(s.subrange(0, j) =~= s);
    } else {
        assert(is_ws(s.last()));
        let t = s.drop_last();
        assert forall|k: int| j <= k < t.len() implies is_ws(#[trigger] t[k]) by {
            assert(t[k] == s[k]);
        }
        lemma_trim_end_skip(t, j);
        assert(t.subrange(0, j) =~= s.subrange(0, j));
    }
}

/// A sequence that does not start with a blank is its own `trim_start`.
pub proof fn lemma_trim_start_stop(s: Seq<char>)
    requires
        s.len() == 0 || !is_ws(s[0]),
    ensures
        trim_start(s) == s,
{
}

/// A sequence that does not end with a blank is its own `trim_end`.
pub proof fn lemma_trim_end_stop(s: Seq<char>)
    requires
        s.len() == 0 || !is_ws(s.last()),
    ensures
        trim_end(s) == s,
{
}

/// `trim` of an all-blank sequence is empty, and conversely.
pub proof fn lemma_trim_empty_iff_all_ws(s: Seq<char>)
    ensures
        (trim(s).len() == 0) <==> all_ws(s),
    decreases s.len(),
{
    if s.len() == 0 {
    } else if is_ws(s[0]) {
        lemma_trim_empty_iff_all_ws(s.drop_first());
        assert(trim(s) == trim(s.drop_first()));
        if all_ws(s.drop_first()) {
            assert forall|k: int| 0 <= k < s.len() implies is_ws(#[trigger] s[k]) by {
                if k > 0 {
                    assert(s[k] == s.drop_first()[k - 1]);
                }
            }
        }
        if all_ws(s) {
            assert forall|k: int| 0 <= k < s.len() - 1 implies is_ws(#[trigger] s.drop_first()[k]) by {
                assert(s.drop_first()[k] == s[k + 1]);
            }
        }
    } else {
        assert(trim_start(s) == s);
        lemma_trim_end_nonempty_keeps_first(s);
        assert(!all_ws(s)) by {
            assert(!is_ws(s[0]));
        }
    }
}

/// What `trim_start` leaves starts with a character that is not blank.
pub proof fn lemma_trim_start_first(s: Seq<char>)
    ensures
        trim_start(s).len() == 0 || !is_ws(trim_start(s)[0]),
    decreases s.len(),
{
    if s.len() > 0 && is_ws(s[0]) {
        lemma_trim_start_first(s.drop_first());
    }
}

/// What `trim_end` leaves ends with a character that is not blank.
pub proof fn lemma_trim_end_last(s: Seq<char>)
    ensures
        trim_end(s).len() == 0 || !is_ws(trim_end(s).last()),
    decreases s.len(),
{
    if s.len() > 0 && is_ws(s.last()) {
        lemma_trim_end_last(s.drop_last());
    }
}

/// Trimming twice is trimming once.
pub proof fn lemma_trim_idempotent(s: Seq<char>)
    ensures
        trim(trim(s)) == trim(s),
{
    let u = trim_start(s);
    let t = trim_end(u);
    lemma_trim_start_first(s);
    lemma_trim_end_last(u);
    if u.len() > 0 {
        lemma_trim_end_nonempty_keeps_first(u);
        lemma_trim_start_stop(t);
        lemma_trim_end_stop(t);
    } else {
        assert(t.len() == 0);
    }
}

/// Trimming the end of a sequence whose first character is not blank keeps that character.
pub proof fn lemma_trim_end_nonempty_keeps_first(s: Seq<char>)
    requires
        s.len() > 0,
        !is_ws(s[0]),
    ensures
        trim_end(s).len() > 0,
        trim_end(s)[0] == s[0],
    decreases s.len(),
{
    if is_ws(s.last()) {
        let t = s.drop_last();
        assert(t.len() > 0);
        assert(t[0] == s[0]);
        lemma_trim_end_nonempty_keeps_first(t);
    }
}

/// Bounds `(a, b)` such that `v[a..b]` is `trim(v)`.
pub fn trim_range(v: &[char]) -> (r: (usize, usize))
    ensures
        r.0 <= r.1 <= v@.len(),
        v@.subrange(r.0 as int, r.1 as int) == trim(v@),
{
    let n = v.len();
    let mut a: usize = 0;
    while a < n && is_whitespace(v[a])
        invariant
            a <= n == v@.len(),
            forall|k: int| 0 <= k < a ==> is_ws(#[trigger] v@[k]),
        decreases n - a,
    {
        a = a + 1;
    }
    proof {
        lemma_trim_start_skip(v@, a as int);
        let t = v@.subrange(a as int, n as int);
        lemma_trim_start_stop(t);
    }
    let mut b: usize = n;
    while b > a && is_whitespace(v[b - 1])
        invariant
            a <= b <= n == v@.len(),
            forall|k: int| b <= k < n ==> is_ws(#[trigger] v@[k]),
        decreases b,
    {
        b = b - 1;
    }
    proof {
        let t = v@.subrange(a as int, n as int);
        assert forall|k: int| b - a <= k < t.len() implies is_ws(#[trigger] t[k]) by {
            assert(t[k] == v@[k + a]);
        }
        lemma_trim_end_skip(t, b - a);
        let u = t.subrange(0, b - a);
        assert(u =~= v@.subrange(a as int, b as int));
        lemma_trim_end_stop(u);
    }
    (a, b)
}

/// Appends the UTF-8 encoding of a character.
fn push_utf8(out: &mut Vec<u8>, c: char)
    ensures
        final(out)@ == old(out)@ + encode_scalar(c as u32),
{
    proof {
        char_is_scalar(c);
    }
    let u = c as u32;
    if u <= 0x7F {
        out.push((u & 0x7F) as u8);
    } else if u <= 0x7FF {
        out.push(0xC0 | ((u >> 6) & 0x1F) as u8);
        out.push(0x80 | (u & 0x3F) as u8);
    } else if u <= 0xFFFF {
        out.push(0xE0 | ((u >> 12) & 0x0F) as u8);
        out.push(0x80 | ((u >> 6) & 0x3F) as u8);
        out.push(0x80 | (u & 0x3F) as u8);
    } else {
        out.push(0xF0 | ((u >> 18) & 0x7) as u8);
        out.push(0x80 | ((u >> 12) & 0x3F) as u8);
        out.push(0x80 | ((u >> 6) & 0x3F) as u8);
        out.push(0x80 | (u & 0x3F) as u8);
    }
    assert(out@ =~= old(out)@ + encode_scalar(c as u32));
}

/// A new `String` holding the given characters: their UTF-8 encoding, read
/// back as text.
pub(crate) fn string_from_chars(v: &[char]) -> (s: String)
    ensures
        s@ == v@,
{
    let mut bytes: Vec<u8> = Vec::new();
    let mut i: usize = 0;
    while i < v.len()
        invariant
            i <= v@.len(),
            bytes@ == encode_utf8(v@.take(i as int)),
        decreases v@.len() - i,
    {
        let ghost before = v@.take(i as int);
        push_utf8(&mut bytes, v[i]);
        proof {
            assert(v@.take(i + 1) =~= before + seq![v@[i as int]]);
            lemma_encode_utf8_concat(before, seq![v@[i as int]]);
            let one = seq![v@[i as int]];
            assert(one.drop_first() =~= Seq::<char>::empty());
            assert(encode_utf8(one) =~= encode_scalar(v@[i as int] as u32) + encode_utf8(one.drop_first()));
            assert(encode_utf8(one.drop_first()) =~= Seq::<u8>::empty());
        }
        i = i + 1;
    }
    proof {
        assert(v@.take(v@.len() as int) =~= v@);
        encode_utf8_valid_utf8(v@);
        encode_utf8_decode_utf8(v@);
    }
    match str_from_utf8(bytes.as_slice()) {
        Some(t) => String::from_str(t),
        None => String::new(),
    }
}

/// Characters of a string slice, in order.
pub fn chars_of(s: &str) -> (v: Vec<char>)
    ensures
        v@ == s@,
{
    let mut v: Vec<char> = Vec::new();
    for c in it: s.chars()
        invariant
            v@ == it.seq().take(it.index() as int),
    {
        v.push(c);
    }
    v
}

/// Appends a slice of characters to a vector.
pub fn extend_chars(out: &mut Vec<char>, more: &[char])
    ensures
        final(out)@ == old(out)@ + more@,
{
    let n = more.len();
    let mut i: usize = 0;
    while i < n
        invariant
            i <= n == more@.len(),
            out@ == old(out)@ + more@.subrange(0, i as int),
        decreases n - i,
    {
        out.push(more[i]);
        i = i + 1;
        assert(more@.subrange(0, i as int) =~= more@.subrange(0, i - 1) + seq![more@[i - 1]]);
    }
    assert(more@.subrange(0, n as int) =~= more@);
}

/// Appends the characters of a string slice to a vector.
pub fn extend_str(out: &mut Vec<char>, more: &str)
    ensures
        final(out)@ == old(out)@ + more@,
{
    let cs = chars_of(more);
    extend_chars(out, cs.as_slice());
}

/// The trimmed copy of a string slice, as `s.trim().to_string()` gives it.
pub fn trimmed(s: &str) -> (r: String)
    ensures
        r@ == trim(s@),
{
    let v = chars_of(s);
    let (a, b) = trim_range(v.as_slice());
    let w = slice_chars(v.as_slice(), a, b);
    string_from_chars(w.as_slice())
}

/// Copy of `v[a..b]`.
pub fn slice_chars(v: &[char], a: usize, b: usize) -> (w: Vec<char>)
    requires
        a <= b <= v@.len(),
    ensures
        w@ == v@.subrange(a as int, b as int),
{
    let mut w: Vec<char> = Vec::new();
    let mut i = a;
    while i < b
        invariant
            a <= i <= b <= v@.len(),
            w@ == v@.subrange(a as int, i as int),
        decreases b - i,
    {
        w.push(v[i]);
        i = i + 1;
        assert(v@.subrange(a as int, i as int) =~= v@.subrange(a as int, i - 1) + seq![v@[i - 1]]);
    }
    w
}

/// Two character sequences are equal.
pub fn chars_eq(x: &[char], y: &[char]) -> (b: bool)
    ensures
        b == (x@ == y@),
{
    if x.len() != y.len() {
        return false;
    }
    let n = x.len();
    let mut i: usize = 0;
    while i < n
        invariant
            i <= n == x@.len() == y@.len(),
            forall|k: int| 0 <= k < i ==> x@[k] == y@[k],
        decreases n - i,
    {
        if x[i] != y[i] {
            return false;
        }
        i = i + 1;
    }
    assert(x@ =~= y@);
    true
}

/// Two string slices hold the same characters, as `==` on `str` compares them.
pub fn str_eq(x: &str, y: &str) -> (b: bool)
    ensures
        b == (x@ == y@),
{
    let a = chars_of(x);
    let c = chars_of(y);
    chars_eq(a.as_slice(), c.as_slice())
}

/// `p` is a prefix of `s`.
pub open spec fn has_prefix(s: Seq<char>, p: Seq<char>) -> bool {
    p.len() <= s.len() && s.subrange(0, p.len() as int) == p
}

/// `p` is a suffix of `s`.
pub open spec fn has_suffix(s: Seq<char>, p: Seq<char>) -> bool {
    p.len() <= s.len() && s.subrange(s.len() - p.len(), s.len() as int) == p
}

/// `p` occurs in `s` at position `i`.
pub open spec fn occurs_at(s: Seq<char>, p: Seq<char>, i: int) -> bool {
    0 <= i && i + p.len() <= s.len() && s.subrange(i, i + p.len()) == p
}

/// `p` occurs somewhere in `s`.
pub open spec fn contains_seq(s: Seq<char>, p: Seq<char>) -> bool {
    exists|i: int| occurs_at(s, p, i)
}

/// Position of the first occurrence of `p` in `s`.
pub open spec fn first_occurrence(s: Seq<char>, p: Seq<char>) -> Option<int> {
    if contains_seq(s, p) {
        Some(
            choose|i: int|
                occurs_at(s, p, i) && forall|j: int| 0 <= j < i ==> !occurs_at(s, p, j),
        )
    } else {
        None
    }
}

/// Whether `p` occurs in `s` at `i`.
pub fn matches_at(s: &[char], p: &[char], i: usize) -> (b: bool)
    ensures
        b == occurs_at(s@, p@, i as int),
{
    if i > s.len() || p.len() > s.len() - i {
        return false;
    }
    let n = p.len();
    let mut k: usize = 0;
    while k < n
        invariant
            k <= n == p@.len(),
            i + n <= s@.len() <= usize::MAX,
            forall|j: int| 0 <= j < k ==> s@[i + j] == p@[j],
        decreases n - k,
    {
        if s[i + k] != p[k] {
            assert(s@.subrange(i as int, i + n)[k as int] != p@[k as int]);
            return false;
        }
        k = k + 1;
    }
    assert(s@.subrange(i as int, i + n) =~= p@);
    true
}

/// The first position at which `p` occurs in `s`, as `str::find` gives it
/// (counted in characters).
pub fn find_chars(s: &[char], p: &[char]) -> (r: Option<usize>)
    ensures
        match r {
            Some(i) => first_occurrence(s@, p@) == Some(i as int),
            None => first_occurrence(s@, p@) is None,
        },
{
    let n = s.len();
    let mut i: usize = 0;
    while i < n
        invariant
            i <= n == s@.len(),
            forall|j: int| 0 <= j < i ==> !occurs_at(s@, p@, j),
        decreases n - i,
    {
        if matches_at(s, p, i) {
            proof {
                lemma_first_occurrence_at(s@, p@, i as int);
            }
            return Some(i);
        }
        i = i + 1;
    }
    if matches_at(s, p, n) {
        proof {
            lemma_first_occurrence_at(s@, p@, n as int);
        }
        return Some(n);
    }
    assert forall|j: int| !occurs_at(s@, p@, j) by {
        if 0 <= j && j + p@.len() <= s@.len() {
            assert(j <= n);
        }
    }
    None
}

proof fn lemma_first_occurrence_at(s: Seq<char>, p: Seq<char>, i: int)
    requires
        occurs_at(s, p, i),
        forall|j: int| 0 <= j < i ==> !occurs_at(s, p, j),
    ensures
        first_occurrence(s, p) == Some(i),
{
    let w = choose|w: int| occurs_at(s, p, w) && forall|j: int| 0 <= j < w ==> !occurs_at(s, p, j);
    assert(occurs_at(s, p, w));
    if w < i {
        assert(!occurs_at(s, p, w));
    } else if w > i {
        assert(!occurs_at(s, p, i));
    }
}

/// The first occurrence, where there is one, is an occurrence with none
/// before it.
pub proof fn lemma_occurs_of_first(s: Seq<char>, p: Seq<char>)
    ensures
        contains_seq(s, p) <==> first_occurrence(s, p) is Some,
        first_occurrence(s, p) matches Some(i) ==> occurs_at(s, p, i) && 0 <= i && i + p.len() <= s.len()
            && forall|j: int| 0 <= j < i ==> !occurs_at(s, p, j),
{
    if contains_seq(s, p) {
        let w = choose|w: int| occurs_at(s, p, w);
        lemma_least_occurrence(s, p, w);
    }
}

proof fn lemma_least_occurrence(s: Seq<char>, p: Seq<char>, w: int)
    requires
        occurs_at(s, p, w),
    ensures
        exists|i: int| occurs_at(s, p, i) && forall|j: int| 0 <= j < i ==> !occurs_at(s, p, j),
    decreases w,
{
    if exists|j: int| 0 <= j < w && occurs_at(s, p, j) {
        let j = choose|j: int| 0 <= j < w && occurs_at(s, p, j);
        lemma_least_occurrence(s, p, j);
    } else {
        assert(occurs_at(s, p, w) && forall|j: int| 0 <= j < w ==> !occurs_at(s, p, j));
    }
}

/// `s` starts with `p`.
pub fn starts_with_chars(s: &[char], p: &[char]) -> (b: bool)
    ensures
        b == has_prefix(s@, p@),
{
    matches_at(s, p, 0)
}

/// `s` ends with `p`.
pub fn ends_with_chars(s: &[char], p: &[char]) -> (b: bool)
    ensures
        b == has_suffix(s@, p@),
{
    if p.len() > s.len() {
        return false;
    }
    matches_at(s, p, s.len() - p.len())
}

/// Whether the character occurs in the sequence.
pub fn contains_char(s: &[char], c: char) -> (b: bool)
    ensures
        b == s@.contains(c),
{
    let n = s.len();
    let mut i: usize = 0;
    while i < n
        invariant
            i <= n == s@.len(),
            forall|k: int| 0 <= k < i ==> s@[k] != c,
        decreases n - i,
    {
        if s[i] == c {
            assert(s@[i as int] == c);
            return true;
        }
        i = i + 1;
    }
    false
}

/// The decimal digit character for `d`.
pub open spec fn digit_char(d: nat) -> char {
    (48 + d) as char
}

/// Decimal notation of a natural number, as `Display` writes it.
pub open spec fn decimal_nat(n: nat) -> Seq<char>
    decreases n,
{
    if n < 10 {
        seq![digit_char(n)]
    } else {
        decimal_nat(n / 10).push(digit_char(n % 10))
    }
}

/// Decimal notation of an integer, with a leading `-` when negative.
pub open spec fn decimal_int(i: int) -> Seq<char> {
    if i < 0 {
        seq!['-'] + decimal_nat((-i) as nat)
    } else {
        decimal_nat(i as nat)
    }
}

fn push_decimal(n: u64, out: &mut Vec<char>)
    ensures
        final(out)@ == old(out)@ + decimal_nat(n as nat),
    decreases n,
{
    if n >= 10 {
        push_decimal(n / 10, out);
    }
    let d = (n % 10) as u8;
    let c = (48u8 + d) as char;
    assert(c == digit_char((n % 10) as nat));
    out.push(c);
    proof {
        if n >= 10 {
            assert(decimal_nat(n as nat) == decimal_nat((n / 10) as nat).push(
                digit_char((n % 10) as nat),
            ));
        }
    }
}

/// Appends the decimal notation of `i` to `out`.
pub fn push_i64(i: i64, out: &mut Vec<char>)
    ensures
        final(out)@ == old(out)@ + decimal_int(i as int),
{
    if i < 0 {
        out.push('-');
        let m: u64 = (0i128 - (i as i128)) as u64;
        push_decimal(m, out);
        assert(old(out)@.push('-') + decimal_nat(m as nat) =~= old(out)@ + (seq!['-'] + decimal_nat(
            m as nat,
        )));
    } else {
        push_decimal(i as u64, out);
    }
}

/// Appends the decimal notation of `n` to `out`.
pub fn push_usize(n: usize, out: &mut Vec<char>)
    ensures
        final(out)@ == old(out)@ + decimal_nat(n as nat),
{
    push_decimal(n as u64, out);
}

/// Length in bytes of the UTF-8 encoding of a character sequence.
pub open spec fn utf8_len(s: Seq<char>) -> nat {
    encode_utf8(s).len()
}

/// Encoding distributes over concatenation.
pub proof fn lemma_encode_utf8_concat(a: Seq<char>, b: Seq<char>)
    ensures
        encode_utf8(a + b) == encode_utf8(a) + encode_utf8(b),
    decreases a.len(),
{
    if a.len() == 0 {
        assert(a + b =~= b);
        assert(encode_utf8(a) =~= Seq::<u8>::empty());
        assert(encode_utf8(a) + encode_utf8(b) =~= encode_utf8(b));
    } else {
        lemma_encode_utf8_concat(a.drop_first(), b);
        assert((a + b).drop_first() =~= a.drop_first() + b);
        assert((a + b)[0] == a[0]);
        assert(encode_utf8(a + b) =~= encode_scalar(a[0] as u32) + encode_utf8(a.drop_first() + b));
        assert(encode_utf8(a) =~= encode_scalar(a[0] as u32) + encode_utf8(a.drop_first()));
    }
}

/// Byte length of a single character's encoding.
pub proof fn lemma_utf8_len_single(c: char)
    ensures
        utf8_len(seq![c]) == if (c as u32) <= 0x7F {
            1nat
        } else if (c as u32) <= 0x7FF {
            2nat
        } else if (c as u32) <= 0xFFFF {
            3nat
        } else {
            4nat
        },
{
    let s = seq![c];
    assert(s.drop_first() =~= Seq::<char>::empty());
    assert(encode_utf8(s) =~= encode_scalar(c as u32) + encode_utf8(s.drop_first()));
    assert(encode_utf8(s.drop_first()) =~= Seq::<u8>::empty());
    broadcast use char_is_scalar;
    assert(is_scalar(c as u32));
}

/// Byte length of a character's UTF-8 encoding, as `char::len_utf8` gives it.
pub fn char_utf8_len(c: char) -> (n: usize)
    ensures
        n == utf8_len(seq![c]),
        1 <= n <= 4,
{
    proof {
        lemma_utf8_len_single(c);
    }
    let u = c as u32;
    if u <= 0x7F {
        1
    } else if u <= 0x7FF {
        2
    } else if u <= 0xFFFF {
        3
    } else {
        4
    }
}

/// Byte length of a prefix grows by the length of the next character.
pub proof fn lemma_utf8_len_take_step(s: Seq<char>, i: int)
    requires
        0 <= i < s.len(),
    ensures
        utf8_len(s.take(i + 1)) == utf8_len(s.take(i)) + utf8_len(seq![s[i]]),
{
    assert(s.take(i + 1) =~= s.take(i) + seq![s[i]]);
    lemma_encode_utf8_concat(s.take(i), seq![s[i]]);
}

/// Byte length of a concatenation.
pub proof fn lemma_utf8_len_concat(a: Seq<char>, b: Seq<char>)
    ensures
        utf8_len(a + b) == utf8_len(a) + utf8_len(b),
{
    lemma_encode_utf8_concat(a, b);
}

/// Byte length of a sequence of characters, as `str::len` gives it.
pub fn chars_utf8_len(s: &[char]) -> (n: usize)
    requires
        utf8_len(s@) <= usize::MAX,
    ensures
        n == utf8_len(s@),
{
    let len = s.len();
    let mut i: usize = 0;
    let mut n: usize = 0;
    while i < len
        invariant
            i <= len == s@.len(),
            n == utf8_len(s@.take(i as int)),
            utf8_len(s@) <= usize::MAX,
        decreases len - i,
    {
        proof {
            lemma_utf8_len_take_step(s@, i as int);
            lemma_utf8_len_concat(s@.take(i + 1), s@.skip(i + 1));
            assert(s@.take(i + 1) + s@.skip(i + 1) =~= s@);
        }
        n = n + char_utf8_len(s[i]);
        i = i + 1;
    }
    assert(s@.take(len as int) =~= s@);
    n
}

/// Whether a string slice is empty after trimming (`s.trim().is_empty()`).
pub fn is_blank(s: &str) -> (b: bool)
    ensures
        b == (trim(s@).len() == 0),
        b == all_ws(s@),
{
    let v = chars_of(s);
    proof {
        lemma_trim_empty_iff_all_ws(s@);
    }
    let n = v.len();
    let mut i: usize = 0;
    while i < n
        invariant
            i <= n == v@.len(),
            v@ == s@,
            forall|k: int| 0 <= k < i ==> is_ws(#[trigger] v@[k]),
        decreases n - i,
    {
        if !is_whitespace(v[i]) {
            assert(!is_ws(s@[i as int]));
            proof {
                lemma_trim_empty_iff_all_ws(s@);
            }
            return false;
        }
        i = i + 1;
    }
    proof {
        lemma_trim_empty_iff_all_ws(s@);
    }
    true
}

/// An owned copy of a string slice.
pub fn owned(s: &str) -> (r: String)
    ensures
        r@ == s@,
{
    String::from_str(s)
}

/// `std::str::from_utf8`: the documentation promises `Err` exactly when the
/// bytes are not valid UTF-8; on success the slice reads the decoded characters.
#[verifier::external_body]
pub(crate) fn str_from_utf8(b: &[u8]) -> (r: Option<&str>)
    ensures
        r is Some <==> valid_utf8(b@),
        r matches Some(s) ==> s@ == decode_utf8(b@),
{
    std::str::from_utf8(b).ok()
}

/// What `str::to_lowercase` returns for a text: its Unicode lowercase mapping.
pub uninterp spec fn lowercase(s: Seq<char>) -> Seq<char>;

/// `str::to_lowercase`. The result depends on the text alone; which mapping
/// Unicode gives each character is left to std and not stated here.
#[verifier::external_body]
pub(crate) fn to_lowercase(s: &str) -> (r: String)
    ensures
        r@ == lowercase(s@),
{
    s.to_lowercase()
}

/// The text an optional string holds, if any.
pub open spec fn opt_str(o: Option<String>) -> Option<Seq<char>> {
    match o {
        Some(s) => Some(s@),
        None => None,
    }
}

/// Plain values of strings.
pub open spec fn strs(v: Seq<String>) -> Seq<Seq<char>> {
    v.map_values(|s: String| s@)
}

/// Whether a character is an ASCII decimal digit.
pub open spec fn is_digit(c: char) -> bool {
    '0' <= c <= '9'
}

/// Value of a digit character.
pub open spec fn digit_value(c: char) -> int {
    c as int - '0' as int
}

/// Value of a string of decimal digits.
pub open spec fn digits_value(s: Seq<char>) -> int
    decreases s.len(),
{
    if s.len() == 0 {
        0
    } else {
        digits_value(s.drop_last()) * 10 + digit_value(s.last())
    }
}

/// All characters are digits.
pub open spec fn all_digits(s: Seq<char>) -> bool {
    forall|i: int| 0 <= i < s.len() ==> is_digit(#[trigger] s[i])
}

/// The integer a text denotes in the syntax of Rust's `FromStr` for integers:
/// an optional `+` (or `-` when `signed`), then one or more decimal digits.
pub open spec fn int_text(s: Seq<char>, signed: bool) -> Option<int> {
    if s.len() == 0 {
        None
    } else {
        let neg = signed && s[0] == '-';
        let digits = if s[0] == '+' || neg {
            s.skip(1)
        } else {
            s
        };
        if digits.len() == 0 || !all_digits(digits) {
            None
        } else if neg {
            Some(-digits_value(digits))
        } else {
            Some(digits_value(digits))
        }
    }
}

/// The value that `FromStr` gives for an integer type with range [lo, hi].
pub open spec fn parse_int_spec(s: Seq<char>, signed: bool, lo: int, hi: int) -> Option<int> {
    match int_text(s, signed) {
        Some(v) => if lo <= v <= hi {
            Some(v)
        } else {
            None
        },
        None => None,
    }
}

proof fn lemma_digits_value_nonneg(s: Seq<char>)
    requires
        all_digits(s),
    ensures
        digits_value(s) >= 0,
    decreases s.len(),
{
    if s.len() > 0 {
        assert(all_digits(s.drop_last())) by {
            assert forall|i: int| 0 <= i < s.drop_last().len() implies is_digit(#[trigger] s.drop_last()[i]) by {
                assert(s.drop_last()[i] == s[i]);
            }
        }
        lemma_digits_value_nonneg(s.drop_last());
        assert(is_digit(s[s.len() - 1]));
    }
}

proof fn lemma_digits_value_prefix(s: Seq<char>, k: int)
    requires
        all_digits(s),
        0 <= k <= s.len(),
    ensures
        digits_value(s.take(k)) <= digits_value(s),
    decreases s.len() - k,
{
    if k < s.len() {
        lemma_digits_value_prefix(s, k + 1);
        let t = s.take(k + 1);
        assert(t.drop_last() =~= s.take(k));
        assert(all_digits(s.take(k))) by {
            assert forall|i: int| 0 <= i < s.take(k).len() implies is_digit(#[trigger] s.take(k)[i]) by {
                assert(s.take(k)[i] == s[i]);
            }
        }
        lemma_digits_value_nonneg(s.take(k));
        assert(is_digit(s[k]));
        assert(t.last() == s[k]);
    } else {
        assert(s.take(k) =~= s);
    }
}

/// Parses an integer as `FromStr` does for a type whose range is [lo, hi].
#[verifier::loop_isolation(false)]
pub fn parse_int(s: &[char], signed: bool, lo: i128, hi: i128) -> (r: Option<i128>)
    requires
        -0x1_0000_0000_0000_0000 <= lo <= 0 < hi <= 0x1_0000_0000_0000_0000,
    ensures
        match r {
            Some(v) => parse_int_spec(s@, signed, lo as int, hi as int) == Some(v as int),
            None => parse_int_spec(s@, signed, lo as int, hi as int) is None,
        },
{
    let n = s.len();
    if n == 0 {
        return None;
    }
    let neg = signed && s[0] == '-';
    let start: usize = if s[0] == '+' || neg {
        1
    } else {
        0
    };
    let ghost digits = if s@[0] == '+' || neg {
        s@.skip(1)
    } else {
        s@
    };
    proof {
        if start == 1 {
            assert(digits =~= s@.subrange(1, n as int));
        } else {
            assert(digits =~= s@.subrange(0, n as int));
        }
    }
    if start == n {
        return None;
    }
    let limit: i128 = if neg {
        0 - lo
    } else {
        hi
    };
    let mut acc: i128 = 0;
    let mut i: usize = start;
    while i < n
        invariant
            start <= i <= n == s@.len(),
            digits == s@.subrange(start as int, n as int),
            0 <= limit <= 0x1_0000_0000_0000_0000,
            all_digits(s@.subrange(start as int, i as int)),
            acc == digits_value(s@.subrange(start as int, i as int)),
            0 <= acc <= limit,
        decreases n - i,
    {
        let c = s[i];
        if !('0' <= c && c <= '9') {
            proof {
                assert(digits[i - start] == c);
                assert(!all_digits(digits));
            }
            return None;
        }
        let d = (c as u32 - '0' as u32) as i128;
        proof {
            let t = s@.subrange(start as int, i + 1);
            assert(t.drop_last() =~= s@.subrange(start as int, i as int));
            assert(t.last() == c);
            assert(all_digits(t)) by {
                assert forall|j: int| 0 <= j < t.len() implies is_digit(#[trigger] t[j]) by {
                    if j < t.len() - 1 {
                        assert(t[j] == s@.subrange(start as int, i as int)[j]);
                    }
                }
            }
        }
        if d > limit || acc > (limit - d) / 10 {
            proof {
                let t = s@.subrange(start as int, i + 1);
                assert(digits_value(t) == acc * 10 + d);
                assert(acc * 10 + d > limit) by (nonlinear_arith)
                    requires
                        d > limit || acc > (limit - d) / 10,
                        0 <= d <= 9,
                        0 <= limit,
                        0 <= acc,
                ;
                if all_digits(digits) {
                    assert(t =~= digits.take(i + 1 - start));
                    lemma_digits_value_prefix(digits, i + 1 - start);
                }
            }
            return None;
        }
        assert(acc * 10 + d <= limit) by (nonlinear_arith)
            requires
                d <= limit,
                acc <= (limit - d) / 10,
                0 <= d <= 9,
                0 <= limit,
        ;
        acc = acc * 10 + d;
        i = i + 1;
    }
    proof {
        assert(s@.subrange(start as int, n as int) == digits);
    }
    if neg {
        Some(0 - acc)
    } else {
        Some(acc)
    }
}

/// Parses an `i64` as `str::parse::<i64>` does.
pub fn parse_i64(s: &[char]) -> (r: Option<i64>)
    ensures
        match r {
            Some(v) => parse_int_spec(s@, true, i64::MIN as int, i64::MAX as int) == Some(v as int),
            None => parse_int_spec(s@, true, i64::MIN as int, i64::MAX as int) is None,
        },
{
    match parse_int(s, true, i64::MIN as i128, i64::MAX as i128) {
        Some(v) => Some(v as i64),
        None => None,
    }
}

/// The pieces of a text between commas, as `str::split(',')` yields them.
pub open spec fn split_commas(s: Seq<char>) -> Seq<Seq<char>>
    decreases s.len(),
{
    if s.len() == 0 {
        seq![seq![]]
    } else {
        let rest = split_commas(s.drop_last());
        if s.last() == ',' {
            rest.push(seq![])
        } else {
            rest.update(rest.len() - 1, rest.last().push(s.last()))
        }
    }
}

proof fn lemma_split_commas_nonempty(s: Seq<char>)
    ensures
        split_commas(s).len() >= 1,
    decreases s.len(),
{
    if s.len() > 0 {
        lemma_split_commas_nonempty(s.drop_last());
    }
}

/// Splits characters at commas.
pub fn split_at_commas(s: &[char]) -> (r: Vec<Vec<char>>)
    ensures
        r@.map_values(|p: Vec<char>| p@) == split_commas(s@),
{
    let n = s.len();
    let mut parts: Vec<Vec<char>> = Vec::new();
    let mut cur: Vec<char> = Vec::new();
    let mut i: usize = 0;
    proof {
        assert(s@.take(0) =~= Seq::<char>::empty());
        assert(parts@.map_values(|p: Vec<char>| p@).push(cur@) =~= split_commas(s@.take(0)));
    }
    while i < n
        invariant
            i <= n == s@.len(),
            parts@.map_values(|p: Vec<char>| p@).push(cur@) == split_commas(s@.take(i as int)),
        decreases n - i,
    {
        let ghost before = parts@.map_values(|p: Vec<char>| p@).push(cur@);
        proof {
            assert(s@.take(i + 1).drop_last() =~= s@.take(i as int));
            assert(s@.take(i + 1).last() == s@[i as int]);
            lemma_split_commas_nonempty(s@.take(i as int));
        }
        if s[i] == ',' {
            let done = cur;
            parts.push(done);
            cur = Vec::new();
            proof {
                assert(parts@.map_values(|p: Vec<char>| p@).push(cur@) =~= before.push(seq![]));
            }
        } else {
            cur.push(s[i]);
            proof {
                assert(parts@.map_values(|p: Vec<char>| p@).push(cur@) =~= before.update(
                    before.len() - 1,
                    before.last().push(s@[i as int]),
                ));
            }
        }
        i = i + 1;
    }
    parts.push(cur);
    assert(s@.take(n as int) =~= s@);
    parts
}


/// Lexicographic order of character sequences by code point, the order of
/// `str`'s `Ord` (UTF-8 preserves code-point order).
pub open spec fn lex_lt(a: Seq<char>, b: Seq<char>) -> bool
    decreases a.len(),
{
    if a.len() == 0 {
        b.len() > 0
    } else if b.len() == 0 {
        false
    } else if (a[0] as int) < (b[0] as int) {
        true
    } else if (a[0] as int) > (b[0] as int) {
        false
    } else {
        lex_lt(a.drop_first(), b.drop_first())
    }
}

/// The order is strict, transitive and total.
pub proof fn lemma_lex_order(a: Seq<char>, b: Seq<char>, c: Seq<char>)
    ensures
        !lex_lt(a, a),
        lex_lt(a, b) ==> !lex_lt(b, a),
        lex_lt(a, b) && lex_lt(b, c) ==> lex_lt(a, c),
        a != b ==> lex_lt(a, b) || lex_lt(b, a),
    decreases a.len(),
{
    if a.len() > 0 && b.len() > 0 && c.len() > 0 {
        lemma_lex_order(a.drop_first(), b.drop_first(), c.drop_first());
    }
    if a.len() > 0 && b.len() > 0 && a != b && (a[0] as int) == (b[0] as int) {
        assert(a[0] == b[0]);
        if a.drop_first() == b.drop_first() {
            assert(a =~= seq![a[0]] + a.drop_first());
            assert(b =~= seq![b[0]] + b.drop_first());
        }
    }
    if a.len() > 0 {
        lemma_lex_order(a.drop_first(), a.drop_first(), a.drop_first());
    }
    if a.len() == 0 && b.len() == 0 {
        assert(a =~= b);
    }
    if a.len() > 0 && b.len() > 0 && (a[0] as int) == (b[0] as int) {
        lemma_lex_order(a.drop_first(), b.drop_first(), b.drop_first());
    }
}

/// Whether `a` comes before `b`.
pub fn chars_lt(a: &[char], b: &[char]) -> (r: bool)
    ensures
        r == lex_lt(a@, b@),
{
    let mut i: usize = 0;
    assert(a@.skip(0) =~= a@);
    assert(b@.skip(0) =~= b@);
    while i < a.len() && i < b.len() && a[i] == b[i]
        invariant
            i <= a@.len() && i <= b@.len(),
            lex_lt(a@, b@) == lex_lt(a@.skip(i as int), b@.skip(i as int)),
        decreases a.len() - i,
    {
        assert(a@.skip(i as int).drop_first() =~= a@.skip(i + 1));
        assert(b@.skip(i as int).drop_first() =~= b@.skip(i + 1));
        i = i + 1;
    }
    if i == a.len() {
        i < b.len()
    } else if i == b.len() {
        false
    } else {
        assert(a@.skip(i as int)[0] == a@[i as int]);
        assert(b@.skip(i as int)[0] == b@[i as int]);
        a[i] < b[i]
    }
}

} // verus!
