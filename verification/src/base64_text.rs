//! Standard padded Base64 (RFC 4648 alphabet `A`–`Z`, `a`–`z`, `0`–`9`, `+`,
//! `/`, with `=` padding), stated as the text each byte sequence is written
//! as; a text decodes exactly when it is the encoding of some bytes.
use vstd::prelude::*;

verus! {

/// The alphabet character for a six-bit value.
pub open spec fn base64_char(n: int) -> char {
    if n < 26 {
        (65 + n) as char
    } else if n < 52 {
        (71 + n) as char
    } else if n < 62 {
        (n - 4) as char
    } else if n == 62 {
        '+'
    } else {
        '/'
    }
}

/// The four characters for a group of three bytes.
pub open spec fn base64_group(b0: u8, b1: u8, b2: u8) -> Seq<char> {
    seq![
        base64_char((b0 / 4) as int),
        base64_char(((b0 % 4) * 16 + b1 / 16) as int),
        base64_char(((b1 % 16) * 4 + b2 / 64) as int),
        base64_char((b2 % 64) as int),
    ]
}

/// Standard padded Base64 text of bytes: four characters for every three
/// bytes, the last group padded with `=` to four characters.
pub open spec fn base64_standard_encoded(b: Seq<u8>) -> Seq<char>
    decreases b.len(),
{
    if b.len() == 0 {
        Seq::empty()
    } else if b.len() == 1 {
        seq![base64_char((b[0] / 4) as int), base64_char(((b[0] % 4) * 16) as int), '=', '=']
    } else if b.len() == 2 {
        seq![
            base64_char((b[0] / 4) as int),
            base64_char(((b[0] % 4) * 16 + b[1] / 16) as int),
            base64_char(((b[1] % 16) * 4) as int),
            '=',
        ]
    } else {
        base64_group(b[0], b[1], b[2]) + base64_standard_encoded(b.skip(3))
    }
}

/// Standard padded Base64 decoding: the bytes whose encoding is the text, or
/// `None` when the text is the encoding of no bytes (wrong characters, wrong
/// length, misplaced or missing padding, or non-zero trailing bits).
pub open spec fn base64_standard_decoded(text: Seq<char>) -> Option<Seq<u8>> {
    if exists|b: Seq<u8>| base64_standard_encoded(b) == text {
        Some(choose|b: Seq<u8>| base64_standard_encoded(b) == text)
    } else {
        None
    }
}

proof fn lemma_char_injective(x: int, y: int)
    requires
        0 <= x < 64,
        0 <= y < 64,
        base64_char(x) == base64_char(y),
    ensures
        x == y,
{
}

proof fn lemma_char_not_pad(x: int)
    requires
        0 <= x < 64,
    ensures
        base64_char(x) != '=',
{
}

proof fn lemma_group_injective(b0: u8, b1: u8, b2: u8, c0: u8, c1: u8, c2: u8)
    requires
        base64_group(b0, b1, b2) == base64_group(c0, c1, c2),
    ensures
        b0 == c0,
        b1 == c1,
        b2 == c2,
{
    let g = base64_group(b0, b1, b2);
    let h = base64_group(c0, c1, c2);
    assert(g[0] == h[0] && g[1] == h[1] && g[2] == h[2] && g[3] == h[3]);
    assert(b0 / 4 < 64 && c0 / 4 < 64) by (bit_vector);
    assert((b0 % 4) * 16 + b1 / 16 < 64 && (c0 % 4) * 16 + c1 / 16 < 64) by (bit_vector);
    assert((b1 % 16) * 4 + b2 / 64 < 64 && (c1 % 16) * 4 + c2 / 64 < 64) by (bit_vector);
    lemma_char_injective((b0 / 4) as int, (c0 / 4) as int);
    lemma_char_injective(((b0 % 4) * 16 + b1 / 16) as int, ((c0 % 4) * 16 + c1 / 16) as int);
    lemma_char_injective(((b1 % 16) * 4 + b2 / 64) as int, ((c1 % 16) * 4 + c2 / 64) as int);
    lemma_char_injective((b2 % 64) as int, (c2 % 64) as int);
    assert(b0 / 4 == c0 / 4 && (b0 % 4) * 16 + b1 / 16 == (c0 % 4) * 16 + c1 / 16 && (b1 % 16) * 4
        + b2 / 64 == (c1 % 16) * 4 + c2 / 64 && b2 % 64 == c2 % 64 ==> b0 == c0 && b1 == c1 && b2
        == c2) by (bit_vector);
}

/// The shape of an encoding: its length, and that `=` stands only in the
/// last group, twice after one leftover byte and once after two.
proof fn lemma_encoded_shape(b: Seq<u8>)
    ensures
        base64_standard_encoded(b).len() == 4 * ((b.len() + 2) / 3),
        b.len() % 3 == 0 ==> forall|i: int|
            0 <= i < base64_standard_encoded(b).len() ==> base64_standard_encoded(b)[i] != '=',
        b.len() % 3 != 0 ==> base64_standard_encoded(b)[base64_standard_encoded(b).len() - 1] == '=',
        b.len() % 3 == 1 ==> base64_standard_encoded(b)[base64_standard_encoded(b).len() - 2] == '=',
        b.len() % 3 == 2 ==> base64_standard_encoded(b)[base64_standard_encoded(b).len() - 2] != '=',
    decreases b.len(),
{
    let e = base64_standard_encoded(b);
    if b.len() == 1 {
        let b0 = b[0];
        assert(b0 / 4 < 64 && (b0 % 4) * 16 < 64) by (bit_vector);
        lemma_char_not_pad((b[0] / 4) as int);
        lemma_char_not_pad(((b[0] % 4) * 16) as int);
    } else if b.len() == 2 {
        let (b0, b1) = (b[0], b[1]);
        assert(b0 / 4 < 64 && (b0 % 4) * 16 + b1 / 16 < 64 && (b1 % 16) * 4 < 64) by (bit_vector);
        lemma_char_not_pad((b0 / 4) as int);
        lemma_char_not_pad(((b0 % 4) * 16 + b1 / 16) as int);
        lemma_char_not_pad(((b1 % 16) * 4) as int);
    } else if b.len() >= 3 {
        let (b0, b1, b2) = (b[0], b[1], b[2]);
        let rest = b.skip(3);
        lemma_encoded_shape(rest);
        let er = base64_standard_encoded(rest);
        assert(b0 / 4 < 64 && (b0 % 4) * 16 + b1 / 16 < 64) by (bit_vector);
        assert((b1 % 16) * 4 + b2 / 64 < 64 && b2 % 64 < 64) by (bit_vector);
        lemma_char_not_pad((b0 / 4) as int);
        lemma_char_not_pad(((b0 % 4) * 16 + b1 / 16) as int);
        lemma_char_not_pad(((b1 % 16) * 4 + b2 / 64) as int);
        lemma_char_not_pad((b2 % 64) as int);
        let g = base64_group(b0, b1, b2);
        assert(e == g + er);
        assert(rest.len() == b.len() - 3);
        assert((rest.len() + 2) / 3 + 1 == (b.len() + 2) / 3);
        assert(rest.len() % 3 == b.len() % 3);
        if b.len() % 3 == 0 {
            assert forall|i: int| 0 <= i < e.len() implies e[i] != '=' by {
                if i >= 4 {
                    assert(e[i] == er[i - 4]);
                }
            }
        }
        if b.len() % 3 != 0 {
            assert(er.len() >= 4);
            assert(e[e.len() - 1] == er[er.len() - 1]);
            assert(e[e.len() - 2] == er[er.len() - 2]);
        }
    }
}

/// Different bytes have different encodings.
pub proof fn lemma_encoding_injective(b: Seq<u8>, c: Seq<u8>)
    requires
        base64_standard_encoded(b) == base64_standard_encoded(c),
    ensures
        b == c,
    decreases b.len(),
{
    let e = base64_standard_encoded(b);
    lemma_encoded_shape(b);
    lemma_encoded_shape(c);
    assert((b.len() + 2) / 3 == (c.len() + 2) / 3);
    if b.len() == 0 {
        assert(c.len() == 0);
    } else if b.len() >= 3 && c.len() >= 3 {
        let g = base64_group(b[0], b[1], b[2]);
        let h = base64_group(c[0], c[1], c[2]);
        let eb = base64_standard_encoded(b.skip(3));
        let ec = base64_standard_encoded(c.skip(3));
        assert(e == g + eb);
        assert(e == h + ec);
        assert(g =~= e.take(4));
        assert(h =~= e.take(4));
        assert(eb =~= e.skip(4));
        assert(ec =~= e.skip(4));
        lemma_group_injective(b[0], b[1], b[2], c[0], c[1], c[2]);
        lemma_encoding_injective(b.skip(3), c.skip(3));
        assert(b =~= seq![b[0], b[1], b[2]] + b.skip(3));
        assert(c =~= seq![c[0], c[1], c[2]] + c.skip(3));
    } else if b.len() < 3 && c.len() < 3 {
        assert(b.len() % 3 == b.len() && c.len() % 3 == c.len());
        if b.len() != c.len() {
            assert(e[e.len() - 2] == e[e.len() - 2]);
        }
        assert(b.len() == c.len());
        assert(e[0] == base64_char((b[0] / 4) as int));
        assert(e[0] == base64_char((c[0] / 4) as int));
        assert(e[1] == e[1]);
        if b.len() == 1 {
            let (x, y) = (b[0], c[0]);
            assert(x / 4 < 64 && (x % 4) * 16 < 64 && y / 4 < 64 && (y % 4) * 16 < 64) by (bit_vector);
            lemma_char_injective((b[0] / 4) as int, (c[0] / 4) as int);
            lemma_char_injective(((b[0] % 4) * 16) as int, ((c[0] % 4) * 16) as int);
            assert(x / 4 == y / 4 && (x % 4) * 16 == (y % 4) * 16 ==> x == y) by (bit_vector);
            assert(b =~= c);
        } else {
            let (b0, b1, c0, c1) = (b[0], b[1], c[0], c[1]);
            assert(b0 / 4 < 64 && (b0 % 4) * 16 + b1 / 16 < 64 && (b1 % 16) * 4 < 64) by (bit_vector);
            assert(c0 / 4 < 64 && (c0 % 4) * 16 + c1 / 16 < 64 && (c1 % 16) * 4 < 64) by (bit_vector);
            lemma_char_injective((b0 / 4) as int, (c0 / 4) as int);
            lemma_char_injective(((b0 % 4) * 16 + b1 / 16) as int, ((c0 % 4) * 16 + c1 / 16) as int);
            lemma_char_injective(((b1 % 16) * 4) as int, ((c1 % 16) * 4) as int);
            assert(b0 / 4 == c0 / 4 && (b0 % 4) * 16 + b1 / 16 == (c0 % 4) * 16 + c1 / 16 && (b1 % 16)
                * 4 == (c1 % 16) * 4 ==> b0 == c0 && b1 == c1) by (bit_vector);
            assert(b =~= c);
        }
    } else {
        // One has a full first group and the other at most two bytes: both
        // encodings are four characters long, and only the short one pads.
        assert(e.len() == 4);
        if b.len() >= 3 {
            assert(b.len() == 3);
            assert(e[3] != '=');
        } else {
            assert(c.len() == 3);
            assert(e[3] != '=');
        }
    }
}

/// A text decodes to bytes exactly when it is their encoding.
pub proof fn lemma_decoded_iff_encoded(text: Seq<char>, b: Seq<u8>)
    ensures
        base64_standard_decoded(text) == Some(b) <==> base64_standard_encoded(b) == text,
{
    if base64_standard_encoded(b) == text {
        let c = choose|c: Seq<u8>| base64_standard_encoded(c) == text;
        lemma_encoding_injective(b, c);
    }
}

/// Decoding an encoding gives the bytes back.
pub proof fn lemma_decode_encode(b: Seq<u8>)
    ensures
        base64_standard_decoded(base64_standard_encoded(b)) == Some(b),
{
    lemma_decoded_iff_encoded(base64_standard_encoded(b), b);
}

} // verus!
