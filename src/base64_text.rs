//! Standard base64 (RFC 4648 alphabet, with padding), the text form that
//! compressed bytes take inside a message's content.

use base64::engine::general_purpose::STANDARD;
use base64::Engine;
use vstd::prelude::*;

verus! {

/// The digit for a 6-bit value.
pub open spec fn b64_digit(v: int) -> char {
    let code: int = if v < 26 {
        65 + v
    } else if v < 52 {
        97 + (v - 26)
    } else if v < 62 {
        48 + (v - 52)
    } else if v == 62 {
        43
    } else {
        47
    };
    (code as u8) as char
}

/// The padded standard base64 text of `b`: each group of three bytes gives
/// four digits, and a last group of one or two bytes is padded with `=`.
pub open spec fn base64_encode(b: Seq<u8>) -> Seq<char>
    decreases b.len(),
{
    let (x, y, z) = (b[0] as int, b[1] as int, b[2] as int);
    if b.len() == 0 {
        Seq::empty()
    } else if b.len() == 1 {
        seq![b64_digit(x / 4), b64_digit((x % 4) * 16), '=', '=']
    } else if b.len() == 2 {
        seq![b64_digit(x / 4), b64_digit((x % 4) * 16 + y / 16), b64_digit((y % 16) * 4), '=']
    } else {
        seq![
            b64_digit(x / 4),
            b64_digit((x % 4) * 16 + y / 16),
            b64_digit((y % 16) * 4 + z / 64),
            b64_digit(z % 64),
        ] + base64_encode(b.subrange(3, b.len() as int))
    }
}

/// Relies on base64's `STANDARD.encode`, which writes padded standard base64;
/// it panics only where the output length overflows `usize`.
#[verifier::external_body]
pub(crate) fn encode_base64(b: &[u8]) -> (r: String)
    requires
        b@.len() < usize::MAX / 2,
    ensures
        r@ == base64_encode(b@),
{
    STANDARD.encode(b)
}

/// Relies on base64's `STANDARD.decode`, which accepts only canonical padded
/// text: it returns the bytes whose encoding the text is, and fails on any
/// text that is no such encoding.
#[verifier::external_body]
pub(crate) fn decode_base64(s: &str) -> (r: Option<Vec<u8>>)
    ensures
        r matches Some(v) ==> base64_encode(v@) == s@,
        forall|x: Seq<u8>| #[trigger] base64_encode(x) == s@ ==> r is Some && r.unwrap()@ == x,
{
    STANDARD.decode(s).ok()
}

/// The text of bytes that start 1f 8b 08, as every deflate-coded gzip
/// stream does, starts "H4sI".
pub proof fn lemma_gzip_text_prefix(b: Seq<u8>)
    requires
        b.len() >= 3,
        b[0] == 0x1f,
        b[1] == 0x8b,
        b[2] == 0x08,
    ensures
        base64_encode(b).len() >= 4,
        base64_encode(b)[0] == 'H',
        base64_encode(b)[1] == '4',
        base64_encode(b)[2] == 's',
        base64_encode(b)[3] == 'I',
{
    assert(b64_digit(7) == 'H');
    assert(b64_digit(56) == '4');
    assert(b64_digit(44) == 's');
    assert(b64_digit(8) == 'I');
}

proof fn lemma_b64_digit_injective(a: int, b: int)
    requires
        0 <= a < 64,
        0 <= b < 64,
        b64_digit(a) == b64_digit(b),
    ensures
        a == b,
{
    assert(b64_digit(a) as u32 == b64_digit(b) as u32);
}

proof fn lemma_b64_digit_not_pad(a: int)
    requires
        0 <= a < 64,
    ensures
        b64_digit(a) != '=',
{
}

proof fn lemma_group_determined(x: int, y: int, z: int, x2: int, y2: int, z2: int)
    requires
        0 <= x < 256,
        0 <= y < 256,
        0 <= z < 256,
        0 <= x2 < 256,
        0 <= y2 < 256,
        0 <= z2 < 256,
        x / 4 == x2 / 4,
        (x % 4) * 16 + y / 16 == (x2 % 4) * 16 + y2 / 16,
        (y % 16) * 4 + z / 64 == (y2 % 16) * 4 + z2 / 64,
        z % 64 == z2 % 64,
    ensures
        x == x2,
        y == y2,
        z == z2,
{
}

/// Different byte strings have different base64 texts.
pub proof fn lemma_base64_injective(a: Seq<u8>, b: Seq<u8>)
    requires
        base64_encode(a) == base64_encode(b),
    ensures
        a == b,
    decreases a.len(),
{
    let (ea, eb) = (base64_encode(a), base64_encode(b));
    if a.len() == 0 || b.len() == 0 {
        if a.len() != b.len() {
            assert(ea.len() != eb.len());
        }
        assert(a =~= b);
        return;
    }
    let (x, y, z) = (a[0] as int, a[1] as int, a[2] as int);
    let (x2, y2, z2) = (b[0] as int, b[1] as int, b[2] as int);
    assert(ea[0] == eb[0]);
    assert(ea[1] == eb[1]);
    lemma_b64_digit_injective(x / 4, x2 / 4);
    if a.len() == 1 || b.len() == 1 {
        if a.len() != b.len() {
            if a.len() == 1 {
                lemma_b64_digit_not_pad(if b.len() == 2 { (y2 % 16) * 4 } else { (y2 % 16) * 4 + z2 / 64 });
            } else {
                lemma_b64_digit_not_pad(if a.len() == 2 { (y % 16) * 4 } else { (y % 16) * 4 + z / 64 });
            }
            assert(ea[2] == eb[2]);
        }
        lemma_b64_digit_injective((x % 4) * 16, (x2 % 4) * 16);
        assert(a =~= b);
        return;
    }
    lemma_b64_digit_injective((x % 4) * 16 + y / 16, (x2 % 4) * 16 + y2 / 16);
    assert(ea[2] == eb[2]);
    if a.len() == 2 || b.len() == 2 {
        if a.len() != b.len() {
            if a.len() == 2 {
                lemma_b64_digit_not_pad(z2 % 64);
            } else {
                lemma_b64_digit_not_pad(z % 64);
            }
            assert(ea[3] == eb[3]);
        }
        lemma_b64_digit_injective((y % 16) * 4, (y2 % 16) * 4);
        lemma_group_determined(x, y, 0, x2, y2, 0);
        assert(a =~= b);
        return;
    }
    assert(ea[3] == eb[3]);
    lemma_b64_digit_injective((y % 16) * 4 + z / 64, (y2 % 16) * 4 + z2 / 64);
    lemma_b64_digit_injective(z % 64, z2 % 64);
    lemma_group_determined(x, y, z, x2, y2, z2);
    let (ra, rb) = (a.subrange(3, a.len() as int), b.subrange(3, b.len() as int));
    assert(base64_encode(ra) =~= ea.subrange(4, ea.len() as int));
    assert(base64_encode(rb) =~= eb.subrange(4, eb.len() as int));
    lemma_base64_injective(ra, rb);
    assert(a =~= seq![a[0], a[1], a[2]] + ra);
    assert(b =~= seq![b[0], b[1], b[2]] + rb);
}

} // verus!
