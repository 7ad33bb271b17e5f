//! The protobuf wire format, as far as the message record needs it:
//! base-128 varints, field keys and length-delimited fields.

use vstd::prelude::*;

verus! {

/// The exclusive bound on what a varint may still contribute when its next
/// byte is the `k`-th one of the encoding; `varint_cap(0)` is 2^64.
pub open spec fn varint_cap(k: nat) -> nat
    decreases 9 - k,
{
    if k >= 9 {
        2
    } else {
        128 * varint_cap(k + 1)
    }
}

/// The base-128 encoding of `v`, least significant group first.
pub open spec fn varint(v: nat) -> Seq<u8>
    decreases v,
{
    if v < 128 {
        seq![v as u8]
    } else {
        seq![(v % 128 + 128) as u8] + varint(v / 128)
    }
}

/// Reads a varint from the front of `b`, whose first byte is the `k`-th byte
/// of the encoding: the value and the number of bytes read. A varint has at
/// most ten bytes, and the tenth may only be 0 or 1.
pub open spec fn read_varint(b: Seq<u8>, k: nat) -> Option<(nat, nat)>
    decreases b.len(),
{
    if b.len() == 0 || k > 9 || (k == 9 && b[0] > 1) {
        None
    } else if b[0] < 128 {
        Some((b[0] as nat, 1))
    } else {
        match read_varint(b.drop_first(), k + 1) {
            Some((v, n)) => Some((((b[0] - 128) + 128 * v) as nat, n + 1)),
            None => None,
        }
    }
}

pub proof fn lemma_varint_cap_top()
    ensures
        varint_cap(0) == 0x1_0000_0000_0000_0000,
{
    reveal_with_fuel(varint_cap, 10);
}

/// What `read_varint` reads is below the cap and takes at least one byte.
pub proof fn lemma_read_varint_bounds(b: Seq<u8>, k: nat)
    ensures
        read_varint(b, k) matches Some((v, n)) ==> v < varint_cap(k) && 1 <= n <= b.len()
            && n <= 10 - k,
    decreases b.len(),
{
    if b.len() > 0 && k <= 9 && !(k == 9 && b[0] > 1) {
        lemma_varint_cap_positive(k);
        if k < 9 {
            assert(varint_cap(k) == 128 * varint_cap(k + 1));
            lemma_varint_cap_positive(k + 1);
        }
        if b[0] >= 128 && k < 9 {
            lemma_read_varint_bounds(b.drop_first(), k + 1);
            if let Some((v1, n1)) = read_varint(b.drop_first(), k + 1) {
                let c = varint_cap(k + 1);
                assert(128 * v1 <= 128 * (c - 1)) by (nonlinear_arith)
                    requires v1 <= c - 1;
            }
        }
    }
}

proof fn lemma_varint_cap_positive(k: nat)
    ensures
        varint_cap(k) >= 2,
        k < 9 ==> varint_cap(k) >= 256,
    decreases 9 - k,
{
    if k < 9 {
        lemma_varint_cap_positive(k + 1);
    }
}

/// Bytes that all carry the continuation bit hold no whole varint.
pub proof fn lemma_read_varint_unterminated(b: Seq<u8>, k: nat)
    requires
        forall|i: int| 0 <= i < b.len() ==> #[trigger] b[i] >= 128,
    ensures
        read_varint(b, k) is None,
    decreases b.len(),
{
    if b.len() > 0 && k <= 9 && !(k == 9 && b[0] > 1) {
        let t = b.drop_first();
        assert forall|i: int| 0 <= i < t.len() implies #[trigger] t[i] >= 128 by {
            assert(t[i] == b[i + 1]);
        }
        lemma_read_varint_unterminated(t, k + 1);
    }
}

/// Reading back an encoding gives the value and the encoding's length,
/// whatever follows it.
pub proof fn lemma_read_varint_of_varint(v: nat, k: nat, rest: Seq<u8>)
    requires
        k <= 9,
        v < varint_cap(k),
    ensures
        read_varint(varint(v) + rest, k) == Some((v, varint(v).len())),
    decreases v,
{
    let b = varint(v) + rest;
    if v < 128 {
        assert(b[0] == v as u8);
        if k == 9 {
            assert(v < 2);
        }
    } else {
        if k == 9 {
            assert(false);
        }
        assert(v / 128 < varint_cap(k + 1));
        lemma_read_varint_of_varint(v / 128, k + 1, rest);
        assert(b.drop_first() =~= varint(v / 128) + rest);
    }
}

/// Encodes `v` as a varint at the end of `out`.
pub fn write_varint(out: &mut Vec<u8>, v: u64)
    ensures
        final(out)@ == old(out)@ + varint(v as nat),
{
    let mut x: u64 = v;
    while x >= 128
        invariant
            out@ + varint(x as nat) == old(out)@ + varint(v as nat),
        decreases x,
    {
        let byte: u8 = (x % 128 + 128) as u8;
        assert(varint(x as nat) == seq![byte] + varint((x / 128) as nat));
        out.push(byte);
        assert(out@ + varint((x / 128) as nat) =~= old(out)@ + varint(v as nat));
        x = x / 128;
    }
    out.push(x as u8);
    assert(varint(x as nat) == seq![x as u8]);
}

/// Reads a varint from `b` at `pos`, the `k`-th byte of its encoding.
pub fn read_varint_at(b: &[u8], pos: usize, k: usize) -> (r: Option<(u64, usize)>)
    requires
        pos <= b@.len(),
        k <= 9,
    ensures
        match read_varint(b@.subrange(pos as int, b@.len() as int), k as nat) {
            Some((v, n)) => r == Some((v as u64, n as usize)) && v < varint_cap(k as nat),
            None => r is None,
        },
    decreases b@.len() - pos,
{
    let ghost tail = b@.subrange(pos as int, b@.len() as int);
    proof {
        lemma_read_varint_bounds(tail, k as nat);
    }
    if pos == b.len() {
        return None;
    }
    let byte: u8 = b[pos];
    if k == 9 && byte > 1 {
        return None;
    }
    if byte < 128 {
        return Some((byte as u64, 1));
    }
    if k == 9 {
        return None;
    }
    proof {
        assert(tail.drop_first() =~= b@.subrange(pos + 1, b@.len() as int));
        lemma_read_varint_bounds(tail.drop_first(), (k + 1) as nat);
    }
    match read_varint_at(b, pos + 1, k + 1) {
        Some((v, n)) => {
            proof {
                lemma_varint_cap_top();
                reveal_with_fuel(varint_cap, 2);
                assert(varint_cap(k as nat) == 128 * varint_cap((k + 1) as nat));
                assert(varint_cap(k as nat) <= 0x1_0000_0000_0000_0000) by {
                    lemma_cap_monotone(k as nat);
                }
            }
            Some(((byte - 128) as u64 + 128 * v, n + 1))
        },
        None => None,
    }
}

proof fn lemma_cap_monotone(k: nat)
    ensures
        varint_cap(k) <= varint_cap(0),
    decreases k,
{
    if k > 0 {
        lemma_cap_monotone((k - 1) as nat);
        if k - 1 < 9 {
            assert(varint_cap((k - 1) as nat) == 128 * varint_cap(k));
        }
    }
}

} // verus!

verus! {

/// The key of a field: its number and wire type packed into one varint.
pub open spec fn field_key(field: nat, wire_type: nat) -> nat {
    field * 8 + wire_type
}

/// A length-delimited field (wire type 2) holding `data`.
pub open spec fn len_field(field: nat, data: Seq<u8>) -> Seq<u8> {
    varint(field_key(field, 2)) + varint(data.len()) + data
}

/// A varint field (wire type 0) holding `v`.
pub open spec fn varint_field(field: nat, v: nat) -> Seq<u8> {
    varint(field_key(field, 0)) + varint(v)
}

/// How a field's payload extends after its key: where its data starts and
/// ends, relative to the bytes that follow the key.
pub enum Extent {
    Within(nat, nat),
    Malformed(FieldError),
}

/// Why a field could not be delimited.
#[derive(PartialEq, Eq, Structural, Clone, Copy, Debug)]
pub enum FieldError {
    /// A varint ran past the end of the input or past ten bytes.
    InvalidVarint,
    /// The data ends before the field does.
    Truncated,
    /// A group (wire types 3 and 4), which this format does not carry.
    Group,
}

/// Delimits the payload of a field of wire type `wt` (at most 5) at the front of `b`.
pub open spec fn extent(wt: nat, b: Seq<u8>) -> Extent {
    if wt == 0 {
        match read_varint(b, 0) {
            Some((_, n)) => Extent::Within(0, n),
            None => Extent::Malformed(FieldError::InvalidVarint),
        }
    } else if wt == 1 {
        Extent::Within(0, 8)
    } else if wt == 5 {
        Extent::Within(0, 4)
    } else if wt == 2 {
        match read_varint(b, 0) {
            Some((len, n)) => Extent::Within(n, n + len),
            None => Extent::Malformed(FieldError::InvalidVarint),
        }
    } else {
        Extent::Malformed(FieldError::Group)
    }
}

/// Appends the key of a field.
pub fn write_key(out: &mut Vec<u8>, field: u64, wire_type: u64)
    requires
        field < 0x1000_0000,
        wire_type < 8,
    ensures
        final(out)@ == old(out)@ + varint(field_key(field as nat, wire_type as nat)),
{
    write_varint(out, field * 8 + wire_type);
}

/// Appends a length-delimited field holding `data`.
pub fn write_len_field(out: &mut Vec<u8>, field: u64, data: &[u8])
    requires
        field < 0x1000_0000,
    ensures
        final(out)@ == old(out)@ + len_field(field as nat, data@),
{
    write_key(out, field, 2);
    write_varint(out, data.len() as u64);
    let mut i: usize = 0;
    let ghost start = out@;
    while i < data.len()
        invariant
            i <= data@.len(),
            out@ == start + data@.subrange(0, i as int),
        decreases data@.len() - i,
    {
        out.push(data[i]);
        assert(out@ =~= start + data@.subrange(0, i + 1));
        i = i + 1;
    }
    assert(data@.subrange(0, data@.len() as int) =~= data@);
    assert(final(out)@ =~= old(out)@ + len_field(field as nat, data@));
}

/// Appends a varint field holding `v`.
pub fn write_varint_field(out: &mut Vec<u8>, field: u64, v: u64)
    requires
        field < 0x1000_0000,
    ensures
        final(out)@ == old(out)@ + varint_field(field as nat, v as nat),
{
    write_key(out, field, 0);
    write_varint(out, v);
    assert(final(out)@ =~= old(out)@ + varint_field(field as nat, v as nat));
}

/// Delimits the payload of a field of wire type `wt` that starts at `pos`.
pub fn field_extent(b: &[u8], pos: usize, wt: u64) -> (r: Result<(usize, usize), FieldError>)
    requires
        pos <= b@.len(),
        wt <= 5,
    ensures
        match extent(wt as nat, b@.subrange(pos as int, b@.len() as int)) {
            Extent::Within(s, e) => if e <= b@.len() - pos {
                r == Ok::<(usize, usize), FieldError>((s as usize, e as usize))
            } else {
                r == Err::<(usize, usize), FieldError>(FieldError::Truncated)
            },
            Extent::Malformed(err) => r == Err::<(usize, usize), FieldError>(err),
        },
        r matches Ok((s, e)) ==> s <= e <= b@.len() - pos,
{
    let ghost tail = b@.subrange(pos as int, b@.len() as int);
    proof {
        lemma_varint_cap_top();
    }
    let avail = b.len() - pos;
    if wt == 0 {
        match read_varint_at(b, pos, 0) {
            Some((_, n)) => {
                proof {
                    lemma_read_varint_bounds(tail, 0);
                }
                Ok((0, n))
            },
            None => Err(FieldError::InvalidVarint),
        }
    } else if wt == 1 {
        if avail < 8 {
            Err(FieldError::Truncated)
        } else {
            Ok((0, 8))
        }
    } else if wt == 5 {
        if avail < 4 {
            Err(FieldError::Truncated)
        } else {
            Ok((0, 4))
        }
    } else if wt == 2 {
        match read_varint_at(b, pos, 0) {
            Some((len, n)) => {
                proof {
                    lemma_read_varint_bounds(tail, 0);
                }
                if len > (avail - n) as u64 {
                    Err(FieldError::Truncated)
                } else {
                    Ok((n, n + len as usize))
                }
            },
            None => Err(FieldError::InvalidVarint),
        }
    } else {
        Err(FieldError::Group)
    }
}

} // verus!
