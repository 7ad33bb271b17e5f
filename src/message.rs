//! The message record, its binary encoding, and the compression envelope.

use vstd::prelude::*;
use vstd::utf8::{decode_utf8, encode_utf8, valid_utf8};
use crate::base64_text::{base64_encode, decode_base64, encode_base64};
use crate::compression::{
    compress_content, decompress_content, gzip_fails, gzip_magic, gzip_of, restored_text, utf8_text,
    CompressionError,
};
use crate::protobuf::{
    extent, field_extent, field_key, len_field, lemma_read_varint_bounds, lemma_read_varint_of_varint,
    lemma_read_varint_unterminated, lemma_varint_cap_top, read_varint, read_varint_at, varint,
    varint_field, write_len_field, write_varint_field, Extent, FieldError,
};

verus! {

/// The unit exchanged on the wire.
#[derive(Clone, Debug, PartialEq, Eq)]
pub struct AgentMessage {
    pub sender_id: String,
    /// Seconds since the Unix epoch.
    pub timestamp: i64,
    pub content: String,
}

/// What a message holds, as mathematical values.
pub struct MessageView {
    pub sender_id: Seq<char>,
    pub timestamp: i64,
    pub content: Seq<char>,
}

impl View for AgentMessage {
    type V = MessageView;

    open spec fn view(&self) -> MessageView {
        MessageView { sender_id: self.sender_id@, timestamp: self.timestamp, content: self.content@ }
    }
}

/// Why bytes do not decode to a message record.
#[derive(PartialEq, Eq, Structural, Clone, Copy, Debug)]
pub enum DecodeError {
    /// A varint ran past the end of the input or past ten bytes.
    InvalidVarint,
    /// A key of 2^32 or more, or one for field number 0.
    InvalidKey,
    /// A wire type above 5.
    InvalidWireType,
    /// A known field with a wire type other than its own.
    WrongWireType,
    /// A field that runs past the end of the input.
    Truncated,
    /// A text field whose bytes are not UTF-8.
    InvalidUtf8,
    /// A group, which this record never holds.
    Group,
}

/// Why a record could not be encoded.
#[derive(PartialEq, Eq, Structural, Clone, Copy, Debug)]
pub enum EncodeError {
    /// The text form of the content would not fit in memory.
    TooLarge,
}

pub open spec fn empty_message() -> MessageView {
    MessageView { sender_id: Seq::empty(), timestamp: 0, content: Seq::empty() }
}

/// The varint that carries a signed 64-bit integer: its two's complement bits.
pub open spec fn i64_bits(t: i64) -> nat {
    if t >= 0 {
        t as nat
    } else {
        (t + 0x1_0000_0000_0000_0000) as nat
    }
}

/// The signed 64-bit integer whose two's complement bits are `v`.
pub open spec fn i64_of_bits(v: nat) -> i64 {
    if v < 0x8000_0000_0000_0000 {
        v as i64
    } else {
        (v - 0x1_0000_0000_0000_0000) as i64
    }
}

/// A text field; an empty text is left out, as protobuf leaves out defaults.
pub open spec fn text_field(field: nat, s: Seq<char>) -> Seq<u8> {
    if s.len() == 0 {
        Seq::empty()
    } else {
        len_field(field, encode_utf8(s))
    }
}

/// The encoding of a message: sender as field 1, timestamp as field 2 and
/// content as field 3, each left out where it holds its default.
pub open spec fn encode_message(m: MessageView) -> Seq<u8> {
    text_field(1, m.sender_id) + (if m.timestamp == 0 {
        Seq::empty()
    } else {
        varint_field(2, i64_bits(m.timestamp))
    }) + text_field(3, m.content)
}

pub open spec fn field_error(e: FieldError) -> DecodeError {
    match e {
        FieldError::InvalidVarint => DecodeError::InvalidVarint,
        FieldError::Truncated => DecodeError::Truncated,
        FieldError::Group => DecodeError::Group,
    }
}

/// Applies one field to `acc`; `rest` follows the key and the payload is
/// `rest[s..e]`. Unknown fields leave `acc` as it is.
pub open spec fn apply_field(
    tag: nat,
    wt: nat,
    rest: Seq<u8>,
    s: nat,
    e: nat,
    acc: MessageView,
) -> Result<MessageView, DecodeError> {
    let payload = rest.subrange(s as int, e as int);
    if tag == 1 || tag == 3 {
        if wt != 2 {
            Err(DecodeError::WrongWireType)
        } else if !valid_utf8(payload) {
            Err(DecodeError::InvalidUtf8)
        } else if tag == 1 {
            Ok(MessageView { sender_id: decode_utf8(payload), ..acc })
        } else {
            Ok(MessageView { content: decode_utf8(payload), ..acc })
        }
    } else if tag == 2 {
        if wt != 0 {
            Err(DecodeError::WrongWireType)
        } else {
            match read_varint(rest, 0) {
                Some((v, _)) => Ok(MessageView { timestamp: i64_of_bits(v), ..acc }),
                None => Err(DecodeError::InvalidVarint),
            }
        }
    } else {
        Ok(acc)
    }
}

/// Decodes the fields in `b` on top of `acc`; a later field replaces an
/// earlier one of the same number.
pub open spec fn decode_fields(b: Seq<u8>, acc: MessageView) -> Result<MessageView, DecodeError>
    decreases b.len(),
{
    if b.len() == 0 {
        Ok(acc)
    } else {
        match read_varint(b, 0) {
            None => Err(DecodeError::InvalidVarint),
            Some((key, n)) => {
                if key > 0xFFFF_FFFF || key / 8 == 0 {
                    Err(DecodeError::InvalidKey)
                } else if key % 8 > 5 {
                    Err(DecodeError::InvalidWireType)
                } else {
                    let rest = b.subrange(n as int, b.len() as int);
                    match extent(key % 8, rest) {
                        Extent::Malformed(err) => Err(field_error(err)),
                        Extent::Within(s, e) => {
                            if e > rest.len() {
                                Err(DecodeError::Truncated)
                            } else {
                                match apply_field(key / 8, key % 8, rest, s, e, acc) {
                                    Ok(next) => {
                                        proof {
                                            lemma_read_varint_bounds(b, 0);
                                        }
                                        decode_fields(rest.subrange(e as int, rest.len() as int), next)
                                    },
                                    Err(err) => Err(err),
                                }
                            }
                        },
                    }
                }
            },
        }
    }
}

/// The record that `b` decodes to, or why it does not.
pub open spec fn decode_message(b: Seq<u8>) -> Result<MessageView, DecodeError> {
    decode_fields(b, empty_message())
}

/// The two's complement bits of `t`.
fn bits_of_i64(t: i64) -> (r: u64)
    ensures
        r as nat == i64_bits(t),
{
    if t >= 0 {
        t as u64
    } else {
        u64::MAX - (-(t + 1)) as u64
    }
}

/// The signed integer whose two's complement bits are `v`.
fn i64_from_bits(v: u64) -> (r: i64)
    ensures
        r == i64_of_bits(v as nat),
{
    if v < 0x8000_0000_0000_0000 {
        v as i64
    } else {
        -((u64::MAX - v) as i64) - 1
    }
}

/// Relies on std's `SystemTime::now` and `duration_since(UNIX_EPOCH)`: the
/// whole seconds since the epoch, or `None` for a clock set before it.
#[verifier::external_body]
fn seconds_since_epoch() -> (r: Option<u64>) {
    std::time::SystemTime::now().duration_since(std::time::UNIX_EPOCH).ok().map(|d| d.as_secs())
}

/// The timestamp for a clock reading in whole seconds since the epoch:
/// the reading itself, clamped to `i64::MAX`; 0 for a clock set before
/// the epoch.
pub open spec fn clock_timestamp(seconds: Option<u64>) -> i64 {
    match seconds {
        Some(s) => if s <= i64::MAX {
            s as i64
        } else {
            i64::MAX
        },
        None => 0,
    }
}

/// Turns a clock reading into a timestamp.
pub fn timestamp_from_clock(seconds: Option<u64>) -> (r: i64)
    ensures
        r == clock_timestamp(seconds),
{
    match seconds {
        Some(s) => if s <= i64::MAX as u64 {
            s as i64
        } else {
            i64::MAX
        },
        None => 0,
    }
}

impl AgentMessage {
    /// A message stamped with the current time, in whole seconds since the
    /// epoch (0 for a clock set before it).
    pub fn new(sender_id: String, content: String) -> (r: AgentMessage)
        ensures
            r.sender_id@ == sender_id@,
            r.content@ == content@,
            exists|s: Option<u64>| r.timestamp == clock_timestamp(s),
            r.timestamp >= 0,
    {
        let timestamp = timestamp_from_clock(seconds_since_epoch());
        AgentMessage { sender_id, timestamp, content }
    }

    /// Encodes the record (protobuf, fields 1 to 3).
    pub fn serialize(&self) -> (r: Result<Vec<u8>, EncodeError>)
        ensures
            r matches Ok(v) && v@ == encode_message(self@),
    {
        let mut out: Vec<u8> = Vec::new();
        proof {
            lemma_text_bytes_empty(self.sender_id@);
            lemma_text_bytes_empty(self.content@);
        }
        let sender: &[u8] = self.sender_id.as_str().as_bytes();
        if sender.len() > 0 {
            write_len_field(&mut out, 1, sender);
        }
        assert(out@ =~= text_field(1, self.sender_id@));
        if self.timestamp != 0 {
            write_varint_field(&mut out, 2, bits_of_i64(self.timestamp));
        }
        let ghost after_time = out@;
        let content: &[u8] = self.content.as_str().as_bytes();
        if content.len() > 0 {
            write_len_field(&mut out, 3, content);
        }
        assert(out@ =~= after_time + text_field(3, self.content@));
        assert(out@ =~= encode_message(self@));
        Ok(out)
    }

    /// Decodes a record; fails on truncated or structurally invalid input.
    pub fn deserialize(bytes: &[u8]) -> (r: Result<AgentMessage, DecodeError>)
        ensures
            match decode_message(bytes@) {
                Ok(m) => r matches Ok(x) && x@ == m,
                Err(e) => r == Err::<AgentMessage, DecodeError>(e),
            },
    {
        let mut sender_id = String::new();
        let mut timestamp: i64 = 0;
        let mut content = String::new();
        let mut pos: usize = 0;
        proof {
            lemma_varint_cap_top();
            assert(bytes@.subrange(0, bytes@.len() as int) =~= bytes@);
        }
        while pos < bytes.len()
            invariant
                pos <= bytes@.len(),
                decode_fields(
                    bytes@.subrange(pos as int, bytes@.len() as int),
                    MessageView { sender_id: sender_id@, timestamp, content: content@ },
                ) == decode_message(bytes@),
            decreases bytes@.len() - pos,
        {
            let ghost b = bytes@.subrange(pos as int, bytes@.len() as int);
            let (key, n) = match read_varint_at(bytes, pos, 0) {
                Some(x) => x,
                None => {
                    return Err(DecodeError::InvalidVarint);
                },
            };
            proof {
                lemma_varint_cap_top();
                lemma_read_varint_bounds(b, 0);
            }
            if key > 0xFFFF_FFFF || key / 8 == 0 {
                return Err(DecodeError::InvalidKey);
            }
            let wt = key % 8;
            let tag = key / 8;
            if wt > 5 {
                return Err(DecodeError::InvalidWireType);
            }
            let start = pos + n;
            let ghost rest = b.subrange(n as int, b.len() as int);
            assert(rest =~= bytes@.subrange(start as int, bytes@.len() as int));
            let (s, e) = match field_extent(bytes, start, wt) {
                Ok(x) => x,
                Err(FieldError::InvalidVarint) => {
                    return Err(DecodeError::InvalidVarint);
                },
                Err(FieldError::Truncated) => {
                    return Err(DecodeError::Truncated);
                },
                Err(FieldError::Group) => {
                    return Err(DecodeError::Group);
                },
            };
            if tag == 1 || tag == 3 {
                if wt != 2 {
                    return Err(DecodeError::WrongWireType);
                }
                let payload: &[u8] = &bytes[start + s..start + e];
                assert(payload@ =~= rest.subrange(s as int, e as int));
                let text = match utf8_text(payload) {
                    Some(t) => t.to_owned(),
                    None => {
                        return Err(DecodeError::InvalidUtf8);
                    },
                };
                if tag == 1 {
                    sender_id = text;
                } else {
                    content = text;
                }
            } else if tag == 2 {
                if wt != 0 {
                    return Err(DecodeError::WrongWireType);
                }
                match read_varint_at(bytes, start, 0) {
                    Some((v, _)) => {
                        timestamp = i64_from_bits(v);
                    },
                    None => {
                        return Err(DecodeError::InvalidVarint);
                    },
                }
            }
            assert(rest.subrange(e as int, rest.len() as int) =~= bytes@.subrange(
                (start + e) as int,
                bytes@.len() as int,
            ));
            pos = start + e;
        }
        Ok(AgentMessage { sender_id, timestamp, content })
    }
}


proof fn lemma_text_bytes_empty(s: Seq<char>)
    ensures
        (encode_utf8(s).len() == 0) == (s.len() == 0),
{
    vstd::utf8::encode_utf8_decode_utf8(s);
    if s.len() > 0 {
        vstd::utf8::encode_utf8_first_scalar(s);
    }
}

/// Input whose bytes all carry the continuation bit (such as ff ff ff ff)
/// is cut off inside its first varint, and is rejected.
pub proof fn lemma_unterminated_rejected(b: Seq<u8>)
    requires
        b.len() > 0,
        forall|i: int| 0 <= i < b.len() ==> #[trigger] b[i] >= 128,
    ensures
        decode_message(b) == Err::<MessageView, DecodeError>(DecodeError::InvalidVarint),
{
    lemma_read_varint_unterminated(b, 0);
}

/// A length-delimited field whose length prefix runs past the end of the
/// input is rejected as truncated, whatever the field's number.
pub proof fn lemma_length_past_end_rejected(field: nat, len: nat, rest: Seq<u8>, acc: MessageView)
    requires
        1 <= field < 0x1000_0000,
        len < 0x1_0000_0000_0000_0000,
        rest.len() < len,
    ensures
        decode_fields(varint(field_key(field, 2)) + varint(len) + rest, acc) == Err::<
            MessageView,
            DecodeError,
        >(DecodeError::Truncated),
{
    let key = field_key(field, 2);
    let b = varint(key) + varint(len) + rest;
    lemma_varint_cap_top();
    assert(b =~= varint(key) + (varint(len) + rest));
    lemma_read_varint_of_varint(key, 0, varint(len) + rest);
    let n = varint(key).len();
    assert(b.subrange(n as int, b.len() as int) =~= varint(len) + rest);
    lemma_read_varint_of_varint(len, 0, rest);
    assert(key % 8 == 2 && key / 8 == field);
    assert(b.len() > 0);
}

/// A key whose wire type is 6 or 7 is rejected.
pub proof fn lemma_bad_wire_type_rejected(key: nat, rest: Seq<u8>, acc: MessageView)
    requires
        key <= 0xFFFF_FFFF,
        key / 8 != 0,
        key % 8 > 5,
    ensures
        decode_fields(varint(key) + rest, acc) == Err::<MessageView, DecodeError>(
            DecodeError::InvalidWireType,
        ),
{
    lemma_varint_cap_top();
    lemma_read_varint_of_varint(key, 0, rest);
    assert((varint(key) + rest).len() > 0);
}

/// A sender or content field whose bytes are not UTF-8 is rejected.
pub proof fn lemma_non_utf8_text_rejected(field: nat, data: Seq<u8>, rest: Seq<u8>, acc: MessageView)
    requires
        field == 1 || field == 3,
        data.len() < 0x1_0000_0000_0000_0000,
        !valid_utf8(data),
    ensures
        decode_fields(len_field(field, data) + rest, acc) == Err::<MessageView, DecodeError>(
            DecodeError::InvalidUtf8,
        ),
{
    let key = field_key(field, 2);
    let b = len_field(field, data) + rest;
    lemma_varint_cap_top();
    assert(b =~= varint(key) + (varint(data.len()) + data + rest));
    lemma_read_varint_of_varint(key, 0, varint(data.len()) + data + rest);
    assert(varint(key) == seq![key as u8]);
    let tail = b.subrange(1, b.len() as int);
    assert(tail =~= varint(data.len()) + (data + rest));
    lemma_read_varint_of_varint(data.len(), 0, data + rest);
    let n = varint(data.len()).len();
    assert(tail.subrange(n as int, (n + data.len()) as int) =~= data);
    assert(key % 8 == 2 && key / 8 == field);
    assert(b.len() > 0);
}

/// A message whose texts can be held in memory: each one's UTF-8 encoding
/// is shorter than 2^64 bytes, as that of every `String` is.
pub open spec fn holdable(m: MessageView) -> bool {
    encode_utf8(m.sender_id).len() < 0x1_0000_0000_0000_0000 && encode_utf8(m.content).len()
        < 0x1_0000_0000_0000_0000
}

/// Decoding the encoding of a message gives the message back, whatever its
/// texts (empty, multi-byte) and its timestamp.
pub proof fn lemma_decode_encode(m: MessageView)
    requires
        holdable(m),
    ensures
        decode_message(encode_message(m)) == Ok::<MessageView, DecodeError>(m),
{
    let t = if m.timestamp == 0 {
        Seq::empty()
    } else {
        varint_field(2, i64_bits(m.timestamp))
    };
    let c = text_field(3, m.content);
    let acc0 = empty_message();
    let acc1 = MessageView { sender_id: m.sender_id, ..acc0 };
    let acc2 = MessageView { timestamp: m.timestamp, ..acc1 };
    assert(encode_message(m) =~= text_field(1, m.sender_id) + (t + c));
    if m.sender_id.len() == 0 {
        assert(text_field(1, m.sender_id) + (t + c) =~= t + c);
        assert(m.sender_id =~= Seq::<char>::empty());
    } else {
        lemma_decode_text_field(1, m.sender_id, t + c, acc0);
    }
    if m.timestamp == 0 {
        assert(t + c =~= c);
        assert(acc2 == acc1);
    } else {
        lemma_decode_timestamp_field(m.timestamp, c, acc1);
    }
    if m.content.len() == 0 {
        assert(c =~= Seq::<u8>::empty());
        assert(m.content =~= Seq::<char>::empty());
    } else {
        lemma_decode_text_field(3, m.content, Seq::empty(), acc2);
        assert(c + Seq::<u8>::empty() =~= c);
    }
    assert(MessageView { content: m.content, ..acc2 } == m);
}

proof fn lemma_decode_text_field(f: nat, s: Seq<char>, tail: Seq<u8>, acc: MessageView)
    requires
        f == 1 || f == 3,
        s.len() > 0,
        encode_utf8(s).len() < 0x1_0000_0000_0000_0000,
    ensures
        decode_fields(len_field(f, encode_utf8(s)) + tail, acc) == decode_fields(
            tail,
            if f == 1 {
                MessageView { sender_id: s, ..acc }
            } else {
                MessageView { content: s, ..acc }
            },
        ),
{
    let d = encode_utf8(s);
    let key: nat = if f == 1 {
        10
    } else {
        26
    };
    assert(key == f * 8 + 2);
    let b = len_field(f, d) + tail;
    lemma_varint_cap_top();
    lemma_read_varint_of_varint(key, 0, varint(d.len()) + d + tail);
    assert(b =~= varint(key) + (varint(d.len()) + d + tail));
    assert(varint(key) == seq![key as u8]);
    let rest = b.subrange(1, b.len() as int);
    assert(rest =~= varint(d.len()) + (d + tail));
    lemma_read_varint_of_varint(d.len(), 0, d + tail);
    let n = varint(d.len()).len();
    assert(rest.subrange(n as int, (n + d.len()) as int) =~= d);
    assert(rest.subrange((n + d.len()) as int, rest.len() as int) =~= tail);
    vstd::utf8::encode_utf8_valid_utf8(s);
    vstd::utf8::encode_utf8_decode_utf8(s);
    assert(b.len() > 0);
}

proof fn lemma_decode_timestamp_field(ts: i64, tail: Seq<u8>, acc: MessageView)
    requires
        ts != 0,
    ensures
        decode_fields(varint_field(2, i64_bits(ts)) + tail, acc) == decode_fields(
            tail,
            MessageView { timestamp: ts, ..acc },
        ),
{
    let v = i64_bits(ts);
    let b = varint_field(2, v) + tail;
    lemma_varint_cap_top();
    lemma_read_varint_of_varint(16, 0, varint(v) + tail);
    assert(b =~= varint(16) + (varint(v) + tail));
    assert(varint(16) == seq![16u8]);
    let rest = b.subrange(1, b.len() as int);
    assert(rest =~= varint(v) + tail);
    lemma_read_varint_of_varint(v, 0, tail);
    let n = varint(v).len();
    assert(rest.subrange(n as int, rest.len() as int) =~= tail);
    assert(i64_of_bits(v) == ts);
}

/// A message whose content is held as bytes, compressed or not.
pub struct CompressedAgentMessage {
    pub sender_id: String,
    pub timestamp: i64,
    pub compressed_data: Vec<u8>,
    pub is_compressed: bool,
    pub original_size: usize,
}

pub struct EnvelopeView {
    pub sender_id: Seq<char>,
    pub timestamp: i64,
    pub data: Seq<u8>,
    pub is_compressed: bool,
    pub original_size: nat,
}

impl View for CompressedAgentMessage {
    type V = EnvelopeView;

    open spec fn view(&self) -> EnvelopeView {
        EnvelopeView {
            sender_id: self.sender_id@,
            timestamp: self.timestamp,
            data: self.compressed_data@,
            is_compressed: self.is_compressed,
            original_size: self.original_size as nat,
        }
    }
}

/// Why a datagram does not yield an envelope or a message.
#[derive(PartialEq, Eq, Structural, Clone, Copy, Debug)]
pub enum WireError {
    /// The bytes are no message record.
    Decode(DecodeError),
    /// Content marked as compressed is not base64 text.
    Base64,
    /// Compressed content does not restore to text.
    Compression(CompressionError),
}

/// The envelope of `m`: its content gzip-compressed where the content's
/// UTF-8 length strictly exceeds `threshold`, else its raw UTF-8 bytes.
pub open spec fn envelope_of(m: MessageView, threshold: nat) -> EnvelopeView {
    let raw = encode_utf8(m.content);
    EnvelopeView {
        sender_id: m.sender_id,
        timestamp: m.timestamp,
        data: if raw.len() > threshold {
            gzip_of(raw)
        } else {
            raw
        },
        is_compressed: raw.len() > threshold,
        original_size: raw.len(),
    }
}

/// The content that an envelope's bytes stand for.
pub open spec fn envelope_text(e: EnvelopeView) -> Result<Seq<char>, CompressionError> {
    if e.is_compressed {
        restored_text(e.data)
    } else if valid_utf8(e.data) {
        Ok(decode_utf8(e.data))
    } else {
        Err(CompressionError::InvalidUtf8)
    }
}

/// The message that an envelope restores to.
pub open spec fn message_of_envelope(e: EnvelopeView) -> Result<MessageView, CompressionError> {
    match envelope_text(e) {
        Ok(c) => Ok(MessageView { sender_id: e.sender_id, timestamp: e.timestamp, content: c }),
        Err(x) => Err(x),
    }
}

/// The text that carries an envelope's bytes in the content field: base64
/// where compressed, else the bytes read as UTF-8.
pub open spec fn wire_text(e: EnvelopeView) -> Seq<char> {
    if e.is_compressed {
        base64_encode(e.data)
    } else if valid_utf8(e.data) {
        decode_utf8(e.data)
    } else {
        lossy_utf8_of(e.data)
    }
}

/// The record that carries an envelope on the wire.
pub open spec fn wire_record(e: EnvelopeView) -> MessageView {
    MessageView { sender_id: e.sender_id, timestamp: e.timestamp, content: wire_text(e) }
}

/// What `String::from_utf8_lossy` makes of `b`.
pub uninterp spec fn lossy_utf8_of(b: Seq<u8>) -> Seq<char>;

/// Relies on std's `String::from_utf8_lossy`, which reads valid UTF-8 as it
/// stands and replaces what is not.
#[verifier::external_body]
fn lossy_text(b: &[u8]) -> (r: String)
    ensures
        r@ == lossy_utf8_of(b@),
        valid_utf8(b@) ==> r@ == decode_utf8(b@),
{
    String::from_utf8_lossy(b).into_owned()
}

/// Copies a byte slice.
fn copy_bytes(b: &[u8]) -> (r: Vec<u8>)
    ensures
        r@ == b@,
{
    let mut out: Vec<u8> = Vec::new();
    let mut i: usize = 0;
    while i < b.len()
        invariant
            i <= b@.len(),
            out@ == b@.subrange(0, i as int),
        decreases b@.len() - i,
    {
        out.push(b[i]);
        assert(out@ =~= b@.subrange(0, i + 1));
        i = i + 1;
    }
    assert(b@.subrange(0, b@.len() as int) =~= b@);
    out
}

impl AgentMessage {
    /// The envelope of this message for the given threshold; decompressing
    /// it gives this message back.
    pub fn to_compressed(&self, compression_threshold: usize) -> (r: Result<
        CompressedAgentMessage,
        CompressionError,
    >)
        ensures
            match r {
                Ok(e) => e@ == envelope_of(self@, compression_threshold as nat)
                    && message_of_envelope(e@) == Ok::<MessageView, CompressionError>(self@) && (
                    e.is_compressed ==> gzip_magic(e.compressed_data@)),
                Err(x) => x == CompressionError::Deflate,
            },
            r is Err <==> encode_utf8(self.content@).len() > compression_threshold && gzip_fails(
                encode_utf8(self.content@),
            ),
    {
        let raw: &[u8] = self.content.as_str().as_bytes();
        proof {
            vstd::utf8::encode_utf8_valid_utf8(self.content@);
            vstd::utf8::encode_utf8_decode_utf8(self.content@);
        }
        if raw.len() > compression_threshold {
            let compressed_data = match compress_content(self.content.as_str()) {
                Ok(v) => v,
                Err(e) => {
                    return Err(e);
                },
            };
            Ok(CompressedAgentMessage {
                sender_id: self.sender_id.clone(),
                timestamp: self.timestamp,
                compressed_data,
                is_compressed: true,
                original_size: raw.len(),
            })
        } else {
            Ok(CompressedAgentMessage {
                sender_id: self.sender_id.clone(),
                timestamp: self.timestamp,
                compressed_data: copy_bytes(raw),
                is_compressed: false,
                original_size: raw.len(),
            })
        }
    }
}

impl CompressedAgentMessage {
    /// The message this envelope stands for, decompressing where needed.
    pub fn to_agent_message(&self) -> (r: Result<AgentMessage, CompressionError>)
        ensures
            match message_of_envelope(self@) {
                Ok(m) => r matches Ok(x) && x@ == m,
                Err(e) => r == Err::<AgentMessage, CompressionError>(e),
            },
    {
        let content = if self.is_compressed {
            match decompress_content(self.compressed_data.as_slice()) {
                Ok(c) => c,
                Err(e) => {
                    return Err(e);
                },
            }
        } else {
            match utf8_text(self.compressed_data.as_slice()) {
                Some(t) => t.to_owned(),
                None => {
                    return Err(CompressionError::InvalidUtf8);
                },
            }
        };
        Ok(AgentMessage { sender_id: self.sender_id.clone(), timestamp: self.timestamp, content })
    }

    /// Encodes the envelope as a message record whose content is base64
    /// text where compressed, else the bytes read as UTF-8. Fails only where
    /// the base64 text would not fit in memory.
    pub fn serialize(&self) -> (r: Result<Vec<u8>, EncodeError>)
        ensures
            match r {
                Ok(v) => v@ == encode_message(wire_record(self@)) && holdable(wire_record(self@)),
                Err(e) => e == EncodeError::TooLarge,
            },
            r is Err <==> self.is_compressed && self.compressed_data@.len() >= usize::MAX / 2,
    {
        let content = if self.is_compressed {
            if self.compressed_data.len() >= usize::MAX / 2 {
                return Err(EncodeError::TooLarge);
            }
            encode_base64(self.compressed_data.as_slice())
        } else {
            lossy_text(self.compressed_data.as_slice())
        };
        let record = AgentMessage {
            sender_id: self.sender_id.clone(),
            timestamp: self.timestamp,
            content,
        };
        let _ = record.sender_id.as_str().as_bytes().len();
        let _ = record.content.as_str().as_bytes().len();
        record.serialize()
    }

    /// Decodes a record and takes its content back to bytes: from base64
    /// where `is_compressed`, else as its UTF-8 bytes.
    pub fn deserialize(bytes: &[u8], is_compressed: bool, original_size: usize) -> (r: Result<
        CompressedAgentMessage,
        WireError,
    >)
        ensures
            match decode_message(bytes@) {
                Err(e) => r == Err::<CompressedAgentMessage, WireError>(WireError::Decode(e)),
                Ok(w) => if !is_compressed {
                    r matches Ok(e) && e@ == EnvelopeView {
                        sender_id: w.sender_id,
                        timestamp: w.timestamp,
                        data: encode_utf8(w.content),
                        is_compressed,
                        original_size: original_size as nat,
                    }
                } else if exists|x: Seq<u8>| base64_encode(x) == w.content {
                    r matches Ok(e) && e@ == EnvelopeView {
                        sender_id: w.sender_id,
                        timestamp: w.timestamp,
                        data: choose|x: Seq<u8>| base64_encode(x) == w.content,
                        is_compressed,
                        original_size: original_size as nat,
                    }
                } else {
                    r == Err::<CompressedAgentMessage, WireError>(WireError::Base64)
                },
            },
    {
        let record = match AgentMessage::deserialize(bytes) {
            Ok(m) => m,
            Err(e) => {
                return Err(WireError::Decode(e));
            },
        };
        let compressed_data = if is_compressed {
            match decode_base64(record.content.as_str()) {
                Some(v) => v,
                None => {
                    return Err(WireError::Base64);
                },
            }
        } else {
            copy_bytes(record.content.as_str().as_bytes())
        };
        Ok(CompressedAgentMessage {
            sender_id: record.sender_id,
            timestamp: record.timestamp,
            compressed_data,
            is_compressed,
            original_size,
        })
    }
}

} // verus!
