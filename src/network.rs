//! Multicast configuration and the transport's own logic: which group
//! addresses are accepted, the datagram sent for a message, and the message
//! that a received datagram reads as. The socket itself is driven by the
//! caller, which hands the bytes in and out.

use vstd::prelude::*;
use vstd::utf8::encode_utf8;
use crate::base64_text::{base64_encode, lemma_base64_injective, lemma_gzip_text_prefix};
use crate::compression::{gzip_fails, gzip_of, restored_text, CompressionError};
use crate::message::{
    decode_message, encode_message, envelope_of, lemma_decode_encode, wire_record,
    AgentMessage, CompressedAgentMessage, DecodeError, EncodeError, MessageView, WireError,
};

verus! {

/// An IP address: IPv4 as four octets, IPv6 as eight 16-bit segments.
#[derive(PartialEq, Eq, Structural, Clone, Copy, Debug)]
pub enum IpAddress {
    V4(u8, u8, u8, u8),
    V6(u16, u16, u16, u16, u16, u16, u16, u16),
}

/// An IP address and a port.
#[derive(PartialEq, Eq, Structural, Clone, Copy, Debug)]
pub struct SocketAddress {
    pub ip: IpAddress,
    pub port: u16,
}

/// An IPv4 multicast group that the transport can join.
#[derive(PartialEq, Eq, Structural, Clone, Copy, Debug)]
pub struct MulticastGroup {
    pub a: u8,
    pub b: u8,
    pub c: u8,
    pub d: u8,
    pub port: u16,
}

/// Multicast addresses: 224.0.0.0/4 for IPv4, ff00::/8 for IPv6.
pub open spec fn is_multicast_ip(ip: IpAddress) -> bool {
    match ip {
        IpAddress::V4(a, _, _, _) => 224 <= a <= 239,
        IpAddress::V6(s, _, _, _, _, _, _, _) => s >= 0xff00,
    }
}

impl SocketAddress {
    pub fn v4(a: u8, b: u8, c: u8, d: u8, port: u16) -> (r: SocketAddress)
        ensures
            r == (SocketAddress { ip: IpAddress::V4(a, b, c, d), port }),
    {
        SocketAddress { ip: IpAddress::V4(a, b, c, d), port }
    }

    pub fn is_multicast(&self) -> (r: bool)
        ensures
            r == is_multicast_ip(self.ip),
    {
        match self.ip {
            IpAddress::V4(a, _, _, _) => 224 <= a && a <= 239,
            IpAddress::V6(s, _, _, _, _, _, _, _) => s >= 0xff00,
        }
    }

    pub fn port(&self) -> (r: u16)
        ensures
            r == self.port,
    {
        self.port
    }
}

/// Settings of the transport.
#[derive(Clone, Debug)]
pub struct NetworkConfig {
    /// The multicast group and port that nodes share.
    pub multicast_address: SocketAddress,
    /// The interface to join on, as an IPv4 address; `None` for any.
    pub interface: Option<String>,
    /// Size of the receive buffer in bytes.
    pub buffer_size: usize,
    /// Content longer than this many bytes is sent compressed.
    pub compression_threshold: usize,
}

impl Default for NetworkConfig {
    fn default() -> (r: NetworkConfig)
        ensures
            r.multicast_address == (SocketAddress { ip: IpAddress::V4(239, 255, 255, 250), port: 8080 }),
            (r.interface is None),
            r.buffer_size == 65536,
            r.compression_threshold == 1024,
    {
        NetworkConfig {
            multicast_address: SocketAddress::v4(239, 255, 255, 250, 8080),
            interface: None,
            buffer_size: 65536,
            compression_threshold: 1024,
        }
    }
}

/// What can go wrong in the transport.
#[derive(PartialEq, Eq, Clone, Debug)]
pub enum NetworkError {
    SocketCreation(String),
    MulticastJoin(String),
    SendError(String),
    ReceiveError(String),
    SerializationError(EncodeError),
    DeserializationError(WireError),
    ConfigError(String),
    Unsupported(String),
}

/// The numeral of `n` in `base` (10 or 16), lower-case, without leading zeros.
pub open spec fn numeral(n: nat, base: nat) -> Seq<char>
    decreases n,
{
    if n < base || base < 2 {
        seq![digit_char(n)]
    } else {
        proof {
            vstd::arithmetic::div_mod::lemma_div_decreases(n as int, base as int);
        }
        numeral(n / base, base).push(digit_char(n % base))
    }
}

/// The digit for `d` (below 16).
pub open spec fn digit_char(d: nat) -> char {
    "0123456789abcdef"@[d as int]
}

/// The text of an address: dotted decimal for IPv4; for IPv6 the eight
/// segments in hex, separated by colons.
pub open spec fn ip_text(ip: IpAddress) -> Seq<char> {
    match ip {
        IpAddress::V4(a, b, c, d) => numeral(a as nat, 10) + seq!['.'] + numeral(b as nat, 10)
            + seq!['.'] + numeral(c as nat, 10) + seq!['.'] + numeral(d as nat, 10),
        IpAddress::V6(s0, s1, s2, s3, s4, s5, s6, s7) => numeral(s0 as nat, 16) + seq![':']
            + numeral(s1 as nat, 16) + seq![':'] + numeral(s2 as nat, 16) + seq![':'] + numeral(
            s3 as nat,
            16,
        ) + seq![':'] + numeral(s4 as nat, 16) + seq![':'] + numeral(s5 as nat, 16) + seq![':']
            + numeral(s6 as nat, 16) + seq![':'] + numeral(s7 as nat, 16),
    }
}

fn digit_text(d: u64) -> (r: String)
    requires
        d < 16,
    ensures
        r@ == seq![digit_char(d as nat)],
{
    let digits = "0123456789abcdef";
    proof {
        reveal_strlit("0123456789abcdef");
    }
    let mut out = String::new();
    out.append(digits.substring_ascii(d as usize, d as usize + 1));
    assert(out@ =~= seq![digit_char(d as nat)]);
    out
}

fn numeral_text(n: u64, base: u64) -> (r: String)
    requires
        base == 10 || base == 16,
    ensures
        r@ == numeral(n as nat, base as nat),
    decreases n,
{
    if n < base {
        digit_text(n)
    } else {
        let mut s = numeral_text(n / base, base);
        let d = digit_text(n % base);
        s.append(d.as_str());
        assert(s@ =~= numeral(n as nat, base as nat));
        s
    }
}

fn append_lit(s: &mut String, lit: &str)
    ensures
        final(s)@ == old(s)@ + lit@,
{
    s.append(lit);
}

fn ip_to_text(ip: IpAddress) -> (r: String)
    ensures
        r@ == ip_text(ip),
{
    let mut out = String::new();
    match ip {
        IpAddress::V4(a, b, c, d) => {
            proof {
                reveal_strlit(".");
            }
            out.append(numeral_text(a as u64, 10).as_str());
            out.append(".");
            out.append(numeral_text(b as u64, 10).as_str());
            out.append(".");
            out.append(numeral_text(c as u64, 10).as_str());
            out.append(".");
            out.append(numeral_text(d as u64, 10).as_str());
        },
        IpAddress::V6(s0, s1, s2, s3, s4, s5, s6, s7) => {
            proof {
                reveal_strlit(":");
            }
            out.append(numeral_text(s0 as u64, 16).as_str());
            out.append(":");
            out.append(numeral_text(s1 as u64, 16).as_str());
            out.append(":");
            out.append(numeral_text(s2 as u64, 16).as_str());
            out.append(":");
            out.append(numeral_text(s3 as u64, 16).as_str());
            out.append(":");
            out.append(numeral_text(s4 as u64, 16).as_str());
            out.append(":");
            out.append(numeral_text(s5 as u64, 16).as_str());
            out.append(":");
            out.append(numeral_text(s6 as u64, 16).as_str());
            out.append(":");
            out.append(numeral_text(s7 as u64, 16).as_str());
        },
    }
    assert(out@ =~= ip_text(ip));
    out
}

/// The complaint about an address that is no multicast address.
pub open spec fn not_multicast_text(ip: IpAddress) -> Seq<char> {
    "Address "@ + ip_text(ip) + " is not a valid multicast address"@
}

/// Checks the configured group before any socket is made: an IPv4 multicast
/// address is accepted, any other address is a configuration error, and an
/// IPv6 multicast address is unsupported.
pub fn validate_group(address: &SocketAddress) -> (r: Result<MulticastGroup, NetworkError>)
    ensures
        !is_multicast_ip(address.ip) ==> (r matches Err(NetworkError::ConfigError(msg))
            && msg@ == not_multicast_text(address.ip)),
        is_multicast_ip(address.ip) ==> match address.ip {
            IpAddress::V4(a, b, c, d) => r == Ok::<MulticastGroup, NetworkError>(
                MulticastGroup { a, b, c, d, port: address.port },
            ),
            IpAddress::V6(..) => (r matches Err(NetworkError::Unsupported(msg))
                && msg@ == "IPv6 multicast not currently supported"@),
        },
{
    if !address.is_multicast() {
        let mut msg = "Address ".to_owned();
        msg.append(ip_to_text(address.ip).as_str());
        msg.append(" is not a valid multicast address");
        return Err(NetworkError::ConfigError(msg));
    }
    match address.ip {
        IpAddress::V4(a, b, c, d) => Ok(MulticastGroup { a, b, c, d, port: address.port }),
        IpAddress::V6(..) => Err(
            NetworkError::Unsupported("IPv6 multicast not currently supported".to_owned()),
        ),
    }
}

/// Whether content bytes start as base64 of a gzip stream ("H4") or of a
/// zlib stream ("eJ") does; the receiver takes such content as compressed.
pub open spec fn marked_compressed(b: Seq<u8>) -> bool {
    b.len() >= 2 && ((b[0] == 72 && b[1] == 52) || (b[0] == 101 && b[1] == 74))
}

/// The message that a received datagram reads as.
pub open spec fn received_message(d: Seq<u8>) -> Result<MessageView, WireError> {
    match decode_message(d) {
        Err(e) => Err(WireError::Decode(e)),
        Ok(w) => if !marked_compressed(encode_utf8(w.content)) {
            Ok(w)
        } else if exists|x: Seq<u8>| base64_encode(x) == w.content {
            match restored_text(choose|x: Seq<u8>| base64_encode(x) == w.content) {
                Ok(c) => Ok(MessageView { content: c, ..w }),
                Err(e) => Err(WireError::Compression(e)),
            }
        } else {
            Err(WireError::Base64)
        },
    }
}

/// The datagram sent for `m`.
pub open spec fn datagram_of(m: MessageView, threshold: nat) -> Seq<u8> {
    encode_message(wire_record(envelope_of(m, threshold)))
}

proof fn lemma_h4_bytes(c: Seq<char>)
    requires
        c.len() >= 2,
        c[0] == 'H',
        c[1] == '4',
    ensures
        marked_compressed(encode_utf8(c)),
{
    assert(0x48u32 & 0x7F == 0x48u32) by (bit_vector);
    assert(0x34u32 & 0x7F == 0x34u32) by (bit_vector);
    let r = c.drop_first();
    assert(r[0] == '4');
    assert(encode_utf8(c) == vstd::utf8::encode_scalar(c[0] as u32) + encode_utf8(r));
    assert(encode_utf8(r) == vstd::utf8::encode_scalar(r[0] as u32) + encode_utf8(r.drop_first()));
}

/// The datagram to send for a message. A receiver reads it back as the
/// same message, unless its content is sent raw and starts like compressed
/// text ("H4" or "eJ").
pub fn outgoing_datagram(message: &AgentMessage, compression_threshold: usize) -> (r: Result<
    Vec<u8>,
    NetworkError,
>)
    ensures
        match r {
            Ok(d) => d@ == datagram_of(message@, compression_threshold as nat) && (encode_utf8(
                message.content@,
            ).len() > compression_threshold || !marked_compressed(encode_utf8(message.content@))
                ==> received_message(d@) == Ok::<MessageView, WireError>(message@)),
            Err(NetworkError::ConfigError(_)) => true,
            Err(NetworkError::SerializationError(_)) => true,
            Err(_) => false,
        },
        (r matches Err(NetworkError::ConfigError(_))) <==> encode_utf8(message.content@).len()
            > compression_threshold && gzip_fails(encode_utf8(message.content@)),
        (r matches Err(NetworkError::SerializationError(_))) <==> encode_utf8(message.content@).len()
            > compression_threshold && !gzip_fails(encode_utf8(message.content@)) && gzip_of(
            encode_utf8(message.content@),
        ).len() >= usize::MAX / 2,
{
    let envelope = match message.to_compressed(compression_threshold) {
        Ok(e) => e,
        Err(_) => {
            return Err(
                NetworkError::ConfigError("Failed to compress message: gzip encoder failed".to_owned()),
            );
        },
    };
    match envelope.serialize() {
        Ok(d) => {
            proof {
                let w = wire_record(envelope@);
                lemma_decode_encode(w);
                let raw = encode_utf8(message.content@);
                vstd::utf8::encode_utf8_valid_utf8(message.content@);
                vstd::utf8::encode_utf8_decode_utf8(message.content@);
                if envelope.is_compressed {
                    let z = envelope.compressed_data@;
                    lemma_gzip_text_prefix(z);
                    lemma_h4_bytes(w.content);
                    assert(base64_encode(z) == w.content);
                    let x = choose|x: Seq<u8>| base64_encode(x) == w.content;
                    lemma_base64_injective(x, z);
                    assert(MessageView { content: message.content@, ..w } == message@);
                } else {
                    assert(w == message@);
                }
            }
            Ok(d)
        },
        Err(e) => Err(NetworkError::SerializationError(e)),
    }
}

/// The message that a received datagram carries: its content is taken as
/// base64 of compressed bytes where it starts "H4" or "eJ", else as it stands.
pub fn incoming_message(datagram: &[u8]) -> (r: Result<AgentMessage, NetworkError>)
    ensures
        match received_message(datagram@) {
            Ok(m) => r matches Ok(x) && x@ == m,
            Err(e) => r == Err::<AgentMessage, NetworkError>(NetworkError::DeserializationError(e)),
        },
{
    let record = match AgentMessage::deserialize(datagram) {
        Ok(m) => m,
        Err(e) => {
            return Err(NetworkError::DeserializationError(WireError::Decode(e)));
        },
    };
    let text: &[u8] = record.content.as_str().as_bytes();
    let compressed = text.len() >= 2 && ((text[0] == 72 && text[1] == 52) || (text[0] == 101
        && text[1] == 74));
    let envelope = match CompressedAgentMessage::deserialize(datagram, compressed, text.len()) {
        Ok(e) => e,
        Err(e) => {
            return Err(NetworkError::DeserializationError(e));
        },
    };
    proof {
        vstd::utf8::encode_utf8_valid_utf8(record.content@);
        vstd::utf8::encode_utf8_decode_utf8(record.content@);
    }
    match envelope.to_agent_message() {
        Ok(m) => Ok(m),
        Err(e) => Err(NetworkError::DeserializationError(WireError::Compression(e))),
    }
}

/// How a wire error reads in a report.
pub open spec fn wire_error_text(e: WireError) -> Seq<char> {
    match e {
        WireError::Decode(DecodeError::InvalidVarint) => "invalid varint"@,
        WireError::Decode(DecodeError::InvalidKey) => "invalid key"@,
        WireError::Decode(DecodeError::InvalidWireType) => "invalid wire type"@,
        WireError::Decode(DecodeError::WrongWireType) => "unexpected wire type"@,
        WireError::Decode(DecodeError::Truncated) => "buffer underflow"@,
        WireError::Decode(DecodeError::InvalidUtf8) => "text is not UTF-8"@,
        WireError::Decode(DecodeError::Group) => "groups are not supported"@,
        WireError::Base64 => "content is not base64"@,
        WireError::Compression(CompressionError::Deflate) => "compression failed"@,
        WireError::Compression(CompressionError::Inflate) => "content is not gzip"@,
        WireError::Compression(CompressionError::InvalidUtf8) => "content is not UTF-8"@,
    }
}

fn wire_error_str(e: WireError) -> (r: &'static str)
    ensures
        r@ == wire_error_text(e),
{
    match e {
        WireError::Decode(DecodeError::InvalidVarint) => "invalid varint",
        WireError::Decode(DecodeError::InvalidKey) => "invalid key",
        WireError::Decode(DecodeError::InvalidWireType) => "invalid wire type",
        WireError::Decode(DecodeError::WrongWireType) => "unexpected wire type",
        WireError::Decode(DecodeError::Truncated) => "buffer underflow",
        WireError::Decode(DecodeError::InvalidUtf8) => "text is not UTF-8",
        WireError::Decode(DecodeError::Group) => "groups are not supported",
        WireError::Base64 => "content is not base64",
        WireError::Compression(CompressionError::Deflate) => "compression failed",
        WireError::Compression(CompressionError::Inflate) => "content is not gzip",
        WireError::Compression(CompressionError::InvalidUtf8) => "content is not UTF-8",
    }
}

/// How a network error reads in a report.
pub open spec fn network_error_text(e: NetworkError) -> Seq<char> {
    match e {
        NetworkError::SocketCreation(m) => "Failed to create socket: "@ + m@,
        NetworkError::MulticastJoin(m) => "Failed to join multicast group: "@ + m@,
        NetworkError::SendError(m) => "Failed to send message: "@ + m@,
        NetworkError::ReceiveError(m) => "Failed to receive message: "@ + m@,
        NetworkError::SerializationError(_) => "Message serialization error: output too large"@,
        NetworkError::DeserializationError(w) => "Message deserialization error: "@
            + wire_error_text(w),
        NetworkError::ConfigError(m) => "Invalid network configuration: "@ + m@,
        NetworkError::Unsupported(m) => "Unsupported network configuration: "@ + m@,
    }
}

impl NetworkError {
    /// The report of this error.
    pub fn to_string(&self) -> (r: String)
        ensures
            r@ == network_error_text(*self),
    {
        let (prefix, detail): (&str, &str) = match self {
            NetworkError::SocketCreation(m) => ("Failed to create socket: ", m.as_str()),
            NetworkError::MulticastJoin(m) => ("Failed to join multicast group: ", m.as_str()),
            NetworkError::SendError(m) => ("Failed to send message: ", m.as_str()),
            NetworkError::ReceiveError(m) => ("Failed to receive message: ", m.as_str()),
            NetworkError::SerializationError(_) => (
                "Message serialization error: output too large",
                "",
            ),
            NetworkError::DeserializationError(w) => (
                "Message deserialization error: ",
                wire_error_str(*w),
            ),
            NetworkError::ConfigError(m) => ("Invalid network configuration: ", m.as_str()),
            NetworkError::Unsupported(m) => ("Unsupported network configuration: ", m.as_str()),
        };
        let mut out = prefix.to_owned();
        out.append(detail);
        proof {
            reveal_strlit("");
        }
        assert(out@ =~= network_error_text(*self));
        out
    }
}

} // verus!
