//! The pure half of the Server List Ping driver: the exact bytes of the
//! modern handshake and status request, the incremental parser for the
//! status response, and the parser for the legacy `0xFE 0x01` probe's
//! UTF-16BE kick payload. The surrounding application moves these bytes
//! over TCP; everything about their shape is decided here.

use crate::codec::length_prefixed;
use crate::codec::read_varint_status;
use crate::codec::varint_encoding;
use crate::codec::varint_pending;
use crate::codec::varint_size;
use crate::codec::varint_value;
use crate::codec::VarintRead;
use crate::response::Description;
use crate::response::Players;
use crate::response::Server;
use crate::response::Version;
use crate::text::parse_i32_or_zero;
use crate::text::parse_or_zero;
use crate::text::split_on;
use crate::text::split_string;
use crate::utils::RunError;
use vstd::prelude::*;
use vstd::string::*;

verus! {

/// An IPv4 address as four octets.
#[derive(Debug, Clone, Copy, PartialEq, Eq, Structural)]
pub struct Ipv4Address {
    pub a: u8,
    pub b: u8,
    pub c: u8,
    pub d: u8,
}

/// The 32-bit value of an address, highest octet first, the form storage
/// keeps addresses in.
pub open spec fn ip_bits(ip: Ipv4Address) -> nat {
    (ip.a as nat) * 0x100_0000 + (ip.b as nat) * 0x1_0000 + (ip.c as nat) * 0x100 + (ip.d as nat)
}

impl Ipv4Address {
    /// Rebuilds an address from its 32-bit value.
    pub fn from_bits(bits: u32) -> (r: Ipv4Address)
        ensures
            ip_bits(r) == bits,
    {
        let r = Ipv4Address {
            a: (bits >> 24) as u8,
            b: ((bits >> 16) & 0xFF) as u8,
            c: ((bits >> 8) & 0xFF) as u8,
            d: (bits & 0xFF) as u8,
        };
        proof {
            assert(((bits >> 24) as u8) as nat * 0x100_0000 + (((bits >> 16) & 0xFF) as u8) as nat
                * 0x1_0000 + (((bits >> 8) & 0xFF) as u8) as nat * 0x100 + ((bits
                & 0xFF) as u8) as nat == bits as nat) by (bit_vector);
        }
        r
    }

    /// The 32-bit value of the address.
    pub fn to_bits(&self) -> (r: u32)
        ensures
            r == ip_bits(*self),
    {
        (self.a as u32) * 0x100_0000 + (self.b as u32) * 0x1_0000 + (self.c as u32) * 0x100
            + (self.d as u32)
    }
}

/// An IPv4 socket address: the address and a TCP port.
#[derive(Debug, Clone, Copy, PartialEq, Eq, Structural)]
pub struct SocketAddrV4 {
    pub ip: Ipv4Address,
    pub port: u16,
}

/// The ASCII bytes of a decimal number below 1000, without leading zeros.
pub open spec fn dec_bytes(n: nat) -> Seq<u8>
    recommends
        n < 1000,
{
    if n < 10 {
        seq![(48 + n) as u8]
    } else if n < 100 {
        seq![(48 + n / 10) as u8, (48 + n % 10) as u8]
    } else {
        seq![(48 + n / 100) as u8, (48 + (n / 10) % 10) as u8, (48 + n % 10) as u8]
    }
}

/// The ASCII bytes of the dotted-quad literal of an address.
pub open spec fn ipv4_text(ip: Ipv4Address) -> Seq<u8> {
    dec_bytes(ip.a as nat) + seq![46u8] + dec_bytes(ip.b as nat) + seq![46u8] + dec_bytes(
        ip.c as nat,
    ) + seq![46u8] + dec_bytes(ip.d as nat)
}

/// Appends the decimal digits of one octet.
fn push_dec(out: &mut Vec<u8>, n: u8)
    ensures
        final(out)@ == old(out)@ + dec_bytes(n as nat),
{
    let ghost start: Seq<u8> = out@;
    if n >= 100 {
        out.push(48 + n / 100);
        out.push(48 + (n / 10) % 10);
        out.push(48 + n % 10);
    } else if n >= 10 {
        out.push(48 + n / 10);
        out.push(48 + n % 10);
    } else {
        out.push(48 + n);
    }
    proof {
        assert(out@ =~= start + dec_bytes(n as nat));
    }
}

/// The dotted-quad literal of an address, as ASCII bytes.
pub fn ipv4_literal_bytes(ip: &Ipv4Address) -> (v: Vec<u8>)
    ensures
        v@ == ipv4_text(*ip),
        v@.len() <= 15,
{
    let mut v: Vec<u8> = Vec::new();
    push_dec(&mut v, ip.a);
    v.push(46);
    push_dec(&mut v, ip.b);
    v.push(46);
    push_dec(&mut v, ip.c);
    v.push(46);
    push_dec(&mut v, ip.d);
    proof {
        assert(v@ =~= ipv4_text(*ip));
    }
    v
}

/// The body of the modern handshake packet: packet id 0, protocol version
/// 47, the host as a length-prefixed dotted-quad string, the port as two
/// big-endian bytes, and next state 1 for status.
pub open spec fn handshake_body(s: SocketAddrV4) -> Seq<u8> {
    varint_encoding(0) + varint_encoding(47) + length_prefixed(ipv4_text(s.ip)) + seq![
        (s.port >> 8) as u8,
        (s.port & 0xFF) as u8,
    ] + varint_encoding(1)
}

/// The longest JSON payload a status response may declare; anything above
/// it is rejected before any allocation happens.
pub const MAX_STATUS_JSON_LEN: usize = 131072;

/// One server to be pinged.
#[derive(Debug, Clone, Copy, PartialEq, Eq, Structural)]
pub struct PingableServer {
    pub socket: SocketAddrV4,
}

impl PingableServer {
    pub fn new(socket: SocketAddrV4) -> (s: Self)
        ensures
            s.socket == socket,
    {
        Self { socket }
    }

    /// The full handshake packet to open the status exchange with.
    pub fn handshake_packet(&self) -> (v: Vec<u8>)
        ensures
            v@ == length_prefixed(handshake_body(self.socket)),
    {
        let mut body: Vec<u8> = Vec::new();
        crate::codec::write_varint(&mut body, 0x00);
        crate::codec::write_varint(&mut body, 47);
        let host = ipv4_literal_bytes(&self.socket.ip);
        crate::codec::write_varint(&mut body, host.len() as i32);
        body.extend_from_slice(host.as_slice());
        body.push((self.socket.port >> 8) as u8);
        body.push((self.socket.port & 0xFF) as u8);
        crate::codec::write_varint(&mut body, 1);
        proof {
            assert(body@ =~= handshake_body(self.socket));
        }
        let mut packet: Vec<u8> = Vec::new();
        crate::codec::write_packet(&mut packet, body.as_slice());
        proof {
            assert(packet@ =~= length_prefixed(handshake_body(self.socket)));
        }
        packet
    }

    /// The status request packet: an empty body under packet id 0.
    pub fn status_request_packet() -> (v: Vec<u8>)
        ensures
            v@ == length_prefixed(seq![0u8]),
    {
        let mut body: Vec<u8> = Vec::new();
        body.push(0x00);
        let mut packet: Vec<u8> = Vec::new();
        crate::codec::write_packet(&mut packet, body.as_slice());
        proof {
            assert(body@ =~= seq![0u8]);
            assert(packet@ =~= length_prefixed(seq![0u8]));
        }
        packet
    }
}

/// Where parsing the partially received status response stands.
#[derive(Debug, Clone, Copy, PartialEq, Eq, Structural)]
pub enum StatusParse {
    /// More bytes are needed before anything can be decided.
    Incomplete,
    /// The response cannot be a well-formed status response, however it may
    /// continue.
    Malformed,
    /// The whole JSON payload has arrived and spans `len` bytes from
    /// `start`.
    Complete { start: usize, len: usize },
}

/// What the received prefix of a status response parses to. The packet
/// length varint is read but never trusted for sizing; the packet id must
/// be zero; the inner string length must not exceed the ceiling, and only
/// as much as has actually arrived is ever used.
pub open spec fn spec_status_parse(s: Seq<u8>) -> StatusParse {
    match varint_size(s) {
        None => if varint_pending(s) {
            StatusParse::Incomplete
        } else {
            StatusParse::Malformed
        },
        Some(n1) => {
            let s1 = s.skip(n1 as int);
            match varint_size(s1) {
                None => if varint_pending(s1) {
                    StatusParse::Incomplete
                } else {
                    StatusParse::Malformed
                },
                Some(n2) => {
                    let id = varint_value(s1.take(n2 as int)) % 0x1_0000_0000;
                    if id != 0 {
                        StatusParse::Malformed
                    } else {
                        let s2 = s1.skip(n2 as int);
                        match varint_size(s2) {
                            None => if varint_pending(s2) {
                                StatusParse::Incomplete
                            } else {
                                StatusParse::Malformed
                            },
                            Some(n3) => {
                                let jlen = varint_value(s2.take(n3 as int)) % 0x1_0000_0000;
                                if jlen > MAX_STATUS_JSON_LEN {
                                    StatusParse::Malformed
                                } else if n1 + n2 + n3 + jlen > s.len() {
                                    StatusParse::Incomplete
                                } else {
                                    StatusParse::Complete {
                                        start: (n1 + n2 + n3) as usize,
                                        len: jlen as usize,
                                    }
                                }
                            },
                        }
                    }
                },
            }
        },
    }
}

/// Parses the received prefix of a modern status response. On `Complete`
/// the JSON payload is `buf[start..start + len]`; the caller keeps reading
/// while the result is `Incomplete`.
pub fn parse_status_response(buf: &[u8]) -> (r: StatusParse)
    ensures
        r == spec_status_parse(buf@),
        r matches StatusParse::Complete { start, len } ==> start + len <= buf@.len(),
{
    proof {
        assert(buf@.skip(0) =~= buf@);
    }
    let c1 = match read_varint_status(buf, 0) {
        VarintRead::Pending => {
            return StatusParse::Incomplete;
        },
        VarintRead::Bad => {
            return StatusParse::Malformed;
        },
        VarintRead::Value(_, next) => {
            proof {
                crate::codec::lemma_size_max(buf@.skip(0));
            }
            next
        },
    };
    let c2 = match read_varint_status(buf, c1) {
        VarintRead::Pending => {
            return StatusParse::Incomplete;
        },
        VarintRead::Bad => {
            return StatusParse::Malformed;
        },
        VarintRead::Value(id, next) => {
            proof {
                crate::codec::lemma_size_max(buf@.skip(c1 as int));
            }
            if id != 0 {
                return StatusParse::Malformed;
            }
            next
        },
    };
    proof {
        assert(buf@.skip(c1 as int).skip(c2 - c1) =~= buf@.skip(c2 as int));
    }
    match read_varint_status(buf, c2) {
        VarintRead::Pending => StatusParse::Incomplete,
        VarintRead::Bad => StatusParse::Malformed,
        VarintRead::Value(jlen, c3) => {
            proof {
                crate::codec::lemma_size_max(buf@.skip(c2 as int));
            }
            if jlen > MAX_STATUS_JSON_LEN as u32 {
                StatusParse::Malformed
            } else if (jlen as usize) > buf.len() - c3 {
                StatusParse::Incomplete
            } else {
                StatusParse::Complete { start: c3, len: jlen as usize }
            }
        },
    }
}

/// The characters a UTF-16 code-unit sequence decodes to: units outside the
/// surrogate range stand for themselves, a high surrogate followed by a low
/// surrogate forms one supplementary character, and any lone or misplaced
/// surrogate makes the whole sequence undecodable.
pub open spec fn utf16_decode(units: Seq<u16>) -> Option<Seq<char>>
    decreases units.len(),
{
    if units.len() == 0 {
        Some(Seq::<char>::empty())
    } else {
        let u = units[0];
        if u < 0xD800 || u >= 0xE000 {
            match utf16_decode(units.drop_first()) {
                Some(rest) => Some(seq![((u as u32) as char)] + rest),
                None => None,
            }
        } else if u < 0xDC00 {
            if units.len() >= 2 && 0xDC00 <= units[1] < 0xE000 {
                let scalar = 0x10000 + (u - 0xD800) * 0x400 + (units[1] - 0xDC00);
                match utf16_decode(units.skip(2)) {
                    Some(rest) => Some(seq![((scalar as u32) as char)] + rest),
                    None => None,
                }
            } else {
                None
            }
        } else {
            None
        }
    }
}

/// Relies on `String::from_utf16`: it succeeds exactly when the code units
/// decode as UTF-16 and then returns the decoded characters.
#[verifier::external_body]
fn utf16_to_string(units: &Vec<u16>) -> (r: Option<String>)
    ensures
        match utf16_decode(units@) {
            Some(cs) => r matches Some(s) && s@ == cs,
            None => r is None,
        },
{
    String::from_utf16(units.as_slice()).ok()
}

/// The UTF-16 code units of a legacy kick payload, two big-endian bytes
/// each, starting after the packet id and the length field.
pub open spec fn legacy_units(s: Seq<u8>) -> Seq<u16> {
    Seq::new(
        ((s.len() - 3) / 2) as nat,
        |i: int| ((s[3 + 2 * i] as nat) * 256 + (s[4 + 2 * i] as nat)) as u16,
    )
}

/// The decoded text of a legacy ping response: packet id `0xFF`, a 16-bit
/// big-endian code-unit count, and exactly that many UTF-16BE code units.
pub open spec fn legacy_chars(s: Seq<u8>) -> Option<Seq<char>> {
    if s.len() < 3 || s[0] != 0xFF {
        None
    } else {
        let count = (s[1] as nat) * 256 + (s[2] as nat);
        if s.len() != 3 + 2 * count {
            None
        } else {
            utf16_decode(legacy_units(s))
        }
    }
}

/// What a legacy ping response parses to: the version name, protocol,
/// MOTD, online count and max count, or nothing when the response deviates
/// from the legacy format anywhere.
///
/// A payload opening with `§1\0` must hold exactly the six null-separated
/// fields of the 1.6 format; any other payload must hold exactly the three
/// `§`-separated fields of the older format, which carries no version, so
/// the name becomes `Legacy < 1.6` and the protocol zero. Numeric fields
/// that do not parse count as zero.
pub open spec fn spec_legacy_parse(s: Seq<u8>) -> Option<(Seq<char>, int, Seq<char>, int, int)> {
    match legacy_chars(s) {
        None => None,
        Some(text) => {
            if text.len() >= 3 && text[0] == '§' && text[1] == '1' && text[2] == '\0' {
                let parts = split_on(text, '\0');
                if parts.len() == 6 {
                    Some(
                        (
                            parts[2],
                            parse_or_zero(parts[1]),
                            parts[3],
                            parse_or_zero(parts[4]),
                            parse_or_zero(parts[5]),
                        ),
                    )
                } else {
                    None
                }
            } else {
                let parts = split_on(text, '§');
                if parts.len() == 3 {
                    Some(
                        ("Legacy < 1.6"@, 0, parts[0], parse_or_zero(parts[1]), parse_or_zero(
                            parts[2],
                        )),
                    )
                } else {
                    None
                }
            }
        },
    }
}

/// The status record a successful legacy parse yields: the parsed fields in
/// their places, an empty player sample, the MOTD as the raw description,
/// and everything a legacy server cannot report absent.
pub open spec fn is_legacy_server(
    srv: Server,
    f: (Seq<char>, int, Seq<char>, int, int),
) -> bool {
    &&& srv.version.name@ == f.0
    &&& srv.version.protocol as int == f.1
    &&& srv.players.online as int == f.3
    &&& srv.players.max as int == f.4
    &&& srv.players.sample matches Some(v) && v@.len() == 0
    &&& srv.description_raw matches Some(d) && d matches Description::Text(m) && m@ == f.2
    &&& srv.latency is None
    &&& srv.favicon is None
    &&& srv.description_formatted is None
    &&& srv.prevents_reports is None
    &&& srv.enforces_secure_chat is None
    &&& srv.modded is None
    &&& srv.forge_data is None
}

/// Parses a legacy `0xFE 0x01` ping response into a status record. Any
/// deviation from the legacy format is a malformed response.
pub fn parse_legacy_response(buf: &[u8]) -> (r: Result<Server, RunError>)
    ensures
        match spec_legacy_parse(buf@) {
            Some(f) => r matches Ok(srv) && is_legacy_server(srv, f),
            None => r matches Err(e) && e == RunError::MalformedResponse,
        },
{
    if buf.len() < 3 {
        return Err(RunError::MalformedResponse);
    }
    if buf[0] != 0xFF {
        return Err(RunError::MalformedResponse);
    }
    let count: usize = (buf[1] as usize) * 256 + (buf[2] as usize);
    if buf.len() != 3 + 2 * count {
        return Err(RunError::MalformedResponse);
    }
    let mut units: Vec<u16> = Vec::new();
    let mut k: usize = 0;
    while k < count
        invariant
            k <= count,
            count <= 0xFFFF,
            buf@.len() == 3 + 2 * count,
            units@ =~= legacy_units(buf@).take(k as int),
        decreases count - k,
    {
        units.push((buf[3 + 2 * k] as u16) * 256 + (buf[4 + 2 * k] as u16));
        proof {
            assert(units@ =~= legacy_units(buf@).take(k + 1));
        }
        k = k + 1;
    }
    proof {
        assert(units@ =~= legacy_units(buf@));
    }
    let text: String = match utf16_to_string(&units) {
        Some(t) => t,
        None => {
            return Err(RunError::MalformedResponse);
        },
    };
    let tlen = text.as_str().unicode_len();
    let modern = tlen >= 3 && text.as_str().get_char(0) == '§' && text.as_str().get_char(1) == '1'
        && text.as_str().get_char(2) == '\0';
    if modern {
        let parts = split_string(text.as_str(), '\0');
        if parts.len() != 6 {
            return Err(RunError::MalformedResponse);
        }
        let protocol = parse_i32_or_zero(parts[1].as_str());
        let online = parse_i32_or_zero(parts[4].as_str());
        let max = parse_i32_or_zero(parts[5].as_str());
        Ok(
            Server {
                latency: None,
                version: Version { name: parts[2].clone(), protocol },
                favicon: None,
                players: Players { max, online, sample: Some(Vec::new()) },
                description_raw: Some(Description::Text(parts[3].clone())),
                description_formatted: None,
                prevents_reports: None,
                enforces_secure_chat: None,
                modded: None,
                forge_data: None,
            },
        )
    } else {
        let parts = split_string(text.as_str(), '§');
        if parts.len() != 3 {
            return Err(RunError::MalformedResponse);
        }
        let online = parse_i32_or_zero(parts[1].as_str());
        let max = parse_i32_or_zero(parts[2].as_str());
        Ok(
            Server {
                latency: None,
                version: Version { name: String::from_str("Legacy < 1.6"), protocol: 0 },
                favicon: None,
                players: Players { max, online, sample: Some(Vec::new()) },
                description_raw: Some(Description::Text(parts[0].clone())),
                description_formatted: None,
                prevents_reports: None,
                enforces_secure_chat: None,
                modded: None,
                forge_data: None,
            },
        )
    }
}

} // verus!
