//! VLESS inner protocol: request and response headers, and the session streams
//! that carry them inside the Vision framing.
//!
//! - Request header: `[version=0][uuid 16][addons][command][port][address]`.
//!   Addons are one length-delimited field: `0x0a <len> ...`. An empty flow is
//!   `0x0a 0x01 0x00`; a named flow is `0x0a <len> 0x01 <len> <name>`, whose
//!   subfield enables Vision padding on the peer.
//! - Response header: `[version=0][addons]`, without command and address.
//!
//! No secret is ever formatted into an error string.

use vstd::prelude::*;
use vstd::utf8::{
    decode_utf8, encode_utf8, encode_utf8_decode_utf8, encode_utf8_valid_utf8, valid_utf8,
};

use crate::bytes::{
    array16, be16, copy_range, lemma_be16_round_trip, push_u16, u16_at,
};
use crate::crypto::{
    hex_bytes, hex_decode_16, hex_text, is_hex, law_hex_digits, law_hex_round_trip,
};
use crate::text::string_from_utf8;
use crate::tls::{opt_string, opt_text, sni_bytes};
use crate::vision::{
    after_pad, frame_count, in_step, law_vision_round_trip, padded, unpadded, ReaderView,
    UnpadState, VisionReader, VisionWriter, WriterView,
};

verus! {

/// VLESS protocol version byte.
pub const VERSION: u8 = 0;

/// Command: TCP stream.
pub const CMD_TCP: u8 = 0x01;

/// Command: UDP.
pub const CMD_UDP: u8 = 0x02;

/// Command: multiplexed connection, routed to a fixed domain.
pub const CMD_MUX: u8 = 0x0f;

/// Address type: IPv4.
pub const ATYP_IPV4: u8 = 0x01;

/// Address type: domain name.
pub const ATYP_DOMAIN: u8 = 0x02;

/// Address type: IPv6.
pub const ATYP_IPV6: u8 = 0x03;

/// A VLESS proxy destination address.
#[derive(Debug, Clone, PartialEq, Eq)]
pub enum Address {
    Ipv4([u8; 4]),
    Ipv6([u8; 16]),
    Domain(String),
}

/// The mathematical content of an [`Address`].
pub enum AddressView {
    Ipv4(Seq<u8>),
    Ipv6(Seq<u8>),
    Domain(Seq<char>),
}

impl View for Address {
    type V = AddressView;

    open spec fn view(&self) -> AddressView {
        match self {
            Address::Ipv4(octets) => AddressView::Ipv4(octets@),
            Address::Ipv6(octets) => AddressView::Ipv6(octets@),
            Address::Domain(name) => AddressView::Domain(name@),
        }
    }
}

/// Why a VLESS message was refused.
#[derive(Debug, Clone, Copy, PartialEq, Eq, Structural)]
pub enum VlessError {
    /// A length prefix exceeded the fixed layout or the buffer bound.
    Layout,
    /// The response header did not match the request.
    BadResponse,
    /// The identity prefix check failed on a stream that required it.
    UuidMismatch,
    /// A Vision frame declared a length outside the legal bounds.
    BadFrame,
}

impl VlessError {
    /// The text of each error.
    pub open spec fn text(self) -> Seq<char> {
        match self {
            VlessError::Layout => "vless fixed-layout overflow"@,
            VlessError::BadResponse => "vless response rejected"@,
            VlessError::UuidMismatch => "padding identity mismatch"@,
            VlessError::BadFrame => "padding frame out of bounds"@,
        }
    }

    /// A fixed description that reveals no identity.
    pub fn reason(&self) -> (r: &'static str)
        ensures
            r@ == self.text(),
    {
        match self {
            VlessError::Layout => "vless fixed-layout overflow",
            VlessError::BadResponse => "vless response rejected",
            VlessError::UuidMismatch => "padding identity mismatch",
            VlessError::BadFrame => "padding frame out of bounds",
        }
    }
}

/// Parsed VLESS request header.
#[derive(Debug, Clone, PartialEq, Eq)]
pub struct ParsedRequest {
    pub uuid: [u8; 16],
    pub flow: Option<String>,
    pub command: u8,
    pub address: Address,
    pub port: u16,
}

/// The mathematical content of a [`ParsedRequest`].
#[verifier::ext_equal]
pub struct RequestView {
    pub uuid: Seq<u8>,
    pub flow: Option<Seq<char>>,
    pub command: u8,
    pub address: AddressView,
    pub port: u16,
}

impl View for ParsedRequest {
    type V = RequestView;

    open spec fn view(&self) -> RequestView {
        RequestView {
            uuid: self.uuid@,
            flow: opt_string(self.flow),
            command: self.command,
            address: self.address@,
            port: self.port,
        }
    }
}

// ---------------------------------------------------------------------------
// Varints
// ---------------------------------------------------------------------------

/// Base-128 little-endian digits, all but the last with the high bit set.
pub open spec fn varint_bytes(value: nat) -> Seq<u8>
    decreases value,
{
    if value < 128 {
        seq![value as u8]
    } else {
        seq![(value % 128 + 128) as u8] + varint_bytes(value / 128)
    }
}

/// The number that a varint of at most `limit` bytes stands for, and how many
/// bytes it takes.
pub open spec fn varint_digits(s: Seq<u8>, limit: int) -> Option<(int, int)>
    decreases limit,
{
    if limit <= 0 || s.len() == 0 {
        None
    } else if s[0] < 128 {
        Some((s[0] as int, 1))
    } else {
        match varint_digits(s.skip(1), limit - 1) {
            None => None,
            Some((high, used)) => Some((s[0] - 128 + 128 * high, used + 1)),
        }
    }
}

/// The varint at the front of `s`: its value in 64 bits and its length. A
/// varint has at most 10 bytes.
pub open spec fn varint_of(s: Seq<u8>) -> Option<(int, int)> {
    match varint_digits(s, 10) {
        None => None,
        Some((value, used)) => Some((value % 0x1_0000_0000_0000_0000, used)),
    }
}

/// Appends `value` as a varint.
pub fn encode_varint(value: usize, out: &mut Vec<u8>)
    ensures
        final(out)@ == old(out)@ + varint_bytes(value as nat),
{
    let mut rest: usize = value;
    while rest >= 128
        invariant
            old(out)@ + varint_bytes(value as nat) =~= out@ + varint_bytes(rest as nat),
        decreases rest,
    {
        out.push((rest % 128 + 128) as u8);
        rest = rest / 128;
    }
    out.push(rest as u8);
    assert(out@ =~= old(out)@ + varint_bytes(value as nat));
}

/// Reads the varint at the front of `wire`.
pub fn decode_varint(wire: &[u8]) -> (r: Result<(u64, usize), VlessError>)
    ensures
        match r {
            Ok((value, used)) => varint_of(wire@) == Some((value as int, used as int)) && used
                <= wire@.len(),
            Err(e) => e == VlessError::Layout && varint_of(wire@) is None,
        },
{
    let mut value: u128 = 0;
    let mut unit: u128 = 1;
    let mut i: usize = 0;
    assert(wire@.skip(0) =~= wire@);
    assert(pow128(10) == 0x40_0000_0000_0000_0000) by {
        reveal_with_fuel(pow128, 11);
    }
    while i < wire.len() && i < 10
        invariant
            i <= 10,
            i <= wire@.len(),
            1 <= unit <= pow128(i as int),
            pow128(i as int) <= pow128(10),
            pow128(10) == 0x40_0000_0000_0000_0000,
            value < unit,
            varint_digits(wire@, 10) == (match varint_digits(wire@.skip(i as int), 10 - i) {
                None => None,
                Some((high, used)) => Some((value + unit * high, used + i)),
            }),
        decreases 10 - i,
    {
        let b = wire[i];
        let ghost rest = wire@.skip(i as int);
        assert(rest.skip(1) =~= wire@.skip(i + 1));
        let digit: u128 = (b % 128) as u128;
        assert(digit * unit <= 127 * unit) by (nonlinear_arith)
            requires
                digit <= 127,
                1 <= unit,
        ;
        if b < 128 {
            let total: u128 = value + digit * unit;
            assert(unit * (b as int) == digit * unit) by (nonlinear_arith)
                requires
                    digit == b,
            ;
            return Ok(((total % 0x1_0000_0000_0000_0000) as u64, i + 1));
        }
        proof {
            lemma_pow128_monotonic(i + 1, 10);
            if let Some((high, used)) = varint_digits(rest.skip(1), 10 - i - 1) {
                assert(value + unit * (b - 128 + 128 * high) == (value + digit * unit) + (unit * 128)
                    * high) by (nonlinear_arith)
                    requires
                        digit == b - 128,
                ;
            }
        }
        value = value + digit * unit;
        unit = unit * 128;
        i += 1;
    }
    Err(VlessError::Layout)
}

/// 128 to the power `i`.
spec fn pow128(i: int) -> int
    decreases i,
{
    if i <= 0 {
        1
    } else {
        128 * pow128(i - 1)
    }
}

proof fn lemma_pow128_monotonic(i: int, j: int)
    requires
        0 <= i <= j,
    ensures
        1 <= pow128(i) <= pow128(j),
    decreases j,
{
    if j > i {
        lemma_pow128_monotonic(i, j - 1);
    } else if i > 0 {
        lemma_pow128_monotonic(i - 1, i - 1);
    }
}

/// Law: a varint is the shortest of its number: nothing shorter reads as that
/// number, and its last byte is zero only for the number zero, whose form is one
/// byte. No proper prefix of it is a varint.
pub proof fn law_varint_is_shortest(value: nat, cut: int, other: Seq<u8>)
    requires
        value < 0x1_0000_0000_0000_0000,
        0 <= cut < varint_bytes(value).len(),
    ensures
        varint_of(other) matches Some((read, size)) ==> (read == value ==> size >= varint_bytes(
            value,
        ).len()),
        varint_bytes(value).last() == 0 <==> value == 0,
        value == 0 ==> varint_bytes(value).len() == 1,
        varint_of(varint_bytes(value).take(cut)) is None,
{
    lemma_varint_last(value);
    lemma_varint_prefix(value, cut, 10);
    law_varint_round_trip(value, Seq::empty());
    if let Some((read, used)) = varint_digits(other, 10) {
        lemma_digits_bound(other, 10);
        if used <= 9 {
            lemma_pow128_monotonic(used, 9);
            assert(pow128(9) == 0x8000_0000_0000_0000) by {
                reveal_with_fuel(pow128, 10);
            }
            if read == value {
                lemma_varint_digits(value, Seq::empty(), used);
            }
        }
    }
}

proof fn lemma_digits_bound(s: Seq<u8>, limit: int)
    ensures
        varint_digits(s, limit) matches Some((value, used)) ==> 1 <= used <= limit && 0 <= value
            < pow128(used),
    decreases limit,
{
    reveal_with_fuel(pow128, 2);
    if limit > 0 && s.len() > 0 && s[0] >= 128 {
        lemma_digits_bound(s.skip(1), limit - 1);
    }
}

proof fn lemma_varint_last(value: nat)
    ensures
        varint_bytes(value).len() >= 1,
        varint_bytes(value).last() == 0 <==> value == 0,
    decreases value,
{
    if value >= 128 {
        lemma_varint_last(value / 128);
    }
}

proof fn lemma_varint_prefix(value: nat, cut: int, limit: int)
    requires
        0 <= cut < varint_bytes(value).len(),
    ensures
        varint_digits(varint_bytes(value).take(cut), limit) is None,
    decreases value,
{
    let s = varint_bytes(value).take(cut);
    if value >= 128 && cut > 0 {
        let rest = varint_bytes(value / 128);
        assert(s[0] == (value % 128 + 128) as u8);
        assert(s.skip(1) =~= rest.take(cut - 1));
        lemma_varint_prefix(value / 128, cut - 1, limit - 1);
    }
}

/// Law: a varint reads back as the number written, whatever follows it.
pub proof fn law_varint_round_trip(value: nat, tail: Seq<u8>)
    requires
        value < 0x1_0000_0000_0000_0000,
    ensures
        varint_of(varint_bytes(value) + tail) == Some(
            (value as int, varint_bytes(value).len() as int),
        ),
        1 <= varint_bytes(value).len() <= 10,
{
    assert(pow128(10) == 0x40_0000_0000_0000_0000) by {
        reveal_with_fuel(pow128, 11);
    }
    lemma_varint_digits(value, tail, 10);
}

proof fn lemma_varint_digits(value: nat, tail: Seq<u8>, limit: int)
    requires
        limit >= 1,
        value < pow128(limit),
    ensures
        varint_digits(varint_bytes(value) + tail, limit) == Some(
            (value as int, varint_bytes(value).len() as int),
        ),
        1 <= varint_bytes(value).len() <= limit,
    decreases limit,
{
    let s = varint_bytes(value) + tail;
    if value >= 128 {
        if limit == 1 {
            assert(pow128(1) == 128) by {
                reveal_with_fuel(pow128, 2);
            }
        }
        lemma_varint_digits(value / 128, tail, limit - 1);
        assert(s.skip(1) =~= varint_bytes(value / 128) + tail);
        assert(s[0] == (value % 128 + 128) as u8);
    }
}

// ---------------------------------------------------------------------------
// Headers on the wire
// ---------------------------------------------------------------------------

/// An address on the wire: its type, then its bytes; a domain name carries its
/// length in one byte.
pub open spec fn address_bytes(a: AddressView) -> Seq<u8> {
    match a {
        AddressView::Ipv4(octets) => seq![ATYP_IPV4] + octets,
        AddressView::Ipv6(octets) => seq![ATYP_IPV6] + octets,
        AddressView::Domain(name) => {
            let bytes = encode_utf8(name);
            seq![ATYP_DOMAIN, bytes.len() as u8] + bytes
        },
    }
}

/// The addons field: a named flow or the canonical empty one.
pub open spec fn addons_bytes(flow: Option<Seq<u8>>) -> Seq<u8> {
    match flow {
        Some(name) => if name.len() > 0 {
            seq![0x0au8] + varint_bytes(2 + name.len()) + seq![0x01u8, name.len() as u8] + name
        } else {
            seq![0x0au8, 0x01, 0x00]
        },
        None => seq![0x0au8, 0x01, 0x00],
    }
}

/// Where the request goes: nothing for a multiplexed connection, otherwise the
/// port and then the address.
pub open spec fn destination_bytes(command: u8, address: AddressView, port: u16) -> Seq<u8> {
    if command == CMD_MUX {
        Seq::empty()
    } else {
        be16(port as int) + address_bytes(address)
    }
}

/// Whether a length of a request passes the one byte that it is given: that of
/// the flow, or that of a domain name where the address is written.
pub open spec fn request_overflows(
    flow: Option<Seq<u8>>,
    command: u8,
    address: AddressView,
) -> bool {
    ||| flow matches Some(name) && name.len() > 255
    ||| command != CMD_MUX && (address matches AddressView::Domain(name) && encode_utf8(name).len()
        > 255)
}

/// The VLESS request header.
pub open spec fn request_bytes(
    uuid: Seq<u8>,
    flow: Option<Seq<u8>>,
    command: u8,
    address: AddressView,
    port: u16,
) -> Seq<u8> {
    seq![VERSION] + uuid + addons_bytes(flow) + seq![command] + destination_bytes(
        command,
        address,
        port,
    )
}

/// The address at the front of `s`.
pub open spec fn address_at(s: Seq<u8>) -> Result<AddressView, VlessError> {
    if s.len() == 0 {
        Err(VlessError::Layout)
    } else if s[0] == ATYP_IPV4 {
        if s.len() < 5 {
            Err(VlessError::Layout)
        } else {
            Ok(AddressView::Ipv4(s.subrange(1, 5)))
        }
    } else if s[0] == ATYP_IPV6 {
        if s.len() < 17 {
            Err(VlessError::Layout)
        } else {
            Ok(AddressView::Ipv6(s.subrange(1, 17)))
        }
    } else if s[0] == ATYP_DOMAIN {
        if s.len() < 2 || s.len() < 2 + s[1] || !valid_utf8(s.subrange(2, 2 + s[1])) {
            Err(VlessError::Layout)
        } else {
            Ok(AddressView::Domain(decode_utf8(s.subrange(2, 2 + s[1]))))
        }
    } else {
        Err(VlessError::Layout)
    }
}

/// The flow that the body of an addons field names.
pub open spec fn flow_in(addons: Seq<u8>) -> Result<Option<Seq<char>>, VlessError> {
    if addons.len() == 0 || addons[0] != 0x01 {
        Ok(None)
    } else if addons.len() < 2 || addons.len() < 2 + addons[1] || !valid_utf8(
        addons.subrange(2, 2 + addons[1]),
    ) {
        Err(VlessError::Layout)
    } else {
        Ok(Some(decode_utf8(addons.subrange(2, 2 + addons[1]))))
    }
}

/// What stands behind the addons field of a request: command and destination.
/// A multiplexed connection goes to a fixed domain.
pub open spec fn request_tail(uuid: Seq<u8>, flow: Option<Seq<char>>, s: Seq<u8>) -> Result<
    RequestView,
    VlessError,
> {
    if s.len() == 0 {
        Err(VlessError::Layout)
    } else if s[0] == CMD_MUX {
        Ok(
            RequestView {
                uuid,
                flow,
                command: s[0],
                address: AddressView::Domain("v1.mux.cool"@),
                port: 0,
            },
        )
    } else if s.len() < 3 {
        Err(VlessError::Layout)
    } else {
        match address_at(s.skip(3)) {
            Err(e) => Err(e),
            Ok(address) => Ok(
                RequestView { uuid, flow, command: s[0], address, port: u16_at(s, 1) as u16 },
            ),
        }
    }
}

/// What a request header holds, or the first thing wrong with it.
pub open spec fn request_of(w: Seq<u8>) -> Result<RequestView, VlessError> {
    if w.len() < 21 {
        Err(VlessError::Layout)
    } else if w[0] != VERSION {
        Err(VlessError::BadResponse)
    } else if w[17] != 0x0a {
        Err(VlessError::Layout)
    } else {
        match varint_of(w.skip(18)) {
            None => Err(VlessError::Layout),
            Some((len, used)) => {
                let start = 18 + used;
                if start + len > w.len() {
                    Err(VlessError::Layout)
                } else {
                    match flow_in(w.subrange(start, start + len)) {
                        Err(e) => Err(e),
                        Ok(flow) => request_tail(w.subrange(1, 17), flow, w.skip(start + len)),
                    }
                }
            },
        }
    }
}

/// The length of the destination at the front of `s`, which starts with the
/// command. The bytes of the address need not be there.
pub open spec fn tail_len(s: Seq<u8>) -> Option<int> {
    if s.len() == 0 {
        None
    } else if s[0] == CMD_MUX {
        Some(1)
    } else if s.len() < 4 {
        None
    } else if s[3] == ATYP_IPV4 {
        Some(8)
    } else if s[3] == ATYP_IPV6 {
        Some(20)
    } else if s[3] == ATYP_DOMAIN && s.len() >= 5 {
        Some(5 + s[4])
    } else {
        None
    }
}

/// The length that a request header declares.
pub open spec fn request_len_of(w: Seq<u8>) -> Option<int> {
    if w.len() < 18 || w[17] != 0x0a {
        None
    } else {
        match varint_of(w.skip(18)) {
            None => None,
            Some((len, used)) => if 18 + used + len > w.len() {
                None
            } else {
                match tail_len(w.skip(18 + used + len)) {
                    None => None,
                    Some(n) => Some(18 + used + len + n),
                }
            },
        }
    }
}

impl Address {
    /// Appends the address in wire form.
    fn push_to(&self, out: &mut Vec<u8>)
        requires
            self@ matches AddressView::Domain(name) ==> encode_utf8(name).len() <= 255,
        ensures
            final(out)@ == old(out)@ + address_bytes(self@),
    {
        match self {
            Address::Ipv4(octets) => {
                out.push(ATYP_IPV4);
                out.extend_from_slice(octets);
            },
            Address::Ipv6(octets) => {
                out.push(ATYP_IPV6);
                out.extend_from_slice(octets);
            },
            Address::Domain(name) => {
                let bytes = name.as_str().as_bytes();
                out.push(ATYP_DOMAIN);
                out.push(bytes.len() as u8);
                out.extend_from_slice(bytes);
            },
        }
        assert(out@ =~= old(out)@ + address_bytes(self@));
    }
}

/// Builds the addons field.
fn build_addons(flow: Option<&str>) -> (r: Vec<u8>)
    requires
        flow matches Some(name) ==> encode_utf8(name@).len() <= 255,
    ensures
        r@ == addons_bytes(sni_bytes(opt_text(flow))),
{
    let mut out: Vec<u8> = Vec::new();
    out.push(0x0a);
    if let Some(name) = flow {
        let bytes = name.as_bytes();
        if bytes.len() > 0 {
            let mut sub: Vec<u8> = Vec::new();
            sub.push(0x01);
            sub.push(bytes.len() as u8);
            sub.extend_from_slice(bytes);
            encode_varint(sub.len(), &mut out);
            out.extend_from_slice(&sub);
            assert(out@ =~= addons_bytes(Some(bytes@)));
            return out;
        }
    }
    out.push(0x01);
    out.push(0x00);
    assert(out@ =~= seq![0x0au8, 0x01, 0x00]);
    out
}

/// Builds the VLESS request header. A non-empty flow sets the padding subfield.
/// The port comes before the address. A flow or a domain name over 255 bytes does
/// not fit the layout.
pub fn build_request_header(
    uuid: &[u8; 16],
    flow: Option<&str>,
    command: u8,
    address: &Address,
    port: u16,
) -> (r: Result<Vec<u8>, VlessError>)
    ensures
        request_overflows(sni_bytes(opt_text(flow)), command, address@) ==> r == Err::<
            Vec<u8>,
            _,
        >(VlessError::Layout),
        !request_overflows(sni_bytes(opt_text(flow)), command, address@) ==> r is Ok
            && r->Ok_0@ == request_bytes(
            uuid@,
            sni_bytes(opt_text(flow)),
            command,
            address@,
            port,
        ),
{
    if let Some(name) = flow {
        if name.as_bytes().len() > 255 {
            return Err(VlessError::Layout);
        }
    }
    if command != CMD_MUX {
        if let Address::Domain(name) = address {
            if name.as_str().as_bytes().len() > 255 {
                return Err(VlessError::Layout);
            }
        }
    }
    let addons = build_addons(flow);
    let mut out: Vec<u8> = Vec::new();
    out.push(VERSION);
    out.extend_from_slice(uuid);
    out.extend_from_slice(&addons);
    out.push(command);
    if command != CMD_MUX {
        push_u16(&mut out, port);
        address.push_to(&mut out);
    }
    assert(out@ =~= request_bytes(
        uuid@,
        sni_bytes(opt_text(flow)),
        command,
        address@,
        port,
    ));
    Ok(out)
}

/// Reads the address at the front of `wire`.
fn parse_address(wire: &[u8]) -> (r: Result<Address, VlessError>)
    ensures
        match r {
            Ok(a) => address_at(wire@) == Ok::<_, VlessError>(a@),
            Err(e) => address_at(wire@) == Err::<AddressView, _>(e),
        },
{
    if wire.len() == 0 {
        return Err(VlessError::Layout);
    }
    if wire[0] == ATYP_IPV4 {
        if wire.len() < 5 {
            return Err(VlessError::Layout);
        }
        let octets = [wire[1], wire[2], wire[3], wire[4]];
        assert(octets@ =~= wire@.subrange(1, 5));
        return Ok(Address::Ipv4(octets));
    }
    if wire[0] == ATYP_IPV6 {
        if wire.len() < 17 {
            return Err(VlessError::Layout);
        }
        return Ok(Address::Ipv6(array16(&wire[1..17])));
    }
    if wire[0] == ATYP_DOMAIN {
        if wire.len() < 2 {
            return Err(VlessError::Layout);
        }
        let len = wire[1] as usize;
        if wire.len() < 2 + len {
            return Err(VlessError::Layout);
        }
        return match string_from_utf8(copy_range(wire, 2, 2 + len)) {
            Some(name) => Ok(Address::Domain(name)),
            None => Err(VlessError::Layout),
        };
    }
    Err(VlessError::Layout)
}

/// Reads the flow that the body of an addons field names.
fn parse_flow(addons: &[u8]) -> (r: Result<Option<String>, VlessError>)
    ensures
        match r {
            Ok(f) => flow_in(addons@) == Ok::<_, VlessError>(opt_string(f)),
            Err(e) => flow_in(addons@) == Err::<Option<Seq<char>>, _>(e),
        },
{
    if addons.len() == 0 || addons[0] != 0x01 {
        return Ok(None);
    }
    if addons.len() < 2 {
        return Err(VlessError::Layout);
    }
    let len = addons[1] as usize;
    if addons.len() < 2 + len {
        return Err(VlessError::Layout);
    }
    match string_from_utf8(copy_range(addons, 2, 2 + len)) {
        Some(name) => Ok(Some(name)),
        None => Err(VlessError::Layout),
    }
}

/// Parses a VLESS request header from the wire.
pub fn parse_request_header(wire: &[u8]) -> (r: Result<ParsedRequest, VlessError>)
    ensures
        match r {
            Ok(p) => request_of(wire@) == Ok::<_, VlessError>(p@),
            Err(e) => request_of(wire@) == Err::<RequestView, _>(e),
        },
{
    if wire.len() < 1 + 16 + 3 + 1 {
        return Err(VlessError::Layout);
    }
    if wire[0] != VERSION {
        return Err(VlessError::BadResponse);
    }
    let uuid = array16(&wire[1..17]);
    if wire[17] != 0x0a {
        return Err(VlessError::Layout);
    }
    let (addons_len, used) = decode_varint(&wire[18..wire.len()])?;
    let start: usize = 18 + used;
    if addons_len > (wire.len() - start) as u64 {
        return Err(VlessError::Layout);
    }
    let end: usize = start + addons_len as usize;
    let flow = parse_flow(&wire[start..end])?;
    let tail = &wire[end..wire.len()];
    assert(tail@ =~= wire@.skip(end as int));
    if tail.len() == 0 {
        return Err(VlessError::Layout);
    }
    let command = tail[0];
    if command == CMD_MUX {
        return Ok(
            ParsedRequest {
                uuid,
                flow,
                command,
                address: Address::Domain("v1.mux.cool".to_owned()),
                port: 0,
            },
        );
    }
    if tail.len() < 3 {
        return Err(VlessError::Layout);
    }
    let port: u16 = tail[1] as u16 * 256 + tail[2] as u16;
    let rest = &tail[3..tail.len()];
    assert(rest@ =~= tail@.skip(3));
    let address = parse_address(rest)?;
    Ok(ParsedRequest { uuid, flow, command, address, port })
}

/// Builds the VLESS response header: version and empty addons.
pub fn build_response_header() -> (r: Vec<u8>)
    ensures
        r@ == seq![VERSION, 0x0au8, 0x01, 0x00],
{
    let mut out: Vec<u8> = Vec::new();
    out.push(VERSION);
    out.push(0x0a);
    out.push(0x01);
    out.push(0x00);
    assert(out@ =~= seq![VERSION, 0x0au8, 0x01, 0x00]);
    out
}

/// Whether a response header answers a request of this version.
pub open spec fn response_ok(w: Seq<u8>, request_version: u8) -> bool {
    w.len() >= 4 && w[0] == request_version
}

/// Parses the VLESS response header; it must match the request version.
pub fn parse_response_header(wire: &[u8], request_version: u8) -> (r: Result<(), VlessError>)
    ensures
        r == (if response_ok(wire@, request_version) {
            Ok::<(), VlessError>(())
        } else {
            Err(VlessError::BadResponse)
        }),
{
    if wire.len() < 4 || wire[0] != request_version {
        return Err(VlessError::BadResponse);
    }
    Ok(())
}

/// Total wire length of the VLESS request header starting at `wire`. The header
/// is self-delimiting; everything after it in the stream is payload. The length
/// is the declared one: it passes the end of `wire` when the address is cut off.
pub fn request_header_len(wire: &[u8]) -> (r: Result<usize, VlessError>)
    ensures
        match r {
            Ok(n) => request_len_of(wire@) == Some(n as int),
            Err(e) => e == VlessError::Layout && (request_len_of(wire@) matches Some(n) ==> n
                > usize::MAX),
        },
{
    if wire.len() < 1 + 16 + 1 {
        return Err(VlessError::Layout);
    }
    if wire[17] != 0x0a {
        return Err(VlessError::Layout);
    }
    let (addons_len, used) = decode_varint(&wire[18..wire.len()])?;
    let start: usize = 18 + used;
    if addons_len > (wire.len() - start) as u64 {
        return Err(VlessError::Layout);
    }
    let end: usize = start + addons_len as usize;
    let tail = &wire[end..wire.len()];
    assert(tail@ =~= wire@.skip(end as int));
    if tail.len() == 0 {
        return Err(VlessError::Layout);
    }
    let n: usize = if tail[0] == CMD_MUX {
        1
    } else if tail.len() < 4 {
        return Err(VlessError::Layout);
    } else if tail[3] == ATYP_IPV4 {
        8
    } else if tail[3] == ATYP_IPV6 {
        20
    } else if tail[3] == ATYP_DOMAIN && tail.len() >= 5 {
        5 + tail[4] as usize
    } else {
        return Err(VlessError::Layout);
    };
    end.checked_add(n).ok_or(VlessError::Layout)
}

// ---------------------------------------------------------------------------
// Identities
// ---------------------------------------------------------------------------

/// The bytes of a text but for its hyphens.
pub open spec fn without_hyphens(s: Seq<u8>) -> Seq<u8>
    decreases s.len(),
{
    if s.len() == 0 {
        Seq::empty()
    } else if s.last() == 0x2d {
        without_hyphens(s.drop_last())
    } else {
        without_hyphens(s.drop_last()).push(s.last())
    }
}

/// Parses a hyphenated or bare-hex UUID string into 16 bytes.
pub fn parse_uuid(raw: &str) -> (r: Option<[u8; 16]>)
    ensures
        ({
            let hex = without_hyphens(encode_utf8(raw@));
            &&& r is Some == (hex.len() == 32 && is_hex(hex))
            &&& (r matches Some(u) ==> u@ == hex_bytes(hex))
        }),
{
    let bytes = raw.as_bytes();
    let mut hex: Vec<u8> = Vec::new();
    let mut i: usize = 0;
    while i < bytes.len()
        invariant
            i <= bytes@.len(),
            hex@ == without_hyphens(bytes@.take(i as int)),
        decreases bytes@.len() - i,
    {
        assert(bytes@.take(i + 1).drop_last() =~= bytes@.take(i as int));
        if bytes[i] != 0x2d {
            hex.push(bytes[i]);
        }
        i += 1;
    }
    assert(bytes@.take(i as int) =~= bytes@);
    if hex.len() != 32 {
        return None;
    }
    hex_decode_16(&hex)
}

// ---------------------------------------------------------------------------
// Session streams
// ---------------------------------------------------------------------------

/// The state of a [`VlessOut`]: the request header still to be sent, and the
/// writer.
#[verifier::ext_equal]
pub struct OutView {
    pub header: Option<Seq<u8>>,
    pub writer: WriterView,
}

/// What goes into the Vision stream for a payload: the request header rides in
/// front of the first one.
pub open spec fn out_content(o: OutView, payload: Seq<u8>) -> Seq<u8> {
    match o.header {
        Some(h) => h + payload,
        None => payload,
    }
}

/// What a payload is wrapped into. The first one is long-padded and ends the
/// padding phase.
pub open spec fn wrapped(o: OutView, payload: Seq<u8>, draws: Seq<u64>) -> Seq<u8> {
    padded(o.writer, out_content(o, payload), o.header is Some, o.header is Some, draws)
}

/// The state after a payload.
pub open spec fn after_wrap(o: OutView) -> OutView {
    OutView { header: None, writer: after_pad(o.writer, o.header is Some) }
}

/// Client-side VLESS + Vision stream writer: the state that sits between the
/// tunnel's payload stream and the record layer.
///
/// The first wrapped payload carries the VLESS request header as the first
/// content of the Vision stream, and the padding phase ends after it; later
/// payloads pass through as direct copy.
pub struct VlessOut {
    header: Option<Vec<u8>>,
    writer: VisionWriter,
}

impl View for VlessOut {
    type V = OutView;

    closed spec fn view(&self) -> OutView {
        OutView {
            header: match self.header {
                Some(h) => Some(h@),
                None => None,
            },
            writer: self.writer@,
        }
    }
}

impl VlessOut {
    /// A stream writer for one destination.
    pub fn new(
        uuid: [u8; 16],
        flow: Option<&str>,
        command: u8,
        address: &Address,
        port: u16,
    ) -> (r: Result<VlessOut, VlessError>)
        ensures
            request_overflows(sni_bytes(opt_text(flow)), command, address@) ==> r == Err::<
                VlessOut,
                _,
            >(VlessError::Layout),
            !request_overflows(sni_bytes(opt_text(flow)), command, address@) ==> r is Ok
                && r->Ok_0@ == (OutView {
                header: Some(
                    request_bytes(uuid@, sni_bytes(opt_text(flow)), command, address@, port),
                ),
                writer: WriterView { uuid: Some(uuid@), is_padding: true },
            }),
    {
        let header = build_request_header(&uuid, flow, command, address, port)?;
        Ok(VlessOut { header: Some(header), writer: VisionWriter::new(uuid) })
    }

    /// Wraps one payload for the tunnel, with fresh random padding.
    pub fn wrap(&mut self, payload: &[u8]) -> (r: Vec<u8>)
        ensures
            exists|draws: Seq<u64>|
                draws.len() == frame_count(out_content(old(self)@, payload@).len() as int) && r@
                    == #[trigger] wrapped(old(self)@, payload@, draws),
            final(self)@ == after_wrap(old(self)@),
    {
        match self.header.take() {
            Some(header) => {
                let mut first = header;
                first.extend_from_slice(payload);
                assert(first@ =~= out_content(old(self)@, payload@));
                let r = self.writer.pad(&first, true, true);
                proof {
                    let draws = choose|draws: Seq<u64>|
                        draws.len() == frame_count(first@.len() as int) && r@ == #[trigger] padded(
                            old(self)@.writer,
                            first@,
                            true,
                            true,
                            draws,
                        );
                    assert(r@ == wrapped(old(self)@, payload@, draws));
                }
                r
            },
            None => {
                let r = self.writer.pad(payload, false, false);
                proof {
                    let draws = choose|draws: Seq<u64>|
                        draws.len() == frame_count(payload@.len() as int) && r@
                            == #[trigger] padded(
                            old(self)@.writer,
                            payload@,
                            false,
                            false,
                            draws,
                        );
                    assert(r@ == wrapped(old(self)@, payload@, draws));
                }
                r
            },
        }
    }

    /// Wraps one payload with given random draws, one for each frame.
    pub fn wrap_with(&mut self, payload: &[u8], draws: &[u64]) -> (r: Vec<u8>)
        requires
            draws@.len() >= frame_count(out_content(old(self)@, payload@).len() as int),
        ensures
            r@ == wrapped(old(self)@, payload@, draws@),
            final(self)@ == after_wrap(old(self)@),
    {
        match self.header.take() {
            Some(header) => {
                let mut first = header;
                first.extend_from_slice(payload);
                assert(first@ =~= out_content(old(self)@, payload@));
                self.writer.pad_with(&first, true, true, draws)
            },
            None => self.writer.pad_with(payload, false, false, draws),
        }
    }
}

/// The state of a [`VlessIn`]: whether the response header has been taken off,
/// and the reader.
#[verifier::ext_equal]
pub struct InView {
    pub response_seen: bool,
    pub reader: ReaderView,
}

/// What a stream reader makes of a record plaintext: its next state and the
/// tunnel payload, or the error.
pub open spec fn unwrapped(s: InView, plaintext: Seq<u8>) -> (InView, Result<Seq<u8>, VlessError>) {
    let (reader, content) = unpadded(s.reader, plaintext);
    match content {
        Err(e) => (InView { reader, ..s }, Err(e)),
        Ok(bytes) => if s.response_seen {
            (InView { reader, ..s }, Ok(bytes))
        } else if response_ok(bytes, VERSION) {
            (InView { reader, response_seen: true }, Ok(bytes.skip(4)))
        } else {
            (InView { reader, response_seen: true }, Err(VlessError::BadResponse))
        },
    }
}

/// Client-side VLESS + Vision stream reader: unwraps record plaintexts back
/// into tunnel payloads. The first plaintext carries the server's response
/// header in front of its data; later plaintexts are payload.
pub struct VlessIn {
    response_seen: bool,
    reader: VisionReader,
}

impl View for VlessIn {
    type V = InView;

    closed spec fn view(&self) -> InView {
        InView { response_seen: self.response_seen, reader: self.reader@ }
    }
}

impl VlessIn {
    /// A stream reader at the start of its stream.
    pub fn new(uuid: [u8; 16]) -> (r: VlessIn)
        ensures
            r@ == (InView { response_seen: false, reader: fresh_reader(uuid@) }),
    {
        VlessIn { response_seen: false, reader: VisionReader::new(uuid) }
    }

    /// Unwraps one record plaintext. Returns the tunnel payload bytes; an empty
    /// result means this record only carried the response header.
    pub fn unwrap(&mut self, plaintext: &[u8]) -> (r: Result<Vec<u8>, VlessError>)
        ensures
            final(self)@ == unwrapped(old(self)@, plaintext@).0,
            match r {
                Ok(v) => unwrapped(old(self)@, plaintext@).1 == Ok::<_, VlessError>(v@),
                Err(e) => unwrapped(old(self)@, plaintext@).1 == Err::<Seq<u8>, _>(e),
            },
    {
        let content = self.reader.unpad(plaintext)?;
        if !self.response_seen {
            self.response_seen = true;
            parse_response_header(&content, VERSION)?;
            let rest = copy_range(&content, 4, content.len());
            assert(rest@ =~= content@.skip(4));
            return Ok(rest);
        }
        Ok(content)
    }
}

/// A Vision reader at the start of its stream.
pub open spec fn fresh_reader(uuid: Seq<u8>) -> ReaderView {
    ReaderView {
        state: UnpadState::Initial,
        command: 0,
        uuid,
        header: crate::bytes::zeros(5),
        fill: 0,
        within: false,
        first: true,
    }
}

// ---------------------------------------------------------------------------
// Laws
// ---------------------------------------------------------------------------

/// Whether an IP address has its fixed size, as every [`Address`] does.
pub open spec fn address_sized(address: AddressView) -> bool {
    match address {
        AddressView::Ipv4(octets) => octets.len() == 4,
        AddressView::Ipv6(octets) => octets.len() == 16,
        AddressView::Domain(_) => true,
    }
}

/// The flow a parser reports for the flow that was asked for: none for an empty
/// one.
pub open spec fn reported_flow(flow: Option<Seq<char>>) -> Option<Seq<char>> {
    match flow {
        Some(name) => if encode_utf8(name).len() > 0 {
            Some(name)
        } else {
            None
        },
        None => None,
    }
}

proof fn lemma_address_round_trip(a: AddressView, tail: Seq<u8>)
    requires
        address_sized(a),
        a matches AddressView::Domain(name) ==> encode_utf8(name).len() <= 255,
    ensures
        address_at(address_bytes(a) + tail) == Ok::<_, VlessError>(a),
{
    let s = address_bytes(a) + tail;
    match a {
        AddressView::Ipv4(octets) => {
            assert(s.subrange(1, 5) =~= octets);
        },
        AddressView::Ipv6(octets) => {
            assert(s.subrange(1, 17) =~= octets);
        },
        AddressView::Domain(name) => {
            let b = encode_utf8(name);
            assert(s[1] == b.len());
            assert(s.subrange(2, 2 + s[1]) =~= b);
            encode_utf8_valid_utf8(name);
            encode_utf8_decode_utf8(name);
        },
    }
}

/// The addons field reads back, whatever follows it.
proof fn lemma_addons_round_trip(flow: Option<Seq<char>>, tail: Seq<u8>) -> (lens: (int, int))
    requires
        flow matches Some(name) ==> encode_utf8(name).len() <= 255,
    ensures
        ({
            let a = addons_bytes(sni_bytes(flow));
            let s = a + tail;
            &&& a[0] == 0x0a
            &&& varint_of(s.skip(1)) == Some(lens)
            &&& 1 + lens.1 + lens.0 == a.len()
            &&& lens.0 >= 0 && lens.1 >= 1
            &&& flow_in(s.subrange(1 + lens.1, 1 + lens.1 + lens.0)) == Ok::<_, VlessError>(
                reported_flow(flow),
            )
        }),
{
    let a = addons_bytes(sni_bytes(flow));
    let s = a + tail;
    if reported_flow(flow) is Some {
        let name = flow->0;
        let b = encode_utf8(name);
        let n = (2 + b.len()) as nat;
        let sub = seq![0x01u8, b.len() as u8] + b;
        law_varint_round_trip(n, sub + tail);
        let v = varint_bytes(n);
        assert(s.skip(1) =~= v + (sub + tail));
        let at = 1 + v.len() as int;
        assert(s.subrange(at, at + n) =~= sub);
        assert(sub.subrange(2, 2 + sub[1]) =~= b);
        encode_utf8_valid_utf8(name);
        encode_utf8_decode_utf8(name);
        (n as int, v.len() as int)
    } else {
        assert(a =~= seq![0x0au8, 0x01, 0x00]);
        law_varint_round_trip(1, seq![0u8] + tail);
        assert(varint_bytes(1) =~= seq![1u8]);
        assert(s.skip(1) =~= varint_bytes(1) + (seq![0u8] + tail));
        assert(s.subrange(2, 3)[0] == 0);
        (1, 1)
    }
}

/// The part of a request up to its command reads back, whatever follows.
proof fn lemma_request_front(uuid: Seq<u8>, flow: Option<Seq<char>>, tail: Seq<u8>)
    requires
        uuid.len() == 16,
        flow matches Some(name) ==> encode_utf8(name).len() <= 255,
        tail.len() >= 1,
    ensures
        ({
            let addons = addons_bytes(sni_bytes(flow));
            let w = seq![VERSION] + uuid + addons + tail;
            &&& request_of(w) == request_tail(uuid, reported_flow(flow), tail)
            &&& request_len_of(w) == (match tail_len(tail) {
                None => None,
                Some(n) => Some(17 + addons.len() + n),
            })
        }),
{
    let addons = addons_bytes(sni_bytes(flow));
    let w = seq![VERSION] + uuid + addons + tail;
    let s = addons + tail;
    let (len, used) = lemma_addons_round_trip(flow, tail);
    assert(w =~= seq![VERSION] + uuid + s);
    assert(w.skip(17) =~= s);
    assert(w[17] == s[0]);
    assert(w.skip(18) =~= s.skip(1));
    assert(w.subrange(1, 17) =~= uuid);
    assert(w.subrange(18 + used, 18 + used + len) =~= s.subrange(1 + used, 1 + used + len));
    assert(w.skip(18 + used + len) =~= tail);
    assert(addons.len() >= 3);
}

/// The destination of a request reads back, whatever follows.
proof fn lemma_request_tail(
    uuid: Seq<u8>,
    flow: Option<Seq<char>>,
    command: u8,
    address: AddressView,
    port: u16,
    payload: Seq<u8>,
)
    requires
        command != CMD_MUX,
        address_sized(address),
        !request_overflows(None, command, address),
    ensures
        ({
            let dest = destination_bytes(command, address, port);
            let tail = seq![command] + dest + payload;
            &&& request_tail(uuid, flow, tail) == Ok::<_, VlessError>(
                RequestView { uuid, flow, command, address, port },
            )
            &&& tail_len(tail) == Some(1 + dest.len() as int)
        }),
{
    let a = address_bytes(address);
    let tail = seq![command] + destination_bytes(command, address, port) + payload;
    lemma_be16_round_trip(port as int);
    assert(tail[1] == be16(port as int)[0] && tail[2] == be16(port as int)[1]);
    assert(tail.skip(3) =~= a + payload);
    lemma_address_round_trip(address, payload);
    assert(tail[3] == a[0]);
    if address is Domain {
        assert(tail[4] == a[1]);
    }
}

/// Law: a request header parses back to the identity, flow, command, address
/// and port that it was built from, whatever payload follows it; and its
/// declared length is its length, so the payload starts right behind it.
pub proof fn law_request_round_trip(
    uuid: Seq<u8>,
    flow: Option<Seq<char>>,
    command: u8,
    address: AddressView,
    port: u16,
    payload: Seq<u8>,
)
    requires
        uuid.len() == 16,
        command != CMD_MUX,
        address_sized(address),
        !request_overflows(sni_bytes(flow), command, address),
    ensures
        ({
            let header = request_bytes(uuid, sni_bytes(flow), command, address, port);
            let w = header + payload;
            &&& request_of(w) == Ok::<_, VlessError>(
                RequestView { uuid, flow: reported_flow(flow), command, address, port },
            )
            &&& request_len_of(w) == Some(header.len() as int)
            &&& w.skip(header.len() as int) == payload
        }),
{
    let dest = destination_bytes(command, address, port);
    let header = request_bytes(uuid, sni_bytes(flow), command, address, port);
    let w = header + payload;
    let tail = seq![command] + dest + payload;
    assert(w =~= seq![VERSION] + uuid + addons_bytes(sni_bytes(flow)) + tail);
    lemma_request_front(uuid, flow, tail);
    lemma_request_tail(uuid, reported_flow(flow), command, address, port, payload);
    assert(w.skip(header.len() as int) =~= payload);
}

/// Law: a multiplexed request header ends behind its command and parses to the
/// fixed multiplexing domain.
pub proof fn law_mux_request_round_trip(
    uuid: Seq<u8>,
    flow: Option<Seq<char>>,
    address: AddressView,
    port: u16,
    payload: Seq<u8>,
)
    requires
        uuid.len() == 16,
        !request_overflows(sni_bytes(flow), CMD_MUX, address),
    ensures
        ({
            let header = request_bytes(uuid, sni_bytes(flow), CMD_MUX, address, port);
            let w = header + payload;
            &&& request_of(w) == Ok::<_, VlessError>(
                RequestView {
                    uuid,
                    flow: reported_flow(flow),
                    command: CMD_MUX,
                    address: AddressView::Domain("v1.mux.cool"@),
                    port: 0,
                },
            )
            &&& request_len_of(w) == Some(header.len() as int)
        }),
{
    let header = request_bytes(uuid, sni_bytes(flow), CMD_MUX, address, port);
    let w = header + payload;
    let tail = seq![CMD_MUX] + payload;
    assert(w =~= seq![VERSION] + uuid + addons_bytes(sni_bytes(flow)) + tail);
    lemma_request_front(uuid, flow, tail);
}

/// Law: the server side of a session reads the request header and then the
/// payload out of the first wrapped payload, whatever the random draws, and
/// stays in step with the client.
pub proof fn law_session_request(
    o: OutView,
    server: ReaderView,
    uuid: Seq<u8>,
    flow: Option<Seq<char>>,
    command: u8,
    address: AddressView,
    port: u16,
    payload: Seq<u8>,
    draws: Seq<u64>,
)
    requires
        uuid.len() == 16,
        command != CMD_MUX,
        address_sized(address),
        !request_overflows(sni_bytes(flow), command, address),
        o.header == Some(request_bytes(uuid, sni_bytes(flow), command, address, port)),
        in_step(o.writer, server),
    ensures
        ({
            let header = o.header->0;
            let (next, content) = unpadded(server, wrapped(o, payload, draws));
            &&& content == Ok::<_, VlessError>(header + payload)
            &&& request_len_of(header + payload) == Some(header.len() as int)
            &&& request_of(header + payload) == Ok::<_, VlessError>(
                RequestView { uuid, flow: reported_flow(flow), command, address, port },
            )
            &&& (header + payload).skip(header.len() as int) == payload
            &&& in_step(after_wrap(o).writer, next)
        }),
{
    law_vision_round_trip(o.writer, server, out_content(o, payload), true, true, draws);
    law_request_round_trip(uuid, flow, command, address, port, payload);
}

/// Law: later payloads of a session reach the server unchanged.
pub proof fn law_session_payload(
    o: OutView,
    server: ReaderView,
    payload: Seq<u8>,
    draws: Seq<u64>,
)
    requires
        o.header is None,
        in_step(o.writer, server),
    ensures
        unpadded(server, wrapped(o, payload, draws)).1 == Ok::<_, VlessError>(payload),
        in_step(after_wrap(o).writer, unpadded(server, wrapped(o, payload, draws)).0),
{
    law_vision_round_trip(o.writer, server, payload, false, false, draws);
}

/// Law: the client takes the response header off the first server payload and
/// gets exactly the data behind it, and gets every later server payload
/// unchanged.
pub proof fn law_session_response(
    s: InView,
    server: WriterView,
    payload: Seq<u8>,
    long: bool,
    end: bool,
    draws: Seq<u64>,
)
    requires
        in_step(server, s.reader),
    ensures
        ({
            let response = seq![VERSION, 0x0au8, 0x01, 0x00];
            let content = if s.response_seen {
                payload
            } else {
                response + payload
            };
            let (next, got) = unwrapped(s, padded(server, content, long, end, draws));
            &&& got == Ok::<_, VlessError>(payload)
            &&& next.response_seen
            &&& in_step(after_pad(server, end), next.reader)
        }),
{
    let response = seq![VERSION, 0x0au8, 0x01, 0x00];
    let content = if s.response_seen {
        payload
    } else {
        response + payload
    };
    law_vision_round_trip(server, s.reader, content, long, end, draws);
    assert((response + payload).skip(4) =~= payload);
}

/// Law: a varint spells a number in base 128, low digit first, with 128 added to
/// every digit but the last.
pub proof fn law_varint_spelling(value: nat)
    ensures
        value < 128 ==> varint_bytes(value) == seq![value as u8],
        value >= 128 ==> varint_bytes(value) == seq![(128 + value % 128) as u8] + varint_bytes(
            value / 128,
        ),
{
}

/// Law: any varint is read by its digits, also one that is longer than it needs
/// to be: a byte below 128 stands for itself and ends it, and a larger one adds
/// its low seven bits to 128 times what follows. Ten bytes that all go on are
/// none.
pub proof fn law_varint_reading(low: u8, high: u8, top: u8, tail: Seq<u8>)
    ensures
        low < 128 ==> varint_of(seq![low] + tail) == Some((low as int, 1int)),
        low >= 128 && high < 128 ==> varint_of(seq![low, high] + tail) == Some(
            (low - 128 + 128 * high, 2int),
        ),
        low >= 128 && high >= 128 && top < 128 ==> varint_of(seq![low, high, top] + tail) == Some(
            (low - 128 + 128 * (high - 128) + 16384 * top, 3int),
        ),
        varint_of(Seq::empty()) is None,
        tail.len() >= 10 && (forall|i: int| 0 <= i < 10 ==> #[trigger] tail[i] >= 128)
            ==> varint_of(tail) is None,
{
    reveal_with_fuel(varint_digits, 4);
    let s1 = seq![low] + tail;
    let s2 = seq![low, high] + tail;
    let s3 = seq![low, high, top] + tail;
    assert(s1[0] == low);
    assert(s2[0] == low && s2.skip(1) =~= seq![high] + tail && (seq![high] + tail)[0] == high);
    assert(s3[0] == low && s3.skip(1) =~= seq![high, top] + tail);
    assert((seq![high, top] + tail)[0] == high);
    assert((seq![high, top] + tail).skip(1) =~= seq![top] + tail);
    assert((seq![top] + tail)[0] == top);
    if tail.len() >= 10 && (forall|i: int| 0 <= i < 10 ==> #[trigger] tail[i] >= 128) {
        lemma_endless_varint(tail, 10);
    }
}

proof fn lemma_endless_varint(s: Seq<u8>, limit: int)
    requires
        0 <= limit <= s.len(),
        forall|i: int| 0 <= i < limit ==> #[trigger] s[i] >= 128,
    ensures
        varint_digits(s, limit) is None,
    decreases limit,
{
    if limit > 0 {
        let rest = s.skip(1);
        assert forall|i: int| 0 <= i < limit - 1 implies #[trigger] rest[i] >= 128 by {
            assert(rest[i] == s[i + 1]);
        }
        lemma_endless_varint(rest, limit - 1);
    }
}

/// Law: the wire of a request header: the version 0, the identity, the addons,
/// the command, the port high byte first, and the address behind its type, 1 for
/// four bytes, 2 for a domain name with its length in front, 3 for sixteen
/// bytes. A multiplexed connection, command 15, has no destination. The addons
/// are the bytes 10, 1, 0 without a flow; with one, 10, the length of the rest,
/// 1, the length of the name and the name.
#[verifier::spinoff_prover]
#[verifier::rlimit(50)]
pub proof fn law_request_wire(
    uuid: Seq<u8>,
    flow: Seq<u8>,
    command: u8,
    ipv4: Seq<u8>,
    ipv6: Seq<u8>,
    name: Seq<char>,
    port: u16,
)
    requires
        0 < flow.len() <= 255,
        command != 15,
        encode_utf8(name).len() <= 255,
    ensures
        ({
            let plain = seq![0u8] + uuid + seq![10u8, 1u8, 0u8];
            let named = seq![0u8] + uuid + seq![10u8] + varint_bytes(2 + flow.len()) + seq![
                1u8,
                flow.len() as u8,
            ] + flow;
            let to = seq![command, (port / 256) as u8, (port % 256) as u8];
            let domain = AddressView::Domain(name);
            let host = encode_utf8(name);
            &&& request_bytes(uuid, None, command, AddressView::Ipv4(ipv4), port) == plain + to
                + seq![1u8] + ipv4
            &&& request_bytes(uuid, Some(Seq::empty()), command, AddressView::Ipv6(ipv6), port)
                == plain + to + seq![3u8] + ipv6
            &&& request_bytes(uuid, Some(flow), command, AddressView::Ipv6(ipv6), port) == named
                + to + seq![3u8] + ipv6
            &&& request_bytes(uuid, Some(flow), command, domain, port) == named + to + seq![
                2u8,
                host.len() as u8,
            ] + host
            &&& request_bytes(uuid, Some(flow), 15, domain, port) == named + seq![15u8]
        }),
{
    let plain = seq![0u8] + uuid + seq![10u8, 1u8, 0u8];
    let named = seq![0u8] + uuid + seq![10u8] + varint_bytes(2 + flow.len()) + seq![
        1u8,
        flow.len() as u8,
    ] + flow;
    let to = seq![command, (port / 256) as u8, (port % 256) as u8];
    let domain = AddressView::Domain(name);
    let host = encode_utf8(name);
    assert(request_bytes(uuid, None, command, AddressView::Ipv4(ipv4), port) =~= plain + to + seq![
        1u8,
    ] + ipv4);
    assert(request_bytes(uuid, Some(Seq::empty()), command, AddressView::Ipv6(ipv6), port)
        =~= plain + to + seq![3u8] + ipv6);
    assert(request_bytes(uuid, Some(flow), command, AddressView::Ipv6(ipv6), port) =~= named + to
        + seq![3u8] + ipv6);
    assert(request_bytes(uuid, Some(flow), command, domain, port) =~= named + to + seq![
        2u8,
        host.len() as u8,
    ] + host);
    assert(request_bytes(uuid, Some(flow), 15, domain, port) =~= named + seq![15u8]);
}

/// Law: which requests cannot be written: those with a flow over 255 bytes, and
/// those with a domain name over 255 bytes, unless they are multiplexed.
pub proof fn law_request_limits(flow: Seq<u8>, command: u8, ip: AddressView, name: Seq<char>)
    requires
        ip is Ipv4 || ip is Ipv6,
    ensures
        request_overflows(Some(flow), command, ip) == (flow.len() > 255),
        request_overflows(None, command, ip) == false,
        request_overflows(None, command, AddressView::Domain(name)) == (command != 15
            && encode_utf8(name).len() > 255),
        request_overflows(Some(flow), command, AddressView::Domain(name)) == (flow.len() > 255 || (
        command != 15 && encode_utf8(name).len() > 255)),
{
}

/// Law: a request of any client is read, whatever its addons hold. The addons
/// field has its length in one byte here; a name in it starts with 1 and its
/// length, may be followed by more, and is the flow; addons that start otherwise
/// name none. What follows the addons is read as the destination.
#[verifier::spinoff_prover]
#[verifier::rlimit(50)]
pub proof fn law_foreign_request(
    uuid: Seq<u8>,
    addons: Seq<u8>,
    flow: Seq<char>,
    more: Seq<u8>,
    tail: Seq<u8>,
)
    requires
        uuid.len() == 16,
        addons.len() < 128,
        addons.len() > 0 ==> addons[0] != 1,
        encode_utf8(flow).len() + more.len() < 126,
        tail.len() >= 1,
        addons.len() + tail.len() >= 2,
    ensures
        ({
            let w = seq![0u8] + uuid + seq![10u8, addons.len() as u8] + addons + tail;
            &&& request_of(w) == request_tail(uuid, None, tail)
            &&& request_len_of(w) == (match tail_len(tail) {
                None => None,
                Some(n) => Some(19 + addons.len() + n),
            })
        }),
        ({
            let name = encode_utf8(flow);
            let w = seq![0u8] + uuid + seq![
                10u8,
                (2 + name.len() + more.len()) as u8,
                1u8,
                name.len() as u8,
            ] + name + more + tail;
            &&& request_of(w) == request_tail(uuid, Some(flow), tail)
            &&& request_len_of(w) == (match tail_len(tail) {
                None => None,
                Some(n) => Some(21 + name.len() + more.len() + n),
            })
        }),
{
    let name = encode_utf8(flow);
    let named = seq![1u8, name.len() as u8] + name + more;
    lemma_addons_in_place(uuid, addons, tail);
    lemma_addons_in_place(uuid, named, tail);
    assert(seq![0u8] + uuid + seq![10u8, named.len() as u8] + named + tail =~= seq![0u8] + uuid
        + seq![10u8, (2 + name.len() + more.len()) as u8, 1u8, name.len() as u8] + name + more
        + tail);
    assert(named.subrange(2, 2 + named[1]) =~= name);
    encode_utf8_valid_utf8(flow);
    encode_utf8_decode_utf8(flow);
}

#[verifier::spinoff_prover]
#[verifier::rlimit(50)]
proof fn lemma_addons_in_place(uuid: Seq<u8>, addons: Seq<u8>, tail: Seq<u8>)
    requires
        uuid.len() == 16,
        addons.len() < 128,
        addons.len() + tail.len() >= 2,
    ensures
        ({
            let w = seq![0u8] + uuid + seq![10u8, addons.len() as u8] + addons + tail;
            &&& request_of(w) == (match flow_in(addons) {
                Err(e) => Err(e),
                Ok(flow) => request_tail(uuid, flow, tail),
            })
            &&& request_len_of(w) == (match tail_len(tail) {
                None => None,
                Some(n) => Some(19 + addons.len() + n),
            })
        }),
{
    let n = addons.len() as int;
    let w = seq![0u8] + uuid + seq![10u8, addons.len() as u8] + addons + tail;
    assert(w[0] == 0 && w[17] == 10 && w[18] == n);
    assert(w.subrange(1, 17) =~= uuid);
    assert(w.skip(18) =~= seq![n as u8] + (addons + tail));
    law_varint_reading(n as u8, 0, 0, addons + tail);
    assert(w.subrange(19, 19 + n) =~= addons);
    assert(w.skip(19 + n) =~= tail);
}

/// Law: the destination of a request is its command, its port high byte first
/// and its address; a multiplexed connection, command 15, goes to the domain
/// `v1.mux.cool` and port 0 whatever follows.
#[verifier::spinoff_prover]
#[verifier::rlimit(50)]
pub proof fn law_destination_is_read(
    uuid: Seq<u8>,
    flow: Option<Seq<char>>,
    command: u8,
    port: u16,
    ipv4: Seq<u8>,
    ipv6: Seq<u8>,
    name: Seq<char>,
    payload: Seq<u8>,
)
    requires
        command != 15,
        ipv4.len() == 4,
        ipv6.len() == 16,
        encode_utf8(name).len() <= 255,
    ensures
        ({
            let to = seq![command, (port / 256) as u8, (port % 256) as u8];
            let host = encode_utf8(name);
            let w4 = to + seq![1u8] + ipv4 + payload;
            let w6 = to + seq![3u8] + ipv6 + payload;
            let wn = to + seq![2u8, host.len() as u8] + host + payload;
            let mux = seq![15u8] + payload;
            &&& request_tail(uuid, flow, w4) == Ok::<_, VlessError>(
                RequestView { uuid, flow, command, address: AddressView::Ipv4(ipv4), port },
            )
            &&& tail_len(w4) == Some(8int)
            &&& request_tail(uuid, flow, w6) == Ok::<_, VlessError>(
                RequestView { uuid, flow, command, address: AddressView::Ipv6(ipv6), port },
            )
            &&& tail_len(w6) == Some(20int)
            &&& request_tail(uuid, flow, wn) == Ok::<_, VlessError>(
                RequestView { uuid, flow, command, address: AddressView::Domain(name), port },
            )
            &&& tail_len(wn) == Some(5 + host.len() as int)
            &&& request_tail(uuid, flow, mux) == Ok::<_, VlessError>(
                RequestView {
                    uuid,
                    flow,
                    command: 15,
                    address: AddressView::Domain("v1.mux.cool"@),
                    port: 0,
                },
            )
            &&& tail_len(mux) == Some(1int)
        }),
{
    let to = seq![command, (port / 256) as u8, (port % 256) as u8];
    let host = encode_utf8(name);
    let w4 = to + seq![1u8] + ipv4 + payload;
    let w6 = to + seq![3u8] + ipv6 + payload;
    let wn = to + seq![2u8, host.len() as u8] + host + payload;
    let a4 = AddressView::Ipv4(ipv4);
    let a6 = AddressView::Ipv6(ipv6);
    let an = AddressView::Domain(name);
    assert(w4 =~= seq![command] + destination_bytes(command, a4, port) + payload);
    assert(w6 =~= seq![command] + destination_bytes(command, a6, port) + payload);
    assert(wn =~= seq![command] + destination_bytes(command, an, port) + payload);
    lemma_request_tail(uuid, flow, command, a4, port, payload);
    lemma_request_tail(uuid, flow, command, a6, port, payload);
    lemma_request_tail(uuid, flow, command, an, port, payload);
}

/// Law: what is refused in a request: another version than 0, addons that are not
/// a field 10, an address of another type than 1, 2 or 3, a domain name that is
/// not text, and anything too short.
pub proof fn law_bad_request_is_refused(
    w: Seq<u8>,
    uuid: Seq<u8>,
    flow: Option<Seq<char>>,
    tail: Seq<u8>,
)
    ensures
        w.len() < 21 ==> request_of(w) == Err::<RequestView, _>(VlessError::Layout),
        w.len() >= 21 && w[0] != 0 ==> request_of(w) == Err::<RequestView, _>(
            VlessError::BadResponse,
        ),
        w.len() >= 21 && w[0] == 0 && w[17] != 10 ==> request_of(w) == Err::<RequestView, _>(
            VlessError::Layout,
        ),
        tail.len() == 0 ==> request_tail(uuid, flow, tail) == Err::<RequestView, _>(
            VlessError::Layout,
        ),
        0 < tail.len() < 4 && tail[0] != 15 ==> request_tail(uuid, flow, tail) == Err::<
            RequestView,
            _,
        >(VlessError::Layout),
        tail.len() >= 4 && tail[0] != 15 && (tail[3] == 0 || tail[3] > 3) ==> request_tail(
            uuid,
            flow,
            tail,
        ) == Err::<RequestView, _>(VlessError::Layout) && tail_len(tail) is None,
        tail.len() >= 4 && tail[0] != 15 && tail[3] == 1 && tail.len() < 8 ==> request_tail(
            uuid,
            flow,
            tail,
        ) == Err::<RequestView, _>(VlessError::Layout),
        tail.len() >= 4 && tail[0] != 15 && tail[3] == 3 && tail.len() < 20 ==> request_tail(
            uuid,
            flow,
            tail,
        ) == Err::<RequestView, _>(VlessError::Layout),
        tail.len() >= 5 && tail[0] != 15 && tail[3] == 2 && (tail.len() < 5 + tail[4]
            || !valid_utf8(tail.subrange(5, 5 + tail[4]))) ==> request_tail(uuid, flow, tail)
            == Err::<RequestView, _>(VlessError::Layout),
{
    if tail.len() >= 5 && tail.len() >= 5 + tail[4] {
        let s = tail.skip(3);
        assert(s.subrange(2, 2 + s[1]) =~= tail.subrange(5, 5 + tail[4]));
    }
}

/// Law: a request header is self-delimiting: more bytes behind it change neither
/// what it declares as its length nor what it says.
#[verifier::spinoff_prover]
#[verifier::rlimit(50)]
pub proof fn law_request_is_self_delimiting(w: Seq<u8>, more: Seq<u8>)
    ensures
        request_len_of(w) matches Some(n) ==> request_len_of(w + more) == Some(n),
        request_of(w) is Ok ==> request_of(w + more) == request_of(w),
{
    let x = w + more;
    if w.len() >= 18 && w[17] == 0x0a {
        if let Some((len, size)) = varint_of(w.skip(18)) {
            assert(x.skip(18) =~= w.skip(18) + more);
            lemma_digits_bound(w.skip(18), 10);
            lemma_varint_more(w.skip(18), more, 10);
            let start = 18 + size;
            if len >= 0 && start + len <= w.len() {
                assert(x.subrange(start, start + len) =~= w.subrange(start, start + len));
                assert(x.skip(start + len) =~= w.skip(start + len) + more);
                assert(x.subrange(1, 17) =~= w.subrange(1, 17));
                lemma_tail_more(w.subrange(1, 17), None, w.skip(start + len), more);
                if let Ok(flow) = flow_in(w.subrange(start, start + len)) {
                    lemma_tail_more(w.subrange(1, 17), flow, w.skip(start + len), more);
                }
            }
        }
    }
}

proof fn lemma_varint_more(s: Seq<u8>, more: Seq<u8>, limit: int)
    ensures
        varint_digits(s, limit) is Some ==> varint_digits(s + more, limit) == varint_digits(
            s,
            limit,
        ),
    decreases limit,
{
    if limit > 0 && s.len() > 0 {
        assert((s + more)[0] == s[0]);
        assert((s + more).skip(1) =~= s.skip(1) + more);
        lemma_varint_more(s.skip(1), more, limit - 1);
    }
}

proof fn lemma_tail_more(
    uuid: Seq<u8>,
    flow: Option<Seq<char>>,
    tail: Seq<u8>,
    more: Seq<u8>,
)
    ensures
        request_tail(uuid, flow, tail) is Ok ==> request_tail(uuid, flow, tail + more)
            == request_tail(uuid, flow, tail),
        tail_len(tail) is Some ==> tail_len(tail + more) == tail_len(tail),
{
    let x = tail + more;
    if tail.len() >= 3 {
        let s = tail.skip(3);
        assert(x.skip(3) =~= s + more);
        if s.len() >= 5 {
            assert((s + more).subrange(1, 5) =~= s.subrange(1, 5));
        }
        if s.len() >= 17 {
            assert((s + more).subrange(1, 17) =~= s.subrange(1, 17));
        }
        if s.len() >= 2 && s.len() >= 2 + s[1] {
            assert((s + more).subrange(2, 2 + s[1]) =~= s.subrange(2, 2 + s[1]));
        }
    }
}

/// Law: a request header that is cut off anywhere is refused as a layout error.
pub proof fn law_cut_request_is_refused(
    uuid: Seq<u8>,
    flow: Option<Seq<char>>,
    command: u8,
    address: AddressView,
    port: u16,
    cut: int,
)
    requires
        uuid.len() == 16,
        command != 15,
        address_sized(address),
        !request_overflows(sni_bytes(flow), command, address),
        0 <= cut < request_bytes(uuid, sni_bytes(flow), command, address, port).len(),
    ensures
        request_of(request_bytes(uuid, sni_bytes(flow), command, address, port).take(cut)) is Err,
{
    let header = request_bytes(uuid, sni_bytes(flow), command, address, port);
    let part = header.take(cut);
    let none = Seq::<u8>::empty();
    if request_of(part) is Ok {
        let rest = header.skip(cut);
        assert(part + rest =~= header);
        assert(header + none =~= header);
        law_request_is_self_delimiting(part, rest);
        law_request_round_trip(uuid, flow, command, address, port, none);
        lemma_read_is_present(part);
    }
}

/// A request that is read is there as far as its declared length.
#[verifier::spinoff_prover]
#[verifier::rlimit(50)]
proof fn lemma_read_is_present(w: Seq<u8>)
    requires
        request_of(w) is Ok,
    ensures
        request_len_of(w) matches Some(n) && n <= w.len(),
{
    let (len, size) = varint_of(w.skip(18))->0;
    lemma_digits_bound(w.skip(18), 10);
    let start = 18 + size;
    let tail = w.skip(start + len);
    if tail[0] != CMD_MUX {
        assert(tail.skip(3)[0] == tail[3]);
        if tail[3] == ATYP_DOMAIN {
            assert(tail.skip(3)[1] == tail[4]);
        }
    }
}

/// Law: a response header answers a request exactly if it has four bytes and
/// starts with the version of the request.
pub proof fn law_response_header(version: u8, rest: Seq<u8>, request_version: u8)
    ensures
        rest.len() >= 3 ==> response_ok(seq![version] + rest, request_version) == (version
            == request_version),
        rest.len() < 3 ==> !response_ok(seq![version] + rest, request_version),
        !response_ok(Seq::empty(), request_version),
{
}

/// Law: how a session stream writes: the first payload leaves behind the request
/// header, with long padding, and ends the padding; every later one leaves alone,
/// without long padding and without ending anything.
pub proof fn law_session_writes(o: OutView, header: Seq<u8>, payload: Seq<u8>, draws: Seq<u64>)
    ensures
        o.header == Some(header) ==> wrapped(o, payload, draws) == padded(
            o.writer,
            header + payload,
            true,
            true,
            draws,
        ) && after_wrap(o).header is None && after_wrap(o).writer == after_pad(o.writer, true),
        o.header is None ==> wrapped(o, payload, draws) == padded(
            o.writer,
            payload,
            false,
            false,
            draws,
        ) && after_wrap(o).header is None && after_wrap(o).writer == after_pad(o.writer, false),
{
}

/// Law: how a session stream reads: what the framing gives is the payload, but
/// for the first four bytes of the first one, which must answer the request; a
/// first plaintext that does not is refused, and one that the framing refuses is
/// refused with its error and leaves the response awaited.
pub proof fn law_session_reads(s: InView, plaintext: Seq<u8>, content: Seq<u8>, e: VlessError)
    ensures
        unpadded(s.reader, plaintext).1 == Ok::<_, VlessError>(content) ==> {
            let (next, got) = unwrapped(s, plaintext);
            &&& next.response_seen
            &&& next.reader == unpadded(s.reader, plaintext).0
            &&& s.response_seen ==> got == Ok::<_, VlessError>(content)
            &&& !s.response_seen && content.len() >= 4 && content[0] == 0 ==> got == Ok::<
                _,
                VlessError,
            >(content.subrange(4, content.len() as int))
            &&& !s.response_seen && (content.len() < 4 || content[0] != 0) ==> got == Err::<
                Seq<u8>,
                _,
            >(VlessError::BadResponse)
        },
        unpadded(s.reader, plaintext).1 == Err::<Seq<u8>, _>(e) ==> {
            let (next, got) = unwrapped(s, plaintext);
            &&& got == Err::<Seq<u8>, _>(e)
            &&& next.response_seen == s.response_seen
            &&& next.reader == unpadded(s.reader, plaintext).0
        },
{
    if content.len() >= 4 {
        assert(content.skip(4) =~= content.subrange(4, content.len() as int));
    }
}

/// Law: leaving out hyphens keeps every other byte, in order.
pub proof fn law_hyphens_are_left_out(a: Seq<u8>, b: Seq<u8>, c: u8)
    ensures
        without_hyphens(a + b) == without_hyphens(a) + without_hyphens(b),
        without_hyphens(seq![c]) == (if c == 0x2d {
            Seq::<u8>::empty()
        } else {
            seq![c]
        }),
        without_hyphens(Seq::empty()) == Seq::<u8>::empty(),
        (forall|i: int| 0 <= i < a.len() ==> #[trigger] a[i] != 0x2d) ==> without_hyphens(a) == a,
    decreases a.len() + b.len(),
{
    assert(seq![c].drop_last() =~= Seq::<u8>::empty());
    reveal_with_fuel(without_hyphens, 2);
    if c != 0x2d {
        assert(without_hyphens(seq![c]) =~= seq![c]);
    }
    if b.len() == 0 {
        assert(a + b =~= a);
        assert(without_hyphens(a) + without_hyphens(b) =~= without_hyphens(a));
    } else {
        assert((a + b).drop_last() =~= a + b.drop_last());
        assert((a + b).last() == b.last());
        law_hyphens_are_left_out(a, b.drop_last(), c);
        assert(without_hyphens(a + b) =~= without_hyphens(a) + without_hyphens(b));
    }
    if (forall|i: int| 0 <= i < a.len() ==> #[trigger] a[i] != 0x2d) {
        lemma_no_hyphens(a);
    }
}

proof fn lemma_no_hyphens(a: Seq<u8>)
    requires
        forall|i: int| 0 <= i < a.len() ==> #[trigger] a[i] != 0x2d,
    ensures
        without_hyphens(a) == a,
    decreases a.len(),
{
    if a.len() > 0 {
        let head = a.drop_last();
        assert forall|i: int| 0 <= i < head.len() implies #[trigger] head[i] != 0x2d by {
            assert(head[i] == a[i]);
        }
        lemma_no_hyphens(head);
        assert(head.push(a.last()) =~= a);
    } else {
        assert(without_hyphens(a) =~= a);
    }
}

/// Law: the text of an identity, bare or cut into groups of 8, 4, 4, 4 and 12
/// digits by hyphens, stands for its sixteen bytes.
#[verifier::spinoff_prover]
#[verifier::rlimit(50)]
pub proof fn law_uuid_text(uuid: Seq<u8>)
    requires
        uuid.len() == 16,
    ensures
        ({
            let t = hex_text(uuid);
            let grouped = t.subrange(0, 8) + seq![0x2du8] + t.subrange(8, 12) + seq![0x2du8]
                + t.subrange(12, 16) + seq![0x2du8] + t.subrange(16, 20) + seq![0x2du8]
                + t.subrange(20, 32);
            &&& without_hyphens(t) == t
            &&& without_hyphens(grouped) == t
            &&& t.len() == 32 && is_hex(t)
            &&& hex_bytes(t) == uuid
        }),
{
    let t = hex_text(uuid);
    law_hex_round_trip(uuid, t);
    assert forall|i: int| 0 <= i < t.len() implies #[trigger] t[i] != 0x2d by {
        law_hex_digits(uuid[i / 2] as int / 16);
        law_hex_digits(uuid[i / 2] as int % 16);
    }
    lemma_no_hyphens(t);
    let a = t.subrange(0, 8);
    let b = t.subrange(8, 12);
    let c = t.subrange(12, 16);
    let d = t.subrange(16, 20);
    let e = t.subrange(20, 32);
    let h = seq![0x2du8];
    lemma_no_hyphens(a);
    lemma_no_hyphens(b);
    lemma_no_hyphens(c);
    lemma_no_hyphens(d);
    lemma_no_hyphens(e);
    law_hyphens_are_left_out(a, h, 0x2d);
    law_hyphens_are_left_out(a + h, b, 0x2d);
    law_hyphens_are_left_out(a + h + b, h, 0x2d);
    law_hyphens_are_left_out(a + h + b + h, c, 0x2d);
    law_hyphens_are_left_out(a + h + b + h + c, h, 0x2d);
    law_hyphens_are_left_out(a + h + b + h + c + h, d, 0x2d);
    law_hyphens_are_left_out(a + h + b + h + c + h + d, h, 0x2d);
    law_hyphens_are_left_out(a + h + b + h + c + h + d + h, e, 0x2d);
    assert(without_hyphens(a + h + b + h + c + h + d + h + e) =~= a + b + c + d + e);
    assert(a + b + c + d + e =~= t);
}

} // verus!
