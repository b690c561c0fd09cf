//! HomePlug AV management frames: addresses, frame builders and header parsers.

pub mod broadcom;
pub mod qualcomm;
pub mod standard;

use crate::text::{append_hex_byte, hex_byte, law_hex_byte};
use vstd::prelude::*;
use vstd::string::*;

verus! {

// -- EtherTypes, as they appear on the wire ------------------------------------

pub const ETHERTYPE_HPAV: [u8; 2] = [0x88, 0xE1];

pub const ETHERTYPE_MEDIAXTREAM: [u8; 2] = [0x89, 0x12];

// -- Addresses -------------------------------------------------------------------

/// The octets of the Ethernet broadcast address.
pub const MAC_BROADCAST: [u8; 6] = [0xFF, 0xFF, 0xFF, 0xFF, 0xFF, 0xFF];

// -- OUIs ------------------------------------------------------------------------

pub const OUI_QUALCOMM: [u8; 3] = [0x00, 0xB0, 0x52];

pub const OUI_BROADCOM: [u8; 3] = [0x00, 0x1F, 0x84];

// -- Management message versions ---------------------------------------------------

pub const HPAV_MMV: u8 = 0x01;

pub const MEDIAXTREAM_MMV: u8 = 0x02;

/// Minimum Ethernet frame size, without the 4-byte FCS that the hardware adds.
pub const MIN_FRAME_SIZE: usize = 60;

/// Where the message of a standard frame begins: after the Ethernet header and
/// the version and type of the message.
pub const HPAV_PAYLOAD: usize = 17;

/// Where the message of a Mediaxtream frame begins: after the Ethernet header
/// and the 9-byte Mediaxtream header.
pub const BCM_PAYLOAD: usize = 23;

// -- MacAddr -------------------------------------------------------------------------

#[derive(Clone, Copy, Eq, Hash, Default, Debug)]
pub struct MacAddr(pub [u8; 6]);

impl PartialEq for MacAddr {
    fn eq(&self, other: &Self) -> (r: bool) {
        let r = self.0[0] == other.0[0] && self.0[1] == other.0[1] && self.0[2] == other.0[2]
            && self.0[3] == other.0[3] && self.0[4] == other.0[4] && self.0[5] == other.0[5];
        assert(r ==> self.0 =~= other.0);
        r
    }
}

impl vstd::std_specs::cmp::PartialEqSpecImpl for MacAddr {
    open spec fn obeys_eq_spec() -> bool {
        true
    }

    open spec fn eq_spec(&self, other: &Self) -> bool {
        *self == *other
    }
}

/// The address in the six octets of `data` from `off` on.
pub open spec fn mac_at(data: Seq<u8>, off: int) -> MacAddr {
    MacAddr(
        [data[off], data[off + 1], data[off + 2], data[off + 3], data[off + 4], data[off + 5]],
    )
}

/// The six octets in hexadecimal, with colons between them.
pub open spec fn mac_text(m: MacAddr) -> Seq<char> {
    hex_byte(m.0[0]) + seq![':'] + hex_byte(m.0[1]) + seq![':'] + hex_byte(m.0[2]) + seq![':']
        + hex_byte(m.0[3]) + seq![':'] + hex_byte(m.0[4]) + seq![':'] + hex_byte(m.0[5])
}

/// The last three octets in hexadecimal, with colons between them.
pub open spec fn mac_short(m: MacAddr) -> Seq<char> {
    hex_byte(m.0[3]) + seq![':'] + hex_byte(m.0[4]) + seq![':'] + hex_byte(m.0[5])
}

impl MacAddr {
    /// The address in the first six bytes; `None` when there are fewer.
    pub fn from_bytes(bytes: &[u8]) -> (r: Option<Self>)
        ensures
            r == if bytes@.len() >= 6 {
                Some(mac_at(bytes@, 0))
            } else {
                None
            },
    {
        if bytes.len() < 6 {
            return None;
        }
        Some(MacAddr([bytes[0], bytes[1], bytes[2], bytes[3], bytes[4], bytes[5]]))
    }

    /// Short form for display in tight spaces: last 3 octets.
    pub fn short(&self) -> (r: String)
        ensures
            r@ == mac_short(*self),
    {
        proof {
            reveal_strlit(":");
        }
        let mut r = String::new();
        append_hex_byte(&mut r, self.0[3]);
        r.append(":");
        append_hex_byte(&mut r, self.0[4]);
        r.append(":");
        append_hex_byte(&mut r, self.0[5]);
        assert(r@ == mac_short(*self));
        r
    }

    /// The whole address for display.
    pub fn to_string(&self) -> (r: String)
        ensures
            r@ == mac_text(*self),
    {
        proof {
            reveal_strlit(":");
        }
        let mut r = String::new();
        append_hex_byte(&mut r, self.0[0]);
        r.append(":");
        append_hex_byte(&mut r, self.0[1]);
        r.append(":");
        append_hex_byte(&mut r, self.0[2]);
        r.append(":");
        append_hex_byte(&mut r, self.0[3]);
        r.append(":");
        append_hex_byte(&mut r, self.0[4]);
        r.append(":");
        append_hex_byte(&mut r, self.0[5]);
        assert(r@ == mac_text(*self));
        r
    }
}

// -- Numbers on the wire ----------------------------------------------------------------

/// A 16-bit number, low byte first.
pub open spec fn le16(lo: u8, hi: u8) -> u16 {
    (lo + 0x100 * hi) as u16
}

/// The two bytes of a 16-bit number, low byte first.
pub open spec fn le16_bytes(n: u16) -> Seq<u8> {
    seq![(n % 0x100) as u8, (n / 0x100) as u8]
}

/// The 32-bit number in the four bytes from `off` on, low byte first.
pub open spec fn le32_at(data: Seq<u8>, off: int) -> u32 {
    (data[off] + 0x100 * data[off + 1] + 0x1_0000 * data[off + 2] + 0x100_0000 * data[off
        + 3]) as u32
}

/// Reads a 16-bit number from its two bytes, low byte first.
pub fn read_le16(lo: u8, hi: u8) -> (r: u16)
    ensures
        r == le16(lo, hi),
{
    lo as u16 + 0x100 * hi as u16
}

/// Reads the 32-bit number at `off`, low byte first.
pub fn read_le32(data: &[u8], off: usize) -> (r: u32)
    requires
        off + 4 <= data@.len(),
    ensures
        r == le32_at(data@, off as int),
{
    data[off] as u32 + 0x100 * data[off + 1] as u32 + 0x1_0000 * data[off + 2] as u32 + 0x100_0000
        * data[off + 3] as u32
}

/// How many of `count` announced entries of `size` bytes are there in `room` bytes.
pub open spec fn complete_entries(count: int, room: int, size: int) -> int {
    if count * size <= room {
        count
    } else {
        room / size
    }
}

// -- Frames ---------------------------------------------------------------------------------

/// An Ethernet header.
pub open spec fn eth_header(dst: MacAddr, src: MacAddr, ethertype: [u8; 2]) -> Seq<u8> {
    dst.0@ + src.0@ + ethertype@
}

/// `f` filled up with zeros to the minimum frame size.
pub open spec fn padded(f: Seq<u8>) -> Seq<u8> {
    if f.len() < MIN_FRAME_SIZE {
        f + Seq::new((MIN_FRAME_SIZE - f.len()) as nat, |i: int| 0u8)
    } else {
        f
    }
}

/// A standard HomePlug AV frame with an empty message.
pub open spec fn hpav_frame(dst: MacAddr, src: MacAddr, mmtype: u16) -> Seq<u8> {
    padded(eth_header(dst, src, ETHERTYPE_HPAV) + seq![HPAV_MMV] + le16_bytes(mmtype))
}

/// A Qualcomm vendor frame with an empty message.
pub open spec fn qca_frame(dst: MacAddr, src: MacAddr, mmtype: u16) -> Seq<u8> {
    padded(
        eth_header(dst, src, ETHERTYPE_HPAV) + seq![HPAV_MMV] + le16_bytes(mmtype)
            + OUI_QUALCOMM@,
    )
}

/// A Mediaxtream frame: version, type, no fragmentation, OUI, sequence number
/// and message.
pub open spec fn bcm_frame(
    dst: MacAddr,
    src: MacAddr,
    mmtype: u16,
    seq: u8,
    payload: Seq<u8>,
) -> Seq<u8> {
    padded(
        eth_header(dst, src, ETHERTYPE_MEDIAXTREAM) + seq![MEDIAXTREAM_MMV] + le16_bytes(mmtype)
            + seq![0u8, 0u8] + OUI_BROADCOM@ + seq![seq] + payload,
    )
}

fn push_eth_header(f: &mut Vec<u8>, dst: MacAddr, src: MacAddr, ethertype: [u8; 2])
    ensures
        final(f)@ == old(f)@ + eth_header(dst, src, ethertype),
{
    f.extend_from_slice(&dst.0);
    f.extend_from_slice(&src.0);
    f.extend_from_slice(&ethertype);
    assert(f@ == old(f)@ + eth_header(dst, src, ethertype));
}

fn push_le16(f: &mut Vec<u8>, n: u16)
    ensures
        final(f)@ == old(f)@ + le16_bytes(n),
{
    f.push((n % 0x100) as u8);
    f.push((n / 0x100) as u8);
    assert(f@ == old(f)@ + le16_bytes(n));
}

fn pad(f: &mut Vec<u8>)
    ensures
        final(f)@ == padded(old(f)@),
{
    let ghost start = f@;
    if f.len() < MIN_FRAME_SIZE {
        f.resize(MIN_FRAME_SIZE, 0);
        assert(f@.subrange(0, start.len() as int) == start);
        assert(forall|i: int| 0 <= i < start.len() ==> f@[i] == f@.subrange(
            0,
            start.len() as int,
        )[i]);
        assert(f@ == padded(start));
    }
}

/// Build a standard HomePlug AV frame (EtherType 0x88E1).
pub fn build_hpav_frame(dst: MacAddr, src: MacAddr, mmtype: u16) -> (f: Vec<u8>)
    ensures
        f@ == hpav_frame(dst, src, mmtype),
{
    let mut f: Vec<u8> = Vec::with_capacity(MIN_FRAME_SIZE);
    push_eth_header(&mut f, dst, src, ETHERTYPE_HPAV);
    f.push(HPAV_MMV);
    push_le16(&mut f, mmtype);
    assert(f@ == eth_header(dst, src, ETHERTYPE_HPAV) + seq![HPAV_MMV] + le16_bytes(mmtype));
    pad(&mut f);
    f
}

/// Build a Qualcomm vendor-specific frame (EtherType 0x88E1 + OUI).
pub fn build_qca_frame(dst: MacAddr, src: MacAddr, mmtype: u16) -> (f: Vec<u8>)
    ensures
        f@ == qca_frame(dst, src, mmtype),
{
    let mut f: Vec<u8> = Vec::with_capacity(MIN_FRAME_SIZE);
    push_eth_header(&mut f, dst, src, ETHERTYPE_HPAV);
    f.push(HPAV_MMV);
    push_le16(&mut f, mmtype);
    f.extend_from_slice(&OUI_QUALCOMM);
    assert(f@ == eth_header(dst, src, ETHERTYPE_HPAV) + seq![HPAV_MMV] + le16_bytes(mmtype)
        + OUI_QUALCOMM@);
    pad(&mut f);
    f
}

/// Build a Broadcom Mediaxtream vendor-specific frame (EtherType 0x8912).
pub fn build_bcm_frame(
    dst: MacAddr,
    src: MacAddr,
    mmtype: u16,
    seq: u8,
    payload: &[u8],
) -> (f: Vec<u8>)
    ensures
        f@ == bcm_frame(dst, src, mmtype, seq, payload@),
{
    let mut f: Vec<u8> = Vec::with_capacity(MIN_FRAME_SIZE);
    push_eth_header(&mut f, dst, src, ETHERTYPE_MEDIAXTREAM);
    f.push(MEDIAXTREAM_MMV);
    push_le16(&mut f, mmtype);
    f.push(0x00);
    f.push(0x00);
    f.extend_from_slice(&OUI_BROADCOM);
    f.push(seq);
    f.extend_from_slice(payload);
    assert(f@ == eth_header(dst, src, ETHERTYPE_MEDIAXTREAM) + seq![MEDIAXTREAM_MMV] + le16_bytes(
        mmtype,
    ) + seq![0u8, 0u8] + OUI_BROADCOM@ + seq![seq] + payload@);
    pad(&mut f);
    f
}

// -- Header parsers -----------------------------------------------------------------------

/// Destination, source, EtherType and payload offset of an Ethernet frame.
pub open spec fn eth_of(data: Seq<u8>) -> Option<(MacAddr, MacAddr, [u8; 2], usize)> {
    if data.len() < 14 {
        None
    } else {
        Some((mac_at(data, 0), mac_at(data, 6), [data[12], data[13]], 14))
    }
}

/// Message type and payload offset of the standard header at `off`.
pub open spec fn hpav_of(data: Seq<u8>, off: int) -> Option<(u16, usize)> {
    if data.len() < off + 3 || data[off] != HPAV_MMV {
        None
    } else {
        Some((le16(data[off + 1], data[off + 2]), (off + 3) as usize))
    }
}

/// Message type, sequence number and payload offset of the Mediaxtream header
/// at `off`.
pub open spec fn bcm_of(data: Seq<u8>, off: int) -> Option<(u16, u8, usize)> {
    if data.len() < off + 9 || data[off] != MEDIAXTREAM_MMV {
        None
    } else {
        Some((le16(data[off + 1], data[off + 2]), data[off + 8], (off + 9) as usize))
    }
}

/// Parse Ethernet header → (dst, src, ethertype, payload_offset).
pub fn parse_eth(data: &[u8]) -> (r: Option<(MacAddr, MacAddr, [u8; 2], usize)>)
    ensures
        r == eth_of(data@),
{
    if data.len() < 14 {
        return None;
    }
    Some(
        (
            MacAddr([data[0], data[1], data[2], data[3], data[4], data[5]]),
            MacAddr([data[6], data[7], data[8], data[9], data[10], data[11]]),
            [data[12], data[13]],
            14,
        ),
    )
}

/// Parse standard HPAV MME header → (mmtype, payload_offset).
pub fn parse_hpav(data: &[u8], off: usize) -> (r: Option<(u16, usize)>)
    requires
        off + 3 <= usize::MAX,
    ensures
        r == hpav_of(data@, off as int),
{
    if data.len() < off + 3 || data[off] != HPAV_MMV {
        return None;
    }
    Some((read_le16(data[off + 1], data[off + 2]), off + 3))
}

/// Parse Mediaxtream header → (mmtype, seq, payload_offset).
pub fn parse_bcm_hdr(data: &[u8], off: usize) -> (r: Option<(u16, u8, usize)>)
    requires
        off + 9 <= usize::MAX,
    ensures
        r == bcm_of(data@, off as int),
{
    if data.len() < off + 9 || data[off] != MEDIAXTREAM_MMV {
        return None;
    }
    Some((read_le16(data[off + 1], data[off + 2]), data[off + 8], off + 9))
}

/// `data` is a frame with a standard message of type `mmtype`.
pub open spec fn is_hpav_message(data: Seq<u8>, mmtype: u16) -> bool {
    &&& eth_of(data) matches Some((_, _, ethertype, off))
    &&& ethertype == ETHERTYPE_HPAV
    &&& hpav_of(data, off as int) matches Some((found, _))
    &&& found == mmtype
}

/// `data` is a frame with a Mediaxtream message of type `mmtype`.
pub open spec fn is_bcm_message(data: Seq<u8>, mmtype: u16) -> bool {
    &&& eth_of(data) matches Some((_, _, ethertype, off))
    &&& ethertype == ETHERTYPE_MEDIAXTREAM
    &&& bcm_of(data, off as int) matches Some((found, _, _))
    &&& found == mmtype
}

fn same_ethertype(a: [u8; 2], b: [u8; 2]) -> (r: bool)
    ensures
        r == (a == b),
{
    let r = a[0] == b[0] && a[1] == b[1];
    assert(r ==> a =~= b);
    r
}

/// The source of `data`, where it is a standard message of type `mmtype`.
pub fn hpav_message(data: &[u8], mmtype: u16) -> (r: Option<MacAddr>)
    ensures
        r == if is_hpav_message(data@, mmtype) {
            Some(mac_at(data@, 6))
        } else {
            None
        },
        r is Some ==> data@.len() >= HPAV_PAYLOAD,
{
    match parse_eth(data) {
        Some((_dst, src, ethertype, off)) => {
            if !same_ethertype(ethertype, ETHERTYPE_HPAV) {
                return None;
            }
            match parse_hpav(data, off) {
                Some((found, _payload)) => if found == mmtype {
                    Some(src)
                } else {
                    None
                },
                None => None,
            }
        },
        None => None,
    }
}

/// The source of `data`, where it is a Mediaxtream message of type `mmtype`.
pub fn bcm_message(data: &[u8], mmtype: u16) -> (r: Option<MacAddr>)
    ensures
        r == if is_bcm_message(data@, mmtype) {
            Some(mac_at(data@, 6))
        } else {
            None
        },
        r is Some ==> data@.len() >= BCM_PAYLOAD,
{
    match parse_eth(data) {
        Some((_dst, src, ethertype, off)) => {
            if !same_ethertype(ethertype, ETHERTYPE_MEDIAXTREAM) {
                return None;
            }
            match parse_bcm_hdr(data, off) {
                Some((found, _seq, _payload)) => if found == mmtype {
                    Some(src)
                } else {
                    None
                },
                None => None,
            }
        },
        None => None,
    }
}

/// Reads the address at `off`.
pub fn read_mac(data: &[u8], off: usize) -> (r: MacAddr)
    requires
        off + 6 <= data@.len(),
    ensures
        r == mac_at(data@, off as int),
{
    MacAddr(
        [data[off], data[off + 1], data[off + 2], data[off + 3], data[off + 4], data[off + 5]],
    )
}

// -- Laws -------------------------------------------------------------------------------------

/// The octets of an address read back as that address.
pub proof fn law_octets_read_back(m: MacAddr)
    ensures
        mac_at(m.0@, 0) == m,
{
    assert(mac_at(m.0@, 0).0 =~= m.0);
}

/// The bytes of a 16-bit number read back as that number.
proof fn lemma_le16(n: u16)
    ensures
        le16(le16_bytes(n)[0], le16_bytes(n)[1]) == n,
{
}

/// A frame that begins with an Ethernet header reads back as that header says.
proof fn lemma_eth_header(f: Seq<u8>, dst: MacAddr, src: MacAddr, ethertype: [u8; 2])
    requires
        f.len() >= 14,
        f.take(14) == eth_header(dst, src, ethertype),
    ensures
        eth_of(f) == Some((dst, src, ethertype, 14usize)),
{
    let h = eth_header(dst, src, ethertype);
    assert(forall|i: int| 0 <= i < 14 ==> f[i] == f.take(14)[i]);
    assert forall|i: int| 0 <= i < 6 implies f[i] == dst.0@[i] && f[i + 6] == src.0@[i] by {
        assert(h[i] == dst.0@[i]);
        assert(h[i + 6] == src.0@[i]);
    }
    assert(h[12] == ethertype@[0] && h[13] == ethertype@[1]);
    assert(mac_at(f, 0).0 =~= dst.0);
    assert(mac_at(f, 6).0 =~= src.0);
    assert([f[12], f[13]] =~= ethertype);
}

/// A standard frame has the minimum size, and reads back as what it was built from.
pub proof fn law_hpav_frame_reads_back(dst: MacAddr, src: MacAddr, mmtype: u16, other: u16)
    ensures
        hpav_frame(dst, src, mmtype).len() == MIN_FRAME_SIZE,
        eth_of(hpav_frame(dst, src, mmtype)) == Some((dst, src, ETHERTYPE_HPAV, 14usize)),
        hpav_of(hpav_frame(dst, src, mmtype), 14) == Some((mmtype, HPAV_PAYLOAD)),
        is_hpav_message(hpav_frame(dst, src, mmtype), other) <==> other == mmtype,
{
    let f = hpav_frame(dst, src, mmtype);
    assert(f.take(14) == eth_header(dst, src, ETHERTYPE_HPAV));
    lemma_eth_header(f, dst, src, ETHERTYPE_HPAV);
    lemma_le16(mmtype);
    assert(f[14] == HPAV_MMV);
    assert(f[15] == le16_bytes(mmtype)[0] && f[16] == le16_bytes(mmtype)[1]);
}

/// A Qualcomm frame has the minimum size, and reads back as what it was built from,
/// with the OUI where the message begins.
pub proof fn law_qca_frame_reads_back(dst: MacAddr, src: MacAddr, mmtype: u16, other: u16)
    ensures
        qca_frame(dst, src, mmtype).len() == MIN_FRAME_SIZE,
        eth_of(qca_frame(dst, src, mmtype)) == Some((dst, src, ETHERTYPE_HPAV, 14usize)),
        hpav_of(qca_frame(dst, src, mmtype), 14) == Some((mmtype, HPAV_PAYLOAD)),
        qca_frame(dst, src, mmtype).subrange(HPAV_PAYLOAD as int, HPAV_PAYLOAD + 3)
            == OUI_QUALCOMM@,
        is_hpav_message(qca_frame(dst, src, mmtype), other) <==> other == mmtype,
{
    let f = qca_frame(dst, src, mmtype);
    assert(f.take(14) == eth_header(dst, src, ETHERTYPE_HPAV));
    lemma_eth_header(f, dst, src, ETHERTYPE_HPAV);
    lemma_le16(mmtype);
    assert(f[14] == HPAV_MMV);
    assert(f[15] == le16_bytes(mmtype)[0] && f[16] == le16_bytes(mmtype)[1]);
}

/// A Mediaxtream frame is no shorter than the minimum, and reads back as what it was
/// built from: addresses, message type, sequence number and message.
pub proof fn law_bcm_frame_reads_back(
    dst: MacAddr,
    src: MacAddr,
    mmtype: u16,
    seq: u8,
    payload: Seq<u8>,
    other: u16,
)
    ensures
        bcm_frame(dst, src, mmtype, seq, payload).len() == if BCM_PAYLOAD + payload.len()
            < MIN_FRAME_SIZE {
            MIN_FRAME_SIZE as int
        } else {
            BCM_PAYLOAD + payload.len()
        },
        eth_of(bcm_frame(dst, src, mmtype, seq, payload)) == Some(
            (dst, src, ETHERTYPE_MEDIAXTREAM, 14usize),
        ),
        bcm_of(bcm_frame(dst, src, mmtype, seq, payload), 14) == Some((mmtype, seq, BCM_PAYLOAD)),
        bcm_frame(dst, src, mmtype, seq, payload).subrange(
            BCM_PAYLOAD as int,
            BCM_PAYLOAD + payload.len(),
        ) == payload,
        is_bcm_message(bcm_frame(dst, src, mmtype, seq, payload), other) <==> other == mmtype,
{
    let f = bcm_frame(dst, src, mmtype, seq, payload);
    assert(f.take(14) == eth_header(dst, src, ETHERTYPE_MEDIAXTREAM));
    lemma_eth_header(f, dst, src, ETHERTYPE_MEDIAXTREAM);
    lemma_le16(mmtype);
    assert(f[14] == MEDIAXTREAM_MMV);
    assert(f[15] == le16_bytes(mmtype)[0] && f[16] == le16_bytes(mmtype)[1]);
    assert(f[22] == seq);
}

/// No frame is a standard and a Mediaxtream message at once.
pub proof fn law_protocols_are_told_apart(data: Seq<u8>, standard: u16, vendor: u16)
    ensures
        !(is_hpav_message(data, standard) && is_bcm_message(data, vendor)),
{
    assert(ETHERTYPE_HPAV[1] != ETHERTYPE_MEDIAXTREAM[1]);
}

/// A frame has one message type.
pub proof fn law_one_message_type(data: Seq<u8>, a: u16, b: u16)
    ensures
        is_hpav_message(data, a) && is_hpav_message(data, b) ==> a == b,
        is_bcm_message(data, a) && is_bcm_message(data, b) ==> a == b,
{
}

/// The octets of an address are those of the frame that it is read from, in order.
pub proof fn law_address_is_read_in_order(data: Seq<u8>, off: int, k: int)
    requires
        0 <= off <= data.len() - 6,
        0 <= k < 6,
    ensures
        mac_at(data, off).0@[k] == data[off + k],
        mac_at(data, off).0@ == data.subrange(off, off + 6),
{
    assert(mac_at(data, off).0@ =~= data.subrange(off, off + 6));
}

/// Two addresses are the same exactly if all their octets are.
pub proof fn law_addresses_differ_in_an_octet(a: MacAddr, b: MacAddr)
    ensures
        a == b <==> forall|k: int| 0 <= k < 6 ==> #[trigger] a.0@[k] == b.0@[k],
{
    if forall|k: int| 0 <= k < 6 ==> #[trigger] a.0@[k] == b.0@[k] {
        assert(a.0 =~= b.0);
    }
}

/// An address is written octet by octet, each as two digits, a colon before all but
/// the first; the short form is the end of the long one.
pub proof fn law_address_text(m: MacAddr, k: int)
    requires
        0 <= k < 6,
    ensures
        mac_text(m).len() == 17,
        mac_text(m).subrange(3 * k, 3 * k + 2) == hex_byte(m.0@[k]),
        k > 0 ==> mac_text(m)[3 * k - 1] == ':',
        mac_short(m).len() == 8,
        mac_short(m) == mac_text(m).skip(9),
{
    assert(mac_text(m).subrange(3 * k, 3 * k + 2) =~= hex_byte(m.0@[k]));
    assert(mac_short(m) =~= mac_text(m).skip(9));
}

/// Numbers on the wire have their low byte first.
pub proof fn law_low_byte_first(data: Seq<u8>, off: int, n: u16)
    requires
        0 <= off <= data.len() - 4,
    ensures
        le16(data[off], data[off + 1]) == data[off] + 256 * data[off + 1],
        le32_at(data, off) == data[off] + 256 * (data[off + 1] + 256 * (data[off + 2] + 256
            * data[off + 3])),
        le16_bytes(n).len() == 2,
        le16_bytes(n)[0] + 256 * le16_bytes(n)[1] == n,
{
}

/// Where everything stands in a standard request: the addresses, the EtherType 88E1,
/// the version 1 and the type of the message; and nothing behind it.
pub proof fn law_hpav_frame_bytes(dst: MacAddr, src: MacAddr, mmtype: u16)
    ensures
        hpav_frame(dst, src, mmtype).len() == 60,
        hpav_frame(dst, src, mmtype).subrange(0, 6) == dst.0@,
        hpav_frame(dst, src, mmtype).subrange(6, 12) == src.0@,
        hpav_frame(dst, src, mmtype).subrange(12, 15) == seq![0x88u8, 0xE1, 1],
        hpav_frame(dst, src, mmtype)[15] + 256 * hpav_frame(dst, src, mmtype)[16] == mmtype,
        forall|k: int| 17 <= k < 60 ==> #[trigger] hpav_frame(dst, src, mmtype)[k] == 0,
{
    let f = hpav_frame(dst, src, mmtype);
    assert(f.subrange(0, 6) =~= dst.0@);
    assert(f.subrange(6, 12) =~= src.0@);
    assert(f.subrange(12, 15) =~= seq![0x88u8, 0xE1, 1]);
    assert(f[15] == le16_bytes(mmtype)[0] && f[16] == le16_bytes(mmtype)[1]);
}

/// Where everything stands in a Qualcomm request: as in a standard one, with the OUI
/// 00:B0:52 behind the type of the message.
pub proof fn law_qca_frame_bytes(dst: MacAddr, src: MacAddr, mmtype: u16)
    ensures
        qca_frame(dst, src, mmtype).len() == 60,
        qca_frame(dst, src, mmtype).subrange(0, 6) == dst.0@,
        qca_frame(dst, src, mmtype).subrange(6, 12) == src.0@,
        qca_frame(dst, src, mmtype).subrange(12, 15) == seq![0x88u8, 0xE1, 1],
        qca_frame(dst, src, mmtype)[15] + 256 * qca_frame(dst, src, mmtype)[16] == mmtype,
        qca_frame(dst, src, mmtype).subrange(17, 20) == seq![0x00u8, 0xB0, 0x52],
        forall|k: int| 20 <= k < 60 ==> #[trigger] qca_frame(dst, src, mmtype)[k] == 0,
{
    let f = qca_frame(dst, src, mmtype);
    assert(f.subrange(0, 6) =~= dst.0@);
    assert(f.subrange(6, 12) =~= src.0@);
    assert(f.subrange(12, 15) =~= seq![0x88u8, 0xE1, 1]);
    assert(f[15] == le16_bytes(mmtype)[0] && f[16] == le16_bytes(mmtype)[1]);
    assert(f.subrange(17, 20) =~= seq![0x00u8, 0xB0, 0x52]);
}

/// Where everything stands in a Mediaxtream frame: the addresses, the EtherType 8912,
/// the version 2, the type of the message, two zeros, the OUI 00:1F:84, the sequence
/// number, the message; and zeros up to the minimum size.
pub proof fn law_bcm_frame_bytes(
    dst: MacAddr,
    src: MacAddr,
    mmtype: u16,
    seq: u8,
    payload: Seq<u8>,
)
    ensures
        bcm_frame(dst, src, mmtype, seq, payload).len() >= 60,
        bcm_frame(dst, src, mmtype, seq, payload).subrange(0, 6) == dst.0@,
        bcm_frame(dst, src, mmtype, seq, payload).subrange(6, 12) == src.0@,
        bcm_frame(dst, src, mmtype, seq, payload).subrange(12, 15) == seq![0x89u8, 0x12, 2],
        bcm_frame(dst, src, mmtype, seq, payload)[15] + 256 * bcm_frame(
            dst,
            src,
            mmtype,
            seq,
            payload,
        )[16] == mmtype,
        bcm_frame(dst, src, mmtype, seq, payload).subrange(17, 22) == seq![
            0x00u8,
            0x00,
            0x00,
            0x1F,
            0x84,
        ],
        bcm_frame(dst, src, mmtype, seq, payload)[22] == seq,
        bcm_frame(dst, src, mmtype, seq, payload).subrange(23, 23int + payload.len()) == payload,
        forall|k: int|
            23 + payload.len() <= k < bcm_frame(dst, src, mmtype, seq, payload).len()
                ==> #[trigger] bcm_frame(dst, src, mmtype, seq, payload)[k] == 0,
{
    let f = bcm_frame(dst, src, mmtype, seq, payload);
    assert(f.subrange(0, 6) =~= dst.0@);
    assert(f.subrange(6, 12) =~= src.0@);
    assert(f.subrange(12, 15) =~= seq![0x89u8, 0x12, 2]);
    assert(f[15] == le16_bytes(mmtype)[0] && f[16] == le16_bytes(mmtype)[1]);
    assert(f.subrange(17, 22) =~= seq![0x00u8, 0x00, 0x00, 0x1F, 0x84]);
    assert(f[22] == seq);
    assert(f.subrange(23, 23int + payload.len()) =~= payload);
}

/// A message is known by its EtherType, its version and its type, wherever it comes
/// from and whatever it says.
pub proof fn law_messages_are_known_by_their_header(data: Seq<u8>, mmtype: u16)
    ensures
        is_hpav_message(data, mmtype) <==> data.len() >= 17 && data[12] == 0x88 && data[13] == 0xE1
            && data[14] == 1 && data[15] + 256 * data[16] == mmtype,
        is_bcm_message(data, mmtype) <==> data.len() >= 23 && data[12] == 0x89 && data[13] == 0x12
            && data[14] == 2 && data[15] + 256 * data[16] == mmtype,
{
    if data.len() >= 14 {
        let found = [data[12], data[13]];
        if data[12] == 0x88 && data[13] == 0xE1 {
            assert(found =~= ETHERTYPE_HPAV);
        }
        if data[12] == 0x89 && data[13] == 0x12 {
            assert(found =~= ETHERTYPE_MEDIAXTREAM);
        }
        assert(found[0] == data[12] && found[1] == data[13]);
        assert(ETHERTYPE_HPAV[0] == 0x88 && ETHERTYPE_HPAV[1] == 0xE1);
        assert(ETHERTYPE_MEDIAXTREAM[0] == 0x89 && ETHERTYPE_MEDIAXTREAM[1] == 0x12);
    }
}

/// Two addresses have one short form exactly if their last three octets are the same.
pub proof fn law_short_forms(a: MacAddr, b: MacAddr)
    ensures
        mac_short(a) == mac_short(b) <==> a.0@.skip(3) == b.0@.skip(3),
{
    let s = mac_short(a);
    let t = mac_short(b);
    assert(s.subrange(0, 2) =~= hex_byte(a.0[3]));
    assert(s.subrange(3, 5) =~= hex_byte(a.0[4]));
    assert(s.subrange(6, 8) =~= hex_byte(a.0[5]));
    assert(t.subrange(0, 2) =~= hex_byte(b.0[3]));
    assert(t.subrange(3, 5) =~= hex_byte(b.0[4]));
    assert(t.subrange(6, 8) =~= hex_byte(b.0[5]));
    if s == t {
        law_hex_byte(a.0[3], b.0[3]);
        law_hex_byte(a.0[4], b.0[4]);
        law_hex_byte(a.0[5], b.0[5]);
        assert(a.0@.skip(3) =~= b.0@.skip(3));
    }
    if a.0@.skip(3) == b.0@.skip(3) {
        assert(a.0@.skip(3)[0] == a.0@[3] && b.0@.skip(3)[0] == b.0@[3]);
        assert(a.0@.skip(3)[1] == a.0@[4] && b.0@.skip(3)[1] == b.0@[4]);
        assert(a.0@.skip(3)[2] == a.0@[5] && b.0@.skip(3)[2] == b.0@[5]);
        assert(s =~= t);
    }
}

/// What the headers of a frame say, by the bytes in them.
pub proof fn law_headers(data: Seq<u8>, off: int)
    requires
        0 <= off,
        off + 9 <= usize::MAX,
    ensures
        eth_of(data) is Some <==> data.len() >= 14,
        eth_of(data) matches Some((dst, src, ethertype, at)) ==> dst.0@ == data.subrange(0, 6)
            && src.0@ == data.subrange(6, 12) && ethertype@ == data.subrange(12, 14) && at == 14,
        hpav_of(data, off) is Some <==> data.len() >= off + 3 && data[off] == 1,
        hpav_of(data, off) matches Some((mmtype, at)) ==> mmtype == data[off + 1] + 256 * data[off
            + 2] && at == off + 3,
        bcm_of(data, off) is Some <==> data.len() >= off + 9 && data[off] == 2,
        bcm_of(data, off) matches Some((mmtype, seq, at)) ==> mmtype == data[off + 1] + 256
            * data[off + 2] && seq == data[off + 8] && at == off + 9,
{
    if data.len() >= 14 {
        law_address_is_read_in_order(data, 0, 0);
        law_address_is_read_in_order(data, 6, 0);
        assert([data[12], data[13]]@ =~= data.subrange(12, 14));
    }
}

}
