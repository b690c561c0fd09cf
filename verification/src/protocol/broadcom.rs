//! Broadcom Mediaxtream vendor-specific messages (EtherType 0x8912, OUI 00:1F:84).
//! Reverse-engineered from pla-util and packet captures.

use super::{
    bcm_frame, bcm_message, build_bcm_frame, complete_entries, is_bcm_message,
    law_address_is_read_in_order, le16, le32_at, mac_at, read_le16, read_le32, read_mac, MacAddr, BCM_PAYLOAD,
};
use vstd::prelude::*;
use vstd::string::*;

verus! {

pub const BCM_NW_INFO_REQ: u16 = 0xA028;

pub const BCM_NW_INFO_CNF: u16 = 0xA029;

pub const BCM_NW_STATS_REQ: u16 = 0xA02C;

pub const BCM_NW_STATS_CNF: u16 = 0xA02D;

pub const BCM_STA_INFO_REQ: u16 = 0xA04C;

pub const BCM_STA_INFO_CNF: u16 = 0xA04D;

pub const BCM_STA_RESTART_REQ: u16 = 0xA020;

pub const BCM_STA_RESTART_CNF: u16 = 0xA021;

// -- Result types ------------------------------------------------------------------

#[derive(Debug, Clone, Copy, PartialEq, Eq, Structural)]
pub enum SignalType {
    Siso1,
    Siso2,
    Mimo,
    SisoOnly,
}

/// The name under which a signal type is shown.
pub open spec fn signal_name(s: SignalType) -> Seq<char> {
    match s {
        SignalType::Siso1 => "SISO"@,
        SignalType::Siso2 => "SISO2"@,
        SignalType::Mimo => "MIMO"@,
        SignalType::SisoOnly => "SISO"@,
    }
}

impl SignalType {
    /// The name for display.
    pub fn to_string(&self) -> (r: String)
        ensures
            r@ == signal_name(*self),
    {
        match self {
            SignalType::Siso1 => String::from_str("SISO"),
            SignalType::Siso2 => String::from_str("SISO2"),
            SignalType::Mimo => String::from_str("MIMO"),
            SignalType::SisoOnly => String::from_str("SISO"),
        }
    }
}

#[derive(Debug, Clone, Copy)]
pub struct BcmLinkRate {
    pub mac: MacAddr,
    pub tx_mbps: u16,
    pub rx_mbps: u16,
    pub tx_signal: SignalType,
    pub rx_signal: SignalType,
}

#[derive(Debug, Clone, Copy)]
pub struct BcmStationInfo {
    pub chip_version: u32,
    pub hardware_version: u32,
    pub firmware_svn: u32,
    pub uptime_secs: u32,
}

// -- Builders ------------------------------------------------------------------------

pub fn build_nw_stats_req(dst: MacAddr, src: MacAddr, seq: u8) -> (f: Vec<u8>)
    ensures
        f@ == bcm_frame(dst, src, BCM_NW_STATS_REQ, seq, Seq::empty()),
{
    build_request(dst, src, BCM_NW_STATS_REQ, seq)
}

pub fn build_nw_info_req(dst: MacAddr, src: MacAddr, seq: u8) -> (f: Vec<u8>)
    ensures
        f@ == bcm_frame(dst, src, BCM_NW_INFO_REQ, seq, Seq::empty()),
{
    build_request(dst, src, BCM_NW_INFO_REQ, seq)
}

pub fn build_sta_info_req(dst: MacAddr, src: MacAddr, seq: u8) -> (f: Vec<u8>)
    ensures
        f@ == bcm_frame(dst, src, BCM_STA_INFO_REQ, seq, Seq::empty()),
{
    build_request(dst, src, BCM_STA_INFO_REQ, seq)
}

pub fn build_sta_restart_req(dst: MacAddr, src: MacAddr, seq: u8) -> (f: Vec<u8>)
    ensures
        f@ == bcm_frame(dst, src, BCM_STA_RESTART_REQ, seq, Seq::empty()),
{
    build_request(dst, src, BCM_STA_RESTART_REQ, seq)
}

/// A request whose message is empty.
fn build_request(dst: MacAddr, src: MacAddr, mmtype: u16, seq: u8) -> (f: Vec<u8>)
    ensures
        f@ == bcm_frame(dst, src, mmtype, seq, Seq::empty()),
{
    let empty: Vec<u8> = Vec::new();
    build_bcm_frame(dst, src, mmtype, seq, empty.as_slice())
}

// -- What the messages say -----------------------------------------------------------

/// The rate in Mbps of a rate word: bits 0 to 10.
pub open spec fn rate_of(w: u16) -> u16 {
    w % 0x800
}

/// The signal type of a rate word: bits 12 and 13.
pub open spec fn signal_of(w: u16) -> SignalType {
    let bits = w / 0x1000 % 4;
    if bits == 0 {
        SignalType::Siso1
    } else if bits == 1 {
        SignalType::Siso2
    } else if bits == 2 {
        SignalType::Mimo
    } else {
        SignalType::SisoOnly
    }
}

/// The link entry at `off`: address, TX rate word, RX rate word.
pub open spec fn link_rate_at(data: Seq<u8>, off: int) -> BcmLinkRate {
    let tx = le16(data[off + 6], data[off + 7]);
    let rx = le16(data[off + 8], data[off + 9]);
    BcmLinkRate {
        mac: mac_at(data, off),
        tx_mbps: rate_of(tx),
        rx_mbps: rate_of(rx),
        tx_signal: signal_of(tx),
        rx_signal: signal_of(rx),
    }
}

/// How many link entries a NW_STATS.CNF holds: those that it announces, as far
/// as the frame holds them whole.
pub open spec fn link_rate_count(data: Seq<u8>) -> int {
    if data.len() <= BCM_PAYLOAD {
        0
    } else {
        complete_entries(data[BCM_PAYLOAD as int] as int, data.len() - (BCM_PAYLOAD + 1), 10)
    }
}

/// The link rates that a NW_STATS.CNF lists.
pub open spec fn link_rates_of(data: Seq<u8>) -> Seq<BcmLinkRate> {
    Seq::new(
        link_rate_count(data) as nat,
        |i: int| link_rate_at(data, BCM_PAYLOAD + 1 + 10 * i),
    )
}

/// What a STA_INFO.CNF says of the station. The uptime is 0 where the frame is
/// too short to hold it.
pub open spec fn station_info_of(data: Seq<u8>) -> BcmStationInfo {
    let p = BCM_PAYLOAD as int;
    BcmStationInfo {
        chip_version: le32_at(data, p),
        hardware_version: le32_at(data, p + 4),
        firmware_svn: le32_at(data, p + 8),
        uptime_secs: if data.len() >= p + 48 {
            le32_at(data, p + 44)
        } else {
            0
        },
    }
}

/// `m` can be the address of one station: not zero, not broadcast, not multicast.
pub open spec fn is_station_address(m: MacAddr) -> bool {
    &&& m.0@ != seq![0u8, 0, 0, 0, 0, 0]
    &&& m.0@ != seq![0xFFu8, 0xFF, 0xFF, 0xFF, 0xFF, 0xFF]
    &&& m.0[0] % 2 == 0
}

/// The station addresses in the first `n` six-byte windows of `payload`, each
/// where it first occurs.
pub open spec fn macs_in_windows(payload: Seq<u8>, n: int) -> Seq<MacAddr>
    decreases n,
{
    if n <= 0 {
        Seq::empty()
    } else {
        let before = macs_in_windows(payload, n - 1);
        let m = mac_at(payload, n - 1);
        if is_station_address(m) && !before.contains(m) {
            before.push(m)
        } else {
            before
        }
    }
}

/// The station addresses that occur anywhere in `payload`.
pub open spec fn macs_in(payload: Seq<u8>) -> Seq<MacAddr> {
    macs_in_windows(payload, payload.len() - 5)
}

// -- Parsers ---------------------------------------------------------------------------

/// Splits a rate word into the rate in Mbps and the signal type.
pub fn parse_rate_word(w: u16) -> (r: (u16, SignalType))
    ensures
        r == (rate_of(w), signal_of(w)),
{
    assert(w & 0x07FF == w % 0x800) by (bit_vector);
    assert((w >> 12) & 0x03 == w / 0x1000 % 4) by (bit_vector);
    let rate = w & 0x07FF;
    let sig = match (w >> 12) & 0x03 {
        0 => SignalType::Siso1,
        1 => SignalType::Siso2,
        2 => SignalType::Mimo,
        _ => SignalType::SisoOnly,
    };
    (rate, sig)
}

/// Parse BCM NW_STATS.CNF — per-station link rates from responder's perspective.
pub fn parse_nw_stats_cnf(data: &[u8]) -> (r: Option<(MacAddr, Vec<BcmLinkRate>)>)
    ensures
        r is Some == is_bcm_message(data@, BCM_NW_STATS_CNF),
        r matches Some((src, rates)) ==> src == mac_at(data@, 6) && rates@ == link_rates_of(data@),
{
    let src = match bcm_message(data, BCM_NW_STATS_CNF) {
        Some(src) => src,
        None => {
            return None;
        },
    };
    let mut rates: Vec<BcmLinkRate> = Vec::new();
    if data.len() <= BCM_PAYLOAD {
        assert(rates@ == link_rates_of(data@));
        return Some((src, rates));
    }
    let num = data[BCM_PAYLOAD] as usize;
    let mut off: usize = BCM_PAYLOAD + 1;
    let mut i: usize = 0;
    while i < num && data.len() - off >= 10
        invariant
            i <= num,
            off == BCM_PAYLOAD + 1 + 10 * i,
            off <= data@.len(),
            num == data@[BCM_PAYLOAD as int],
            rates@.len() == i,
            forall|k: int|
                0 <= k < i ==> rates@[k] == link_rate_at(data@, BCM_PAYLOAD + 1 + 10 * k),
        decreases num - i,
    {
        let mac = read_mac(data, off);
        let (tx_mbps, tx_signal) = parse_rate_word(read_le16(data[off + 6], data[off + 7]));
        let (rx_mbps, rx_signal) = parse_rate_word(read_le16(data[off + 8], data[off + 9]));
        rates.push(BcmLinkRate { mac, tx_mbps, rx_mbps, tx_signal, rx_signal });
        off += 10;
        i += 1;
    }
    assert(rates@ == link_rates_of(data@));
    Some((src, rates))
}

/// Parse BCM NW_INFO.CNF — returns responder MAC and raw payload for inspection.
pub fn parse_nw_info_cnf(data: &[u8]) -> (r: Option<(MacAddr, Vec<u8>)>)
    ensures
        r is Some == is_bcm_message(data@, BCM_NW_INFO_CNF),
        r matches Some((src, payload)) ==> src == mac_at(data@, 6) && payload@ == data@.skip(
            BCM_PAYLOAD as int,
        ),
{
    match bcm_message(data, BCM_NW_INFO_CNF) {
        Some(src) => {
            let payload = vstd::slice::slice_to_vec(
                vstd::slice::slice_subrange(data, BCM_PAYLOAD, data.len()),
            );
            assert(payload@ == data@.skip(BCM_PAYLOAD as int));
            Some((src, payload))
        },
        None => None,
    }
}

/// `macs` holds `m`.
pub fn holds_mac(macs: &Vec<MacAddr>, m: MacAddr) -> (r: bool)
    ensures
        r == macs@.contains(m),
{
    let mut i: usize = 0;
    while i < macs.len()
        invariant
            i <= macs.len(),
            forall|k: int| 0 <= k < i ==> macs@[k] != m,
        decreases macs.len() - i,
    {
        if macs[i] == m {
            return true;
        }
        i += 1;
    }
    false
}

/// Extract MAC addresses found in a raw NW_INFO payload by scanning for
/// 6-byte sequences that look like unicast, non-zero MACs.
pub fn extract_macs_from_payload(payload: &[u8]) -> (macs: Vec<MacAddr>)
    ensures
        macs@ == macs_in(payload@),
{
    let mut macs: Vec<MacAddr> = Vec::new();
    if payload.len() < 6 {
        return macs;
    }
    let windows: usize = payload.len() - 5;
    let mut i: usize = 0;
    while i < windows
        invariant
            i <= windows,
            windows == payload@.len() - 5,
            macs@ == macs_in_windows(payload@, i as int),
        decreases windows - i,
    {
        let m = read_mac(payload, i);
        let first = m.0[0];
        assert((first & 1 == 0) == (first % 2 == 0)) by (bit_vector);
        let zero = first == 0 && m.0[1] == 0 && m.0[2] == 0 && m.0[3] == 0 && m.0[4] == 0
            && m.0[5] == 0;
        assert(zero == (m.0@ =~= seq![0u8, 0, 0, 0, 0, 0]));
        let ones = first == 0xFF && m.0[1] == 0xFF && m.0[2] == 0xFF && m.0[3] == 0xFF && m.0[4]
            == 0xFF && m.0[5] == 0xFF;
        assert(ones == (m.0@ =~= seq![0xFFu8, 0xFF, 0xFF, 0xFF, 0xFF, 0xFF]));
        if !zero && !ones && first & 1 == 0 && !holds_mac(&macs, m) {
            macs.push(m);
        }
        i += 1;
    }
    macs
}

/// Parse BCM STA_INFO.CNF — chip/firmware metadata.
pub fn parse_sta_info_cnf(data: &[u8]) -> (r: Option<BcmStationInfo>)
    ensures
        r == if is_bcm_message(data@, BCM_STA_INFO_CNF) && data@.len() >= BCM_PAYLOAD + 16 {
            Some(station_info_of(data@))
        } else {
            None
        },
{
    let p = BCM_PAYLOAD;
    if bcm_message(data, BCM_STA_INFO_CNF).is_none() || data.len() < p + 16 {
        return None;
    }
    Some(
        BcmStationInfo {
            chip_version: read_le32(data, p),
            hardware_version: read_le32(data, p + 4),
            firmware_svn: read_le32(data, p + 8),
            // Uptime is deep in the response; offset varies by firmware. Best-effort.
            uptime_secs: if data.len() >= p + 48 {
                read_le32(data, p + 44)
            } else {
                0
            },
        },
    )
}

/// The adapter that acknowledges a restart with `data`.
pub fn bcm_restart_ack(data: &[u8]) -> (r: Option<MacAddr>)
    ensures
        r == if is_bcm_message(data@, BCM_STA_RESTART_CNF) {
            Some(mac_at(data@, 6))
        } else {
            None
        },
{
    bcm_message(data, BCM_STA_RESTART_CNF)
}

// -- Laws -------------------------------------------------------------------------------

/// A NW_STATS.CNF never lists more than it announces, and no entry beyond its end.
pub proof fn law_link_rates_are_whole(data: Seq<u8>)
    ensures
        data.len() <= BCM_PAYLOAD ==> link_rates_of(data).len() == 0,
        data.len() > BCM_PAYLOAD ==> {
            &&& link_rates_of(data).len() <= data[BCM_PAYLOAD as int]
            &&& BCM_PAYLOAD + 1 + 10 * link_rates_of(data).len() <= data.len()
            &&& link_rates_of(data).len() < data[BCM_PAYLOAD as int] ==> data.len() < BCM_PAYLOAD
                + 1 + 10 * (link_rates_of(data).len() + 1)
        },
{
}

/// A rate is below 2048 Mbps, and a rate word is told by its rate, its signal type
/// and the three bits that mean nothing.
pub proof fn law_rate_word(w: u16)
    ensures
        rate_of(w) < 0x800,
        w == rate_of(w) + 0x800 * (w / 0x800 % 2) + 0x1000 * (w / 0x1000 % 4) + 0x4000 * (w
            / 0x4000),
{
}

proof fn lemma_macs_in_windows(payload: Seq<u8>, n: int, m: MacAddr)
    ensures
        macs_in_windows(payload, n).no_duplicates(),
        macs_in_windows(payload, n).contains(m) <==> is_station_address(m) && exists|i: int|
            0 <= i < n && #[trigger] mac_at(payload, i) == m,
    decreases n,
{
    if n > 0 {
        lemma_macs_in_windows(payload, n - 1, m);
        let before = macs_in_windows(payload, n - 1);
        let found = mac_at(payload, n - 1);
        let now = macs_in_windows(payload, n);
        if is_station_address(found) && !before.contains(found) {
            assert(now[before.len() as int] == found);
            if before.contains(m) {
                let k = choose|k: int| 0 <= k < before.len() && before[k] == m;
                assert(now[k] == m);
            }
            assert forall|i: int, j: int|
                0 <= i < now.len() && 0 <= j < now.len() && i != j implies now[i] != now[j] by {
                if i < before.len() && j < before.len() {
                    assert(before[i] != before[j]);
                } else if i < before.len() {
                    assert(before.contains(before[i]));
                } else {
                    assert(before.contains(before[j]));
                }
            }
        }
        if exists|i: int| 0 <= i < n && #[trigger] mac_at(payload, i) == m {
            let i = choose|i: int| 0 <= i < n && #[trigger] mac_at(payload, i) == m;
            if i < n - 1 {
                assert(mac_at(payload, i) == m);
            } else {
                assert(found == m);
                if is_station_address(m) && before.contains(found) {
                    assert(now == before);
                }
            }
        }
    }
}

/// The addresses found in a payload are the station addresses that occur in it: all
/// of them, each once, and nothing else.
pub proof fn law_addresses_in_payload(payload: Seq<u8>, m: MacAddr)
    ensures
        macs_in(payload).no_duplicates(),
        macs_in(payload).contains(m) <==> is_station_address(m) && exists|i: int|
            0 <= i <= payload.len() - 6 && #[trigger] mac_at(payload, i) == m,
{
    lemma_macs_in_windows(payload, payload.len() - 5, m);
}

/// A shorter payload holds no address.
pub proof fn law_short_payload(payload: Seq<u8>)
    requires
        payload.len() < 6,
    ensures
        macs_in(payload).len() == 0,
{
}

/// What a NW_STATS.CNF says of a link stands in ten bytes: the address of the other
/// end, the TX word, the RX word. The rate is the low eleven bits of its word, the
/// signal type the bits 12 and 13.
pub proof fn law_link_rate_fields(data: Seq<u8>, i: int)
    requires
        0 <= i < link_rates_of(data).len(),
    ensures
        ({
            let off = 24 + 10 * i;
            let rate = link_rates_of(data)[i];
            let tx = data[off + 6] + 256 * data[off + 7];
            let rx = data[off + 8] + 256 * data[off + 9];
            &&& off + 10 <= data.len()
            &&& rate.mac.0@ == data.subrange(off, off + 6)
            &&& rate.tx_mbps == tx % 2048
            &&& rate.rx_mbps == rx % 2048
            &&& rate.tx_signal is Siso1 <==> tx / 4096 % 4 == 0
            &&& rate.tx_signal is Siso2 <==> tx / 4096 % 4 == 1
            &&& rate.tx_signal is Mimo <==> tx / 4096 % 4 == 2
            &&& rate.tx_signal is SisoOnly <==> tx / 4096 % 4 == 3
            &&& rate.rx_signal is Siso1 <==> rx / 4096 % 4 == 0
            &&& rate.rx_signal is Siso2 <==> rx / 4096 % 4 == 1
            &&& rate.rx_signal is Mimo <==> rx / 4096 % 4 == 2
            &&& rate.rx_signal is SisoOnly <==> rx / 4096 % 4 == 3
        }),
{
    law_link_rates_are_whole(data);
    law_address_is_read_in_order(data, 24 + 10 * i, 0);
}

/// The name of a signal type tells one stream from several.
pub proof fn law_signal_names(s: SignalType)
    ensures
        signal_name(s) == "MIMO"@ <==> s is Mimo,
        signal_name(s) == "SISO2"@ <==> s is Siso2,
        signal_name(s) == "SISO"@ <==> s is Siso1 || s is SisoOnly,
{
    reveal_strlit("SISO");
    reveal_strlit("SISO2");
    reveal_strlit("MIMO");
    assert("SISO"@.len() == 4 && "SISO2"@.len() == 5 && "MIMO"@[0] == 'M' && "SISO"@[0] == 'S');
}

/// What a STA_INFO.CNF says of a station stands in numbers of four bytes.
pub proof fn law_station_info_fields(data: Seq<u8>)
    requires
        data.len() >= 39,
    ensures
        station_info_of(data).chip_version == le32_at(data, 23),
        station_info_of(data).hardware_version == le32_at(data, 27),
        station_info_of(data).firmware_svn == le32_at(data, 31),
        data.len() >= 71 ==> station_info_of(data).uptime_secs == le32_at(data, 67),
        data.len() < 71 ==> station_info_of(data).uptime_secs == 0,
{
}

/// An address stands for a station unless it is zero or stands for many: the lowest
/// bit of its first octet marks those.
pub proof fn law_station_addresses(m: MacAddr)
    ensures
        is_station_address(m) <==> m.0@[0] % 2 == 0 && exists|k: int|
            0 <= k < 6 && #[trigger] m.0@[k] != 0,
{
    if m.0@ == seq![0u8, 0, 0, 0, 0, 0] {
        assert(forall|k: int| 0 <= k < 6 ==> #[trigger] m.0@[k] == 0);
    } else {
        if forall|k: int| 0 <= k < 6 ==> #[trigger] m.0@[k] == 0 {
            assert(m.0@ =~= seq![0u8, 0, 0, 0, 0, 0]);
        }
        if m.0@ == seq![0xFFu8, 0xFF, 0xFF, 0xFF, 0xFF, 0xFF] {
            assert(m.0@[0] == 0xFF);
        }
    }
}

}
