//! Standard HomePlug AV messages (EtherType 0x88E1, no vendor OUI).
//! These work on all compliant chipsets (Qualcomm, Broadcom, etc.).

use super::{
    build_hpav_frame, complete_entries, hpav_frame, hpav_message, is_hpav_message,
    law_address_is_read_in_order, mac_at, read_mac, MacAddr, HPAV_PAYLOAD, MAC_BROADCAST,
};
use vstd::prelude::*;

verus! {

pub const CC_DISCOVER_LIST_REQ: u16 = 0x0014;

pub const CC_DISCOVER_LIST_CNF: u16 = 0x0015;

pub const CM_NW_STATS_REQ: u16 = 0x6048;

pub const CM_NW_STATS_CNF: u16 = 0x6049;

#[derive(Debug, Clone, Copy)]
pub struct DiscoveredStation {
    pub mac: MacAddr,
    pub tei: u8,
    pub same_network: bool,
    pub snid: u8,
    pub is_cco: bool,
}

// -- Builders --------------------------------------------------------------------

pub fn build_discover_list_req(src: MacAddr) -> (f: Vec<u8>)
    ensures
        f@ == hpav_frame(MacAddr(MAC_BROADCAST), src, CC_DISCOVER_LIST_REQ),
{
    build_hpav_frame(MacAddr(MAC_BROADCAST), src, CC_DISCOVER_LIST_REQ)
}

pub fn build_nw_stats_req(dst: MacAddr, src: MacAddr) -> (f: Vec<u8>)
    ensures
        f@ == hpav_frame(dst, src, CM_NW_STATS_REQ),
{
    build_hpav_frame(dst, src, CM_NW_STATS_REQ)
}

// -- What the messages say -------------------------------------------------------

/// The station entry at `off`: address, TEI, same-network flag, SNID, flags of
/// which the lowest bit marks the coordinator, signal level.
pub open spec fn station_at(data: Seq<u8>, off: int) -> DiscoveredStation {
    DiscoveredStation {
        mac: mac_at(data, off),
        tei: data[off + 6],
        same_network: data[off + 7] != 0,
        snid: data[off + 8],
        is_cco: data[off + 9] % 2 == 1,
    }
}

/// How many entries of `size` bytes follow the count byte of a standard message:
/// those that it announces, as far as the frame holds them whole.
pub open spec fn entry_count(data: Seq<u8>, size: int) -> int {
    if data.len() <= HPAV_PAYLOAD {
        0
    } else {
        complete_entries(
            data[HPAV_PAYLOAD as int] as int,
            data.len() - (HPAV_PAYLOAD + 1),
            size,
        )
    }
}

/// The stations that a CC_DISCOVER_LIST.CNF lists.
pub open spec fn stations_of(data: Seq<u8>) -> Seq<DiscoveredStation> {
    Seq::new(
        entry_count(data, 11) as nat,
        |i: int| station_at(data, HPAV_PAYLOAD + 1 + 11 * i),
    )
}

/// The rates that a CM_NW_STATS.CNF lists: address, TX and RX in Mbps.
pub open spec fn stats_of(data: Seq<u8>) -> Seq<(MacAddr, u8, u8)> {
    Seq::new(
        entry_count(data, 8) as nat,
        |i: int|
            {
                let off = HPAV_PAYLOAD + 1 + 8 * i;
                (mac_at(data, off), data[off + 6], data[off + 7])
            },
    )
}

// -- Parsers -----------------------------------------------------------------------

/// Parse a CC_DISCOVER_LIST.CNF frame.
/// Returns (source_mac_of_responder, list_of_discovered_stations).
pub fn parse_discover_list_cnf(data: &[u8]) -> (r: Option<(MacAddr, Vec<DiscoveredStation>)>)
    ensures
        r is Some == is_hpav_message(data@, CC_DISCOVER_LIST_CNF),
        r matches Some((src, stations)) ==> src == mac_at(data@, 6) && stations@ == stations_of(
            data@,
        ),
{
    let src = match hpav_message(data, CC_DISCOVER_LIST_CNF) {
        Some(src) => src,
        None => {
            return None;
        },
    };
    let mut stations: Vec<DiscoveredStation> = Vec::new();
    if data.len() <= HPAV_PAYLOAD {
        assert(stations@ == stations_of(data@));
        return Some((src, stations));
    }
    let num = data[HPAV_PAYLOAD] as usize;
    let mut off: usize = HPAV_PAYLOAD + 1;
    let mut i: usize = 0;
    while i < num && data.len() - off >= 11
        invariant
            i <= num,
            off == HPAV_PAYLOAD + 1 + 11 * i,
            off <= data@.len(),
            num == data@[HPAV_PAYLOAD as int],
            stations@.len() == i,
            forall|k: int|
                0 <= k < i ==> stations@[k] == station_at(data@, HPAV_PAYLOAD + 1 + 11 * k),
        decreases num - i,
    {
        let flags = data[off + 9];
        assert((flags & 0x01 != 0) == (flags % 2 == 1)) by (bit_vector);
        stations.push(
            DiscoveredStation {
                mac: read_mac(data, off),
                tei: data[off + 6],
                same_network: data[off + 7] != 0,
                snid: data[off + 8],
                is_cco: flags & 0x01 != 0,
            },
        );
        off += 11;
        i += 1;
    }
    assert(stations@ == stations_of(data@));
    Some((src, stations))
}

/// Parse CM_NW_STATS.CNF — returns per-station (mac, tx_mbps, rx_mbps).
/// Note: standard message uses 1-byte rates (max 255 Mbps). For higher rates,
/// use vendor-specific messages.
pub fn parse_nw_stats_cnf(data: &[u8]) -> (r: Option<Vec<(MacAddr, u8, u8)>>)
    ensures
        r is Some == is_hpav_message(data@, CM_NW_STATS_CNF),
        r matches Some(stats) ==> stats@ == stats_of(data@),
{
    if hpav_message(data, CM_NW_STATS_CNF).is_none() {
        return None;
    }
    let mut stats: Vec<(MacAddr, u8, u8)> = Vec::new();
    if data.len() <= HPAV_PAYLOAD {
        assert(stats@ == stats_of(data@));
        return Some(stats);
    }
    let num = data[HPAV_PAYLOAD] as usize;
    let mut off: usize = HPAV_PAYLOAD + 1;
    let mut i: usize = 0;
    while i < num && data.len() - off >= 8
        invariant
            i <= num,
            off == HPAV_PAYLOAD + 1 + 8 * i,
            off <= data@.len(),
            num == data@[HPAV_PAYLOAD as int],
            stats@.len() == i,
            i <= entry_count(data@, 8),
            forall|k: int| 0 <= k < i ==> stats@[k] == stats_of(data@)[k],
        decreases num - i,
    {
        stats.push((read_mac(data, off), data[off + 6], data[off + 7]));
        off += 8;
        i += 1;
    }
    assert(stats@ == stats_of(data@));
    Some(stats)
}

// -- Laws ----------------------------------------------------------------------------

/// A list of entries of `size` bytes never has more of them than it announces, none
/// beyond the end of the frame, and every one that is announced and there.
proof fn lemma_entries_are_whole(data: Seq<u8>, size: int)
    requires
        size == 8 || size == 11,
    ensures
        entry_count(data, size) >= 0,
        data.len() <= HPAV_PAYLOAD ==> entry_count(data, size) == 0,
        data.len() > HPAV_PAYLOAD ==> {
            &&& entry_count(data, size) <= data[HPAV_PAYLOAD as int]
            &&& HPAV_PAYLOAD + 1 + size * entry_count(data, size) <= data.len()
            &&& entry_count(data, size) < data[HPAV_PAYLOAD as int] ==> data.len() < HPAV_PAYLOAD
                + 1 + size * (entry_count(data, size) + 1)
        },
{
}

/// A CC_DISCOVER_LIST.CNF never lists more stations than it announces, none beyond
/// the end of the frame, and every one that is announced and there.
pub proof fn law_stations_are_whole(data: Seq<u8>)
    ensures
        data.len() <= HPAV_PAYLOAD ==> stations_of(data).len() == 0,
        data.len() > HPAV_PAYLOAD ==> {
            &&& stations_of(data).len() <= data[HPAV_PAYLOAD as int]
            &&& HPAV_PAYLOAD + 1 + 11 * stations_of(data).len() <= data.len()
            &&& stations_of(data).len() < data[HPAV_PAYLOAD as int] ==> data.len() < HPAV_PAYLOAD
                + 1 + 11 * (stations_of(data).len() + 1)
        },
{
    lemma_entries_are_whole(data, 11);
}

/// A CM_NW_STATS.CNF never lists more rates than it announces, none beyond the end of
/// the frame, and every one that is announced and there; no rate exceeds 255 Mbps.
pub proof fn law_stats_are_whole(data: Seq<u8>)
    ensures
        data.len() <= HPAV_PAYLOAD ==> stats_of(data).len() == 0,
        data.len() > HPAV_PAYLOAD ==> {
            &&& stats_of(data).len() <= data[HPAV_PAYLOAD as int]
            &&& HPAV_PAYLOAD + 1 + 8 * stats_of(data).len() <= data.len()
            &&& stats_of(data).len() < data[HPAV_PAYLOAD as int] ==> data.len() < HPAV_PAYLOAD + 1
                + 8 * (stats_of(data).len() + 1)
        },
        forall|i: int|
            0 <= i < stats_of(data).len() ==> (#[trigger] stats_of(data)[i]).1 <= 255
                && stats_of(data)[i].2 <= 255,
{
    lemma_entries_are_whole(data, 8);
}

/// What a CC_DISCOVER_LIST.CNF says of a station stands in eleven bytes: address,
/// TEI, whether it is in the same network, SNID, and flags whose lowest bit marks the
/// coordinator.
pub proof fn law_station_fields(data: Seq<u8>, i: int)
    requires
        0 <= i < stations_of(data).len(),
    ensures
        ({
            let off = 18 + 11 * i;
            let station = stations_of(data)[i];
            &&& off + 11 <= data.len()
            &&& station.mac.0@ == data.subrange(off, off + 6)
            &&& station.tei == data[off + 6]
            &&& station.same_network <==> data[off + 7] != 0
            &&& station.snid == data[off + 8]
            &&& station.is_cco <==> data[off + 9] % 2 == 1
        }),
{
    law_stations_are_whole(data);
    law_address_is_read_in_order(data, 18 + 11 * i, 0);
}

/// What a CM_NW_STATS.CNF says of a link stands in eight bytes: address, TX, RX.
pub proof fn law_stats_fields(data: Seq<u8>, i: int)
    requires
        0 <= i < stats_of(data).len(),
    ensures
        ({
            let off = 18 + 8 * i;
            let stats = stats_of(data)[i];
            &&& off + 8 <= data.len()
            &&& stats.0.0@ == data.subrange(off, off + 6)
            &&& stats.1 == data[off + 6]
            &&& stats.2 == data[off + 7]
        }),
{
    law_stats_are_whole(data);
    law_address_is_read_in_order(data, 18 + 8 * i, 0);
}

}
