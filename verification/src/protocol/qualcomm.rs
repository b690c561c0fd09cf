//! Qualcomm/Atheros vendor-specific messages (EtherType 0x88E1, OUI 00:B0:52).
//! Not yet tried on QCA hardware.

use super::{
    build_qca_frame, complete_entries, hpav_message, is_hpav_message, law_address_is_read_in_order,
    mac_at, qca_frame, read_mac, MacAddr,
};
use vstd::prelude::*;

verus! {

pub const VS_NW_INFO_REQ: u16 = 0xA038;

pub const VS_NW_INFO_CNF: u16 = 0xA039;

pub const VS_SW_VER_REQ: u16 = 0xA000;

pub const VS_SW_VER_CNF: u16 = 0xA001;

/// The octets of the QCA local-management address — all QCA devices on the
/// local segment respond to it.
pub const QCA_LOCALCAST: [u8; 6] = [0x00, 0xB0, 0x52, 0x00, 0x00, 0x01];

/// Where the message of a vendor frame begins: after the 3-byte OUI.
pub const QCA_PAYLOAD: usize = 20;

#[derive(Debug, Clone, Copy)]
pub struct QcaStation {
    pub mac: MacAddr,
    pub tei: u8,
    pub avg_tx_mbps: u16,
    pub avg_rx_mbps: u16,
}

#[derive(Debug, Clone)]
pub struct QcaNetwork {
    pub nid: [u8; 7],
    pub snid: u8,
    pub tei: u8,
    pub role: u8,
    pub cco_mac: MacAddr,
    pub stations: Vec<QcaStation>,
}

/// A network as the message describes it.
pub struct QcaNetworkView {
    pub nid: Seq<u8>,
    pub snid: u8,
    pub tei: u8,
    pub role: u8,
    pub cco_mac: MacAddr,
    pub stations: Seq<QcaStation>,
}

impl View for QcaNetwork {
    type V = QcaNetworkView;

    open spec fn view(&self) -> QcaNetworkView {
        QcaNetworkView {
            nid: self.nid@,
            snid: self.snid,
            tei: self.tei,
            role: self.role,
            cco_mac: self.cco_mac,
            stations: self.stations@,
        }
    }
}

// -- Builders ------------------------------------------------------------------------

pub fn build_nw_info_req(dst: MacAddr, src: MacAddr) -> (f: Vec<u8>)
    ensures
        f@ == qca_frame(dst, src, VS_NW_INFO_REQ),
{
    build_qca_frame(dst, src, VS_NW_INFO_REQ)
}

pub fn build_sw_ver_req(dst: MacAddr, src: MacAddr) -> (f: Vec<u8>)
    ensures
        f@ == qca_frame(dst, src, VS_SW_VER_REQ),
{
    build_qca_frame(dst, src, VS_SW_VER_REQ)
}

// -- What the messages say -------------------------------------------------------------

/// The station entry at `off`: address, TEI, bridged address, TX, RX.
pub open spec fn qca_station_at(data: Seq<u8>, off: int) -> QcaStation {
    QcaStation {
        mac: mac_at(data, off),
        tei: data[off + 6],
        avg_tx_mbps: data[off + 13] as u16,
        avg_rx_mbps: data[off + 14] as u16,
    }
}

/// How many of the stations that the network entry at `off` announces the frame
/// holds whole.
pub open spec fn station_count(data: Seq<u8>, off: int) -> int {
    complete_entries(data[off + 17] as int, data.len() - (off + 18), 15)
}

/// The network entry at `off`: NID, SNID, TEI, role, coordinator address and
/// TEI, station count, stations.
pub open spec fn network_at(data: Seq<u8>, off: int) -> QcaNetworkView {
    QcaNetworkView {
        nid: data.subrange(off, off + 7),
        snid: data[off + 7],
        tei: data[off + 8],
        role: data[off + 9],
        cco_mac: mac_at(data, off + 10),
        stations: Seq::new(
            station_count(data, off) as nat,
            |i: int| qca_station_at(data, off + 18 + 15 * i),
        ),
    }
}

/// At most `count` network entries from `off` on, as far as the frame holds
/// their heads whole.
pub open spec fn networks_at(data: Seq<u8>, off: int, count: int) -> Seq<QcaNetworkView>
    decreases count,
{
    if count <= 0 || off + 18 > data.len() {
        Seq::empty()
    } else {
        seq![network_at(data, off)] + networks_at(
            data,
            off + 18 + 15 * station_count(data, off),
            count - 1,
        )
    }
}

/// The networks that a VS_NW_INFO.CNF lists.
pub open spec fn networks_of(data: Seq<u8>) -> Seq<QcaNetworkView> {
    if data.len() <= QCA_PAYLOAD {
        Seq::empty()
    } else {
        networks_at(data, QCA_PAYLOAD + 1, data[QCA_PAYLOAD as int] as int)
    }
}

/// The networks of a parsed list.
pub open spec fn network_views(networks: Seq<QcaNetwork>) -> Seq<QcaNetworkView> {
    networks.map_values(|n: QcaNetwork| n@)
}

// -- Parser -----------------------------------------------------------------------------

/// Reads the network entry at `off`; returns it with the offset behind it.
fn parse_network(data: &[u8], off: usize) -> (r: (QcaNetwork, usize))
    requires
        off + 18 <= data@.len(),
    ensures
        r.0@ == network_at(data@, off as int),
        r.1 == off + 18 + 15 * station_count(data@, off as int),
        r.1 <= data@.len(),
{
    let nid = [
        data[off],
        data[off + 1],
        data[off + 2],
        data[off + 3],
        data[off + 4],
        data[off + 5],
        data[off + 6],
    ];
    let num_stas = data[off + 17] as usize;
    let mut stations: Vec<QcaStation> = Vec::new();
    let mut at: usize = off + 18;
    let mut i: usize = 0;
    // v1: 6 (MAC) + 1 (TEI) + 6 (BDA) + 1 (TX) + 1 (RX) = 15 bytes
    while i < num_stas && data.len() - at >= 15
        invariant
            off + 18 <= data@.len(),
            i <= num_stas,
            at == off + 18 + 15 * i,
            at <= data@.len(),
            num_stas == data@[off + 17],
            stations@.len() == i,
            forall|k: int|
                0 <= k < i ==> stations@[k] == qca_station_at(data@, off + 18 + 15 * k),
        decreases num_stas - i,
    {
        stations.push(
            QcaStation {
                mac: read_mac(data, at),
                tei: data[at + 6],
                avg_tx_mbps: data[at + 13] as u16,
                avg_rx_mbps: data[at + 14] as u16,
            },
        );
        at += 15;
        i += 1;
    }
    let network = QcaNetwork {
        nid,
        snid: data[off + 7],
        tei: data[off + 8],
        role: data[off + 9],
        cco_mac: read_mac(data, off + 10),
        stations,
    };
    assert(network@.nid == network_at(data@, off as int).nid);
    assert(network@.stations == network_at(data@, off as int).stations);
    (network, at)
}

/// Parse VS_NW_INFO.CNF — returns networks with per-station PHY rates.
/// Rates are read from the 1-byte fields of the v1 format.
pub fn parse_nw_info_cnf(data: &[u8]) -> (r: Option<Vec<QcaNetwork>>)
    ensures
        r is Some == is_hpav_message(data@, VS_NW_INFO_CNF),
        r matches Some(networks) ==> network_views(networks@) == networks_of(data@),
{
    if hpav_message(data, VS_NW_INFO_CNF).is_none() {
        return None;
    }
    let mut networks: Vec<QcaNetwork> = Vec::new();
    if data.len() <= QCA_PAYLOAD {
        assert(network_views(networks@) == networks_of(data@));
        return Some(networks);
    }
    let num_nets = data[QCA_PAYLOAD] as usize;
    let mut off: usize = QCA_PAYLOAD + 1;
    let mut i: usize = 0;
    assert(network_views(networks@) + networks_at(data@, off as int, num_nets as int)
        == networks_of(data@));
    while i < num_nets && data.len() - off >= 18
        invariant
            i <= num_nets,
            off <= data@.len(),
            network_views(networks@) + networks_at(data@, off as int, num_nets - i) == networks_of(
                data@,
            ),
        decreases num_nets - i,
    {
        let ghost before = networks@;
        let (network, next) = parse_network(data, off);
        networks.push(network);
        assert(network_views(networks@) == network_views(before).push(network@));
        assert(network_views(before) + (seq![network@] + networks_at(
            data@,
            next as int,
            num_nets - i - 1,
        )) == network_views(networks@) + networks_at(data@, next as int, num_nets - i - 1));
        off = next;
        i += 1;
    }
    assert(network_views(networks@) == networks_of(data@));
    Some(networks)
}

// -- Laws ---------------------------------------------------------------------------------

/// The bytes that a list of networks takes.
pub open spec fn networks_size(networks: Seq<QcaNetworkView>) -> int
    decreases networks.len(),
{
    if networks.len() == 0 {
        0
    } else {
        18 + 15 * networks[0].stations.len() + networks_size(networks.skip(1))
    }
}

proof fn lemma_networks_are_whole(data: Seq<u8>, off: int, count: int)
    requires
        0 <= off <= data.len(),
        0 <= count,
    ensures
        networks_at(data, off, count).len() <= count,
        off + networks_size(networks_at(data, off, count)) <= data.len(),
    decreases count,
{
    let networks = networks_at(data, off, count);
    if count > 0 && off + 18 <= data.len() {
        let n = station_count(data, off);
        let next = off + 18 + 15 * n;
        assert(0 <= n && next <= data.len());
        lemma_networks_are_whole(data, next, count - 1);
        assert(networks[0] == network_at(data, off));
        assert(networks.skip(1) == networks_at(data, next, count - 1));
    }
}

/// A VS_NW_INFO.CNF never lists more networks than it announces, and no network or
/// station beyond the end of the frame.
pub proof fn law_networks_are_whole(data: Seq<u8>)
    ensures
        data.len() <= QCA_PAYLOAD ==> networks_of(data).len() == 0,
        data.len() > QCA_PAYLOAD ==> {
            &&& networks_of(data).len() <= data[QCA_PAYLOAD as int]
            &&& QCA_PAYLOAD + 1 + networks_size(networks_of(data)) <= data.len()
        },
{
    if data.len() > QCA_PAYLOAD {
        lemma_networks_are_whole(data, QCA_PAYLOAD + 1, data[QCA_PAYLOAD as int] as int);
    }
}

/// What a VS_NW_INFO.CNF says of a network stands in eighteen bytes and its stations
/// behind them, in fifteen each; the next network follows the last of these.
pub proof fn law_network_fields(data: Seq<u8>, off: int, count: int)
    requires
        0 <= off,
        off + 18 <= data.len(),
        count > 0,
    ensures
        ({
            let network = networks_at(data, off, count)[0];
            &&& networks_at(data, off, count).len() > 0
            &&& network.nid == data.subrange(off, off + 7)
            &&& network.snid == data[off + 7]
            &&& network.tei == data[off + 8]
            &&& network.role == data[off + 9]
            &&& network.cco_mac.0@ == data.subrange(off + 10, off + 16)
            &&& network.stations.len() <= data[off + 17]
            &&& off + 18 + 15 * network.stations.len() <= data.len()
            &&& network.stations.len() < data[off + 17] ==> data.len() < off + 18 + 15 * (
            network.stations.len() + 1)
            &&& networks_at(data, off, count).skip(1) == networks_at(
                data,
                off + 18 + 15 * network.stations.len(),
                count - 1,
            )
        }),
{
    let all = networks_at(data, off, count);
    assert(all[0] == network_at(data, off));
    law_address_is_read_in_order(data, off + 10, 0);
    assert(all.skip(1) =~= networks_at(data, off + 18 + 15 * station_count(data, off), count - 1));
}

/// What it says of a station: address, TEI, and behind a bridged address its TX and RX
/// rates.
pub proof fn law_qca_station_fields(data: Seq<u8>, off: int, i: int)
    requires
        0 <= off,
        off + 18 <= data.len(),
        0 <= i < network_at(data, off).stations.len(),
    ensures
        ({
            let at = off + 18 + 15 * i;
            let station = network_at(data, off).stations[i];
            &&& at + 15 <= data.len()
            &&& station.mac.0@ == data.subrange(at, at + 6)
            &&& station.tei == data[at + 6]
            &&& station.avg_tx_mbps == data[at + 13]
            &&& station.avg_rx_mbps == data[at + 14]
        }),
{
    law_address_is_read_in_order(data, off + 18 + 15 * i, 0);
}

/// The list of networks begins behind the OUI and the count, and has an entry for each
/// that is announced, as far as the frame reaches.
pub proof fn law_networks_begin(data: Seq<u8>)
    ensures
        data.len() > 20 ==> networks_of(data) == networks_at(data, 21, data[20] as int),
        data.len() > 39 && data[20] > 0 ==> networks_of(data).len() > 0,
{
}

}
