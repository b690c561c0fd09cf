//! Scan orchestration: discover stations, query link rates, build the result.
//!
//! A scan alternates between sending a request and listening for its answer. The
//! scanner decides; whoever drives it sends the frames, hands back what is
//! received and says when the time to listen is over.

use crate::clock::{Instant, Timestamp};
use crate::protocol::broadcom::{
    self, link_rates_of, signal_name, BcmLinkRate, BCM_NW_STATS_CNF, BCM_NW_STATS_REQ,
};
use crate::protocol::standard::{
    self, stations_of, stats_of, DiscoveredStation, CC_DISCOVER_LIST_CNF, CC_DISCOVER_LIST_REQ,
    CM_NW_STATS_CNF, CM_NW_STATS_REQ,
};
use crate::protocol::{
    bcm_frame, hpav_frame, is_bcm_message, is_hpav_message, law_address_is_read_in_order,
    law_bcm_frame_bytes, law_bcm_frame_reads_back, law_hpav_frame_bytes,
    law_hpav_frame_reads_back, law_messages_are_known_by_their_header, mac_at, MacAddr,
    MAC_BROADCAST,
};
use crate::types::{
    device_views, link_views, Chipset, Device, DeviceView, Link, LinkView, NetworkScan, ScanView,
};
use vstd::prelude::*;
use vstd::string::*;

verus! {

/// Seconds to listen for the answer to a discovery.
pub const DISCOVER_WAIT_SECS: u64 = 3;

/// Seconds to listen for the answer to a query of link rates.
pub const STATS_WAIT_SECS: u64 = 2;

// -- Links ---------------------------------------------------------------------------

/// The link from `from` that a rate entry describes.
pub open spec fn measured_link(from: MacAddr, r: BcmLinkRate) -> LinkView {
    LinkView {
        from,
        to: r.mac,
        tx_mbps: r.tx_mbps,
        rx_mbps: r.rx_mbps,
        tx_signal: signal_name(r.tx_signal),
        rx_signal: signal_name(r.rx_signal),
    }
}

/// The links from `from` that a list of rates describes.
pub open spec fn measured_links(from: MacAddr, rates: Seq<BcmLinkRate>) -> Seq<LinkView> {
    Seq::new(rates.len(), |i: int| measured_link(from, rates[i]))
}

/// The links from `from` that a list of standard statistics describes: rates of one
/// byte and no signal type.
pub open spec fn standard_links(from: MacAddr, stats: Seq<(MacAddr, u8, u8)>) -> Seq<LinkView> {
    Seq::new(
        stats.len(),
        |i: int|
            LinkView {
                from,
                to: stats[i].0,
                tx_mbps: stats[i].1 as u16,
                rx_mbps: stats[i].2 as u16,
                tx_signal: Seq::empty(),
                rx_signal: Seq::empty(),
            },
    )
}

fn push_measured_links(links: &mut Vec<Link>, from: MacAddr, rates: &Vec<BcmLinkRate>)
    ensures
        link_views(final(links)@) == link_views(old(links)@) + measured_links(from, rates@),
{
    let ghost start = link_views(links@);
    let ghost all = measured_links(from, rates@);
    let mut i: usize = 0;
    assert(link_views(links@) == start + all.take(0));
    while i < rates.len()
        invariant
            i <= rates.len(),
            all == measured_links(from, rates@),
            link_views(links@) == start + all.take(i as int),
        decreases rates.len() - i,
    {
        let r = rates[i];
        let link = Link {
            from,
            to: r.mac,
            tx_mbps: r.tx_mbps,
            rx_mbps: r.rx_mbps,
            tx_signal: r.tx_signal.to_string(),
            rx_signal: r.rx_signal.to_string(),
        };
        let ghost before = links@;
        links.push(link);
        assert(link@ == all[i as int]);
        assert(link_views(links@) == link_views(before).push(link@));
        assert(all.take(i + 1) == all.take(i as int).push(all[i as int]));
        i += 1;
    }
    assert(all.take(i as int) == all);
}

fn push_standard_links(links: &mut Vec<Link>, from: MacAddr, stats: &Vec<(MacAddr, u8, u8)>)
    ensures
        link_views(final(links)@) == link_views(old(links)@) + standard_links(from, stats@),
{
    let ghost start = link_views(links@);
    let ghost all = standard_links(from, stats@);
    let mut i: usize = 0;
    assert(link_views(links@) == start + all.take(0));
    while i < stats.len()
        invariant
            i <= stats.len(),
            all == standard_links(from, stats@),
            link_views(links@) == start + all.take(i as int),
        decreases stats.len() - i,
    {
        let (mac, tx, rx) = stats[i];
        let link = Link {
            from,
            to: mac,
            tx_mbps: tx as u16,
            rx_mbps: rx as u16,
            tx_signal: String::new(),
            rx_signal: String::new(),
        };
        let ghost before = links@;
        links.push(link);
        assert(link@ == all[i as int]);
        assert(link_views(links@) == link_views(before).push(link@));
        assert(all.take(i + 1) == all.take(i as int).push(all[i as int]));
        i += 1;
    }
    assert(all.take(i as int) == all);
}

// -- Devices --------------------------------------------------------------------------

/// A device of which no more than this is known.
pub open spec fn bare_device(
    mac: MacAddr,
    is_local: bool,
    is_cco: bool,
    chipset: Chipset,
) -> DeviceView {
    DeviceView {
        mac,
        model: Seq::empty(),
        firmware: Seq::empty(),
        is_local,
        is_cco,
        chipset,
    }
}

/// One of the devices has the address `mac`.
pub open spec fn lists_mac(devices: Seq<DeviceView>, mac: MacAddr) -> bool {
    exists|i: int| 0 <= i < devices.len() && (#[trigger] devices[i]).mac == mac
}

/// `devices`, with a remote device `mac` added if no device has that address.
pub open spec fn with_remote(
    devices: Seq<DeviceView>,
    mac: MacAddr,
    is_cco: bool,
    chipset: Chipset,
) -> Seq<DeviceView> {
    if lists_mac(devices, mac) {
        devices
    } else {
        devices.push(bare_device(mac, false, is_cco, chipset))
    }
}

/// `devices`, with the discovered stations added.
pub open spec fn with_stations(
    devices: Seq<DeviceView>,
    stations: Seq<DiscoveredStation>,
    chipset: Chipset,
) -> Seq<DeviceView>
    decreases stations.len(),
{
    if stations.len() == 0 {
        devices
    } else {
        with_remote(
            with_stations(devices, stations.drop_last(), chipset),
            stations.last().mac,
            stations.last().is_cco,
            chipset,
        )
    }
}

/// `devices`, with both ends of every link added.
pub open spec fn with_endpoints(
    devices: Seq<DeviceView>,
    links: Seq<LinkView>,
    chipset: Chipset,
) -> Seq<DeviceView>
    decreases links.len(),
{
    if links.len() == 0 {
        devices
    } else {
        with_remote(
            with_remote(
                with_endpoints(devices, links.drop_last(), chipset),
                links.last().from,
                false,
                chipset,
            ),
            links.last().to,
            false,
            chipset,
        )
    }
}

/// The devices of a network: the local adapter, then the discovered stations, then
/// those that only the links show.
pub open spec fn network_devices(
    local: MacAddr,
    stations: Seq<DiscoveredStation>,
    links: Seq<LinkView>,
    chipset: Chipset,
) -> Seq<DeviceView> {
    with_endpoints(
        with_stations(seq![bare_device(local, true, false, chipset)], stations, chipset),
        links,
        chipset,
    )
}

fn add_remote(devices: &mut Vec<Device>, mac: MacAddr, is_cco: bool, chipset: Chipset)
    ensures
        device_views(final(devices)@) == with_remote(
            device_views(old(devices)@),
            mac,
            is_cco,
            chipset,
        ),
{
    let ghost start = device_views(devices@);
    let mut i: usize = 0;
    while i < devices.len()
        invariant
            i <= devices.len(),
            start == device_views(devices@),
            forall|k: int| 0 <= k < i ==> (#[trigger] start[k]).mac != mac,
            devices == old(devices),
        decreases devices.len() - i,
    {
        assert(start[i as int] == devices@[i as int]@);
        if devices[i].mac == mac {
            assert(lists_mac(start, mac));
            return;
        }
        i += 1;
    }
    assert(!lists_mac(start, mac));
    let d = Device {
        mac,
        model: String::new(),
        firmware: String::new(),
        is_local: false,
        is_cco,
        chipset,
    };
    let ghost before = devices@;
    devices.push(d);
    assert(d@ == bare_device(mac, false, is_cco, chipset));
    assert(device_views(devices@) == device_views(before).push(d@));
}

/// Build the device list of a network.
pub fn build_devices(
    local: MacAddr,
    stations: &Vec<DiscoveredStation>,
    links: &Vec<Link>,
    chipset: Chipset,
) -> (r: Vec<Device>)
    ensures
        device_views(r@) == network_devices(local, stations@, link_views(links@), chipset),
{
    let first = Device {
        mac: local,
        model: String::new(),
        firmware: String::new(),
        is_local: true,
        is_cco: false,
        chipset,
    };
    let mut devices: Vec<Device> = Vec::new();
    devices.push(first);
    let ghost base = seq![bare_device(local, true, false, chipset)];
    assert(first@ == base[0]);
    assert(device_views(devices@) == base);
    let mut i: usize = 0;
    assert(stations@.take(0).len() == 0);
    while i < stations.len()
        invariant
            i <= stations.len(),
            device_views(devices@) == with_stations(base, stations@.take(i as int), chipset),
        decreases stations.len() - i,
    {
        assert(stations@.take(i + 1).drop_last() == stations@.take(i as int));
        add_remote(&mut devices, stations[i].mac, stations[i].is_cco, chipset);
        i += 1;
    }
    assert(stations@.take(i as int) == stations@);
    let ghost known = device_views(devices@);
    let ghost ends = link_views(links@);
    let mut j: usize = 0;
    assert(ends.take(0).len() == 0);
    while j < links.len()
        invariant
            j <= links.len(),
            ends == link_views(links@),
            device_views(devices@) == with_endpoints(known, ends.take(j as int), chipset),
        decreases links.len() - j,
    {
        assert(ends.take(j + 1).drop_last() == ends.take(j as int));
        assert(ends[j as int] == links@[j as int]@);
        add_remote(&mut devices, links[j].from, false, chipset);
        add_remote(&mut devices, links[j].to, false, chipset);
        j += 1;
    }
    assert(ends.take(j as int) == ends);
    devices
}

// -- The course of a scan ----------------------------------------------------------------

/// Where a scan is: waiting for the answer to the discovery, to the n-th query of
/// link rates, to the standard query that is tried when no link was measured; or
/// over, with nothing found, with links measured, or with what the standard query
/// gave.
#[derive(Debug, Clone, Copy, PartialEq, Eq, Structural)]
pub enum Stage {
    Discover,
    Query(usize),
    Fallback,
    Nothing,
    Measured,
    FellBack,
}

/// A scan under way.
pub struct ScanRun {
    pub stage: Stage,
    pub local: MacAddr,
    pub discovered: Vec<DiscoveredStation>,
    pub links: Vec<Link>,
}

pub struct RunView {
    pub stage: Stage,
    pub local: MacAddr,
    pub discovered: Seq<DiscoveredStation>,
    pub links: Seq<LinkView>,
}

impl View for ScanRun {
    type V = RunView;

    open spec fn view(&self) -> RunView {
        RunView {
            stage: self.stage,
            local: self.local,
            discovered: self.discovered@,
            links: link_views(self.links@),
        }
    }
}

/// What to do next.
pub enum Step {
    /// Go on listening: the frame was not an answer.
    Listen,
    /// Send the frame and listen for so many seconds.
    Send { frame: Vec<u8>, wait_secs: u64 },
    /// The scan is over.
    Finished,
}

impl RunView {
    /// Queries go to the local adapter and to every discovered station.
    pub open spec fn valid(self) -> bool {
        self.stage matches Stage::Query(n) ==> n <= self.discovered.len()
    }

    /// The scan is over.
    pub open spec fn over(self) -> bool {
        self.stage is Nothing || self.stage is Measured || self.stage is FellBack
    }

    /// Whom the n-th query asks: first the local adapter, then each discovered
    /// station.
    pub open spec fn target(self, n: int) -> MacAddr {
        if n == 0 {
            self.local
        } else {
            self.discovered[n - 1].mac
        }
    }

    pub open spec fn at(self, stage: Stage) -> RunView {
        RunView { stage, ..self }
    }

    /// The n-th query is done: on to the next station; after the last one the scan is
    /// over, unless no link was measured.
    pub open spec fn after_query(self, n: int) -> RunView {
        if n < self.discovered.len() {
            self.at(Stage::Query((n + 1) as usize))
        } else if self.links.len() == 0 {
            self.at(Stage::Fallback)
        } else {
            self.at(Stage::Measured)
        }
    }

    /// `data` answers what the scan is waiting for.
    pub open spec fn answers(self, data: Seq<u8>) -> bool {
        match self.stage {
            Stage::Discover => is_hpav_message(data, CC_DISCOVER_LIST_CNF),
            Stage::Query(_) => is_bcm_message(data, BCM_NW_STATS_CNF),
            Stage::Fallback => is_hpav_message(data, CM_NW_STATS_CNF),
            _ => false,
        }
    }

    /// The scan after `data` was received.
    pub open spec fn after_frame(self, data: Seq<u8>) -> RunView {
        if !self.answers(data) {
            self
        } else {
            match self.stage {
                Stage::Discover => RunView {
                    stage: Stage::Query(0),
                    local: mac_at(data, 6),
                    discovered: stations_of(data),
                    links: Seq::empty(),
                },
                Stage::Query(n) => (RunView {
                    links: self.links + measured_links(self.target(n as int), link_rates_of(data)),
                    ..self
                }).after_query(n as int),
                _ => RunView {
                    stage: Stage::FellBack,
                    links: self.links + standard_links(self.local, stats_of(data)),
                    ..self
                },
            }
        }
    }

    /// The scan after the time to listen has passed without an answer.
    pub open spec fn after_timeout(self) -> RunView {
        match self.stage {
            Stage::Discover => self.at(Stage::Nothing),
            Stage::Query(n) => self.after_query(n as int),
            Stage::Fallback => self.at(Stage::FellBack),
            _ => self,
        }
    }

    /// The request that the scan has to send on reaching its stage, from the address
    /// `host` and with the sequence number `seq`.
    pub open spec fn request(self, host: MacAddr, seq: u8) -> Seq<u8> {
        match self.stage {
            Stage::Discover => hpav_frame(MacAddr(MAC_BROADCAST), host, CC_DISCOVER_LIST_REQ),
            Stage::Query(n) => bcm_frame(
                self.target(n as int),
                host,
                BCM_NW_STATS_REQ,
                seq,
                Seq::empty(),
            ),
            _ => hpav_frame(self.local, host, CM_NW_STATS_REQ),
        }
    }

    /// What a scan that is over has found.
    pub open spec fn outcome(self, iface: Seq<char>, timestamp: Instant) -> ScanView {
        match self.stage {
            Stage::Measured => ScanView {
                timestamp,
                interface: iface,
                devices: network_devices(
                    self.local,
                    self.discovered,
                    self.links,
                    Chipset::Broadcom,
                ),
                links: self.links,
            },
            Stage::FellBack => ScanView {
                timestamp,
                interface: iface,
                devices: network_devices(
                    self.local,
                    self.discovered,
                    Seq::empty(),
                    Chipset::Unknown,
                ),
                links: self.links,
            },
            _ => ScanView {
                timestamp,
                interface: iface,
                devices: Seq::empty(),
                links: Seq::empty(),
            },
        }
    }
}

/// `step` is what the scan needs on reaching `run` by an answer or a timeout.
pub open spec fn is_next_step(step: Step, run: RunView, host: MacAddr, seq: u8) -> bool {
    match step {
        Step::Listen => false,
        Step::Send { frame, wait_secs } => {
            &&& !run.over()
            &&& frame@ == run.request(host, seq)
            &&& wait_secs == if run.stage is Discover {
                DISCOVER_WAIT_SECS
            } else {
                STATS_WAIT_SECS
            }
        },
        Step::Finished => run.over(),
    }
}

/// The sequence number after reaching `run`: every query uses one up.
pub open spec fn seq_after(run: RunView, seq: u8) -> u8 {
    if run.stage is Query {
        ((seq + 1) % 256) as u8
    } else {
        seq
    }
}

pub struct Scanner {
    pub iface: String,
    pub mac: MacAddr,
    pub seq: u8,
}

impl Scanner {
    /// A scanner on the interface `iface`, whose own address is `mac`.
    pub fn new(iface: String, mac: MacAddr) -> (r: Self)
        ensures
            r.iface == iface,
            r.mac == mac,
            r.seq == 0,
    {
        Scanner { iface, mac, seq: 0 }
    }

    /// The interface that is scanned.
    pub fn interface(&self) -> (r: &str)
        ensures
            r@ == self.iface@,
    {
        self.iface.as_str()
    }

    /// The sequence number to use next; it wraps after 255.
    pub fn next_seq(&mut self) -> (r: u8)
        ensures
            r == old(self).seq,
            final(self).seq == (old(self).seq + 1) % 256,
            final(self).iface == old(self).iface,
            final(self).mac == old(self).mac,
    {
        let s = self.seq;
        self.seq = self.seq.wrapping_add(1);
        s
    }

    /// Start a scan: send the returned frame and listen for `DISCOVER_WAIT_SECS`.
    pub fn start(&self) -> (r: (ScanRun, Vec<u8>))
        ensures
            r.0@ == (RunView {
                stage: Stage::Discover,
                local: self.mac,
                discovered: Seq::empty(),
                links: Seq::empty(),
            }),
            r.0@.valid(),
            r.1@ == r.0@.request(self.mac, self.seq),
    {
        let run = ScanRun {
            stage: Stage::Discover,
            local: self.mac,
            discovered: Vec::new(),
            links: Vec::new(),
        };
        assert(run@.links == Seq::<LinkView>::empty());
        let frame = standard::build_discover_list_req(self.mac);
        (run, frame)
    }

    /// Go on with the queries after the n-th one.
    fn advance(&mut self, run: &mut ScanRun, n: usize) -> (step: Step)
        requires
            n <= old(run).discovered@.len(),
        ensures
            final(run)@ == old(run)@.after_query(n as int),
            final(run)@.valid(),
            is_next_step(step, final(run)@, old(self).mac, old(self).seq),
            final(self).seq == seq_after(final(run)@, old(self).seq),
            final(self).iface == old(self).iface,
            final(self).mac == old(self).mac,
    {
        if n < run.discovered.len() {
            run.stage = Stage::Query(n + 1);
            let target = run.discovered[n].mac;
            let seq = self.next_seq();
            let frame = broadcom::build_nw_stats_req(target, self.mac, seq);
            Step::Send { frame, wait_secs: STATS_WAIT_SECS }
        } else if run.links.len() == 0 {
            run.stage = Stage::Fallback;
            let frame = standard::build_nw_stats_req(run.local, self.mac);
            Step::Send { frame, wait_secs: STATS_WAIT_SECS }
        } else {
            run.stage = Stage::Measured;
            Step::Finished
        }
    }

    /// A frame was received.
    pub fn on_frame(&mut self, run: &mut ScanRun, data: &[u8]) -> (step: Step)
        requires
            old(run)@.valid(),
        ensures
            final(run)@ == old(run)@.after_frame(data@),
            final(run)@.valid(),
            if old(run)@.answers(data@) {
                &&& is_next_step(step, final(run)@, old(self).mac, old(self).seq)
                &&& final(self).seq == seq_after(final(run)@, old(self).seq)
            } else {
                step is Listen && final(self).seq == old(self).seq
            },
            final(self).iface == old(self).iface,
            final(self).mac == old(self).mac,
    {
        match run.stage {
            Stage::Discover => match standard::parse_discover_list_cnf(data) {
                Some((responder, stations)) => {
                    run.stage = Stage::Query(0);
                    run.local = responder;
                    run.discovered = stations;
                    run.links = Vec::new();
                    assert(run@.links == Seq::<LinkView>::empty());
                    let seq = self.next_seq();
                    let frame = broadcom::build_nw_stats_req(responder, self.mac, seq);
                    Step::Send { frame, wait_secs: STATS_WAIT_SECS }
                },
                None => Step::Listen,
            },
            Stage::Query(n) => match broadcom::parse_nw_stats_cnf(data) {
                Some((_src, rates)) => {
                    let target = if n == 0 {
                        run.local
                    } else {
                        run.discovered[n - 1].mac
                    };
                    push_measured_links(&mut run.links, target, &rates);
                    self.advance(run, n)
                },
                None => Step::Listen,
            },
            Stage::Fallback => match standard::parse_nw_stats_cnf(data) {
                Some(stats) => {
                    push_standard_links(&mut run.links, run.local, &stats);
                    run.stage = Stage::FellBack;
                    Step::Finished
                },
                None => Step::Listen,
            },
            _ => Step::Listen,
        }
    }

    /// The time to listen has passed.
    pub fn on_timeout(&mut self, run: &mut ScanRun) -> (step: Step)
        requires
            old(run)@.valid(),
        ensures
            final(run)@ == old(run)@.after_timeout(),
            final(run)@.valid(),
            is_next_step(step, final(run)@, old(self).mac, old(self).seq),
            old(run)@.over() ==> final(self).seq == old(self).seq,
            final(self).seq == seq_after(final(run)@, old(self).seq),
            final(self).iface == old(self).iface,
            final(self).mac == old(self).mac,
    {
        match run.stage {
            Stage::Discover => {
                run.stage = Stage::Nothing;
                Step::Finished
            },
            Stage::Query(n) => self.advance(run, n),
            Stage::Fallback => {
                run.stage = Stage::FellBack;
                Step::Finished
            },
            _ => Step::Finished,
        }
    }

    /// What the scan has found, as of now.
    pub fn finish(&self, run: ScanRun) -> (r: NetworkScan)
        requires
            run@.over(),
        ensures
            r@.timestamp.valid(),
            r@.timestamp.secs >= 0,
            r@.timestamp.leap() == 0,
            r@ == run@.outcome(self.iface@, r@.timestamp),
    {
        self.finish_at(run, Timestamp::now())
    }

    /// What the scan has found, as of a given time.
    pub fn finish_at(&self, run: ScanRun, timestamp: Timestamp) -> (r: NetworkScan)
        requires
            run@.over(),
        ensures
            r@ == run@.outcome(self.iface@, timestamp@),
    {
        match run.stage {
            Stage::Measured => {
                let devices = build_devices(
                    run.local,
                    &run.discovered,
                    &run.links,
                    Chipset::Broadcom,
                );
                NetworkScan {
                    timestamp,
                    interface: String::from_str(self.iface.as_str()),
                    devices,
                    links: run.links,
                }
            },
            Stage::FellBack => {
                // Broadcom adapters did not respond, so the chipset is unknown.
                let none: Vec<Link> = Vec::new();
                assert(link_views(none@) == Seq::<LinkView>::empty());
                let devices = build_devices(run.local, &run.discovered, &none, Chipset::Unknown);
                NetworkScan {
                    timestamp,
                    interface: String::from_str(self.iface.as_str()),
                    devices,
                    links: run.links,
                }
            },
            _ => NetworkScan::empty_at(self.iface.as_str(), timestamp),
        }
    }
}

// -- Laws ---------------------------------------------------------------------------------

/// No two devices have one address.
pub open spec fn distinct_devices(devices: Seq<DeviceView>) -> bool {
    forall|i: int, j: int|
        0 <= i < j < devices.len() ==> (#[trigger] devices[i]).mac != (#[trigger] devices[j]).mac
}

/// The first device is the local one, and the only one; all have one chipset.
pub open spec fn one_local_first(
    devices: Seq<DeviceView>,
    local: MacAddr,
    chipset: Chipset,
) -> bool {
    &&& devices.len() > 0
    &&& devices[0].mac == local
    &&& forall|i: int|
        0 <= i < devices.len() ==> (#[trigger] devices[i]).is_local == (i == 0)
            && devices[i].chipset == chipset
}

proof fn lemma_with_remote(
    devices: Seq<DeviceView>,
    mac: MacAddr,
    is_cco: bool,
    chipset: Chipset,
    local: MacAddr,
    m: MacAddr,
)
    requires
        distinct_devices(devices),
        one_local_first(devices, local, chipset),
    ensures
        distinct_devices(with_remote(devices, mac, is_cco, chipset)),
        one_local_first(with_remote(devices, mac, is_cco, chipset), local, chipset),
        lists_mac(with_remote(devices, mac, is_cco, chipset), m) <==> lists_mac(devices, m) || m
            == mac,
{
    let next = with_remote(devices, mac, is_cco, chipset);
    if !lists_mac(devices, mac) {
        assert(next[devices.len() as int].mac == mac);
        assert(forall|i: int| 0 <= i < devices.len() ==> #[trigger] next[i] == devices[i]);
        assert forall|i: int, j: int| 0 <= i < j < next.len() implies (#[trigger] next[i]).mac != (
        #[trigger] next[j]).mac by {
            if j < devices.len() {
                assert(devices[i].mac != devices[j].mac);
            } else {
                assert(next[i] == devices[i]);
            }
        }
        if lists_mac(devices, m) {
            let k = choose|k: int| 0 <= k < devices.len() && (#[trigger] devices[k]).mac == m;
            assert(next[k].mac == m);
        }
        if lists_mac(next, m) && m != mac {
            let k = choose|k: int| 0 <= k < next.len() && (#[trigger] next[k]).mac == m;
            assert(devices[k].mac == m);
        }
    }
}

proof fn lemma_with_stations(
    devices: Seq<DeviceView>,
    stations: Seq<DiscoveredStation>,
    chipset: Chipset,
    local: MacAddr,
    m: MacAddr,
)
    requires
        distinct_devices(devices),
        one_local_first(devices, local, chipset),
    ensures
        distinct_devices(with_stations(devices, stations, chipset)),
        one_local_first(with_stations(devices, stations, chipset), local, chipset),
        lists_mac(with_stations(devices, stations, chipset), m) <==> lists_mac(devices, m)
            || exists|i: int| 0 <= i < stations.len() && (#[trigger] stations[i]).mac == m,
    decreases stations.len(),
{
    if stations.len() > 0 {
        let init = stations.drop_last();
        let last = stations.last();
        lemma_with_stations(devices, init, chipset, local, m);
        let before = with_stations(devices, init, chipset);
        lemma_with_remote(before, last.mac, last.is_cco, chipset, local, m);
        if exists|i: int| 0 <= i < init.len() && (#[trigger] init[i]).mac == m {
            let i = choose|i: int| 0 <= i < init.len() && (#[trigger] init[i]).mac == m;
            assert(stations[i].mac == m);
        }
        if last.mac == m {
            assert(stations[stations.len() - 1].mac == m);
        }
        if exists|i: int| 0 <= i < stations.len() && (#[trigger] stations[i]).mac == m {
            let i = choose|i: int| 0 <= i < stations.len() && (#[trigger] stations[i]).mac == m;
            if i < init.len() {
                assert(init[i].mac == m);
            }
        }
    }
}

/// A link begins or ends at `m`.
pub open spec fn ends_at(link: LinkView, m: MacAddr) -> bool {
    link.from == m || link.to == m
}

proof fn lemma_with_endpoints(
    devices: Seq<DeviceView>,
    links: Seq<LinkView>,
    chipset: Chipset,
    local: MacAddr,
    m: MacAddr,
)
    requires
        distinct_devices(devices),
        one_local_first(devices, local, chipset),
    ensures
        distinct_devices(with_endpoints(devices, links, chipset)),
        one_local_first(with_endpoints(devices, links, chipset), local, chipset),
        lists_mac(with_endpoints(devices, links, chipset), m) <==> lists_mac(devices, m)
            || exists|i: int| 0 <= i < links.len() && ends_at(#[trigger] links[i], m),
    decreases links.len(),
{
    if links.len() > 0 {
        let init = links.drop_last();
        let last = links.last();
        lemma_with_endpoints(devices, init, chipset, local, m);
        let before = with_endpoints(devices, init, chipset);
        lemma_with_remote(before, last.from, false, chipset, local, m);
        let between = with_remote(before, last.from, false, chipset);
        lemma_with_remote(between, last.to, false, chipset, local, m);
        if exists|i: int| 0 <= i < init.len() && ends_at(#[trigger] init[i], m) {
            let i = choose|i: int| 0 <= i < init.len() && ends_at(#[trigger] init[i], m);
            assert(ends_at(links[i], m));
        }
        if ends_at(last, m) {
            assert(ends_at(links[links.len() - 1], m));
        }
        if exists|i: int| 0 <= i < links.len() && ends_at(#[trigger] links[i], m) {
            let i = choose|i: int| 0 <= i < links.len() && ends_at(#[trigger] links[i], m);
            if i < init.len() {
                assert(ends_at(init[i], m));
            }
        }
    }
}

/// The devices of a network: each address once, the local adapter first and no other
/// local one, one chipset for all; and an address is listed exactly if it is that of
/// the local adapter, of a discovered station or of an end of a link.
pub proof fn law_network_devices(
    local: MacAddr,
    stations: Seq<DiscoveredStation>,
    links: Seq<LinkView>,
    chipset: Chipset,
    m: MacAddr,
)
    ensures
        distinct_devices(network_devices(local, stations, links, chipset)),
        one_local_first(network_devices(local, stations, links, chipset), local, chipset),
        lists_mac(network_devices(local, stations, links, chipset), m) <==> m == local || (exists|
            i: int,
        |
            0 <= i < stations.len() && (#[trigger] stations[i]).mac == m) || (exists|i: int|
            0 <= i < links.len() && ends_at(#[trigger] links[i], m)),
{
    let base = seq![bare_device(local, true, false, chipset)];
    assert(base[0].mac == local);
    lemma_with_stations(base, stations, chipset, local, m);
    let known = with_stations(base, stations, chipset);
    lemma_with_endpoints(known, links, chipset, local, m);
}

/// Both ends of every link that was measured are among the devices of the outcome.
pub proof fn law_measured_links_connect_devices(
    run: RunView,
    iface: Seq<char>,
    timestamp: Instant,
    i: int,
)
    requires
        run.stage is Measured,
        0 <= i < run.links.len(),
    ensures
        lists_mac(run.outcome(iface, timestamp).devices, run.links[i].from),
        lists_mac(run.outcome(iface, timestamp).devices, run.links[i].to),
{
    assert(ends_at(run.links[i], run.links[i].from));
    assert(ends_at(run.links[i], run.links[i].to));
    law_network_devices(
        run.local,
        run.discovered,
        run.links,
        Chipset::Broadcom,
        run.links[i].from,
    );
    law_network_devices(run.local, run.discovered, run.links, Chipset::Broadcom, run.links[i].to);
}

/// A scan that nobody answers finds nothing.
pub proof fn law_silent_network(run: RunView, iface: Seq<char>, timestamp: Instant)
    requires
        run.stage is Discover,
    ensures
        run.after_timeout().over(),
        run.after_timeout().outcome(iface, timestamp).devices.len() == 0,
        run.after_timeout().outcome(iface, timestamp).links.len() == 0,
{
}

/// Frames that are no answers change nothing, and the scan's own requests are none.
pub proof fn law_noise_is_ignored(run: RunView, data: Seq<u8>, host: MacAddr, seq: u8)
    ensures
        !run.answers(data) ==> run.after_frame(data) == run,
        !run.answers(run.request(host, seq)),
{
    match run.stage {
        Stage::Discover => law_hpav_frame_reads_back(
            MacAddr(MAC_BROADCAST),
            host,
            CC_DISCOVER_LIST_REQ,
            CC_DISCOVER_LIST_CNF,
        ),
        Stage::Query(n) => law_bcm_frame_reads_back(
            run.target(n as int),
            host,
            BCM_NW_STATS_REQ,
            seq,
            Seq::empty(),
            BCM_NW_STATS_CNF,
        ),
        _ => law_hpav_frame_reads_back(run.local, host, CM_NW_STATS_REQ, CM_NW_STATS_CNF),
    }
}

/// How often a scan is at most still going to listen, once the stations are known.
pub open spec fn listens_left(run: RunView) -> int {
    match run.stage {
        Stage::Query(n) => run.discovered.len() - n + 2,
        Stage::Fallback => 1,
        _ => 0,
    }
}

/// A scan ends: once the stations are known it asks the local adapter and each of
/// them, and at most once more. Every answer and every timeout brings it nearer to
/// its end.
pub proof fn law_scan_ends(run: RunView, data: Seq<u8>)
    requires
        run.valid(),
        run.discovered.len() < usize::MAX,
        stations_of(data).len() < usize::MAX,
    ensures
        run.stage is Discover && run.answers(data) ==> listens_left(run.after_frame(data))
            == stations_of(data).len() + 2,
        !(run.stage is Discover) && run.answers(data) ==> listens_left(run.after_frame(data))
            < listens_left(run),
        !(run.stage is Discover) && !run.over() ==> listens_left(run.after_timeout())
            < listens_left(run),
        !(run.stage is Discover) ==> (listens_left(run) == 0 <==> run.over()),
{
}

/// The scan after the queries from the n-th one on were answered or timed out.
pub open spec fn after_replies(run: RunView, replies: Seq<Option<Seq<u8>>>) -> RunView
    decreases replies.len(),
{
    if replies.len() == 0 {
        run
    } else {
        let before = after_replies(run, replies.drop_last());
        match replies.last() {
            Some(data) => before.after_frame(data),
            None => before.after_timeout(),
        }
    }
}

/// The links that the replies tell of: those of the first reply go out from the
/// local adapter, those of the next ones from the discovered stations in turn.
pub open spec fn reported_links(run: RunView, replies: Seq<Option<Seq<u8>>>) -> Seq<LinkView>
    decreases replies.len(),
{
    if replies.len() == 0 {
        Seq::empty()
    } else {
        let before = reported_links(run, replies.drop_last());
        match replies.last() {
            Some(data) => before + measured_links(
                run.target(replies.len() - 1),
                link_rates_of(data),
            ),
            None => before,
        }
    }
}

proof fn lemma_replies(run: RunView, replies: Seq<Option<Seq<u8>>>)
    requires
        run.stage == Stage::Query(0),
        run.links.len() == 0,
        run.discovered.len() < usize::MAX,
        replies.len() <= run.discovered.len() + 1,
        forall|i: int|
            0 <= i < replies.len() ==> (#[trigger] replies[i] matches Some(data) ==> is_bcm_message(
                data,
                BCM_NW_STATS_CNF,
            )),
    ensures
        ({
            let links = reported_links(run, replies);
            let now = RunView { links, ..run };
            after_replies(run, replies) == if replies.len() <= run.discovered.len() {
                now.at(Stage::Query(replies.len() as usize))
            } else if links.len() == 0 {
                now.at(Stage::Fallback)
            } else {
                now.at(Stage::Measured)
            }
        }),
    decreases replies.len(),
{
    if replies.len() == 0 {
        assert(run.links == Seq::<LinkView>::empty());
    } else {
        let init = replies.drop_last();
        assert forall|i: int| 0 <= i < init.len() implies (#[trigger] init[i] matches Some(data)
            ==> is_bcm_message(data, BCM_NW_STATS_CNF)) by {
            assert(init[i] == replies[i]);
        }
        lemma_replies(run, init);
        let before = after_replies(run, init);
        assert(replies[replies.len() - 1] == replies.last());
        assert(before.target(init.len() as int) == run.target(init.len() as int));
        match replies.last() {
            Some(data) => {
                assert(before.answers(data));
            },
            None => {},
        }
    }
}

/// A scan collects what the adapters report: when the local adapter and every
/// discovered station have replied or have been given up, its links are the reported
/// ones, in the order of the queries, and it goes on to the standard query exactly if
/// there are none.
pub proof fn law_scan_collects_reports(run: RunView, replies: Seq<Option<Seq<u8>>>)
    requires
        run.stage == Stage::Query(0),
        run.links.len() == 0,
        run.discovered.len() < usize::MAX,
        replies.len() == run.discovered.len() + 1,
        forall|i: int|
            0 <= i < replies.len() ==> (#[trigger] replies[i] matches Some(data) ==> is_bcm_message(
                data,
                BCM_NW_STATS_CNF,
            )),
    ensures
        after_replies(run, replies).links == reported_links(run, replies),
        after_replies(run, replies).stage == if reported_links(run, replies).len() == 0 {
            Stage::Fallback
        } else {
            Stage::Measured
        },
        after_replies(run, replies).local == run.local,
        after_replies(run, replies).discovered == run.discovered,
{
    lemma_replies(run, replies);
}

/// What a scan takes for an answer: a list of stations to the discovery, vendor link
/// rates to a query, standard link rates to the last resort.
pub proof fn law_answers(run: RunView, data: Seq<u8>)
    ensures
        run.stage is Discover ==> (run.answers(data) <==> data.len() >= 17 && data.subrange(12, 17)
            == seq![0x88u8, 0xE1, 1, 0x15, 0x00]),
        run.stage is Query ==> (run.answers(data) <==> data.len() >= 23 && data.subrange(12, 17)
            == seq![0x89u8, 0x12, 2, 0x2D, 0xA0]),
        run.stage is Fallback ==> (run.answers(data) <==> data.len() >= 17 && data.subrange(12, 17)
            == seq![0x88u8, 0xE1, 1, 0x49, 0x60]),
        run.over() ==> !run.answers(data),
{
    law_messages_are_known_by_their_header(data, CC_DISCOVER_LIST_CNF);
    law_messages_are_known_by_their_header(data, BCM_NW_STATS_CNF);
    law_messages_are_known_by_their_header(data, CM_NW_STATS_CNF);
    if data.len() >= 17 {
        let h = data.subrange(12, 17);
        assert(h[0] == data[12] && h[1] == data[13] && h[2] == data[14] && h[3] == data[15] && h[4]
            == data[16]);
        let discovery = seq![0x88u8, 0xE1, 1, 0x15, 0x00];
        let rates = seq![0x89u8, 0x12, 2, 0x2D, 0xA0];
        let standard = seq![0x88u8, 0xE1, 1, 0x49, 0x60];
        if run.answers(data) {
            match run.stage {
                Stage::Discover => assert(h =~= discovery),
                Stage::Query(_) => assert(h =~= rates),
                _ => assert(h =~= standard),
            }
        }
    }
}

/// Whoever answers the discovery is the local adapter, and the first to be asked.
pub proof fn law_responder_is_local(run: RunView, data: Seq<u8>, host: MacAddr, seq: u8)
    requires
        run.stage is Discover,
        run.answers(data),
    ensures
        run.after_frame(data).stage == Stage::Query(0),
        run.after_frame(data).local.0@ == data.subrange(6, 12),
        run.after_frame(data).discovered == stations_of(data),
        run.after_frame(data).links.len() == 0,
        run.after_frame(data).request(host, seq).subrange(0, 6) == data.subrange(6, 12),
{
    law_address_is_read_in_order(data, 6, 0);
    law_bcm_frame_bytes(mac_at(data, 6), host, BCM_NW_STATS_REQ, seq, Seq::empty());
}

/// After a query the next discovered station is asked, whether the query was answered
/// or not.
pub proof fn law_stations_are_asked_in_turn(
    run: RunView,
    n: usize,
    data: Seq<u8>,
    host: MacAddr,
    seq: u8,
)
    requires
        run.stage == Stage::Query(n),
        n < run.discovered.len() < usize::MAX,
    ensures
        run.after_timeout().stage == Stage::Query((n + 1) as usize),
        run.after_timeout().request(host, seq).subrange(0, 6) == run.discovered[n as int].mac.0@,
        run.after_timeout().links == run.links,
        run.answers(data) ==> run.after_frame(data).stage == Stage::Query((n + 1) as usize),
        run.answers(data) ==> run.after_frame(data).request(host, seq).subrange(0, 6)
            == run.discovered[n as int].mac.0@,
{
    law_bcm_frame_bytes(
        run.discovered[n as int].mac,
        host,
        BCM_NW_STATS_REQ,
        seq,
        Seq::empty(),
    );
}

/// The links of an answer to a query go out from the adapter that was asked, to the
/// stations that it reports, with their rates and signals; what was known stays.
pub proof fn law_answer_adds_links_of_the_asked(run: RunView, n: usize, data: Seq<u8>, k: int)
    requires
        run.stage == Stage::Query(n),
        n <= run.discovered.len(),
        run.answers(data),
        0 <= k < link_rates_of(data).len(),
    ensures
        run.after_frame(data).links.len() == run.links.len() + link_rates_of(data).len(),
        run.after_frame(data).links.take(run.links.len() as int) == run.links,
        ({
            let link = run.after_frame(data).links[run.links.len() + k];
            let rate = link_rates_of(data)[k];
            &&& n == 0 ==> link.from == run.local
            &&& n > 0 ==> link.from == run.discovered[n - 1].mac
            &&& link.to == rate.mac
            &&& link.tx_mbps == rate.tx_mbps
            &&& link.rx_mbps == rate.rx_mbps
            &&& link.tx_signal == signal_name(rate.tx_signal)
            &&& link.rx_signal == signal_name(rate.rx_signal)
        }),
{
    assert(run.after_frame(data).links.take(run.links.len() as int) =~= run.links);
}

/// The requests that a scan sends once the stations are known: the first goes to the
/// local adapter, each further one to the next discovered station, all with the
/// host's address, the type of a query and the sequence number.
pub proof fn law_scan_asks_everyone(
    run: RunView,
    replies: Seq<Option<Seq<u8>>>,
    host: MacAddr,
    seq: u8,
)
    requires
        run.stage == Stage::Query(0),
        run.links.len() == 0,
        run.discovered.len() < usize::MAX,
        replies.len() <= run.discovered.len(),
        forall|i: int|
            0 <= i < replies.len() ==> (#[trigger] replies[i] matches Some(data) ==> is_bcm_message(
                data,
                BCM_NW_STATS_CNF,
            )),
    ensures
        ({
            let now = after_replies(run, replies);
            let request = now.request(host, seq);
            &&& now.stage == Stage::Query(replies.len() as usize)
            &&& replies.len() == 0 ==> request.subrange(0, 6) == run.local.0@
            &&& replies.len() > 0 ==> request.subrange(0, 6) == run.discovered[replies.len()
                - 1].mac.0@
            &&& request.subrange(6, 12) == host.0@
            &&& request.subrange(12, 15) == seq![0x89u8, 0x12, 2]
            &&& request[15] + 256 * request[16] == 0xA02C
            &&& request[22] == seq
        }),
{
    lemma_replies(run, replies);
    let dst = if replies.len() == 0 {
        run.local
    } else {
        run.discovered[replies.len() - 1].mac
    };
    law_bcm_frame_bytes(dst, host, BCM_NW_STATS_REQ, seq, Seq::empty());
}

/// `link` is the k-th of the links that the i-th reply reports: from the local adapter
/// where that is the first reply, else from the discovered station that was asked.
pub open spec fn is_reported(
    link: LinkView,
    run: RunView,
    replies: Seq<Option<Seq<u8>>>,
    i: int,
    k: int,
) -> bool {
    &&& 0 <= i < replies.len()
    &&& replies[i] is Some
    &&& 0 <= k < link_rates_of(replies[i].unwrap()).len()
    &&& i == 0 ==> link.from == run.local
    &&& i > 0 ==> link.from == run.discovered[i - 1].mac
    &&& link.to == link_rates_of(replies[i].unwrap())[k].mac
    &&& link.tx_mbps == link_rates_of(replies[i].unwrap())[k].tx_mbps
    &&& link.rx_mbps == link_rates_of(replies[i].unwrap())[k].rx_mbps
    &&& link.tx_signal == signal_name(link_rates_of(replies[i].unwrap())[k].tx_signal)
    &&& link.rx_signal == signal_name(link_rates_of(replies[i].unwrap())[k].rx_signal)
}

proof fn lemma_reported_links(run: RunView, replies: Seq<Option<Seq<u8>>>, link: LinkView)
    requires
        replies.len() <= run.discovered.len() + 1,
    ensures
        reported_links(run, replies).contains(link) <==> exists|i: int, k: int|
            #[trigger] is_reported(link, run, replies, i, k),
    decreases replies.len(),
{
    if replies.len() > 0 {
        let init = replies.drop_last();
        let n = replies.len() - 1;
        lemma_reported_links(run, init, link);
        let before = reported_links(run, init);
        let now = reported_links(run, replies);
        if before.contains(link) {
            let (i, k) = choose|i: int, k: int|
                #[trigger] is_reported(link, run, init, i, k);
            assert(init[i] == replies[i]);
            assert(is_reported(link, run, replies, i, k));
            let j = choose|j: int| 0 <= j < before.len() && before[j] == link;
            assert(now[j] == link);
        } else if now.contains(link) {
            let j = choose|j: int| 0 <= j < now.len() && now[j] == link;
            if j < before.len() {
                assert(before[j] == link);
            }
            assert(is_reported(link, run, replies, n, j - before.len()));
        }
        if exists|i: int, k: int|
            #[trigger] is_reported(link, run, replies, i, k) {
            let (i, k) = choose|i: int, k: int|
                #[trigger] is_reported(link, run, replies, i, k);
            if i < n {
                assert(init[i] == replies[i]);
                assert(is_reported(link, run, init, i, k));
            } else {
                assert(now[before.len() + k] == link);
            }
        }
    }
}

/// When everybody was asked, the links of the scan are those that were reported, no
/// less and no more: by the local adapter from it, by each discovered station from
/// that station.
pub proof fn law_links_go_out_from_their_reporters(
    run: RunView,
    replies: Seq<Option<Seq<u8>>>,
    link: LinkView,
)
    requires
        run.stage == Stage::Query(0),
        run.links.len() == 0,
        run.discovered.len() < usize::MAX,
        replies.len() == run.discovered.len() + 1,
        forall|i: int|
            0 <= i < replies.len() ==> (#[trigger] replies[i] matches Some(data) ==> is_bcm_message(
                data,
                BCM_NW_STATS_CNF,
            )),
    ensures
        after_replies(run, replies).links.contains(link) <==> exists|i: int, k: int|
            #[trigger] is_reported(link, run, replies, i, k),
{
    lemma_replies(run, replies);
    lemma_reported_links(run, replies, link);
}

/// The last query decides: a scan with links is over, and one without asks the local
/// adapter for its standard rates. These links go out from the local adapter, with the
/// rates of the answer and no signal types.
pub proof fn law_standard_rates_are_the_last_resort(
    run: RunView,
    data: Seq<u8>,
    host: MacAddr,
    seq: u8,
    k: int,
)
    requires
        run.stage == Stage::Query(run.discovered.len() as usize),
        run.discovered.len() <= usize::MAX,
    ensures
        run.links.len() > 0 ==> run.after_timeout().stage is Measured,
        run.links.len() == 0 ==> {
            let last = run.after_timeout();
            &&& last.stage is Fallback
            &&& last.request(host, seq).subrange(0, 6) == run.local.0@
            &&& last.request(host, seq)[15] + 256 * last.request(host, seq)[16] == 0x6048
            &&& last.after_timeout().stage is FellBack
            &&& last.after_timeout().links.len() == 0
            &&& last.answers(data) ==> {
                &&& last.after_frame(data).stage is FellBack
                &&& last.after_frame(data).links.len() == stats_of(data).len()
                &&& 0 <= k < stats_of(data).len() ==> last.after_frame(data).links[k] == (
                LinkView {
                    from: run.local,
                    to: stats_of(data)[k].0,
                    tx_mbps: stats_of(data)[k].1 as u16,
                    rx_mbps: stats_of(data)[k].2 as u16,
                    tx_signal: Seq::empty(),
                    rx_signal: Seq::empty(),
                })
            }
        },
{
    law_hpav_frame_bytes(run.local, host, CM_NW_STATS_REQ);
}

/// What is sent on reaching a stage is its request, and the time to listen is three
/// seconds for the discovery and two for everything else; where nothing is sent, the
/// scan is over. Only queries use up sequence numbers.
pub proof fn law_requests_and_waits(step: Step, run: RunView, host: MacAddr, seq: u8)
    requires
        is_next_step(step, run, host, seq),
    ensures
        run.over() <==> step is Finished,
        !run.over() <==> step is Send,
        step matches Step::Send { frame, wait_secs } ==> frame@ == run.request(host, seq)
            && wait_secs == if run.stage is Discover {
            3u64
        } else {
            2
        },
        run.stage is Discover ==> run.request(host, seq).subrange(0, 6) == Seq::new(
            6,
            |i: int| 0xFFu8,
        ) && run.request(host, seq)[15] + 256 * run.request(host, seq)[16] == 0x0014,
        seq_after(run, seq) == if run.stage is Query && seq < 255 {
            (seq + 1) as u8
        } else if run.stage is Query {
            0
        } else {
            seq
        },
{
    law_hpav_frame_bytes(MacAddr(MAC_BROADCAST), host, CC_DISCOVER_LIST_REQ);
    assert(MAC_BROADCAST@ =~= Seq::new(6, |i: int| 0xFFu8));
}

/// What a scan has found bears its time and its interface and lists all links that it
/// collected. The adapters have a Broadcom chipset where vendor rates came, and an
/// unknown one where not.
pub proof fn law_outcome(run: RunView, iface: Seq<char>, timestamp: Instant, i: int)
    ensures
        run.outcome(iface, timestamp).timestamp == timestamp,
        run.outcome(iface, timestamp).interface == iface,
        run.stage is Measured || run.stage is FellBack ==> run.outcome(iface, timestamp).links
            == run.links && run.outcome(iface, timestamp).devices.len() > 0
            && run.outcome(iface, timestamp).devices[0].mac == run.local,
        run.stage is Nothing ==> run.outcome(iface, timestamp).devices.len() == 0,
        run.stage is Measured && 0 <= i < run.outcome(iface, timestamp).devices.len()
            ==> run.outcome(iface, timestamp).devices[i].chipset is Broadcom,
        run.stage is FellBack && 0 <= i < run.outcome(iface, timestamp).devices.len()
            ==> run.outcome(iface, timestamp).devices[i].chipset is Unknown,
        run.stage is FellBack && 0 <= i < run.discovered.len() ==> lists_mac(
            run.outcome(iface, timestamp).devices,
            run.discovered[i].mac,
        ),
{
    let m = if 0 <= i < run.discovered.len() {
        run.discovered[i].mac
    } else {
        run.local
    };
    law_network_devices(run.local, run.discovered, run.links, Chipset::Broadcom, m);
    law_network_devices(run.local, run.discovered, Seq::empty(), Chipset::Unknown, m);
}

/// The coordinator is the station that the discovery names as such: a device that was
/// discovered takes the mark of the first station with its address, and a device that
/// was not has none. Nothing else is known of a device.
pub proof fn law_coordinators(
    local: MacAddr,
    stations: Seq<DiscoveredStation>,
    links: Seq<LinkView>,
    chipset: Chipset,
    i: int,
    j: int,
)
    requires
        0 <= i < network_devices(local, stations, links, chipset).len(),
        0 <= j <= stations.len(),
        forall|k: int|
            0 <= k < j ==> (#[trigger] stations[k]).mac != network_devices(
                local,
                stations,
                links,
                chipset,
            )[i].mac,
        j < stations.len() ==> stations[j].mac == network_devices(
            local,
            stations,
            links,
            chipset,
        )[i].mac,
    ensures
        network_devices(local, stations, links, chipset)[i].is_cco == (i > 0 && j < stations.len()
            && stations[j].is_cco),
        network_devices(local, stations, links, chipset)[i].model.len() == 0,
        network_devices(local, stations, links, chipset)[i].firmware.len() == 0,
{
    let base = seq![bare_device(local, true, false, chipset)];
    let known = with_stations(base, stations, chipset);
    let all = network_devices(local, stations, links, chipset);
    lemma_with_stations(base, stations, chipset, local, all[i].mac);
    lemma_endpoints_extend(known, links, chipset, i);
    if i < known.len() {
        lemma_marks(base, stations, chipset, local, i, j);
    } else if j < stations.len() {
        assert(lists_mac(known, all[i].mac));
        let k = choose|k: int| 0 <= k < known.len() && (#[trigger] known[k]).mac == all[i].mac;
        lemma_endpoints_extend(known, links, chipset, k);
        lemma_with_endpoints(known, links, chipset, local, all[i].mac);
        assert(all[k].mac != all[i].mac);
    }
}

/// The ends of links come behind the devices that are known.
proof fn lemma_endpoints_extend(
    devices: Seq<DeviceView>,
    links: Seq<LinkView>,
    chipset: Chipset,
    i: int,
)
    requires
        0 <= i < with_endpoints(devices, links, chipset).len(),
    ensures
        with_endpoints(devices, links, chipset).len() >= devices.len(),
        i < devices.len() ==> with_endpoints(devices, links, chipset)[i] == devices[i],
        i >= devices.len() ==> {
            let d = with_endpoints(devices, links, chipset)[i];
            !d.is_cco && d.model.len() == 0 && d.firmware.len() == 0
        },
    decreases links.len(),
{
    if links.len() > 0 {
        let init = links.drop_last();
        let before = with_endpoints(devices, init, chipset);
        if i < before.len() {
            lemma_endpoints_extend(devices, init, chipset, i);
        } else if before.len() > 0 {
            lemma_endpoints_extend(devices, init, chipset, 0);
        } else if devices.len() > 0 {
            lemma_endpoints_nonempty(devices, init, chipset);
        }
    }
}

proof fn lemma_endpoints_nonempty(
    devices: Seq<DeviceView>,
    links: Seq<LinkView>,
    chipset: Chipset,
)
    ensures
        with_endpoints(devices, links, chipset).len() >= devices.len(),
    decreases links.len(),
{
    if links.len() > 0 {
        lemma_endpoints_nonempty(devices, links.drop_last(), chipset);
    }
}

/// A station that was discovered bears the mark of its first entry.
proof fn lemma_marks(
    base: Seq<DeviceView>,
    stations: Seq<DiscoveredStation>,
    chipset: Chipset,
    local: MacAddr,
    i: int,
    j: int,
)
    requires
        base == seq![bare_device(local, true, false, chipset)],
        0 <= i < with_stations(base, stations, chipset).len(),
        0 <= j <= stations.len(),
        forall|k: int|
            0 <= k < j ==> (#[trigger] stations[k]).mac != with_stations(
                base,
                stations,
                chipset,
            )[i].mac,
        j < stations.len() ==> stations[j].mac == with_stations(base, stations, chipset)[i].mac,
    ensures
        with_stations(base, stations, chipset)[i].is_cco == (i > 0 && j < stations.len()
            && stations[j].is_cco),
        with_stations(base, stations, chipset)[i].model.len() == 0,
        with_stations(base, stations, chipset)[i].firmware.len() == 0,
    decreases stations.len(),
{
    if stations.len() > 0 {
        let init = stations.drop_last();
        let before = with_stations(base, init, chipset);
        let now = with_stations(base, stations, chipset);
        lemma_with_stations(base, init, chipset, local, now[i].mac);
        if i < before.len() {
            assert(now[i] == before[i]);
            let j0 = if j < init.len() {
                j
            } else {
                init.len() as int
            };
            assert forall|k: int| 0 <= k < j0 implies (#[trigger] init[k]).mac != before[i].mac by {
                assert(init[k] == stations[k]);
            }
            lemma_marks(base, init, chipset, local, i, j0);
            if j == init.len() && i > 0 {
                lemma_only_stations(base, init, chipset, local, i);
            }
        } else {
            assert(!lists_mac(before, now[i].mac));
            if j < init.len() {
                assert(init[j].mac == now[i].mac);
            }
        }
    }
}

/// Behind the local adapter there are stations only.
proof fn lemma_only_stations(
    base: Seq<DeviceView>,
    stations: Seq<DiscoveredStation>,
    chipset: Chipset,
    local: MacAddr,
    i: int,
)
    requires
        base == seq![bare_device(local, true, false, chipset)],
        0 < i < with_stations(base, stations, chipset).len(),
    ensures
        exists|k: int|
            0 <= k < stations.len() && (#[trigger] stations[k]).mac == with_stations(
                base,
                stations,
                chipset,
            )[i].mac,
{
    let all = with_stations(base, stations, chipset);
    lemma_with_stations(base, stations, chipset, local, all[i].mac);
    assert(all[i].mac == all[i].mac);
    assert(lists_mac(all, all[i].mac));
    assert(all[0].mac != all[i].mac);
}

/// The devices are listed in the order in which they became known: a further station,
/// or a further link between known devices, leaves those before it where they are.
pub proof fn law_devices_in_order(
    local: MacAddr,
    stations: Seq<DiscoveredStation>,
    station: DiscoveredStation,
    links: Seq<LinkView>,
    link: LinkView,
    chipset: Chipset,
)
    ensures
        ({
            let fewer = network_devices(local, stations, Seq::empty(), chipset);
            let more = network_devices(local, stations.push(station), Seq::empty(), chipset);
            &&& fewer.len() <= more.len() <= fewer.len() + 1
            &&& more.take(fewer.len() as int) == fewer
            &&& more.len() > fewer.len() ==> more.last().mac == station.mac
        }),
        ({
            let fewer = network_devices(local, stations, links, chipset);
            let more = network_devices(local, stations, links.push(link), chipset);
            &&& fewer.len() <= more.len() <= fewer.len() + 2
            &&& more.take(fewer.len() as int) == fewer
            &&& more.len() == fewer.len() + 2 ==> more[fewer.len() as int].mac == link.from
                && more.last().mac == link.to
        }),
{
    assert(stations.push(station).drop_last() == stations);
    assert(links.push(link).drop_last() == links);
    let base = seq![bare_device(local, true, false, chipset)];
    let fewer = with_stations(base, stations, chipset);
    let more = with_stations(base, stations.push(station), chipset);
    assert(more.take(fewer.len() as int) =~= fewer);
    let a = network_devices(local, stations, links, chipset);
    let b = network_devices(local, stations, links.push(link), chipset);
    assert(b.take(a.len() as int) =~= a);
}

/// A scan is over exactly if nothing was found, links were measured, or the standard
/// rates were the last resort; until then it waits for something.
pub proof fn law_over(run: RunView)
    ensures
        run.over() <==> !(run.stage is Discover || run.stage is Query || run.stage is Fallback),
        run.over() ==> run.after_timeout() == run,
{
}

}
