//! Deep diagnostics for one adapter: what the scan shows of it, what its neighbours
//! know of it, and whether it answers or is heard at all.
//!
//! A probe alternates between sending a request and listening. The probe decides;
//! whoever drives it prints the texts, sends the frames, hands back what is received
//! and says when the time to listen is over.

use crate::protocol::broadcom::{
    build_nw_info_req, build_sta_info_req, extract_macs_from_payload, holds_mac,
    law_addresses_in_payload, law_station_addresses, law_station_info_fields, macs_in,
    parse_nw_info_cnf, parse_sta_info_cnf, station_info_of, BCM_NW_INFO_CNF, BCM_NW_INFO_REQ,
    BCM_STA_INFO_CNF, BCM_STA_INFO_REQ,
};
use crate::protocol::{
    bcm_frame, is_bcm_message, law_address_is_read_in_order, law_bcm_frame_bytes,
    law_messages_are_known_by_their_header, le32_at, mac_at, mac_short, mac_text, parse_eth,
    MacAddr, BCM_PAYLOAD,
};
use crate::scanner::lists_mac;
use crate::text::{
    append_decimal, append_hex_byte, append_hex_word, begins_with, decimal, hex_byte, hex_word,
};
use crate::types::{
    device_views, link_views, Device, DeviceView, Link, LinkView, NetworkScan, ScanView,
};
use vstd::prelude::*;
use vstd::string::*;

verus! {

// -- What the scan shows ---------------------------------------------------------------

/// A link begins or ends at `mac`.
pub open spec fn touches(links: Seq<LinkView>, mac: MacAddr) -> bool {
    exists|i: int|
        0 <= i < links.len() && ((#[trigger] links[i]).from == mac || links[i].to == mac)
}

/// The address of the first local device.
pub open spec fn first_local(devices: Seq<DeviceView>) -> Option<MacAddr>
    decreases devices.len(),
{
    if devices.len() == 0 {
        None
    } else if first_local(devices.drop_last()) is Some {
        first_local(devices.drop_last())
    } else if devices.last().is_local {
        Some(devices.last().mac)
    } else {
        None
    }
}

/// The addresses of the remote devices other than `target`.
pub open spec fn other_remotes(devices: Seq<DeviceView>, target: MacAddr) -> Seq<MacAddr>
    decreases devices.len(),
{
    if devices.len() == 0 {
        Seq::empty()
    } else {
        let before = other_remotes(devices.drop_last(), target);
        if !devices.last().is_local && devices.last().mac != target {
            before.push(devices.last().mac)
        } else {
            before
        }
    }
}

fn is_listed(devices: &Vec<Device>, mac: MacAddr) -> (r: bool)
    ensures
        r == lists_mac(device_views(devices@), mac),
{
    let ghost all = device_views(devices@);
    let mut i: usize = 0;
    while i < devices.len()
        invariant
            i <= devices.len(),
            all == device_views(devices@),
            forall|k: int| 0 <= k < i ==> (#[trigger] all[k]).mac != mac,
        decreases devices.len() - i,
    {
        assert(all[i as int] == devices@[i as int]@);
        if devices[i].mac == mac {
            return true;
        }
        i += 1;
    }
    false
}

fn is_touched(links: &Vec<Link>, mac: MacAddr) -> (r: bool)
    ensures
        r == touches(link_views(links@), mac),
{
    let ghost all = link_views(links@);
    let mut i: usize = 0;
    while i < links.len()
        invariant
            i <= links.len(),
            all == link_views(links@),
            forall|k: int| 0 <= k < i ==> (#[trigger] all[k]).from != mac && all[k].to != mac,
        decreases links.len() - i,
    {
        assert(all[i as int] == links@[i as int]@);
        if links[i].from == mac || links[i].to == mac {
            return true;
        }
        i += 1;
    }
    false
}

fn find_local(devices: &Vec<Device>) -> (r: Option<MacAddr>)
    ensures
        r == first_local(device_views(devices@)),
{
    let ghost all = device_views(devices@);
    let mut found: Option<MacAddr> = None;
    let mut i: usize = 0;
    assert(all.take(0).len() == 0);
    while i < devices.len()
        invariant
            i <= devices.len(),
            all == device_views(devices@),
            found == first_local(all.take(i as int)),
        decreases devices.len() - i,
    {
        assert(all.take(i + 1).drop_last() == all.take(i as int));
        assert(all.take(i + 1).last() == devices@[i as int]@);
        if found.is_none() && devices[i].is_local {
            found = Some(devices[i].mac);
        }
        i += 1;
    }
    assert(all.take(i as int) == all);
    found
}

fn find_remotes(devices: &Vec<Device>, target: MacAddr) -> (r: Vec<MacAddr>)
    ensures
        r@ == other_remotes(device_views(devices@), target),
{
    let ghost all = device_views(devices@);
    let mut found: Vec<MacAddr> = Vec::new();
    let mut i: usize = 0;
    assert(all.take(0).len() == 0);
    while i < devices.len()
        invariant
            i <= devices.len(),
            all == device_views(devices@),
            found@ == other_remotes(all.take(i as int), target),
        decreases devices.len() - i,
    {
        assert(all.take(i + 1).drop_last() == all.take(i as int));
        assert(all.take(i + 1).last() == devices@[i as int]@);
        if !devices[i].is_local && devices[i].mac != target {
            found.push(devices[i].mac);
        }
        i += 1;
    }
    assert(all.take(i as int) == all);
    found
}

/// What is said of the scan.
pub open spec fn scan_text(scan: ScanView, target: MacAddr) -> Seq<char> {
    (if lists_mac(scan.devices, target) {
        "        Found in scan (has link: "@ + (if touches(scan.links, target) {
            "true"@
        } else {
            "false"@
        }) + ")\n"@
    } else {
        "        NOT found in scan\n"@
    }) + "        Online devices: "@ + decimal((scan.devices.len() - 1) as nat) + " (+ local)\n"@
}

/// Tell what the scan shows of the target.
pub fn scan_note(scan: &NetworkScan, target: MacAddr) -> (r: String)
    requires
        scan@.devices.len() > 0,
    ensures
        r@ == scan_text(scan@, target),
{
    let mut r = String::new();
    if is_listed(&scan.devices, target) {
        r.append("        Found in scan (has link: ");
        if is_touched(&scan.links, target) {
            r.append("true");
        } else {
            r.append("false");
        }
        r.append(")\n");
    } else {
        r.append("        NOT found in scan\n");
    }
    r.append("        Online devices: ");
    append_decimal(&mut r, (scan.devices.len() - 1) as u64);
    r.append(" (+ local)\n");
    assert(r@ == scan_text(scan@, target));
    r
}

// -- What the answers say ----------------------------------------------------------------

/// The address found in a payload, with the target marked.
pub open spec fn address_line(m: MacAddr, target: MacAddr) -> Seq<char> {
    "          - "@ + mac_text(m) + (if m == target {
        " <-- TARGET"@
    } else {
        Seq::empty()
    }) + "\n"@
}

/// The addresses found in a payload, one on each line.
pub open spec fn address_lines(macs: Seq<MacAddr>, target: MacAddr) -> Seq<char>
    decreases macs.len(),
{
    if macs.len() == 0 {
        Seq::empty()
    } else {
        address_lines(macs.drop_last(), target) + address_line(macs.last(), target)
    }
}

/// What is said of the local adapter's view of the network.
pub open spec fn topology_text(payload: Seq<u8>, target: MacAddr) -> Seq<char> {
    let macs = macs_in(payload);
    "        Response: "@ + decimal(payload.len()) + " bytes, "@ + decimal(macs.len())
        + " MAC candidates in payload\n"@ + (if macs.contains(target) {
        "        ** Target "@ + mac_text(target) + " FOUND in NW_INFO **\n"@
    } else {
        "        Target NOT in NW_INFO topology\n"@
    }) + address_lines(macs, target)
}

/// What is said when the local adapter names no address.
pub open spec fn no_topology_text() -> Seq<char> {
    "        No NW_INFO response (may not be supported)\n"@
}

/// What is said of another adapter's view of the network.
pub open spec fn neighbour_text(remote: MacAddr, payload: Seq<u8>, target: MacAddr) -> Seq<char> {
    let macs = macs_in(payload);
    "        "@ + mac_short(remote) + " — "@ + decimal(macs.len()) + " stations, target: "@ + (
    if macs.contains(target) {
        "FOUND"@
    } else {
        "not found"@
    }) + "\n"@
}

/// What is said when another adapter does not answer.
pub open spec fn no_neighbour_text(remote: MacAddr) -> Seq<char> {
    "        "@ + mac_short(remote) + " — no response\n"@
}

/// `data` was sent by `target`.
pub open spec fn sent_by(data: Seq<u8>, target: MacAddr) -> bool {
    data.len() >= 14 && mac_at(data, 6) == target
}

/// `data` tells of a station.
pub open spec fn tells_of_station(data: Seq<u8>) -> bool {
    is_bcm_message(data, BCM_STA_INFO_CNF) && data.len() >= BCM_PAYLOAD + 16
}

/// What is said of an answer to the direct probe: of any station's account of
/// itself, or of any other frame from the target.
pub open spec fn direct_text(data: Seq<u8>) -> Seq<char> {
    if tells_of_station(data) {
        let info = station_info_of(data);
        "        ** RESPONDED ** — chip: 0x"@ + hex_word(info.chip_version) + ", uptime: "@
            + decimal(info.uptime_secs as nat) + "s\n"@
    } else {
        "        Got frame from target (etype: "@ + hex_byte(data[12]) + hex_byte(data[13])
            + ")\n"@
    }
}

fn topology_note(payload: &Vec<u8>, macs: &Vec<MacAddr>, target: MacAddr) -> (r: String)
    requires
        macs@ == macs_in(payload@),
    ensures
        r@ == topology_text(payload@, target),
{
    let mut r = String::from_str("        Response: ");
    append_decimal(&mut r, payload.len() as u64);
    r.append(" bytes, ");
    append_decimal(&mut r, macs.len() as u64);
    r.append(" MAC candidates in payload\n");
    if holds_mac(macs, target) {
        r.append("        ** Target ");
        r.append(target.to_string().as_str());
        r.append(" FOUND in NW_INFO **\n");
    } else {
        r.append("        Target NOT in NW_INFO topology\n");
    }
    let ghost head = r@;
    let mut i: usize = 0;
    assert(macs@.take(0).len() == 0);
    assert(r@ == head + address_lines(macs@.take(0), target));
    while i < macs.len()
        invariant
            i <= macs.len(),
            r@ == head + address_lines(macs@.take(i as int), target),
        decreases macs.len() - i,
    {
        let m = macs[i];
        let ghost before = r@;
        assert(macs@.take(i + 1).drop_last() == macs@.take(i as int));
        r.append("          - ");
        r.append(m.to_string().as_str());
        if m == target {
            r.append(" <-- TARGET");
        }
        r.append("\n");
        assert(r@ == before + address_line(m, target));
        i += 1;
    }
    assert(macs@.take(i as int) == macs@);
    assert(r@ == topology_text(payload@, target));
    r
}

fn neighbour_note(remote: MacAddr, payload: &Vec<u8>, target: MacAddr) -> (r: String)
    ensures
        r@ == neighbour_text(remote, payload@, target),
{
    let macs = extract_macs_from_payload(payload.as_slice());
    let mut r = String::from_str("        ");
    r.append(remote.short().as_str());
    r.append(" — ");
    append_decimal(&mut r, macs.len() as u64);
    r.append(" stations, target: ");
    if holds_mac(&macs, target) {
        r.append("FOUND");
    } else {
        r.append("not found");
    }
    r.append("\n");
    r
}

fn no_neighbour_note(remote: MacAddr) -> (r: String)
    ensures
        r@ == no_neighbour_text(remote),
{
    let mut r = String::from_str("        ");
    r.append(remote.short().as_str());
    r.append(" — no response\n");
    r
}

/// Test whether a frame was sent by the target.
pub fn is_from(data: &[u8], target: MacAddr) -> (r: bool)
    ensures
        r == sent_by(data@, target),
{
    match parse_eth(data) {
        Some((_dst, src, _ethertype, _off)) => src == target,
        None => false,
    }
}

/// Tell of an answer to the direct probe; `None` where `data` is none.
pub fn direct_note(data: &[u8], target: MacAddr) -> (r: Option<String>)
    ensures
        match r {
            Some(text) => (tells_of_station(data@) || sent_by(data@, target)) && text@
                == direct_text(data@),
            None => !tells_of_station(data@) && !sent_by(data@, target),
        },
{
    if let Some(info) = parse_sta_info_cnf(data) {
        let mut r = String::from_str("        ** RESPONDED ** — chip: 0x");
        append_hex_word(&mut r, info.chip_version);
        r.append(", uptime: ");
        append_decimal(&mut r, info.uptime_secs as u64);
        r.append("s\n");
        return Some(r);
    }
    if is_from(data, target) {
        let mut r = String::from_str("        Got frame from target (etype: ");
        append_hex_byte(&mut r, data[12]);
        append_hex_byte(&mut r, data[13]);
        r.append(")\n");
        return Some(r);
    }
    None
}

// -- Diagnosis -----------------------------------------------------------------------------

/// What a probe concludes.
#[derive(Debug, Clone, Copy, PartialEq, Eq, Structural)]
pub enum Diagnosis {
    /// The adapter answers or is heard, but does not link properly.
    Reachable,
    /// The adapter is known to the network, but does not respond.
    Unresponsive,
    /// There is no trace of the adapter.
    Unreachable,
}

/// The conclusion from the three findings.
pub open spec fn conclusion(answered: bool, frames: u32, found_in_scan: bool) -> Diagnosis {
    if answered || frames > 0 {
        Diagnosis::Reachable
    } else if found_in_scan {
        Diagnosis::Unresponsive
    } else {
        Diagnosis::Unreachable
    }
}

/// Conclude from the three findings.
pub fn diagnose(answered: bool, frames: u32, found_in_scan: bool) -> (r: Diagnosis)
    ensures
        r == conclusion(answered, frames, found_in_scan),
{
    if answered || frames > 0 {
        Diagnosis::Reachable
    } else if found_in_scan {
        Diagnosis::Unresponsive
    } else {
        Diagnosis::Unreachable
    }
}

/// What to do about an adapter of which there is no trace.
pub const UNREACHABLE_ADVICE: &'static str =
    "  Adapter is completely unreachable.\n  Possible causes:\n    - Powerline PHY hardware failure\n    - Lost network key (re-pair: press pair on working adapter,\n      then on this adapter within 2 minutes)\n    - Electrical isolation (different circuit breaker panel,\n      GFCI outlet, or surge protector blocking signal)\n    - Adapter plugged into power strip (must be direct wall outlet)\n\n  Next steps:\n    1. Verify powerline LED (middle) is lit — if not, no PLC link\n    2. Move adapter next to a working one and try again\n    3. Factory reset: hold pair button 10+ seconds until LEDs flash\n       then re-pair with the network\n";

/// The conclusion and what to do about it, as text.
pub open spec fn diagnosis_text(d: Diagnosis, target: MacAddr) -> Seq<char> {
    "\n  ━━━ Diagnosis ━━━\n"@ + (match d {
        Diagnosis::Reachable => "  Adapter is reachable but not linking properly.\n  Try: cargo run -- restart "@
            + mac_text(target) + "\n"@,
        Diagnosis::Unresponsive => "  Adapter appears in topology but isn't responding.\n  Try power-cycling it and re-pairing.\n"@,
        Diagnosis::Unreachable => UNREACHABLE_ADVICE@,
    }) + "\n"@
}

/// Tell the conclusion and what to do about it.
pub fn diagnosis_note(d: Diagnosis, target: MacAddr) -> (r: String)
    ensures
        r@ == diagnosis_text(d, target),
{
    let mut r = String::from_str("\n  ━━━ Diagnosis ━━━\n");
    let ghost head = r@;
    match d {
        Diagnosis::Reachable => {
            r.append("  Adapter is reachable but not linking properly.\n  Try: cargo run -- restart ");
            r.append(target.to_string().as_str());
            r.append("\n");
        },
        Diagnosis::Unresponsive => {
            r.append(
                "  Adapter appears in topology but isn't responding.\n  Try power-cycling it and re-pairing.\n",
            );
        },
        Diagnosis::Unreachable => {
            r.append(UNREACHABLE_ADVICE);
        },
    }
    r.append("\n");
    assert(r@ == diagnosis_text(d, target));
    r
}

// -- The course of a probe -------------------------------------------------------------------

/// Where a probe is, once the scan is done: listening for the local adapter's answer,
/// for that of the n-th other adapter, for that of the target itself, for any frame
/// of the target; or over.
#[derive(Debug, Clone, Copy, PartialEq, Eq, Structural)]
pub enum ProbeStage {
    Local,
    Remote(usize),
    Direct,
    Passive,
    Done,
}

/// What to do next.
pub enum ProbeStep {
    /// Go on listening.
    Listen,
    /// Send the frame and listen for so many seconds.
    Send { frame: Vec<u8>, wait_secs: u64 },
    /// Listen for so many seconds.
    Wait { wait_secs: u64 },
    /// The probe is over.
    Finished,
}

/// A probe under way.
pub struct ProbeRun {
    pub target: MacAddr,
    pub host: MacAddr,
    pub found_in_scan: bool,
    pub local: MacAddr,
    pub remotes: Vec<MacAddr>,
    pub stage: ProbeStage,
    pub answered: bool,
    pub frames: u32,
}

pub struct ProbeView {
    pub target: MacAddr,
    pub host: MacAddr,
    pub found_in_scan: bool,
    pub local: MacAddr,
    pub remotes: Seq<MacAddr>,
    pub stage: ProbeStage,
    pub answered: bool,
    pub frames: u32,
}

impl View for ProbeRun {
    type V = ProbeView;

    open spec fn view(&self) -> ProbeView {
        ProbeView {
            target: self.target,
            host: self.host,
            found_in_scan: self.found_in_scan,
            local: self.local,
            remotes: self.remotes@,
            stage: self.stage,
            answered: self.answered,
            frames: self.frames,
        }
    }
}

impl ProbeView {
    /// Other adapters are asked by their position.
    pub open spec fn valid(self) -> bool {
        self.stage matches ProbeStage::Remote(n) ==> n < self.remotes.len()
    }

    /// The stage in which the n-th other adapter is asked, or the target once all
    /// others were.
    pub open spec fn asking(self, n: int) -> ProbeStage {
        if n < self.remotes.len() {
            ProbeStage::Remote(n as usize)
        } else {
            ProbeStage::Direct
        }
    }

    /// The stage after this one.
    pub open spec fn next_stage(self) -> ProbeStage {
        match self.stage {
            ProbeStage::Local => self.asking(0),
            ProbeStage::Remote(n) => self.asking(n + 1),
            ProbeStage::Direct => ProbeStage::Passive,
            _ => ProbeStage::Done,
        }
    }

    pub open spec fn at(self, stage: ProbeStage) -> ProbeView {
        ProbeView { stage, ..self }
    }

    /// What is said before the n-th other adapter is asked, or the target.
    pub open spec fn asking_text(self, n: int) -> Seq<char> {
        (if n == 0 {
            "\n  [3/5] Querying other online adapters...\n"@
        } else {
            Seq::empty()
        }) + (if n < self.remotes.len() {
            Seq::empty()
        } else {
            "\n  [4/5] Direct probe to "@ + mac_text(self.target) + "...\n"@
        })
    }

    /// What is said on passing from this stage to the next.
    pub open spec fn passage_text(self) -> Seq<char> {
        match self.stage {
            ProbeStage::Local => self.asking_text(0),
            ProbeStage::Remote(n) => self.asking_text(n + 1),
            ProbeStage::Direct => "\n  [5/5] Passive listen for frames from "@ + mac_text(
                self.target,
            ) + " (5s)...\n"@,
            ProbeStage::Passive => diagnosis_text(
                conclusion(self.answered, self.frames, self.found_in_scan),
                self.target,
            ),
            ProbeStage::Done => Seq::empty(),
        }
    }

    /// `data` answers what the probe has asked.
    pub open spec fn answers(self, data: Seq<u8>) -> bool {
        match self.stage {
            ProbeStage::Local | ProbeStage::Remote(_) => is_bcm_message(data, BCM_NW_INFO_CNF),
            ProbeStage::Direct => tells_of_station(data) || sent_by(data, self.target),
            _ => false,
        }
    }

    /// What is said of an answer.
    pub open spec fn answer_text(self, data: Seq<u8>) -> Seq<char> {
        let payload = data.skip(BCM_PAYLOAD as int);
        match self.stage {
            ProbeStage::Local => topology_text(payload, self.target) + (if macs_in(payload).len()
                == 0 {
                no_topology_text()
            } else {
                Seq::empty()
            }),
            ProbeStage::Remote(n) => neighbour_text(self.remotes[n as int], payload, self.target),
            _ => direct_text(data),
        }
    }

    /// What is said when the time to listen has passed.
    pub open spec fn silence_text(self) -> Seq<char> {
        match self.stage {
            ProbeStage::Local => no_topology_text(),
            ProbeStage::Remote(n) => no_neighbour_text(self.remotes[n as int]),
            ProbeStage::Direct => "        No response — adapter unreachable\n"@,
            ProbeStage::Passive => if self.frames > 0 {
                "        Captured "@ + decimal(self.frames as nat) + " frames from target\n"@
            } else {
                "        No frames received — adapter silent on network\n"@
            },
            ProbeStage::Done => Seq::empty(),
        }
    }

    /// `data` is one of the frames that are counted.
    pub open spec fn counts(self, data: Seq<u8>) -> bool {
        self.stage is Passive && sent_by(data, self.target)
    }

    /// The probe after `data` was received.
    pub open spec fn after_frame(self, data: Seq<u8>) -> ProbeView {
        if self.answers(data) {
            let heard = ProbeView { answered: self.answered || self.stage is Direct, ..self };
            heard.at(self.next_stage())
        } else if self.counts(data) {
            ProbeView { frames: (self.frames + 1) as u32, ..self }
        } else {
            self
        }
    }

    /// What is said of `data`.
    pub open spec fn frame_text(self, data: Seq<u8>) -> Seq<char> {
        if self.answers(data) {
            self.answer_text(data) + self.passage_text()
        } else if self.counts(data) && self.frames == 0 {
            "        ** Receiving frames! **\n"@
        } else {
            Seq::empty()
        }
    }
}

/// `step` is what the probe needs on reaching `run`.
pub open spec fn is_probe_step(step: ProbeStep, run: ProbeView) -> bool {
    match run.stage {
        ProbeStage::Local => step matches ProbeStep::Send { frame, wait_secs } && frame@
            == bcm_frame(run.local, run.host, BCM_NW_INFO_REQ, 1, Seq::empty()) && wait_secs == 3,
        ProbeStage::Remote(n) => step matches ProbeStep::Send { frame, wait_secs } && frame@
            == bcm_frame(run.remotes[n as int], run.host, BCM_NW_INFO_REQ, 2, Seq::empty())
            && wait_secs == 2,
        ProbeStage::Direct => step matches ProbeStep::Send { frame, wait_secs } && frame@
            == bcm_frame(run.target, run.host, BCM_STA_INFO_REQ, 3, Seq::empty()) && wait_secs == 3,
        ProbeStage::Passive => step matches ProbeStep::Wait { wait_secs } && wait_secs == 5,
        ProbeStage::Done => step is Finished,
    }
}

/// How a probe begins after the scan: with the local adapter, if there is one.
pub open spec fn probe_of(scan: ScanView, target: MacAddr, host: MacAddr) -> ProbeView {
    let local = first_local(scan.devices);
    let blank = ProbeView {
        target,
        host,
        found_in_scan: lists_mac(scan.devices, target),
        local: match local {
            Some(m) => m,
            None => host,
        },
        remotes: other_remotes(scan.devices, target),
        stage: ProbeStage::Local,
        answered: false,
        frames: 0,
    };
    if local is Some {
        blank
    } else {
        blank.at(blank.asking(0))
    }
}

/// What is said when the probe begins.
pub open spec fn opening_text(scan: ScanView, target: MacAddr, host: MacAddr) -> Seq<char> {
    match first_local(scan.devices) {
        Some(local) => "\n  [2/5] BCM NW_INFO from local adapter ("@ + mac_short(local) + ")...\n"@,
        None => probe_of(scan, target, host).asking_text(0),
    }
}

impl ProbeRun {
    /// Begin a probe: what to say, and what to do.
    pub fn begin(scan: &NetworkScan, target: MacAddr, host: MacAddr) -> (r: (
        Self,
        String,
        ProbeStep,
    ))
        ensures
            r.0@ == probe_of(scan@, target, host),
            r.0@.valid(),
            r.1@ == opening_text(scan@, target, host),
            is_probe_step(r.2, r.0@),
    {
        let local = find_local(&scan.devices);
        let mut run = ProbeRun {
            target,
            host,
            found_in_scan: is_listed(&scan.devices, target),
            local: match local {
                Some(m) => m,
                None => host,
            },
            remotes: find_remotes(&scan.devices, target),
            stage: ProbeStage::Local,
            answered: false,
            frames: 0,
        };
        match local {
            Some(m) => {
                let mut text = String::from_str("\n  [2/5] BCM NW_INFO from local adapter (");
                text.append(m.short().as_str());
                text.append(")...\n");
                let frame = build_nw_info_req(m, host, 1);
                (run, text, ProbeStep::Send { frame, wait_secs: 3 })
            },
            None => {
                let (text, step) = run.ask(0);
                (run, text, step)
            },
        }
    }

    /// Ask the n-th other adapter, or the target once all others were.
    fn ask(&mut self, n: usize) -> (r: (String, ProbeStep))
        ensures
            final(self)@ == old(self)@.at(old(self)@.asking(n as int)),
            final(self)@.valid(),
            r.0@ == old(self)@.asking_text(n as int),
            is_probe_step(r.1, final(self)@),
    {
        let mut text = String::new();
        if n == 0 {
            text.append("\n  [3/5] Querying other online adapters...\n");
        }
        if n < self.remotes.len() {
            self.stage = ProbeStage::Remote(n);
            let frame = build_nw_info_req(self.remotes[n], self.host, 2);
            assert(text@ == old(self)@.asking_text(n as int));
            (text, ProbeStep::Send { frame, wait_secs: 2 })
        } else {
            self.stage = ProbeStage::Direct;
            text.append("\n  [4/5] Direct probe to ");
            text.append(self.target.to_string().as_str());
            text.append("...\n");
            let frame = build_sta_info_req(self.target, self.host, 3);
            assert(text@ == old(self)@.asking_text(n as int));
            (text, ProbeStep::Send { frame, wait_secs: 3 })
        }
    }

    /// Go on to the next stage.
    fn pass(&mut self) -> (r: (String, ProbeStep))
        requires
            old(self)@.valid(),
        ensures
            final(self)@ == old(self)@.at(old(self)@.next_stage()),
            final(self)@.valid(),
            r.0@ == old(self)@.passage_text(),
            is_probe_step(r.1, final(self)@),
    {
        match self.stage {
            ProbeStage::Local => self.ask(0),
            ProbeStage::Remote(n) => {
                assert(n < self.remotes.len());
                self.ask(n + 1)
            },
            ProbeStage::Direct => {
                let mut text = String::from_str("\n  [5/5] Passive listen for frames from ");
                text.append(self.target.to_string().as_str());
                text.append(" (5s)...\n");
                self.stage = ProbeStage::Passive;
                (text, ProbeStep::Wait { wait_secs: 5 })
            },
            ProbeStage::Passive => {
                let d = diagnose(self.answered, self.frames, self.found_in_scan);
                self.stage = ProbeStage::Done;
                (diagnosis_note(d, self.target), ProbeStep::Finished)
            },
            ProbeStage::Done => (String::new(), ProbeStep::Finished),
        }
    }

    /// What to say of an answer to a question about the network; `None` where `data`
    /// is none.
    fn network_answer(&self, data: &[u8]) -> (r: Option<String>)
        requires
            self@.valid(),
            self.stage is Local || self.stage is Remote,
        ensures
            match r {
                Some(text) => self@.answers(data@) && text@ == self@.answer_text(data@),
                None => !self@.answers(data@),
            },
    {
        match parse_nw_info_cnf(data) {
            Some((_src, payload)) => {
                if let ProbeStage::Remote(n) = self.stage {
                    return Some(neighbour_note(self.remotes[n], &payload, self.target));
                }
                let macs = extract_macs_from_payload(payload.as_slice());
                let mut text = topology_note(&payload, &macs, self.target);
                if macs.len() == 0 {
                    text.append("        No NW_INFO response (may not be supported)\n");
                }
                assert(text@ == self@.answer_text(data@));
                Some(text)
            },
            None => None,
        }
    }

    /// A frame was received: what to say, and what to do.
    pub fn on_frame(&mut self, data: &[u8]) -> (r: (String, ProbeStep))
        requires
            old(self)@.valid(),
            old(self)@.counts(data@) ==> old(self).frames < u32::MAX,
        ensures
            final(self)@ == old(self)@.after_frame(data@),
            final(self)@.valid(),
            r.0@ == old(self)@.frame_text(data@),
            if old(self)@.answers(data@) {
                is_probe_step(r.1, final(self)@)
            } else {
                r.1 is Listen
            },
    {
        let answer = match self.stage {
            ProbeStage::Local => self.network_answer(data),
            ProbeStage::Remote(_) => self.network_answer(data),
            ProbeStage::Direct => direct_note(data, self.target),
            _ => None,
        };
        match answer {
            Some(mut text) => {
                if let ProbeStage::Direct = self.stage {
                    self.answered = true;
                }
                let (more, step) = self.pass();
                text.append(more.as_str());
                (text, step)
            },
            None => {
                let mut text = String::new();
                if let ProbeStage::Passive = self.stage {
                    if is_from(data, self.target) {
                        self.frames = self.frames + 1;
                        if self.frames == 1 {
                            text.append("        ** Receiving frames! **\n");
                        }
                    }
                }
                assert(text@ == old(self)@.frame_text(data@));
                (text, ProbeStep::Listen)
            },
        }
    }

    /// The time to listen has passed: what to say, and what to do.
    pub fn on_timeout(&mut self) -> (r: (String, ProbeStep))
        requires
            old(self)@.valid(),
        ensures
            final(self)@ == old(self)@.at(old(self)@.next_stage()),
            final(self)@.valid(),
            r.0@ == old(self)@.silence_text() + old(self)@.passage_text(),
            is_probe_step(r.1, final(self)@),
    {
        let mut text = String::new();
        match self.stage {
            ProbeStage::Local => {
                text.append("        No NW_INFO response (may not be supported)\n");
            },
            ProbeStage::Remote(n) => {
                text = no_neighbour_note(self.remotes[n]);
            },
            ProbeStage::Direct => {
                text.append("        No response — adapter unreachable\n");
            },
            ProbeStage::Passive => {
                if self.frames > 0 {
                    text.append("        Captured ");
                    append_decimal(&mut text, self.frames as u64);
                    text.append(" frames from target\n");
                } else {
                    text.append("        No frames received — adapter silent on network\n");
                }
            },
            ProbeStage::Done => {},
        }
        assert(text@ == old(self)@.silence_text());
        let (more, step) = self.pass();
        text.append(more.as_str());
        (text, step)
    }
}

// -- Laws ------------------------------------------------------------------------------------

/// How often a probe is still going to listen.
pub open spec fn listens_left(run: ProbeView) -> int {
    match run.stage {
        ProbeStage::Local => (run.remotes.len() + 3) as int,
        ProbeStage::Remote(n) => run.remotes.len() - n + 2,
        ProbeStage::Direct => 2,
        ProbeStage::Passive => 1,
        ProbeStage::Done => 0,
    }
}

/// A probe listens at most once for the local adapter and for each other one, once
/// for the target's answer and once for its frames: every answer and every timeout
/// brings it one step nearer to its end.
pub proof fn law_probe_ends(
    scan: ScanView,
    target: MacAddr,
    host: MacAddr,
    run: ProbeView,
    data: Seq<u8>,
)
    requires
        run.valid(),
        run.remotes.len() <= usize::MAX,
    ensures
        listens_left(probe_of(scan, target, host)) <= other_remotes(scan.devices, target).len() + 3,
        !(run.stage is Done) ==> listens_left(run.at(run.next_stage())) == listens_left(run) - 1,
        run.answers(data) ==> listens_left(run.after_frame(data)) == listens_left(run) - 1,
        !run.answers(data) ==> listens_left(run.after_frame(data)) == listens_left(run),
{
}

/// The other adapters that are asked are the remote devices of the scan without the
/// target.
pub proof fn law_other_remotes(devices: Seq<DeviceView>, target: MacAddr, mac: MacAddr)
    ensures
        other_remotes(devices, target).contains(mac) <==> mac != target && exists|i: int|
            0 <= i < devices.len() && !(#[trigger] devices[i]).is_local && devices[i].mac == mac,
    decreases devices.len(),
{
    if devices.len() > 0 {
        let init = devices.drop_last();
        let before = other_remotes(init, target);
        let now = other_remotes(devices, target);
        law_other_remotes(init, target, mac);
        if before.contains(mac) {
            let i = choose|i: int|
                0 <= i < init.len() && !(#[trigger] init[i]).is_local && init[i].mac == mac;
            assert(devices[i] == init[i]);
            let k = choose|k: int| 0 <= k < before.len() && before[k] == mac;
            assert(now[k] == mac);
        }
        if mac != target && exists|i: int|
            0 <= i < devices.len() && !(#[trigger] devices[i]).is_local && devices[i].mac == mac {
            let i = choose|i: int|
                0 <= i < devices.len() && !(#[trigger] devices[i]).is_local && devices[i].mac
                    == mac;
            if i < init.len() {
                assert(init[i] == devices[i]);
            } else {
                assert(now[now.len() - 1] == mac);
            }
        }
        if now.contains(mac) && !before.contains(mac) {
            assert(devices[devices.len() - 1] == devices.last());
        }
    }
}

/// An adapter is called unreachable only if nothing was heard of it at all.
pub proof fn law_unreachable(answered: bool, frames: u32, found_in_scan: bool)
    ensures
        conclusion(answered, frames, found_in_scan) is Unreachable <==> !answered && frames == 0
            && !found_in_scan,
        conclusion(answered, frames, found_in_scan) is Reachable <==> answered || frames > 0,
{
}

/// The first of the local devices is the one that is asked for its view of the network.
pub proof fn law_first_local(devices: Seq<DeviceView>, n: int)
    requires
        0 <= n <= devices.len(),
        forall|k: int| 0 <= k < n ==> !(#[trigger] devices[k]).is_local,
        n < devices.len() ==> devices[n].is_local,
    ensures
        n < devices.len() ==> first_local(devices) == Some(devices[n].mac),
        n == devices.len() ==> first_local(devices) is None,
    decreases devices.len(),
{
    if devices.len() > 0 {
        let init = devices.drop_last();
        assert(devices.last() == devices[devices.len() - 1]);
        assert(forall|k: int| 0 <= k < init.len() ==> #[trigger] init[k] == devices[k]);
        if n < devices.len() {
            law_first_local(init, n);
        } else {
            law_first_local(init, n - 1);
        }
    }
}

/// The other adapters are asked in the order of the scan: a further device is asked
/// last, where it is remote and not the target.
pub proof fn law_others_in_order(devices: Seq<DeviceView>, d: DeviceView, target: MacAddr)
    ensures
        other_remotes(devices.push(d), target) == if d.is_local || d.mac == target {
            other_remotes(devices, target)
        } else {
            other_remotes(devices, target) + seq![d.mac]
        },
{
    assert(devices.push(d).drop_last() == devices);
    assert(other_remotes(devices.push(d), target) =~= if d.is_local || d.mac == target {
        other_remotes(devices, target)
    } else {
        other_remotes(devices, target) + seq![d.mac]
    });
}

/// How a probe begins: nothing is heard yet, and the target is known from the scan
/// exactly if one of its devices has the target's address. With a local adapter the
/// probe begins there, else with the first other adapter, else with the target.
pub proof fn law_probe_begins(scan: ScanView, target: MacAddr, host: MacAddr)
    requires
        other_remotes(scan.devices, target).len() <= usize::MAX,
    ensures
        probe_of(scan, target, host).valid(),
        probe_of(scan, target, host).target == target,
        probe_of(scan, target, host).host == host,
        probe_of(scan, target, host).found_in_scan <==> exists|i: int|
            0 <= i < scan.devices.len() && (#[trigger] scan.devices[i]).mac == target,
        probe_of(scan, target, host).remotes == other_remotes(scan.devices, target),
        !probe_of(scan, target, host).answered,
        probe_of(scan, target, host).frames == 0,
        match first_local(scan.devices) {
            Some(local) => probe_of(scan, target, host).stage is Local && probe_of(
                scan,
                target,
                host,
            ).local == local,
            None => probe_of(scan, target, host).stage == if other_remotes(
                scan.devices,
                target,
            ).len() > 0 {
                ProbeStage::Remote(0)
            } else {
                ProbeStage::Direct
            },
        },
{
}

/// The stages follow each other: the local adapter, the other adapters one by one, the
/// target, then its frames.
pub proof fn law_stages_in_order(run: ProbeView, n: usize)
    requires
        run.valid(),
        run.remotes.len() <= usize::MAX,
    ensures
        run.stage is Local ==> run.next_stage() == if run.remotes.len() > 0 {
            ProbeStage::Remote(0)
        } else {
            ProbeStage::Direct
        },
        run.stage == ProbeStage::Remote(n) && n + 1 < run.remotes.len() ==> run.next_stage()
            == ProbeStage::Remote((n + 1) as usize),
        run.stage == ProbeStage::Remote(n) && n + 1 == run.remotes.len()
            ==> run.next_stage() is Direct,
        run.stage is Direct ==> run.next_stage() is Passive,
        run.stage is Passive ==> run.next_stage() is Done,
{
}

/// Whom a probe asks, for what, and how long it listens: the local adapter and the
/// others for their view of the network, the target for an account of itself; then it
/// listens only.
pub proof fn law_probe_requests(step: ProbeStep, run: ProbeView)
    requires
        is_probe_step(step, run),
    ensures
        step is Send <==> run.stage is Local || run.stage is Remote || run.stage is Direct,
        step is Wait <==> run.stage is Passive,
        step is Finished <==> run.stage is Done,
        step matches ProbeStep::Wait { wait_secs } ==> wait_secs == 5,
        step matches ProbeStep::Send { frame, wait_secs } ==> {
            &&& frame@.subrange(6, 12) == run.host.0@
            &&& frame@.subrange(12, 15) == seq![0x89u8, 0x12, 2]
            &&& run.stage is Local ==> frame@.subrange(0, 6) == run.local.0@ && frame@[15] + 256
                * frame@[16] == 0xA028 && wait_secs == 3
            &&& run.stage matches ProbeStage::Remote(n) ==> frame@.subrange(0, 6)
                == run.remotes[n as int].0@ && frame@[15] + 256 * frame@[16] == 0xA028 && wait_secs
                == 2
            &&& run.stage is Direct ==> frame@.subrange(0, 6) == run.target.0@ && frame@[15] + 256
                * frame@[16] == 0xA04C && wait_secs == 3
        },
{
    match run.stage {
        ProbeStage::Local => law_bcm_frame_bytes(
            run.local,
            run.host,
            BCM_NW_INFO_REQ,
            1,
            Seq::empty(),
        ),
        ProbeStage::Remote(n) => law_bcm_frame_bytes(
            run.remotes[n as int],
            run.host,
            BCM_NW_INFO_REQ,
            2,
            Seq::empty(),
        ),
        ProbeStage::Direct => law_bcm_frame_bytes(
            run.target,
            run.host,
            BCM_STA_INFO_REQ,
            3,
            Seq::empty(),
        ),
        _ => {},
    }
}

/// `data` comes from `target`.
pub open spec fn comes_from(data: Seq<u8>, target: MacAddr) -> bool {
    data.len() >= 14 && data.subrange(6, 12) == target.0@
}

/// `data` is a station's account of itself.
pub open spec fn is_account(data: Seq<u8>) -> bool {
    data.len() >= 39 && data.subrange(12, 17) == seq![0x89u8, 0x12, 2, 0x4D, 0xA0]
}

proof fn lemma_origin(data: Seq<u8>, target: MacAddr)
    ensures
        sent_by(data, target) <==> comes_from(data, target),
        tells_of_station(data) <==> is_account(data),
{
    law_messages_are_known_by_their_header(data, BCM_STA_INFO_CNF);
    if data.len() >= 14 {
        law_address_is_read_in_order(data, 6, 0);
        if data.subrange(6, 12) == target.0@ {
            assert(mac_at(data, 6).0 =~= target.0);
        }
    }
    if data.len() >= 39 {
        let h = data.subrange(12, 17);
        assert(h[0] == data[12] && h[1] == data[13] && h[2] == data[14] && h[3] == data[15] && h[4]
            == data[16]);
        if tells_of_station(data) {
            assert(h =~= seq![0x89u8, 0x12, 2, 0x4D, 0xA0]);
        }
    }
}

/// The probe after frames were received and times to listen have passed; `None` stands
/// for the latter.
pub open spec fn after_events(run: ProbeView, events: Seq<Option<Seq<u8>>>) -> ProbeView
    decreases events.len(),
{
    if events.len() == 0 {
        run
    } else {
        let before = after_events(run, events.drop_last());
        match events.last() {
            Some(data) => before.after_frame(data),
            None => before.at(before.next_stage()),
        }
    }
}

/// With the i-th event something is heard of the target: it answers the direct probe,
/// or a station does with an account of itself, or a frame of the target is heard in
/// the end.
pub open spec fn is_heard(run: ProbeView, events: Seq<Option<Seq<u8>>>, i: int) -> bool {
    &&& 0 <= i < events.len()
    &&& events[i] matches Some(data)
    &&& {
        ||| after_events(run, events.take(i)).stage is Direct && (comes_from(data, run.target)
            || is_account(data))
        ||| after_events(run, events.take(i)).stage is Passive && comes_from(data, run.target)
    }
}

proof fn lemma_heard(run: ProbeView, events: Seq<Option<Seq<u8>>>)
    requires
        !run.answered,
        run.frames == 0,
        events.len() < u32::MAX,
    ensures
        after_events(run, events).target == run.target,
        after_events(run, events).found_in_scan == run.found_in_scan,
        after_events(run, events).remotes == run.remotes,
        after_events(run, events).frames <= events.len(),
        after_events(run, events).answered || after_events(run, events).frames > 0 <==> exists|i: int|
            #[trigger] is_heard(run, events, i),
    decreases events.len(),
{
    if events.len() > 0 {
        let init = events.drop_last();
        let last = events.len() - 1;
        lemma_heard(run, init);
        let before = after_events(run, init);
        assert(events.take(last) == init);
        assert(events[last] == events.last());
        if let Some(data) = events.last() {
            lemma_origin(data, run.target);
        }
        assert forall|i: int| 0 <= i < last implies (#[trigger] is_heard(run, events, i) <==> is_heard(
            run,
            init,
            i,
        )) by {
            assert(events.take(i) == init.take(i));
        }
        if exists|i: int| #[trigger] is_heard(run, init, i) {
            let i = choose|i: int| #[trigger] is_heard(run, init, i);
            assert(is_heard(run, events, i));
        }
        if exists|i: int| #[trigger] is_heard(run, events, i) {
            let i = choose|i: int| #[trigger] is_heard(run, events, i);
            if i < last {
                assert(is_heard(run, init, i));
            }
        }
        if after_events(run, events).answered && !before.answered {
            assert(is_heard(run, events, last));
        }
        if after_events(run, events).frames > before.frames {
            assert(is_heard(run, events, last));
        }
    }
}

/// What a probe concludes in the end, whatever happened on the way. An adapter of which
/// anything was heard is reachable. Else it depends on the scan: an adapter that is
/// among its devices does not respond, and one that is not is unreachable.
pub proof fn law_probe_verdict(
    scan: ScanView,
    target: MacAddr,
    host: MacAddr,
    events: Seq<Option<Seq<u8>>>,
)
    requires
        events.len() < u32::MAX,
        after_events(probe_of(scan, target, host), events).stage is Passive,
    ensures
        ({
            let begun = probe_of(scan, target, host);
            let end = after_events(begun, events);
            let heard = exists|i: int| #[trigger] is_heard(begun, events, i);
            let listed = exists|i: int|
                0 <= i < scan.devices.len() && (#[trigger] scan.devices[i]).mac == target;
            &&& end.next_stage() is Done
            &&& heard ==> end.passage_text()
                == "\n  ━━━ Diagnosis ━━━\n"@ + ("  Adapter is reachable but not linking properly.\n  Try: cargo run -- restart "@
                + mac_text(target) + "\n"@) + "\n"@
            &&& !heard && listed ==> end.passage_text()
                == "\n  ━━━ Diagnosis ━━━\n"@ + "  Adapter appears in topology but isn't responding.\n  Try power-cycling it and re-pairing.\n"@
                + "\n"@
            &&& !heard && !listed ==> end.passage_text() == "\n  ━━━ Diagnosis ━━━\n"@
                + UNREACHABLE_ADVICE@ + "\n"@
        }),
{
    lemma_heard(probe_of(scan, target, host), events);
}

proof fn lemma_silence(run: ProbeView, events: Seq<Option<Seq<u8>>>)
    requires
        run.valid(),
        run.remotes.len() <= usize::MAX,
        forall|i: int| 0 <= i < events.len() ==> #[trigger] events[i] is None,
        events.len() <= listens_left(run),
    ensures
        after_events(run, events).valid(),
        after_events(run, events).remotes == run.remotes,
        listens_left(after_events(run, events)) == listens_left(run) - events.len(),
    decreases events.len(),
{
    if events.len() > 0 {
        let init = events.drop_last();
        assert forall|i: int| 0 <= i < init.len() implies #[trigger] init[i] is None by {
            assert(init[i] == events[i]);
        }
        lemma_silence(run, init);
        assert(events[events.len() - 1] == events.last());
    }
}

/// A probe that nobody answers lets every time to listen pass: one for the local
/// adapter, one for each other adapter, one for the target's answer and one for its
/// frames. Then the adapter is called unresponsive exactly if a device of the scan has
/// its address, and unreachable otherwise.
pub proof fn law_silent_probe(
    scan: ScanView,
    target: MacAddr,
    host: MacAddr,
    events: Seq<Option<Seq<u8>>>,
)
    requires
        other_remotes(scan.devices, target).len() <= usize::MAX,
        events.len() == other_remotes(scan.devices, target).len() + if first_local(
            scan.devices,
        ) is Some {
            2int
        } else {
            1
        },
        events.len() < u32::MAX,
        forall|i: int| 0 <= i < events.len() ==> #[trigger] events[i] is None,
    ensures
        ({
            let end = after_events(probe_of(scan, target, host), events);
            &&& end.stage is Passive
            &&& end.next_stage() is Done
            &&& end.passage_text() == "\n  ━━━ Diagnosis ━━━\n"@ + (if exists|i: int|
                0 <= i < scan.devices.len() && (#[trigger] scan.devices[i]).mac == target {
                "  Adapter appears in topology but isn't responding.\n  Try power-cycling it and re-pairing.\n"@
            } else {
                UNREACHABLE_ADVICE@
            }) + "\n"@
        }),
{
    let begun = probe_of(scan, target, host);
    lemma_silence(begun, events);
    assert(listens_left(after_events(begun, events)) == 1);
    assert(after_events(begun, events).stage is Passive);
    law_probe_verdict(scan, target, host, events);
    assert forall|i: int| !(#[trigger] is_heard(begun, events, i)) by {
        if 0 <= i < events.len() {
            assert(events[i] is None);
        }
    }
}

/// What a probe takes for an answer and what it counts.
pub proof fn law_probe_answers(run: ProbeView, data: Seq<u8>)
    ensures
        run.stage is Local || run.stage is Remote ==> (run.answers(data) <==> data.len() >= 23
            && data.subrange(12, 17) == seq![0x89u8, 0x12, 2, 0x29, 0xA0]),
        run.stage is Direct ==> (run.answers(data) <==> comes_from(data, run.target)
            || is_account(data)),
        run.stage is Passive || run.stage is Done ==> !run.answers(data),
        run.counts(data) <==> run.stage is Passive && comes_from(data, run.target),
{
    lemma_origin(data, run.target);
    law_messages_are_known_by_their_header(data, BCM_NW_INFO_CNF);
    if data.len() >= 23 {
        let h = data.subrange(12, 17);
        assert(h[0] == data[12] && h[1] == data[13] && h[2] == data[14] && h[3] == data[15] && h[4]
            == data[16]);
        if is_bcm_message(data, BCM_NW_INFO_CNF) {
            assert(h =~= seq![0x89u8, 0x12, 2, 0x29, 0xA0]);
        }
    }
}

/// The address of a station occurs in `payload`.
pub open spec fn occurs(payload: Seq<u8>, m: MacAddr) -> bool {
    &&& m.0@[0] % 2 == 0
    &&& exists|k: int| 0 <= k < 6 && #[trigger] m.0@[k] != 0
    &&& exists|i: int| 0 <= i <= payload.len() - 6 && #[trigger] payload.subrange(i, i + 6) == m.0@
}

proof fn lemma_occurs(payload: Seq<u8>, m: MacAddr)
    ensures
        macs_in(payload).contains(m) <==> occurs(payload, m),
{
    law_addresses_in_payload(payload, m);
    law_station_addresses(m);
    if macs_in(payload).contains(m) {
        let i = choose|i: int| 0 <= i <= payload.len() - 6 && #[trigger] mac_at(payload, i) == m;
        law_address_is_read_in_order(payload, i, 0);
        assert(payload.subrange(i, i + 6) == m.0@);
    }
    if occurs(payload, m) {
        let i = choose|i: int|
            0 <= i <= payload.len() - 6 && #[trigger] payload.subrange(i, i + 6) == m.0@;
        law_address_is_read_in_order(payload, i, 0);
        assert(mac_at(payload, i).0 =~= m.0);
        assert(mac_at(payload, i) == m);
    }
}

/// What is said of the scan: whether one of its devices has the target's address,
/// whether one of its links touches it, and how many devices there are beside the
/// local one.
pub proof fn law_scan_note(scan: ScanView, target: MacAddr)
    requires
        scan.devices.len() > 0,
    ensures
        ({
            let listed = exists|i: int|
                0 <= i < scan.devices.len() && (#[trigger] scan.devices[i]).mac == target;
            let linked = exists|i: int|
                0 <= i < scan.links.len() && ((#[trigger] scan.links[i]).from == target
                    || scan.links[i].to == target);
            let rest = "        Online devices: "@ + decimal((scan.devices.len() - 1) as nat)
                + " (+ local)\n"@;
            &&& !listed ==> scan_text(scan, target) == "        NOT found in scan\n"@ + rest
            &&& listed && linked ==> scan_text(scan, target)
                == "        Found in scan (has link: "@ + "true"@ + ")\n"@ + rest
            &&& listed && !linked ==> scan_text(scan, target)
                == "        Found in scan (has link: "@ + "false"@ + ")\n"@ + rest
        }),
{
    let rest = "        Online devices: "@ + decimal((scan.devices.len() - 1) as nat)
        + " (+ local)\n"@;
    assert(scan_text(scan, target) =~= (if lists_mac(scan.devices, target) {
        "        Found in scan (has link: "@ + (if touches(scan.links, target) {
            "true"@
        } else {
            "false"@
        }) + ")\n"@
    } else {
        "        NOT found in scan\n"@
    }) + rest);
}

/// What is said of the adapters' views of the network: the target counts as found
/// exactly if its address occurs in the payload, at whatever place.
pub proof fn law_views_of_the_network(payload: Seq<u8>, remote: MacAddr, target: MacAddr)
    ensures
        begins_with(
            topology_text(payload, target),
            "        Response: "@ + decimal(payload.len()) + " bytes, "@ + decimal(
                macs_in(payload).len(),
            ) + " MAC candidates in payload\n"@ + if occurs(payload, target) {
                "        ** Target "@ + mac_text(target) + " FOUND in NW_INFO **\n"@
            } else {
                "        Target NOT in NW_INFO topology\n"@
            },
        ),
        neighbour_text(remote, payload, target) == "        "@ + mac_short(remote) + " — "@
            + decimal(macs_in(payload).len()) + " stations, target: "@ + (if occurs(
            payload,
            target,
        ) {
            "FOUND"@
        } else {
            "not found"@
        }) + "\n"@,
{
    lemma_occurs(payload, target);
    let head = "        Response: "@ + decimal(payload.len()) + " bytes, "@ + decimal(
        macs_in(payload).len(),
    ) + " MAC candidates in payload\n"@ + if occurs(payload, target) {
        "        ** Target "@ + mac_text(target) + " FOUND in NW_INFO **\n"@
    } else {
        "        Target NOT in NW_INFO topology\n"@
    };
    let whole = topology_text(payload, target);
    assert(whole == head + address_lines(macs_in(payload), target));
    assert(whole.take(head.len() as int) =~= head);
}

/// Every address that was found is listed on a line of its own, and only the target's
/// is marked.
pub proof fn law_found_addresses_are_listed(macs: Seq<MacAddr>, m: MacAddr, target: MacAddr)
    ensures
        address_lines(Seq::empty(), target).len() == 0,
        m != target ==> address_lines(macs.push(m), target) == address_lines(macs, target) + (
        "          - "@ + mac_text(m) + "\n"@),
        m == target ==> address_lines(macs.push(m), target) == address_lines(macs, target) + (
        "          - "@ + mac_text(m) + " <-- TARGET"@ + "\n"@),
{
    assert(macs.push(m).drop_last() == macs);
    assert("          - "@ + mac_text(m) + Seq::<char>::empty() =~= "          - "@ + mac_text(m));
}

/// What is said of an answer to the direct probe: chip and uptime where a station gives
/// an account of itself, else the EtherType of the frame.
pub proof fn law_direct_answer(data: Seq<u8>)
    requires
        data.len() >= 14,
    ensures
        is_account(data) ==> direct_text(data) == "        ** RESPONDED ** — chip: 0x"@ + hex_word(
            le32_at(data, 23),
        ) + ", uptime: "@ + decimal(
            if data.len() >= 71 {
                le32_at(data, 67) as nat
            } else {
                0
            },
        ) + "s\n"@,
        !is_account(data) ==> direct_text(data) == "        Got frame from target (etype: "@
            + hex_byte(data[12]) + hex_byte(data[13]) + ")\n"@,
{
    lemma_origin(data, mac_at(data, 6));
    if is_account(data) {
        law_station_info_fields(data);
    }
}

/// What is said when a probe begins: which local adapter is asked, or, without one, who
/// is asked instead.
pub proof fn law_opening(scan: ScanView, target: MacAddr, host: MacAddr)
    ensures
        first_local(scan.devices) matches Some(local) ==> opening_text(scan, target, host)
            == "\n  [2/5] BCM NW_INFO from local adapter ("@ + mac_short(local) + ")...\n"@,
        first_local(scan.devices) is None && other_remotes(scan.devices, target).len() > 0
            ==> opening_text(scan, target, host)
            == "\n  [3/5] Querying other online adapters...\n"@,
        first_local(scan.devices) is None && other_remotes(scan.devices, target).len() == 0
            ==> opening_text(scan, target, host)
            == "\n  [3/5] Querying other online adapters...\n"@ + ("\n  [4/5] Direct probe to "@
            + mac_text(target) + "...\n"@),
{
    let three = "\n  [3/5] Querying other online adapters...\n"@;
    assert(three + Seq::<char>::empty() =~= three);
}

/// What is said on the way: the other adapters are announced once, before the first of
/// them, then the direct probe, then the listening.
pub proof fn law_announcements(run: ProbeView, n: usize)
    requires
        run.valid(),
    ensures
        ({
            let others = "\n  [3/5] Querying other online adapters...\n"@;
            let direct = "\n  [4/5] Direct probe to "@ + mac_text(run.target) + "...\n"@;
            &&& run.stage is Local && run.remotes.len() > 0 ==> run.passage_text() == others
            &&& run.stage is Local && run.remotes.len() == 0 ==> run.passage_text() == others
                + direct
            &&& run.stage == ProbeStage::Remote(n) && n + 1 < run.remotes.len()
                ==> run.passage_text().len() == 0
            &&& run.stage == ProbeStage::Remote(n) && n + 1 == run.remotes.len()
                ==> run.passage_text() == direct
            &&& run.stage is Direct ==> run.passage_text()
                == "\n  [5/5] Passive listen for frames from "@ + mac_text(run.target)
                + " (5s)...\n"@
        }),
{
    let none = Seq::<char>::empty();
    let others = "\n  [3/5] Querying other online adapters...\n"@;
    let direct = "\n  [4/5] Direct probe to "@ + mac_text(run.target) + "...\n"@;
    assert(others + none =~= others);
    assert(none + none =~= none);
    assert(none + direct =~= direct);
}

/// What is said when nobody answered, and how many frames were counted in the end.
pub proof fn law_silence(run: ProbeView, n: usize)
    requires
        run.valid(),
    ensures
        run.stage is Local ==> run.silence_text()
            == "        No NW_INFO response (may not be supported)\n"@,
        run.stage == ProbeStage::Remote(n) ==> run.silence_text() == "        "@ + mac_short(
            run.remotes[n as int],
        ) + " — no response\n"@,
        run.stage is Direct ==> run.silence_text()
            == "        No response — adapter unreachable\n"@,
        run.stage is Passive && run.frames == 0 ==> run.silence_text()
            == "        No frames received — adapter silent on network\n"@,
        run.stage is Passive && run.frames > 0 ==> run.silence_text() == "        Captured "@
            + decimal(run.frames as nat) + " frames from target\n"@,
{
}

/// What is said of a frame: of an answer what it tells, and what comes next; of the
/// first frame that is counted, that there is one; of any other nothing.
pub proof fn law_what_is_said_of_a_frame(run: ProbeView, data: Seq<u8>, n: usize)
    requires
        run.valid(),
    ensures
        run.answers(data) && run.stage == ProbeStage::Remote(n) ==> run.frame_text(data)
            == neighbour_text(run.remotes[n as int], data.skip(23), run.target)
            + run.passage_text(),
        run.answers(data) && run.stage is Direct ==> run.frame_text(data) == direct_text(data)
            + run.passage_text(),
        run.answers(data) && run.stage is Local ==> run.frame_text(data) == topology_text(
            data.skip(23),
            run.target,
        ) + (if macs_in(data.skip(23)).len() == 0 {
            "        No NW_INFO response (may not be supported)\n"@
        } else {
            Seq::empty()
        }) + run.passage_text(),
        run.counts(data) ==> run.frame_text(data) == if run.frames == 0 {
            "        ** Receiving frames! **\n"@
        } else {
            Seq::empty()
        },
        !run.answers(data) && !run.counts(data) ==> run.frame_text(data).len() == 0,
        run.counts(data) && run.frames < u32::MAX ==> run.after_frame(data).frames == run.frames + 1
            && run.after_frame(data).stage is Passive,
{
}

}
