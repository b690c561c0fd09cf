use plcmon::clock::Timestamp;
use plcmon::protocol::broadcom::{build_nw_stats_req, BCM_NW_STATS_CNF};
use plcmon::protocol::standard::{
    build_discover_list_req, build_nw_stats_req as build_standard_stats_req, CC_DISCOVER_LIST_CNF,
    CM_NW_STATS_CNF,
};
use plcmon::protocol::{build_bcm_frame, build_hpav_frame, MacAddr};
use plcmon::scanner::{
    ScanRun, Scanner, Stage, Step, DISCOVER_WAIT_SECS, STATS_WAIT_SECS,
};
use plcmon::types::{hfid_to_model, is_hfid_sliceable, Chipset, Link, NetworkScan};

const HOST: MacAddr = MacAddr([2, 0, 0, 0, 0, 1]);
const LOCAL: MacAddr = MacAddr([2, 0, 0, 0, 0, 2]);
const FAR: MacAddr = MacAddr([2, 0, 0, 0, 0, 3]);
const UNSEEN: MacAddr = MacAddr([2, 0, 0, 0, 0, 4]);

fn noon() -> Timestamp {
    Timestamp::new(43_200, 0, 0).unwrap()
}

/// The local adapter's list of stations; the second of each pair marks the coordinator.
fn discovery(stations: &[(MacAddr, bool)]) -> Vec<u8> {
    let mut f = build_hpav_frame(HOST, LOCAL, CC_DISCOVER_LIST_CNF);
    f.truncate(17);
    f.push(stations.len() as u8);
    for (mac, cco) in stations {
        f.extend_from_slice(&mac.0);
        f.extend_from_slice(&[1, 1, 1, if *cco { 1 } else { 0 }, 50]);
    }
    f
}

/// A station's report on its links: address, TX and RX rate word.
fn report(src: MacAddr, links: &[(MacAddr, u16, u16)]) -> Vec<u8> {
    let mut body = vec![links.len() as u8];
    for (mac, tx, rx) in links {
        body.extend_from_slice(&mac.0);
        body.extend_from_slice(&tx.to_le_bytes());
        body.extend_from_slice(&rx.to_le_bytes());
    }
    build_bcm_frame(HOST, src, BCM_NW_STATS_CNF, 0, &body)
}

fn sent(step: Step) -> (Vec<u8>, u64) {
    match step {
        Step::Send { frame, wait_secs } => (frame, wait_secs),
        _ => panic!("nothing to send"),
    }
}

fn begin() -> (Scanner, ScanRun) {
    let scanner = Scanner::new("eth0".to_string(), HOST);
    let (run, frame) = scanner.start();
    assert_eq!(frame, build_discover_list_req(HOST));
    assert_eq!(run.stage, Stage::Discover);
    (scanner, run)
}

#[test]
fn a_full_scan() {
    let (mut scanner, mut run) = begin();
    assert_eq!(scanner.interface(), "eth0");
    let step = scanner.on_frame(&mut run, &discovery(&[(FAR, true)]));
    assert_eq!(sent(step), (build_nw_stats_req(LOCAL, HOST, 0), STATS_WAIT_SECS));
    let step = scanner.on_frame(&mut run, &report(LOCAL, &[(FAR, 300 | 0x2000, 200)]));
    assert_eq!(sent(step), (build_nw_stats_req(FAR, HOST, 1), STATS_WAIT_SECS));
    let step = scanner.on_frame(&mut run, &report(FAR, &[(LOCAL, 200, 300), (UNSEEN, 20 | 0x1000, 30)]));
    assert!(matches!(step, Step::Finished));
    assert_eq!(run.stage, Stage::Measured);

    let scan = scanner.finish_at(run, noon());
    assert_eq!(scan.interface, "eth0");
    assert_eq!(scan.timestamp.secs(), 43_200);
    let macs: Vec<MacAddr> = scan.devices.iter().map(|d| d.mac).collect();
    assert_eq!(macs, vec![LOCAL, FAR, UNSEEN]);
    assert!(scan.devices[0].is_local && !scan.devices[1].is_local && !scan.devices[2].is_local);
    assert!(!scan.devices[0].is_cco && scan.devices[1].is_cco && !scan.devices[2].is_cco);
    assert!(scan.devices.iter().all(|d| d.chipset == Chipset::Broadcom));
    assert!(scan.devices.iter().all(|d| d.model.is_empty() && d.firmware.is_empty()));
    assert_eq!(scan.links.len(), 3);
    assert_eq!((scan.links[0].from, scan.links[0].to), (LOCAL, FAR));
    assert_eq!((scan.links[0].tx_mbps, scan.links[0].rx_mbps), (300, 200));
    assert_eq!((scan.links[0].tx_signal.as_str(), scan.links[0].rx_signal.as_str()), ("MIMO", "SISO"));
    assert_eq!((scan.links[2].from, scan.links[2].to), (FAR, UNSEEN));
    assert_eq!(scan.links[2].tx_signal, "SISO2");
}

#[test]
fn a_silent_network() {
    let (mut scanner, mut run) = begin();
    assert_eq!(DISCOVER_WAIT_SECS, 3);
    assert_eq!(STATS_WAIT_SECS, 2);
    assert!(matches!(scanner.on_timeout(&mut run), Step::Finished));
    assert_eq!(run.stage, Stage::Nothing);
    let scan = scanner.finish_at(run, noon());
    assert!(scan.devices.is_empty() && scan.links.is_empty());
}

#[test]
fn noise_is_ignored() {
    let (mut scanner, mut run) = begin();
    assert!(matches!(scanner.on_frame(&mut run, &build_discover_list_req(HOST)), Step::Listen));
    assert!(matches!(scanner.on_frame(&mut run, &report(FAR, &[])), Step::Listen));
    assert!(matches!(scanner.on_frame(&mut run, &[]), Step::Listen));
    assert_eq!(run.stage, Stage::Discover);
    scanner.on_frame(&mut run, &discovery(&[]));
    assert!(matches!(scanner.on_frame(&mut run, &build_nw_stats_req(LOCAL, HOST, 0)), Step::Listen));
    assert!(matches!(scanner.on_frame(&mut run, &discovery(&[])), Step::Listen));
    assert_eq!(run.stage, Stage::Query(0));
}

#[test]
fn the_standard_query_is_the_last_resort() {
    let (mut scanner, mut run) = begin();
    scanner.on_frame(&mut run, &discovery(&[(FAR, false)]));
    scanner.on_timeout(&mut run);
    let step = scanner.on_timeout(&mut run);
    assert_eq!(sent(step), (build_standard_stats_req(LOCAL, HOST), STATS_WAIT_SECS));
    let mut f = build_hpav_frame(HOST, LOCAL, CM_NW_STATS_CNF);
    f[17] = 1;
    f[18..24].copy_from_slice(&UNSEEN.0);
    f[24] = 90;
    f[25] = 80;
    assert!(matches!(scanner.on_frame(&mut run, &f), Step::Finished));
    let scan = scanner.finish_at(run, noon());
    let macs: Vec<MacAddr> = scan.devices.iter().map(|d| d.mac).collect();
    assert_eq!(macs, vec![LOCAL, FAR]);
    assert!(scan.devices.iter().all(|d| d.chipset == Chipset::Unknown));
    assert_eq!(scan.links.len(), 1);
    assert_eq!((scan.links[0].from, scan.links[0].to), (LOCAL, UNSEEN));
    assert_eq!((scan.links[0].tx_mbps, scan.links[0].rx_mbps), (90, 80));
    assert!(scan.links[0].tx_signal.is_empty());
}

#[test]
fn the_last_resort_can_fail() {
    let (mut scanner, mut run) = begin();
    scanner.on_frame(&mut run, &discovery(&[]));
    scanner.on_frame(&mut run, &report(LOCAL, &[]));
    assert_eq!(run.stage, Stage::Fallback);
    assert!(matches!(scanner.on_timeout(&mut run), Step::Finished));
    assert!(matches!(scanner.on_timeout(&mut run), Step::Finished));
    let scan = scanner.finish(run);
    assert_eq!(scan.devices.len(), 1);
    assert_eq!(scan.devices[0].chipset, Chipset::Unknown);
    assert!(scan.links.is_empty());
    assert!(scan.timestamp.secs() > 1_600_000_000);
}

#[test]
fn devices_are_listed_once() {
    let (mut scanner, mut run) = begin();
    scanner.on_frame(&mut run, &discovery(&[(FAR, false), (LOCAL, true), (FAR, true)]));
    scanner.on_frame(&mut run, &report(LOCAL, &[(FAR, 1, 1), (FAR, 2, 2)]));
    scanner.on_timeout(&mut run);
    scanner.on_timeout(&mut run);
    scanner.on_timeout(&mut run);
    let scan = scanner.finish_at(run, noon());
    assert_eq!(scan.devices.len(), 2);
    assert!(scan.devices[0].is_local && !scan.devices[0].is_cco);
    assert!(!scan.devices[1].is_cco);
    assert_eq!(scan.speed_matrix().get(LOCAL, FAR), Some(2));
    assert_eq!(scan.speed_matrix().get(FAR, LOCAL), None);
}

#[test]
fn sequence_numbers_wrap() {
    let mut scanner = Scanner::new("eth0".to_string(), HOST);
    assert_eq!(scanner.next_seq(), 0);
    assert_eq!(scanner.next_seq(), 1);
    for _ in 0..253 {
        scanner.next_seq();
    }
    assert_eq!(scanner.next_seq(), 255);
    assert_eq!(scanner.next_seq(), 0);
}

#[test]
fn the_last_link_counts() {
    let mut scan = NetworkScan::empty("en0");
    assert_eq!(scan.interface, "en0");
    assert!(scan.speed_matrix().get(LOCAL, FAR).is_none());
    assert!(scan.speed_matrix().entries().is_empty());
    assert!(scan.signal_between(LOCAL, FAR).is_none());
    for (from, to, tx, sig) in [(LOCAL, FAR, 1, "a"), (FAR, LOCAL, 2, "b"), (LOCAL, FAR, 3, "c")] {
        scan.links.push(Link {
            from,
            to,
            tx_mbps: tx,
            rx_mbps: 9,
            tx_signal: sig.to_string(),
            rx_signal: String::new(),
        });
    }
    assert_eq!(scan.speed_matrix().get(LOCAL, FAR), Some(3));
    assert_eq!(scan.speed_matrix().get(FAR, LOCAL), Some(2));
    let mut entries = scan.speed_matrix().entries();
    entries.sort_by_key(|e| e.2);
    assert_eq!(entries, vec![(FAR, LOCAL, 2), (LOCAL, FAR, 3)]);
    assert_eq!(scan.signal_between(LOCAL, FAR).unwrap(), "c");
    assert_eq!(scan.signal_between(FAR, LOCAL).unwrap(), "b");
    assert!(scan.signal_between(FAR, FAR).is_none());
}

#[test]
fn chipset_names() {
    assert_eq!(Chipset::Broadcom.to_string(), "BCM");
    assert_eq!(Chipset::Qualcomm.to_string(), "QCA");
    assert_eq!(Chipset::Unknown.to_string(), "???");
}

#[test]
fn models() {
    assert_eq!(hfid_to_model("tpver_9020"), "TL-PA9020");
    assert_eq!(hfid_to_model("tpver_742001_1"), "TL-PA7420");
    assert_eq!(hfid_to_model("tpver_7510x"), "TL-PA7510");
    assert_eq!(hfid_to_model("tpver_8630_"), "TL-WPA8630");
    assert_eq!(hfid_to_model("tpver_9610_"), "TL-WPA9610");
    assert_eq!(hfid_to_model("tpver_123456_9021"), "TP-Link (123456)");
    assert_eq!(hfid_to_model("tpver_902"), "tpver_902");
    assert_eq!(hfid_to_model("tpver_902_1"), "tpver_902_1");
    assert_eq!(hfid_to_model("tpver_"), "tpver_");
    assert_eq!(hfid_to_model("9021"), "9021");
    assert_eq!(hfid_to_model("tpver_éé"), "TP-Link (éé)");
    assert!(is_hfid_sliceable("tpver_éé"));
    assert!(is_hfid_sliceable("tpver_902101"));
    assert!(is_hfid_sliceable("tpver_é"));
    assert!(!is_hfid_sliceable("tpver_abcé"));
}
