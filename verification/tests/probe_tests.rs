use plcmon::clock::Timestamp;
use plcmon::probe::{
    diagnose, diagnosis_note, direct_note, is_from, scan_note, Diagnosis, ProbeRun, ProbeStage,
    ProbeStep,
};
use plcmon::protocol::broadcom::{
    build_nw_info_req, build_sta_info_req, BCM_NW_INFO_CNF, BCM_STA_INFO_CNF, BCM_STA_RESTART_CNF,
};
use plcmon::protocol::{build_bcm_frame, build_hpav_frame, MacAddr};
use plcmon::restart::{ack_note, is_ack, restart_request, sending_note, NO_ACK};
use plcmon::types::{Chipset, Device, Link, NetworkScan};

const HOST: MacAddr = MacAddr([2, 0, 0, 0, 0, 1]);
const LOCAL: MacAddr = MacAddr([2, 0, 0, 0, 0, 2]);
const NEAR: MacAddr = MacAddr([2, 0, 0, 0, 0, 3]);
const TARGET: MacAddr = MacAddr([4, 0, 0, 0, 0, 0x99]);

fn device(mac: MacAddr, is_local: bool) -> Device {
    Device {
        mac,
        model: String::new(),
        firmware: String::new(),
        is_local,
        is_cco: false,
        chipset: Chipset::Broadcom,
    }
}

fn network(devices: Vec<Device>, links: Vec<Link>) -> NetworkScan {
    NetworkScan {
        timestamp: Timestamp::new(0, 0, 0).unwrap(),
        interface: "eth0".to_string(),
        devices,
        links,
    }
}

fn link(from: MacAddr, to: MacAddr) -> Link {
    Link {
        from,
        to,
        tx_mbps: 1,
        rx_mbps: 1,
        tx_signal: String::new(),
        rx_signal: String::new(),
    }
}

fn sent(step: ProbeStep) -> (Vec<u8>, u64) {
    match step {
        ProbeStep::Send { frame, wait_secs } => (frame, wait_secs),
        _ => panic!("nothing to send"),
    }
}

#[test]
fn what_the_scan_shows() {
    let scan = network(vec![device(LOCAL, true), device(TARGET, false)], vec![link(TARGET, LOCAL)]);
    assert_eq!(
        scan_note(&scan, TARGET),
        "        Found in scan (has link: true)\n        Online devices: 1 (+ local)\n"
    );
    let scan = network(vec![device(TARGET, false)], vec![link(NEAR, LOCAL)]);
    assert_eq!(
        scan_note(&scan, TARGET),
        "        Found in scan (has link: false)\n        Online devices: 0 (+ local)\n"
    );
    assert_eq!(
        scan_note(&scan, NEAR),
        "        NOT found in scan\n        Online devices: 0 (+ local)\n"
    );
}

#[test]
fn a_probe_of_a_lost_adapter() {
    let scan = network(vec![device(LOCAL, true), device(NEAR, false)], vec![]);
    let (mut run, text, step) = ProbeRun::begin(&scan, TARGET, HOST);
    assert_eq!(text, "\n  [2/5] BCM NW_INFO from local adapter (00:00:02)...\n");
    assert_eq!(sent(step), (build_nw_info_req(LOCAL, HOST, 1), 3));
    let (text, step) = run.on_timeout();
    assert_eq!(
        text,
        "        No NW_INFO response (may not be supported)\n\n  [3/5] Querying other online adapters...\n"
    );
    assert_eq!(sent(step), (build_nw_info_req(NEAR, HOST, 2), 2));
    let (text, step) = run.on_timeout();
    assert_eq!(
        text,
        "        00:00:03 — no response\n\n  [4/5] Direct probe to 04:00:00:00:00:99...\n"
    );
    assert_eq!(sent(step), (build_sta_info_req(TARGET, HOST, 3), 3));
    let (text, step) = run.on_timeout();
    assert_eq!(
        text,
        "        No response — adapter unreachable\n\n  [5/5] Passive listen for frames from 04:00:00:00:00:99 (5s)...\n"
    );
    assert!(matches!(step, ProbeStep::Wait { wait_secs: 5 }));
    let (text, step) = run.on_timeout();
    assert!(text.starts_with(
        "        No frames received — adapter silent on network\n\n  ━━━ Diagnosis ━━━\n  Adapter is completely unreachable.\n"
    ));
    assert!(text.ends_with("       then re-pair with the network\n\n"));
    assert!(matches!(step, ProbeStep::Finished));
    let (text, step) = run.on_timeout();
    assert_eq!(text, "");
    assert!(matches!(step, ProbeStep::Finished));
}

#[test]
fn a_probe_of_a_reachable_adapter() {
    let scan = network(vec![device(LOCAL, true), device(NEAR, false), device(TARGET, false)], vec![]);
    let (mut run, _, _) = ProbeRun::begin(&scan, TARGET, HOST);
    let (text, step) = run.on_frame(&build_nw_info_req(LOCAL, HOST, 1));
    assert_eq!(text, "");
    assert!(matches!(step, ProbeStep::Listen));
    let mut payload = vec![1, 1];
    payload.extend_from_slice(&TARGET.0);
    let mut answer = build_bcm_frame(HOST, LOCAL, BCM_NW_INFO_CNF, 1, &payload);
    answer.truncate(31);
    let (text, step) = run.on_frame(&answer);
    assert_eq!(
        text,
        "        Response: 8 bytes, 1 MAC candidates in payload\n        ** Target 04:00:00:00:00:99 FOUND in NW_INFO **\n          - 04:00:00:00:00:99 <-- TARGET\n\n  [3/5] Querying other online adapters...\n"
    );
    assert_eq!(sent(step).0, build_nw_info_req(NEAR, HOST, 2));
    let (text, step) = run.on_frame(&answer);
    assert_eq!(
        text,
        "        00:00:03 — 1 stations, target: FOUND\n\n  [4/5] Direct probe to 04:00:00:00:00:99...\n"
    );
    assert_eq!(sent(step).0, build_sta_info_req(TARGET, HOST, 3));
    let (text, _) = run.on_frame(&build_hpav_frame(HOST, TARGET, 1));
    assert!(text.starts_with("        Got frame from target (etype: 88E1)\n\n  [5/5]"));
    assert!(run.answered);
    assert_eq!(run.on_frame(&build_hpav_frame(HOST, TARGET, 1)).0, "        ** Receiving frames! **\n");
    assert_eq!(run.on_frame(&build_hpav_frame(HOST, TARGET, 1)).0, "");
    assert_eq!(run.on_frame(&build_hpav_frame(HOST, NEAR, 1)).0, "");
    assert_eq!(run.frames, 2);
    assert_eq!(
        run.on_timeout().0,
        "        Captured 2 frames from target\n\n  ━━━ Diagnosis ━━━\n  Adapter is reachable but not linking properly.\n  Try: cargo run -- restart 04:00:00:00:00:99\n\n"
    );
    assert_eq!(run.stage, ProbeStage::Done);
}

#[test]
fn an_empty_topology() {
    let scan = network(vec![device(LOCAL, true)], vec![]);
    let (mut run, _, _) = ProbeRun::begin(&scan, TARGET, HOST);
    let mut answer = build_bcm_frame(HOST, LOCAL, BCM_NW_INFO_CNF, 1, &[]);
    answer.truncate(23);
    let (text, _) = run.on_frame(&answer);
    assert_eq!(
        text,
        "        Response: 0 bytes, 0 MAC candidates in payload\n        Target NOT in NW_INFO topology\n        No NW_INFO response (may not be supported)\n\n  [3/5] Querying other online adapters...\n\n  [4/5] Direct probe to 04:00:00:00:00:99...\n"
    );
    assert_eq!(run.stage, ProbeStage::Direct);
}

#[test]
fn a_probe_without_a_local_adapter() {
    let scan = network(vec![device(NEAR, false)], vec![]);
    let (run, text, step) = ProbeRun::begin(&scan, TARGET, HOST);
    assert_eq!(text, "\n  [3/5] Querying other online adapters...\n");
    assert_eq!(sent(step), (build_nw_info_req(NEAR, HOST, 2), 2));
    assert_eq!(run.stage, ProbeStage::Remote(0));
    let (run, text, _) = ProbeRun::begin(&network(vec![], vec![]), TARGET, HOST);
    assert_eq!(
        text,
        "\n  [3/5] Querying other online adapters...\n\n  [4/5] Direct probe to 04:00:00:00:00:99...\n"
    );
    assert_eq!(run.stage, ProbeStage::Direct);
}

#[test]
fn answers_to_the_direct_probe() {
    let mut body = vec![0x0A, 0x0B, 0x0C, 0x0D];
    body.extend_from_slice(&[0; 40]);
    body.extend_from_slice(&[0x10, 0x27, 0, 0]);
    let f = build_bcm_frame(HOST, NEAR, BCM_STA_INFO_CNF, 3, &body);
    assert_eq!(
        direct_note(&f, TARGET).unwrap(),
        "        ** RESPONDED ** — chip: 0x0D0C0B0A, uptime: 10000s\n"
    );
    assert!(direct_note(&build_hpav_frame(TARGET, NEAR, 1), TARGET).is_none());
    assert!(is_from(&build_hpav_frame(HOST, TARGET, 1), TARGET));
    assert!(!is_from(&build_hpav_frame(TARGET, HOST, 1), TARGET));
    assert!(!is_from(&[4; 13], MacAddr([4; 6])));
}

#[test]
fn conclusions() {
    assert_eq!(diagnose(true, 0, false), Diagnosis::Reachable);
    assert_eq!(diagnose(false, 1, false), Diagnosis::Reachable);
    assert_eq!(diagnose(false, 0, true), Diagnosis::Unresponsive);
    assert_eq!(diagnose(false, 0, false), Diagnosis::Unreachable);
    assert_eq!(
        diagnosis_note(Diagnosis::Unresponsive, TARGET),
        "\n  ━━━ Diagnosis ━━━\n  Adapter appears in topology but isn't responding.\n  Try power-cycling it and re-pairing.\n\n"
    );
}

#[test]
fn the_number_of_listens_is_bounded() {
    let scan = network(vec![device(LOCAL, true), device(NEAR, false), device(HOST, false)], vec![]);
    let (mut run, _, _) = ProbeRun::begin(&scan, TARGET, HOST);
    let mut listens = 0;
    while run.stage != ProbeStage::Done {
        run.on_timeout();
        listens += 1;
    }
    assert_eq!(listens, 5);
}

// -- Restart ---------------------------------------------------------------------------------

#[test]
fn restarts() {
    let f = restart_request(TARGET, HOST);
    assert_eq!(f, build_bcm_frame(TARGET, HOST, 0xA020, 0, &[]));
    assert!(!is_ack(&f));
    assert!(ack_note(&f).is_none());
    let ack = build_bcm_frame(HOST, TARGET, BCM_STA_RESTART_CNF, 0, &[]);
    assert!(is_ack(&ack));
    assert_eq!(ack_note(&ack).unwrap(), "Adapter 04:00:00:00:00:99 acknowledged restart.");
    assert_eq!(sending_note(TARGET), "Sending restart to 04:00:00:00:00:99...");
    assert_eq!(NO_ACK, "No confirmation received (adapter may have restarted immediately).");
}
