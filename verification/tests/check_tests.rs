use plcmon::check::candidates::{backoff, local_macs, plan_restarts, restart_candidates, Backoff};
use plcmon::check::degraded::{all_doublings_fit, degraded_reason, find_degraded};
use plcmon::check::report::{
    backoff_note, degraded_report, healthy_report, no_devices_note, restarted_note,
    restarting_note, NO_DEVICES_JSON,
};
use plcmon::check::state::{cooldown_secs, AdapterState, CheckState};
use plcmon::check::{
    check_status, exit_code, plan_check, record_restart, EXIT_DEGRADED, EXIT_ERROR, EXIT_HEALTHY,
};
use plcmon::clock::Timestamp;
use plcmon::protocol::MacAddr;
use plcmon::types::{average_mbps, Chipset, Device, Link, NetworkScan};

const LOCAL: MacAddr = MacAddr([2, 0, 0, 0, 0, 0xA1]);
const B: MacAddr = MacAddr([2, 0, 0, 0, 0, 0xB2]);
const C: MacAddr = MacAddr([2, 0, 0, 0, 0, 0xC3]);
const NOW: i64 = 1_700_000_000;

fn link(from: MacAddr, to: MacAddr, tx: u16, rx: u16, signal: &str) -> Link {
    Link {
        from,
        to,
        tx_mbps: tx,
        rx_mbps: rx,
        tx_signal: signal.to_string(),
        rx_signal: String::new(),
    }
}

fn device(mac: MacAddr, is_local: bool) -> Device {
    Device {
        mac,
        model: String::new(),
        firmware: String::new(),
        is_local,
        is_cco: false,
        chipset: Chipset::Broadcom,
    }
}

fn network(links: Vec<Link>) -> NetworkScan {
    NetworkScan {
        timestamp: Timestamp::new(0, 0, 0).unwrap(),
        interface: "eth0".to_string(),
        devices: vec![device(LOCAL, true), device(B, false), device(C, false)],
        links,
    }
}

fn reason(tx: u16, rx: u16, signal: &str, min: u16) -> Option<String> {
    degraded_reason(&link(LOCAL, B, tx, rx, signal), min)
}

// -- Degraded links -----------------------------------------------------------------------

#[test]
fn mean_rates() {
    assert_eq!(average_mbps(10, 21), 15);
    assert_eq!(average_mbps(0, 1), 0);
    assert_eq!(average_mbps(u16::MAX, u16::MAX), u16::MAX);
}

#[test]
fn reasons() {
    assert_eq!(reason(0, 1, "MIMO", 50).unwrap(), "no link");
    assert_eq!(reason(0, 0, "SISO", 0).unwrap(), "no link");
    assert_eq!(reason(49, 49, "SISO", 50).unwrap(), "SISO fallback at 49 Mbps (min: 50)");
    assert_eq!(reason(49, 49, "SISO2", 50).unwrap(), "SISO fallback at 49 Mbps (min: 50)");
    assert_eq!(reason(49, 49, "SisoOnly", 50).unwrap(), "SISO fallback at 49 Mbps (min: 50)");
    assert_eq!(reason(49, 49, "SISO3", 50).unwrap(), "49 Mbps below minimum 50");
    assert_eq!(reason(49, 49, "MIMO", 50).unwrap(), "49 Mbps below minimum 50");
    assert_eq!(reason(50, 50, "SISO", 50).unwrap(), "SISO mode at 50 Mbps — MIMO restart may help");
    assert_eq!(reason(99, 99, "SISO", 50).unwrap(), "SISO mode at 99 Mbps — MIMO restart may help");
    assert_eq!(reason(100, 100, "SISO", 50), None);
    assert_eq!(reason(50, 50, "MIMO", 50), None);
    assert_eq!(reason(50, 50, "", 50), None);
}

#[test]
fn degraded_links_in_order() {
    let links = vec![
        link(LOCAL, B, 10, 10, "MIMO"),
        link(LOCAL, C, 300, 300, "MIMO"),
        link(B, C, 60, 60, "SISO"),
    ];
    let d = find_degraded(&links, 50);
    assert_eq!(d.len(), 2);
    assert_eq!((d[0].from.as_str(), d[0].to.as_str()), ("02:00:00:00:00:A1", "02:00:00:00:00:B2"));
    assert_eq!((d[0].avg_mbps, d[0].tx_signal.as_str()), (10, "MIMO"));
    assert_eq!(d[0].reason, "10 Mbps below minimum 50");
    assert_eq!(d[1].from, "02:00:00:00:00:B2");
    assert_eq!(d[1].reason, "SISO mode at 60 Mbps — MIMO restart may help");
}

#[test]
fn a_higher_minimum_degrades_more() {
    let links = vec![link(LOCAL, B, 60, 60, "SISO"), link(LOCAL, C, 300, 300, "MIMO")];
    assert_eq!(find_degraded(&links, 30).len(), 0);
    assert_eq!(find_degraded(&links, 31).len(), 1);
    assert_eq!(find_degraded(&links, 300).len(), 1);
    assert_eq!(find_degraded(&links, 301).len(), 2);
}

#[test]
fn minimum_speeds_that_cannot_be_doubled() {
    assert!(all_doublings_fit(&vec![link(LOCAL, B, 40_000, 40_000, "SISO")], 32_767));
    assert!(!all_doublings_fit(&vec![link(LOCAL, B, 40_000, 40_000, "SISO")], 32_768));
    assert!(all_doublings_fit(&vec![link(LOCAL, B, 40_000, 40_000, "MIMO")], 32_768));
    assert!(all_doublings_fit(&vec![link(LOCAL, B, 30_000, 30_000, "SISO")], 32_768));
}

// -- Cooldown --------------------------------------------------------------------------------

#[test]
fn cooldowns_double_up_to_a_day() {
    let hours: Vec<i64> = (0..8).map(|n| cooldown_secs(60, n) / 3600).collect();
    assert_eq!(hours, vec![1, 1, 2, 4, 8, 16, 24, 24]);
    assert_eq!(cooldown_secs(60, u32::MAX), 86_400);
    assert_eq!(cooldown_secs(0, 5), 0);
    assert_eq!(cooldown_secs(u64::MAX, 1), 86_400);
    assert_eq!(cooldown_secs(1440, 0), 86_400);
    assert_eq!(cooldown_secs(1439, 1), 1439 * 60);
    // A base of one minute reaches the cap with the twelfth failure.
    assert_eq!(cooldown_secs(1, 11), 1024 * 60);
    assert_eq!(cooldown_secs(1, 12), 86_400);
}

// -- What is remembered -----------------------------------------------------------------------

#[test]
fn the_state_is_a_map() {
    let mut s = CheckState::new();
    assert!(s.get("a").is_none());
    s.set("a", AdapterState { last_restart_epoch: 1, consecutive_failures: 1 });
    s.set("b", AdapterState { last_restart_epoch: 2, consecutive_failures: 2 });
    s.set("a", AdapterState { last_restart_epoch: 3, consecutive_failures: 3 });
    assert_eq!(s.get("a").unwrap().last_restart_epoch, 3);
    assert_eq!(s.get("b").unwrap().consecutive_failures, 2);
    assert_eq!(s.entries().len(), 2);
    let t = s.copy();
    assert_eq!(t.entries().len(), 2);
    assert_eq!(t.get("a").unwrap().consecutive_failures, 3);
}

#[test]
fn recovered_adapters_are_forgotten() {
    let mut s = CheckState::new();
    for key in ["02:00:00:00:00:B2", "02:00:00:00:00:C3", "x"] {
        s.set(key, AdapterState { last_restart_epoch: 1, consecutive_failures: 4 });
    }
    s.retain_degraded(&find_degraded(&vec![link(LOCAL, B, 1, 1, "")], 50));
    assert_eq!(s.entries().len(), 1);
    assert_eq!(s.get("02:00:00:00:00:B2").unwrap().consecutive_failures, 4);
}

#[test]
fn restarts_are_counted() {
    let mut s = CheckState::new();
    assert!(record_restart(&mut s, B, NOW));
    assert_eq!(s.get("02:00:00:00:00:B2").unwrap().consecutive_failures, 1);
    assert!(record_restart(&mut s, B, NOW + 5));
    let st = s.get("02:00:00:00:00:B2").unwrap();
    assert_eq!((st.last_restart_epoch, st.consecutive_failures), (NOW + 5, 2));
    s.set("02:00:00:00:00:B2", AdapterState { last_restart_epoch: 0, consecutive_failures: u32::MAX });
    assert!(!record_restart(&mut s, B, NOW));
    assert_eq!(s.get("02:00:00:00:00:B2").unwrap().last_restart_epoch, 0);
}

// -- Whom to restart -----------------------------------------------------------------------------

#[test]
fn candidates_are_remote_ends() {
    let d = find_degraded(
        &vec![
            link(LOCAL, B, 1, 1, ""),
            link(B, LOCAL, 1, 1, ""),
            link(C, B, 1, 1, ""),
            link(LOCAL, MacAddr([9; 6]), 300, 300, ""),
        ],
        50,
    );
    let local = local_macs(&vec![device(B, false), device(LOCAL, true)]);
    assert_eq!(local, vec![LOCAL]);
    assert_eq!(restart_candidates(&d, &local), vec![B, C]);
}

#[test]
fn restarted_adapters_have_to_wait() {
    let mut s = CheckState::new();
    assert!(backoff(B, &s, NOW, 60).is_none());
    record_restart(&mut s, B, NOW);
    let b = backoff(B, &s, NOW, 60).unwrap();
    assert_eq!((b.mac, b.failures, b.next_in_mins), (B, 1, 60));
    assert_eq!(backoff(B, &s, NOW + 3599, 60).unwrap().next_in_mins, 0);
    assert!(backoff(B, &s, NOW + 3600, 60).is_none());
    record_restart(&mut s, B, NOW + 3600);
    assert_eq!(backoff(B, &s, NOW + 3600, 60).unwrap().next_in_mins, 120);
    assert!(backoff(C, &s, NOW, 60).is_none());
    let (targets, waiting) = plan_restarts(&vec![B, C], &s, NOW + 3601, 60);
    assert_eq!(targets, vec![C]);
    assert_eq!(waiting.len(), 1);
    assert_eq!((waiting[0].mac, waiting[0].next_in_mins), (B, 119));
}

// -- A check as a whole ------------------------------------------------------------------------------

#[test]
fn a_healthy_network_clears_the_state() {
    let scan = network(vec![link(LOCAL, B, 300, 300, "MIMO")]);
    let mut s = CheckState::new();
    record_restart(&mut s, B, NOW);
    let plan = plan_check(&scan, &mut s, 50, true, 60, NOW).unwrap();
    assert!(plan.degraded.is_empty() && plan.targets.is_empty() && plan.in_backoff.is_empty());
    assert!(s.entries().is_empty());
}

#[test]
fn a_degraded_network_is_restarted() {
    let scan = network(vec![link(LOCAL, B, 10, 10, "SISO"), link(B, C, 10, 10, "MIMO")]);
    let mut s = CheckState::new();
    record_restart(&mut s, C, NOW - 60);
    s.set("gone", AdapterState { last_restart_epoch: 0, consecutive_failures: 1 });
    let plan = plan_check(&scan, &mut s, 50, true, 60, NOW).unwrap();
    assert_eq!(plan.degraded.len(), 2);
    assert_eq!(plan.targets, vec![B]);
    assert_eq!(plan.in_backoff.len(), 1);
    assert_eq!((plan.in_backoff[0].mac, plan.in_backoff[0].next_in_mins), (C, 59));
    assert!(s.get("gone").is_none());
    assert!(s.get("02:00:00:00:00:C3").is_some());
}

#[test]
fn without_restarts_nothing_is_planned() {
    let scan = network(vec![link(LOCAL, B, 10, 10, "SISO")]);
    let mut s = CheckState::new();
    let plan = plan_check(&scan, &mut s, 50, false, 60, NOW).unwrap();
    assert_eq!(plan.degraded.len(), 1);
    assert!(plan.targets.is_empty() && plan.in_backoff.is_empty());
}

#[test]
fn numbers_that_outgrow_their_types() {
    let mut s = CheckState::new();
    s.set("02:00:00:00:00:B2", AdapterState { last_restart_epoch: i64::MIN, consecutive_failures: 1 });
    let scan = network(vec![link(LOCAL, B, 10, 10, "SISO")]);
    assert!(plan_check(&scan, &mut s, 50, true, 60, NOW).is_none());
    assert_eq!(s.entries().len(), 1);
    assert!(plan_check(&scan, &mut s, 50, false, 60, NOW).is_some());
    let scan = network(vec![link(LOCAL, B, 60_000, 60_000, "SISO")]);
    assert!(plan_check(&scan, &mut s, 50_000, false, 60, NOW).is_none());
    let mut s = CheckState::new();
    s.set("02:00:00:00:00:B2", AdapterState { last_restart_epoch: i64::MAX, consecutive_failures: 1 });
    let scan = network(vec![link(LOCAL, B, 10, 10, "SISO")]);
    assert!(plan_check(&scan, &mut s, 50, true, 60, 0).is_none());
    assert!(plan_check(&scan, &mut s, 50, true, 60, 3600).is_some());
}

#[test]
fn exit_codes() {
    assert_eq!((EXIT_HEALTHY, EXIT_ERROR, EXIT_DEGRADED), (0, 1, 2));
    assert_eq!(exit_code(true), 0);
    assert_eq!(exit_code(false), 2);
    assert_eq!(check_status(0, 0), 1);
    assert_eq!(check_status(0, 3), 1);
    assert_eq!(check_status(1, 0), 0);
    assert_eq!(check_status(2, 1), 2);
}

// -- Reports --------------------------------------------------------------------------------------------

#[test]
fn check_notes() {
    assert_eq!(
        NO_DEVICES_JSON,
        r#"{"healthy":false,"error":"no devices found","restarted":[],"degraded":[]}"#
    );
    assert_eq!(no_devices_note("eth0"), "No powerline devices found on eth0");
    let b = Backoff { mac: B, failures: 3, next_in_mins: 200 };
    assert_eq!(
        backoff_note("T", &b),
        "[T] 02:00:00:00:00:B2 still degraded after 3 restart(s) — in backoff, next attempt in ~200m"
    );
    assert_eq!(
        restarting_note("T", 2, 10),
        "[T] Found 2 degraded link(s), restarting 10 adapter(s)..."
    );
    assert_eq!(restarted_note(B, true), "  Restarted 02:00:00:00:00:B2 (acknowledged)");
    assert_eq!(
        restarted_note(B, false),
        "  Restarted 02:00:00:00:00:B2 (no ack — may have rebooted immediately)"
    );
}

#[test]
fn healthy_reports() {
    let links = vec![link(LOCAL, B, 100, 201, "MIMO"), link(B, LOCAL, 7, 7, "")];
    assert_eq!(
        healthy_report("T", 5, &links),
        "[T] OK — all links above 5 Mbps\n  00:00:A1 → 00:00:B2  150 Mbps avg  MIMO\n  00:00:B2 → 00:00:A1  7 Mbps avg  \n"
    );
}

#[test]
fn degraded_reports() {
    let d = find_degraded(&vec![link(LOCAL, B, 0, 0, "")], 50);
    let none: Vec<String> = Vec::new();
    let head = "[T] DEGRADED — 1 link(s) below threshold\n  02:00:00:00:00:A1 → 02:00:00:00:00:B2  0 Mbps  no link\n";
    assert_eq!(degraded_report("T", &d, &none, &none, false), head);
    assert_eq!(
        degraded_report("T", &d, &none, &none, true),
        head.to_string() + "No remote adapters to restart.\n"
    );
    let some = vec!["x".to_string(), "y".to_string()];
    assert_eq!(
        degraded_report("T", &d, &some, &none, true),
        head.to_string() + "Restarted: x, y\n"
    );
    assert_eq!(
        degraded_report("T", &d, &none, &some, true),
        head.to_string()
            + "In backoff (restart withheld — repeated restarts haven't helped): x, y\n"
    );
}
