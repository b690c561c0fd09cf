use plcmon::clock::Timestamp;
use plcmon::protocol::MacAddr;
use plcmon::report::{assess_link, scan_report};
use plcmon::text::{contains, decimal_text, join, same_text, starts_with};
use plcmon::types::{Chipset, Device, Link, NetworkScan};

const A: MacAddr = MacAddr([2, 0, 0, 0xAA, 0, 1]);
const B: MacAddr = MacAddr([2, 0, 0, 0xBB, 0, 2]);

fn device(mac: MacAddr, model: &str, is_local: bool, chipset: Chipset) -> Device {
    Device {
        mac,
        model: model.to_string(),
        firmware: String::new(),
        is_local,
        is_cco: false,
        chipset,
    }
}

#[test]
fn assessments() {
    let poor = "!! POOR — different phase or heavy noise";
    let weak = "! WEAK — likely cross-phase or noisy circuit";
    assert_eq!(assess_link(0, 0), poor);
    assert_eq!(assess_link(20, 21), poor);
    assert_eq!(assess_link(21, 21), weak);
    assert_eq!(assess_link(80, 81), weak);
    assert_eq!(assess_link(81, 81), "OK — moderate signal");
    assert_eq!(assess_link(200, 200), "OK — moderate signal");
    assert_eq!(assess_link(201, 201), "GOOD");
    assert_eq!(assess_link(400, 401), "GOOD");
    assert_eq!(assess_link(401, 401), "EXCELLENT");
    assert_eq!(assess_link(u16::MAX, u16::MAX), "EXCELLENT");
}

#[test]
fn a_full_report() {
    let scan = NetworkScan {
        timestamp: Timestamp::new(1_431_648_000, 0, 0).unwrap(),
        interface: "eth0".to_string(),
        devices: vec![
            device(A, "", true, Chipset::Broadcom),
            device(B, "TL-PA9020P", false, Chipset::Unknown),
        ],
        links: vec![Link {
            from: A,
            to: B,
            tx_mbps: 307,
            rx_mbps: 30,
            tx_signal: "MIMO".to_string(),
            rx_signal: String::new(),
        }],
    };
    let expected = "
Powerline Network — eth0 — 2015-05-15 00:00:00

  MAC                Model          Chip  Status
  ------------------ -------------- ----- ----------
  02:00:00:AA:00:01 —              BCM Local
  02:00:00:BB:00:02 TL-PA9020P     ??? Online

  Link Speeds (Mbps):
             AA:00:01 BB:00:02
    AA:00:01        —      307
    BB:00:02        ?        —

  Link Diagnostics:
  From           To                 TX     RX  TxSig  RxSig  Assessment
  -------------- -------------- ------ ------  ------ ------ --------------------
  AA:00:01       BB:00:02         307↑    30↓  MIMO   —      OK — moderate signal

";
    assert_eq!(scan_report(&scan), expected);
}

#[test]
fn a_report_without_links() {
    let scan = NetworkScan {
        timestamp: Timestamp::new(0, 0, 0).unwrap(),
        interface: "x".to_string(),
        devices: vec![],
        links: vec![],
    };
    let expected = "
Powerline Network — x — 1970-01-01 00:00:00

  MAC                Model          Chip  Status
  ------------------ -------------- ----- ----------

  Link Speeds (Mbps):
            

";
    assert_eq!(scan_report(&scan), expected);
}

// -- Text ------------------------------------------------------------------------------------

#[test]
fn numbers_as_text() {
    assert_eq!(decimal_text(0), "0");
    assert_eq!(decimal_text(10), "10");
    assert_eq!(decimal_text(u64::MAX), "18446744073709551615");
}

#[test]
fn texts() {
    let none: Vec<String> = Vec::new();
    assert_eq!(join(&none, ", "), "");
    assert_eq!(join(&vec!["a".to_string()], ", "), "a");
    assert_eq!(join(&vec!["a".to_string(), "".to_string(), "c".to_string()], "-"), "a--c");
    assert!(same_text("é", "é") && !same_text("e", "é") && !same_text("", "x"));
    assert!(starts_with("SISO2", "SISO") && !starts_with("SIS", "SISO") && starts_with("", ""));
    assert!(contains("abcabd", "abd") && !contains("abcab", "abd") && contains("x", ""));
}
