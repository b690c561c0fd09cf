use plcmon::clock::Timestamp;
use plcmon::protocol::MacAddr;
use plcmon::tui::history::{History, MAX_HISTORY};
use plcmon::tui::layout::{
    check_spark, heights_of, place, spark_areas, spark_layout, Area, Height, Panel,
};
use plcmon::tui::panels::{assess_link, device_rows, matrix_rows, speed_color, Paint, Severity};
use plcmon::tui::{App, Key, TuiCommand};
use plcmon::types::{Chipset, Device, Link, NetworkScan};

const A: MacAddr = MacAddr([2, 0, 0, 0xA0, 0, 1]);
const B: MacAddr = MacAddr([2, 0, 0, 0x9F, 0, 2]);
const C: MacAddr = MacAddr([2, 0, 0, 0xC0, 0, 3]);

fn device(mac: MacAddr, model: &str, is_local: bool, is_cco: bool) -> Device {
    Device {
        mac,
        model: model.to_string(),
        firmware: String::new(),
        is_local,
        is_cco,
        chipset: Chipset::Broadcom,
    }
}

fn link(from: MacAddr, to: MacAddr, tx: u16, rx: u16, signal: &str) -> Link {
    Link {
        from,
        to,
        tx_mbps: tx,
        rx_mbps: rx,
        tx_signal: signal.to_string(),
        rx_signal: String::new(),
    }
}

fn network(links: Vec<Link>) -> NetworkScan {
    NetworkScan {
        timestamp: Timestamp::new(3661, 0, 0).unwrap(),
        interface: "eth0".to_string(),
        devices: vec![device(A, "", true, true), device(B, "TL", false, true), device(C, "", false, false)],
        links,
    }
}

// -- State -----------------------------------------------------------------------------------

#[test]
fn a_new_monitor() {
    let app = App::new();
    assert!(app.current.is_none() && !app.quit && app.show_diag && !app.attached);
    assert_eq!(app.header_text(), "  iface: —  │  Waiting for first scan...");
    assert!(app.diagnostics_lines().is_none());
    assert!(app.sparkline().is_none());
}

#[test]
fn keys() {
    let mut app = App::new();
    assert_eq!(app.on_key(Key::Char('r')), None);
    assert_eq!(app.status, "Waiting for first scan...");
    app.on_key(Key::Char('d'));
    assert!(!app.show_diag);
    app.on_key(Key::Char('d'));
    assert!(app.show_diag);
    app.on_key(Key::Other);
    app.on_key(Key::Char('x'));
    app.on_key(Key::Tab);
    assert_eq!(app.selected_link, 0);
    assert!(!app.quit);
    let mut app = app.with_cmd_tx();
    assert_eq!(app.on_key(Key::Char('r')), Some(TuiCommand::Rescan));
    assert_eq!(app.status, "Rescanning...");
    app.on_key(Key::Esc);
    assert!(app.quit);
    let mut app = App::new();
    app.on_key(Key::Char('q'));
    assert!(app.quit);
}

#[test]
fn scans_are_taken_in() {
    let mut app = App::new();
    app.ingest(network(vec![link(A, B, 100, 90, "MIMO")]));
    assert_eq!(app.status, "#1 — 3 devices, 1 link  (01:01:01)");
    assert_eq!(app.header_text(), "  iface: eth0  │  #1 — 3 devices, 1 link  (01:01:01)");
    let mut scan = network(vec![]);
    scan.devices.truncate(1);
    app.ingest(scan);
    assert_eq!(app.status, "#2 — 1 device, 0 links  (01:01:01)");
    assert_eq!(app.scan_count, 2);
    assert_eq!(app.history.len(), 1);
    let e = app.history.entry(0);
    assert_eq!((e.from.as_str(), e.to.as_str()), ("A0:00:01", "9F:00:02"));
    assert_eq!((e.speeds[0], e.signals[0].as_str()), (100, "MIMO"));
}

#[test]
fn tab_goes_around_in_order() {
    let mut app = App::new();
    app.ingest(network(vec![link(C, A, 1, 1, ""), link(A, C, 2, 2, ""), link(B, A, 3, 3, ""), link(A, B, 4, 4, "")]));
    let mut seen = Vec::new();
    for _ in 0..4 {
        seen.push(app.sparkline().unwrap().data[0]);
        app.on_key(Key::Tab);
    }
    assert_eq!(seen, vec![3, 4, 2, 1]);
    assert_eq!(app.selected_link, 0);
    app.on_key(Key::Char('n'));
    assert_eq!(app.selected_link, 1);
}

#[test]
fn the_history_is_bounded() {
    let mut h = History::new();
    assert_eq!(MAX_HISTORY, 120);
    for n in 0..125u16 {
        h.record("x", "y", n, if n % 2 == 0 { "MIMO" } else { "SISO" });
    }
    h.record("a", "y", 7, "");
    assert_eq!(h.len(), 2);
    assert_eq!(h.entry(0).from, "a");
    let e = h.entry(1);
    assert_eq!((e.speeds.len(), e.signals.len()), (120, 120));
    assert_eq!((e.speeds[0], e.speeds[119]), (5, 124));
    assert_eq!((e.signals[0].as_str(), e.signals[119].as_str()), ("SISO", "MIMO"));
}

#[test]
fn two_scans_add_up() {
    let mut one = App::new();
    one.ingest(network(vec![link(A, B, 1, 1, "x")]));
    one.ingest(network(vec![link(A, B, 2, 1, "y")]));
    let mut both = App::new();
    both.ingest(network(vec![link(A, B, 1, 1, "x"), link(A, B, 2, 1, "y")]));
    for app in [one, both] {
        let e = app.history.entry(0);
        assert_eq!((e.speeds[0], e.speeds[1], e.speeds.len()), (1, 2, 2));
        assert_eq!(e.signals[1], "y");
    }
}

// -- Panels ----------------------------------------------------------------------------------------

#[test]
fn panels_and_heights() {
    let mut app = App::new();
    let all = vec![
        (Panel::Header, Height::Length(3)),
        (Panel::Devices, Height::Min(4)),
        (Panel::Matrix, Height::Min(4)),
        (Panel::Diagnostics, Height::Length(6)),
        (Panel::Sparklines, Height::Length(5)),
        (Panel::Footer, Height::Length(1)),
    ];
    assert_eq!(app.panels(), all);
    app.on_key(Key::Char('d'));
    let mut fewer = all.clone();
    fewer.remove(3);
    assert_eq!(app.panels(), fewer);
}

#[test]
fn colours() {
    assert_eq!(speed_color(0), Paint::Red);
    assert_eq!(speed_color(50), Paint::Red);
    assert_eq!(speed_color(51), Paint::Yellow);
    assert_eq!(speed_color(150), Paint::Yellow);
    assert_eq!(speed_color(151), Paint::Green);
}

#[test]
fn device_panel() {
    let rows = device_rows(&network(vec![]));
    assert_eq!(rows.len(), 3);
    assert_eq!((rows[0].mac.as_str(), rows[0].model.as_str(), rows[0].chip.as_str()), ("02:00:00:A0:00:01", "—", "BCM"));
    assert_eq!((rows[0].status, rows[0].paint), ("● Local", Paint::Green));
    assert_eq!((rows[1].model.as_str(), rows[1].status, rows[1].paint), ("TL", "● CCo", Paint::Yellow));
    assert_eq!((rows[2].status, rows[2].paint), ("● Online", Paint::Yellow));
}

#[test]
fn matrix_panel() {
    let rows = matrix_rows(&network(vec![
        link(A, B, 7, 1, "MIMO"),
        link(A, C, 1000, 1, "SISO2"),
        link(B, A, 151, 1, "SisoOnly"),
        link(B, C, 60, 1, ""),
    ]));
    let cells: Vec<Vec<(&str, Paint)>> =
        rows.iter().map(|r| r.cells.iter().map(|c| (c.text.as_str(), c.paint)).collect()).collect();
    assert_eq!(rows[1].label, "9F:00:02");
    assert_eq!(cells[0], vec![("   —", Paint::Plain), ("  7M", Paint::Red), ("1000S", Paint::Green)]);
    assert_eq!(cells[1], vec![("151 ", Paint::Green), ("   —", Paint::Plain), (" 60 ", Paint::Yellow)]);
    assert_eq!(cells[2], vec![("   ?", Paint::DarkGray), ("   ?", Paint::DarkGray), ("   —", Paint::Plain)]);
}

#[test]
fn judgements() {
    let judge = |tx, rx, signal| {
        let a = assess_link(&link(A, B, tx, rx, signal));
        (a.severity, a.message)
    };
    assert_eq!(judge(20, 20, "SISO2"), (Severity::Bad, "SISO fallback — try: plcmon restart <MAC>"));
    assert_eq!(judge(20, 21, "MIMO"), (Severity::Bad, "Very poor signal — different phase or heavy noise"));
    assert_eq!(judge(120, 40, ""), (Severity::Warn, "Weak — cross-phase or noisy circuit"));
    assert_eq!(judge(121, 40, ""), (Severity::Warn, "Weak + asymmetric — noise source near one adapter"));
    assert_eq!(judge(100, 0, ""), (Severity::Warn, "Weak — cross-phase or noisy circuit"));
    assert_eq!(judge(81, 81, "SISO"), (Severity::Warn, "SISO mode — restart may recover MIMO"));
    assert_eq!(judge(50, 151, "MIMO"), (Severity::Warn, "Asymmetric — noise source near one adapter"));
    assert_eq!(judge(50, 150, "MIMO"), (Severity::Good, "Healthy"));
    assert_eq!(judge(65_535, 21_845, "MIMO"), (Severity::Good, "Healthy"));
    assert_eq!(judge(65_533, 21_844, "MIMO"), (Severity::Warn, "Asymmetric — noise source near one adapter"));
    assert_eq!(judge(300, 0, "MIMO"), (Severity::Good, "Healthy"));
}

#[test]
fn diagnostics_panel() {
    let mut app = App::new();
    app.ingest(network(vec![]));
    let lines = app.diagnostics_lines().unwrap();
    assert_eq!(lines.len(), 1);
    assert_eq!((lines[0].badge, lines[0].text.as_str()), ("", "  All links healthy"));
    app.ingest(network(vec![link(A, B, 10, 300, "MIMO"), link(B, A, 5, 5, "")]));
    let lines = app.diagnostics_lines().unwrap();
    assert_eq!(lines.len(), 2);
    assert_eq!((lines[0].badge, lines[0].paint), (" !  ", Paint::Yellow));
    assert_eq!(
        lines[0].text,
        " A0:00:01 → 9F:00:02   10/300  MIMO  Asymmetric — noise source near one adapter"
    );
    assert_eq!((lines[1].badge, lines[1].paint), (" !! ", Paint::Red));
    assert_eq!(
        lines[1].text,
        " 9F:00:02 → A0:00:01    5/5  —  Very poor signal — different phase or heavy noise"
    );
}

#[test]
fn flapping_links() {
    let mut app = App::new();
    for signal in ["MIMO", "SISO"] {
        app.ingest(network(vec![link(A, B, 300, 300, signal), link(B, A, 300, 300, "MIMO")]));
    }
    assert_eq!(app.diagnostics_lines().unwrap().len(), 2);
    app.ingest(network(vec![link(A, B, 300, 300, "SISO"), link(B, A, 300, 300, "MIMO")]));
    let lines = app.diagnostics_lines().unwrap();
    assert_eq!(lines.len(), 3);
    assert_eq!((lines[1].badge, lines[1].paint), ("    ", Paint::Green));
    assert_eq!((lines[2].badge, lines[2].paint), (" !! ", Paint::Magenta));
    assert_eq!(
        lines[2].text,
        " A0:00:01 → 9F:00:02  Signal type flapping (MIMO/SISO) — unstable link"
    );
}

#[test]
fn sparkline_panel() {
    let mut app = App::new();
    for tx in [100, 40, 301] {
        app.ingest(network(vec![link(A, B, tx, 1, "")]));
    }
    let s = app.sparkline().unwrap();
    assert_eq!(s.data, vec![100, 40, 301]);
    assert_eq!((s.top, s.paint), (301, Paint::Green));
    assert_eq!(s.label, "A0:00:01 → 9F:00:02\n301 Mbps (now)\n147/40/301 avg/min/max");
    let mut app = App::new();
    app.ingest(network(vec![link(A, B, 0, 0, "")]));
    let s = app.sparkline().unwrap();
    assert_eq!((s.top, s.paint), (1, Paint::Red));
}

#[test]
fn sparkline_areas() {
    let (spark, label) = spark_areas(Area { x: 1, y: 2, width: 78, height: 3 });
    assert_eq!(spark, Area { x: 1, y: 2, width: 54, height: 3 });
    assert_eq!(label, Area { x: 56, y: 2, width: 23, height: 3 });
    let (spark, label) = spark_areas(Area { x: 1, y: 2, width: 10, height: 3 });
    assert_eq!((spark.width, label.x), (0, 2));
}

#[test]
fn borders_are_taken_off() {
    let (spark, label) = spark_layout(Area { x: 0, y: 10, width: 80, height: 5 });
    assert_eq!(spark, Area { x: 1, y: 11, width: 54, height: 3 });
    assert_eq!(label, Area { x: 56, y: 11, width: 23, height: 3 });
    let (spark, _) = spark_layout(Area { x: 7, y: 9, width: 0, height: 1 });
    assert_eq!(spark, Area { x: 7, y: 10, width: 0, height: 0 });
    let (spark, _) = spark_layout(Area { x: 7, y: 9, width: 1, height: 0 });
    assert_eq!(spark, Area { x: 8, y: 9, width: 0, height: 0 });
    assert!(check_spark(Area { x: 0, y: 0, width: 80, height: 5 }));
    assert!(!check_spark(Area { x: 65_535, y: 0, width: 0, height: 5 }));
    assert!(!check_spark(Area { x: 65_534, y: 65_535, width: 1, height: 5 }));
}

#[test]
fn the_screen_is_shared_out() {
    let mut app = App::new();
    let screen = Area { x: 3, y: 2, width: 80, height: 24 };
    let areas = app.layout(screen);
    let panels: Vec<Panel> = areas.iter().map(|a| a.0).collect();
    assert_eq!(panels, vec![
        Panel::Header,
        Panel::Devices,
        Panel::Matrix,
        Panel::Diagnostics,
        Panel::Sparklines,
        Panel::Footer,
    ]);
    assert!(areas.iter().all(|a| a.1.x == 3 && a.1.width == 80));
    assert!(areas.iter().all(|a| a.1.y >= 2 && a.1.y + a.1.height <= 26));
    assert_eq!(areas.iter().map(|a| a.1.height).sum::<u16>(), 24);
    assert_eq!((areas[0].1.y, areas[0].1.height), (2, 3));
    assert_eq!((areas[1].1.y, areas[1].1.height), (5, 5));
    assert_eq!((areas[2].1.y, areas[2].1.height), (10, 4));
    assert_eq!((areas[5].1.y, areas[5].1.height), (25, 1));
    assert_eq!((areas[3].1.height, areas[4].1.height, areas[5].1.height), (6, 5, 1));
    app.on_key(Key::Char('d'));
    assert_eq!(app.layout(screen).len(), 5);
    for show_diag in [false, true] {
        app.show_diag = show_diag;
        let asked: Vec<Height> = heights_of(&app.panels());
        let needed: u16 = if show_diag { 23 } else { 17 };
        for height in (needed..needed + 100).chain([999, 1000, 32_767, 32_768, 65_535]) {
            for y in [0, 1, 65_535 - height] {
                if y as u32 + height as u32 > 65_535 {
                    continue;
                }
                let areas = app.layout(Area { x: 0, y, width: 80, height });
                let mut next = y;
                for (i, (_, a)) in areas.iter().enumerate() {
                    assert_eq!(a.y, next);
                    match asked[i] {
                        Height::Length(n) => assert_eq!(a.height, n),
                        Height::Min(n) => assert!(a.height >= n),
                    }
                    next = a.y + a.height;
                }
                assert_eq!(next, y + height);
                assert_eq!(areas[1].1.height, 4 + (height - needed).div_ceil(2));
                assert_eq!(areas[2].1.height, 4 + (height - needed) / 2);
            }
        }
    }
    for height in [0, 1, 5, 14] {
        let low = Area { x: 0, y: 65_530, width: 80, height };
        let bottom = (65_530 + height as u32).min(65_535);
        for (_, a) in app.layout(low) {
            assert!(a.y >= 65_530 && a.y as u32 + a.height as u32 <= bottom);
        }
    }
    let panels = vec![(Panel::Header, Height::Length(3)), (Panel::Footer, Height::Length(1))];
    assert_eq!(heights_of(&panels), vec![Height::Length(3), Height::Length(1)]);
    let other = Area { x: 0, y: 0, width: 1, height: 1 };
    assert_eq!(place(&panels, &vec![screen, other]), vec![
        (Panel::Header, screen),
        (Panel::Footer, other),
    ]);
}
