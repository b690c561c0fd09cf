//! What the panels of the monitor show: texts, colours and sizes, for a terminal
//! library to draw.

use super::history::{
    history_map, law_history_by_key, ordered, signal_texts, well_kept, EntryView, LinkHistory,
    MAX_HISTORY,
};
use super::{after_links, latest, law_history_holds_latest, signals_of, App};
use crate::protocol::{law_address_text, mac_short, mac_text, MacAddr};
use crate::report::or_dash;
use crate::text::{
    append_decimal, append_pad_start, begins_with, decimal, decimal_text, law_padding, pad_start,
    same_text, starts_with,
};
use crate::types::{
    average, average_mbps, chipset_name, device_views, law_last_link_counts, link_views, signals,
    speeds, DeviceView, Link, LinkView, NetworkScan, ScanView, SpeedMatrix,
};
use vstd::prelude::*;
use vstd::string::*;

verus! {

/// The colour of a text, or of what is behind it.
#[derive(Debug, Clone, Copy, PartialEq, Eq, Structural)]
pub enum Paint {
    Plain,
    Red,
    Yellow,
    Green,
    DarkGray,
    Magenta,
}

/// The colour for a speed.
pub open spec fn speed_paint(mbps: u16) -> Paint {
    if mbps <= 50 {
        Paint::Red
    } else if mbps <= 150 {
        Paint::Yellow
    } else {
        Paint::Green
    }
}

/// Choose the colour for a speed.
pub fn speed_color(mbps: u16) -> (r: Paint)
    ensures
        r == speed_paint(mbps),
{
    if mbps <= 50 {
        Paint::Red
    } else if mbps <= 150 {
        Paint::Yellow
    } else {
        Paint::Green
    }
}

// -- Link assessment -----------------------------------------------------------------------

#[derive(Debug, Clone, Copy, PartialEq, Eq, Structural)]
pub enum Severity {
    Good,
    Warn,
    Bad,
}

/// How a link does, and why.
pub struct Assessment {
    pub severity: Severity,
    pub message: &'static str,
}

/// Both directions work, one more than three times as fast as the other.
pub open spec fn is_asymmetric(tx: u16, rx: u16) -> bool {
    tx > 0 && rx > 0 && (tx > 3 * rx || rx > 3 * tx)
}

/// How serious the state of a link is, and what is said of it.
pub open spec fn judgement(link: LinkView) -> (Severity, Seq<char>) {
    let avg = average(link.tx_mbps, link.rx_mbps);
    let siso = begins_with(link.tx_signal, "SISO"@);
    let asymmetric = is_asymmetric(link.tx_mbps, link.rx_mbps);
    if avg <= 20 {
        if siso {
            (Severity::Bad, "SISO fallback — try: plcmon restart <MAC>"@)
        } else {
            (Severity::Bad, "Very poor signal — different phase or heavy noise"@)
        }
    } else if avg <= 80 {
        if asymmetric {
            (Severity::Warn, "Weak + asymmetric — noise source near one adapter"@)
        } else {
            (Severity::Warn, "Weak — cross-phase or noisy circuit"@)
        }
    } else if siso {
        (Severity::Warn, "SISO mode — restart may recover MIMO"@)
    } else if asymmetric {
        (Severity::Warn, "Asymmetric — noise source near one adapter"@)
    } else {
        (Severity::Good, "Healthy"@)
    }
}

/// Assess a link.
pub fn assess_link(link: &Link) -> (r: Assessment)
    ensures
        (r.severity, r.message@) == judgement(link@),
{
    let avg = average_mbps(link.tx_mbps, link.rx_mbps);
    let is_siso = starts_with(link.tx_signal.as_str(), "SISO");
    let tx = link.tx_mbps as u32;
    let rx = link.rx_mbps as u32;
    let asymmetric = tx > 0 && rx > 0 && (tx > 3 * rx || rx > 3 * tx);
    if avg <= 20 {
        Assessment {
            severity: Severity::Bad,
            message: if is_siso {
                "SISO fallback — try: plcmon restart <MAC>"
            } else {
                "Very poor signal — different phase or heavy noise"
            },
        }
    } else if avg <= 80 {
        Assessment {
            severity: Severity::Warn,
            message: if asymmetric {
                "Weak + asymmetric — noise source near one adapter"
            } else {
                "Weak — cross-phase or noisy circuit"
            },
        }
    } else if is_siso {
        Assessment { severity: Severity::Warn, message: "SISO mode — restart may recover MIMO" }
    } else if asymmetric {
        Assessment {
            severity: Severity::Warn,
            message: "Asymmetric — noise source near one adapter",
        }
    } else {
        Assessment { severity: Severity::Good, message: "Healthy" }
    }
}

// -- Devices -------------------------------------------------------------------------------------

/// One row of the device panel.
pub struct DeviceRow {
    pub mac: String,
    pub model: String,
    pub chip: String,
    pub status: &'static str,
    pub paint: Paint,
}

pub struct DeviceRowView {
    pub mac: Seq<char>,
    pub model: Seq<char>,
    pub chip: Seq<char>,
    pub status: Seq<char>,
    pub paint: Paint,
}

impl View for DeviceRow {
    type V = DeviceRowView;

    open spec fn view(&self) -> DeviceRowView {
        DeviceRowView {
            mac: self.mac@,
            model: self.model@,
            chip: self.chip@,
            status: self.status@,
            paint: self.paint,
        }
    }
}

/// The row for a device.
pub open spec fn device_row(d: DeviceView) -> DeviceRowView {
    DeviceRowView {
        mac: mac_text(d.mac),
        model: or_dash(d.model),
        chip: chipset_name(d.chipset),
        status: if d.is_local {
            "● Local"@
        } else if d.is_cco {
            "● CCo"@
        } else {
            "● Online"@
        },
        paint: if d.is_local {
            Paint::Green
        } else {
            Paint::Yellow
        },
    }
}

/// The rows of a list.
pub open spec fn row_views(rows: Seq<DeviceRow>) -> Seq<DeviceRowView> {
    rows.map_values(|r: DeviceRow| r@)
}

/// List the rows of the device panel.
pub fn device_rows(scan: &NetworkScan) -> (rows: Vec<DeviceRow>)
    ensures
        row_views(rows@) == scan@.devices.map_values(|d: DeviceView| device_row(d)),
{
    let mut rows: Vec<DeviceRow> = Vec::new();
    let ghost all = scan@.devices;
    let mut i: usize = 0;
    while i < scan.devices.len()
        invariant
            i <= scan.devices.len(),
            all == device_views(scan.devices@),
            rows@.len() == i,
            forall|k: int| 0 <= k < i ==> (#[trigger] rows@[k])@ == device_row(all[k]),
        decreases scan.devices.len() - i,
    {
        let d = &scan.devices[i];
        assert(all[i as int] == d@);
        let model = if d.model.as_str().unicode_len() == 0 {
            String::from_str("—")
        } else {
            String::from_str(d.model.as_str())
        };
        let row = DeviceRow {
            mac: d.mac.to_string(),
            model,
            chip: d.chipset.to_string(),
            status: if d.is_local {
                "● Local"
            } else if d.is_cco {
                "● CCo"
            } else {
                "● Online"
            },
            paint: if d.is_local {
                Paint::Green
            } else {
                Paint::Yellow
            },
        };
        assert(row@ == device_row(d@));
        rows.push(row);
        i += 1;
    }
    assert(row_views(rows@) =~= all.map_values(|d: DeviceView| device_row(d)));
    rows
}

// -- Speed matrix ---------------------------------------------------------------------------------

/// One cell of the matrix panel.
pub struct MatrixCell {
    pub text: String,
    pub paint: Paint,
}

/// Shows the signal type: M for MIMO, S for SISO, a blank for anything else.
pub open spec fn indicator(signal: Seq<char>) -> Seq<char> {
    if signal == "MIMO"@ {
        "M"@
    } else if begins_with(signal, "SISO"@) {
        "S"@
    } else {
        " "@
    }
}

/// What stands in the matrix for the link from one device to another.
pub open spec fn panel_cell(links: Seq<LinkView>, from: MacAddr, to: MacAddr) -> (Seq<char>, Paint) {
    if from == to {
        ("   —"@, Paint::Plain)
    } else {
        match speeds(links).get((from, to)) {
            Some(mbps) => (
                pad_start(decimal(mbps as nat), 3, ' ') + indicator(
                    match signals(links).get((from, to)) {
                        Some(signal) => signal,
                        None => Seq::empty(),
                    },
                ),
                speed_paint(mbps),
            ),
            None => ("   ?"@, Paint::DarkGray),
        }
    }
}

fn matrix_cell(scan: &NetworkScan, matrix: &SpeedMatrix, from: MacAddr, to: MacAddr) -> (r:
    MatrixCell)
    requires
        matrix@ == speeds(scan@.links),
    ensures
        (r.text@, r.paint) == panel_cell(scan@.links, from, to),
{
    if from == to {
        return MatrixCell { text: String::from_str("   —"), paint: Paint::Plain };
    }
    match matrix.get(from, to) {
        Some(mbps) => {
            let mut text = String::new();
            proof {
                reveal_strlit(" ");
                reveal_strlit("MIMO");
                reveal_strlit("SISO");
            }
            append_pad_start(&mut text, decimal_text(mbps as u64).as_str(), 3, " ");
            match scan.signal_between(from, to) {
                Some(signal) => {
                    if same_text(signal.as_str(), "MIMO") {
                        text.append("M");
                    } else if starts_with(signal.as_str(), "SISO") {
                        text.append("S");
                    } else {
                        text.append(" ");
                    }
                },
                None => {
                    text.append(" ");
                },
            }
            let r = MatrixCell { text, paint: speed_color(mbps) };
            assert(r.text@ == panel_cell(scan@.links, from, to).0);
            r
        },
        None => MatrixCell { text: String::from_str("   ?"), paint: Paint::DarkGray },
    }
}

/// One row of the matrix panel: whose links it shows, and a cell for each device.
pub struct MatrixRow {
    pub label: String,
    pub cells: Vec<MatrixCell>,
}

/// `row` shows the links from `from`.
pub open spec fn is_matrix_row(row: MatrixRow, from: MacAddr, scan: ScanView) -> bool {
    &&& row.label@ == mac_short(from)
    &&& row.cells@.len() == scan.devices.len()
    &&& forall|i: int|
        0 <= i < row.cells@.len() ==> (
            (#[trigger] row.cells@[i]).text@,
            row.cells@[i].paint,
        ) == panel_cell(scan.links, from, scan.devices[i].mac)
}

/// List the rows of the matrix panel; their labels are those of the columns, too.
pub fn matrix_rows(scan: &NetworkScan) -> (rows: Vec<MatrixRow>)
    ensures
        rows@.len() == scan@.devices.len(),
        forall|i: int|
            0 <= i < rows@.len() ==> is_matrix_row(
                #[trigger] rows@[i],
                scan@.devices[i].mac,
                scan@,
            ),
{
    let matrix = scan.speed_matrix();
    let mut rows: Vec<MatrixRow> = Vec::new();
    let mut i: usize = 0;
    while i < scan.devices.len()
        invariant
            i <= scan.devices.len(),
            matrix@ == speeds(scan@.links),
            rows@.len() == i,
            forall|k: int|
                0 <= k < i ==> is_matrix_row(#[trigger] rows@[k], scan@.devices[k].mac, scan@),
        decreases scan.devices.len() - i,
    {
        let from = scan.devices[i].mac;
        assert(scan@.devices[i as int].mac == from);
        let mut cells: Vec<MatrixCell> = Vec::new();
        let mut j: usize = 0;
        while j < scan.devices.len()
            invariant
                j <= scan.devices.len(),
                matrix@ == speeds(scan@.links),
                cells@.len() == j,
                forall|k: int|
                    0 <= k < j ==> (
                        (#[trigger] cells@[k]).text@,
                        cells@[k].paint,
                    ) == panel_cell(scan@.links, from, scan@.devices[k].mac),
            decreases scan.devices.len() - j,
        {
            let to = scan.devices[j].mac;
            assert(scan@.devices[j as int].mac == to);
            cells.push(matrix_cell(scan, &matrix, from, to));
            j += 1;
        }
        rows.push(MatrixRow { label: from.short(), cells });
        i += 1;
    }
    rows
}

// -- Diagnostics -----------------------------------------------------------------------------------

/// One line of the diagnostics panel: a badge on a coloured ground, and a text.
pub struct DiagLine {
    pub badge: &'static str,
    pub paint: Paint,
    pub text: String,
}

pub struct DiagView {
    pub badge: Seq<char>,
    pub paint: Paint,
    pub text: Seq<char>,
}

impl View for DiagLine {
    type V = DiagView;

    open spec fn view(&self) -> DiagView {
        DiagView { badge: self.badge@, paint: self.paint, text: self.text@ }
    }
}

/// The lines of a list.
pub open spec fn diag_views(lines: Seq<DiagLine>) -> Seq<DiagView> {
    lines.map_values(|l: DiagLine| l@)
}

/// The line for a link.
pub open spec fn link_diag(link: LinkView) -> DiagView {
    let (severity, message) = judgement(link);
    DiagView {
        badge: match severity {
            Severity::Good => "    "@,
            Severity::Warn => " !  "@,
            Severity::Bad => " !! "@,
        },
        paint: match severity {
            Severity::Good => Paint::Green,
            Severity::Warn => Paint::Yellow,
            Severity::Bad => Paint::Red,
        },
        text: " "@ + mac_short(link.from) + " → "@ + mac_short(link.to) + "  "@ + pad_start(
            decimal(link.tx_mbps as nat),
            3,
            ' ',
        ) + "/"@ + decimal(link.rx_mbps as nat) + "  "@ + or_dash(link.tx_signal) + "  "@ + message,
    }
}

/// The signal type of a link has changed within its history of three samples or more.
pub open spec fn is_flapping(e: EntryView) -> bool {
    e.samples.signals.len() >= 3 && exists|i: int|
        0 <= i < e.samples.signals.len() && #[trigger] e.samples.signals[i]
            != e.samples.signals[0]
}

/// The line for a link whose signal type changes.
pub open spec fn flapping_diag(e: EntryView) -> DiagView {
    DiagView {
        badge: " !! "@,
        paint: Paint::Magenta,
        text: " "@ + e.key.0 + " → "@ + e.key.1
            + "  Signal type flapping (MIMO/SISO) — unstable link"@,
    }
}

/// The lines for the links whose signal type changes.
pub open spec fn flapping_diags(history: Seq<EntryView>) -> Seq<DiagView>
    decreases history.len(),
{
    if history.len() == 0 {
        Seq::empty()
    } else {
        let before = flapping_diags(history.drop_last());
        if is_flapping(history.last()) {
            before.push(flapping_diag(history.last()))
        } else {
            before
        }
    }
}

/// The lines of the diagnostics panel: one for each link, one for each link whose
/// signal type changes, and at least one.
pub open spec fn diagnostics(links: Seq<LinkView>, history: Seq<EntryView>) -> Seq<DiagView> {
    let found = links.map_values(|l: LinkView| link_diag(l)) + flapping_diags(history);
    if found.len() == 0 {
        seq![
            DiagView {
                badge: ""@,
                paint: Paint::Plain,
                text: "  All links healthy"@,
            },
        ]
    } else {
        found
    }
}

fn link_line(link: &Link) -> (r: DiagLine)
    ensures
        r@ == link_diag(link@),
{
    let a = assess_link(link);
    proof {
        reveal_strlit(" ");
    }
    let mut text = String::from_str(" ");
    text.append(link.from.short().as_str());
    text.append(" → ");
    text.append(link.to.short().as_str());
    text.append("  ");
    append_pad_start(&mut text, decimal_text(link.tx_mbps as u64).as_str(), 3, " ");
    text.append("/");
    append_decimal(&mut text, link.rx_mbps as u64);
    text.append("  ");
    if link.tx_signal.as_str().unicode_len() == 0 {
        text.append("—");
    } else {
        text.append(link.tx_signal.as_str());
    }
    text.append("  ");
    text.append(a.message);
    let (badge, paint) = match a.severity {
        Severity::Good => ("    ", Paint::Green),
        Severity::Warn => (" !  ", Paint::Yellow),
        Severity::Bad => (" !! ", Paint::Red),
    };
    let r = DiagLine { badge, paint, text };
    assert(r@.text == link_diag(link@).text);
    r
}

fn flaps(e: &LinkHistory) -> (r: bool)
    ensures
        r == is_flapping(e@),
{
    let n = e.signals.len();
    if n < 3 {
        return false;
    }
    let ghost all = e@.samples.signals;
    assert(all[0] == e.signals@[0]@);
    let mut i: usize = 1;
    while i < n
        invariant
            1 <= i <= n,
            n == e.signals@.len(),
            n >= 3,
            all == signal_texts(e.signals@),
            forall|k: int| 0 <= k < i ==> #[trigger] all[k] == all[0],
            e@.samples.signals == all,
        decreases n - i,
    {
        assert(all[i as int] == e.signals@[i as int]@);
        if !same_text(e.signals[i].as_str(), e.signals[0].as_str()) {
            assert(all[i as int] != all[0]);
            return true;
        }
        i += 1;
    }
    false
}

fn flapping_line(e: &LinkHistory) -> (r: DiagLine)
    ensures
        r@ == flapping_diag(e@),
{
    let mut text = String::from_str(" ");
    text.append(e.from.as_str());
    text.append(" → ");
    text.append(e.to.as_str());
    text.append("  Signal type flapping (MIMO/SISO) — unstable link");
    DiagLine { badge: " !! ", paint: Paint::Magenta, text }
}

fn push_line(lines: &mut Vec<DiagLine>, line: DiagLine)
    ensures
        diag_views(final(lines)@) == diag_views(old(lines)@).push(line@),
{
    let ghost before = lines@;
    lines.push(line);
    assert(diag_views(lines@) == diag_views(before).push(line@));
}

// -- Sparkline ------------------------------------------------------------------------------------

/// The smallest of some speeds, and the largest.
pub open spec fn is_smallest(m: u64, data: Seq<u64>) -> bool {
    data.contains(m) && forall|i: int| 0 <= i < data.len() ==> m <= #[trigger] data[i]
}

pub open spec fn is_largest(m: u64, data: Seq<u64>) -> bool {
    data.contains(m) && forall|i: int| 0 <= i < data.len() ==> #[trigger] data[i] <= m
}

/// The sum of some speeds.
pub open spec fn total(data: Seq<u64>) -> nat
    decreases data.len(),
{
    if data.len() == 0 {
        0
    } else {
        total(data.drop_last()) + data.last() as nat
    }
}

/// What the sparkline panel shows of the selected link.
pub struct Spark {
    pub data: Vec<u64>,
    /// The speed at the top of the sparkline.
    pub top: u64,
    pub paint: Paint,
    pub label: String,
}

/// `spark` shows the link `e`: its speeds, and in words the last, the mean, the
/// smallest and the largest of them.
pub open spec fn shows(spark: Spark, e: EntryView) -> bool {
    let data = e.samples.speeds;
    &&& spark.data@ == data
    &&& spark.paint == speed_paint(data.last() as u16)
    &&& exists|min: u64, max: u64| #[trigger]
        is_smallest(min, data) && #[trigger] is_largest(max, data) && spark.top == (if max < 1 {
            1u64
        } else {
            max
        }) && spark.label@ == e.key.0 + " → "@ + e.key.1 + "\n"@ + decimal(data.last() as nat)
            + " Mbps (now)\n"@ + decimal(total(data) / data.len()) + "/"@ + decimal(min as nat)
            + "/"@ + decimal(max as nat) + " avg/min/max"@
}

fn spark_of(e: &LinkHistory) -> (r: Spark)
    requires
        well_kept(e@.samples),
    ensures
        shows(r, e@),
{
    let ghost all = e@.samples.speeds;
    let n = e.speeds.len();
    let first = e.speeds[0];
    let mut data: Vec<u64> = Vec::new();
    let mut min: u64 = first;
    let mut max: u64 = first;
    let mut sum: u64 = 0;
    let mut i: usize = 0;
    assert(all[0] == first);
    assert(all.take(0).len() == 0);
    while i < n
        invariant
            i <= n,
            n == e.speeds@.len(),
            1 <= n <= MAX_HISTORY,
            all == e.speeds@,
            forall|k: int| 0 <= k < n ==> #[trigger] all[k] <= u16::MAX,
            data@ == all.take(i as int),
            all.contains(min),
            all.contains(max),
            forall|k: int| 0 <= k < i ==> min <= #[trigger] all[k] && all[k] <= max,
            sum == total(all.take(i as int)),
            sum <= 0xFFFF * i,
        decreases n - i,
    {
        let v = e.speeds[i];
        assert(all[i as int] == v);
        assert(all.take(i + 1).drop_last() == all.take(i as int));
        data.push(v);
        assert(data@ == all.take(i + 1));
        if v < min {
            min = v;
        }
        if v > max {
            max = v;
        }
        sum = sum + v;
        i += 1;
    }
    assert(all.take(i as int) == all);
    let last = e.speeds[n - 1];
    assert(all.last() == last);
    let avg = sum / n as u64;
    let mut label = String::from_str(e.from.as_str());
    label.append(" → ");
    label.append(e.to.as_str());
    label.append("\n");
    append_decimal(&mut label, last);
    label.append(" Mbps (now)\n");
    append_decimal(&mut label, avg);
    label.append("/");
    append_decimal(&mut label, min);
    label.append("/");
    append_decimal(&mut label, max);
    label.append(" avg/min/max");
    let top: u64 = if max < 1 {
        1
    } else {
        max
    };
    assert(is_smallest(min, all) && is_largest(max, all));
    Spark { data, top, paint: speed_color(last as u16), label }
}

// -- The panels of the monitor ----------------------------------------------------------------------

impl App {
    /// The text of the header.
    pub fn header_text(&self) -> (r: String)
        ensures
            r@ == "  iface: "@ + (match self@.current {
                Some(scan) => scan.interface,
                None => "—"@,
            }) + "  │  "@ + self@.status,
    {
        let mut r = String::from_str("  iface: ");
        match &self.current {
            Some(scan) => r.append(scan.interface.as_str()),
            None => r.append("—"),
        }
        r.append("  │  ");
        r.append(self.status.as_str());
        r
    }

    /// The lines of the diagnostics panel; `None` before the first scan.
    pub fn diagnostics_lines(&self) -> (r: Option<Vec<DiagLine>>)
        ensures
            match (self@.current, r) {
                (Some(scan), Some(lines)) => diag_views(lines@) == diagnostics(
                    scan.links,
                    self@.history,
                ),
                (None, None) => true,
                _ => false,
            },
    {
        let scan = match &self.current {
            Some(scan) => scan,
            None => {
                return None;
            },
        };
        let mut lines: Vec<DiagLine> = Vec::new();
        let ghost all = scan@.links;
        let ghost judged = all.map_values(|l: LinkView| link_diag(l));
        let mut i: usize = 0;
        assert(diag_views(lines@) == judged.take(0));
        while i < scan.links.len()
            invariant
                i <= scan.links.len(),
                all == link_views(scan.links@),
                judged == all.map_values(|l: LinkView| link_diag(l)),
                diag_views(lines@) == judged.take(i as int),
            decreases scan.links.len() - i,
        {
            assert(judged[i as int] == link_diag(scan.links@[i as int]@));
            push_line(&mut lines, link_line(&scan.links[i]));
            assert(judged.take(i + 1) == judged.take(i as int).push(judged[i as int]));
            i += 1;
        }
        assert(judged.take(i as int) == judged);
        let ghost history = self@.history;
        let n = self.history.len();
        let mut j: usize = 0;
        assert(history.take(0).len() == 0);
        assert(diag_views(lines@) == judged + flapping_diags(history.take(0)));
        while j < n
            invariant
                j <= n,
                n == self.history@.len(),
                history == self.history@,
                diag_views(lines@) == judged + flapping_diags(history.take(j as int)),
            decreases n - j,
        {
            let e = self.history.entry(j);
            assert(history.take(j + 1).drop_last() == history.take(j as int));
            assert(history.take(j + 1).last() == e@);
            if flaps(e) {
                push_line(&mut lines, flapping_line(e));
                assert(diag_views(lines@) == judged + flapping_diags(history.take(j + 1)));
            }
            j += 1;
        }
        assert(history.take(j as int) == history);
        if lines.len() == 0 {
            let line = DiagLine {
                badge: "",
                paint: Paint::Plain,
                text: String::from_str("  All links healthy"),
            };
            push_line(&mut lines, line);
            assert(diag_views(lines@) == diagnostics(all, history));
        }
        Some(lines)
    }

    /// What the sparkline panel shows; `None` before there is any history.
    pub fn sparkline(&self) -> (r: Option<Spark>)
        requires
            self@.valid(),
        ensures
            match r {
                Some(spark) => self@.history.len() > 0 && shows(
                    spark,
                    self@.history[self@.selected_link as int],
                ),
                None => self@.history.len() == 0,
            },
    {
        let n = self.history.len();
        if n == 0 {
            return None;
        }
        Some(spark_of(self.history.entry(self.selected_link)))
    }
}

// -- Laws ----------------------------------------------------------------------------------------

/// A link is called healthy exactly if it is fast enough, not in SISO mode and not
/// asymmetric; it is called bad exactly if it hardly carries anything.
pub proof fn law_severity(link: LinkView)
    ensures
        judgement(link).0 is Good <==> average(link.tx_mbps, link.rx_mbps) > 80 && !begins_with(
            link.tx_signal,
            "SISO"@,
        ) && !is_asymmetric(link.tx_mbps, link.rx_mbps),
        judgement(link).0 is Bad <==> average(link.tx_mbps, link.rx_mbps) <= 20,
{
}

/// The two directions of a link are judged alike.
pub proof fn law_asymmetry_is_mutual(tx: u16, rx: u16)
    ensures
        is_asymmetric(tx, rx) == is_asymmetric(rx, tx),
        average(tx, rx) == average(rx, tx),
{
}

/// The colour of a speed: red up to 50 Mbps, yellow up to 150, green beyond.
pub proof fn law_speed_paint(mbps: u16)
    ensures
        speed_paint(mbps) is Red <==> mbps <= 50,
        speed_paint(mbps) is Yellow <==> 50 < mbps <= 150,
        speed_paint(mbps) is Green <==> mbps > 150,
{
}

/// What is said of a link, by its rates and its signal. A mean of 20 Mbps or less is
/// bad, one of 80 or less is weak; beyond that a single stream, or one direction more
/// than three times as fast as the other, is worth a warning.
pub proof fn law_judgement(link: LinkView)
    ensures
        ({
            let sum = link.tx_mbps + link.rx_mbps;
            let siso = link.tx_signal.len() >= 4 && link.tx_signal.take(4) == "SISO"@;
            let uneven = link.tx_mbps > 0 && link.rx_mbps > 0 && (link.tx_mbps > 3 * link.rx_mbps
                || link.rx_mbps > 3 * link.tx_mbps);
            &&& sum < 42 && siso ==> judgement(link) == (
                Severity::Bad,
                "SISO fallback — try: plcmon restart <MAC>"@,
            )
            &&& sum < 42 && !siso ==> judgement(link) == (
                Severity::Bad,
                "Very poor signal — different phase or heavy noise"@,
            )
            &&& 42 <= sum < 162 && uneven ==> judgement(link) == (
                Severity::Warn,
                "Weak + asymmetric — noise source near one adapter"@,
            )
            &&& 42 <= sum < 162 && !uneven ==> judgement(link) == (
                Severity::Warn,
                "Weak — cross-phase or noisy circuit"@,
            )
            &&& sum >= 162 && siso ==> judgement(link) == (
                Severity::Warn,
                "SISO mode — restart may recover MIMO"@,
            )
            &&& sum >= 162 && !siso && uneven ==> judgement(link) == (
                Severity::Warn,
                "Asymmetric — noise source near one adapter"@,
            )
            &&& sum >= 162 && !siso && !uneven ==> judgement(link) == (Severity::Good, "Healthy"@)
        }),
{
    reveal_strlit("SISO");
}

/// The row of a device shows its own address, model and chipset; a local device is
/// green and called local, the coordinator is called so, any other is online.
pub proof fn law_device_row(d: DeviceView)
    ensures
        device_row(d).mac == mac_text(d.mac),
        d.model.len() > 0 ==> device_row(d).model == d.model,
        d.model.len() == 0 ==> device_row(d).model == "—"@,
        d.chipset is Broadcom ==> device_row(d).chip == "BCM"@,
        d.chipset is Qualcomm ==> device_row(d).chip == "QCA"@,
        d.chipset is Unknown ==> device_row(d).chip == "???"@,
        d.is_local ==> device_row(d).status == "● Local"@ && device_row(d).paint is Green,
        !d.is_local ==> device_row(d).paint is Yellow,
        !d.is_local && d.is_cco ==> device_row(d).status == "● CCo"@,
        !d.is_local && !d.is_cco ==> device_row(d).status == "● Online"@,
{
}

/// The cell for two devices shows the TX rate of the last link from the one to the
/// other, in its colour, and M or S for its signal; a question mark where there is no
/// such link, and a dash for one device.
pub proof fn law_panel_cell(links: Seq<LinkView>, from: MacAddr, to: MacAddr, i: int)
    requires
        -1 <= i < links.len(),
        i >= 0 ==> links[i].from == from && links[i].to == to,
        forall|k: int|
            i < k < links.len() ==> (#[trigger] links[k]).from != from || links[k].to != to,
    ensures
        from == to ==> panel_cell(links, from, to) == ("   —"@, Paint::Plain),
        from != to && i < 0 ==> panel_cell(links, from, to) == ("   ?"@, Paint::DarkGray),
        from != to && i >= 0 ==> {
            let signal = links[i].tx_signal;
            let mark = if signal == "MIMO"@ {
                'M'
            } else if signal.len() >= 4 && signal.take(4) == "SISO"@ {
                'S'
            } else {
                ' '
            };
            let text = panel_cell(links, from, to).0;
            let digits = decimal(links[i].tx_mbps as nat);
            &&& panel_cell(links, from, to).1 == speed_paint(links[i].tx_mbps)
            &&& text.len() >= 4
            &&& text.last() == mark
            &&& text.len() - 1 >= digits.len()
            &&& text.subrange(text.len() - 1 - digits.len(), text.len() - 1) == digits
            &&& forall|k: int|
                0 <= k < text.len() - 1 - digits.len() ==> #[trigger] text[k] == ' '
        },
{
    law_last_link_counts(links, from, to, i);
    if from != to && i >= 0 {
        reveal_strlit("M");
        reveal_strlit("S");
        reveal_strlit(" ");
        reveal_strlit("SISO");
        let text = panel_cell(links, from, to).0;
        let digits = decimal(links[i].tx_mbps as nat);
        law_padding(digits, 3, ' ');
        assert(indicator(links[i].tx_signal).len() == 1);
        assert(text.subrange(text.len() - 1 - digits.len(), text.len() - 1) =~= digits);
    }
}

/// The diagnostics have a line for each link of the scan, in its order: its ends, its
/// rates, its signal and what is said of it, on a ground that tells how serious it is.
pub proof fn law_a_line_for_each_link(links: Seq<LinkView>, history: Seq<EntryView>, i: int)
    requires
        0 <= i < links.len(),
    ensures
        diagnostics(links, history).len() >= links.len(),
        ({
            let line = diagnostics(links, history)[i];
            let link = links[i];
            let tx = decimal(link.tx_mbps as nat);
            let rx = decimal(link.rx_mbps as nat);
            let at = if tx.len() < 3 {
                25int
            } else {
                22int + tx.len()
            };
            let signal = if link.tx_signal.len() == 0 {
                "—"@
            } else {
                link.tx_signal
            };
            &&& judgement(link).0 is Good ==> line.badge == "    "@ && line.paint is Green
            &&& judgement(link).0 is Warn ==> line.badge == " !  "@ && line.paint is Yellow
            &&& judgement(link).0 is Bad ==> line.badge == " !! "@ && line.paint is Red
            &&& line.text.subrange(1, 9) == mac_short(link.from)
            &&& line.text.subrange(12, 20) == mac_short(link.to)
            &&& line.text.subrange(at - tx.len(), at) == tx
            &&& line.text[at] == '/'
            &&& line.text.subrange(at + 1, at + 1 + rx.len()) == rx
            &&& line.text.skip(at + 1 + rx.len()) == "  "@ + signal + "  "@ + judgement(link).1
        }),
{
    let link = links[i];
    let found = links.map_values(|l: LinkView| link_diag(l)) + flapping_diags(history);
    assert(found[i] == link_diag(link));
    let tx = decimal(link.tx_mbps as nat);
    let rx = decimal(link.rx_mbps as nat);
    let text = link_diag(link).text;
    let at = if tx.len() < 3 {
        25int
    } else {
        22int + tx.len()
    };
    law_address_text(link.from, 0);
    law_address_text(link.to, 0);
    law_padding(tx, 3, ' ');
    reveal_strlit(" ");
    reveal_strlit(" → ");
    reveal_strlit("  ");
    reveal_strlit("/");
    let field = pad_start(tx, 3, ' ');
    let head = " "@ + mac_short(link.from) + " → "@ + mac_short(link.to) + "  "@;
    assert(head.len() == 22);
    assert(head.subrange(1, 9) =~= mac_short(link.from));
    assert(head.subrange(12, 20) =~= mac_short(link.to));
    let tail = "  "@ + or_dash(link.tx_signal) + "  "@ + judgement(link).1;
    assert(text =~= head + field + "/"@ + rx + tail);
    assert(text.subrange(1, 9) =~= head.subrange(1, 9));
    assert(text.subrange(12, 20) =~= head.subrange(12, 20));
    assert(text.subrange(at - tx.len(), at) =~= field.skip(field.len() - tx.len()));
    assert(text.subrange(at + 1, at + 1 + rx.len()) =~= rx);
    assert(text.skip(at + 1 + rx.len()) =~= tail);
}

/// The line that tells of a link whose signal type changes.
pub open spec fn flapping_view(key: (Seq<char>, Seq<char>)) -> DiagView {
    DiagView {
        badge: " !! "@,
        paint: Paint::Magenta,
        text: " "@ + key.0 + " → "@ + key.1
            + "  Signal type flapping (MIMO/SISO) — unstable link"@,
    }
}

/// The signals of three or more samples are not all the same.
pub open spec fn signals_change(signals: Seq<Seq<char>>) -> bool {
    signals.len() >= 3 && exists|a: int, b: int|
        0 <= a < signals.len() && 0 <= b < signals.len() && #[trigger] signals[a]
            != #[trigger] signals[b]
}

proof fn lemma_flapping(e: EntryView)
    ensures
        is_flapping(e) <==> signals_change(e.samples.signals),
        flapping_diag(e) == flapping_view(e.key),
{
    let signals = e.samples.signals;
    if is_flapping(e) {
        let i = choose|i: int|
            0 <= i < signals.len() && #[trigger] signals[i] != signals[0];
        assert(signals[i] != signals[0]);
    }
    if signals_change(signals) {
        let (a, b) = choose|a: int, b: int|
            0 <= a < signals.len() && 0 <= b < signals.len() && #[trigger] signals[a]
                != #[trigger] signals[b];
        assert(signals[a] != signals[0] || signals[b] != signals[0]);
    }
}

proof fn lemma_flapping_lines(history: Seq<EntryView>, line: DiagView)
    ensures
        flapping_diags(history).contains(line) <==> exists|i: int|
            0 <= i < history.len() && signals_change((#[trigger] history[i]).samples.signals)
                && line == flapping_view(history[i].key),
    decreases history.len(),
{
    if history.len() > 0 {
        let init = history.drop_last();
        let last = history.last();
        lemma_flapping_lines(init, line);
        lemma_flapping(last);
        assert(last == history[history.len() - 1]);
        let before = flapping_diags(init);
        let now = flapping_diags(history);
        if before.contains(line) {
            let k = choose|k: int| 0 <= k < before.len() && before[k] == line;
            assert(now[k] == line);
            let i = choose|i: int|
                0 <= i < init.len() && signals_change((#[trigger] init[i]).samples.signals) && line
                    == flapping_view(init[i].key);
            assert(history[i] == init[i]);
        } else if now.contains(line) {
            let k = choose|k: int| 0 <= k < now.len() && now[k] == line;
            if k < before.len() {
                assert(before[k] == line);
            }
        }
        if exists|i: int|
            0 <= i < history.len() && signals_change((#[trigger] history[i]).samples.signals)
                && line == flapping_view(history[i].key) {
            let i = choose|i: int|
                0 <= i < history.len() && signals_change((#[trigger] history[i]).samples.signals)
                    && line == flapping_view(history[i].key);
            if i < init.len() {
                assert(init[i] == history[i]);
            } else {
                assert(now[now.len() - 1] == line);
            }
        }
    }
}

/// Links with short forms of eight characters are told apart by their lines.
proof fn lemma_flapping_views(a: (Seq<char>, Seq<char>), b: (Seq<char>, Seq<char>))
    requires
        a.0.len() == 8,
        a.1.len() == 8,
        b.0.len() == 8,
        b.1.len() == 8,
        flapping_view(a) == flapping_view(b),
    ensures
        a == b,
{
    reveal_strlit(" ");
    reveal_strlit(" → ");
    let s = flapping_view(a).text;
    let t = flapping_view(b).text;
    assert(s.subrange(1, 9) =~= a.0);
    assert(t.subrange(1, 9) =~= b.0);
    assert(s.subrange(12, 20) =~= a.1);
    assert(t.subrange(12, 20) =~= b.1);
}

/// Behind the lines for the links there is one for each link of the history whose
/// signals are not all the same, and for no other: three samples or more, and two of
/// them with different signals.
pub proof fn law_flapping_is_shown(links: Seq<LinkView>, history: Seq<EntryView>, i: int)
    requires
        ordered(history),
        forall|k: int|
            0 <= k < history.len() ==> (#[trigger] history[k]).key.0.len() == 8
                && history[k].key.1.len() == 8,
        0 <= i < history.len(),
    ensures
        diagnostics(links, history).skip(links.len() as int).contains(
            DiagView {
                badge: " !! "@,
                paint: Paint::Magenta,
                text: " "@ + history[i].key.0 + " → "@ + history[i].key.1
                    + "  Signal type flapping (MIMO/SISO) — unstable link"@,
            },
        ) <==> history[i].samples.signals.len() >= 3 && exists|a: int, b: int|
            0 <= a < history[i].samples.signals.len() && 0 <= b < history[i].samples.signals.len()
                && #[trigger] history[i].samples.signals[a] != #[trigger] history[i].samples.signals[b],
{
    let line = flapping_view(history[i].key);
    let judged = links.map_values(|l: LinkView| link_diag(l));
    let flapping = flapping_diags(history);
    lemma_flapping_lines(history, line);
    if flapping.contains(line) {
        let k = choose|k: int|
            0 <= k < history.len() && signals_change((#[trigger] history[k]).samples.signals)
                && line == flapping_view(history[k].key);
        lemma_flapping_views(history[k].key, history[i].key);
        law_history_by_key(history, history[i].key, i);
        assert(k == i);
        assert(signals_change(history[i].samples.signals));
    }
    let shown = diagnostics(links, history).skip(links.len() as int);
    if (judged + flapping).len() == 0 {
        reveal_strlit("");
        reveal_strlit(" !! ");
        assert(shown.len() == 1 && shown[0].badge == ""@);
        assert(""@.len() != " !! "@.len());
        assert(!flapping.contains(line));
    } else {
        assert(shown =~= flapping);
    }
}

/// A link is told to be flapping exactly if its latest samples, over all scans that the
/// monitor took in, are three or more and two of them have different signals.
pub proof fn law_flapping_over_scans(
    seen: Seq<LinkView>,
    links: Seq<LinkView>,
    history: Seq<EntryView>,
    from: MacAddr,
    to: MacAddr,
)
    requires
        ordered(history),
        history_map(history) == after_links(Map::empty(), seen),
    ensures
        ({
            let key = (mac_short(from), mac_short(to));
            diagnostics(links, history).skip(links.len() as int).contains(flapping_view(key))
                <==> signals_change(latest(signals_of(seen, key)))
        }),
{
    let key = (mac_short(from), mac_short(to));
    law_address_text(from, 0);
    law_address_text(to, 0);
    law_history_holds_latest(seen, key);
    assert forall|k: int| 0 <= k < history.len() implies (#[trigger] history[k]).key.0.len() == 8
        && history[k].key.1.len() == 8 by {
        law_history_by_key(history, history[k].key, k);
        lemma_keys_are_short(seen, history[k].key);
    }
    law_history_by_key(history, key, 0);
    if exists|k: int| 0 <= k < history.len() && (#[trigger] history[k]).key == key {
        let k = choose|k: int| 0 <= k < history.len() && (#[trigger] history[k]).key == key;
        law_history_by_key(history, key, k);
        law_flapping_is_shown(links, history, k);
        let signals = history[k].samples.signals;
        assert(signals == latest(signals_of(seen, key)));
        if signals_change(signals) {
            let (a, b) = choose|a: int, b: int|
                0 <= a < signals.len() && 0 <= b < signals.len() && #[trigger] signals[a]
                    != #[trigger] signals[b];
            assert(history[k].samples.signals[a] != history[k].samples.signals[b]);
        }
    } else {
        let line = flapping_view(key);
        let judged = links.map_values(|l: LinkView| link_diag(l));
        let flapping = flapping_diags(history);
        lemma_flapping_lines(history, line);
        if flapping.contains(line) {
            let k = choose|k: int|
                0 <= k < history.len() && signals_change((#[trigger] history[k]).samples.signals)
                    && line == flapping_view(history[k].key);
            lemma_flapping_views(history[k].key, key);
        }
        let shown = diagnostics(links, history).skip(links.len() as int);
        if (judged + flapping).len() == 0 {
            reveal_strlit("");
            reveal_strlit(" !! ");
            assert(shown.len() == 1 && shown[0].badge == ""@);
            assert(""@.len() != " !! "@.len());
        } else {
            assert(shown =~= flapping);
        }
    }
}

proof fn lemma_keys_are_short(seen: Seq<LinkView>, key: (Seq<char>, Seq<char>))
    requires
        after_links(Map::empty(), seen).dom().contains(key),
    ensures
        key.0.len() == 8,
        key.1.len() == 8,
    decreases seen.len(),
{
    if seen.len() > 0 {
        let l = seen.last();
        law_address_text(l.from, 0);
        law_address_text(l.to, 0);
        if key != (mac_short(l.from), mac_short(l.to)) {
            lemma_keys_are_short(seen.drop_last(), key);
        }
    }
}

/// The diagnostics are never empty, and tell that all is well only where there is
/// nothing to tell.
pub proof fn law_diagnostics_are_never_empty(links: Seq<LinkView>, history: Seq<EntryView>)
    ensures
        diagnostics(links, history).len() > 0,
        diagnostics(links, history)[0].text == "  All links healthy"@ && links.len() == 0
            <== links.len() == 0 && forall|i: int|
            0 <= i < history.len() ==> !signals_change((#[trigger] history[i]).samples.signals),
{
    if links.len() == 0 && forall|i: int|
        0 <= i < history.len() ==> !signals_change((#[trigger] history[i]).samples.signals) {
        let flapping = flapping_diags(history);
        if flapping.len() > 0 {
            lemma_flapping_lines(history, flapping[0]);
            assert(flapping.contains(flapping[0]));
        }
    }
}

/// The sum of speeds is made up of each of them.
pub proof fn law_total(data: Seq<u64>, speed: u64)
    ensures
        total(Seq::empty()) == 0,
        total(data.push(speed)) == total(data) + speed,
{
    assert(data.push(speed).drop_last() == data);
}

/// The sparkline shows all samples of the link, in their order, up to the largest; its
/// label names the link, the last sample, and the mean, the smallest and the largest.
pub proof fn law_sparkline(spark: Spark, e: EntryView, k: int)
    requires
        well_kept(e.samples),
        shows(spark, e),
        0 <= k < e.samples.speeds.len(),
    ensures
        spark.data@ == e.samples.speeds,
        e.samples.speeds[k] <= spark.top,
        spark.top == 1 || e.samples.speeds.contains(spark.top),
        spark.paint == speed_paint(e.samples.speeds[e.samples.speeds.len() - 1] as u16),
        exists|min: u64, max: u64, mean: nat|
            {
                &&& #[trigger] e.samples.speeds.contains(min)
                &&& #[trigger] e.samples.speeds.contains(max)
                &&& forall|i: int|
                    0 <= i < e.samples.speeds.len() ==> min <= #[trigger] e.samples.speeds[i] <= max
                &&& mean * e.samples.speeds.len() <= total(e.samples.speeds) < (mean + 1)
                    * e.samples.speeds.len()
                &&& spark.label@ == e.key.0 + " → "@ + e.key.1 + "\n"@ + decimal(
                    e.samples.speeds[e.samples.speeds.len() - 1] as nat,
                ) + " Mbps (now)\n"@ + #[trigger] decimal(mean) + "/"@ + decimal(min as nat)
                    + "/"@ + decimal(max as nat) + " avg/min/max"@
            },
{
    let data = e.samples.speeds;
    let (min, max) = choose|min: u64, max: u64| #[trigger]
        is_smallest(min, data) && #[trigger] is_largest(max, data) && spark.top == (if max < 1 {
            1u64
        } else {
            max
        }) && spark.label@ == e.key.0 + " → "@ + e.key.1 + "\n"@ + decimal(data.last() as nat)
            + " Mbps (now)\n"@ + decimal(total(data) / data.len()) + "/"@ + decimal(min as nat)
            + "/"@ + decimal(max as nat) + " avg/min/max"@;
    let mean = total(data) / data.len();
    let n = data.len() as int;
    vstd::arithmetic::div_mod::lemma_fundamental_div_mod(total(data) as int, n);
    vstd::arithmetic::div_mod::lemma_mod_pos_bound(total(data) as int, n);
    assert(mean * n <= total(data) < (mean + 1) * n) by (nonlinear_arith)
        requires
            total(data) as int == n * (mean as int) + (total(data) as int % n),
            0 <= total(data) as int % n < n,
    ;
    assert(data.contains(min) && data.contains(max) && decimal(mean).len() >= 0);
}

}
