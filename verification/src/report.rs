//! The printed report on a scan: devices, speed matrix, link diagnostics.

use crate::clock::date_time_text;
use crate::protocol::{law_address_text, mac_short, mac_text, MacAddr};
use crate::text::{
    append_pad_end, append_pad_start, append_repeated, begins_with, decimal, decimal_text,
    has_text, law_decimal_width, law_padding, pad_end, pad_start, repeated,
};
use crate::types::{
    average, average_mbps, chipset_name, device_views, law_last_link_counts, link_views, speeds,
    Device, DeviceView, Link, LinkView, NetworkScan, ScanView, SpeedMatrix,
};
use vstd::prelude::*;
use vstd::string::*;

verus! {

// -- Assessment ----------------------------------------------------------------------------

/// How good a link with a given mean rate is.
pub open spec fn assessment(avg: int) -> Seq<char> {
    if avg <= 20 {
        "!! POOR — different phase or heavy noise"@
    } else if avg <= 80 {
        "! WEAK — likely cross-phase or noisy circuit"@
    } else if avg <= 200 {
        "OK — moderate signal"@
    } else if avg <= 400 {
        "GOOD"@
    } else {
        "EXCELLENT"@
    }
}

/// Tell how good a link is, by the mean of its rates.
pub fn assess_link(tx: u16, rx: u16) -> (r: &'static str)
    ensures
        r@ == assessment(average(tx, rx)),
{
    let avg = average_mbps(tx, rx);
    if avg <= 20 {
        "!! POOR — different phase or heavy noise"
    } else if avg <= 80 {
        "! WEAK — likely cross-phase or noisy circuit"
    } else if avg <= 200 {
        "OK — moderate signal"
    } else if avg <= 400 {
        "GOOD"
    } else {
        "EXCELLENT"
    }
}

// -- What the report says --------------------------------------------------------------------

/// `s`, or a dash where there is nothing.
pub open spec fn or_dash(s: Seq<char>) -> Seq<char> {
    if s.len() == 0 {
        "—"@
    } else {
        s
    }
}

/// `s` on the left of a field filled with blanks.
pub open spec fn left(s: Seq<char>, width: int) -> Seq<char> {
    pad_end(s, width, ' ')
}

/// `s` on the right of a field filled with blanks.
pub open spec fn right(s: Seq<char>, width: int) -> Seq<char> {
    pad_start(s, width, ' ')
}

/// `n` dashes.
pub open spec fn dashes(n: int) -> Seq<char> {
    repeated('-', n)
}

/// The title of the report.
pub open spec fn title_text(scan: ScanView) -> Seq<char> {
    "\nPowerline Network — "@ + scan.interface + " — "@ + date_time_text(scan.timestamp) + "\n\n"@
}

/// The line for a device. Address and chipset stand as wide as they are.
pub open spec fn device_line(d: DeviceView) -> Seq<char> {
    "  "@ + mac_text(d.mac) + " "@ + left(or_dash(d.model), 14) + " "@ + chipset_name(d.chipset)
        + " "@ + (if d.is_local {
        "Local"@
    } else {
        "Online"@
    }) + "\n"@
}

/// The lines for devices.
pub open spec fn device_lines(devices: Seq<DeviceView>) -> Seq<char>
    decreases devices.len(),
{
    if devices.len() == 0 {
        Seq::empty()
    } else {
        device_lines(devices.drop_last()) + device_line(devices.last())
    }
}

/// The column headings of the table of devices, with a rule below them.
pub open spec fn device_heading() -> Seq<char> {
    "  "@ + left("MAC"@, 18) + " "@ + left("Model"@, 14) + " "@ + left("Chip"@, 5) + " Status\n"@
        + "  "@ + dashes(18) + " "@ + dashes(14) + " "@ + dashes(5) + " "@ + dashes(10) + "\n"@
}

/// The table of devices.
pub open spec fn device_table(devices: Seq<DeviceView>) -> Seq<char> {
    device_heading() + device_lines(devices)
}

/// The column headings of the speed matrix.
pub open spec fn matrix_heading(devices: Seq<DeviceView>) -> Seq<char>
    decreases devices.len(),
{
    if devices.len() == 0 {
        Seq::empty()
    } else {
        matrix_heading(devices.drop_last()) + " "@ + right(mac_short(devices.last().mac), 8)
    }
}

/// What stands in the matrix for the speed from one device to another.
pub open spec fn matrix_cell(
    speed: Map<(MacAddr, MacAddr), u16>,
    from: MacAddr,
    to: MacAddr,
) -> Seq<char> {
    if from == to {
        "—"@
    } else {
        match speed.get((from, to)) {
            Some(mbps) => decimal(mbps as nat),
            None => "?"@,
        }
    }
}

/// The cells of the row for `from`.
pub open spec fn matrix_cells(
    speed: Map<(MacAddr, MacAddr), u16>,
    from: MacAddr,
    devices: Seq<DeviceView>,
) -> Seq<char>
    decreases devices.len(),
{
    if devices.len() == 0 {
        Seq::empty()
    } else {
        matrix_cells(speed, from, devices.drop_last()) + " "@ + right(
            matrix_cell(speed, from, devices.last().mac),
            8,
        )
    }
}

/// The rows of the matrix for `rows`, with a column for each of `devices`.
pub open spec fn matrix_rows(
    speed: Map<(MacAddr, MacAddr), u16>,
    rows: Seq<DeviceView>,
    devices: Seq<DeviceView>,
) -> Seq<char>
    decreases rows.len(),
{
    if rows.len() == 0 {
        Seq::empty()
    } else {
        matrix_rows(speed, rows.drop_last(), devices) + "  "@ + right(
            mac_short(rows.last().mac),
            10,
        ) + matrix_cells(speed, rows.last().mac, devices) + "\n"@
    }
}

/// The speed matrix.
pub open spec fn matrix_table(scan: ScanView) -> Seq<char> {
    "\n  Link Speeds (Mbps):\n"@ + "  "@ + right(Seq::empty(), 10) + matrix_heading(scan.devices)
        + "\n"@ + matrix_rows(speeds(scan.links), scan.devices, scan.devices)
}

/// The line for a link.
pub open spec fn link_line(l: LinkView) -> Seq<char> {
    "  "@ + left(mac_short(l.from), 14) + " "@ + left(mac_short(l.to), 14) + " "@ + right(
        decimal(l.tx_mbps as nat),
        5,
    ) + "↑ "@ + right(decimal(l.rx_mbps as nat), 5) + "↓  "@ + left(or_dash(l.tx_signal), 6)
        + " "@ + left(or_dash(l.rx_signal), 6) + " "@ + assessment(average(l.tx_mbps, l.rx_mbps))
        + "\n"@
}

/// The lines for links.
pub open spec fn link_lines(links: Seq<LinkView>) -> Seq<char>
    decreases links.len(),
{
    if links.len() == 0 {
        Seq::empty()
    } else {
        link_lines(links.drop_last()) + link_line(links.last())
    }
}

/// The column headings of the table of links.
pub open spec fn link_heading() -> Seq<char> {
    "\n  Link Diagnostics:\n"@ + "  "@ + left("From"@, 14) + " "@ + left("To"@, 14) + " "@ + right(
        "TX"@,
        6,
    ) + " "@ + right("RX"@, 6) + "  "@ + left("TxSig"@, 6) + " "@ + left("RxSig"@, 6)
        + " Assessment\n"@
}

/// The rule below the column headings of the table of links.
pub open spec fn link_rule() -> Seq<char> {
    "  "@ + dashes(14) + " "@ + dashes(14) + " "@ + dashes(6) + " "@ + dashes(6) + "  "@ + dashes(6)
        + " "@ + dashes(6) + " "@ + dashes(20) + "\n"@
}

/// The table of links; nothing where there are none.
pub open spec fn link_table(links: Seq<LinkView>) -> Seq<char> {
    if links.len() == 0 {
        Seq::empty()
    } else {
        link_heading() + link_rule() + link_lines(links)
    }
}

/// The report on a scan.
pub open spec fn scan_report_text(scan: ScanView) -> Seq<char> {
    title_text(scan) + device_table(scan.devices) + matrix_table(scan) + link_table(scan.links)
        + "\n"@
}

// -- Writing it ----------------------------------------------------------------------------------

fn append_left(out: &mut String, s: &str, width: usize)
    ensures
        final(out)@ == old(out)@ + left(s@, width as int),
{
    proof {
        reveal_strlit(" ");
    }
    append_pad_end(out, s, width, " ");
}

fn append_right(out: &mut String, s: &str, width: usize)
    ensures
        final(out)@ == old(out)@ + right(s@, width as int),
{
    proof {
        reveal_strlit(" ");
    }
    append_pad_start(out, s, width, " ");
}

fn append_dashes(out: &mut String, n: usize)
    ensures
        final(out)@ == old(out)@ + dashes(n as int),
{
    proof {
        reveal_strlit("-");
    }
    append_repeated(out, "-", n);
}

fn text_or_dash<'a>(s: &'a str) -> (r: &'a str)
    ensures
        r@ == or_dash(s@),
{
    if s.unicode_len() == 0 {
        "—"
    } else {
        s
    }
}

fn device_heading_text() -> (r: String)
    ensures
        r@ == device_heading(),
{
    let mut r = String::from_str("  ");
    append_left(&mut r, "MAC", 18);
    r.append(" ");
    append_left(&mut r, "Model", 14);
    r.append(" ");
    append_left(&mut r, "Chip", 5);
    r.append(" Status\n");
    r.append("  ");
    append_dashes(&mut r, 18);
    r.append(" ");
    append_dashes(&mut r, 14);
    r.append(" ");
    append_dashes(&mut r, 5);
    r.append(" ");
    append_dashes(&mut r, 10);
    r.append("\n");
    r
}

fn device_text(d: &Device) -> (r: String)
    ensures
        r@ == device_line(d@),
{
    let mut r = String::from_str("  ");
    r.append(d.mac.to_string().as_str());
    r.append(" ");
    append_left(&mut r, text_or_dash(d.model.as_str()), 14);
    r.append(" ");
    r.append(d.chipset.to_string().as_str());
    r.append(" ");
    if d.is_local {
        r.append("Local");
    } else {
        r.append("Online");
    }
    r.append("\n");
    r
}

fn append_device_table(out: &mut String, devices: &Vec<Device>)
    ensures
        final(out)@ == old(out)@ + device_table(device_views(devices@)),
{
    let ghost start = out@;
    out.append(device_heading_text().as_str());
    let ghost head = out@;
    let ghost all = device_views(devices@);
    let mut i: usize = 0;
    assert(all.take(0).len() == 0);
    assert(out@ == head + device_lines(all.take(0)));
    while i < devices.len()
        invariant
            i <= devices.len(),
            all == device_views(devices@),
            out@ == head + device_lines(all.take(i as int)),
        decreases devices.len() - i,
    {
        let d = &devices[i];
        assert(all.take(i + 1).drop_last() == all.take(i as int));
        assert(all.take(i + 1).last() == d@);
        out.append(device_text(d).as_str());
        i += 1;
    }
    assert(all.take(i as int) == all);
    assert(out@ == start + device_table(all));
}

fn append_matrix_cells(
    out: &mut String,
    matrix: &SpeedMatrix,
    from: MacAddr,
    devices: &Vec<Device>,
)
    ensures
        final(out)@ == old(out)@ + matrix_cells(matrix@, from, device_views(devices@)),
{
    let ghost start = out@;
    let ghost all = device_views(devices@);
    let mut i: usize = 0;
    assert(all.take(0).len() == 0);
    assert(out@ == start + matrix_cells(matrix@, from, all.take(0)));
    while i < devices.len()
        invariant
            i <= devices.len(),
            all == device_views(devices@),
            out@ == start + matrix_cells(matrix@, from, all.take(i as int)),
        decreases devices.len() - i,
    {
        let to = devices[i].mac;
        let ghost before = out@;
        assert(all.take(i + 1).drop_last() == all.take(i as int));
        assert(all.take(i + 1).last().mac == to);
        out.append(" ");
        if from == to {
            append_right(out, "—", 8);
        } else {
            match matrix.get(from, to) {
                Some(mbps) => append_right(out, decimal_text(mbps as u64).as_str(), 8),
                None => append_right(out, "?", 8),
            }
        }
        assert(out@ == before + " "@ + right(matrix_cell(matrix@, from, to), 8));
        assert(out@ == start + matrix_cells(matrix@, from, all.take(i + 1)));
        i += 1;
    }
    assert(all.take(i as int) == all);
}

fn append_matrix_table(out: &mut String, scan: &NetworkScan)
    ensures
        final(out)@ == old(out)@ + matrix_table(scan@),
{
    let ghost start = out@;
    let matrix = scan.speed_matrix();
    let devices = &scan.devices;
    let ghost all = scan@.devices;
    out.append("\n  Link Speeds (Mbps):\n");
    out.append("  ");
    let empty = String::new();
    append_right(out, empty.as_str(), 10);
    let ghost head = out@;
    let mut i: usize = 0;
    assert(all.take(0).len() == 0);
    assert(out@ == head + matrix_heading(all.take(0)));
    while i < devices.len()
        invariant
            i <= devices.len(),
            all == device_views(devices@),
            out@ == head + matrix_heading(all.take(i as int)),
        decreases devices.len() - i,
    {
        assert(all.take(i + 1).drop_last() == all.take(i as int));
        assert(all.take(i + 1).last().mac == devices@[i as int].mac);
        out.append(" ");
        append_right(out, devices[i].mac.short().as_str(), 8);
        assert(out@ == head + matrix_heading(all.take(i + 1)));
        i += 1;
    }
    assert(all.take(i as int) == all);
    out.append("\n");
    let ghost body = out@;
    let mut j: usize = 0;
    assert(out@ == body + matrix_rows(matrix@, all.take(0), all));
    while j < devices.len()
        invariant
            j <= devices.len(),
            all == device_views(devices@),
            out@ == body + matrix_rows(matrix@, all.take(j as int), all),
        decreases devices.len() - j,
    {
        let from = devices[j].mac;
        assert(all.take(j + 1).drop_last() == all.take(j as int));
        assert(all.take(j + 1).last().mac == from);
        out.append("  ");
        append_right(out, from.short().as_str(), 10);
        append_matrix_cells(out, &matrix, from, devices);
        out.append("\n");
        assert(out@ == body + matrix_rows(matrix@, all.take(j + 1), all));
        j += 1;
    }
    assert(all.take(j as int) == all);
    assert(out@ == start + matrix_table(scan@));
}

fn link_heading_text() -> (r: String)
    ensures
        r@ == link_heading(),
{
    let mut r = String::from_str("\n  Link Diagnostics:\n");
    r.append("  ");
    append_left(&mut r, "From", 14);
    r.append(" ");
    append_left(&mut r, "To", 14);
    r.append(" ");
    append_right(&mut r, "TX", 6);
    r.append(" ");
    append_right(&mut r, "RX", 6);
    r.append("  ");
    append_left(&mut r, "TxSig", 6);
    r.append(" ");
    append_left(&mut r, "RxSig", 6);
    r.append(" Assessment\n");
    r
}

fn link_rule_text() -> (r: String)
    ensures
        r@ == link_rule(),
{
    let mut r = String::from_str("  ");
    append_dashes(&mut r, 14);
    r.append(" ");
    append_dashes(&mut r, 14);
    r.append(" ");
    append_dashes(&mut r, 6);
    r.append(" ");
    append_dashes(&mut r, 6);
    r.append("  ");
    append_dashes(&mut r, 6);
    r.append(" ");
    append_dashes(&mut r, 6);
    r.append(" ");
    append_dashes(&mut r, 20);
    r.append("\n");
    r
}

fn append_link_table(out: &mut String, links: &Vec<Link>)
    ensures
        final(out)@ == old(out)@ + link_table(link_views(links@)),
{
    let ghost start = out@;
    let ghost all = link_views(links@);
    if links.len() == 0 {
        assert(out@ == start + link_table(all));
        return;
    }
    out.append(link_heading_text().as_str());
    out.append(link_rule_text().as_str());
    let ghost head = out@;
    let mut i: usize = 0;
    assert(all.take(0).len() == 0);
    assert(out@ == head + link_lines(all.take(0)));
    while i < links.len()
        invariant
            i <= links.len(),
            all == link_views(links@),
            out@ == head + link_lines(all.take(i as int)),
        decreases links.len() - i,
    {
        let l = &links[i];
        assert(all.take(i + 1).drop_last() == all.take(i as int));
        assert(all.take(i + 1).last() == l@);
        out.append(link_text(l).as_str());
        i += 1;
    }
    assert(all.take(i as int) == all);
    assert(out@ == start + link_table(all));
}

fn link_text(l: &Link) -> (r: String)
    ensures
        r@ == link_line(l@),
{
    let mut r = String::from_str("  ");
    append_left(&mut r, l.from.short().as_str(), 14);
    r.append(" ");
    append_left(&mut r, l.to.short().as_str(), 14);
    r.append(" ");
    append_right(&mut r, decimal_text(l.tx_mbps as u64).as_str(), 5);
    r.append("↑ ");
    append_right(&mut r, decimal_text(l.rx_mbps as u64).as_str(), 5);
    r.append("↓  ");
    append_left(&mut r, text_or_dash(l.tx_signal.as_str()), 6);
    r.append(" ");
    append_left(&mut r, text_or_dash(l.rx_signal.as_str()), 6);
    r.append(" ");
    r.append(assess_link(l.tx_mbps, l.rx_mbps));
    r.append("\n");
    r
}

/// Write the report on a scan.
pub fn scan_report(scan: &NetworkScan) -> (r: String)
    ensures
        r@ == scan_report_text(scan@),
{
    let mut r = String::from_str("\nPowerline Network — ");
    r.append(scan.interface.as_str());
    r.append(" — ");
    r.append(scan.timestamp.date_time().as_str());
    r.append("\n\n");
    append_device_table(&mut r, &scan.devices);
    append_matrix_table(&mut r, scan);
    append_link_table(&mut r, &scan.links);
    r.append("\n");
    assert(r@ == scan_report_text(scan@));
    r
}

// -- Laws ------------------------------------------------------------------------------------

/// What is said of a link, by its rates: their mean decides.
pub proof fn law_assessment(tx: u16, rx: u16)
    ensures
        tx + rx < 42 ==> assessment(average(tx, rx)) == "!! POOR — different phase or heavy noise"@,
        42 <= tx + rx < 162 ==> assessment(average(tx, rx))
            == "! WEAK — likely cross-phase or noisy circuit"@,
        162 <= tx + rx < 402 ==> assessment(average(tx, rx)) == "OK — moderate signal"@,
        402 <= tx + rx < 802 ==> assessment(average(tx, rx)) == "GOOD"@,
        tx + rx >= 802 ==> assessment(average(tx, rx)) == "EXCELLENT"@,
{
}

/// How wide a column is that holds `s` or a dash: six, or more where `s` is longer.
pub open spec fn column_width(s: Seq<char>) -> int {
    if s.len() < 6 {
        6
    } else {
        s.len() as int
    }
}

/// `s`, or a dash where it is empty, stands in `row` from `at` on, with blanks up to the
/// end of its column.
pub open spec fn stands_at(row: Seq<char>, at: int, s: Seq<char>) -> bool {
    &&& s.len() > 0 ==> row.subrange(at, at + s.len()) == s
    &&& s.len() == 0 ==> row[at] == '—'
    &&& forall|i: int|
        at + (if s.len() == 0 {
            1
        } else {
            s.len() as int
        }) <= i <= at + column_width(s) ==> #[trigger] row[i] == ' '
}

proof fn lemma_column(s: Seq<char>)
    ensures
        left(or_dash(s), 6).len() == column_width(s),
        stands_at(left(or_dash(s), 6) + " "@, 0, s),
{
    reveal_strlit("—");
    reveal_strlit(" ");
    law_padding(or_dash(s), 6, ' ');
    let field = left(or_dash(s), 6);
    assert(field.take(or_dash(s).len() as int) == or_dash(s));
    if s.len() > 0 {
        assert((field + " "@).subrange(0, s.len() as int) =~= s);
    } else {
        assert(field[0] == field.take(1)[0]);
    }
}

/// A column that begins somewhere in a row.
proof fn lemma_column_in_row(head: Seq<char>, s: Seq<char>, tail: Seq<char>)
    ensures
        stands_at(head + (left(or_dash(s), 6) + " "@) + tail, head.len() as int, s),
{
    lemma_column(s);
    reveal_strlit(" ");
    let cell = left(or_dash(s), 6) + " "@;
    let row = head + cell + tail;
    assert forall|i: int| 0 <= i < cell.len() implies row[head.len() + i] == #[trigger] cell[i] by {}
    if s.len() > 0 {
        assert(row.subrange(head.len() as int, (head.len() + s.len()) as int) =~= cell.subrange(
            0,
            s.len() as int,
        ));
    } else {
        assert(row[head.len() as int] == cell[0]);
    }
    let from = if s.len() == 0 {
        1
    } else {
        s.len() as int
    };
    assert forall|i: int|
        head.len() + from <= i <= head.len() + column_width(s) implies #[trigger] row[i] == ' ' by {
        assert(cell[i - head.len()] == ' ');
    }
}

/// Where everything stands in the row of a link: the short forms of its ends, its rates
/// with an arrow behind each, its signals, each with a dash where it is unknown, and
/// what is said of it.
pub proof fn law_link_row(l: LinkView)
    ensures
        ({
            let row = link_line(l);
            let tx = decimal(l.tx_mbps as nat);
            let rx = decimal(l.rx_mbps as nat);
            let second = 48 + column_width(l.tx_signal);
            let last = second + 1 + column_width(l.rx_signal);
            &&& row.subrange(2, 10) == mac_short(l.from)
            &&& row.subrange(17, 25) == mac_short(l.to)
            &&& row.subrange(37 - tx.len(), 37) == tx
            &&& row[37] == '↑'
            &&& row.subrange(44 - rx.len(), 44) == rx
            &&& row[44] == '↓'
            &&& stands_at(row, 47, l.tx_signal)
            &&& stands_at(row, second, l.rx_signal)
            &&& row.len() > last
            &&& row.skip(last) == assessment(average(l.tx_mbps, l.rx_mbps)) + "\n"@
        }),
{
    reveal_strlit("\n");
    let row = link_line(l);
    let tx = decimal(l.tx_mbps as nat);
    let rx = decimal(l.rx_mbps as nat);
    let from = left(mac_short(l.from), 14);
    let to = left(mac_short(l.to), 14);
    let end = assessment(average(l.tx_mbps, l.rx_mbps)) + "\n"@;
    law_address_text(l.from, 0);
    law_address_text(l.to, 0);
    law_decimal_width(l.tx_mbps as nat);
    law_decimal_width(l.rx_mbps as nat);
    law_padding(mac_short(l.from), 14, ' ');
    law_padding(mac_short(l.to), 14, ' ');
    law_padding(tx, 5, ' ');
    law_padding(rx, 5, ' ');
    lemma_column(l.tx_signal);
    lemma_column(l.rx_signal);
    reveal_strlit("  ");
    reveal_strlit(" ");
    reveal_strlit("↑ ");
    reveal_strlit("↓  ");
    let first = "  "@ + from + " "@ + to + " "@;
    assert(first.len() == 32);
    assert(first.subrange(2, 10) =~= from.take(8));
    assert(first.subrange(17, 25) =~= to.take(8));
    let rates = right(tx, 5) + "↑ "@ + right(rx, 5) + "↓  "@;
    assert(rates.len() == 15);
    assert(rates.subrange(5 - tx.len(), 5) =~= right(tx, 5).skip(5 - tx.len()));
    assert(rates.subrange(12 - rx.len(), 12) =~= right(rx, 5).skip(5 - rx.len()));
    assert(rates[5] == '↑' && rates[12] == '↓');
    let head = first + rates;
    let a = left(or_dash(l.tx_signal), 6) + " "@;
    let b = left(or_dash(l.rx_signal), 6) + " "@;
    assert(row =~= head + a + (b + end));
    assert(row =~= (head + a) + b + end);
    lemma_column_in_row(head, l.tx_signal, b + end);
    lemma_column_in_row(head + a, l.rx_signal, end);
    assert(row.subrange(2, 10) =~= first.subrange(2, 10));
    assert(row.subrange(17, 25) =~= first.subrange(17, 25));
    assert(row.subrange(37 - tx.len(), 37) =~= rates.subrange(5 - tx.len(), 5));
    assert(row.subrange(44 - rx.len(), 44) =~= rates.subrange(12 - rx.len(), 12));
    assert(row[37] == rates[5] && row[44] == rates[12]);
    assert(row.skip((head + a + b).len() as int) =~= end);
}

/// Rows tell received signals apart: two links with different RX signals, both known
/// and of at most six characters, have different rows. A blank at the end of a signal
/// cannot be told from the filling.
pub proof fn law_rows_tell_received_signals_apart(l: LinkView, m: LinkView)
    requires
        l.tx_signal == m.tx_signal,
        0 < l.rx_signal.len() <= 6,
        0 < m.rx_signal.len() <= 6,
        l.rx_signal.last() != ' ',
        m.rx_signal.last() != ' ',
        l.rx_signal != m.rx_signal,
    ensures
        link_line(l) != link_line(m),
{
    if link_line(l) == link_line(m) {
        law_link_row(l);
        law_link_row(m);
        let second = 48 + column_width(l.tx_signal);
        lemma_same_column(link_line(l), second, l.rx_signal, m.rx_signal);
    }
}

/// Rows tell sent signals apart in the same way.
pub proof fn law_rows_tell_sent_signals_apart(l: LinkView, m: LinkView)
    requires
        0 < l.tx_signal.len() <= 6,
        0 < m.tx_signal.len() <= 6,
        l.tx_signal.last() != ' ',
        m.tx_signal.last() != ' ',
        l.tx_signal != m.tx_signal,
    ensures
        link_line(l) != link_line(m),
{
    if link_line(l) == link_line(m) {
        law_link_row(l);
        law_link_row(m);
        lemma_same_column(link_line(l), 47, l.tx_signal, m.tx_signal);
    }
}

proof fn lemma_same_column(row: Seq<char>, at: int, s: Seq<char>, t: Seq<char>)
    requires
        0 <= at,
        0 < s.len() <= 6,
        0 < t.len() <= 6,
        s.last() != ' ',
        t.last() != ' ',
        stands_at(row, at, s),
        stands_at(row, at, t),
        at + 6 < row.len(),
    ensures
        s == t,
{
    assert forall|i: int| 0 <= i < s.len() implies #[trigger] s[i] == row[at + i] by {
        assert(row.subrange(at, at + s.len())[i] == row[at + i]);
    }
    assert forall|i: int| 0 <= i < t.len() implies #[trigger] t[i] == row[at + i] by {
        assert(row.subrange(at, at + t.len())[i] == row[at + i]);
    }
    if s.len() < t.len() {
        assert(row[at + t.len() - 1] == ' ');
        assert(t[t.len() - 1] == ' ');
    } else if t.len() < s.len() {
        assert(row[at + s.len() - 1] == ' ');
        assert(s[s.len() - 1] == ' ');
    }
    assert(s =~= t);
}

/// Where everything stands in the row of a device: its address, its model or a dash,
/// the name of its chipset, and whether it is local.
pub proof fn law_device_line(d: DeviceView)
    ensures
        ({
            let row = device_line(d);
            let at = 21 + (if d.model.len() < 14 {
                14
            } else {
                d.model.len() as int
            });
            &&& row.subrange(2, 19) == mac_text(d.mac)
            &&& d.model.len() > 0 ==> row.subrange(20, 20int + d.model.len()) == d.model
            &&& d.model.len() == 0 ==> row[20] == '—'
            &&& d.chipset is Broadcom ==> row.subrange(at, at + 3) == "BCM"@
            &&& d.chipset is Qualcomm ==> row.subrange(at, at + 3) == "QCA"@
            &&& d.chipset is Unknown ==> row.subrange(at, at + 3) == "???"@
            &&& row.skip(at + 4) == (if d.is_local {
                "Local"@
            } else {
                "Online"@
            }) + "\n"@
        }),
{
    let row = device_line(d);
    law_address_text(d.mac, 0);
    law_padding(or_dash(d.model), 14, ' ');
    reveal_strlit("—");
    reveal_strlit("  ");
    reveal_strlit(" ");
    reveal_strlit("BCM");
    reveal_strlit("QCA");
    reveal_strlit("???");
    let model = left(or_dash(d.model), 14);
    let chip = chipset_name(d.chipset);
    let end = (if d.is_local {
        "Local"@
    } else {
        "Online"@
    }) + "\n"@;
    assert(chip.len() == 3);
    let first = "  "@ + mac_text(d.mac) + " "@;
    assert(first.len() == 20);
    assert(first.subrange(2, 19) =~= mac_text(d.mac));
    assert(row =~= first + model + " "@ + chip + " "@ + end);
    assert(row.subrange(2, 19) =~= first.subrange(2, 19));
    assert(row.subrange(20, 20int + or_dash(d.model).len()) =~= model.take(or_dash(d.model).len() as int));
    if d.model.len() == 0 {
        assert(row[20] == row.subrange(20, 21)[0]);
    }
    let at = 21int + model.len();
    assert(row.subrange(at, at + 3) =~= chip);
    assert(row.skip(at + 4) =~= end);
}

/// A cell of the matrix holds the TX rate of the last link from the one device to the
/// other, a question mark where there is none, and a dash for one device.
pub proof fn law_matrix_cell(links: Seq<LinkView>, from: MacAddr, to: MacAddr, i: int)
    requires
        -1 <= i < links.len(),
        i >= 0 ==> links[i].from == from && links[i].to == to,
        forall|k: int|
            i < k < links.len() ==> (#[trigger] links[k]).from != from || links[k].to != to,
    ensures
        from == to ==> matrix_cell(speeds(links), from, to) == "—"@,
        from != to && i < 0 ==> matrix_cell(speeds(links), from, to) == "?"@,
        from != to && i >= 0 ==> matrix_cell(speeds(links), from, to) == decimal(
            links[i].tx_mbps as nat,
        ),
{
    law_last_link_counts(links, from, to, i);
}

/// The matrix has a row for each device, with its speeds to all of them, and a column
/// for each device, in the order of the list.
pub proof fn law_matrix_rows_and_columns(
    speed: Map<(MacAddr, MacAddr), u16>,
    rows: Seq<DeviceView>,
    row: DeviceView,
    columns: Seq<DeviceView>,
    column: DeviceView,
    from: MacAddr,
)
    ensures
        matrix_rows(speed, Seq::empty(), columns).len() == 0,
        matrix_rows(speed, rows.push(row), columns) == matrix_rows(speed, rows, columns) + ("  "@
            + right(mac_short(row.mac), 10) + matrix_cells(speed, row.mac, columns) + "\n"@),
        matrix_cells(speed, from, Seq::empty()).len() == 0,
        matrix_cells(speed, from, columns.push(column)) == matrix_cells(speed, from, columns) + (
        " "@ + right(matrix_cell(speed, from, column.mac), 8)),
        matrix_heading(Seq::empty()).len() == 0,
        matrix_heading(columns.push(column)) == matrix_heading(columns) + (" "@ + right(
            mac_short(column.mac),
            8,
        )),
{
    assert(rows.push(row).drop_last() == rows);
    assert(columns.push(column).drop_last() == columns);
    let a = matrix_rows(speed, rows, columns);
    let cells = matrix_cells(speed, row.mac, columns);
    assert(a + "  "@ + right(mac_short(row.mac), 10) + cells + "\n"@ =~= a + ("  "@ + right(
        mac_short(row.mac),
        10,
    ) + cells + "\n"@));
    let b = matrix_cells(speed, from, columns);
    let cell = right(matrix_cell(speed, from, column.mac), 8);
    assert(b + " "@ + cell =~= b + (" "@ + cell));
    let c = matrix_heading(columns);
    let label = right(mac_short(column.mac), 8);
    assert(c + " "@ + label =~= c + (" "@ + label));
}

/// `part` occurs in `whole`.
#[verifier::opaque]
spec fn holds(whole: Seq<char>, part: Seq<char>) -> bool {
    has_text(whole, part)
}

proof fn lemma_holds(whole: Seq<char>, part: Seq<char>)
    requires
        holds(whole, part),
    ensures
        has_text(whole, part),
{
    reveal(holds);
}

/// What is found in a text is found in every text that holds it.
proof fn lemma_found(a: Seq<char>, b: Seq<char>, part: Seq<char>)
    ensures
        holds(a, part) ==> holds(a + b, part),
        holds(b, part) ==> holds(a + b, part),
        holds(part, part),
{
    reveal(holds);
    if has_text(a, part) {
        let i = choose|i: int|
            0 <= i <= a.len() - part.len() && #[trigger] a.subrange(i, i + part.len()) == part;
        assert((a + b).subrange(i, i + part.len()) =~= a.subrange(i, i + part.len()));
    }
    if has_text(b, part) {
        let i = choose|i: int|
            0 <= i <= b.len() - part.len() && #[trigger] b.subrange(i, i + part.len()) == part;
        let at = a.len() + i;
        assert((a + b).subrange(at, at + part.len()) =~= b.subrange(i, i + part.len()));
    }
    assert(part.subrange(0, 0int + part.len()) =~= part);
}

/// Three texts in a row are found together.
proof fn lemma_found_three(a: Seq<char>, x: Seq<char>, y: Seq<char>, z: Seq<char>)
    ensures
        holds(a + x + y + z, x + y + z),
{
    reveal(holds);
    let part = x + y + z;
    let whole = a + x + y + z;
    let at = a.len() as int;
    assert(whole.subrange(at, at + part.len()) =~= part);
}

proof fn lemma_found_two(a: Seq<char>, x: Seq<char>, y: Seq<char>)
    ensures
        holds(a + x + y, x + y),
{
    reveal(holds);
    let part = x + y;
    let whole = a + x + y;
    let at = a.len() as int;
    assert(whole.subrange(at, at + part.len()) =~= part);
}

#[verifier::spinoff_prover]
#[verifier::rlimit(60)]
proof fn lemma_link_lines(links: Seq<LinkView>, i: int)
    requires
        0 <= i < links.len(),
    ensures
        holds(link_lines(links), link_line(links[i])),
    decreases links.len(),
{
    let init = links.drop_last();
    if i < init.len() {
        lemma_link_lines(init, i);
        assert(init[i] == links[i]);
    }
    lemma_found(link_lines(init), link_line(links.last()), link_line(links[i]));
}

#[verifier::spinoff_prover]
#[verifier::rlimit(60)]
proof fn lemma_device_lines(devices: Seq<DeviceView>, i: int)
    requires
        0 <= i < devices.len(),
    ensures
        holds(device_lines(devices), device_line(devices[i])),
    decreases devices.len(),
{
    let init = devices.drop_last();
    if i < init.len() {
        lemma_device_lines(init, i);
        assert(init[i] == devices[i]);
    }
    lemma_found(device_lines(init), device_line(devices.last()), device_line(devices[i]));
}

/// What is found in one of the tables is found in the report.
proof fn lemma_found_in_report(scan: ScanView, part: Seq<char>)
    requires
        holds(device_table(scan.devices), part) || holds(matrix_table(scan), part)
            || holds(link_table(scan.links), part),
    ensures
        holds(scan_report_text(scan), part),
{
    let title = title_text(scan);
    let devices = device_table(scan.devices);
    let matrix = matrix_table(scan);
    let links = link_table(scan.links);
    lemma_found(title, devices, part);
    lemma_found(title + devices, matrix, part);
    lemma_found(title + devices + matrix, links, part);
    lemma_found(title + devices + matrix + links, "\n"@, part);
}

/// The report holds the row of every link of the scan.
pub proof fn law_report_shows_every_link(scan: ScanView, i: int)
    requires
        0 <= i < scan.links.len(),
    ensures
        has_text(scan_report_text(scan), link_line(scan.links[i])),
{
    let part = link_line(scan.links[i]);
    lemma_link_lines(scan.links, i);
    lemma_found(link_heading() + link_rule(), link_lines(scan.links), part);
    lemma_found_in_report(scan, part);
    lemma_holds(scan_report_text(scan), part);
}

/// The report holds the row of every device of the scan.
pub proof fn law_report_shows_every_device(scan: ScanView, i: int)
    requires
        0 <= i < scan.devices.len(),
    ensures
        has_text(scan_report_text(scan), device_line(scan.devices[i])),
{
    let part = device_line(scan.devices[i]);
    lemma_device_lines(scan.devices, i);
    lemma_found(device_heading(), device_lines(scan.devices), part);
    lemma_found_in_report(scan, part);
    lemma_holds(scan_report_text(scan), part);
}

#[verifier::spinoff_prover]
#[verifier::rlimit(60)]
proof fn lemma_matrix_rows(
    speed: Map<(MacAddr, MacAddr), u16>,
    rows: Seq<DeviceView>,
    columns: Seq<DeviceView>,
    i: int,
)
    requires
        0 <= i < rows.len(),
    ensures
        holds(
            matrix_rows(speed, rows, columns),
            right(mac_short(rows[i].mac), 10) + matrix_cells(speed, rows[i].mac, columns) + "\n"@,
        ),
    decreases rows.len(),
{
    let init = rows.drop_last();
    let last = rows.last();
    let before = matrix_rows(speed, init, columns);
    let label = right(mac_short(last.mac), 10);
    let cells = matrix_cells(speed, last.mac, columns);
    let part = right(mac_short(rows[i].mac), 10) + matrix_cells(speed, rows[i].mac, columns)
        + "\n"@;
    if i < init.len() {
        lemma_matrix_rows(speed, init, columns, i);
        assert(init[i] == rows[i]);
        lemma_found(before, "  "@, part);
        lemma_found(before + "  "@, label, part);
        lemma_found(before + "  "@ + label, cells, part);
        lemma_found(before + "  "@ + label + cells, "\n"@, part);
    } else {
        lemma_found_three(before + "  "@, label, cells, "\n"@);
    }
}

/// The report holds the matrix row of every device of the scan, with its speeds to all
/// of them, below a heading with a column for each.
pub proof fn law_report_shows_the_matrix(scan: ScanView, i: int)
    requires
        0 <= i < scan.devices.len(),
    ensures
        has_text(
            scan_report_text(scan),
            right(mac_short(scan.devices[i].mac), 10) + matrix_cells(
                speeds(scan.links),
                scan.devices[i].mac,
                scan.devices,
            ) + "\n"@,
        ),
        has_text(scan_report_text(scan), matrix_heading(scan.devices) + "\n"@),
{
    let speed = speeds(scan.links);
    let rows = matrix_rows(speed, scan.devices, scan.devices);
    let heading = matrix_heading(scan.devices);
    let part = right(mac_short(scan.devices[i].mac), 10) + matrix_cells(
        speed,
        scan.devices[i].mac,
        scan.devices,
    ) + "\n"@;
    lemma_matrix_rows(speed, scan.devices, scan.devices, i);
    let top = "\n  Link Speeds (Mbps):\n"@ + "  "@ + right(Seq::empty(), 10);
    lemma_found(top + heading + "\n"@, rows, part);
    lemma_found_in_report(scan, part);
    lemma_holds(scan_report_text(scan), part);
    lemma_found_two(top, heading, "\n"@);
    lemma_found(top + heading + "\n"@, rows, heading + "\n"@);
    lemma_found_in_report(scan, heading + "\n"@);
    lemma_holds(scan_report_text(scan), heading + "\n"@);
}

/// The report begins with the interface and the time of the scan. Where there are no
/// links, it has no table of them.
pub proof fn law_report_has_a_title(scan: ScanView)
    ensures
        begins_with(
            scan_report_text(scan),
            "\nPowerline Network — "@ + scan.interface + " — "@ + date_time_text(scan.timestamp),
        ),
        scan.links.len() == 0 ==> link_table(scan.links).len() == 0,
{
    let title = "\nPowerline Network — "@ + scan.interface + " — "@ + date_time_text(
        scan.timestamp,
    );
    lemma_begins(title, "\n\n"@);
    lemma_begins(title_text(scan), device_table(scan.devices));
    let a = title_text(scan) + device_table(scan.devices);
    lemma_begins(a, matrix_table(scan));
    lemma_begins(a + matrix_table(scan), link_table(scan.links));
    lemma_begins(a + matrix_table(scan) + link_table(scan.links), "\n"@);
    lemma_begins_first(a, title_text(scan), title);
    lemma_begins_first(a + matrix_table(scan), a, title);
    lemma_begins_first(a + matrix_table(scan) + link_table(scan.links), a + matrix_table(scan), title);
    lemma_begins_first(
        scan_report_text(scan),
        a + matrix_table(scan) + link_table(scan.links),
        title,
    );
}

proof fn lemma_begins(a: Seq<char>, b: Seq<char>)
    ensures
        begins_with(a + b, a),
{
    assert((a + b).take(a.len() as int) =~= a);
}

proof fn lemma_begins_first(s: Seq<char>, a: Seq<char>, b: Seq<char>)
    requires
        begins_with(s, a),
        begins_with(a, b),
    ensures
        begins_with(s, b),
{
    assert(s.take(b.len() as int) =~= a.take(b.len() as int));
}

}
