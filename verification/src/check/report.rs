//! What a check says.

use super::candidates::Backoff;
use super::degraded::{degraded_views, DegradedLink, DegradedView};
use crate::protocol::{law_address_text, mac_short, mac_text, MacAddr};
use crate::text::{append_decimal, decimal, join, joined};
use crate::types::{average, average_mbps, link_views, Link, LinkView};
use vstd::prelude::*;
use vstd::string::*;

verus! {

/// What a check prints as JSON when no device was found.
pub const NO_DEVICES_JSON: &'static str =
    "{\"healthy\":false,\"error\":\"no devices found\",\"restarted\":[],\"degraded\":[]}";

/// Tell that no device was found.
pub fn no_devices_note(iface: &str) -> (r: String)
    ensures
        r@ == "No powerline devices found on "@ + iface@,
{
    let mut r = String::from_str("No powerline devices found on ");
    r.append(iface);
    r
}

/// Tell that an adapter has to wait; `time` is when this was found.
pub fn backoff_note(time: &str, b: &Backoff) -> (r: String)
    ensures
        r@ == "["@ + time@ + "] "@ + mac_text(b.mac) + " still degraded after "@ + decimal(
            b.failures as nat,
        ) + " restart(s) — in backoff, next attempt in ~"@ + decimal(b.next_in_mins as nat) + "m"@,
{
    let mut r = String::from_str("[");
    r.append(time);
    r.append("] ");
    r.append(b.mac.to_string().as_str());
    r.append(" still degraded after ");
    append_decimal(&mut r, b.failures as u64);
    r.append(" restart(s) — in backoff, next attempt in ~");
    append_decimal(&mut r, b.next_in_mins);
    r.append("m");
    r
}

/// Tell that restarts are about to begin.
pub fn restarting_note(time: &str, degraded: usize, targets: usize) -> (r: String)
    ensures
        r@ == "["@ + time@ + "] Found "@ + decimal(degraded as nat)
            + " degraded link(s), restarting "@ + decimal(targets as nat) + " adapter(s)..."@,
{
    let mut r = String::from_str("[");
    r.append(time);
    r.append("] Found ");
    append_decimal(&mut r, degraded as u64);
    r.append(" degraded link(s), restarting ");
    append_decimal(&mut r, targets as u64);
    r.append(" adapter(s)...");
    r
}

/// Tell that an adapter was restarted.
pub fn restarted_note(mac: MacAddr, acked: bool) -> (r: String)
    ensures
        r@ == "  Restarted "@ + mac_text(mac) + if acked {
            " (acknowledged)"@
        } else {
            " (no ack — may have rebooted immediately)"@
        },
{
    let mut r = String::from_str("  Restarted ");
    r.append(mac.to_string().as_str());
    if acked {
        r.append(" (acknowledged)");
    } else {
        r.append(" (no ack — may have rebooted immediately)");
    }
    r
}

/// The line for a healthy link.
pub open spec fn healthy_line(link: LinkView) -> Seq<char> {
    "  "@ + mac_short(link.from) + " → "@ + mac_short(link.to) + "  "@ + decimal(
        average(link.tx_mbps, link.rx_mbps) as nat,
    ) + " Mbps avg  "@ + link.tx_signal + "\n"@
}

/// The lines for healthy links.
pub open spec fn healthy_lines(links: Seq<LinkView>) -> Seq<char>
    decreases links.len(),
{
    if links.len() == 0 {
        Seq::empty()
    } else {
        healthy_lines(links.drop_last()) + healthy_line(links.last())
    }
}

fn healthy_link_text(link: &Link) -> (r: String)
    ensures
        r@ == healthy_line(link@),
{
    let mut r = String::from_str("  ");
    r.append(link.from.short().as_str());
    r.append(" → ");
    r.append(link.to.short().as_str());
    r.append("  ");
    append_decimal(&mut r, average_mbps(link.tx_mbps, link.rx_mbps) as u64);
    r.append(" Mbps avg  ");
    r.append(link.tx_signal.as_str());
    r.append("\n");
    r
}

/// The report on a network without degraded links.
pub fn healthy_report(time: &str, min_speed: u16, links: &Vec<Link>) -> (r: String)
    ensures
        r@ == "["@ + time@ + "] OK — all links above "@ + decimal(min_speed as nat) + " Mbps\n"@
            + healthy_lines(link_views(links@)),
{
    let mut r = String::from_str("[");
    r.append(time);
    r.append("] OK — all links above ");
    append_decimal(&mut r, min_speed as u64);
    r.append(" Mbps\n");
    let ghost head = r@;
    let ghost all = link_views(links@);
    let mut i: usize = 0;
    assert(all.take(0).len() == 0);
    assert(r@ == head + healthy_lines(all.take(0)));
    while i < links.len()
        invariant
            i <= links.len(),
            all == link_views(links@),
            r@ == head + healthy_lines(all.take(i as int)),
        decreases links.len() - i,
    {
        let link = &links[i];
        assert(all.take(i + 1).drop_last() == all.take(i as int));
        assert(all.take(i + 1).last() == link@);
        r.append(healthy_link_text(link).as_str());
        i += 1;
    }
    assert(all.take(i as int) == all);
    r
}

/// The line for a degraded link.
pub open spec fn degraded_line(d: DegradedView) -> Seq<char> {
    "  "@ + d.from + " → "@ + d.to + "  "@ + decimal(d.avg_mbps as nat) + " Mbps  "@ + d.reason
        + "\n"@
}

/// The lines for degraded links.
pub open spec fn degraded_lines(degraded: Seq<DegradedView>) -> Seq<char>
    decreases degraded.len(),
{
    if degraded.len() == 0 {
        Seq::empty()
    } else {
        degraded_lines(degraded.drop_last()) + degraded_line(degraded.last())
    }
}

/// What the report on degraded links says of restarts.
pub open spec fn restart_lines(
    restarted: Seq<String>,
    in_backoff: Seq<String>,
    do_restart: bool,
) -> Seq<char> {
    (if restarted.len() > 0 {
        "Restarted: "@ + joined(restarted, ", "@) + "\n"@
    } else {
        Seq::empty()
    }) + (if in_backoff.len() > 0 {
        "In backoff (restart withheld — repeated restarts haven't helped): "@ + joined(
            in_backoff,
            ", "@,
        ) + "\n"@
    } else {
        Seq::empty()
    }) + (if do_restart && restarted.len() == 0 && in_backoff.len() == 0 {
        "No remote adapters to restart.\n"@
    } else {
        Seq::empty()
    })
}

fn degraded_link_text(d: &DegradedLink) -> (r: String)
    ensures
        r@ == degraded_line(d@),
{
    let mut r = String::from_str("  ");
    r.append(d.from.as_str());
    r.append(" → ");
    r.append(d.to.as_str());
    r.append("  ");
    append_decimal(&mut r, d.avg_mbps as u64);
    r.append(" Mbps  ");
    r.append(d.reason.as_str());
    r.append("\n");
    r
}

/// The report on degraded links.
pub fn degraded_report(
    time: &str,
    degraded: &Vec<DegradedLink>,
    restarted: &Vec<String>,
    in_backoff: &Vec<String>,
    do_restart: bool,
) -> (r: String)
    ensures
        r@ == "["@ + time@ + "] DEGRADED — "@ + decimal(degraded@.len()) + " link(s) below threshold\n"@
            + degraded_lines(degraded_views(degraded@)) + restart_lines(
            restarted@,
            in_backoff@,
            do_restart,
        ),
{
    let mut r = String::from_str("[");
    r.append(time);
    r.append("] DEGRADED — ");
    append_decimal(&mut r, degraded.len() as u64);
    r.append(" link(s) below threshold\n");
    let ghost head = r@;
    let ghost all = degraded_views(degraded@);
    let mut i: usize = 0;
    assert(all.take(0).len() == 0);
    assert(r@ == head + degraded_lines(all.take(0)));
    while i < degraded.len()
        invariant
            i <= degraded.len(),
            all == degraded_views(degraded@),
            r@ == head + degraded_lines(all.take(i as int)),
        decreases degraded.len() - i,
    {
        let d = &degraded[i];
        assert(all.take(i + 1).drop_last() == all.take(i as int));
        assert(all.take(i + 1).last() == d@);
        r.append(degraded_link_text(d).as_str());
        i += 1;
    }
    assert(all.take(i as int) == all);
    let ghost lines = r@;
    if restarted.len() > 0 {
        r.append("Restarted: ");
        r.append(join(restarted, ", ").as_str());
        r.append("\n");
    }
    if in_backoff.len() > 0 {
        r.append("In backoff (restart withheld — repeated restarts haven't helped): ");
        r.append(join(in_backoff, ", ").as_str());
        r.append("\n");
    }
    if do_restart && restarted.len() == 0 && in_backoff.len() == 0 {
        r.append("No remote adapters to restart.\n");
    }
    assert(r@ == lines + restart_lines(restarted@, in_backoff@, do_restart));
    r
}

// -- Laws ------------------------------------------------------------------------------------

/// The report on a healthy network has a line for each link, in the order of the scan:
/// the short forms of its ends, the mean of its rates and its TX signal.
pub proof fn law_healthy_lines(links: Seq<LinkView>, link: LinkView, avg: nat)
    requires
        2 * avg <= link.tx_mbps + link.rx_mbps < 2 * avg + 2,
    ensures
        healthy_lines(Seq::empty()).len() == 0,
        healthy_lines(links.push(link)) == healthy_lines(links) + healthy_line(link),
        healthy_line(link).subrange(2, 10) == mac_short(link.from),
        healthy_line(link).subrange(13, 21) == mac_short(link.to),
        healthy_line(link).skip(23) == decimal(avg) + " Mbps avg  "@ + link.tx_signal + "\n"@,
{
    assert(links.push(link).drop_last() == links);
    assert(average(link.tx_mbps, link.rx_mbps) == avg);
    law_address_text(link.from, 0);
    law_address_text(link.to, 0);
    reveal_strlit("  ");
    reveal_strlit(" → ");
    let head = "  "@ + mac_short(link.from) + " → "@ + mac_short(link.to) + "  "@;
    let rest = decimal(avg) + " Mbps avg  "@ + link.tx_signal + "\n"@;
    assert(head.len() == 23);
    assert(head.subrange(2, 10) =~= mac_short(link.from));
    assert(head.subrange(13, 21) =~= mac_short(link.to));
    assert(healthy_line(link) =~= head + rest);
    assert(healthy_line(link).subrange(2, 10) =~= head.subrange(2, 10));
    assert(healthy_line(link).subrange(13, 21) =~= head.subrange(13, 21));
    assert(healthy_line(link).skip(23) =~= rest);
}

/// The report on degraded links has a line for each of them, in their order: its ends,
/// its mean rate and the reason.
pub proof fn law_degraded_lines(degraded: Seq<DegradedView>, d: DegradedView)
    requires
        d.from.len() == 17,
        d.to.len() == 17,
    ensures
        degraded_lines(Seq::empty()).len() == 0,
        degraded_lines(degraded.push(d)) == degraded_lines(degraded) + degraded_line(d),
        degraded_line(d).subrange(2, 19) == d.from,
        degraded_line(d).subrange(22, 39) == d.to,
        degraded_line(d).skip(41) == decimal(d.avg_mbps as nat) + " Mbps  "@ + d.reason + "\n"@,
{
    assert(degraded.push(d).drop_last() == degraded);
    reveal_strlit("  ");
    reveal_strlit(" → ");
    let head = "  "@ + d.from + " → "@ + d.to + "  "@;
    let rest = decimal(d.avg_mbps as nat) + " Mbps  "@ + d.reason + "\n"@;
    assert(head.len() == 41);
    assert(head.subrange(2, 19) =~= d.from);
    assert(head.subrange(22, 39) =~= d.to);
    assert(degraded_line(d) =~= head + rest);
    assert(degraded_line(d).subrange(2, 19) =~= head.subrange(2, 19));
    assert(degraded_line(d).subrange(22, 39) =~= head.subrange(22, 39));
    assert(degraded_line(d).skip(41) =~= rest);
}

/// What is said of restarts: who was restarted, who has to wait, and, where restarts
/// were wanted, that there was nobody.
pub proof fn law_restart_lines(restarted: Seq<String>, in_backoff: Seq<String>, do_restart: bool)
    ensures
        ({
            let done = "Restarted: "@ + joined(restarted, ", "@) + "\n"@;
            let waiting = "In backoff (restart withheld — repeated restarts haven't helped): "@
                + joined(in_backoff, ", "@) + "\n"@;
            let said = restart_lines(restarted, in_backoff, do_restart);
            &&& restarted.len() > 0 && in_backoff.len() > 0 ==> said == done + waiting
            &&& restarted.len() > 0 && in_backoff.len() == 0 ==> said == done
            &&& restarted.len() == 0 && in_backoff.len() > 0 ==> said == waiting
            &&& restarted.len() == 0 && in_backoff.len() == 0 && do_restart ==> said
                == "No remote adapters to restart.\n"@
            &&& restarted.len() == 0 && in_backoff.len() == 0 && !do_restart ==> said.len() == 0
        }),
{
    let done = "Restarted: "@ + joined(restarted, ", "@) + "\n"@;
    let waiting = "In backoff (restart withheld — repeated restarts haven't helped): "@ + joined(
        in_backoff,
        ", "@,
    ) + "\n"@;
    let said = restart_lines(restarted, in_backoff, do_restart);
    let none = Seq::<char>::empty();
    assert(done + waiting + none =~= done + waiting);
    assert(done + none + none =~= done);
    assert(none + waiting + none =~= waiting);
    assert(none + none + none =~= none);
    let nobody = "No remote adapters to restart.\n"@;
    assert(none + none + nobody =~= nobody);
}

}
