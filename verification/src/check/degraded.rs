//! Which links are degraded, and why.

use crate::protocol::mac_text;
use crate::text::{append_decimal, decimal, same_text};
use crate::types::{average, average_mbps, link_views, Link, LinkView};
use vstd::prelude::*;
use vstd::string::*;

verus! {

/// A signal name that tells of a single stream.
pub open spec fn is_siso_name(signal: Seq<char>) -> bool {
    signal == "SISO"@ || signal == "SISO2"@ || signal == "SisoOnly"@
}

/// Why a link is degraded, if it is: it carries nothing; it is below the minimum; or
/// it runs on a single stream and below twice the minimum.
pub open spec fn degradation(link: LinkView, min_speed: u16) -> Option<Seq<char>> {
    let avg = average(link.tx_mbps, link.rx_mbps);
    let siso = is_siso_name(link.tx_signal);
    if avg == 0 {
        Some("no link"@)
    } else if avg < min_speed && siso {
        Some(
            "SISO fallback at "@ + decimal(avg as nat) + " Mbps (min: "@ + decimal(
                min_speed as nat,
            ) + ")"@,
        )
    } else if avg < min_speed {
        Some(decimal(avg as nat) + " Mbps below minimum "@ + decimal(min_speed as nat))
    } else if siso && avg < 2 * min_speed {
        Some("SISO mode at "@ + decimal(avg as nat) + " Mbps — MIMO restart may help"@)
    } else {
        None
    }
}

/// Twice the minimum speed is a rate that a link can be held against, where `link`
/// is: the last test of [`degradation`] can be made.
pub open spec fn doubling_fits(link: LinkView, min_speed: u16) -> bool {
    let avg = average(link.tx_mbps, link.rx_mbps);
    avg > 0 && avg >= min_speed && is_siso_name(link.tx_signal) ==> 2 * min_speed <= u16::MAX
}

#[derive(Debug, Clone)]
pub struct DegradedLink {
    pub from: String,
    pub to: String,
    pub avg_mbps: u16,
    pub tx_signal: String,
    pub reason: String,
}

pub struct DegradedView {
    pub from: Seq<char>,
    pub to: Seq<char>,
    pub avg_mbps: u16,
    pub tx_signal: Seq<char>,
    pub reason: Seq<char>,
}

impl View for DegradedLink {
    type V = DegradedView;

    open spec fn view(&self) -> DegradedView {
        DegradedView {
            from: self.from@,
            to: self.to@,
            avg_mbps: self.avg_mbps,
            tx_signal: self.tx_signal@,
            reason: self.reason@,
        }
    }
}

/// The degraded links of a list.
pub open spec fn degraded_views(links: Seq<DegradedLink>) -> Seq<DegradedView> {
    links.map_values(|l: DegradedLink| l@)
}

/// The report on a link that is degraded for a given reason.
pub open spec fn degraded_view(link: LinkView, reason: Seq<char>) -> DegradedView {
    DegradedView {
        from: mac_text(link.from),
        to: mac_text(link.to),
        avg_mbps: average(link.tx_mbps, link.rx_mbps) as u16,
        tx_signal: link.tx_signal,
        reason,
    }
}

/// The degraded ones among `links`, in their order.
pub open spec fn degraded_among(links: Seq<LinkView>, min_speed: u16) -> Seq<DegradedView>
    decreases links.len(),
{
    if links.len() == 0 {
        Seq::empty()
    } else {
        let before = degraded_among(links.drop_last(), min_speed);
        match degradation(links.last(), min_speed) {
            Some(reason) => before.push(degraded_view(links.last(), reason)),
            None => before,
        }
    }
}

fn is_siso(signal: &str) -> (r: bool)
    ensures
        r == is_siso_name(signal@),
{
    same_text(signal, "SISO") || same_text(signal, "SISO2") || same_text(signal, "SisoOnly")
}

/// Tell why a link is degraded, if it is.
pub fn degraded_reason(link: &Link, min_speed: u16) -> (r: Option<String>)
    requires
        doubling_fits(link@, min_speed),
    ensures
        match r {
            Some(reason) => degradation(link@, min_speed) == Some(reason@),
            None => degradation(link@, min_speed) is None,
        },
{
    let avg = average_mbps(link.tx_mbps, link.rx_mbps);
    let siso = is_siso(link.tx_signal.as_str());
    if avg == 0 {
        Some(String::from_str("no link"))
    } else if avg < min_speed && siso {
        let mut r = String::from_str("SISO fallback at ");
        append_decimal(&mut r, avg as u64);
        r.append(" Mbps (min: ");
        append_decimal(&mut r, min_speed as u64);
        r.append(")");
        Some(r)
    } else if avg < min_speed {
        let mut r = String::new();
        append_decimal(&mut r, avg as u64);
        r.append(" Mbps below minimum ");
        append_decimal(&mut r, min_speed as u64);
        assert(r@ == decimal(avg as nat) + " Mbps below minimum "@ + decimal(min_speed as nat));
        Some(r)
    } else if siso && avg < min_speed * 2 {
        let mut r = String::from_str("SISO mode at ");
        append_decimal(&mut r, avg as u64);
        r.append(" Mbps — MIMO restart may help");
        Some(r)
    } else {
        None
    }
}

/// Test whether every link can be held against twice the minimum speed.
pub fn all_doublings_fit(links: &Vec<Link>, min_speed: u16) -> (r: bool)
    ensures
        r == forall|i: int| 0 <= i < links@.len() ==> doubling_fits(#[trigger] links@[i]@, min_speed),
{
    let mut i: usize = 0;
    while i < links.len()
        invariant
            i <= links.len(),
            forall|k: int| 0 <= k < i ==> doubling_fits(#[trigger] links@[k]@, min_speed),
        decreases links.len() - i,
    {
        let link = &links[i];
        let avg = average_mbps(link.tx_mbps, link.rx_mbps);
        if avg > 0 && avg >= min_speed && is_siso(link.tx_signal.as_str()) && min_speed > 0x7FFF {
            assert(!doubling_fits(links@[i as int]@, min_speed));
            return false;
        }
        i += 1;
    }
    true
}

/// Find the degraded links.
pub fn find_degraded(links: &Vec<Link>, min_speed: u16) -> (r: Vec<DegradedLink>)
    requires
        forall|i: int| 0 <= i < links@.len() ==> doubling_fits(#[trigger] links@[i]@, min_speed),
    ensures
        degraded_views(r@) == degraded_among(link_views(links@), min_speed),
{
    let mut degraded: Vec<DegradedLink> = Vec::new();
    let ghost all = link_views(links@);
    let mut i: usize = 0;
    assert(all.take(0).len() == 0);
    assert(degraded_views(degraded@) == degraded_among(all.take(0), min_speed));
    while i < links.len()
        invariant
            i <= links.len(),
            forall|i: int|
                0 <= i < links@.len() ==> doubling_fits(#[trigger] links@[i]@, min_speed),
            all == link_views(links@),
            degraded_views(degraded@) == degraded_among(all.take(i as int), min_speed),
        decreases links.len() - i,
    {
        let link = &links[i];
        assert(all.take(i + 1).drop_last() == all.take(i as int));
        assert(all.take(i + 1).last() == link@);
        assert(doubling_fits(links@[i as int]@, min_speed));
        if let Some(reason) = degraded_reason(link, min_speed) {
            let d = DegradedLink {
                from: link.from.to_string(),
                to: link.to.to_string(),
                avg_mbps: average_mbps(link.tx_mbps, link.rx_mbps),
                tx_signal: String::from_str(link.tx_signal.as_str()),
                reason,
            };
            let ghost before = degraded@;
            degraded.push(d);
            assert(degraded_views(degraded@) == degraded_views(before).push(d@));
        }
        i += 1;
    }
    assert(all.take(i as int) == all);
    degraded
}

// -- Laws ------------------------------------------------------------------------------------

/// The reason that is given names the mean rate, and the minimum where the link is
/// below it.
pub proof fn law_degraded_reasons(link: LinkView, min_speed: u16, avg: nat)
    requires
        2 * avg <= link.tx_mbps + link.rx_mbps < 2 * avg + 2,
        degradation(link, min_speed) is Some,
    ensures
        ({
            let reason = degradation(link, min_speed).unwrap();
            let siso = link.tx_signal == "SISO"@ || link.tx_signal == "SISO2"@ || link.tx_signal
                == "SisoOnly"@;
            &&& avg == 0 <==> reason == "no link"@
            &&& 0 < avg < min_speed && siso ==> reason == "SISO fallback at "@ + decimal(avg)
                + " Mbps (min: "@ + decimal(min_speed as nat) + ")"@
            &&& 0 < avg < min_speed && !siso ==> reason == decimal(avg)
                + " Mbps below minimum "@ + decimal(min_speed as nat)
            &&& avg > 0 && avg >= min_speed ==> siso && reason == "SISO mode at "@ + decimal(avg)
                + " Mbps — MIMO restart may help"@
        }),
{
    assert(average(link.tx_mbps, link.rx_mbps) == avg);
    reveal_strlit("no link");
    reveal_strlit("SISO fallback at ");
    reveal_strlit("SISO mode at ");
    reveal_strlit(" Mbps below minimum ");
    let reason = degradation(link, min_speed).unwrap();
    if avg > 0 {
        let first = reason[0];
        if avg < min_speed && !is_siso_name(link.tx_signal) {
            lemma_decimal_first(avg);
            assert(first == decimal(avg)[0]);
        } else {
            assert(first == 'S');
        }
        assert("no link"@[0] == 'n');
    }
}

/// A number begins with a digit.
proof fn lemma_decimal_first(n: nat)
    ensures
        decimal(n).len() > 0,
        '0' <= decimal(n)[0] <= '9',
    decreases n,
{
    if n >= 10 {
        lemma_decimal_first(n / 10);
        assert(decimal(n)[0] == decimal(n / 10)[0]);
    }
}

}
