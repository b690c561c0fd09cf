//! What holds of checks as a whole.

use super::candidates::{
    backoff_of, candidates_of, due, local_addresses, times_fit, with_candidate, withheld, Backoff,
};
use super::degraded::{
    degradation, degraded_among, degraded_view, doubling_fits, is_siso_name, DegradedView,
};
use super::state::{cooldown, has_end, kept, law_cooldown_grows, AdapterState};
use super::{
    candidates_in, check_fits, failures_of, recorded, status_of, EXIT_DEGRADED, EXIT_ERROR, EXIT_HEALTHY,
};
use crate::net::{law_addresses_are_told_apart, law_written_address_parses, mac_of_text};
use crate::protocol::{mac_text, MacAddr};
use crate::types::{average, DeviceView, LinkView, ScanView};
use vstd::prelude::*;

verus! {

/// A link is degraded exactly if it carries nothing, is below the minimum, or runs on
/// a single stream and below twice the minimum.
pub proof fn law_degraded(link: LinkView, min_speed: u16)
    ensures
        degradation(link, min_speed) is Some <==> {
            let avg = average(link.tx_mbps, link.rx_mbps);
            avg == 0 || avg < min_speed || (is_siso_name(link.tx_signal) && avg < 2 * min_speed)
        },
{
}

/// A check ends in error exactly if there are no devices, and else in health exactly if
/// no link is degraded, whatever is restarted.
pub proof fn law_exit_status(scan: ScanView, min_speed: u16)
    ensures
        status_of(
            scan.devices.len(),
            degraded_among(scan.links, min_speed).len(),
        ) == if scan.devices.len() == 0 {
            EXIT_ERROR
        } else if forall|i: int|
            0 <= i < scan.links.len() ==> degradation(#[trigger] scan.links[i], min_speed) is None {
            EXIT_HEALTHY
        } else {
            EXIT_DEGRADED
        },
{
    law_healthy(scan.links, min_speed);
}

/// A link that is degraded stays so when more is asked of it.
pub proof fn law_degraded_under_higher_minimum(link: LinkView, lower: u16, higher: u16)
    requires
        lower <= higher,
        degradation(link, lower) is Some,
    ensures
        degradation(link, higher) is Some,
{
}

/// The report on `link`, where it is degraded, is `d`.
spec fn tells_of(d: DegradedView, link: LinkView, min_speed: u16) -> bool {
    degradation(link, min_speed) is Some && d == degraded_view(
        link,
        degradation(link, min_speed).unwrap(),
    )
}

/// One more link adds the report on it, where it is degraded.
proof fn lemma_degraded_last(links: Seq<LinkView>, min_speed: u16, d: DegradedView)
    requires
        links.len() > 0,
    ensures
        degraded_among(links, min_speed).contains(d) <==> degraded_among(
            links.drop_last(),
            min_speed,
        ).contains(d) || tells_of(d, links.last(), min_speed),
{
    let before = degraded_among(links.drop_last(), min_speed);
    if let Some(reason) = degradation(links.last(), min_speed) {
        lemma_push_contains(before, degraded_view(links.last(), reason), d);
    }
}

proof fn lemma_told_of(links: Seq<LinkView>, min_speed: u16, d: DegradedView)
    ensures
        degraded_among(links, min_speed).contains(d) <==> exists|i: int|
            0 <= i < links.len() && tells_of(d, #[trigger] links[i], min_speed),
    decreases links.len(),
{
    if links.len() > 0 {
        let init = links.drop_last();
        lemma_told_of(init, min_speed, d);
        lemma_degraded_last(links, min_speed, d);
        assert(links.last() == links[links.len() - 1]);
        if exists|i: int| 0 <= i < init.len() && tells_of(d, #[trigger] init[i], min_speed) {
            let i = choose|i: int| 0 <= i < init.len() && tells_of(d, #[trigger] init[i], min_speed);
            assert(tells_of(d, links[i], min_speed));
        }
        if exists|i: int| 0 <= i < links.len() && tells_of(d, #[trigger] links[i], min_speed) {
            let i = choose|i: int|
                0 <= i < links.len() && tells_of(d, #[trigger] links[i], min_speed);
            if i < init.len() {
                assert(tells_of(d, init[i], min_speed));
            }
        }
    }
}

/// The report lists a degraded link exactly where there is one.
proof fn lemma_degraded_among(links: Seq<LinkView>, min_speed: u16, d: DegradedView)
    ensures
        degraded_among(links, min_speed).contains(d) <==> exists|i: int|
            0 <= i < links.len() && degradation(#[trigger] links[i], min_speed) is Some && d
                == degraded_view(links[i], degradation(links[i], min_speed).unwrap()),
{
    lemma_told_of(links, min_speed, d);
    if degraded_among(links, min_speed).contains(d) {
        let i = choose|i: int| 0 <= i < links.len() && tells_of(d, #[trigger] links[i], min_speed);
        assert(degradation(links[i], min_speed) is Some);
    }
}

/// A network is healthy exactly if none of its links is degraded.
pub proof fn law_healthy(links: Seq<LinkView>, min_speed: u16)
    ensures
        degraded_among(links, min_speed).len() == 0 <==> forall|i: int|
            0 <= i < links.len() ==> degradation(#[trigger] links[i], min_speed) is None,
    decreases links.len(),
{
    if links.len() > 0 {
        let init = links.drop_last();
        law_healthy(init, min_speed);
        assert(links.last() == links[links.len() - 1]);
        assert(forall|i: int| 0 <= i < init.len() ==> #[trigger] init[i] == links[i]);
        if degraded_among(links, min_speed).len() == 0 {
            assert forall|i: int| 0 <= i < links.len() implies degradation(
                #[trigger] links[i],
                min_speed,
            ) is None by {
                if i < init.len() {
                    assert(degradation(init[i], min_speed) is None);
                }
            }
        } else if forall|i: int|
            0 <= i < links.len() ==> degradation(#[trigger] links[i], min_speed) is None {
            assert forall|i: int| 0 <= i < init.len() implies degradation(
                #[trigger] init[i],
                min_speed,
            ) is None by {
                assert(init[i] == links[i]);
            }
        }
    }
}

/// One end of a degraded link is written as the address `mac`.
spec fn ends_at(d: DegradedView, mac: MacAddr) -> bool {
    mac_of_text(d.from) == Some(mac) || mac_of_text(d.to) == Some(mac)
}

/// An end of one of the degraded links is written as the address `mac`.
spec fn has_written_end(degraded: Seq<DegradedView>, mac: MacAddr) -> bool {
    exists|i: int| 0 <= i < degraded.len() && ends_at(#[trigger] degraded[i], mac)
}

/// Both ends of a degraded link become candidates.
proof fn lemma_both_ends(
    before: Seq<MacAddr>,
    d: DegradedView,
    local: Seq<MacAddr>,
    mac: MacAddr,
)
    requires
        before.no_duplicates(),
    ensures
        with_candidate(with_candidate(before, d.to, local), d.from, local).no_duplicates(),
        with_candidate(with_candidate(before, d.to, local), d.from, local).contains(mac) <==> (
        before.contains(mac) || (!local.contains(mac) && ends_at(d, mac))),
{
    lemma_with_candidate(before, d.to, local, mac);
    lemma_with_candidate(with_candidate(before, d.to, local), d.from, local, mac);
}

/// One more degraded link adds its own ends to those of the others.
proof fn lemma_some_end(degraded: Seq<DegradedView>, mac: MacAddr)
    requires
        degraded.len() > 0,
    ensures
        has_written_end(degraded, mac) <==> has_written_end(degraded.drop_last(), mac) || ends_at(
            degraded.last(),
            mac,
        ),
{
    let init = degraded.drop_last();
    if has_written_end(init, mac) {
        let i = choose|i: int| 0 <= i < init.len() && ends_at(#[trigger] init[i], mac);
        assert(ends_at(degraded[i], mac));
    }
    if ends_at(degraded.last(), mac) {
        assert(ends_at(degraded[degraded.len() - 1], mac));
    }
    if has_written_end(degraded, mac) {
        let i = choose|i: int| 0 <= i < degraded.len() && ends_at(#[trigger] degraded[i], mac);
        if i < init.len() {
            assert(ends_at(init[i], mac));
        }
    }
}

proof fn lemma_candidates(degraded: Seq<DegradedView>, local: Seq<MacAddr>, mac: MacAddr)
    ensures
        candidates_of(degraded, local).no_duplicates(),
        candidates_of(degraded, local).contains(mac) <==> !local.contains(mac) && has_written_end(
            degraded,
            mac,
        ),
    decreases degraded.len(),
{
    if degraded.len() > 0 {
        let init = degraded.drop_last();
        lemma_candidates(init, local, mac);
        lemma_both_ends(candidates_of(init, local), degraded.last(), local, mac);
        lemma_some_end(degraded, mac);
    }
}

proof fn lemma_with_candidate(
    candidates: Seq<MacAddr>,
    text: Seq<char>,
    local: Seq<MacAddr>,
    mac: MacAddr,
)
    requires
        candidates.no_duplicates(),
    ensures
        with_candidate(candidates, text, local).no_duplicates(),
        with_candidate(candidates, text, local).contains(mac) <==> candidates.contains(mac) || (
        !local.contains(mac) && mac_of_text(text) == Some(mac)),
{
    match mac_of_text(text) {
        Some(found) => {
            if !local.contains(found) && !candidates.contains(found) {
                lemma_push_contains(candidates, found, mac);
                let next = candidates.push(found);
                assert forall|i: int, j: int|
                    0 <= i < next.len() && 0 <= j < next.len() && i != j implies next[i]
                    != next[j] by {
                    if i < candidates.len() && j < candidates.len() {
                        assert(candidates[i] != candidates[j]);
                    } else if i < candidates.len() {
                        assert(candidates.contains(candidates[i]));
                    } else {
                        assert(candidates.contains(candidates[j]));
                    }
                }
            }
        },
        None => {},
    }
}

/// The candidates for a restart are the remote ends of degraded links: all of them,
/// each once, and no other adapter. The local adapter is never among them.
pub proof fn law_candidates(
    links: Seq<LinkView>,
    min_speed: u16,
    local: Seq<MacAddr>,
    mac: MacAddr,
)
    ensures
        candidates_of(degraded_among(links, min_speed), local).no_duplicates(),
        candidates_of(degraded_among(links, min_speed), local).contains(mac) <==> !local.contains(
            mac,
        ) && exists|i: int|
            0 <= i < links.len() && degradation(#[trigger] links[i], min_speed) is Some && (
            links[i].from == mac || links[i].to == mac),
{
    let degraded = degraded_among(links, min_speed);
    lemma_candidates(degraded, local, mac);
    if exists|i: int| 0 <= i < degraded.len() && ends_at(#[trigger] degraded[i], mac) {
        let k = choose|i: int| 0 <= i < degraded.len() && ends_at(#[trigger] degraded[i], mac);
        let d = degraded[k];
        lemma_degraded_among(links, min_speed, d);
        assert(degraded.contains(d));
        let i = choose|i: int|
            0 <= i < links.len() && degradation(#[trigger] links[i], min_speed) is Some && d
                == degraded_view(links[i], degradation(links[i], min_speed).unwrap());
        law_written_address_parses(links[i].from);
        law_written_address_parses(links[i].to);
    }
    if exists|i: int|
        0 <= i < links.len() && degradation(#[trigger] links[i], min_speed) is Some && (
        links[i].from == mac || links[i].to == mac) {
        let i = choose|i: int|
            0 <= i < links.len() && degradation(#[trigger] links[i], min_speed) is Some && (
            links[i].from == mac || links[i].to == mac);
        let d = degraded_view(links[i], degradation(links[i], min_speed).unwrap());
        lemma_degraded_among(links, min_speed, d);
        assert(degraded.contains(d));
        let k = choose|k: int| 0 <= k < degraded.len() && degraded[k] == d;
        law_written_address_parses(mac);
        assert(ends_at(degraded[k], mac));
    }
}

/// Every candidate is either restarted now or has to wait, and nothing else is.
pub proof fn law_due_or_waiting(
    candidates: Seq<MacAddr>,
    state: Map<Seq<char>, AdapterState>,
    now: i64,
    base_mins: u64,
    mac: MacAddr,
    wait: Backoff,
)
    ensures
        due(candidates, state, now, base_mins).contains(mac) <==> candidates.contains(mac)
            && backoff_of(mac, state, now, base_mins) is None,
        withheld(candidates, state, now, base_mins).contains(wait) <==> candidates.contains(
            wait.mac,
        ) && backoff_of(wait.mac, state, now, base_mins) == Some(wait),
        due(candidates, state, now, base_mins).len() + withheld(
            candidates,
            state,
            now,
            base_mins,
        ).len() == candidates.len(),
    decreases candidates.len(),
{
    if candidates.len() > 0 {
        let init = candidates.drop_last();
        law_due_or_waiting(init, state, now, base_mins, mac, wait);
        assert(candidates == init.push(candidates.last()));
        lemma_push_contains(init, candidates.last(), mac);
        lemma_push_contains(init, candidates.last(), wait.mac);
        let targets = due(init, state, now, base_mins);
        let waiting = withheld(init, state, now, base_mins);
        match backoff_of(candidates.last(), state, now, base_mins) {
            Some(b) => lemma_push_contains(waiting, b, wait),
            None => lemma_push_contains(targets, candidates.last(), mac),
        }
    }
}

proof fn lemma_push_contains<T>(s: Seq<T>, last: T, x: T)
    ensures
        s.push(last).contains(x) <==> s.contains(x) || x == last,
{
    let t = s.push(last);
    assert(t[s.len() as int] == last);
    if s.contains(x) {
        let k = choose|k: int| 0 <= k < s.len() && s[k] == x;
        assert(t[k] == x);
    }
}

/// An adapter that was restarted has to wait until its cooldown has passed, and not
/// longer: one more failure counts, and only that adapter's memory changes.
pub proof fn law_restart_starts_cooldown(
    state: Map<Seq<char>, AdapterState>,
    mac: MacAddr,
    other: MacAddr,
    now: i64,
    later: i64,
    base_mins: u64,
)
    requires
        failures_of(state, mac) < u32::MAX,
    ensures
        failures_of(recorded(state, mac, now), mac) == failures_of(state, mac) + 1,
        backoff_of(mac, recorded(state, mac, now), later, base_mins) is Some <==> later < now
            + cooldown(base_mins, (failures_of(state, mac) + 1) as u32),
        other != mac ==> recorded(state, mac, now).get(mac_text(other)) == state.get(
            mac_text(other),
        ),
{
    if mac_text(other) == mac_text(mac) {
        law_addresses_are_told_apart(other, mac);
    }
}

/// An adapter with no degraded link is forgotten: its next failure counts as the
/// first. What is remembered of the others stays.
pub proof fn law_recovery_clears_history(
    state: Map<Seq<char>, AdapterState>,
    links: Seq<LinkView>,
    min_speed: u16,
    mac: MacAddr,
)
    ensures
        kept(state, degraded_among(links, min_speed)).get(mac_text(mac)) == if exists|i: int|
            0 <= i < links.len() && degradation(#[trigger] links[i], min_speed) is Some && (
            links[i].from == mac || links[i].to == mac) {
            state.get(mac_text(mac))
        } else {
            None
        },
{
    let degraded = degraded_among(links, min_speed);
    if has_end(degraded, mac_text(mac)) {
        let k = choose|k: int|
            0 <= k < degraded.len() && ((#[trigger] degraded[k]).from == mac_text(mac)
                || degraded[k].to == mac_text(mac));
        let d = degraded[k];
        lemma_degraded_among(links, min_speed, d);
        assert(degraded.contains(d));
        let i = choose|i: int|
            0 <= i < links.len() && degradation(#[trigger] links[i], min_speed) is Some && d
                == degraded_view(links[i], degradation(links[i], min_speed).unwrap());
        if mac_text(links[i].from) == mac_text(mac) {
            law_addresses_are_told_apart(links[i].from, mac);
        }
        if mac_text(links[i].to) == mac_text(mac) {
            law_addresses_are_told_apart(links[i].to, mac);
        }
    }
    if exists|i: int|
        0 <= i < links.len() && degradation(#[trigger] links[i], min_speed) is Some && (
        links[i].from == mac || links[i].to == mac) {
        let i = choose|i: int|
            0 <= i < links.len() && degradation(#[trigger] links[i], min_speed) is Some && (
            links[i].from == mac || links[i].to == mac);
        let d = degraded_view(links[i], degradation(links[i], min_speed).unwrap());
        lemma_degraded_among(links, min_speed, d);
        let k = choose|k: int| 0 <= k < degraded.len() && degraded[k] == d;
        assert(degraded[k].from == mac_text(mac) || degraded[k].to == mac_text(mac));
    }
}

/// A link is degraded exactly if its rates add up to less than two Mbps, their mean is
/// below the minimum, or it is below twice the minimum and the link sends on a single
/// stream.
pub proof fn law_degraded_by_rates(link: LinkView, min_speed: u16)
    ensures
        degradation(link, min_speed) is Some <==> {
            ||| link.tx_mbps + link.rx_mbps < 2
            ||| link.tx_mbps + link.rx_mbps < 2 * min_speed
            ||| link.tx_mbps + link.rx_mbps < 4 * min_speed && (link.tx_signal == "SISO"@
                || link.tx_signal == "SISO2"@ || link.tx_signal == "SisoOnly"@)
        },
{
}

/// A further link is reported, behind the others and with its own ends, rate and
/// signal, exactly if it is degraded.
pub proof fn law_degraded_links_are_reported(
    links: Seq<LinkView>,
    link: LinkView,
    min_speed: u16,
)
    ensures
        degradation(link, min_speed) is None ==> degraded_among(links.push(link), min_speed)
            == degraded_among(links, min_speed),
        degradation(link, min_speed) is Some ==> {
            let before = degraded_among(links, min_speed);
            let now = degraded_among(links.push(link), min_speed);
            &&& now.len() == before.len() + 1
            &&& now.take(before.len() as int) == before
            &&& now.last().from == mac_text(link.from)
            &&& now.last().to == mac_text(link.to)
            &&& 2 * now.last().avg_mbps <= link.tx_mbps + link.rx_mbps < 2 * now.last().avg_mbps + 2
            &&& now.last().tx_signal == link.tx_signal
            &&& Some(now.last().reason) == degradation(link, min_speed)
        },
        degraded_among(Seq::empty(), min_speed).len() == 0,
{
    assert(links.push(link).drop_last() == links);
    let before = degraded_among(links, min_speed);
    let now = degraded_among(links.push(link), min_speed);
    assert(now.take(before.len() as int) =~= before);
}

/// An address is local exactly if a device of the list has it and is local.
pub proof fn law_local_addresses(devices: Seq<DeviceView>, mac: MacAddr)
    ensures
        local_addresses(devices).contains(mac) <==> exists|i: int|
            0 <= i < devices.len() && (#[trigger] devices[i]).is_local && devices[i].mac == mac,
    decreases devices.len(),
{
    if devices.len() > 0 {
        let init = devices.drop_last();
        let last = devices.last();
        law_local_addresses(init, mac);
        assert(last == devices[devices.len() - 1]);
        if last.is_local {
            lemma_push_contains(local_addresses(init), last.mac, mac);
        }
        if local_addresses(init).contains(mac) {
            let i = choose|i: int|
                0 <= i < init.len() && (#[trigger] init[i]).is_local && init[i].mac == mac;
            assert(devices[i] == init[i]);
        }
        if exists|i: int|
            0 <= i < devices.len() && (#[trigger] devices[i]).is_local && devices[i].mac == mac {
            let i = choose|i: int|
                0 <= i < devices.len() && (#[trigger] devices[i]).is_local && devices[i].mac
                    == mac;
            if i < init.len() {
                assert(init[i] == devices[i]);
            }
        }
    }
}

/// The adapters that a check considers for a restart are the ends of degraded links
/// that are not local, each once.
pub proof fn law_check_considers_remote_ends(scan: ScanView, min_speed: u16, mac: MacAddr)
    ensures
        candidates_in(scan, min_speed).no_duplicates(),
        candidates_in(scan, min_speed).contains(mac) <==> {
            &&& exists|i: int|
                0 <= i < scan.links.len() && degradation(#[trigger] scan.links[i], min_speed) is Some
                    && (scan.links[i].from == mac || scan.links[i].to == mac)
            &&& forall|i: int|
                0 <= i < scan.devices.len() && (#[trigger] scan.devices[i]).is_local
                    ==> scan.devices[i].mac != mac
        },
{
    law_candidates(scan.links, min_speed, local_addresses(scan.devices), mac);
    law_local_addresses(scan.devices, mac);
}

/// A check restarts exactly the remote ends of degraded links that it remembers
/// nothing of or whose cooldown has passed, each once.
pub proof fn law_check_restarts(
    scan: ScanView,
    state: Map<Seq<char>, AdapterState>,
    min_speed: u16,
    now: i64,
    base_mins: u64,
    mac: MacAddr,
)
    ensures
        ({
            let memory = kept(state, degraded_among(scan.links, min_speed));
            let targets = due(candidates_in(scan, min_speed), memory, now, base_mins);
            &&& targets.no_duplicates()
            &&& targets.contains(mac) <==> {
                &&& exists|i: int|
                    0 <= i < scan.links.len() && degradation(
                        #[trigger] scan.links[i],
                        min_speed,
                    ) is Some && (scan.links[i].from == mac || scan.links[i].to == mac)
                &&& forall|i: int|
                    0 <= i < scan.devices.len() && (#[trigger] scan.devices[i]).is_local
                        ==> scan.devices[i].mac != mac
                &&& state.dom().contains(mac_text(mac)) ==> now >= state[mac_text(
                    mac,
                )].last_restart_epoch + cooldown(
                    base_mins,
                    state[mac_text(mac)].consecutive_failures,
                )
            }
        }),
{
    let memory = kept(state, degraded_among(scan.links, min_speed));
    let candidates = candidates_in(scan, min_speed);
    let any = Backoff { mac, failures: 0, next_in_mins: 0 };
    law_check_considers_remote_ends(scan, min_speed, mac);
    law_due_or_waiting(candidates, memory, now, base_mins, mac, any);
    law_recovery_clears_history(state, scan.links, min_speed, mac);
    lemma_due_once(candidates, memory, now, base_mins);
}

proof fn lemma_due_once(
    candidates: Seq<MacAddr>,
    state: Map<Seq<char>, AdapterState>,
    now: i64,
    base_mins: u64,
)
    requires
        candidates.no_duplicates(),
    ensures
        due(candidates, state, now, base_mins).no_duplicates(),
    decreases candidates.len(),
{
    if candidates.len() > 0 {
        let init = candidates.drop_last();
        let last = candidates.last();
        assert forall|i: int, j: int|
            0 <= i < init.len() && 0 <= j < init.len() && i != j implies init[i] != init[j] by {
            assert(candidates[i] != candidates[j]);
        }
        lemma_due_once(init, state, now, base_mins);
        let before = due(init, state, now, base_mins);
        let any = Backoff { mac: last, failures: 0, next_in_mins: 0 };
        law_due_or_waiting(init, state, now, base_mins, last, any);
        if init.contains(last) {
            let k = choose|k: int| 0 <= k < init.len() && init[k] == last;
            assert(candidates[k] == candidates[candidates.len() - 1]);
        }
        let next = before.push(last);
        assert forall|i: int, j: int|
            0 <= i < next.len() && 0 <= j < next.len() && i != j implies next[i] != next[j] by {
            if i < before.len() && j < before.len() {
                assert(before[i] != before[j]);
            } else if i < before.len() {
                assert(before.contains(before[i]));
            } else {
                assert(before.contains(before[j]));
            }
        }
    }
}

/// An adapter has to wait exactly while its cooldown lasts, counted from its last
/// restart; how long is told in whole minutes, with the restarts that did not help.
pub proof fn law_wait(
    mac: MacAddr,
    state: Map<Seq<char>, AdapterState>,
    now: i64,
    base_mins: u64,
)
    ensures
        backoff_of(mac, state, now, base_mins) is Some <==> state.dom().contains(mac_text(mac))
            && now < state[mac_text(mac)].last_restart_epoch + cooldown(
            base_mins,
            state[mac_text(mac)].consecutive_failures,
        ),
        backoff_of(mac, state, now, base_mins) matches Some(wait) ==> {
            let st = state[mac_text(mac)];
            let left = st.last_restart_epoch + cooldown(base_mins, st.consecutive_failures) - now;
            &&& wait.mac == mac
            &&& wait.failures == st.consecutive_failures
            &&& left <= u64::MAX ==> 60 * wait.next_in_mins <= left < 60 * wait.next_in_mins + 60
        },
{
}

/// A restart is remembered with its time and counts as one more failure.
pub proof fn law_restart_is_remembered(
    state: Map<Seq<char>, AdapterState>,
    mac: MacAddr,
    now: i64,
)
    requires
        state.dom().contains(mac_text(mac)) ==> state[mac_text(mac)].consecutive_failures
            < u32::MAX,
    ensures
        recorded(state, mac, now).dom() == state.dom().insert(mac_text(mac)),
        recorded(state, mac, now)[mac_text(mac)].last_restart_epoch == now,
        state.dom().contains(mac_text(mac)) ==> recorded(state, mac, now)[mac_text(
            mac,
        )].consecutive_failures == state[mac_text(mac)].consecutive_failures + 1,
        !state.dom().contains(mac_text(mac)) ==> recorded(state, mac, now)[mac_text(
            mac,
        )].consecutive_failures == 1,
{
}

/// The exit status is 1 where there are no devices, 2 where a link is degraded, and 0
/// otherwise.
pub proof fn law_exit_codes(devices: nat, degraded: nat)
    ensures
        status_of(devices, degraded) == 1 <==> devices == 0,
        status_of(devices, degraded) == 2 <==> devices > 0 && degraded > 0,
        status_of(devices, degraded) == 0 <==> devices > 0 && degraded == 0,
{
}

/// A check can be carried out wherever twice the minimum speed is a rate and every
/// restart that is remembered lies within a span of years before or after now: a plan
/// is owed then.
pub proof fn law_check_can_be_planned(
    scan: ScanView,
    state: Map<Seq<char>, AdapterState>,
    min_speed: u16,
    do_restart: bool,
    base_mins: u64,
    now: i64,
)
    requires
        min_speed <= 32_767,
        do_restart ==> forall|key: Seq<char>| #[trigger]
            state.dom().contains(key) ==> -0x4000_0000_0000_0000 <= now
                - state[key].last_restart_epoch <= 0x4000_0000_0000_0000,
    ensures
        check_fits(scan, state, min_speed, do_restart, base_mins, now),
{
    let memory = kept(state, degraded_among(scan.links, min_speed));
    let candidates = candidates_in(scan, min_speed);
    assert forall|i: int| 0 <= i < scan.links.len() implies doubling_fits(
        #[trigger] scan.links[i],
        min_speed,
    ) by {}
    if do_restart {
        assert forall|i: int| 0 <= i < candidates.len() implies match memory.get(
            mac_text(#[trigger] candidates[i]),
        ) {
            Some(st) => times_fit(st, now, base_mins),
            None => true,
        } by {
            let key = mac_text(candidates[i]);
            if let Some(st) = memory.get(key) {
                assert(state.dom().contains(key) && state[key] == st);
                law_cooldown_grows(base_mins, st.consecutive_failures, st.consecutive_failures);
            }
        }
    }
}

/// A check cannot be carried out only where a single-stream link would have to be held
/// against more than a rate can be, or, with restarts, a time is out of all bounds.
pub proof fn law_check_without_restarts(
    scan: ScanView,
    state: Map<Seq<char>, AdapterState>,
    min_speed: u16,
    base_mins: u64,
    now: i64,
)
    ensures
        check_fits(scan, state, min_speed, false, base_mins, now) <==> min_speed <= 32_767
            || forall|i: int|
            0 <= i < scan.links.len() ==> (#[trigger] scan.links[i]).tx_mbps
                + scan.links[i].rx_mbps < 2 * min_speed || !(scan.links[i].tx_signal == "SISO"@
                || scan.links[i].tx_signal == "SISO2"@ || scan.links[i].tx_signal == "SisoOnly"@),
{
    if min_speed > 32_767 {
        assert forall|i: int| 0 <= i < scan.links.len() implies (doubling_fits(
            #[trigger] scan.links[i],
            min_speed,
        ) <==> scan.links[i].tx_mbps + scan.links[i].rx_mbps < 2 * min_speed || !is_siso_name(
            scan.links[i].tx_signal,
        )) by {}
        if check_fits(scan, state, min_speed, false, base_mins, now) {
            assert forall|i: int| 0 <= i < scan.links.len() implies (
            #[trigger] scan.links[i]).tx_mbps + scan.links[i].rx_mbps < 2 * min_speed
                || !is_siso_name(scan.links[i].tx_signal) by {
                assert(doubling_fits(scan.links[i], min_speed));
            }
        }
    }
}

}
