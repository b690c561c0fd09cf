//! Which adapters to restart, and which to hold off from.

use super::degraded::{degraded_views, DegradedLink, DegradedView};
use super::state::{cooldown, cooldown_secs, AdapterState, CheckState};
use crate::net::{mac_of_text, parse_mac};
use crate::protocol::broadcom::holds_mac;
use crate::protocol::{mac_text, MacAddr};
use crate::types::{device_views, Device, DeviceView};
use vstd::prelude::*;
use vstd::string::*;

verus! {

/// The addresses of the local adapters.
pub open spec fn local_addresses(devices: Seq<DeviceView>) -> Seq<MacAddr>
    decreases devices.len(),
{
    if devices.len() == 0 {
        Seq::empty()
    } else {
        let before = local_addresses(devices.drop_last());
        if devices.last().is_local {
            before.push(devices.last().mac)
        } else {
            before
        }
    }
}

/// `candidates`, with the adapter that `text` writes added if it is remote and new.
pub open spec fn with_candidate(
    candidates: Seq<MacAddr>,
    text: Seq<char>,
    local: Seq<MacAddr>,
) -> Seq<MacAddr> {
    match mac_of_text(text) {
        Some(mac) => if local.contains(mac) || candidates.contains(mac) {
            candidates
        } else {
            candidates.push(mac)
        },
        None => candidates,
    }
}

/// The remote ends of degraded links, each once.
pub open spec fn candidates_of(degraded: Seq<DegradedView>, local: Seq<MacAddr>) -> Seq<MacAddr>
    decreases degraded.len(),
{
    if degraded.len() == 0 {
        Seq::empty()
    } else {
        let before = candidates_of(degraded.drop_last(), local);
        with_candidate(
            with_candidate(before, degraded.last().to, local),
            degraded.last().from,
            local,
        )
    }
}

/// List the addresses of the local adapters.
pub fn local_macs(devices: &Vec<Device>) -> (r: Vec<MacAddr>)
    ensures
        r@ == local_addresses(device_views(devices@)),
{
    let mut local: Vec<MacAddr> = Vec::new();
    let ghost all = device_views(devices@);
    let mut i: usize = 0;
    assert(all.take(0).len() == 0);
    while i < devices.len()
        invariant
            i <= devices.len(),
            all == device_views(devices@),
            local@ == local_addresses(all.take(i as int)),
        decreases devices.len() - i,
    {
        assert(all.take(i + 1).drop_last() == all.take(i as int));
        assert(all.take(i + 1).last() == devices@[i as int]@);
        if devices[i].is_local {
            local.push(devices[i].mac);
        }
        i += 1;
    }
    assert(all.take(i as int) == all);
    local
}

fn add_candidate(candidates: &mut Vec<MacAddr>, text: &str, local: &Vec<MacAddr>)
    ensures
        final(candidates)@ == with_candidate(old(candidates)@, text@, local@),
{
    if let Some(mac) = parse_mac(text) {
        if !holds_mac(local, mac) && !holds_mac(candidates, mac) {
            candidates.push(mac);
        }
    }
}

/// Collect the remote adapters at the ends of degraded links.
pub fn restart_candidates(degraded: &Vec<DegradedLink>, local: &Vec<MacAddr>) -> (r: Vec<MacAddr>)
    ensures
        r@ == candidates_of(degraded_views(degraded@), local@),
{
    let mut candidates: Vec<MacAddr> = Vec::new();
    let ghost all = degraded_views(degraded@);
    let mut i: usize = 0;
    assert(all.take(0).len() == 0);
    while i < degraded.len()
        invariant
            i <= degraded.len(),
            all == degraded_views(degraded@),
            candidates@ == candidates_of(all.take(i as int), local@),
        decreases degraded.len() - i,
    {
        assert(all.take(i + 1).drop_last() == all.take(i as int));
        assert(all.take(i + 1).last() == degraded@[i as int]@);
        add_candidate(&mut candidates, degraded[i].to.as_str(), local);
        add_candidate(&mut candidates, degraded[i].from.as_str(), local);
        i += 1;
    }
    assert(all.take(i as int) == all);
    candidates
}

/// Seconds until an adapter may be restarted again; none are left once its cooldown
/// has passed.
pub open spec fn secs_left(st: AdapterState, now: i64, base_mins: u64) -> int {
    cooldown(base_mins, st.consecutive_failures) - (now - st.last_restart_epoch)
}

/// The times are near enough to each other to be told apart in 64 bits.
pub open spec fn times_fit(st: AdapterState, now: i64, base_mins: u64) -> bool {
    &&& i64::MIN <= now - st.last_restart_epoch <= i64::MAX
    &&& secs_left(st, now, base_mins) <= i64::MAX
}

/// An adapter that is not restarted yet because earlier restarts did not help.
#[derive(Debug, Clone, Copy)]
pub struct Backoff {
    pub mac: MacAddr,
    pub failures: u32,
    pub next_in_mins: u64,
}

/// The wait that `mac` has before it, if it has one.
pub open spec fn backoff_of(
    mac: MacAddr,
    state: Map<Seq<char>, AdapterState>,
    now: i64,
    base_mins: u64,
) -> Option<Backoff> {
    match state.get(mac_text(mac)) {
        Some(st) => {
            let left = secs_left(st, now, base_mins);
            if left > 0 {
                Some(
                    Backoff {
                        mac,
                        failures: st.consecutive_failures,
                        next_in_mins: (left / 60) as u64,
                    },
                )
            } else {
                None
            }
        },
        None => None,
    }
}

/// The candidates to restart now, in their order.
pub open spec fn due(
    candidates: Seq<MacAddr>,
    state: Map<Seq<char>, AdapterState>,
    now: i64,
    base_mins: u64,
) -> Seq<MacAddr>
    decreases candidates.len(),
{
    if candidates.len() == 0 {
        Seq::empty()
    } else {
        let before = due(candidates.drop_last(), state, now, base_mins);
        match backoff_of(candidates.last(), state, now, base_mins) {
            Some(_) => before,
            None => before.push(candidates.last()),
        }
    }
}

/// The candidates that have to wait, in their order.
pub open spec fn withheld(
    candidates: Seq<MacAddr>,
    state: Map<Seq<char>, AdapterState>,
    now: i64,
    base_mins: u64,
) -> Seq<Backoff>
    decreases candidates.len(),
{
    if candidates.len() == 0 {
        Seq::empty()
    } else {
        let before = withheld(candidates.drop_last(), state, now, base_mins);
        match backoff_of(candidates.last(), state, now, base_mins) {
            Some(b) => before.push(b),
            None => before,
        }
    }
}

/// The times of all candidates that are remembered fit.
pub open spec fn all_times_fit(
    candidates: Seq<MacAddr>,
    state: Map<Seq<char>, AdapterState>,
    now: i64,
    base_mins: u64,
) -> bool {
    forall|i: int|
        0 <= i < candidates.len() ==> match state.get(mac_text(#[trigger] candidates[i])) {
            Some(st) => times_fit(st, now, base_mins),
            None => true,
        }
}

/// Tell how long an adapter has to wait for its next restart, if it has to.
pub fn backoff(mac: MacAddr, state: &CheckState, now: i64, base_mins: u64) -> (r: Option<Backoff>)
    requires
        match state@.get(mac_text(mac)) {
            Some(st) => times_fit(st, now, base_mins),
            None => true,
        },
    ensures
        r == backoff_of(mac, state@, now, base_mins),
{
    let key = mac.to_string();
    match state.get(key.as_str()) {
        Some(st) => {
            let cd = cooldown_secs(base_mins, st.consecutive_failures);
            let elapsed = now - st.last_restart_epoch;
            if elapsed < cd {
                let next_in_mins = (cd - elapsed) as u64 / 60;
                Some(Backoff { mac, failures: st.consecutive_failures, next_in_mins })
            } else {
                None
            }
        },
        None => None,
    }
}

/// Test whether the times of all candidates fit.
pub fn check_times(
    candidates: &Vec<MacAddr>,
    state: &CheckState,
    now: i64,
    base_mins: u64,
) -> (r: bool)
    ensures
        r == all_times_fit(candidates@, state@, now, base_mins),
{
    let mut i: usize = 0;
    while i < candidates.len()
        invariant
            i <= candidates.len(),
            forall|k: int|
                0 <= k < i ==> match state@.get(mac_text(#[trigger] candidates@[k])) {
                    Some(st) => times_fit(st, now, base_mins),
                    None => true,
                },
        decreases candidates.len() - i,
    {
        let key = candidates[i].to_string();
        if let Some(st) = state.get(key.as_str()) {
            let elapsed = now as i128 - st.last_restart_epoch as i128;
            let left = cooldown_secs(base_mins, st.consecutive_failures) as i128 - elapsed;
            if elapsed < i64::MIN as i128 || elapsed > i64::MAX as i128 || left > i64::MAX as i128 {
                assert(!times_fit(st, now, base_mins));
                assert(state@.get(mac_text(candidates@[i as int])) == Some(st));
                return false;
            }
        }
        i += 1;
    }
    true
}

/// Part the candidates into those to restart now and those that have to wait. Every
/// restart disrupts the devices behind the adapter, so an adapter that stays
/// degraded earns exponentially longer cooldowns.
pub fn plan_restarts(
    candidates: &Vec<MacAddr>,
    state: &CheckState,
    now: i64,
    base_mins: u64,
) -> (r: (Vec<MacAddr>, Vec<Backoff>))
    requires
        all_times_fit(candidates@, state@, now, base_mins),
    ensures
        r.0@ == due(candidates@, state@, now, base_mins),
        r.1@ == withheld(candidates@, state@, now, base_mins),
{
    let mut targets: Vec<MacAddr> = Vec::new();
    let mut waiting: Vec<Backoff> = Vec::new();
    let ghost all = candidates@;
    let mut i: usize = 0;
    assert(all.take(0).len() == 0);
    while i < candidates.len()
        invariant
            i <= candidates.len(),
            all == candidates@,
            all_times_fit(candidates@, state@, now, base_mins),
            targets@ == due(all.take(i as int), state@, now, base_mins),
            waiting@ == withheld(all.take(i as int), state@, now, base_mins),
        decreases candidates.len() - i,
    {
        assert(all.take(i + 1).drop_last() == all.take(i as int));
        let mac = candidates[i];
        assert(mac == candidates@[i as int]);
        match backoff(mac, state, now, base_mins) {
            Some(b) => waiting.push(b),
            None => targets.push(mac),
        }
        i += 1;
    }
    assert(all.take(i as int) == all);
    (targets, waiting)
}

}
