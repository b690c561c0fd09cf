//! Health check: which links are degraded, which adapters to restart, and how long
//! to hold off from an adapter that restarts have not helped.

pub mod candidates;
pub mod degraded;
pub mod laws;
pub mod report;
pub mod state;

use crate::protocol::{mac_text, MacAddr};
use crate::types::{NetworkScan, ScanView};
use candidates::{
    all_times_fit, candidates_of, check_times, due, local_addresses, local_macs, plan_restarts,
    restart_candidates, withheld, Backoff,
};
use degraded::{
    all_doublings_fit, degradation, degraded_among, degraded_views, doubling_fits, find_degraded,
    DegradedLink,
};
use laws::law_check_restarts;
use state::{cooldown, kept, AdapterState, CheckState};
use vstd::prelude::*;

verus! {

/// Exit codes of a check (cron/init-script friendly).
pub const EXIT_HEALTHY: i32 = 0;

pub const EXIT_ERROR: i32 = 1;

pub const EXIT_DEGRADED: i32 = 2;

/// What a check has found and what it is going to do.
pub struct CheckPlan {
    pub degraded: Vec<DegradedLink>,
    pub targets: Vec<MacAddr>,
    pub in_backoff: Vec<Backoff>,
}

/// The adapters that a check of `scan` considers for a restart.
pub open spec fn candidates_in(scan: ScanView, min_speed: u16) -> Seq<MacAddr> {
    candidates_of(degraded_among(scan.links, min_speed), local_addresses(scan.devices))
}

/// No number in a check of `scan` outgrows its type.
pub open spec fn check_fits(
    scan: ScanView,
    state: Map<Seq<char>, AdapterState>,
    min_speed: u16,
    do_restart: bool,
    base_mins: u64,
    now: i64,
) -> bool {
    &&& forall|i: int|
        0 <= i < scan.links.len() ==> doubling_fits(#[trigger] scan.links[i], min_speed)
    &&& do_restart ==> all_times_fit(
        candidates_in(scan, min_speed),
        kept(state, degraded_among(scan.links, min_speed)),
        now,
        base_mins,
    )
}

/// Plan a check: find the degraded links of `scan`, forget the adapters that have
/// recovered and, if restarts are wanted, part the remote ends of degraded links
/// into those to restart now and those that have to wait. `None` where a number
/// would outgrow its type; nothing is forgotten in this case.
pub fn plan_check(
    scan: &NetworkScan,
    state: &mut CheckState,
    min_speed: u16,
    do_restart: bool,
    base_mins: u64,
    now: i64,
) -> (r: Option<CheckPlan>)
    ensures
        r is Some == check_fits(scan@, old(state)@, min_speed, do_restart, base_mins, now),
        match r {
            Some(plan) => {
                let degraded = degraded_among(scan@.links, min_speed);
                let candidates = candidates_in(scan@, min_speed);
                &&& degraded_views(plan.degraded@) == degraded
                &&& final(state)@ == kept(old(state)@, degraded)
                &&& plan.targets@ == if do_restart {
                    due(candidates, final(state)@, now, base_mins)
                } else {
                    Seq::empty()
                }
                &&& plan.in_backoff@ == if do_restart {
                    withheld(candidates, final(state)@, now, base_mins)
                } else {
                    Seq::empty()
                }
                &&& do_restart ==> forall|mac: MacAddr| #[trigger]
                    plan.targets@.contains(mac) <==> {
                        &&& exists|i: int|
                            0 <= i < scan@.links.len() && degradation(
                                #[trigger] scan@.links[i],
                                min_speed,
                            ) is Some && (scan@.links[i].from == mac || scan@.links[i].to == mac)
                        &&& forall|i: int|
                            0 <= i < scan@.devices.len() && (#[trigger] scan@.devices[i]).is_local
                                ==> scan@.devices[i].mac != mac
                        &&& old(state)@.dom().contains(mac_text(mac)) ==> now >= old(
                            state,
                        )@[mac_text(mac)].last_restart_epoch + cooldown(
                            base_mins,
                            old(state)@[mac_text(mac)].consecutive_failures,
                        )
                    }
            },
            None => final(state)@ == old(state)@,
        },
{
    let ghost links = scan@.links;
    if !all_doublings_fit(&scan.links, min_speed) {
        proof {
            let i = choose|i: int|
                0 <= i < scan.links@.len() && !doubling_fits(#[trigger] scan.links@[i]@, min_speed);
            assert(links[i] == scan.links@[i]@);
        }
        return None;
    }
    assert forall|i: int| 0 <= i < links.len() implies doubling_fits(
        #[trigger] links[i],
        min_speed,
    ) by {
        assert(links[i] == scan.links@[i]@);
    }
    let degraded = find_degraded(&scan.links, min_speed);
    let mut next = state.copy();
    next.retain_degraded(&degraded);
    let mut plan = CheckPlan { degraded, targets: Vec::new(), in_backoff: Vec::new() };
    if do_restart {
        let local = local_macs(&scan.devices);
        let candidates = restart_candidates(&plan.degraded, &local);
        if !check_times(&candidates, &next, now, base_mins) {
            return None;
        }
        let (targets, in_backoff) = plan_restarts(&candidates, &next, now, base_mins);
        plan.targets = targets;
        plan.in_backoff = in_backoff;
    }
    proof {
        if do_restart {
            assert forall|mac: MacAddr| #[trigger] plan.targets@.contains(mac) <==> {
                &&& exists|i: int|
                    0 <= i < scan@.links.len() && degradation(
                        #[trigger] scan@.links[i],
                        min_speed,
                    ) is Some && (scan@.links[i].from == mac || scan@.links[i].to == mac)
                &&& forall|i: int|
                    0 <= i < scan@.devices.len() && (#[trigger] scan@.devices[i]).is_local
                        ==> scan@.devices[i].mac != mac
                &&& old(state)@.dom().contains(mac_text(mac)) ==> now >= old(state)@[mac_text(
                    mac,
                )].last_restart_epoch + cooldown(
                    base_mins,
                    old(state)@[mac_text(mac)].consecutive_failures,
                )
            } by {
                law_check_restarts(scan@, old(state)@, min_speed, now, base_mins, mac);
            }
        }
    }
    *state = next;
    Some(plan)
}

/// The failures that are remembered of an adapter.
pub open spec fn failures_of(state: Map<Seq<char>, AdapterState>, mac: MacAddr) -> u32 {
    match state.get(mac_text(mac)) {
        Some(st) => st.consecutive_failures,
        None => 0,
    }
}

/// What is remembered after `mac` was restarted at `now`.
pub open spec fn recorded(
    state: Map<Seq<char>, AdapterState>,
    mac: MacAddr,
    now: i64,
) -> Map<Seq<char>, AdapterState> {
    state.insert(
        mac_text(mac),
        AdapterState {
            last_restart_epoch: now,
            consecutive_failures: (failures_of(state, mac) + 1) as u32,
        },
    )
}

/// Record a restart, so that the next check applies backoff if it did not help.
/// Returns `false`, and records nothing, where the failures cannot be counted on.
pub fn record_restart(state: &mut CheckState, mac: MacAddr, now: i64) -> (r: bool)
    ensures
        r == (failures_of(old(state)@, mac) < u32::MAX),
        final(state)@ == if r {
            recorded(old(state)@, mac, now)
        } else {
            old(state)@
        },
{
    let key = mac.to_string();
    let failures = match state.get(key.as_str()) {
        Some(st) => st.consecutive_failures,
        None => 0,
    };
    if failures == u32::MAX {
        return false;
    }
    state.set(
        key.as_str(),
        AdapterState { last_restart_epoch: now, consecutive_failures: failures + 1 },
    );
    true
}

/// The exit code of a check that was carried out.
pub fn exit_code(healthy: bool) -> (r: i32)
    ensures
        r == if healthy {
            EXIT_HEALTHY
        } else {
            EXIT_DEGRADED
        },
{
    if healthy {
        EXIT_HEALTHY
    } else {
        EXIT_DEGRADED
    }
}

/// The exit status of a check: an error where there are no devices, else whether a
/// link is degraded.
pub open spec fn status_of(devices: nat, degraded: nat) -> i32 {
    if devices == 0 {
        EXIT_ERROR
    } else if degraded == 0 {
        EXIT_HEALTHY
    } else {
        EXIT_DEGRADED
    }
}

/// Choose the exit status of a check that found so many devices, and so many degraded
/// links.
pub fn check_status(devices: usize, degraded: usize) -> (r: i32)
    ensures
        r == status_of(devices as nat, degraded as nat),
{
    if devices == 0 {
        EXIT_ERROR
    } else {
        exit_code(degraded == 0)
    }
}

}
