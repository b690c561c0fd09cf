//! What is remembered of restarted adapters, and how long to hold off from them.

use super::degraded::{degraded_views, DegradedLink, DegradedView};
use crate::text::same_text;
use vstd::prelude::*;
use vstd::string::*;

verus! {

/// No adapter is held off for longer than a day.
pub const MAX_COOLDOWN_MINS: u64 = 1440;

/// `mins`, doubled `n` times.
pub open spec fn doubled(mins: nat, n: nat) -> nat
    decreases n,
{
    if n == 0 {
        mins
    } else {
        2 * doubled(mins, (n - 1) as nat)
    }
}

/// Seconds to hold off from an adapter: the base after the first failed restart,
/// twice as long after each further one, at most a day.
pub open spec fn cooldown(base_mins: u64, failures: u32) -> int {
    let mins = doubled(
        base_mins as nat,
        if failures == 0 {
            0
        } else {
            (failures - 1) as nat
        },
    );
    60 * if mins < MAX_COOLDOWN_MINS {
        mins as int
    } else {
        MAX_COOLDOWN_MINS as int
    }
}

proof fn lemma_doubled_grows(mins: nat, n: nat, m: nat)
    requires
        n <= m,
    ensures
        doubled(mins, n) <= doubled(mins, m),
    decreases m,
{
    if n < m {
        lemma_doubled_grows(mins, n, (m - 1) as nat);
    }
}

proof fn lemma_doubled_zero(n: nat)
    ensures
        doubled(0, n) == 0,
    decreases n,
{
    if n > 0 {
        lemma_doubled_zero((n - 1) as nat);
    }
}

/// Cooldown for an adapter: base after the first failed restart, doubling for
/// each further failure (1h, 2h, 4h, ...), capped at 24h.
pub fn cooldown_secs(base_mins: u64, failures: u32) -> (r: i64)
    ensures
        r == cooldown(base_mins, failures),
{
    if base_mins == 0 {
        proof {
            lemma_doubled_zero(
                if failures == 0 {
                    0
                } else {
                    (failures - 1) as nat
                },
            );
        }
        return 0;
    }
    let times: u32 = failures.saturating_sub(1);
    let mut mins: u64 = base_mins;
    let mut i: u32 = 0;
    while i < times && mins < MAX_COOLDOWN_MINS
        invariant
            i <= times,
            mins == doubled(base_mins as nat, i as nat),
        decreases times - i,
    {
        mins = 2 * mins;
        i += 1;
    }
    proof {
        lemma_doubled_grows(base_mins as nat, i as nat, times as nat);
    }
    let capped: u64 = if mins < MAX_COOLDOWN_MINS {
        mins
    } else {
        MAX_COOLDOWN_MINS
    };
    (capped * 60) as i64
}

/// What is remembered of an adapter that was restarted.
#[derive(Debug, Clone, Copy)]
pub struct AdapterState {
    /// Unix epoch seconds of the last restart sent.
    pub last_restart_epoch: i64,
    /// Restarts sent without the link ever returning to healthy.
    pub consecutive_failures: u32,
}

/// Per-adapter restart tracking, kept between check runs so that an adapter whose
/// link never recovers (physical-layer problem) is not restarted over and over.
pub struct CheckState {
    adapters: Vec<(String, AdapterState)>,
}

/// The entries as a map.
pub open spec fn adapter_map(entries: Seq<(String, AdapterState)>) -> Map<Seq<char>, AdapterState>
    decreases entries.len(),
{
    if entries.len() == 0 {
        Map::empty()
    } else {
        adapter_map(entries.drop_last()).insert(entries.last().0@, entries.last().1)
    }
}

/// No two entries are for one adapter.
pub open spec fn distinct_adapters(entries: Seq<(String, AdapterState)>) -> bool {
    forall|i: int, j: int|
        0 <= i < j < entries.len() ==> (#[trigger] entries[i]).0@ != (#[trigger] entries[j]).0@
}

/// The map has the keys of the entries, and no others.
proof fn lemma_adapter_keys(entries: Seq<(String, AdapterState)>, key: Seq<char>)
    ensures
        adapter_map(entries).dom().contains(key) <==> exists|i: int|
            0 <= i < entries.len() && (#[trigger] entries[i]).0@ == key,
    decreases entries.len(),
{
    if entries.len() > 0 {
        let init = entries.drop_last();
        lemma_adapter_keys(init, key);
        if entries.last().0@ == key {
            assert(entries[entries.len() - 1].0@ == key);
        }
        if exists|i: int| 0 <= i < init.len() && (#[trigger] init[i]).0@ == key {
            let i = choose|i: int| 0 <= i < init.len() && (#[trigger] init[i]).0@ == key;
            assert(entries[i].0@ == key);
        }
        if exists|i: int| 0 <= i < entries.len() && (#[trigger] entries[i]).0@ == key {
            let i = choose|i: int| 0 <= i < entries.len() && (#[trigger] entries[i]).0@ == key;
            if i < init.len() {
                assert(init[i].0@ == key);
            }
        }
    }
}

/// The map holds what the one entry for an adapter says.
proof fn lemma_adapter_entry(entries: Seq<(String, AdapterState)>, i: int)
    requires
        distinct_adapters(entries),
        0 <= i < entries.len(),
    ensures
        adapter_map(entries).dom().contains(entries[i].0@),
        adapter_map(entries)[entries[i].0@] == entries[i].1,
    decreases entries.len(),
{
    if i < entries.len() - 1 {
        let init = entries.drop_last();
        assert forall|a: int, b: int| 0 <= a < b < init.len() implies (#[trigger] init[a]).0@ != (
        #[trigger] init[b]).0@ by {
            assert(entries[a].0@ != entries[b].0@);
        }
        lemma_adapter_entry(init, i);
        assert(entries[i].0@ != entries[entries.len() - 1].0@);
    }
}

/// Another entry for the same adapter changes what the map holds of that adapter.
proof fn lemma_adapter_update(
    entries: Seq<(String, AdapterState)>,
    i: int,
    e: (String, AdapterState),
)
    requires
        distinct_adapters(entries),
        0 <= i < entries.len(),
        entries[i].0@ == e.0@,
    ensures
        adapter_map(entries.update(i, e)) == adapter_map(entries).insert(e.0@, e.1),
    decreases entries.len(),
{
    let changed = entries.update(i, e);
    let init = entries.drop_last();
    if i < entries.len() - 1 {
        assert forall|a: int, b: int| 0 <= a < b < init.len() implies (#[trigger] init[a]).0@ != (
        #[trigger] init[b]).0@ by {
            assert(entries[a].0@ != entries[b].0@);
        }
        lemma_adapter_update(init, i, e);
        assert(changed.drop_last() == init.update(i, e));
        assert(entries[i].0@ != entries[entries.len() - 1].0@);
        assert(adapter_map(changed) == adapter_map(entries).insert(e.0@, e.1));
    } else {
        assert(changed.drop_last() == init);
        assert(adapter_map(changed) == adapter_map(entries).insert(e.0@, e.1));
    }
}

impl View for CheckState {
    type V = Map<Seq<char>, AdapterState>;

    closed spec fn view(&self) -> Map<Seq<char>, AdapterState> {
        adapter_map(self.adapters@)
    }
}

impl CheckState {
    #[verifier::type_invariant]
    spec fn inv(self) -> bool {
        distinct_adapters(self.adapters@)
    }

    /// Nothing is remembered.
    pub fn new() -> (r: Self)
        ensures
            r@ == Map::<Seq<char>, AdapterState>::empty(),
    {
        CheckState { adapters: Vec::new() }
    }

    /// What is remembered, one entry for each adapter.
    pub fn entries(&self) -> (r: &Vec<(String, AdapterState)>)
        ensures
            adapter_map(r@) == self@,
            distinct_adapters(r@),
    {
        proof {
            use_type_invariant(self);
        }
        &self.adapters
    }

    /// The same memory once more.
    pub fn copy(&self) -> (r: Self)
        ensures
            r@ == self@,
    {
        proof {
            use_type_invariant(self);
        }
        let ghost all = self.adapters@;
        let mut list: Vec<(String, AdapterState)> = Vec::new();
        let mut i: usize = 0;
        assert(all.take(0).len() == 0);
        while i < self.adapters.len()
            invariant
                i <= self.adapters.len(),
                all == self.adapters@,
                distinct_adapters(all),
                list@.len() == i,
                forall|k: int| 0 <= k < i ==> (#[trigger] list@[k]).0@ == all[k].0@,
                adapter_map(list@) == adapter_map(all.take(i as int)),
            decreases self.adapters.len() - i,
        {
            let e = &self.adapters[i];
            let ghost before = list@;
            list.push((String::from_str(e.0.as_str()), e.1));
            assert(list@.drop_last() == before);
            assert(all.take(i + 1).drop_last() == all.take(i as int));
            i += 1;
        }
        assert(all.take(i as int) == all);
        assert forall|a: int, b: int| 0 <= a < b < list@.len() implies (#[trigger] list@[a]).0@ != (
        #[trigger] list@[b]).0@ by {
            assert(all[a].0@ != all[b].0@);
        }
        CheckState { adapters: list }
    }

    /// What is remembered of the adapter `key`.
    pub fn get(&self, key: &str) -> (r: Option<AdapterState>)
        ensures
            r == self@.get(key@),
    {
        proof {
            use_type_invariant(self);
        }
        let mut i: usize = 0;
        while i < self.adapters.len()
            invariant
                i <= self.adapters.len(),
                distinct_adapters(self.adapters@),
                forall|k: int| 0 <= k < i ==> (#[trigger] self.adapters@[k]).0@ != key@,
            decreases self.adapters.len() - i,
        {
            let e = &self.adapters[i];
            if same_text(e.0.as_str(), key) {
                proof {
                    lemma_adapter_entry(self.adapters@, i as int);
                }
                return Some(e.1);
            }
            i += 1;
        }
        proof {
            lemma_adapter_keys(self.adapters@, key@);
        }
        None
    }

    /// Remember `st` of the adapter `key`, in place of what was remembered.
    pub fn set(&mut self, key: &str, st: AdapterState)
        ensures
            final(self)@ == old(self)@.insert(key@, st),
    {
        proof {
            use_type_invariant(&*self);
        }
        let mut list: Vec<(String, AdapterState)> = Vec::new();
        std::mem::swap(&mut list, &mut self.adapters);
        let ghost start = list@;
        let mut i: usize = 0;
        while i < list.len() && !same_text(list[i].0.as_str(), key)
            invariant
                i <= list.len(),
                list@ == start,
                forall|k: int| 0 <= k < i ==> (#[trigger] start[k]).0@ != key@,
            decreases list.len() - i,
        {
            i += 1;
        }
        let e = (String::from_str(key), st);
        if i < list.len() {
            list.set(i, e);
            proof {
                assert(start[i as int].0@ == key@);
                lemma_adapter_update(start, i as int, e);
            }
        } else {
            list.push(e);
            assert(list@.drop_last() == start);
        }
        assert(distinct_adapters(list@)) by {
            assert forall|a: int, b: int| 0 <= a < b < list@.len() implies (
            #[trigger] list@[a]).0@ != (#[trigger] list@[b]).0@ by {
                assert(list@[a].0@ == if a < start.len() {
                    start[a].0@
                } else {
                    key@
                });
                assert(b < start.len() ==> start[a].0@ != start[b].0@);
            }
        }
        self.adapters = list;
    }

    /// Forget the adapters that are at no end of a degraded link.
    pub fn retain_degraded(&mut self, degraded: &Vec<DegradedLink>)
        ensures
            final(self)@ == kept(old(self)@, degraded_views(degraded@)),
    {
        proof {
            use_type_invariant(&*self);
        }
        let ghost all = self.adapters@;
        let ghost ends = degraded_views(degraded@);
        let mut list: Vec<(String, AdapterState)> = Vec::new();
        let mut i: usize = 0;
        assert(all.take(0).len() == 0);
        assert(adapter_map(list@) == kept(adapter_map(all.take(0)), ends));
        while i < self.adapters.len()
            invariant
                i <= self.adapters.len(),
                all == self.adapters@,
                ends == degraded_views(degraded@),
                distinct_adapters(all),
                distinct_adapters(list@),
                adapter_map(list@) == kept(adapter_map(all.take(i as int)), ends),
            decreases self.adapters.len() - i,
        {
            let e = &self.adapters[i];
            let ghost before = list@;
            proof {
                let seen = all.take(i as int);
                assert(all.take(i + 1).drop_last() == seen);
                assert(all.take(i + 1).last() == e);
                lemma_adapter_keys(seen, e.0@);
                if exists|k: int| 0 <= k < seen.len() && (#[trigger] seen[k]).0@ == e.0@ {
                    let k = choose|k: int| 0 <= k < seen.len() && (#[trigger] seen[k]).0@ == e.0@;
                    assert(all[k].0@ != all[i as int].0@);
                }
                lemma_adapter_keys(before, e.0@);
            }
            if is_end(degraded, e.0.as_str()) {
                list.push((String::from_str(e.0.as_str()), e.1));
                assert(list@.drop_last() == before);
                assert(distinct_adapters(list@)) by {
                    assert forall|a: int, b: int| 0 <= a < b < list@.len() implies (
                    #[trigger] list@[a]).0@ != (#[trigger] list@[b]).0@ by {
                        if b < before.len() {
                            assert(before[a].0@ != before[b].0@);
                        } else {
                            assert(before[a].0@ != e.0@);
                        }
                    }
                }
            }
            assert(adapter_map(list@) == kept(adapter_map(all.take(i + 1)), ends));
            i += 1;
        }
        assert(all.take(i as int) == all);
        self.adapters = list;
    }
}

/// A degraded link has an end with the address `key`.
pub open spec fn has_end(degraded: Seq<DegradedView>, key: Seq<char>) -> bool {
    exists|i: int|
        0 <= i < degraded.len() && ((#[trigger] degraded[i]).from == key || degraded[i].to == key)
}

/// What stays remembered: an adapter that is no longer degraded gets its failure
/// history cleared.
pub open spec fn kept(
    state: Map<Seq<char>, AdapterState>,
    degraded: Seq<DegradedView>,
) -> Map<Seq<char>, AdapterState> {
    state.filter_keys(|key: Seq<char>| has_end(degraded, key))
}

fn is_end(degraded: &Vec<DegradedLink>, key: &str) -> (r: bool)
    ensures
        r == has_end(degraded_views(degraded@), key@),
{
    let ghost ends = degraded_views(degraded@);
    let mut i: usize = 0;
    while i < degraded.len()
        invariant
            i <= degraded.len(),
            ends == degraded_views(degraded@),
            forall|k: int|
                0 <= k < i ==> (#[trigger] ends[k]).from != key@ && ends[k].to != key@,
        decreases degraded.len() - i,
    {
        let d = &degraded[i];
        assert(ends[i as int] == d@);
        if same_text(d.from.as_str(), key) || same_text(d.to.as_str(), key) {
            assert(has_end(ends, key@));
            return true;
        }
        i += 1;
    }
    false
}

// -- Laws --------------------------------------------------------------------------------

/// The cooldown after the first failure is the base, each further failure doubles
/// it, and it never exceeds a day.
pub proof fn law_cooldown(base_mins: u64, failures: u32)
    requires
        1 <= failures < u32::MAX,
    ensures
        cooldown(base_mins, 1) == if base_mins < MAX_COOLDOWN_MINS {
            60 * base_mins
        } else {
            60 * MAX_COOLDOWN_MINS
        },
        cooldown(base_mins, (failures + 1) as u32) == if 2 * cooldown(base_mins, failures) < 60
            * MAX_COOLDOWN_MINS {
            2 * cooldown(base_mins, failures)
        } else {
            60 * MAX_COOLDOWN_MINS
        },
{
    let n = (failures - 1) as nat;
    assert(doubled(base_mins as nat, n + 1) == 2 * doubled(base_mins as nat, n));
    assert(doubled(base_mins as nat, 0) == base_mins);
}

/// More failures never mean a shorter cooldown.
pub proof fn law_cooldown_grows(base_mins: u64, fewer: u32, more: u32)
    requires
        fewer <= more,
    ensures
        0 <= cooldown(base_mins, fewer) <= cooldown(base_mins, more) <= 60 * MAX_COOLDOWN_MINS,
{
    let n: nat = if fewer == 0 {
        0
    } else {
        (fewer - 1) as nat
    };
    let m: nat = if more == 0 {
        0
    } else {
        (more - 1) as nat
    };
    lemma_doubled_grows(base_mins as nat, n, m);
}

/// The cooldown in seconds, by the number of failures: the base in minutes after none
/// or one, twice the last one after each further one, but never more than 86400.
pub proof fn law_cooldown_in_seconds(base_mins: u64, failures: u32)
    requires
        failures < u32::MAX,
    ensures
        cooldown(base_mins, 0) == cooldown(base_mins, 1),
        cooldown(base_mins, 1) == if 60 * base_mins < 86_400 {
            60 * base_mins
        } else {
            86_400
        },
        failures >= 1 ==> cooldown(base_mins, (failures + 1) as u32) == if 2 * cooldown(
            base_mins,
            failures,
        ) < 86_400 {
            2 * cooldown(base_mins, failures)
        } else {
            86_400
        },
{
    if failures >= 1 {
        law_cooldown(base_mins, failures);
    } else {
        law_cooldown(base_mins, 1);
    }
}

}
