use vstd::prelude::*;

use crate::detect::{
    alerts, calls_for_alert, detection_state, find_last, keyed_states, lemma_alerted_stamped,
    lemma_quiet_within_window, lemma_single_detection, lemma_single_updates,
    lemma_transition_alerted, lemma_updates_uniform, state_updates, ColoChangeView,
};
use crate::observation::{
    copy_state, lemma_states_map_domain, lemma_states_map_same, lemma_states_map_uniform, opt_view, lemma_states_map_update, states_map,
    urls_unique, LastKnownState, Observation, StateView,
};
use crate::time::Timestamp;

verus! {

/// The states after storing `updates` over `existing`: every target of
/// either, with the record of `updates` where both name it.
pub open spec fn merged_states(existing: Seq<LastKnownState>, updates: Seq<LastKnownState>) -> Map<
    Seq<char>,
    StateView,
> {
    states_map(existing + updates)
}

/// Puts `rec` into a table without repeated targets, in place of the
/// record of its target if there is one.
fn upsert(table: &mut Vec<LastKnownState>, rec: LastKnownState)
    requires
        urls_unique(old(table)@),
    ensures
        urls_unique(final(table)@),
        states_map(final(table)@) == states_map(old(table)@).insert(rec.url@, rec@),
{
    match find_last(table, &rec.url) {
        Some(j) => {
            let ghost t0 = table@;
            table.remove(j);
            table.insert(j, rec);
            proof {
                assert(table@ =~= t0.update(j as int, rec));
                lemma_states_map_update(t0, j as int, rec);
                assert forall|a: int, b: int|
                    0 <= a < table@.len() && 0 <= b < table@.len() && a != b implies #[trigger] table@[a].url@
                    != #[trigger] table@[b].url@ by {
                    if a != j && b != j {
                        assert(table@[a] == t0[a] && table@[b] == t0[b]);
                    } else if a == j {
                        assert(table@[b] == t0[b]);
                    } else {
                        assert(table@[a] == t0[a]);
                    }
                }
            }
        },
        None => {
            let ghost t0 = table@;
            table.push(rec);
            proof {
                assert(table@.drop_last() =~= t0);
                assert forall|a: int, b: int|
                    0 <= a < table@.len() && 0 <= b < table@.len() && a != b implies #[trigger] table@[a].url@
                    != #[trigger] table@[b].url@ by {
                    if a < t0.len() && b < t0.len() {
                        assert(table@[a] == t0[a] && table@[b] == t0[b]);
                    } else if a < t0.len() {
                        assert(table@[a] == t0[a]);
                    } else {
                        assert(table@[b] == t0[b]);
                    }
                }
            }
        },
    }
}

/// Merges `updates` into `existing`: one record per target, the record of
/// `updates` winning where both name a target, and a later record winning
/// over an earlier one within either.
pub fn merge_states(existing: &Vec<LastKnownState>, updates: &Vec<LastKnownState>) -> (r: Vec<
    LastKnownState,
>)
    ensures
        urls_unique(r@),
        states_map(r@) == merged_states(existing@, updates@),
{
    let ghost all = existing@ + updates@;
    let mut table: Vec<LastKnownState> = Vec::new();
    let mut i: usize = 0;
    while i < existing.len()
        invariant
            0 <= i <= existing.len(),
            all == existing@ + updates@,
            urls_unique(table@),
            states_map(table@) == states_map(all.subrange(0, i as int)),
        decreases existing.len() - i,
    {
        assert(all.subrange(0, i + 1).drop_last() =~= all.subrange(0, i as int));
        upsert(&mut table, copy_state(&existing[i]));
        i = i + 1;
    }
    let mut k: usize = 0;
    while k < updates.len()
        invariant
            0 <= k <= updates.len(),
            all == existing@ + updates@,
            urls_unique(table@),
            states_map(table@) == states_map(all.subrange(0, existing.len() + k)),
        decreases updates.len() - k,
    {
        assert(all.subrange(0, existing.len() + k + 1).drop_last() =~= all.subrange(
            0,
            existing.len() + k,
        ));
        upsert(&mut table, copy_state(&updates[k]));
        k = k + 1;
    }
    assert(all.subrange(0, all.len() as int) =~= all);
    table
}

/// After a store, a target named by the updates has the last record of the
/// updates for it; any other target keeps the record it had, and no
/// target appears or disappears otherwise.
pub proof fn lemma_merged_states(existing: Seq<LastKnownState>, updates: Seq<LastKnownState>)
    ensures
        merged_states(existing, updates) == states_map(existing).union_prefer_right(
            states_map(updates),
        ),
    decreases updates.len(),
{
    if updates.len() == 0 {
        assert(existing + updates =~= existing);
        assert(states_map(existing).union_prefer_right(states_map(updates)) =~= states_map(
            existing,
        ));
    } else {
        lemma_merged_states(existing, updates.drop_last());
        assert((existing + updates).drop_last() =~= existing + updates.drop_last());
        assert(merged_states(existing, updates) =~= states_map(existing).union_prefer_right(
            states_map(updates),
        ));
    }
}

/// A change announced in one cycle is announced once per window: after
/// the cycle's records are stored over whatever was stored before, a
/// cycle less than a window later announces no change for that target.
pub proof fn lemma_alert_once_per_window(
    rs1: Seq<Observation>,
    previous: Seq<LastKnownState>,
    now1: Timestamp,
    window: u64,
    stored: Seq<LastKnownState>,
    updates: Seq<LastKnownState>,
    rs2: Seq<Observation>,
    now2: Timestamp,
    k: int,
)
    requires
        keyed_states(updates) == state_updates(
            rs1,
            detection_state(rs1, states_map(previous), now1, window),
            now1,
        ),
        0 <= k < alerts(rs1, states_map(previous), now1, window).len(),
        now2.nanos - now1.nanos <= window,
    ensures
        forall|j: int|
            0 <= j < alerts(rs2, merged_states(stored, updates), now2, window).len()
                ==> #[trigger] alerts(rs2, merged_states(stored, updates), now2, window)[j].url
                != alerts(rs1, states_map(previous), now1, window)[k].url,
{
    let m0 = states_map(previous);
    let mf = detection_state(rs1, m0, now1, window);
    let u = alerts(rs1, m0, now1, window)[k].url;
    lemma_alerted_stamped(rs1, m0, now1, window, k);
    lemma_updates_uniform(rs1, mf, now1, u);
    let su = state_updates(rs1, mf, now1);
    assert forall|i: int| 0 <= i < updates.len() && (#[trigger] updates[i]).url@ == u implies (
    updates[i]@).last_notification == now1.nanos by {
        assert(keyed_states(updates)[i] == su[i]);
    }
    lemma_states_map_uniform(updates, u, now1.nanos as int);
    let i = choose|i: int| 0 <= i < su.len() && (#[trigger] su[i]).0 == u;
    assert(keyed_states(updates)[i] == su[i]);
    lemma_states_map_domain(updates, u);
    lemma_merged_states(stored, updates);
    let m2 = merged_states(stored, updates);
    assert(m2.contains_key(u) && m2[u].last_notification == now1.nanos);
    lemma_quiet_within_window(rs2, m2, now2, window, u);
}

/// A cycle that observes a target once, successfully, and finds it in the
/// loaded states: where the observation shows a change of identifier more
/// than a window after the last alert, the change is announced; otherwise
/// nothing is announced for the target. Either way, once the cycle's
/// records are stored over what was stored before, the target holds the
/// observed identifier and time, and as last alert `now` where the change
/// was announced and the loaded time where not.
pub proof fn lemma_single_probe_cycle(
    rs: Seq<Observation>,
    previous: Seq<LastKnownState>,
    now: Timestamp,
    window: u64,
    stored: Seq<LastKnownState>,
    updates: Seq<LastKnownState>,
    i: int,
)
    requires
        0 <= i < rs.len(),
        rs[i].success,
        forall|j: int| 0 <= j < rs.len() && j != i ==> #[trigger] rs[j].url@ != rs[i].url@,
        states_map(previous).contains_key(rs[i].url@),
        keyed_states(updates) == state_updates(
            rs,
            detection_state(rs, states_map(previous), now, window),
            now,
        ),
    ensures
        calls_for_alert(states_map(previous), rs[i], now, window) ==> exists|k: int|
            0 <= k < alerts(rs, states_map(previous), now, window).len() && #[trigger] alerts(
                rs,
                states_map(previous),
                now,
                window,
            )[k] == (ColoChangeView {
                url: rs[i].url@,
                previous: states_map(previous)[rs[i].url@].colo->0,
                current: opt_view(rs[i].colo)->0,
                rtt_millis: rs[i].rtt_millis,
            }),
        !calls_for_alert(states_map(previous), rs[i], now, window) ==> forall|k: int|
            0 <= k < alerts(rs, states_map(previous), now, window).len() ==> #[trigger] alerts(
                rs,
                states_map(previous),
                now,
                window,
            )[k].url != rs[i].url@,
        merged_states(stored, updates).contains_key(rs[i].url@),
        merged_states(stored, updates)[rs[i].url@] == (StateView {
            colo: opt_view(rs[i].colo),
            timestamp: rs[i].timestamp.nanos as int,
            last_notification: if calls_for_alert(states_map(previous), rs[i], now, window) {
                now.nanos as int
            } else {
                states_map(previous)[rs[i].url@].last_notification
            },
        }),
{
    let m0 = states_map(previous);
    let u = rs[i].url@;
    let mf = detection_state(rs, m0, now, window);
    lemma_single_detection(rs, m0, now, window, i);
    if calls_for_alert(m0, rs[i], now, window) {
        lemma_transition_alerted(rs, m0, now, window, i);
    }
    lemma_single_updates(rs, mf, now, i);
    let su = state_updates(rs, mf, now);
    let v = StateView {
        colo: opt_view(rs[i].colo),
        timestamp: rs[i].timestamp.nanos as int,
        last_notification: mf[u].last_notification,
    };
    assert forall|j: int| 0 <= j < updates.len() && (#[trigger] updates[j]).url@ == u implies updates[j]@
        == v by {
        assert(keyed_states(updates)[j] == su[j]);
    }
    lemma_states_map_same(updates, u, v);
    let j = choose|j: int| 0 <= j < su.len() && (#[trigger] su[j]).0 == u;
    assert(keyed_states(updates)[j] == su[j]);
    lemma_states_map_domain(updates, u);
    lemma_merged_states(stored, updates);
}

} // verus!
