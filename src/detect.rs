use vstd::prelude::*;

use crate::observation::{
    copy_opt, lemma_states_map_domain, lemma_states_map_last, lemma_states_map_update, opt_view,
    states_map, LastKnownState, Observation, StateView,
};
use crate::time::{elapsed_exceeds, Timestamp, NANOS_PER_MINUTE};

verus! {

/// The time within which a second alert for one target is held back.
pub const DEBOUNCE_WINDOW_NANOS: u64 = 5 * NANOS_PER_MINUTE;

/// A change of routing identifier at one target, to be announced.
#[derive(Clone, Debug)]
pub struct ColoChange {
    pub url: String,
    pub previous: String,
    pub current: String,
    pub rtt_millis: Option<u64>,
}

/// What a change says: target, previous and current identifier, and the
/// round-trip time of the observation that showed it.
pub struct ColoChangeView {
    pub url: Seq<char>,
    pub previous: Seq<char>,
    pub current: Seq<char>,
    pub rtt_millis: Option<u64>,
}

impl View for ColoChange {
    type V = ColoChangeView;

    open spec fn view(&self) -> ColoChangeView {
        ColoChangeView {
            url: self.url@,
            previous: self.previous@,
            current: self.current@,
            rtt_millis: self.rtt_millis,
        }
    }
}

/// Whether `o`, seen against the states `m`, shows a change of identifier
/// that is to be announced at `now`: it succeeded, the target has a state,
/// both identifiers are known and differ, and more than `window` has passed
/// since the last alert for the target.
pub open spec fn calls_for_alert(
    m: Map<Seq<char>, StateView>,
    o: Observation,
    now: Timestamp,
    window: u64,
) -> bool {
    &&& o.success
    &&& m.contains_key(o.url@)
    &&& o.colo is Some
    &&& m[o.url@].colo is Some
    &&& m[o.url@].colo != opt_view(o.colo)
    &&& now.nanos - m[o.url@].last_notification > window
}

/// The states after `o`: an announced change stamps its target's last
/// alert with `now`.
pub open spec fn after_observation(
    m: Map<Seq<char>, StateView>,
    o: Observation,
    now: Timestamp,
    window: u64,
) -> Map<Seq<char>, StateView> {
    if calls_for_alert(m, o, now, window) {
        m.insert(o.url@, StateView { last_notification: now.nanos as int, ..m[o.url@] })
    } else {
        m
    }
}

/// The states after all of `rs`, starting from `m0`.
pub open spec fn detection_state(
    rs: Seq<Observation>,
    m0: Map<Seq<char>, StateView>,
    now: Timestamp,
    window: u64,
) -> Map<Seq<char>, StateView>
    decreases rs.len(),
{
    if rs.len() == 0 {
        m0
    } else {
        after_observation(detection_state(rs.drop_last(), m0, now, window), rs.last(), now, window)
    }
}

/// The changes that `rs` announces, in order, starting from `m0`.
pub open spec fn alerts(
    rs: Seq<Observation>,
    m0: Map<Seq<char>, StateView>,
    now: Timestamp,
    window: u64,
) -> Seq<ColoChangeView>
    decreases rs.len(),
{
    if rs.len() == 0 {
        Seq::empty()
    } else {
        let m = detection_state(rs.drop_last(), m0, now, window);
        let o = rs.last();
        if calls_for_alert(m, o, now, window) {
            alerts(rs.drop_last(), m0, now, window).push(
                ColoChangeView {
                    url: o.url@,
                    previous: m[o.url@].colo->0,
                    current: opt_view(o.colo)->0,
                    rtt_millis: o.rtt_millis,
                },
            )
        } else {
            alerts(rs.drop_last(), m0, now, window)
        }
    }
}

/// The state records that the successful observations of `rs` leave, in
/// order: each keeps the last alert time that `m` holds for its target, or
/// `now` for a target without one.
pub open spec fn state_updates(
    rs: Seq<Observation>,
    m: Map<Seq<char>, StateView>,
    now: Timestamp,
) -> Seq<(Seq<char>, StateView)>
    decreases rs.len(),
{
    if rs.len() == 0 {
        Seq::empty()
    } else {
        let o = rs.last();
        if o.success {
            state_updates(rs.drop_last(), m, now).push(
                (
                    o.url@,
                    StateView {
                        colo: opt_view(o.colo),
                        timestamp: o.timestamp.nanos as int,
                        last_notification: if m.contains_key(o.url@) {
                            m[o.url@].last_notification
                        } else {
                            now.nanos as int
                        },
                    },
                ),
            )
        } else {
            state_updates(rs.drop_last(), m, now)
        }
    }
}

/// State records with their targets.
pub open spec fn keyed_states(s: Seq<LastKnownState>) -> Seq<(Seq<char>, StateView)> {
    s.map_values(|r: LastKnownState| (r.url@, r@))
}

/// Changes seen one by one.
pub open spec fn changes_view(s: Seq<ColoChange>) -> Seq<ColoChangeView> {
    s.map_values(|c: ColoChange| c@)
}

/// What one check cycle decides: the changes to announce and the state
/// records to store.
#[derive(Clone, Debug)]
pub struct CyclePlan {
    pub changes: Vec<ColoChange>,
    pub updates: Vec<LastKnownState>,
}

/// The position of the last record of `table` for `url`, if any.
pub fn find_last(table: &Vec<LastKnownState>, url: &String) -> (r: Option<usize>)
    ensures
        match r {
            Some(j) => {
                &&& j < table.len()
                &&& table@[j as int].url@ == url@
                &&& forall|i: int| j < i < table.len() ==> #[trigger] table@[i].url@ != url@
            },
            None => forall|i: int| 0 <= i < table.len() ==> #[trigger] table@[i].url@ != url@,
        },
{
    let mut k: usize = table.len();
    while k > 0
        invariant
            k <= table.len(),
            forall|i: int| k <= i < table.len() ==> #[trigger] table@[i].url@ != url@,
        decreases k,
    {
        if table[k - 1].url == *url {
            return Some(k - 1);
        }
        k = k - 1;
    }
    None
}

/// Decides one check cycle: walks `results` in order against the states
/// loaded before the cycle, collects the changes of identifier to
/// announce (at most one per target within `window`, see
/// `calls_for_alert`), and the state record of every successful
/// observation.
pub fn plan_cycle(
    results: &Vec<Observation>,
    previous: Vec<LastKnownState>,
    now: Timestamp,
    window: u64,
) -> (r: CyclePlan)
    ensures
        changes_view(r.changes@) == alerts(results@, states_map(previous@), now, window),
        keyed_states(r.updates@) == state_updates(
            results@,
            detection_state(results@, states_map(previous@), now, window),
            now,
        ),
{
    let ghost rs = results@;
    let ghost m0 = states_map(previous@);
    let mut table = previous;
    let mut changes: Vec<ColoChange> = Vec::new();
    let mut i: usize = 0;
    while i < results.len()
        invariant
            0 <= i <= results.len(),
            rs == results@,
            states_map(table@) == detection_state(rs.subrange(0, i as int), m0, now, window),
            changes_view(changes@) == alerts(rs.subrange(0, i as int), m0, now, window),
        decreases results.len() - i,
    {
        let o = &results[i];
        let ghost m = states_map(table@);
        proof {
            let p = rs.subrange(0, i + 1);
            assert(p.drop_last() =~= rs.subrange(0, i as int));
            assert(p.last() == *o);
        }
        if o.success {
            match find_last(&table, &o.url) {
                Some(j) => {
                    proof {
                        lemma_states_map_last(table@, j as int);
                    }
                    match (&o.colo, &table[j].colo) {
                        (Some(cur), Some(prev)) => {
                            if *cur != *prev && elapsed_exceeds(
                                table[j].last_notification_timestamp,
                                now,
                                window,
                            ) {
                                let change = ColoChange {
                                    url: o.url.clone(),
                                    previous: prev.clone(),
                                    current: cur.clone(),
                                    rtt_millis: o.rtt_millis,
                                };
                                let ghost before = changes@;
                                changes.push(change);
                                assert(changes_view(changes@) =~= changes_view(before).push(
                                    change@,
                                ));
                                let ghost t0 = table@;
                                let rec = table.remove(j);
                                let stamped = LastKnownState {
                                    last_notification_timestamp: now,
                                    ..rec
                                };
                                table.insert(j, stamped);
                                proof {
                                    assert(table@ =~= t0.update(j as int, stamped));
                                    lemma_states_map_update(t0, j as int, stamped);
                                    assert(states_map(table@) =~= after_observation(
                                        m,
                                        *o,
                                        now,
                                        window,
                                    ));
                                }
                            }
                        },
                        _ => {},
                    }
                },
                None => {
                    proof {
                        lemma_states_map_domain(table@, o.url@);
                    }
                },
            }
        }
        i = i + 1;
    }
    assert(rs.subrange(0, rs.len() as int) =~= rs);
    let ghost mf = states_map(table@);
    let mut updates: Vec<LastKnownState> = Vec::new();
    let mut k: usize = 0;
    while k < results.len()
        invariant
            0 <= k <= results.len(),
            rs == results@,
            mf == states_map(table@),
            keyed_states(updates@) == state_updates(rs.subrange(0, k as int), mf, now),
        decreases results.len() - k,
    {
        let o = &results[k];
        proof {
            let p = rs.subrange(0, k + 1);
            assert(p.drop_last() =~= rs.subrange(0, k as int));
            assert(p.last() == *o);
        }
        if o.success {
            let last = match find_last(&table, &o.url) {
                Some(j) => {
                    proof {
                        lemma_states_map_last(table@, j as int);
                    }
                    table[j].last_notification_timestamp
                },
                None => {
                    proof {
                        lemma_states_map_domain(table@, o.url@);
                    }
                    now
                },
            };
            let rec = LastKnownState {
                url: o.url.clone(),
                colo: copy_opt(&o.colo),
                timestamp: o.timestamp,
                last_notification_timestamp: last,
            };
            let ghost before = updates@;
            updates.push(rec);
            assert(keyed_states(updates@) =~= keyed_states(before).push((rec.url@, rec@)));
        }
        k = k + 1;
    }
    CyclePlan { changes, updates }
}

/// Every target announced in a cycle ends the cycle stamped with `now`,
/// and had a successful observation in it.
pub proof fn lemma_alerted_stamped(
    rs: Seq<Observation>,
    m0: Map<Seq<char>, StateView>,
    now: Timestamp,
    window: u64,
    k: int,
)
    requires
        0 <= k < alerts(rs, m0, now, window).len(),
    ensures
        ({
            let u = alerts(rs, m0, now, window)[k].url;
            &&& detection_state(rs, m0, now, window).contains_key(u)
            &&& detection_state(rs, m0, now, window)[u].last_notification == now.nanos
            &&& exists|j: int| 0 <= j < rs.len() && #[trigger] rs[j].success && rs[j].url@ == u
        }),
    decreases rs.len(),
{
    let m = detection_state(rs.drop_last(), m0, now, window);
    let o = rs.last();
    let a = alerts(rs.drop_last(), m0, now, window);
    if k < a.len() {
        lemma_alerted_stamped(rs.drop_last(), m0, now, window, k);
        let u = a[k].url;
        let j = choose|j: int|
            0 <= j < rs.drop_last().len() && #[trigger] rs.drop_last()[j].success
                && rs.drop_last()[j].url@ == u;
        assert(rs[j] == rs.drop_last()[j]);
    } else {
        assert(rs[rs.len() - 1].success);
    }
}

/// Within one cycle no target is announced twice.
pub proof fn lemma_one_alert_per_target(
    rs: Seq<Observation>,
    m0: Map<Seq<char>, StateView>,
    now: Timestamp,
    window: u64,
)
    ensures
        forall|i: int, j: int|
            0 <= i < j < alerts(rs, m0, now, window).len() ==> #[trigger] alerts(
                rs,
                m0,
                now,
                window,
            )[i].url != #[trigger] alerts(rs, m0, now, window)[j].url,
    decreases rs.len(),
{
    if rs.len() > 0 {
        let m = detection_state(rs.drop_last(), m0, now, window);
        let o = rs.last();
        let a = alerts(rs.drop_last(), m0, now, window);
        lemma_one_alert_per_target(rs.drop_last(), m0, now, window);
        if calls_for_alert(m, o, now, window) {
            assert forall|i: int| 0 <= i < a.len() implies #[trigger] a[i].url != o.url@ by {
                lemma_alerted_stamped(rs.drop_last(), m0, now, window, i);
            }
        }
    }
}

/// A target whose last alert lies within the window of `now` is not
/// announced, and its state is left as it was.
pub proof fn lemma_quiet_within_window(
    rs: Seq<Observation>,
    m0: Map<Seq<char>, StateView>,
    now: Timestamp,
    window: u64,
    u: Seq<char>,
)
    requires
        m0.contains_key(u) ==> now.nanos - m0[u].last_notification <= window,
    ensures
        forall|k: int|
            0 <= k < alerts(rs, m0, now, window).len() ==> #[trigger] alerts(
                rs,
                m0,
                now,
                window,
            )[k].url != u,
        detection_state(rs, m0, now, window).contains_key(u) == m0.contains_key(u),
        m0.contains_key(u) ==> detection_state(rs, m0, now, window)[u] == m0[u],
    decreases rs.len(),
{
    if rs.len() > 0 {
        lemma_quiet_within_window(rs.drop_last(), m0, now, window, u);
    }
}

/// All records that `state_updates` gives for a target carry the same
/// last alert time.
pub proof fn lemma_updates_uniform(
    rs: Seq<Observation>,
    m: Map<Seq<char>, StateView>,
    now: Timestamp,
    u: Seq<char>,
)
    ensures
        forall|i: int|
            0 <= i < state_updates(rs, m, now).len() && (#[trigger] state_updates(rs, m, now)[i]).0
                == u ==> state_updates(rs, m, now)[i].1.last_notification == if m.contains_key(u) {
                m[u].last_notification
            } else {
                now.nanos as int
            },
        (exists|j: int| 0 <= j < rs.len() && #[trigger] rs[j].success && rs[j].url@ == u) ==> exists|
            i: int,
        |
            0 <= i < state_updates(rs, m, now).len() && (#[trigger] state_updates(rs, m, now)[i]).0
                == u,
    decreases rs.len(),
{
    if rs.len() > 0 {
        lemma_updates_uniform(rs.drop_last(), m, now, u);
        let p = state_updates(rs.drop_last(), m, now);
        if exists|j: int| 0 <= j < rs.len() && #[trigger] rs[j].success && rs[j].url@ == u {
            let j = choose|j: int| 0 <= j < rs.len() && #[trigger] rs[j].success && rs[j].url@ == u;
            if j < rs.len() - 1 {
                assert(rs.drop_last()[j] == rs[j]);
                let i = choose|i: int| 0 <= i < p.len() && (#[trigger] p[i]).0 == u;
                if rs.last().success {
                    assert(state_updates(rs, m, now)[i] == p[i]);
                }
            } else {
                assert(state_updates(rs, m, now)[p.len() as int].0 == u);
            }
        }
    }
}

proof fn lemma_detection_keeps_order(
    rs: Seq<Observation>,
    m0: Map<Seq<char>, StateView>,
    now: Timestamp,
    window: u64,
    u: Seq<char>,
)
    requires
        m0.contains_key(u) ==> m0[u].last_notification <= now.nanos,
    ensures
        detection_state(rs, m0, now, window).contains_key(u) == m0.contains_key(u),
        m0.contains_key(u) ==> m0[u].last_notification <= detection_state(
            rs,
            m0,
            now,
            window,
        )[u].last_notification <= now.nanos,
    decreases rs.len(),
{
    if rs.len() > 0 {
        lemma_detection_keeps_order(rs.drop_last(), m0, now, window, u);
    }
}

/// A target's last alert time never moves back: where the stored time is
/// not later than `now`, every record that the cycle stores for the
/// target carries a time at least as late.
pub proof fn lemma_last_alert_never_decreases(
    rs: Seq<Observation>,
    m0: Map<Seq<char>, StateView>,
    now: Timestamp,
    window: u64,
    u: Seq<char>,
)
    requires
        m0.contains_key(u),
        m0[u].last_notification <= now.nanos,
    ensures
        forall|i: int|
            0 <= i < state_updates(rs, detection_state(rs, m0, now, window), now).len() && (
            #[trigger] state_updates(rs, detection_state(rs, m0, now, window), now)[i]).0 == u
                ==> state_updates(rs, detection_state(rs, m0, now, window), now)[i].1.last_notification
                >= m0[u].last_notification,
{
    lemma_detection_keeps_order(rs, m0, now, window, u);
    lemma_updates_uniform(rs, detection_state(rs, m0, now, window), now, u);
}

/// Observations of other targets leave a target's state as it was.
proof fn lemma_untouched(
    rs: Seq<Observation>,
    m0: Map<Seq<char>, StateView>,
    now: Timestamp,
    window: u64,
    u: Seq<char>,
)
    requires
        forall|j: int| 0 <= j < rs.len() ==> #[trigger] rs[j].url@ != u,
    ensures
        detection_state(rs, m0, now, window).contains_key(u) == m0.contains_key(u),
        m0.contains_key(u) ==> detection_state(rs, m0, now, window)[u] == m0[u],
        forall|k: int|
            0 <= k < alerts(rs, m0, now, window).len() ==> #[trigger] alerts(
                rs,
                m0,
                now,
                window,
            )[k].url != u,
    decreases rs.len(),
{
    if rs.len() > 0 {
        assert(rs[rs.len() - 1].url@ != u);
        assert forall|j: int| 0 <= j < rs.drop_last().len() implies #[trigger] rs.drop_last()[j].url@
            != u by {
            assert(rs.drop_last()[j] == rs[j]);
        }
        lemma_untouched(rs.drop_last(), m0, now, window, u);
    }
}

/// The alerts of a first stretch of a cycle begin the alerts of the whole.
proof fn lemma_alerts_prefix(
    rs: Seq<Observation>,
    m0: Map<Seq<char>, StateView>,
    now: Timestamp,
    window: u64,
    n: int,
)
    requires
        0 <= n <= rs.len(),
    ensures
        alerts(rs.take(n), m0, now, window).len() <= alerts(rs, m0, now, window).len(),
        forall|k: int|
            0 <= k < alerts(rs.take(n), m0, now, window).len() ==> #[trigger] alerts(
                rs.take(n),
                m0,
                now,
                window,
            )[k] == alerts(rs, m0, now, window)[k],
    decreases rs.len(),
{
    if n == rs.len() {
        assert(rs.take(n) =~= rs);
    } else {
        assert(rs.drop_last().take(n) =~= rs.take(n));
        lemma_alerts_prefix(rs.drop_last(), m0, now, window, n);
    }
}

/// A change is announced: where the first observation of a target in a
/// cycle succeeds with an identifier other than the stored one, and more
/// than the window has passed since the target's last alert, the cycle's
/// alerts hold that change, with the stored and the new identifier, and
/// every record the cycle stores for the target is stamped with `now`.
pub proof fn lemma_transition_alerted(
    rs: Seq<Observation>,
    m0: Map<Seq<char>, StateView>,
    now: Timestamp,
    window: u64,
    i: int,
)
    requires
        0 <= i < rs.len(),
        forall|j: int| 0 <= j < i ==> #[trigger] rs[j].url@ != rs[i].url@,
        calls_for_alert(m0, rs[i], now, window),
    ensures
        exists|k: int|
            0 <= k < alerts(rs, m0, now, window).len() && #[trigger] alerts(rs, m0, now, window)[k]
                == (ColoChangeView {
                url: rs[i].url@,
                previous: m0[rs[i].url@].colo->0,
                current: opt_view(rs[i].colo)->0,
                rtt_millis: rs[i].rtt_millis,
            }),
        forall|j: int|
            0 <= j < state_updates(rs, detection_state(rs, m0, now, window), now).len() && (
            #[trigger] state_updates(rs, detection_state(rs, m0, now, window), now)[j]).0
                == rs[i].url@ ==> state_updates(rs, detection_state(rs, m0, now, window), now)[j].1.last_notification
                == now.nanos,
{
    let u = rs[i].url@;
    let p = rs.take(i);
    assert forall|j: int| 0 <= j < p.len() implies #[trigger] p[j].url@ != u by {
        assert(p[j] == rs[j]);
    }
    lemma_untouched(p, m0, now, window, u);
    let q = rs.take(i + 1);
    assert(q.drop_last() =~= p);
    assert(q.last() == rs[i]);
    lemma_alerts_prefix(rs, m0, now, window, i + 1);
    let k = alerts(p, m0, now, window).len() as int;
    assert(alerts(q, m0, now, window)[k] == alerts(rs, m0, now, window)[k]);
    lemma_alerted_stamped(rs, m0, now, window, k);
    lemma_updates_uniform(rs, detection_state(rs, m0, now, window), now, u);
}

/// The state that a cycle leaves for a target observed once in it: its
/// stored state, stamped with `now` where the observation calls for an
/// alert; and an alert for the target only then.
pub proof fn lemma_single_detection(
    rs: Seq<Observation>,
    m0: Map<Seq<char>, StateView>,
    now: Timestamp,
    window: u64,
    i: int,
)
    requires
        0 <= i < rs.len(),
        forall|j: int| 0 <= j < rs.len() && j != i ==> #[trigger] rs[j].url@ != rs[i].url@,
        m0.contains_key(rs[i].url@),
    ensures
        detection_state(rs, m0, now, window).contains_key(rs[i].url@),
        detection_state(rs, m0, now, window)[rs[i].url@] == if calls_for_alert(
            m0,
            rs[i],
            now,
            window,
        ) {
            StateView { last_notification: now.nanos as int, ..m0[rs[i].url@] }
        } else {
            m0[rs[i].url@]
        },
        !calls_for_alert(m0, rs[i], now, window) ==> forall|k: int|
            0 <= k < alerts(rs, m0, now, window).len() ==> #[trigger] alerts(
                rs,
                m0,
                now,
                window,
            )[k].url != rs[i].url@,
    decreases rs.len(),
{
    let u = rs[i].url@;
    let d = rs.drop_last();
    if i < rs.len() - 1 {
        assert(d[i] == rs[i]);
        assert forall|j: int| 0 <= j < d.len() && j != i implies #[trigger] d[j].url@ != d[i].url@ by {
            assert(d[j] == rs[j]);
        }
        lemma_single_detection(d, m0, now, window, i);
        assert(rs[rs.len() - 1].url@ != u);
    } else {
        assert forall|j: int| 0 <= j < d.len() implies #[trigger] d[j].url@ != u by {
            assert(d[j] == rs[j]);
        }
        lemma_untouched(d, m0, now, window, u);
    }
}

/// The records a cycle stores for a target observed once in it, with
/// success, all carry that observation's identifier and time, and the last
/// alert time the cycle leaves for the target.
pub proof fn lemma_single_updates(
    rs: Seq<Observation>,
    m: Map<Seq<char>, StateView>,
    now: Timestamp,
    i: int,
)
    requires
        0 <= i < rs.len(),
        rs[i].success,
        forall|j: int| 0 <= j < rs.len() && j != i ==> #[trigger] rs[j].url@ != rs[i].url@,
        m.contains_key(rs[i].url@),
    ensures
        exists|j: int|
            0 <= j < state_updates(rs, m, now).len() && (#[trigger] state_updates(rs, m, now)[j]).0
                == rs[i].url@,
        forall|j: int|
            0 <= j < state_updates(rs, m, now).len() && (#[trigger] state_updates(rs, m, now)[j]).0
                == rs[i].url@ ==> state_updates(rs, m, now)[j].1 == (StateView {
                colo: opt_view(rs[i].colo),
                timestamp: rs[i].timestamp.nanos as int,
                last_notification: m[rs[i].url@].last_notification,
            }),
    decreases rs.len(),
{
    let u = rs[i].url@;
    let d = rs.drop_last();
    let p = state_updates(d, m, now);
    if i < rs.len() - 1 {
        assert(d[i] == rs[i]);
        assert forall|j: int| 0 <= j < d.len() && j != i implies #[trigger] d[j].url@ != d[i].url@ by {
            assert(d[j] == rs[j]);
        }
        lemma_single_updates(d, m, now, i);
        assert(rs[rs.len() - 1].url@ != u);
        let j = choose|j: int| 0 <= j < p.len() && (#[trigger] p[j]).0 == u;
        if rs.last().success {
            assert(state_updates(rs, m, now)[j] == p[j]);
        }
    } else {
        lemma_updates_keys(d, m, now);
        assert forall|j: int| 0 <= j < p.len() implies (#[trigger] p[j]).0 != u by {
            let k = choose|k: int| 0 <= k < d.len() && d[k].url@ == p[j].0;
            assert(d[k] == rs[k]);
        }
        assert(state_updates(rs, m, now)[p.len() as int].0 == u);
    }
}

/// Every record a cycle stores names a target observed in it.
proof fn lemma_updates_keys(rs: Seq<Observation>, m: Map<Seq<char>, StateView>, now: Timestamp)
    ensures
        forall|j: int|
            0 <= j < state_updates(rs, m, now).len() ==> exists|k: int|
                0 <= k < rs.len() && rs[k].url@ == (#[trigger] state_updates(rs, m, now)[j]).0,
    decreases rs.len(),
{
    if rs.len() > 0 {
        let d = rs.drop_last();
        lemma_updates_keys(d, m, now);
        let p = state_updates(d, m, now);
        assert forall|j: int| 0 <= j < state_updates(rs, m, now).len() implies exists|k: int|
            0 <= k < rs.len() && rs[k].url@ == (#[trigger] state_updates(rs, m, now)[j]).0 by {
            if j < p.len() {
                assert(state_updates(rs, m, now)[j] == p[j]);
                let k = choose|k: int| 0 <= k < d.len() && d[k].url@ == p[j].0;
                assert(rs[k] == d[k]);
            } else {
                assert(rs[rs.len() - 1].url@ == state_updates(rs, m, now)[j].0);
            }
        }
    }
}

} // verus!
