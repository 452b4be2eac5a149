use vstd::prelude::*;

use crate::time::Timestamp;

verus! {

/// What an optional string holds, as characters.
pub open spec fn opt_view(o: Option<String>) -> Option<Seq<char>> {
    match o {
        Some(s) => Some(s@),
        None => None,
    }
}

/// A copy of an optional string.
pub fn copy_opt(o: &Option<String>) -> (r: Option<String>)
    ensures
        opt_view(r) == opt_view(*o),
{
    match o {
        Some(s) => Some(s.clone()),
        None => None,
    }
}

/// The outcome of one probe of one target.
///
/// A successful probe carries its round-trip time and, when the response
/// named one, the routing identifier; a failed one carries its error.
#[derive(Clone, Debug)]
pub struct Observation {
    pub timestamp: Timestamp,
    pub url: String,
    pub success: bool,
    pub rtt_millis: Option<u64>,
    pub error: Option<String>,
    pub colo: Option<String>,
}

/// An observation with its strings seen as character sequences.
pub struct ObservationView {
    pub timestamp: int,
    pub url: Seq<char>,
    pub success: bool,
    pub rtt_millis: Option<u64>,
    pub error: Option<Seq<char>>,
    pub colo: Option<Seq<char>>,
}

impl View for Observation {
    type V = ObservationView;

    open spec fn view(&self) -> ObservationView {
        ObservationView {
            timestamp: self.timestamp.nanos as int,
            url: self.url@,
            success: self.success,
            rtt_millis: self.rtt_millis,
            error: opt_view(self.error),
            colo: opt_view(self.colo),
        }
    }
}

/// A copy of an observation.
pub fn copy_observation(o: &Observation) -> (r: Observation)
    ensures
        r@ == o@,
{
    Observation {
        timestamp: o.timestamp,
        url: o.url.clone(),
        success: o.success,
        rtt_millis: o.rtt_millis,
        error: copy_opt(&o.error),
        colo: copy_opt(&o.colo),
    }
}

/// A sequence of observations, seen one by one.
pub open spec fn observations_view(s: Seq<Observation>) -> Seq<ObservationView> {
    s.map_values(|o: Observation| o@)
}

/// The last successful observation of one target, and when an alert was
/// last sent for it.
#[derive(Clone, Debug)]
pub struct LastKnownState {
    pub url: String,
    pub colo: Option<String>,
    pub timestamp: Timestamp,
    pub last_notification_timestamp: Timestamp,
}

/// What a state record says of its target.
pub struct StateView {
    pub colo: Option<Seq<char>>,
    pub timestamp: int,
    pub last_notification: int,
}

impl View for LastKnownState {
    type V = StateView;

    open spec fn view(&self) -> StateView {
        StateView {
            colo: opt_view(self.colo),
            timestamp: self.timestamp.nanos as int,
            last_notification: self.last_notification_timestamp.nanos as int,
        }
    }
}

/// A copy of a state record.
pub fn copy_state(s: &LastKnownState) -> (r: LastKnownState)
    ensures
        r.url@ == s.url@,
        r@ == s@,
{
    LastKnownState {
        url: s.url.clone(),
        colo: copy_opt(&s.colo),
        timestamp: s.timestamp,
        last_notification_timestamp: s.last_notification_timestamp,
    }
}

/// The mapping from target to state that a sequence of records describes:
/// where two records name one target, the later one counts.
pub open spec fn states_map(s: Seq<LastKnownState>) -> Map<Seq<char>, StateView>
    decreases s.len(),
{
    if s.len() == 0 {
        Map::empty()
    } else {
        states_map(s.drop_last()).insert(s.last().url@, s.last()@)
    }
}

/// No two records name the same target.
pub open spec fn urls_unique(s: Seq<LastKnownState>) -> bool {
    forall|i: int, j: int|
        0 <= i < s.len() && 0 <= j < s.len() && i != j ==> #[trigger] s[i].url@ != #[trigger] s[j].url@
}

/// A target is in the mapping exactly when some record names it.
pub proof fn lemma_states_map_domain(s: Seq<LastKnownState>, k: Seq<char>)
    ensures
        states_map(s).contains_key(k) <==> exists|i: int| 0 <= i < s.len() && s[i].url@ == k,
    decreases s.len(),
{
    if s.len() > 0 {
        lemma_states_map_domain(s.drop_last(), k);
        if states_map(s.drop_last()).contains_key(k) {
            let i = choose|i: int| 0 <= i < s.drop_last().len() && s.drop_last()[i].url@ == k;
            assert(s[i].url@ == k);
        }
        if exists|i: int| 0 <= i < s.len() && s[i].url@ == k {
            let i = choose|i: int| 0 <= i < s.len() && s[i].url@ == k;
            if i < s.len() - 1 {
                assert(s.drop_last()[i].url@ == k);
            }
        }
    }
}

/// The record that counts for a target is the last one that names it.
pub proof fn lemma_states_map_last(s: Seq<LastKnownState>, j: int)
    requires
        0 <= j < s.len(),
        forall|i: int| j < i < s.len() ==> #[trigger] s[i].url@ != s[j].url@,
    ensures
        states_map(s).contains_key(s[j].url@),
        states_map(s)[s[j].url@] == s[j]@,
    decreases s.len(),
{
    if j < s.len() - 1 {
        assert(s.drop_last()[j] == s[j]);
        lemma_states_map_last(s.drop_last(), j);
        assert(s[s.len() - 1].url@ != s[j].url@);
    }
}

/// Replacing the last record of a target changes the mapping at that
/// target alone.
pub proof fn lemma_states_map_update(s: Seq<LastKnownState>, j: int, r: LastKnownState)
    requires
        0 <= j < s.len(),
        s[j].url@ == r.url@,
        forall|i: int| j < i < s.len() ==> #[trigger] s[i].url@ != s[j].url@,
    ensures
        states_map(s.update(j, r)) == states_map(s).insert(r.url@, r@),
    decreases s.len(),
{
    let t = s.update(j, r);
    if j == s.len() - 1 {
        assert(t.drop_last() =~= s.drop_last());
        assert(states_map(t) =~= states_map(s).insert(r.url@, r@));
    } else {
        assert(t.drop_last() =~= s.drop_last().update(j, r));
        assert forall|i: int| j < i < s.drop_last().len() implies #[trigger] s.drop_last()[i].url@
            != s.drop_last()[j].url@ by {
            assert(s.drop_last()[i] == s[i]);
        }
        lemma_states_map_update(s.drop_last(), j, r);
        assert(s[s.len() - 1].url@ != r.url@);
        assert(states_map(t) =~= states_map(s).insert(r.url@, r@));
    }
}

/// Where every record of a target carries one last alert time, the
/// mapping carries it too.
pub proof fn lemma_states_map_uniform(s: Seq<LastKnownState>, u: Seq<char>, x: int)
    requires
        forall|i: int| 0 <= i < s.len() && (#[trigger] s[i]).url@ == u ==> s[i]@.last_notification == x,
    ensures
        states_map(s).contains_key(u) ==> states_map(s)[u].last_notification == x,
    decreases s.len(),
{
    if s.len() > 0 {
        assert forall|i: int| 0 <= i < s.drop_last().len() && (#[trigger] s.drop_last()[i]).url@ == u
            implies s.drop_last()[i]@.last_notification == x by {
            assert(s.drop_last()[i] == s[i]);
        }
        lemma_states_map_uniform(s.drop_last(), u, x);
    }
}

/// Where every record of a target says the same, the mapping says it too.
pub proof fn lemma_states_map_same(s: Seq<LastKnownState>, u: Seq<char>, v: StateView)
    requires
        forall|i: int| 0 <= i < s.len() && (#[trigger] s[i]).url@ == u ==> s[i]@ == v,
    ensures
        states_map(s).contains_key(u) ==> states_map(s)[u] == v,
    decreases s.len(),
{
    if s.len() > 0 {
        assert forall|i: int| 0 <= i < s.drop_last().len() && (#[trigger] s.drop_last()[i]).url@ == u
            implies s.drop_last()[i]@ == v by {
            assert(s.drop_last()[i] == s[i]);
        }
        lemma_states_map_same(s.drop_last(), u, v);
    }
}

} // verus!
