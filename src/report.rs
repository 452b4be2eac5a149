use vstd::prelude::*;

use crate::colo::{
    contains_str, count_transitions, distinct_colos, distinct_in_order, most_frequent,
    most_frequent_colo, occurrences, strs_view, transitions,
};
use crate::observation::{opt_view, Observation};
use crate::stats::{
    insert_by_key, lemma_insert_by_key_at, lemma_sort_by_key_len, rtt_stats, rtt_stats_of,
    sort_by_key, uptime_milli, uptime_milli_of, RttStats,
};
use crate::time::Timestamp;

verus! {

/// Positions among the first `n` observations of `rs` of those of target
/// `t`, in log order.
pub open spec fn target_positions(rs: Seq<Observation>, t: Seq<char>, n: int) -> Seq<usize>
    decreases n,
{
    if n <= 0 {
        Seq::empty()
    } else if rs[n - 1].url@ == t {
        target_positions(rs, t, n - 1).push((n - 1) as usize)
    } else {
        target_positions(rs, t, n - 1)
    }
}

/// Orders positions in `rs` by the time of the observation there.
pub open spec fn time_key(rs: Seq<Observation>) -> spec_fn(usize) -> int {
    |i: usize| rs[i as int].timestamp.nanos as int
}

/// Positions of the observations of `t` in time order; those with equal
/// times stay in log order.
pub open spec fn chronological(rs: Seq<Observation>, t: Seq<char>) -> Seq<usize> {
    sort_by_key(target_positions(rs, t, rs.len() as int), time_key(rs))
}

/// The observations of `rs` at positions `ps`.
pub open spec fn at_positions(rs: Seq<Observation>, ps: Seq<usize>) -> Seq<Observation> {
    ps.map_values(|i: usize| rs[i as int])
}

/// The observations of `t` in time order.
pub open spec fn entries(rs: Seq<Observation>, t: Seq<char>) -> Seq<Observation> {
    at_positions(rs, chronological(rs, t))
}

/// How many of `e` succeeded.
pub open spec fn success_count(e: Seq<Observation>) -> nat
    decreases e.len(),
{
    if e.len() == 0 {
        0
    } else {
        success_count(e.drop_last()) + if e.last().success {
            1nat
        } else {
            0nat
        }
    }
}

/// The round-trip times of the successful observations of `e`.
pub open spec fn rtt_values(e: Seq<Observation>) -> Seq<u64>
    decreases e.len(),
{
    if e.len() == 0 {
        Seq::empty()
    } else if e.last().success && e.last().rtt_millis is Some {
        rtt_values(e.drop_last()).push(e.last().rtt_millis->0)
    } else {
        rtt_values(e.drop_last())
    }
}

/// The routing identifiers that the successful observations of `e`
/// carry, in order.
pub open spec fn colo_seq(e: Seq<Observation>) -> Seq<Seq<char>>
    decreases e.len(),
{
    if e.len() == 0 {
        Seq::empty()
    } else if e.last().success && e.last().colo is Some {
        colo_seq(e.drop_last()).push(e.last().colo->0@)
    } else {
        colo_seq(e.drop_last())
    }
}

/// Statistics of one target over a window of observations.
#[derive(Clone, Debug)]
pub struct TargetStats {
    pub url: String,
    pub total_checks: usize,
    pub successful_checks: usize,
    /// Successful checks as a share of all, in thousandths of a percent.
    pub uptime_milli: u64,
    pub rtt: RttStats,
    /// Distinct identifiers, in order of first appearance in time.
    pub unique_colos: Vec<String>,
    pub colo_transitions: usize,
    pub most_frequent_colo: Option<String>,
}

/// `s` holds the statistics of target `t` over `rs`.
pub open spec fn stats_of(s: TargetStats, rs: Seq<Observation>, t: Seq<char>) -> bool {
    let e = entries(rs, t);
    &&& s.url@ == t
    &&& s.total_checks == e.len()
    &&& s.successful_checks == success_count(e)
    &&& s.uptime_milli == uptime_milli_of(success_count(e), e.len())
    &&& s.rtt == rtt_stats_of(rtt_values(e))
    &&& strs_view(s.unique_colos@) == distinct_in_order(colo_seq(e))
    &&& s.colo_transitions == transitions(colo_seq(e))
    &&& opt_view(s.most_frequent_colo) == most_frequent(colo_seq(e))
}

/// The positions of the observations of `target`, in time order.
pub fn chronological_positions(results: &Vec<Observation>, target: &String) -> (r: Vec<usize>)
    ensures
        r@ == chronological(results@, target@),
        forall|k: int| 0 <= k < r.len() ==> r@[k] < results.len(),
{
    let ghost rs = results@;
    let mut pos: Vec<usize> = Vec::new();
    let mut i: usize = 0;
    while i < results.len()
        invariant
            0 <= i <= results.len(),
            rs == results@,
            pos@ == target_positions(rs, target@, i as int),
            forall|k: int| 0 <= k < pos.len() ==> pos@[k] < i,
        decreases results.len() - i,
    {
        if results[i].url == *target {
            pos.push(i);
        }
        i = i + 1;
    }
    let mut sorted: Vec<usize> = Vec::new();
    let mut k: usize = 0;
    while k < pos.len()
        invariant
            0 <= k <= pos.len(),
            rs == results@,
            pos@ == target_positions(rs, target@, rs.len() as int),
            forall|m: int| 0 <= m < pos.len() ==> pos@[m] < rs.len(),
            sorted@ == sort_by_key(pos@.subrange(0, k as int), time_key(rs)),
            forall|m: int| 0 <= m < sorted.len() ==> sorted@[m] < rs.len(),
        decreases pos.len() - k,
    {
        let x = pos[k];
        let tx = results[x].timestamp.nanos;
        let mut j: usize = sorted.len();
        while j > 0 && results[sorted[j - 1]].timestamp.nanos > tx
            invariant
                0 <= j <= sorted.len(),
                x < rs.len(),
                rs == results@,
                tx == rs[x as int].timestamp.nanos,
                forall|m: int| 0 <= m < sorted.len() ==> sorted@[m] < rs.len(),
                forall|m: int| j <= m < sorted.len() ==> (time_key(rs))(#[trigger] sorted@[m]) > (
                time_key(rs))(x),
            decreases j,
        {
            j = j - 1;
        }
        proof {
            lemma_insert_by_key_at(sorted@, x, time_key(rs), j as int);
            assert(pos@.subrange(0, k + 1).drop_last() =~= pos@.subrange(0, k as int));
        }
        let ghost before = sorted@;
        sorted.insert(j, x);
        assert forall|m: int| 0 <= m < sorted.len() implies sorted@[m] < rs.len() by {
            if m < j {
                assert(sorted@[m] == before[m]);
            } else if m > j {
                assert(sorted@[m] == before[m - 1]);
            }
        }
        k = k + 1;
    }
    assert(pos@.subrange(0, pos.len() as int) =~= pos@);
    sorted
}

/// The statistics of `target` over `results`.
pub fn target_stats(results: &Vec<Observation>, target: &String) -> (r: TargetStats)
    ensures
        stats_of(r, results@, target@),
{
    let ghost rs = results@;
    let order = chronological_positions(results, target);
    let ghost e = entries(rs, target@);
    assert(e.len() == order.len());
    let mut successful: usize = 0;
    let mut rtts: Vec<u64> = Vec::new();
    let mut colos: Vec<String> = Vec::new();
    let mut k: usize = 0;
    while k < order.len()
        invariant
            0 <= k <= order.len(),
            rs == results@,
            e == entries(rs, target@),
            order@ == chronological(rs, target@),
            forall|m: int| 0 <= m < order.len() ==> order@[m] < rs.len(),
            successful == success_count(e.subrange(0, k as int)),
            successful <= k,
            rtts@ == rtt_values(e.subrange(0, k as int)),
            strs_view(colos@) == colo_seq(e.subrange(0, k as int)),
        decreases order.len() - k,
    {
        let o = &results[order[k]];
        proof {
            assert(e.subrange(0, k + 1).drop_last() =~= e.subrange(0, k as int));
            assert(e.subrange(0, k + 1).last() == *o);
        }
        if o.success {
            successful = successful + 1;
            match o.rtt_millis {
                Some(v) => {
                    rtts.push(v);
                },
                None => {},
            }
            match &o.colo {
                Some(c) => {
                    let c2 = c.clone();
                    let ghost before = colos@;
                    colos.push(c2);
                    assert(strs_view(colos@) =~= strs_view(before).push(c2@));
                },
                None => {},
            }
        }
        k = k + 1;
    }
    assert(e.subrange(0, order.len() as int) =~= e);
    let total = order.len();
    let uptime = uptime_milli(successful, total);
    let rtt = rtt_stats(&rtts);
    let unique_colos = distinct_colos(&colos);
    let colo_transitions = count_transitions(&colos);
    let most_frequent_colo = most_frequent_colo(&colos);
    TargetStats {
        url: target.clone(),
        total_checks: total,
        successful_checks: successful,
        uptime_milli: uptime,
        rtt,
        unique_colos,
        colo_transitions,
        most_frequent_colo,
    }
}

/// The targets of a list of statistics.
pub open spec fn stats_urls(s: Seq<TargetStats>) -> Seq<Seq<char>> {
    strs_view(s.map_values(|t: TargetStats| t.url))
}

/// The checks of all of `s` together.
pub open spec fn total_checks_sum(s: Seq<TargetStats>) -> nat
    decreases s.len(),
{
    if s.len() == 0 {
        0
    } else {
        total_checks_sum(s.drop_last()) + s.last().total_checks as nat
    }
}

/// The successful checks of all of `s` together.
pub open spec fn successful_sum(s: Seq<TargetStats>) -> nat
    decreases s.len(),
{
    if s.len() == 0 {
        0
    } else {
        successful_sum(s.drop_last()) + s.last().successful_checks as nat
    }
}

/// The targets reported for `rs`: each configured target among the first
/// `n` that has at least one observation, once, at its first place in the
/// configuration.
pub open spec fn reported_urls(rs: Seq<Observation>, targets: Seq<Seq<char>>, n: int) -> Seq<
    Seq<char>,
>
    decreases n,
{
    if n <= 0 {
        Seq::empty()
    } else {
        let t = targets[n - 1];
        if target_positions(rs, t, rs.len() as int).len() > 0 && !targets.subrange(
            0,
            n - 1,
        ).contains(t) {
            reported_urls(rs, targets, n - 1).push(t)
        } else {
            reported_urls(rs, targets, n - 1)
        }
    }
}

/// How many of the first `n` observations of `rs` belong to one of the
/// targets.
pub open spec fn pooled_total(rs: Seq<Observation>, targets: Seq<Seq<char>>, n: int) -> nat
    decreases n,
{
    if n <= 0 {
        0
    } else {
        pooled_total(rs, targets, n - 1) + if targets.contains(rs[n - 1].url@) {
            1nat
        } else {
            0nat
        }
    }
}

/// How many of the first `n` observations of `rs` belong to one of the
/// targets and succeeded.
pub open spec fn pooled_successful(rs: Seq<Observation>, targets: Seq<Seq<char>>, n: int) -> nat
    decreases n,
{
    if n <= 0 {
        0
    } else {
        pooled_successful(rs, targets, n - 1) + if targets.contains(rs[n - 1].url@)
            && rs[n - 1].success {
            1nat
        } else {
            0nat
        }
    }
}

/// A report over the observations of a time window.
#[derive(Clone, Debug)]
pub struct Report {
    pub since: Timestamp,
    pub until: Timestamp,
    pub configured_targets: usize,
    pub reported_targets: usize,
    /// Successful checks of all reported targets together.
    pub overall_successful: usize,
    /// Checks of all reported targets together.
    pub overall_total: usize,
    /// `overall_successful` out of `overall_total`, in thousandths of a
    /// percent.
    pub overall_uptime_milli: u64,
    pub target_stats: Vec<TargetStats>,
}

/// Builds the report of `results` for the configured `targets`: statistics
/// for each target with observations, in configuration order, and the
/// uptime of all their checks pooled together.
pub fn generate_report(
    results: &Vec<Observation>,
    targets: &Vec<String>,
    since: Timestamp,
    until: Timestamp,
) -> (r: Report)
    ensures
        r.since == since,
        r.until == until,
        r.configured_targets == targets.len(),
        r.reported_targets == r.target_stats.len(),
        stats_urls(r.target_stats@) == reported_urls(
            results@,
            strs_view(targets@),
            targets.len() as int,
        ),
        forall|i: int|
            0 <= i < r.target_stats.len() ==> stats_of(
                #[trigger] r.target_stats@[i],
                results@,
                r.target_stats@[i].url@,
            ),
        r.overall_total == pooled_total(results@, strs_view(targets@), results.len() as int),
        r.overall_successful == pooled_successful(
            results@,
            strs_view(targets@),
            results.len() as int,
        ),
        r.overall_uptime_milli == uptime_milli_of(
            r.overall_successful as nat,
            r.overall_total as nat,
        ),
        r.overall_total == total_checks_sum(r.target_stats@),
        r.overall_successful == successful_sum(r.target_stats@),
{
    let ghost rs = results@;
    let ghost tv = strs_view(targets@);
    let mut list: Vec<TargetStats> = Vec::new();
    let mut i: usize = 0;
    while i < targets.len()
        invariant
            0 <= i <= targets.len(),
            rs == results@,
            tv == strs_view(targets@),
            stats_urls(list@) == reported_urls(rs, tv, i as int),
            forall|m: int| 0 <= m < list.len() ==> stats_of(#[trigger] list@[m], rs, list@[m].url@),
        decreases targets.len() - i,
    {
        let t = &targets[i];
        assert(tv[i as int] == t@);
        assert(strs_view(targets@.subrange(0, i as int)) =~= tv.subrange(0, i as int));
        let seen = contains_str(targets, i, t);
        let stats = target_stats(results, t);
        proof {
            let e = entries(rs, t@);
            lemma_sort_by_key_len(target_positions(rs, t@, rs.len() as int), time_key(rs));
            assert(e.len() == target_positions(rs, t@, rs.len() as int).len());
        }
        if stats.total_checks > 0 && !seen {
            let ghost before = list@;
            list.push(stats);
            assert(list@.map_values(|s: TargetStats| s.url) =~= before.map_values(
                |s: TargetStats| s.url,
            ).push(stats.url));
            assert(stats_urls(list@) =~= stats_urls(before).push(t@));
        }
        i = i + 1;
    }
    let mut total: usize = 0;
    let mut successful: usize = 0;
    let mut k: usize = 0;
    while k < results.len()
        invariant
            0 <= k <= results.len(),
            rs == results@,
            tv == strs_view(targets@),
            total == pooled_total(rs, tv, k as int),
            successful == pooled_successful(rs, tv, k as int),
            successful <= total <= k,
        decreases results.len() - k,
    {
        assert(strs_view(targets@.subrange(0, targets.len() as int)) =~= tv);
        if contains_str(targets, targets.len(), &results[k].url) {
            total = total + 1;
            if results[k].success {
                successful = successful + 1;
            }
        }
        k = k + 1;
    }
    proof {
        lemma_stats_sums(list@, rs);
        lemma_overall_pools_targets(rs, tv);
    }
    let overall = uptime_milli(successful, total);
    Report {
        since,
        until,
        configured_targets: targets.len(),
        reported_targets: list.len(),
        overall_successful: successful,
        overall_total: total,
        overall_uptime_milli: overall,
        target_stats: list,
    }
}

/// Successes among the observations at positions `ps`.
pub open spec fn successes_at(rs: Seq<Observation>, ps: Seq<usize>) -> nat
    decreases ps.len(),
{
    if ps.len() == 0 {
        0
    } else {
        successes_at(rs, ps.drop_last()) + if rs[ps.last() as int].success {
            1nat
        } else {
            0nat
        }
    }
}

proof fn lemma_success_count_at(rs: Seq<Observation>, ps: Seq<usize>)
    ensures
        success_count(at_positions(rs, ps)) == successes_at(rs, ps),
    decreases ps.len(),
{
    if ps.len() > 0 {
        assert(at_positions(rs, ps).drop_last() =~= at_positions(rs, ps.drop_last()));
        lemma_success_count_at(rs, ps.drop_last());
    }
}

proof fn lemma_successes_insert(rs: Seq<Observation>, t: Seq<usize>, x: usize)
    ensures
        successes_at(rs, insert_by_key(t, x, time_key(rs))) == successes_at(rs, t) + if rs[x as int].success {
            1nat
        } else {
            0nat
        },
    decreases t.len(),
{
    let key = time_key(rs);
    if t.len() == 0 {
        assert(seq![x].drop_last() =~= Seq::<usize>::empty());
        assert(successes_at(rs, Seq::<usize>::empty()) == 0);
    } else if key(t.last()) <= key(x) {
        assert(t.push(x).drop_last() =~= t);
    } else {
        lemma_successes_insert(rs, t.drop_last(), x);
        let i = insert_by_key(t.drop_last(), x, key);
        assert(i.push(t.last()).drop_last() =~= i);
    }
}

/// Sorting positions by time keeps the number of successes among them.
proof fn lemma_successes_sorted(rs: Seq<Observation>, ps: Seq<usize>)
    ensures
        successes_at(rs, sort_by_key(ps, time_key(rs))) == successes_at(rs, ps),
    decreases ps.len(),
{
    if ps.len() > 0 {
        lemma_successes_sorted(rs, ps.drop_last());
        lemma_successes_insert(rs, sort_by_key(ps.drop_last(), time_key(rs)), ps.last());
    }
}

/// The checks of the targets `us` among the first `m` observations.
pub open spec fn totals_over(rs: Seq<Observation>, us: Seq<Seq<char>>, m: int) -> nat
    decreases us.len(),
{
    if us.len() == 0 {
        0
    } else {
        totals_over(rs, us.drop_last(), m) + target_positions(rs, us.last(), m).len()
    }
}

/// The successful checks of the targets `us` among the first `m`
/// observations.
pub open spec fn successes_over(rs: Seq<Observation>, us: Seq<Seq<char>>, m: int) -> nat
    decreases us.len(),
{
    if us.len() == 0 {
        0
    } else {
        successes_over(rs, us.drop_last(), m) + successes_at(rs, target_positions(rs, us.last(), m))
    }
}

proof fn lemma_stats_sums(list: Seq<TargetStats>, rs: Seq<Observation>)
    requires
        forall|m: int| 0 <= m < list.len() ==> stats_of(#[trigger] list[m], rs, list[m].url@),
    ensures
        total_checks_sum(list) == totals_over(rs, stats_urls(list), rs.len() as int),
        successful_sum(list) == successes_over(rs, stats_urls(list), rs.len() as int),
    decreases list.len(),
{
    if list.len() > 0 {
        let last = list.last();
        assert(stats_of(list[list.len() - 1], rs, list[list.len() - 1].url@));
        assert(stats_urls(list).drop_last() =~= stats_urls(list.drop_last()));
        assert(stats_urls(list).last() == last.url@);
        lemma_stats_sums(list.drop_last(), rs);
        let ps = target_positions(rs, last.url@, rs.len() as int);
        lemma_sort_by_key_len(ps, time_key(rs));
        lemma_success_count_at(rs, chronological(rs, last.url@));
        lemma_successes_sorted(rs, ps);
    }
}

/// Where no position is taken yet, no target has checks.
proof fn lemma_over_nothing(rs: Seq<Observation>, us: Seq<Seq<char>>)
    ensures
        totals_over(rs, us, 0) == 0,
        successes_over(rs, us, 0) == 0,
    decreases us.len(),
{
    if us.len() > 0 {
        lemma_over_nothing(rs, us.drop_last());
    }
}

/// One more observation adds to the targets that equal its own.
proof fn lemma_over_step(rs: Seq<Observation>, us: Seq<Seq<char>>, m: int)
    requires
        0 < m <= rs.len(),
        rs.len() <= usize::MAX,
    ensures
        totals_over(rs, us, m) == totals_over(rs, us, m - 1) + occurrences(us, rs[m - 1].url@),
        successes_over(rs, us, m) == successes_over(rs, us, m - 1) + if rs[m - 1].success {
            occurrences(us, rs[m - 1].url@)
        } else {
            0nat
        },
    decreases us.len(),
{
    if us.len() > 0 {
        lemma_over_step(rs, us.drop_last(), m);
        let p = target_positions(rs, us.last(), m - 1);
        if rs[m - 1].url@ == us.last() {
            assert(p.push((m - 1) as usize).drop_last() =~= p);
            assert(p.push((m - 1) as usize).last() as int == m - 1);
        }
    }
}

/// Each configured target once, at its first place.
pub open spec fn first_targets(targets: Seq<Seq<char>>, n: int) -> Seq<Seq<char>>
    decreases n,
{
    if n <= 0 {
        Seq::empty()
    } else if !targets.subrange(0, n - 1).contains(targets[n - 1]) {
        first_targets(targets, n - 1).push(targets[n - 1])
    } else {
        first_targets(targets, n - 1)
    }
}

proof fn lemma_first_targets(targets: Seq<Seq<char>>, n: int, x: Seq<char>)
    requires
        0 <= n <= targets.len(),
    ensures
        occurrences(first_targets(targets, n), x) == if targets.subrange(0, n).contains(x) {
            1nat
        } else {
            0nat
        },
    decreases n,
{
    if n > 0 {
        lemma_first_targets(targets, n - 1, x);
        let f = first_targets(targets, n - 1);
        let t = targets[n - 1];
        let a = targets.subrange(0, n - 1);
        let b = targets.subrange(0, n);
        assert(b =~= a.push(t));
        if !a.contains(t) {
            assert(f.push(t).drop_last() =~= f);
        }
        if a.contains(x) {
            let k = choose|k: int| 0 <= k < a.len() && a[k] == x;
            assert(b[k] == x);
        }
        if b.contains(x) && !a.contains(x) {
            let k = choose|k: int| 0 <= k < b.len() && b[k] == x;
            if k < n - 1 {
                assert(a[k] == x);
            }
            assert(t == x);
        }
        if x == t {
            assert(b[n - 1] == x);
        }
    }
}

proof fn lemma_reported_first(rs: Seq<Observation>, targets: Seq<Seq<char>>, n: int)
    requires
        0 <= n <= targets.len(),
    ensures
        totals_over(rs, reported_urls(rs, targets, n), rs.len() as int) == totals_over(
            rs,
            first_targets(targets, n),
            rs.len() as int,
        ),
        successes_over(rs, reported_urls(rs, targets, n), rs.len() as int) == successes_over(
            rs,
            first_targets(targets, n),
            rs.len() as int,
        ),
    decreases n,
{
    if n > 0 {
        lemma_reported_first(rs, targets, n - 1);
        let t = targets[n - 1];
        let r = reported_urls(rs, targets, n - 1);
        let f = first_targets(targets, n - 1);
        if !targets.subrange(0, n - 1).contains(t) {
            assert(f.push(t).drop_last() =~= f);
            if target_positions(rs, t, rs.len() as int).len() > 0 {
                assert(r.push(t).drop_last() =~= r);
            }
        }
    }
}

/// The overall counts of a report pool the checks of its targets: the
/// checks and successful checks of all reported targets, added up, are
/// those of every observation that belongs to a configured target.
pub proof fn lemma_overall_pools_targets(rs: Seq<Observation>, targets: Seq<Seq<char>>)
    requires
        rs.len() <= usize::MAX,
    ensures
        totals_over(rs, reported_urls(rs, targets, targets.len() as int), rs.len() as int)
            == pooled_total(rs, targets, rs.len() as int),
        successes_over(rs, reported_urls(rs, targets, targets.len() as int), rs.len() as int)
            == pooled_successful(rs, targets, rs.len() as int),
{
    let n = targets.len() as int;
    let f = first_targets(targets, n);
    lemma_reported_first(rs, targets, n);
    assert(targets.subrange(0, n) =~= targets);
    lemma_pooled(rs, targets, f, rs.len() as int);
}

proof fn lemma_pooled(rs: Seq<Observation>, targets: Seq<Seq<char>>, f: Seq<Seq<char>>, m: int)
    requires
        0 <= m <= rs.len(),
        rs.len() <= usize::MAX,
        f == first_targets(targets, targets.len() as int),
        targets.subrange(0, targets.len() as int) == targets,
    ensures
        totals_over(rs, f, m) == pooled_total(rs, targets, m),
        successes_over(rs, f, m) == pooled_successful(rs, targets, m),
    decreases m,
{
    if m == 0 {
        lemma_over_nothing(rs, f);
    } else {
        lemma_pooled(rs, targets, f, m - 1);
        lemma_over_step(rs, f, m);
        lemma_first_targets(targets, targets.len() as int, rs[m - 1].url@);
    }
}

} // verus!
