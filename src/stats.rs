use vstd::prelude::*;

verus! {

/// `x` placed into `t` after every element whose key is not above its own,
/// and before the rest: one step of a stable insertion sort.
pub open spec fn insert_by_key<A>(t: Seq<A>, x: A, key: spec_fn(A) -> int) -> Seq<A>
    decreases t.len(),
{
    if t.len() == 0 {
        seq![x]
    } else if key(t.last()) <= key(x) {
        t.push(x)
    } else {
        insert_by_key(t.drop_last(), x, key).push(t.last())
    }
}

/// `s` sorted by `key`, stably: elements with equal keys keep their order.
pub open spec fn sort_by_key<A>(s: Seq<A>, key: spec_fn(A) -> int) -> Seq<A>
    decreases s.len(),
{
    if s.len() == 0 {
        s
    } else {
        insert_by_key(sort_by_key(s.drop_last(), key), s.last(), key)
    }
}

/// Inserting at the first position, from the end, whose predecessor has a
/// key not above that of `x` is the insertion step of the sort.
pub proof fn lemma_insert_by_key_at<A>(t: Seq<A>, x: A, key: spec_fn(A) -> int, j: int)
    requires
        0 <= j <= t.len(),
        forall|k: int| j <= k < t.len() ==> key(#[trigger] t[k]) > key(x),
        j == 0 || key(t[j - 1]) <= key(x),
    ensures
        insert_by_key(t, x, key) == t.insert(j, x),
    decreases t.len(),
{
    if t.len() == 0 {
        assert(t.insert(j, x) =~= seq![x]);
    } else if j == t.len() {
        assert(t.insert(j, x) =~= t.push(x));
    } else {
        assert(key(t[t.len() - 1]) > key(x));
        lemma_insert_by_key_at(t.drop_last(), x, key, j);
        assert(t.insert(j, x) =~= t.drop_last().insert(j, x).push(t.last()));
    }
}

/// Sorting keeps the length.
pub proof fn lemma_sort_by_key_len<A>(s: Seq<A>, key: spec_fn(A) -> int)
    ensures
        sort_by_key(s, key).len() == s.len(),
    decreases s.len(),
{
    if s.len() > 0 {
        let t = sort_by_key(s.drop_last(), key);
        lemma_sort_by_key_len(s.drop_last(), key);
        lemma_insert_by_key_len(t, s.last(), key);
    }
}

/// Inserting adds one element.
pub proof fn lemma_insert_by_key_len<A>(t: Seq<A>, x: A, key: spec_fn(A) -> int)
    ensures
        insert_by_key(t, x, key).len() == t.len() + 1,
    decreases t.len(),
{
    if t.len() > 0 {
        lemma_insert_by_key_len(t.drop_last(), x, key);
    }
}

/// `s` is in ascending order of `key`.
pub open spec fn sorted_by_key<A>(s: Seq<A>, key: spec_fn(A) -> int) -> bool {
    forall|i: int, j: int| 0 <= i < j < s.len() ==> key(#[trigger] s[i]) <= key(#[trigger] s[j])
}

proof fn lemma_insert_by_key_bounded<A>(t: Seq<A>, x: A, key: spec_fn(A) -> int, b: int)
    requires
        forall|m: int| 0 <= m < t.len() ==> key(#[trigger] t[m]) <= b,
        key(x) <= b,
    ensures
        forall|k: int|
            0 <= k < insert_by_key(t, x, key).len() ==> key(#[trigger] insert_by_key(t, x, key)[k])
                <= b,
    decreases t.len(),
{
    lemma_insert_by_key_len(t, x, key);
    if t.len() > 0 && !(key(t.last()) <= key(x)) {
        lemma_insert_by_key_bounded(t.drop_last(), x, key, b);
        lemma_insert_by_key_len(t.drop_last(), x, key);
        assert(key(t[t.len() - 1]) <= b);
    }
}

proof fn lemma_insert_by_key_sorted<A>(t: Seq<A>, x: A, key: spec_fn(A) -> int)
    requires
        sorted_by_key(t, key),
    ensures
        sorted_by_key(insert_by_key(t, x, key), key),
    decreases t.len(),
{
    if t.len() > 0 {
        let last = t.last();
        if key(last) <= key(x) {
            assert forall|i: int, j: int| 0 <= i < j < t.len() + 1 implies key(
                #[trigger] t.push(x)[i],
            ) <= key(#[trigger] t.push(x)[j]) by {
                if j == t.len() {
                    assert(key(t[i]) <= key(t[t.len() - 1]) || i == t.len() - 1);
                }
            }
        } else {
            let d = t.drop_last();
            lemma_insert_by_key_sorted(d, x, key);
            assert forall|m: int| 0 <= m < d.len() implies key(#[trigger] d[m]) <= key(last) by {
                assert(t[m] == d[m]);
                assert(key(t[m]) <= key(t[t.len() - 1]));
            }
            lemma_insert_by_key_bounded(d, x, key, key(last));
            lemma_insert_by_key_len(d, x, key);
        }
    }
}

proof fn lemma_insert_by_key_multiset<A>(t: Seq<A>, x: A, key: spec_fn(A) -> int)
    ensures
        insert_by_key(t, x, key).to_multiset() =~= t.to_multiset().insert(x),
    decreases t.len(),
{
    broadcast use vstd::seq_lib::to_multiset_build;

    if t.len() == 0 {
        assert(seq![x] =~= t.push(x));
    } else if key(t.last()) <= key(x) {
    } else {
        lemma_insert_by_key_multiset(t.drop_last(), x, key);
        assert(t =~= t.drop_last().push(t.last()));
    }
}

/// Sorting by a key puts the elements in ascending order of the key, and
/// neither adds nor drops any.
pub proof fn lemma_sort_by_key_sorts<A>(s: Seq<A>, key: spec_fn(A) -> int)
    ensures
        sorted_by_key(sort_by_key(s, key), key),
        sort_by_key(s, key).to_multiset() =~= s.to_multiset(),
    decreases s.len(),
{
    broadcast use vstd::seq_lib::to_multiset_build;

    if s.len() > 0 {
        lemma_sort_by_key_sorts(s.drop_last(), key);
        lemma_insert_by_key_sorted(sort_by_key(s.drop_last(), key), s.last(), key);
        lemma_insert_by_key_multiset(sort_by_key(s.drop_last(), key), s.last(), key);
        assert(s =~= s.drop_last().push(s.last()));
    }
}

/// The key that orders round-trip times: the value itself.
pub open spec fn value_key() -> spec_fn(u64) -> int {
    |v: u64| v as int
}

/// Round-trip times in ascending order.
pub open spec fn sorted_values(s: Seq<u64>) -> Seq<u64> {
    sort_by_key(s, value_key())
}

/// Sorts round-trip times in ascending order.
pub fn sort_values(v: &Vec<u64>) -> (r: Vec<u64>)
    ensures
        r@ == sorted_values(v@),
{
    let mut r: Vec<u64> = Vec::new();
    let mut i: usize = 0;
    while i < v.len()
        invariant
            0 <= i <= v.len(),
            r@ == sorted_values(v@.subrange(0, i as int)),
        decreases v.len() - i,
    {
        let x = v[i];
        let mut j: usize = r.len();
        while j > 0 && r[j - 1] > x
            invariant
                0 <= j <= r.len(),
                forall|k: int| j <= k < r.len() ==> r@[k] > x,
            decreases j,
        {
            j = j - 1;
        }
        proof {
            lemma_insert_by_key_at(r@, x, value_key(), j as int);
            assert(v@.subrange(0, i + 1).drop_last() =~= v@.subrange(0, i as int));
        }
        r.insert(j, x);
        i = i + 1;
    }
    assert(v@.subrange(0, v.len() as int) =~= v@);
    r
}

/// The p-th percentile of `s`, in hundredths, by linear interpolation
/// between the order statistics at ranks `floor(p (n - 1) / 100)` and the
/// rank above it: `s[lo] (100 - f) + s[lo + 1] f` where `f` is the
/// remainder of `p (n - 1)` by 100. A one-element sequence gives its
/// element, an empty one zero.
pub open spec fn percentile_centi(s: Seq<u64>, p: nat) -> int {
    if s.len() == 0 {
        0
    } else {
        let rank = p * (s.len() - 1);
        let lo = rank / 100;
        let f = rank % 100;
        if f == 0 {
            100 * s[lo as int]
        } else {
            s[lo as int] * (100 - f) + s[lo + 1] * f
        }
    }
}

/// The p-th percentile of `sorted`, in hundredths (see `percentile_centi`).
pub fn percentile(sorted: &Vec<u64>, p: u64) -> (r: u128)
    requires
        p <= 100,
    ensures
        r == percentile_centi(sorted@, p as nat),
{
    let n = sorted.len();
    if n == 0 {
        return 0;
    }
    proof {
        assert(p * (n - 1) <= 100 * (n - 1)) by (nonlinear_arith)
            requires
                p <= 100,
                n >= 1,
        ;
    }
    let rank: u128 = p as u128 * (n as u128 - 1);
    let lo: u128 = rank / 100;
    let f: u128 = rank % 100;
    proof {
        assert(lo <= n - 1);
        assert(f > 0 ==> lo < n - 1) by (nonlinear_arith)
            requires
                rank <= 100 * (n - 1),
                lo == rank / 100,
                f == rank % 100,
        ;
    }
    let low = sorted[lo as usize] as u128;
    if f == 0 {
        100 * low
    } else {
        let high = sorted[lo as usize + 1] as u128;
        proof {
            assert(low * (100 - f) <= 100 * 0x1_0000_0000_0000_0000) by (nonlinear_arith)
                requires
                    low < 0x1_0000_0000_0000_0000,
                    f < 100,
            ;
            assert(high * f <= 100 * 0x1_0000_0000_0000_0000) by (nonlinear_arith)
                requires
                    high < 0x1_0000_0000_0000_0000,
                    f < 100,
            ;
        }
        low * (100 - f) + high * f
    }
}

/// The sum of `s`.
pub open spec fn sum_of(s: Seq<u64>) -> int
    decreases s.len(),
{
    if s.len() == 0 {
        0
    } else {
        sum_of(s.drop_last()) + s.last()
    }
}

/// `num / den` rounded to the nearest integer, halves upward.
pub open spec fn rounded_div(num: int, den: int) -> int {
    (2 * num + den) / (2 * den)
}

/// The mean of `s` in hundredths, to the nearest hundredth; zero when empty.
pub open spec fn mean_centi(s: Seq<u64>) -> int {
    if s.len() == 0 {
        0
    } else {
        rounded_div(100 * sum_of(s), s.len() as int)
    }
}

proof fn lemma_sum_bound(s: Seq<u64>)
    ensures
        0 <= sum_of(s) <= s.len() * 0xffff_ffff_ffff_ffff,
    decreases s.len(),
{
    if s.len() > 0 {
        lemma_sum_bound(s.drop_last());
    }
}

/// Splitting the dividend by its quotient leaves the rounded quotient of
/// the scaled value unchanged.
proof fn lemma_rounded_split(sum: int, n: int, q: int, rem: int)
    requires
        n > 0,
        sum == q * n + rem,
        0 <= rem < n,
    ensures
        rounded_div(100 * sum, n) == 100 * q + (200 * rem + n) / (2 * n),
{
    assert(2 * (100 * sum) + n == (100 * q) * (2 * n) + (200 * rem + n)) by (nonlinear_arith)
        requires
            sum == q * n + rem,
    ;
    assert(((100 * q) * (2 * n) + (200 * rem + n)) / (2 * n) == 100 * q + (200 * rem + n) / (2
        * n)) by (nonlinear_arith)
        requires
            n > 0,
    ;
}

/// The mean of `v` in hundredths (see `mean_centi`).
pub fn mean(v: &Vec<u64>) -> (r: u128)
    ensures
        r == mean_centi(v@),
{
    let n = v.len();
    if n == 0 {
        return 0;
    }
    let mut sum: u128 = 0;
    let mut i: usize = 0;
    while i < n
        invariant
            0 <= i <= n,
            n == v.len(),
            sum == sum_of(v@.subrange(0, i as int)),
        decreases n - i,
    {
        proof {
            lemma_sum_bound(v@.subrange(0, i as int));
            assert(i * 0xffff_ffff_ffff_ffff <= 0xffff_ffff_ffff_ffff * 0xffff_ffff_ffff_ffff) by (nonlinear_arith)
                requires
                    i <= 0xffff_ffff_ffff_ffff,
            ;
            assert(v@.subrange(0, i + 1).drop_last() =~= v@.subrange(0, i as int));
        }
        sum = sum + v[i] as u128;
        i = i + 1;
    }
    assert(v@.subrange(0, n as int) =~= v@);
    let q = sum / n as u128;
    let rem = sum % n as u128;
    proof {
        vstd::arithmetic::div_mod::lemma_fundamental_div_mod(sum as int, n as int);
        assert(sum == q * n + rem) by (nonlinear_arith)
            requires
                sum == n * q + rem,
        ;
        lemma_rounded_split(sum as int, n as int, q as int, rem as int);
        lemma_sum_bound(v@);
        assert(q <= 0xffff_ffff_ffff_ffff) by (nonlinear_arith)
            requires
                sum <= n * 0xffff_ffff_ffff_ffff,
                q == sum / (n as u128),
                n > 0,
        ;
        vstd::arithmetic::div_mod::lemma_div_is_ordered(
            200 * rem as int + n as int,
            200 * (2 * n as int),
            2 * n as int,
        );
        vstd::arithmetic::div_mod::lemma_div_by_multiple(200, 2 * n as int);
    }
    100 * q + (200 * rem + n as u128) / (2 * n as u128)
}

/// The least element of a non-empty `s`.
pub open spec fn min_of(s: Seq<u64>) -> u64
    decreases s.len(),
{
    if s.len() <= 1 {
        s[0]
    } else if s.last() < min_of(s.drop_last()) {
        s.last()
    } else {
        min_of(s.drop_last())
    }
}

/// The greatest element of a non-empty `s`.
pub open spec fn max_of(s: Seq<u64>) -> u64
    decreases s.len(),
{
    if s.len() <= 1 {
        s[0]
    } else if s.last() > max_of(s.drop_last()) {
        s.last()
    } else {
        max_of(s.drop_last())
    }
}

/// Round-trip time statistics of one target; the mean, median and 95th
/// percentile are in hundredths of a millisecond.
#[derive(Clone, Copy, Debug, PartialEq, Eq, Structural)]
pub struct RttStats {
    pub min: u64,
    pub max: u64,
    pub mean_centi: u128,
    pub median_centi: u128,
    pub p95_centi: u128,
}

/// The statistics of `s`: all zero when it is empty.
pub open spec fn rtt_stats_of(s: Seq<u64>) -> RttStats {
    if s.len() == 0 {
        RttStats { min: 0, max: 0, mean_centi: 0, median_centi: 0, p95_centi: 0 }
    } else {
        RttStats {
            min: min_of(s),
            max: max_of(s),
            mean_centi: mean_centi(s) as u128,
            median_centi: percentile_centi(sorted_values(s), 50) as u128,
            p95_centi: percentile_centi(sorted_values(s), 95) as u128,
        }
    }
}

/// The round-trip time statistics of `v` (see `rtt_stats_of`).
pub fn rtt_stats(v: &Vec<u64>) -> (r: RttStats)
    ensures
        r == rtt_stats_of(v@),
{
    if v.len() == 0 {
        return RttStats { min: 0, max: 0, mean_centi: 0, median_centi: 0, p95_centi: 0 };
    }
    let mut lo = v[0];
    let mut hi = v[0];
    let mut i: usize = 1;
    while i < v.len()
        invariant
            1 <= i <= v.len(),
            lo == min_of(v@.subrange(0, i as int)),
            hi == max_of(v@.subrange(0, i as int)),
        decreases v.len() - i,
    {
        proof {
            assert(v@.subrange(0, i + 1).drop_last() =~= v@.subrange(0, i as int));
        }
        if v[i] < lo {
            lo = v[i];
        }
        if v[i] > hi {
            hi = v[i];
        }
        i = i + 1;
    }
    assert(v@.subrange(0, v.len() as int) =~= v@);
    let sorted = sort_values(v);
    let m = mean(v);
    let median = percentile(&sorted, 50);
    let p95 = percentile(&sorted, 95);
    RttStats { min: lo, max: hi, mean_centi: m, median_centi: median, p95_centi: p95 }
}

/// `successful / total` as a percentage in thousandths of a percent, to
/// the nearest thousandth; zero when there were no checks.
pub open spec fn uptime_milli_of(successful: nat, total: nat) -> int {
    if total == 0 {
        0
    } else {
        rounded_div(100_000 * successful as int, total as int)
    }
}

/// The uptime of `successful` checks out of `total`, in thousandths of a
/// percent (see `uptime_milli_of`).
pub fn uptime_milli(successful: usize, total: usize) -> (r: u64)
    requires
        successful <= total,
    ensures
        r == uptime_milli_of(successful as nat, total as nat),
{
    if total == 0 {
        return 0;
    }
    let num: u128 = 200_000 * successful as u128 + total as u128;
    let den: u128 = 2 * total as u128;
    let r = num / den;
    proof {
        assert(r <= 100_000) by (nonlinear_arith)
            requires
                successful <= total,
                total > 0,
                num == 200_000 * successful + total,
                den == 2 * total,
                r == num / den,
        ;
    }
    r as u64
}

} // verus!
