use vstd::prelude::*;

verus! {

/// A sequence of strings, seen as character sequences.
pub open spec fn strs_view(s: Seq<String>) -> Seq<Seq<char>> {
    s.map_values(|x: String| x@)
}

/// Lexicographic order on character sequences, by code point: the order
/// of `str`.
pub open spec fn str_less(a: Seq<char>, b: Seq<char>) -> bool
    decreases a.len(),
{
    if a.len() == 0 {
        b.len() > 0
    } else if b.len() == 0 {
        false
    } else if a[0] != b[0] {
        (a[0] as u32) < (b[0] as u32)
    } else {
        str_less(a.drop_first(), b.drop_first())
    }
}

/// Whether `a` comes before `b` in lexicographic order.
pub fn is_less(a: &str, b: &str) -> (r: bool)
    ensures
        r == str_less(a@, b@),
{
    let la = a.unicode_len();
    let lb = b.unicode_len();
    let mut i: usize = 0;
    assert(a@.skip(0) =~= a@);
    assert(b@.skip(0) =~= b@);
    while i < la && i < lb
        invariant
            i <= la,
            i <= lb,
            la == a@.len(),
            lb == b@.len(),
            str_less(a@, b@) == str_less(a@.skip(i as int), b@.skip(i as int)),
        decreases la - i,
    {
        let ca = a.get_char(i);
        let cb = b.get_char(i);
        if ca != cb {
            return (ca as u32) < (cb as u32);
        }
        assert(a@.skip(i as int).drop_first() =~= a@.skip(i + 1));
        assert(b@.skip(i as int).drop_first() =~= b@.skip(i + 1));
        i = i + 1;
    }
    la < lb
}

/// The number of adjacent pairs in `c` whose identifiers differ.
pub open spec fn transitions(c: Seq<Seq<char>>) -> nat
    decreases c.len(),
{
    if c.len() < 2 {
        0
    } else {
        transitions(c.drop_last()) + if c[c.len() - 2] != c.last() {
            1nat
        } else {
            0nat
        }
    }
}

/// Counts the changes of identifier along `colos`.
pub fn count_transitions(colos: &Vec<String>) -> (r: usize)
    ensures
        r == transitions(strs_view(colos@)),
{
    let n = colos.len();
    if n < 2 {
        return 0;
    }
    let mut count: usize = 0;
    let mut i: usize = 1;
    while i < n
        invariant
            1 <= i <= n,
            n == colos.len(),
            count == transitions(strs_view(colos@.subrange(0, i as int))),
            count < i,
        decreases n - i,
    {
        proof {
            let s = strs_view(colos@.subrange(0, i + 1));
            assert(s.drop_last() =~= strs_view(colos@.subrange(0, i as int)));
            assert(s[s.len() - 2] == colos@[i - 1]@);
            assert(s.last() == colos@[i as int]@);
        }
        if colos[i - 1] != colos[i] {
            count = count + 1;
        }
        i = i + 1;
    }
    assert(colos@.subrange(0, n as int) =~= colos@);
    count
}

/// The identifiers of `c` in the order in which each first appears.
pub open spec fn distinct_in_order(c: Seq<Seq<char>>) -> Seq<Seq<char>>
    decreases c.len(),
{
    if c.len() == 0 {
        c
    } else if distinct_in_order(c.drop_last()).contains(c.last()) {
        distinct_in_order(c.drop_last())
    } else {
        distinct_in_order(c.drop_last()).push(c.last())
    }
}

/// Whether one of the first `end` elements of `v` equals `x`.
pub fn contains_str(v: &Vec<String>, end: usize, x: &String) -> (r: bool)
    requires
        end <= v.len(),
    ensures
        r == strs_view(v@.subrange(0, end as int)).contains(x@),
{
    let mut i: usize = 0;
    while i < end
        invariant
            0 <= i <= end,
            end <= v.len(),
            forall|k: int| 0 <= k < i ==> v@[k]@ != x@,
        decreases v.len() - i,
    {
        if v[i] == *x {
            assert(strs_view(v@.subrange(0, end as int))[i as int] == x@);
            return true;
        }
        i = i + 1;
    }
    assert(!strs_view(v@.subrange(0, end as int)).contains(x@)) by {
        if strs_view(v@.subrange(0, end as int)).contains(x@) {
            let k = choose|k: int|
                0 <= k < end && strs_view(v@.subrange(0, end as int))[k] == x@;
            assert(v@[k]@ == x@);
        }
    }
    false
}

/// The distinct identifiers of `colos`, in order of first appearance.
pub fn distinct_colos(colos: &Vec<String>) -> (r: Vec<String>)
    ensures
        strs_view(r@) == distinct_in_order(strs_view(colos@)),
{
    let mut out: Vec<String> = Vec::new();
    let mut i: usize = 0;
    while i < colos.len()
        invariant
            0 <= i <= colos.len(),
            strs_view(out@) == distinct_in_order(strs_view(colos@.subrange(0, i as int))),
        decreases colos.len() - i,
    {
        proof {
            let s = strs_view(colos@.subrange(0, i + 1));
            assert(s.drop_last() =~= strs_view(colos@.subrange(0, i as int)));
            assert(s.last() == colos@[i as int]@);
        }
        assert(out@.subrange(0, out.len() as int) =~= out@);
        if !contains_str(&out, out.len(), &colos[i]) {
            let c = colos[i].clone();
            let ghost before = out@;
            out.push(c);
            assert(strs_view(out@) =~= strs_view(before).push(c@));
        }
        i = i + 1;
    }
    assert(colos@.subrange(0, colos.len() as int) =~= colos@);
    out
}

/// How many times `x` occurs in `c`.
pub open spec fn occurrences(c: Seq<Seq<char>>, x: Seq<char>) -> nat
    decreases c.len(),
{
    if c.len() == 0 {
        0
    } else {
        occurrences(c.drop_last(), x) + if c.last() == x {
            1nat
        } else {
            0nat
        }
    }
}

/// Counts the occurrences of `x` in `colos`.
pub fn count_occurrences(colos: &Vec<String>, x: &String) -> (r: usize)
    ensures
        r == occurrences(strs_view(colos@), x@),
{
    let mut count: usize = 0;
    let mut i: usize = 0;
    while i < colos.len()
        invariant
            0 <= i <= colos.len(),
            count == occurrences(strs_view(colos@.subrange(0, i as int)), x@),
            count <= i,
        decreases colos.len() - i,
    {
        proof {
            let s = strs_view(colos@.subrange(0, i + 1));
            assert(s.drop_last() =~= strs_view(colos@.subrange(0, i as int)));
            assert(s.last() == colos@[i as int]@);
        }
        if colos[i] == *x {
            count = count + 1;
        }
        i = i + 1;
    }
    assert(colos@.subrange(0, colos.len() as int) =~= colos@);
    count
}

/// Of the candidates, the one that occurs most often in `c`; among those
/// that occur equally often, the greatest in lexicographic order.
pub open spec fn best_among(cands: Seq<Seq<char>>, c: Seq<Seq<char>>) -> Seq<char>
    decreases cands.len(),
{
    if cands.len() <= 1 {
        cands[0]
    } else {
        let b = best_among(cands.drop_last(), c);
        let x = cands.last();
        if occurrences(c, x) > occurrences(c, b) || (occurrences(c, x) == occurrences(c, b)
            && str_less(b, x)) {
            x
        } else {
            b
        }
    }
}

/// The identifier that occurs most often in `c`, ties going to the
/// greatest in lexicographic order; none when `c` is empty.
pub open spec fn most_frequent(c: Seq<Seq<char>>) -> Option<Seq<char>> {
    let d = distinct_in_order(c);
    if d.len() == 0 {
        None
    } else {
        Some(best_among(d, c))
    }
}

/// The identifier that occurs most often in `colos` (see `most_frequent`).
pub fn most_frequent_colo(colos: &Vec<String>) -> (r: Option<String>)
    ensures
        match r {
            Some(s) => most_frequent(strs_view(colos@)) == Some(s@),
            None => most_frequent(strs_view(colos@)) is None,
        },
{
    let d = distinct_colos(colos);
    if d.len() == 0 {
        return None;
    }
    let ghost dv = strs_view(d@);
    let ghost cv = strs_view(colos@);
    let mut best: usize = 0;
    let mut best_count = count_occurrences(colos, &d[0]);
    let mut k: usize = 1;
    assert(dv.subrange(0, 1).len() == 1);
    while k < d.len()
        invariant
            1 <= k <= d.len(),
            dv == strs_view(d@),
            cv == strs_view(colos@),
            best < k,
            d@[best as int]@ == best_among(dv.subrange(0, k as int), cv),
            best_count == occurrences(cv, d@[best as int]@),
        decreases d.len() - k,
    {
        proof {
            assert(dv.subrange(0, k + 1).drop_last() =~= dv.subrange(0, k as int));
            assert(dv.subrange(0, k + 1).last() == d@[k as int]@);
        }
        let c = count_occurrences(colos, &d[k]);
        if c > best_count || (c == best_count && is_less(d[best].as_str(), d[k].as_str())) {
            best = k;
            best_count = c;
        }
        k = k + 1;
    }
    assert(dv.subrange(0, d.len() as int) =~= dv);
    Some(d[best].clone())
}

} // verus!
