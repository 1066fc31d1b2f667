//! The figures of the tables, as exact fractions.
//!
//! Time is kept in whole microseconds. A figure in milliseconds is a number
//! of microseconds over 1000; a rate is a count over a span of time. Turning
//! a fraction into a decimal number is left to whoever prints it.

use vstd::prelude::*;
use vstd::relations::{sorted_by, total_ordering};
use vstd::seq_lib::{lemma_sorted_unique, to_multiset_insert};

verus! {

/// The fraction `num / den`, with `den > 0`.
#[derive(Clone, Copy, Debug, PartialEq, Eq, Structural)]
pub struct Ratio {
    pub num: i128,
    pub den: i128,
}

/// The order of the microsecond values.
pub open spec fn micros_leq() -> spec_fn(i64, i64) -> bool {
    |a: i64, b: i64| a <= b
}

/// The values of `s` in ascending order.
pub open spec fn sorted_micros(s: Seq<i64>) -> Seq<i64> {
    s.sort_by(micros_leq())
}

/// The sum of the values of `s`.
pub open spec fn sum_micros(s: Seq<i64>) -> int
    decreases s.len(),
{
    if s.len() == 0 {
        0
    } else {
        sum_micros(s.drop_last()) + s.last()
    }
}

/// Whether `m` is the least value of `s`.
pub open spec fn is_min_of(m: i64, s: Seq<i64>) -> bool {
    s.contains(m) && forall|i: int| 0 <= i < s.len() ==> m <= s[i]
}

/// Whether `m` is the greatest value of `s`.
pub open spec fn is_max_of(m: i64, s: Seq<i64>) -> bool {
    s.contains(m) && forall|i: int| 0 <= i < s.len() ==> s[i] <= m
}

/// Twice the median of `s`: the middle value of the ascending order counted
/// twice, or the sum of the two middle values where the number of values is
/// even.
pub open spec fn twice_median(s: Seq<i64>) -> int {
    let t = sorted_micros(s);
    let n = s.len() as int;
    if n % 2 == 1 {
        2 * t[n / 2]
    } else {
        t[n / 2 - 1] + t[n / 2]
    }
}

/// The least value of `s` in milliseconds: the value over 1000.
pub open spec fn millis_min(s: Seq<i64>) -> Option<Ratio> {
    if s.len() == 0 {
        None
    } else {
        Some(Ratio { num: sorted_micros(s)[0] as i128, den: 1000 })
    }
}

/// The greatest value of `s` in milliseconds: the value over 1000.
pub open spec fn millis_max(s: Seq<i64>) -> Option<Ratio> {
    if s.len() == 0 {
        None
    } else {
        Some(Ratio { num: sorted_micros(s).last() as i128, den: 1000 })
    }
}

/// The mean of `s` in milliseconds: the sum over 1000 times the number of
/// values.
pub open spec fn millis_avg(s: Seq<i64>) -> Option<Ratio> {
    if s.len() == 0 {
        None
    } else {
        Some(Ratio { num: sum_micros(s) as i128, den: (1000 * s.len()) as i128 })
    }
}

/// The median of `s` in milliseconds: twice the median over 2000.
pub open spec fn millis_median(s: Seq<i64>) -> Option<Ratio> {
    if s.len() == 0 {
        None
    } else {
        Some(Ratio { num: twice_median(s) as i128, den: 2000 })
    }
}

/// The rate of the events that started at the given times, in events per
/// second and per file: the number of events times 1_000_000, over the
/// microseconds between the first and the last start times the number of
/// files. There is no rate for fewer than two events, for events that all
/// started at once, or without files.
pub open spec fn rate_of(starts: Seq<i64>, files: int) -> Option<Ratio> {
    if starts.len() < 2 || files <= 0 {
        None
    } else {
        let t = sorted_micros(starts);
        let span = t.last() - t[0];
        if span <= 0 {
            None
        } else {
            Some(Ratio { num: (starts.len() * 1_000_000) as i128, den: (span * files) as i128 })
        }
    }
}

/// `num / den`, or nothing where `den` is zero.
pub open spec fn fraction_of(num: nat, den: nat) -> Option<Ratio> {
    if den == 0 {
        None
    } else {
        Some(Ratio { num: num as i128, den: den as i128 })
    }
}

pub proof fn lemma_micros_order()
    ensures
        total_ordering(micros_leq()),
{
}

/// The ascending order of `s` holds the values of `s`, each as often as `s`
/// does, and is as long.
pub proof fn lemma_sorted_micros(s: Seq<i64>)
    ensures
        sorted_by(sorted_micros(s), micros_leq()),
        sorted_micros(s).to_multiset() == s.to_multiset(),
        sorted_micros(s).len() == s.len(),
{
    lemma_micros_order();
    s.lemma_sort_by_ensures(micros_leq());
    vstd::seq_lib::to_multiset_len(s);
    vstd::seq_lib::to_multiset_len(sorted_micros(s));
}

/// A copy of `v` in ascending order.
pub fn sort_micros(v: &Vec<i64>) -> (r: Vec<i64>)
    ensures
        r@ == sorted_micros(v@),
        r.len() == v.len(),
{
    let mut out: Vec<i64> = Vec::new();
    let mut i: usize = 0;
    assert(v@.take(0) =~= Seq::<i64>::empty());
    while i < v.len()
        invariant
            i <= v.len(),
            out.len() == i,
            sorted_by(out@, micros_leq()),
            out@.to_multiset() == v@.take(i as int).to_multiset(),
        decreases v.len() - i,
    {
        let x = v[i];
        let mut p: usize = 0;
        while p < out.len() && out[p] <= x
            invariant
                p <= out.len(),
                forall|q: int| 0 <= q < p ==> out@[q] <= x,
            decreases out.len() - p,
        {
            p += 1;
        }
        let ghost before = out@;
        out.insert(p, x);
        proof {
            to_multiset_insert(before, p as int, x);
            assert(v@.take(i + 1) =~= v@.take(i as int).push(x));
            vstd::seq_lib::to_multiset_build(v@.take(i as int), x);
            assert forall|a: int, b: int| 0 <= a < b < out@.len() implies #[trigger] micros_leq()(
                out@[a],
                out@[b],
            ) by {
                if b < p {
                    assert(micros_leq()(before[a], before[b]));
                } else if b == p {
                } else if a < p {
                    assert(micros_leq()(before[a], before[b - 1]));
                } else if a == p {
                    if p < before.len() {
                        assert(micros_leq()(before[p as int], before[b - 1]) || b - 1 == p);
                    }
                } else {
                    assert(micros_leq()(before[a - 1], before[b - 1]));
                }
            }
        }
        i += 1;
    }
    proof {
        assert(v@.take(v.len() as int) =~= v@);
        lemma_sorted_micros(v@);
        lemma_micros_order();
        lemma_sorted_unique(out@, sorted_micros(v@), micros_leq());
    }
    out
}

/// The ends of the ascending order are the least and the greatest value.
pub proof fn lemma_sorted_ends(s: Seq<i64>)
    requires
        s.len() > 0,
    ensures
        is_min_of(sorted_micros(s)[0], s),
        is_max_of(sorted_micros(s).last(), s),
{
    let t = sorted_micros(s);
    lemma_sorted_micros(s);
    broadcast use vstd::seq_lib::group_to_multiset_ensures;

    assert(t.contains(t[0]));
    assert(t.contains(t.last()));
    assert(t.to_multiset().count(t[0]) > 0);
    assert(s.contains(t[0]));
    assert(t.to_multiset().count(t.last()) > 0);
    assert(s.contains(t.last()));
    assert forall|i: int| 0 <= i < s.len() implies t[0] <= s[i] && s[i] <= t.last() by {
        assert(s.contains(s[i]));
        assert(s.to_multiset().count(s[i]) > 0);
        assert(t.contains(s[i]));
        let j = choose|j: int| 0 <= j < t.len() && t[j] == s[i];
        if j > 0 {
            assert(micros_leq()(t[0], t[j]));
        }
        if j < t.len() - 1 {
            assert(micros_leq()(t[j], t[t.len() - 1]));
        }
    }
}

/// The least value of a list that is not empty.
pub fn min_micros(v: &Vec<i64>) -> (m: i64)
    requires
        v.len() > 0,
    ensures
        is_min_of(m, v@),
{
    let mut m = v[0];
    let mut i: usize = 1;
    while i < v.len()
        invariant
            1 <= i <= v.len(),
            exists|j: int| 0 <= j < i && v@[j] == m,
            forall|j: int| 0 <= j < i ==> m <= v@[j],
        decreases v.len() - i,
    {
        if v[i] < m {
            m = v[i];
        }
        i += 1;
    }
    m
}

/// The greatest value of a list that is not empty.
pub fn max_micros(v: &Vec<i64>) -> (m: i64)
    requires
        v.len() > 0,
    ensures
        is_max_of(m, v@),
{
    let mut m = v[0];
    let mut i: usize = 1;
    while i < v.len()
        invariant
            1 <= i <= v.len(),
            exists|j: int| 0 <= j < i && v@[j] == m,
            forall|j: int| 0 <= j < i ==> v@[j] <= m,
        decreases v.len() - i,
    {
        if v[i] > m {
            m = v[i];
        }
        i += 1;
    }
    m
}

/// The sum of the values.
pub fn total_micros(v: &Vec<i64>) -> (sum: i128)
    ensures
        sum == sum_micros(v@),
{
    let mut sum: i128 = 0;
    let mut i: usize = 0;
    assert(v@.take(0) =~= Seq::<i64>::empty());
    while i < v.len()
        invariant
            i <= v.len(),
            sum == sum_micros(v@.take(i as int)),
            -i * 0x8000_0000_0000_0000 <= sum <= i * 0x7fff_ffff_ffff_ffff,
        decreases v.len() - i,
    {
        assert(v@.take(i + 1).drop_last() =~= v@.take(i as int));
        sum = sum + v[i] as i128;
        i += 1;
    }
    assert(v@.take(v.len() as int) =~= v@);
    sum
}

/// The least value of a list stands first in its ascending order.
pub proof fn lemma_least_is_first(s: Seq<i64>, m: i64)
    requires
        is_min_of(m, s),
    ensures
        sorted_micros(s)[0] == m,
{
    lemma_sorted_ends(s);
    let t = sorted_micros(s);
    let a = choose|a: int| 0 <= a < s.len() && s[a] == t[0];
    let b = choose|b: int| 0 <= b < s.len() && s[b] == m;
}

/// The greatest value of a list stands last in its ascending order.
pub proof fn lemma_greatest_is_last(s: Seq<i64>, m: i64)
    requires
        is_max_of(m, s),
    ensures
        sorted_micros(s).last() == m,
{
    lemma_sorted_ends(s);
    let t = sorted_micros(s);
    let a = choose|a: int| 0 <= a < s.len() && s[a] == t.last();
    let b = choose|b: int| 0 <= b < s.len() && s[b] == m;
}

/// The least duration in milliseconds.
pub fn min_millis(v: &Vec<i64>) -> (r: Option<Ratio>)
    ensures
        r == millis_min(v@),
{
    if v.len() == 0 {
        None
    } else {
        let m = min_micros(v);
        proof {
            lemma_least_is_first(v@, m);
        }
        Some(Ratio { num: m as i128, den: 1000 })
    }
}

/// The greatest duration in milliseconds.
pub fn max_millis(v: &Vec<i64>) -> (r: Option<Ratio>)
    ensures
        r == millis_max(v@),
{
    if v.len() == 0 {
        None
    } else {
        let m = max_micros(v);
        proof {
            lemma_greatest_is_last(v@, m);
        }
        Some(Ratio { num: m as i128, den: 1000 })
    }
}

/// The mean duration in milliseconds.
pub fn avg_millis(v: &Vec<i64>) -> (r: Option<Ratio>)
    ensures
        r == millis_avg(v@),
{
    if v.len() == 0 {
        None
    } else {
        Some(Ratio { num: total_micros(v), den: 1000 * (v.len() as i128) })
    }
}

/// The median duration in milliseconds.
pub fn median_millis(v: &Vec<i64>) -> (r: Option<Ratio>)
    ensures
        r == millis_median(v@),
{
    if v.len() == 0 {
        return None;
    }
    let t = sort_micros(v);
    let n = t.len();
    let mid = n / 2;
    if n % 2 == 1 {
        Some(Ratio { num: 2 * (t[mid] as i128), den: 2000 })
    } else {
        Some(Ratio { num: t[mid - 1] as i128 + t[mid] as i128, den: 2000 })
    }
}

/// The rate of the events that started at the given times, per second and
/// per file.
pub fn avg_rate(starts: &Vec<i64>, num_files: i32) -> (r: Option<Ratio>)
    ensures
        r == rate_of(starts@, num_files as int),
{
    if starts.len() < 2 || num_files <= 0 {
        return None;
    }
    let lo = min_micros(starts);
    let hi = max_micros(starts);
    proof {
        lemma_least_is_first(starts@, lo);
        lemma_greatest_is_last(starts@, hi);
    }
    let span: i128 = hi as i128 - lo as i128;
    if span <= 0 {
        return None;
    }
    let files: i128 = num_files as i128;
    assert(0 < span * files <= 0x1_0000_0000_0000_0000 * 0x8000_0000) by (nonlinear_arith)
        requires
            0 < span <= 0x1_0000_0000_0000_0000,
            0 < files <= 0x8000_0000,
    ;
    Some(Ratio { num: (starts.len() as i128) * 1_000_000, den: span * files })
}

/// `num / den`, or nothing where `den` is zero.
pub fn fraction(num: usize, den: usize) -> (r: Option<Ratio>)
    ensures
        r == fraction_of(num as nat, den as nat),
{
    if den == 0 {
        None
    } else {
        Some(Ratio { num: num as i128, den: den as i128 })
    }
}

} // verus!
