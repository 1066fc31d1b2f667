//! How often each status code and each log line was seen.
//!
//! An aggregate keeps what it saw in the order in which it came. The counts
//! by code and by line are made from that when they are asked for.

use crate::cchain_stats::CChainStatsValue;
use crate::lex::{insert_sorted, strictly_sorted};
use crate::text::string_views;
use vstd::prelude::*;

verus! {

/// How often `x` stands among the first `n` elements of `s`.
pub open spec fn occurrences<T>(s: Seq<T>, x: T, n: int) -> nat
    decreases n,
{
    if n <= 0 {
        0
    } else {
        occurrences(s, x, n - 1) + if s[n - 1] == x {
            1nat
        } else {
            0nat
        }
    }
}

/// The codes stand in ascending order, each once.
pub open spec fn ascending(codes: Seq<i16>) -> bool {
    forall|i: int, j: int| 0 <= i < j < codes.len() ==> codes[i] < codes[j]
}

/// Status codes with the number of times each was seen. `codes` and
/// `counts` run in parallel.
#[derive(Debug)]
pub struct CountedCodes {
    pub codes: Vec<i16>,
    pub counts: Vec<usize>,
}

/// Log lines with the number of times each was seen. `lines` and `counts`
/// run in parallel.
#[derive(Debug)]
pub struct CountedLines {
    pub lines: Vec<String>,
    pub counts: Vec<usize>,
}

/// How often `code` stands in `codes`.
pub fn count_code(codes: &Vec<i16>, code: i16) -> (n: usize)
    ensures
        n == occurrences(codes@, code, codes.len() as int),
{
    let mut n: usize = 0;
    let mut i: usize = 0;
    while i < codes.len()
        invariant
            i <= codes.len(),
            n <= i,
            n == occurrences(codes@, code, i as int),
        decreases codes.len() - i,
    {
        if codes[i] == code {
            n += 1;
        }
        i += 1;
    }
    n
}

/// How often `line` stands in `lines`.
pub fn count_line(lines: &Vec<String>, line: &String) -> (n: usize)
    ensures
        n == occurrences(string_views(lines@), line@, lines.len() as int),
{
    let mut n: usize = 0;
    let mut i: usize = 0;
    while i < lines.len()
        invariant
            i <= lines.len(),
            n <= i,
            n == occurrences(string_views(lines@), line@, i as int),
        decreases lines.len() - i,
    {
        if lines[i] == *line {
            n += 1;
        }
        i += 1;
    }
    n
}

/// Puts `code` at its place in an ascending list, unless it is there.
pub fn insert_code(list: &mut Vec<i16>, code: i16)
    requires
        ascending(old(list)@),
    ensures
        ascending(final(list)@),
        forall|c: i16| #[trigger] final(list)@.contains(c) <==> old(list)@.contains(c) || c == code,
{
    let ghost before = list@;
    let mut p: usize = 0;
    while p < list.len() && list[p] < code
        invariant
            p <= list.len(),
            before == list@,
            forall|q: int| 0 <= q < p ==> before[q] < code,
        decreases list.len() - p,
    {
        p += 1;
    }
    if p < list.len() && list[p] == code {
        assert(before.contains(code));
        return ;
    }
    list.insert(p, code);
    proof {
        let after = list@;
        assert(after =~= before.insert(p as int, code));
        assert forall|i: int, j: int| 0 <= i < j < after.len() implies after[i] < after[j] by {
            if j < p {
            } else if j == p {
            } else if i < p {
                assert(after[j] == before[j - 1]);
            } else if i == p {
                assert(after[j] == before[j - 1]);
            } else {
                assert(after[i] == before[i - 1]);
                assert(after[j] == before[j - 1]);
            }
        }
        assert forall|c: i16| #[trigger] after.contains(c) <==> before.contains(c) || c == code by {
            if after.contains(c) {
                let q = choose|q: int| 0 <= q < after.len() && after[q] == c;
                if q < p {
                    assert(before[q] == c);
                } else if q > p {
                    assert(before[q - 1] == c);
                }
            }
            if before.contains(c) {
                let q = choose|q: int| 0 <= q < before.len() && before[q] == c;
                if q < p {
                    assert(after[q] == c);
                } else {
                    assert(after[q + 1] == c);
                }
            }
            if c == code {
                assert(after[p as int] == c);
            }
        }
    }
}

impl CChainStatsValue {
    /// The status codes that were seen, in ascending order, each with the
    /// number of times it was seen.
    pub fn counted_http_not_ok(&self) -> (r: CountedCodes)
        ensures
            ascending(r.codes@),
            forall|c: i16| #[trigger] r.codes@.contains(c) <==> self.http_not_ok@.contains(c),
            r.counts.len() == r.codes.len(),
            forall|i: int|
                0 <= i < r.codes.len() ==> #[trigger] r.counts@[i] == occurrences(
                    self.http_not_ok@,
                    r.codes@[i],
                    self.http_not_ok.len() as int,
                ),
    {
        let mut codes: Vec<i16> = Vec::new();
        let mut i: usize = 0;
        while i < self.http_not_ok.len()
            invariant
                i <= self.http_not_ok.len(),
                ascending(codes@),
                forall|c: i16|
                    #[trigger] codes@.contains(c) <==> self.http_not_ok@.take(i as int).contains(c),
            decreases self.http_not_ok.len() - i,
        {
            let ghost before = codes@;
            let ghost seen = self.http_not_ok@.take(i as int);
            let ghost next = self.http_not_ok@.take(i + 1);
            insert_code(&mut codes, self.http_not_ok[i]);
            proof {
                assert forall|c: i16| #[trigger] codes@.contains(c) <==> next.contains(c) by {
                    assert(codes@.contains(c) <==> before.contains(c) || c
                        == self.http_not_ok@[i as int]);
                    assert(before.contains(c) <==> seen.contains(c));
                    if seen.contains(c) {
                        let x = choose|x: int| 0 <= x < seen.len() && seen[x] == c;
                        assert(next[x] == c);
                    }
                    if c == self.http_not_ok@[i as int] {
                        assert(next[i as int] == c);
                    }
                    if next.contains(c) {
                        let x = choose|x: int| 0 <= x < next.len() && next[x] == c;
                        if x < i {
                            assert(seen[x] == c);
                        }
                    }
                }
            }
            i += 1;
        }
        assert(self.http_not_ok@.take(self.http_not_ok.len() as int) =~= self.http_not_ok@);
        let mut counts: Vec<usize> = Vec::new();
        let mut k: usize = 0;
        while k < codes.len()
            invariant
                k <= codes.len(),
                counts.len() == k,
                forall|j: int|
                    0 <= j < k ==> #[trigger] counts@[j] == occurrences(
                        self.http_not_ok@,
                        codes@[j],
                        self.http_not_ok.len() as int,
                    ),
            decreases codes.len() - k,
        {
            counts.push(count_code(&self.http_not_ok, codes[k]));
            k += 1;
        }
        CountedCodes { codes, counts }
    }

    /// The error log lines that were seen, in the order of a dictionary,
    /// each with the number of times it was seen.
    pub fn counted_error_logs(&self) -> (r: CountedLines)
        ensures
            strictly_sorted(string_views(r.lines@)),
            forall|t: Seq<char>|
                #![trigger string_views(r.lines@).contains(t)]
                string_views(r.lines@).contains(t) <==> string_views(self.error_logs@).contains(t),
            r.counts.len() == r.lines.len(),
            forall|i: int|
                0 <= i < r.lines.len() ==> #[trigger] r.counts@[i] == occurrences(
                    string_views(self.error_logs@),
                    r.lines@[i]@,
                    self.error_logs.len() as int,
                ),
    {
        let ghost all = string_views(self.error_logs@);
        let mut lines: Vec<String> = Vec::new();
        let mut i: usize = 0;
        assert(string_views(lines@) =~= Seq::<Seq<char>>::empty());
        while i < self.error_logs.len()
            invariant
                i <= self.error_logs.len(),
                all == string_views(self.error_logs@),
                strictly_sorted(string_views(lines@)),
                forall|t: Seq<char>|
                    #![trigger string_views(lines@).contains(t)]
                    string_views(lines@).contains(t) <==> all.take(i as int).contains(t),
            decreases self.error_logs.len() - i,
        {
            let ghost before = string_views(lines@);
            let ghost seen = all.take(i as int);
            let ghost next = all.take(i + 1);
            insert_sorted(&mut lines, self.error_logs[i].as_str());
            proof {
                assert forall|t: Seq<char>|
                    #![trigger string_views(lines@).contains(t)]
                    string_views(lines@).contains(t) <==> next.contains(t) by {
                    assert(string_views(lines@).contains(t) <==> before.contains(t) || t
                        == self.error_logs@[i as int]@);
                    assert(before.contains(t) <==> seen.contains(t));
                    if seen.contains(t) {
                        let x = choose|x: int| 0 <= x < seen.len() && seen[x] == t;
                        assert(next[x] == t);
                    }
                    if t == self.error_logs@[i as int]@ {
                        assert(next[i as int] == t);
                    }
                    if next.contains(t) {
                        let x = choose|x: int| 0 <= x < next.len() && next[x] == t;
                        if x < i {
                            assert(seen[x] == t);
                        }
                    }
                }
            }
            i += 1;
        }
        assert(all.take(self.error_logs.len() as int) =~= all);
        let mut counts: Vec<usize> = Vec::new();
        let mut k: usize = 0;
        while k < lines.len()
            invariant
                k <= lines.len(),
                counts.len() == k,
                all == string_views(self.error_logs@),
                forall|j: int|
                    0 <= j < k ==> #[trigger] counts@[j] == occurrences(
                        all,
                        lines@[j]@,
                        self.error_logs.len() as int,
                    ),
            decreases lines.len() - k,
        {
            counts.push(count_line(&self.error_logs, &lines[k]));
            k += 1;
        }
        CountedLines { lines, counts }
    }
}

} // verus!
