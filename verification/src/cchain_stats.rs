//! What is known of one call chain over all the traces in which it was seen.

use crate::text::{find_name, lemma_index_of, string_views};
use vstd::prelude::*;

verus! {

/// One sighting of a chain in a trace.
#[derive(Debug)]
pub struct ChainObservation {
    /// How long the span at the end of the chain took, in microseconds.
    pub duration_micros: i64,
    /// When that span started, in microseconds since the epoch.
    pub start_dt_micros: i64,
    /// The processes that stand more than once on the chain.
    pub looped: Vec<String>,
    /// The HTTP status codes outside 200..=299 seen along the chain.
    pub http_not_ok: Vec<i16>,
    /// The error log lines seen along the chain.
    pub error_logs: Vec<String>,
}

/// The aggregate of one chain key.
#[derive(Debug)]
pub struct CChainStatsValue {
    pub count: usize,
    pub depth: usize,
    pub duration_micros: Vec<i64>,
    /// Start times, in microseconds since the epoch.
    pub start_dt_micros: Vec<i64>,
    pub looped: Vec<String>,
    /// Whether the chain starts at the root of its trace.
    pub rooted: bool,
    /// How many sightings had an HTTP status outside 200..=299 along the chain.
    pub cc_not_http_ok: usize,
    /// How many sightings had an error log line along the chain.
    pub cc_with_error_log: usize,
    /// Every status code outside 200..=299 that was seen, once per sighting.
    pub http_not_ok: Vec<i16>,
    /// Every error log line that was seen, once per sighting.
    pub error_logs: Vec<String>,
}

/// `a` followed by the names of `b` that are not yet in it, each once.
pub open spec fn union_names(a: Seq<Seq<char>>, b: Seq<Seq<char>>) -> Seq<Seq<char>>
    decreases b.len(),
{
    if b.len() == 0 {
        a
    } else {
        let front = union_names(a, b.drop_last());
        if front.contains(b.last()) {
            front
        } else {
            front.push(b.last())
        }
    }
}

/// Adds to `into` the names of `from` that it does not hold yet.
pub fn add_names(into: &mut Vec<String>, from: &Vec<String>)
    ensures
        string_views(final(into)@) == union_names(string_views(old(into)@), string_views(from@)),
{
    let ghost start = string_views(into@);
    let ghost all = string_views(from@);
    let mut i: usize = 0;
    assert(all.take(0) =~= Seq::<Seq<char>>::empty());
    while i < from.len()
        invariant
            i <= from.len(),
            all == string_views(from@),
            string_views(into@) == union_names(start, all.take(i as int)),
        decreases from.len() - i,
    {
        proof {
            assert(all.take(i + 1).drop_last() =~= all.take(i as int));
            assert(all.take(i + 1).last() == from@[i as int]@);
            lemma_index_of(string_views(into@), from@[i as int]@);
        }
        if find_name(into, from[i].as_str()) >= into.len() {
            let ghost before = into@;
            into.push(from[i].clone());
            assert(string_views(into@) =~= string_views(before).push(from@[i as int]@));
        }
        i += 1;
    }
    assert(all.take(from.len() as int) =~= all);
}

/// Appends `tail` to `buf`.
pub fn append_micros(buf: &mut Vec<i64>, tail: &Vec<i64>)
    ensures
        final(buf)@ == old(buf)@ + tail@,
{
    let mut i: usize = 0;
    while i < tail.len()
        invariant
            i <= tail.len(),
            buf@ == old(buf)@ + tail@.take(i as int),
        decreases tail.len() - i,
    {
        buf.push(tail[i]);
        i += 1;
    }
    assert(tail@.take(tail.len() as int) =~= tail@);
}

/// Appends `tail` to `buf`.
pub fn append_places(buf: &mut Vec<usize>, tail: &Vec<usize>)
    ensures
        final(buf)@ == old(buf)@ + tail@,
{
    let mut i: usize = 0;
    while i < tail.len()
        invariant
            i <= tail.len(),
            buf@ == old(buf)@ + tail@.take(i as int),
        decreases tail.len() - i,
    {
        buf.push(tail[i]);
        i += 1;
    }
    assert(tail@.take(tail.len() as int) =~= tail@);
}

/// Appends `tail` to `buf`.
pub fn append_codes(buf: &mut Vec<i16>, tail: &Vec<i16>)
    ensures
        final(buf)@ == old(buf)@ + tail@,
{
    let mut i: usize = 0;
    while i < tail.len()
        invariant
            i <= tail.len(),
            buf@ == old(buf)@ + tail@.take(i as int),
        decreases tail.len() - i,
    {
        buf.push(tail[i]);
        i += 1;
    }
    assert(tail@.take(tail.len() as int) =~= tail@);
}

/// Appends copies of the strings of `tail` to `buf`.
pub fn append_names(buf: &mut Vec<String>, tail: &Vec<String>)
    ensures
        string_views(final(buf)@) == string_views(old(buf)@) + string_views(tail@),
{
    let mut i: usize = 0;
    while i < tail.len()
        invariant
            i <= tail.len(),
            string_views(buf@) == string_views(old(buf)@) + string_views(tail@).take(i as int),
        decreases tail.len() - i,
    {
        let ghost before = buf@;
        buf.push(tail[i].clone());
        assert(string_views(buf@) =~= string_views(before).push(tail@[i as int]@));
        i += 1;
    }
    assert(string_views(tail@).take(tail.len() as int) =~= string_views(tail@));
}

/// A copy of a list of strings.
pub fn clone_names(names: &Vec<String>) -> (r: Vec<String>)
    ensures
        string_views(r@) == string_views(names@),
{
    let mut r: Vec<String> = Vec::new();
    assert(string_views(r@) =~= Seq::<Seq<char>>::empty());
    append_names(&mut r, names);
    r
}

/// What an aggregate holds, as plain values.
pub struct ValueView {
    pub count: nat,
    pub depth: nat,
    pub duration_micros: Seq<i64>,
    pub start_dt_micros: Seq<i64>,
    pub looped: Seq<Seq<char>>,
    pub rooted: bool,
    pub cc_not_http_ok: nat,
    pub cc_with_error_log: nat,
    pub http_not_ok: Seq<i16>,
    pub error_logs: Seq<Seq<char>>,
}

/// One where `b` holds, else nothing.
pub open spec fn one_if(b: bool) -> nat {
    if b {
        1
    } else {
        0
    }
}

/// The aggregate after one more sighting.
pub open spec fn recorded(
    v: ValueView,
    duration: i64,
    start: i64,
    looped: Seq<Seq<char>>,
    codes: Seq<i16>,
    logs: Seq<Seq<char>>,
) -> ValueView {
    ValueView {
        count: v.count + 1,
        depth: v.depth,
        duration_micros: v.duration_micros.push(duration),
        start_dt_micros: v.start_dt_micros.push(start),
        looped: union_names(v.looped, looped),
        rooted: v.rooted,
        cc_not_http_ok: v.cc_not_http_ok + one_if(codes.len() > 0),
        cc_with_error_log: v.cc_with_error_log + one_if(logs.len() > 0),
        http_not_ok: v.http_not_ok + codes,
        error_logs: v.error_logs + logs,
    }
}

/// Two aggregates of one chain taken together: depth and rootedness of the
/// first, the sightings of both.
pub open spec fn merged_value(a: ValueView, b: ValueView) -> ValueView {
    ValueView {
        count: a.count + b.count,
        depth: a.depth,
        duration_micros: a.duration_micros + b.duration_micros,
        start_dt_micros: a.start_dt_micros + b.start_dt_micros,
        looped: union_names(a.looped, b.looped),
        rooted: a.rooted,
        cc_not_http_ok: a.cc_not_http_ok + b.cc_not_http_ok,
        cc_with_error_log: a.cc_with_error_log + b.cc_with_error_log,
        http_not_ok: a.http_not_ok + b.http_not_ok,
        error_logs: a.error_logs + b.error_logs,
    }
}

impl View for CChainStatsValue {
    type V = ValueView;

    open spec fn view(&self) -> ValueView {
        ValueView {
            count: self.count as nat,
            depth: self.depth as nat,
            duration_micros: self.duration_micros@,
            start_dt_micros: self.start_dt_micros@,
            looped: string_views(self.looped@),
            rooted: self.rooted,
            cc_not_http_ok: self.cc_not_http_ok as nat,
            cc_with_error_log: self.cc_with_error_log as nat,
            http_not_ok: self.http_not_ok@,
            error_logs: string_views(self.error_logs@),
        }
    }
}

/// An aggregate counts the sightings it holds: one duration and one start
/// time each, and no more failures than sightings.
pub open spec fn value_well_formed(v: ValueView) -> bool {
    &&& v.count == v.duration_micros.len()
    &&& v.count == v.start_dt_micros.len()
    &&& v.cc_not_http_ok <= v.count
    &&& v.cc_with_error_log <= v.count
}

impl Clone for CChainStatsValue {
    fn clone(&self) -> (r: Self)
        ensures
            r@ == self@,
    {
        CChainStatsValue {
            count: self.count,
            depth: self.depth,
            duration_micros: self.duration_micros.clone(),
            start_dt_micros: self.start_dt_micros.clone(),
            looped: clone_names(&self.looped),
            rooted: self.rooted,
            cc_not_http_ok: self.cc_not_http_ok,
            cc_with_error_log: self.cc_with_error_log,
            http_not_ok: self.http_not_ok.clone(),
            error_logs: clone_names(&self.error_logs),
        }
    }
}

impl CChainStatsValue {
    /// An aggregate without sightings.
    pub fn new(depth: usize, looped: Vec<String>, rooted: bool) -> (r: Self)
        ensures
            r@ == (ValueView {
                count: 0,
                depth: depth as nat,
                duration_micros: Seq::<i64>::empty(),
                start_dt_micros: Seq::<i64>::empty(),
                looped: string_views(looped@),
                rooted,
                cc_not_http_ok: 0,
                cc_with_error_log: 0,
                http_not_ok: Seq::<i16>::empty(),
                error_logs: Seq::<Seq<char>>::empty(),
            }),
            value_well_formed(r@),
    {
        let r = CChainStatsValue {
            count: 0,
            depth,
            looped,
            rooted,
            duration_micros: Vec::new(),
            start_dt_micros: Vec::new(),
            cc_not_http_ok: 0,
            cc_with_error_log: 0,
            http_not_ok: Vec::new(),
            error_logs: Vec::new(),
        };
        assert(string_views(r.error_logs@) =~= Seq::<Seq<char>>::empty());
        r
    }

    /// Takes in one more sighting of the chain.
    pub fn record(&mut self, seen: &ChainObservation)
        requires
            value_well_formed(old(self)@),
        ensures
            final(self)@ == recorded(
                old(self)@,
                seen.duration_micros,
                seen.start_dt_micros,
                string_views(seen.looped@),
                seen.http_not_ok@,
                string_views(seen.error_logs@),
            ),
            value_well_formed(final(self)@),
    {
        self.duration_micros.push(seen.duration_micros);
        self.start_dt_micros.push(seen.start_dt_micros);
        self.count = self.duration_micros.len();
        add_names(&mut self.looped, &seen.looped);
        if seen.http_not_ok.len() > 0 {
            self.cc_not_http_ok = self.cc_not_http_ok + 1;
        }
        if seen.error_logs.len() > 0 {
            self.cc_with_error_log = self.cc_with_error_log + 1;
        }
        append_codes(&mut self.http_not_ok, &seen.http_not_ok);
        append_names(&mut self.error_logs, &seen.error_logs);
        assert(string_views(seen.error_logs@).len() == seen.error_logs@.len());
    }

    /// Takes in the sightings of another aggregate of the same chain.
    pub fn merge(&mut self, other: &CChainStatsValue)
        requires
            value_well_formed(old(self)@),
            value_well_formed(other@),
        ensures
            final(self)@ == merged_value(old(self)@, other@),
            value_well_formed(final(self)@),
    {
        append_micros(&mut self.duration_micros, &other.duration_micros);
        append_micros(&mut self.start_dt_micros, &other.start_dt_micros);
        self.count = self.duration_micros.len();
        add_names(&mut self.looped, &other.looped);
        self.cc_not_http_ok = self.cc_not_http_ok + other.cc_not_http_ok;
        self.cc_with_error_log = self.cc_with_error_log + other.cc_with_error_log;
        append_codes(&mut self.http_not_ok, &other.http_not_ok);
        append_names(&mut self.error_logs, &other.error_logs);
    }
}

} // verus!
