//! The points of a row that a trend is computed from: the cells that are
//! not empty, each with the place of its run.

use crate::metrics::Ratio;
use vstd::prelude::*;

verus! {

/// The value of a row at one run.
#[derive(Clone, Copy, Debug, PartialEq, Eq, Structural)]
pub struct Point {
    /// The place of the run.
    pub run: usize,
    pub value: Ratio,
}

/// The points of the first `n` cells, without the cells before `drop_count`
/// and without the empty ones.
pub open spec fn points_of(cells: Seq<Option<Ratio>>, drop_count: int, n: int) -> Seq<Point>
    decreases n,
{
    if n <= 0 {
        Seq::<Point>::empty()
    } else {
        let front = points_of(cells, drop_count, n - 1);
        match cells[n - 1] {
            Some(v) => if n - 1 >= drop_count {
                front.push(Point { run: (n - 1) as usize, value: v })
            } else {
                front
            },
            None => front,
        }
    }
}

/// The last `n` of the points, or all of them where there are fewer.
pub open spec fn last_of(points: Seq<Point>, n: int) -> Seq<Point> {
    if n >= points.len() {
        points
    } else if n <= 0 {
        Seq::<Point>::empty()
    } else {
        points.skip(points.len() - n)
    }
}

/// The cells of a row that a trend is computed from: those of the runs
/// from `drop_count` on that are not empty, each with the place of its run.
pub fn present_points(cells: &Vec<Option<Ratio>>, drop_count: usize) -> (points: Vec<Point>)
    ensures
        points@ == points_of(cells@, drop_count as int, cells.len() as int),
{
    let mut points: Vec<Point> = Vec::new();
    let mut i: usize = 0;
    while i < cells.len()
        invariant
            i <= cells.len(),
            points@ == points_of(cells@, drop_count as int, i as int),
        decreases cells.len() - i,
    {
        match cells[i] {
            Some(v) => {
                if i >= drop_count {
                    points.push(Point { run: i, value: v });
                }
            },
            None => {},
        }
        i += 1;
    }
    points
}

/// The last `n` of the points, for the trend over a short time.
pub fn last_points(points: &Vec<Point>, n: usize) -> (last: Vec<Point>)
    ensures
        last@ == last_of(points@, n as int),
{
    let start: usize = if n >= points.len() {
        0
    } else {
        points.len() - n
    };
    let mut last: Vec<Point> = Vec::new();
    let mut i: usize = start;
    while i < points.len()
        invariant
            start <= i <= points.len(),
            last@ == points@.subrange(start as int, i as int),
        decreases points.len() - i,
    {
        last.push(points[i]);
        i += 1;
    }
    proof {
        if n >= points.len() {
            assert(points@.subrange(0, points.len() as int) =~= points@);
        } else if n == 0 {
            assert(last@ =~= Seq::<Point>::empty());
        } else {
            assert(points@.subrange(start as int, points.len() as int) =~= points@.skip(
                points.len() - n,
            ));
        }
    }
    last
}

} // verus!
