use vstd::prelude::*;
use crate::cursor::{parse_i64, parse_i64_spec};

verus! {

/// `i` is the position of the first `-` of `s`, or its length when it has none.
pub open spec fn first_dash(s: Seq<char>, i: int) -> bool {
    &&& 0 <= i <= s.len()
    &&& (i < s.len() ==> s[i] == '-')
    &&& forall|j: int| 0 <= j < i ==> s[j] != '-'
}

pub open spec fn split_point(s: Seq<char>) -> int {
    choose|i: int| first_dash(s, i)
}

/// A range of message offsets written `from`, `from-` or `from-to`.
pub open spec fn range_spec(s: Seq<char>) -> Option<(i64, Option<i64>)> {
    let d = split_point(s);
    let head = s.subrange(0, d);
    let tail = if d < s.len() { s.subrange(d + 1, s.len() as int) } else { Seq::empty() };
    match parse_i64_spec(head) {
        None => None,
        Some(f) => if tail.len() == 0 {
            Some((f as i64, None))
        } else {
            match parse_i64_spec(tail) {
                Some(t) => Some((f as i64, Some(t as i64))),
                None => None,
            }
        },
    }
}

/// Reads the offset range of a migration run: `from`, `from-` (both open-ended) or `from-to`.
pub fn parse_range(range: &str) -> (r: Option<(i64, Option<i64>)>)
    ensures
        r == range_spec(range@),
{
    let n = range.unicode_len();
    let mut d: usize = 0;
    while d < n && range.get_char(d) != '-'
        invariant
            n == range@.len(),
            d <= n,
            forall|j: int| 0 <= j < d ==> range@[j] != '-',
        decreases n - d,
    {
        d = d + 1;
    }
    proof {
        assert(first_dash(range@, d as int));
        let k = split_point(range@);
        assert(first_dash(range@, k));
        if k < d {
            assert(range@[k] != '-');
        } else if d < k {
            assert(range@[d as int] != '-');
        }
    }
    let from = match parse_i64(range.substring_char(0, d)) {
        Some(v) => v,
        None => return None,
    };
    if d >= n || d + 1 == n {
        assert(d < n ==> range@.subrange(d + 1, n as int).len() == 0);
        return Some((from, None));
    }
    match parse_i64(range.substring_char(d + 1, n)) {
        Some(t) => Some((from, Some(t))),
        None => None,
    }
}

/// The number of messages a run moves: from `from` up to `to`, or up to the end when `to`
/// is absent or lies beyond the last message.
pub open spec fn total_spec(from: int, to: Option<i64>, count: int) -> int {
    match to {
        Some(t) => if t > count { count - from } else { t - from },
        None => count - from,
    }
}

pub open spec fn batch_end_spec(start: int, to: Option<i64>, batch_size: int) -> int {
    match to {
        Some(t) => if start + batch_size < t { start + batch_size } else { t as int },
        None => start + batch_size,
    }
}

pub fn total_count(from: i64, to: Option<i64>, count: i64) -> (r: i64)
    requires
        0 <= from,
        0 <= count,
        to matches Some(t) ==> 0 <= t,
    ensures
        r == total_spec(from as int, to, count as int),
{
    match to {
        Some(t) => if t > count {
            count - from
        } else {
            t - from
        },
        None => count - from,
    }
}

/// The batches of a migration run, as offset ranges: they start at `from` and step by
/// `batch_size` while the start lies within the total; each ends a batch later, and no later
/// than `to` when it is given.
pub fn migration_batches(from: i64, to: Option<i64>, count: i64, batch_size: i64) -> (r: Vec<(i64, i64)>)
    requires
        0 <= from,
        0 <= count,
        to matches Some(t) ==> 0 <= t,
        1 <= batch_size,
        count + batch_size <= i64::MAX,
        to matches Some(t) ==> t + batch_size <= i64::MAX,
    ensures
        ({
            let total = total_spec(from as int, to, count as int);
            &&& forall|k: int| 0 <= k < r@.len() ==> (#[trigger] r@[k]).0 == from + k * batch_size && r@[k].0 < from
                + total && r@[k].1 == batch_end_spec(r@[k].0 as int, to, batch_size as int)
            &&& from + r@.len() * batch_size >= from + total
        }),
{
    let total = total_count(from, to, count);
    let stop = from + total;
    let mut out: Vec<(i64, i64)> = Vec::new();
    let mut start: i64 = from;
    if stop <= from {
        assert(from + 0 * batch_size >= from + total);
        return out;
    }
    while start < stop
        invariant
            from <= start,
            stop == from + total,
            total == total_spec(from as int, to, count as int),
            from < stop,
            stop <= count,
            to matches Some(t) ==> stop <= t,
            start <= stop + batch_size,
            1 <= batch_size,
            count + batch_size <= i64::MAX,
            to matches Some(t) ==> t + batch_size <= i64::MAX,
            start == from + out@.len() * batch_size,
            forall|k: int| 0 <= k < out@.len() ==> (#[trigger] out@[k]).0 == from + k * batch_size && out@[k].0 < stop
                && out@[k].1 == batch_end_spec(out@[k].0 as int, to, batch_size as int),
        decreases stop + batch_size - start,
    {
        let end = match to {
            Some(t) => if start + batch_size < t {
                start + batch_size
            } else {
                t
            },
            None => start + batch_size,
        };
        out.push((start, end));
        proof {
            assert(from + (out@.len() - 1) * batch_size + batch_size == from + out@.len() * batch_size) by (nonlinear_arith);
        }
        start = start + batch_size;
    }
    out
}

} // verus!
