//! The index resolver: from display numbers to absolute positions.
//!
//! Listings show a filtered view of the line list, numbered from 1;
//! the pending view is reversed first, so the newest pending task is
//! number 1.  A mutation request quotes such a number, and the
//! resolver maps it back to the absolute position in the full list —
//! recomputed fresh from the current content, never cached — so the
//! rewrite always lands on the line the user saw.

use vstd::prelude::*;

use crate::codec::{
    completion_date_of, decode_completion_date, decode_due_date, decode_status, due_date_of,
    status_of, Status,
};
use crate::date::{day_number, day_number_of, Date};
use crate::ops::TaskError;

verus! {

/// A filter on lines: a status check, possibly combined with an
/// inclusive date-range check on the status's date field.
#[derive(Clone, Copy, PartialEq, Eq, Structural, Debug)]
pub enum TaskFilter {
    /// Every line, whatever it holds.
    Any,
    /// Lines whose status token is the given one.
    ByStatus(Status),
    /// Pending lines whose due date lies at most `days` days after
    /// `from`, both endpoints included.
    DueWithin { from: Date, days: u32 },
    /// Done lines whose completion date lies at most `days` days
    /// before `until`, both endpoints included.
    CompletedWithin { until: Date, days: u32 },
}

/// The dates a filter carries are valid calendar dates.
pub open spec fn filter_valid(f: TaskFilter) -> bool {
    match f {
        TaskFilter::Any => true,
        TaskFilter::ByStatus(_) => true,
        TaskFilter::DueWithin { from, days } => from.valid(),
        TaskFilter::CompletedWithin { until, days } => until.valid(),
    }
}

/// Whether a line satisfies a filter.  A line whose status token or
/// date is malformed satisfies no filter but `Any`.
pub open spec fn line_matches(s: Seq<char>, f: TaskFilter) -> bool {
    match f {
        TaskFilter::Any => true,
        TaskFilter::ByStatus(st) => status_of(s) == Some(st),
        TaskFilter::DueWithin { from, days } => {
            &&& status_of(s) == Some(Status::Pending)
            &&& match due_date_of(s) {
                Some(d) => day_number(from) <= day_number(d) <= day_number(from) + days,
                None => false,
            }
        },
        TaskFilter::CompletedWithin { until, days } => {
            &&& status_of(s) == Some(Status::Done)
            &&& match completion_date_of(s) {
                Some(c) => day_number(until) - days <= day_number(c) <= day_number(until),
                None => false,
            }
        },
    }
}

/// The absolute positions at or after `a` whose lines match `f`, in
/// file order.
pub open spec fn matching_from(lines: Seq<Seq<char>>, f: TaskFilter, a: int) -> Seq<int>
    decreases lines.len() - a,
{
    if a < 0 || a >= lines.len() {
        Seq::empty()
    } else if line_matches(lines[a], f) {
        seq![a] + matching_from(lines, f, a + 1)
    } else {
        matching_from(lines, f, a + 1)
    }
}

/// The absolute positions of all lines matching `f`, in file order.
pub open spec fn matching_indices(lines: Seq<Seq<char>>, f: TaskFilter) -> Seq<int> {
    matching_from(lines, f, 0)
}

/// The matching positions are within bounds, strictly increasing,
/// match the filter, and miss no matching line.
pub proof fn lemma_matching_from_props(lines: Seq<Seq<char>>, f: TaskFilter, a: int)
    requires
        0 <= a <= lines.len(),
    ensures
        ({
            let m = matching_from(lines, f, a);
            &&& m.len() <= lines.len() - a
            &&& forall|k: int|
                0 <= k < m.len() ==> a <= #[trigger] m[k] < lines.len() && line_matches(
                    lines[m[k]],
                    f,
                )
            &&& forall|k1: int, k2: int| 0 <= k1 < k2 < m.len() ==> m[k1] < m[k2]
            &&& forall|i: int|
                a <= i < lines.len() && line_matches(lines[i], f) ==> m.contains(i)
        }),
    decreases lines.len() - a,
{
    let m = matching_from(lines, f, a);
    if a < lines.len() {
        lemma_matching_from_props(lines, f, a + 1);
        let m1 = matching_from(lines, f, a + 1);
        if line_matches(lines[a], f) {
            assert(m == seq![a] + m1);
            assert(m[0] == a);
            assert(forall|k: int| 0 <= k < m1.len() ==> m[k + 1] == #[trigger] m1[k]);
            assert forall|i: int|
                a <= i < lines.len() && line_matches(lines[i], f) implies m.contains(i) by {
                if i == a {
                    assert(m[0] == i);
                } else {
                    assert(m1.contains(i));
                    let k = choose|k: int| 0 <= k < m1.len() && m1[k] == i;
                    assert(m[k + 1] == i);
                }
            }
        } else {
            assert(m == m1);
            assert forall|i: int|
                a <= i < lines.len() && line_matches(lines[i], f) implies m.contains(i) by {
                if i == a {
                } else {
                    assert(m1.contains(i));
                }
            }
        }
    }
}

/// The convenience form of `lemma_matching_from_props` at the start.
pub proof fn lemma_matching_indices_props(lines: Seq<Seq<char>>, f: TaskFilter)
    ensures
        ({
            let m = matching_indices(lines, f);
            &&& m.len() <= lines.len()
            &&& forall|k: int|
                0 <= k < m.len() ==> 0 <= #[trigger] m[k] < lines.len() && line_matches(
                    lines[m[k]],
                    f,
                )
            &&& forall|k1: int, k2: int| 0 <= k1 < k2 < m.len() ==> m[k1] < m[k2]
            &&& forall|i: int|
                0 <= i < lines.len() && line_matches(lines[i], f) ==> m.contains(i)
        }),
{
    lemma_matching_from_props(lines, f, 0);
}

/// Whether one line satisfies a filter.
pub fn matches_line(line: &str, f: &TaskFilter) -> (b: bool)
    requires
        filter_valid(*f),
    ensures
        b == line_matches(line@, *f),
{
    match f {
        TaskFilter::Any => true,
        TaskFilter::ByStatus(st) => {
            match decode_status(line) {
                Some(s2) => s2 == *st,
                None => false,
            }
        },
        TaskFilter::DueWithin { from, days } => {
            let pending = match decode_status(line) {
                Some(Status::Pending) => true,
                _ => false,
            };
            if !pending {
                return false;
            }
            match decode_due_date(line) {
                Some(d) => {
                    let base = day_number_of(from) as u64;
                    let dn = day_number_of(&d) as u64;
                    base <= dn && dn <= base + (*days as u64)
                },
                None => false,
            }
        },
        TaskFilter::CompletedWithin { until, days } => {
            let done = match decode_status(line) {
                Some(Status::Done) => true,
                _ => false,
            };
            if !done {
                return false;
            }
            match decode_completion_date(line) {
                Some(c) => {
                    let base = day_number_of(until) as u64;
                    let dn = day_number_of(&c) as u64;
                    dn <= base && dn + (*days as u64) >= base
                },
                None => false,
            }
        },
    }
}

/// The absolute positions, in file order, of every line matching `f`.
pub fn filtered_indices(lines: &Vec<String>, f: &TaskFilter) -> (idx: Vec<usize>)
    requires
        filter_valid(*f),
    ensures
        idx@.map_values(|x: usize| x as int) == matching_indices(lines.deep_view(), *f),
        idx@.len() <= lines@.len(),
        forall|k: int| 0 <= k < idx@.len() ==> #[trigger] idx@[k] < lines@.len(),
{
    let ghost ls = lines.deep_view();
    let mut idx: Vec<usize> = Vec::new();
    let mut i: usize = 0;
    while i < lines.len()
        invariant
            i <= lines@.len(),
            ls == lines.deep_view(),
            filter_valid(*f),
            forall|k: int| 0 <= k < idx@.len() ==> #[trigger] idx@[k] < i,
            idx@.len() <= i,
            matching_indices(ls, *f) == idx@.map_values(|x: usize| x as int) + matching_from(
                ls,
                *f,
                i as int,
            ),
        decreases lines@.len() - i,
    {
        proof {
            assert(ls[i as int] == lines@[i as int]@);
        }
        if matches_line(lines[i].as_str(), f) {
            let ghost prev = idx@;
            idx.push(i);
            proof {
                assert(idx@.map_values(|x: usize| x as int) =~= prev.map_values(
                    |x: usize| x as int,
                ) + seq![i as int]);
                assert(matching_from(ls, *f, i as int) == seq![i as int] + matching_from(
                    ls,
                    *f,
                    i as int + 1,
                ));
                assert(prev.map_values(|x: usize| x as int) + (seq![i as int] + matching_from(
                    ls,
                    *f,
                    i as int + 1,
                )) =~= idx@.map_values(|x: usize| x as int) + matching_from(ls, *f, i as int + 1));
            }
        } else {
            proof {
                assert(matching_from(ls, *f, i as int) == matching_from(ls, *f, i as int + 1));
            }
        }
        i = i + 1;
    }
    proof {
        assert(matching_from(ls, *f, i as int) =~= Seq::<int>::empty());
        assert(matching_indices(ls, *f) =~= idx@.map_values(|x: usize| x as int));
        assert(idx@.map_values(|x: usize| x as int).len() == idx@.len());
    }
    idx
}

/// The numbered view: pairs of a 1-based display number and the
/// absolute position it stands for, reversed first when newest tasks
/// come first.
pub fn display_numbering(lines: &Vec<String>, f: &TaskFilter, newest_first: bool) -> (entries: Vec<
    (usize, usize),
>)
    requires
        filter_valid(*f),
    ensures
        ({
            let m = matching_indices(lines.deep_view(), *f);
            &&& entries@.len() == m.len()
            &&& forall|j: int|
                0 <= j < m.len() ==> (#[trigger] entries@[j]).0 as int == j + 1
            &&& forall|j: int|
                0 <= j < m.len() ==> (#[trigger] entries@[j]).1 as int == (if newest_first {
                    m[m.len() - 1 - j]
                } else {
                    m[j]
                })
        }),
{
    let ghost m = matching_indices(lines.deep_view(), *f);
    let idx = filtered_indices(lines, f);
    let k = idx.len();
    proof {
        assert(m.len() == idx@.len());
    }
    let mut entries: Vec<(usize, usize)> = Vec::new();
    let mut j: usize = 0;
    while j < k
        invariant
            j <= k,
            k == idx@.len(),
            m.len() == idx@.len(),
            idx@.map_values(|x: usize| x as int) == m,
            entries@.len() == j,
            forall|t: int| 0 <= t < j ==> (#[trigger] entries@[t]).0 as int == t + 1,
            forall|t: int|
                0 <= t < j ==> (#[trigger] entries@[t]).1 as int == (if newest_first {
                    m[m.len() - 1 - t]
                } else {
                    m[t]
                }),
        decreases k - j,
    {
        let pos = if newest_first {
            idx[k - 1 - j]
        } else {
            idx[j]
        };
        entries.push((j + 1, pos));
        j = j + 1;
    }
    entries
}

/// Maps a user-quoted display number, under the same filter and order
/// as the listing that showed it, back to the absolute position of
/// that line.  Out of range exactly when the number is zero or exceeds
/// the count of matching lines; nothing is touched in that case.
pub fn resolve(
    lines: &Vec<String>,
    f: &TaskFilter,
    newest_first: bool,
    display_number: usize,
) -> (r: Result<usize, TaskError>)
    requires
        filter_valid(*f),
    ensures
        ({
            let m = matching_indices(lines.deep_view(), *f);
            match r {
                Ok(i) => 1 <= display_number <= m.len() && i as int == (if newest_first {
                    m[m.len() - display_number]
                } else {
                    m[display_number - 1]
                }) && i < lines@.len() && line_matches(lines.deep_view()[i as int], *f),
                Err(e) => e == TaskError::OutOfRange && (display_number < 1 || display_number
                    > m.len()),
            }
        }),
{
    let ghost m = matching_indices(lines.deep_view(), *f);
    let idx = filtered_indices(lines, f);
    let k = idx.len();
    proof {
        assert(m.len() == idx@.len());
    }
    if display_number < 1 || display_number > k {
        return Err(TaskError::OutOfRange);
    }
    let i = if newest_first {
        idx[k - display_number]
    } else {
        idx[display_number - 1]
    };
    proof {
        lemma_matching_indices_props(lines.deep_view(), *f);
        assert(lines.deep_view().len() == lines@.len());
        let pos: int = if newest_first {
            m.len() - display_number
        } else {
            display_number - 1
        };
        assert(idx@.map_values(|x: usize| x as int)[pos] == idx@[pos] as int);
        assert(0 <= m[pos] < lines.deep_view().len());
        assert(line_matches(lines.deep_view()[m[pos]], *f));
    }
    Ok(i)
}

} // verus!
