//! The operations behind the commands: add, complete, cancel.
//!
//! Each operation is an in-memory transform of the full ordered line
//! list.  Adding appends one encoded line; completing and cancelling
//! resolve a display number against the pending view — numbered
//! newest-first, from the list as it stood when the request was made —
//! and rewrite the resolved line in place.  A batch of completions
//! resolves every number against that one original view, so the
//! numbers the user read keep their meaning across the whole batch.

use vstd::prelude::*;

use crate::codec::{
    apply_cancellation, apply_completion, cancellation_line, completion_line, decode_status,
    encode_new, new_line, status_of, Status,
};
use crate::date::Date;
use crate::resolver::{filtered_indices, matching_indices, resolve, TaskFilter};

verus! {

/// A validation failure: the operation is refused and no line changes.
#[derive(Clone, Copy, PartialEq, Eq, Structural, Debug)]
pub enum TaskError {
    /// An add with no body text.
    EmptyBody,
    /// A display number of zero, or beyond the filtered view.
    OutOfRange,
}

/// Appends a fresh pending task line; refused when the body is empty.
pub fn add_task(lines: &mut Vec<String>, due: &Date, created: &Date, body: &str) -> (r: Result<
    (),
    TaskError,
>)
    requires
        due.valid(),
        created.valid(),
    ensures
        match r {
            Ok(_) => body@.len() > 0 && final(lines).deep_view() == old(lines).deep_view().push(
                new_line(*due, *created, body@),
            ),
            Err(e) => e == TaskError::EmptyBody && body@.len() == 0 && final(lines)@ == old(
                lines,
            )@,
        },
{
    if body.is_empty() {
        return Err(TaskError::EmptyBody);
    }
    let line = encode_new(due, created, body);
    lines.push(line);
    proof {
        assert(lines.deep_view() =~= old(lines).deep_view().push(
            new_line(*due, *created, body@),
        ));
    }
    Ok(())
}

/// One step of a completion batch: display number `n`, resolved
/// against the original pending view `m`, marks its line done when
/// that line still carries the pending token.
pub open spec fn complete_step(ls: Seq<Seq<char>>, m: Seq<int>, n: int, d: Date) -> Seq<
    Seq<char>,
> {
    if 1 <= n <= m.len() {
        let i = m[m.len() - n];
        if 0 <= i < ls.len() && status_of(ls[i]) == Some(Status::Pending) {
            ls.update(i, completion_line(ls[i], d))
        } else {
            ls
        }
    } else {
        ls
    }
}

/// A whole completion batch, applied left to right.
pub open spec fn complete_all(ls: Seq<Seq<char>>, m: Seq<int>, ns: Seq<usize>, d: Date) -> Seq<
    Seq<char>,
>
    decreases ns.len(),
{
    if ns.len() == 0 {
        ls
    } else {
        complete_step(complete_all(ls, m, ns.drop_last(), d), m, ns.last() as int, d)
    }
}

/// Marks the quoted tasks done, dated `d`.  Every number is resolved
/// against the pending view of the list as given; an out-of-range
/// number is reported in its outcome and skips nothing else.
pub fn complete_tasks(lines: &mut Vec<String>, nums: &Vec<usize>, d: &Date) -> (outcomes: Vec<
    Result<usize, TaskError>,
>)
    requires
        d.valid(),
    ensures
        ({
            let ls0 = old(lines).deep_view();
            let m = matching_indices(ls0, TaskFilter::ByStatus(Status::Pending));
            &&& final(lines).deep_view() == complete_all(ls0, m, nums@, *d)
            &&& final(lines)@.len() == old(lines)@.len()
            &&& outcomes@.len() == nums@.len()
            &&& forall|k: int|
                0 <= k < nums@.len() ==> #[trigger] outcomes@[k] == (if 1 <= nums@[k]
                    <= m.len() {
                    Ok::<usize, TaskError>((m[m.len() - nums@[k]] as usize))
                } else {
                    Err::<usize, TaskError>(TaskError::OutOfRange)
                })
        }),
{
    let ghost ls0 = lines.deep_view();
    let pending = TaskFilter::ByStatus(Status::Pending);
    let ghost m = matching_indices(ls0, pending);
    let idx = filtered_indices(lines, &pending);
    let k = idx.len();
    proof {
        assert(m.len() == idx@.len());
    }
    let mut outcomes: Vec<Result<usize, TaskError>> = Vec::new();
    let mut t: usize = 0;
    while t < nums.len()
        invariant
            t <= nums@.len(),
            d.valid(),
            k == idx@.len(),
            m.len() == idx@.len(),
            idx@.map_values(|x: usize| x as int) == m,
            forall|j: int| 0 <= j < idx@.len() ==> #[trigger] idx@[j] < old(lines)@.len(),
            lines@.len() == old(lines)@.len(),
            ls0 == old(lines).deep_view(),
            lines.deep_view() == complete_all(ls0, m, nums@.take(t as int), *d),
            outcomes@.len() == t,
            forall|j: int|
                0 <= j < t ==> #[trigger] outcomes@[j] == (if 1 <= nums@[j] <= m.len() {
                    Ok::<usize, TaskError>((m[m.len() - nums@[j]] as usize))
                } else {
                    Err::<usize, TaskError>(TaskError::OutOfRange)
                }),
        decreases nums@.len() - t,
    {
        let ghost pre = lines.deep_view();
        let n = nums[t];
        if n < 1 || n > k {
            outcomes.push(Err(TaskError::OutOfRange));
            proof {
                assert(complete_step(pre, m, n as int, *d) == pre);
            }
        } else {
            let i = idx[k - n];
            let next = match decode_status(lines[i].as_str()) {
                Some(Status::Pending) => Some(apply_completion(lines[i].as_str(), d)),
                _ => None,
            };
            proof {
                assert(lines.deep_view()[i as int] == lines@[i as int]@);
            }
            match next {
                Some(line2) => {
                    lines.set(i, line2);
                    proof {
                        assert(lines.deep_view() =~= pre.update(
                            i as int,
                            completion_line(pre[i as int], *d),
                        ));
                        assert(complete_step(pre, m, n as int, *d) == lines.deep_view());
                    }
                },
                None => {
                    proof {
                        assert(complete_step(pre, m, n as int, *d) == pre);
                    }
                },
            }
            outcomes.push(Ok(i));
        }
        proof {
            assert(nums@.take(t as int + 1).drop_last() =~= nums@.take(t as int));
            assert(nums@.take(t as int + 1).last() == nums@[t as int]);
            assert(complete_all(ls0, m, nums@.take(t as int + 1), *d) == complete_step(
                complete_all(ls0, m, nums@.take(t as int), *d),
                m,
                nums@[t as int] as int,
                *d,
            ));
        }
        t = t + 1;
    }
    proof {
        assert(nums@.take(nums@.len() as int) =~= nums@);
    }
    outcomes
}

/// Marks one task cancelled, dated `d`.  The display number is
/// resolved against the pending view, newest first; out of range
/// leaves every line unchanged.
pub fn cancel_task(lines: &mut Vec<String>, display_number: usize, d: &Date) -> (r: Result<
    usize,
    TaskError,
>)
    requires
        d.valid(),
    ensures
        ({
            let ls0 = old(lines).deep_view();
            let m = matching_indices(ls0, TaskFilter::ByStatus(Status::Pending));
            match r {
                Ok(i) => {
                    &&& 1 <= display_number <= m.len()
                    &&& i as int == m[m.len() - display_number]
                    &&& i < old(lines)@.len()
                    &&& final(lines).deep_view() == ls0.update(
                        i as int,
                        cancellation_line(ls0[i as int], *d),
                    )
                },
                Err(e) => e == TaskError::OutOfRange && (display_number < 1 || display_number
                    > m.len()) && final(lines)@ == old(lines)@,
            }
        }),
{
    let ghost ls0 = lines.deep_view();
    let pending = TaskFilter::ByStatus(Status::Pending);
    let i = match resolve(lines, &pending, true, display_number) {
        Ok(i) => i,
        Err(e) => {
            return Err(e);
        },
    };
    proof {
        assert(lines.deep_view()[i as int] == lines@[i as int]@);
    }
    let line2 = apply_cancellation(lines[i].as_str(), d);
    lines.set(i, line2);
    proof {
        assert(lines.deep_view() =~= ls0.update(i as int, cancellation_line(ls0[i as int], *d)));
    }
    Ok(i)
}

/// The listed form of a line: the leading `- ` stripped, as the
/// listings print it.
pub open spec fn display_form(s: Seq<char>) -> Seq<char> {
    if s.len() >= 2 && s[0] == '-' && s[1] == ' ' {
        s.skip(2)
    } else {
        s
    }
}

/// Strips the leading `- ` of a line for display.
pub fn display_line<'a>(line: &'a str) -> (r: &'a str)
    ensures
        r@ == display_form(line@),
{
    let n = line.unicode_len();
    if n >= 2 {
        let c0 = line.get_char(0);
        let c1 = line.get_char(1);
        if c0 == '-' && c1 == ' ' {
            return line.substring_char(2, n);
        }
    }
    line
}

} // verus!
