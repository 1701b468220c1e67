//! The library's laws: what holds across operations, proved once here.
//!
//! The codec laws say that encoding and the in-place rewrites never
//! disturb the fields they are not about: a fresh line decodes back to
//! what it was built from, and completing a pending line changes the
//! status and adds the completion date while the due date, creation
//! date, date-prefix span and body all decode unchanged.  The resolver
//! laws say what a mutation does to the numbering: the rewritten line
//! drops out of the filtered view entirely — so display number 1 is
//! never reassigned to it — and a rewrite that changes no line's
//! matching leaves the whole numbering as it was.

use vstd::prelude::*;

use crate::codec::{
    body_of, completion_date_of, completion_line, created_date_of, date_prefix_of,
    date_prefix_span, done_token, due_date_of, first_tag_match, lemma_first_tag_match_skip,
    lemma_tag_shift, new_line, pending_token, status_of, tag_date_at, tag_match_at, Status,
};
use crate::date::{
    date_at, date_chars, date_pattern_at, is_digit, lemma_date_chars_round_trip,
    lemma_date_chars_shape, Date,
};
use crate::resolver::{
    lemma_matching_indices_props, line_matches, matching_from, matching_indices, TaskFilter,
};
use crate::text::{
    find_char, is_space, lemma_find_char, lemma_find_char_shift, lemma_find_char_skip,
    lemma_nonspace_run_end, lemma_nonspace_run_end_shift, lemma_nonspace_run_value,
    lemma_skip_agree, lemma_space_run_end, lemma_space_run_end_shift,
    lemma_trim_leading_space, nonspace_run_end, space_run_end, trim,
};

verus! {

/// Round trip: a freshly encoded line is pending and decodes back to
/// the due and creation dates it was built from, whatever body text it
/// carries.
pub proof fn lemma_new_line_round_trip(due: Date, created: Date, body: Seq<char>)
    requires
        due.valid(),
        created.valid(),
    ensures
        status_of(new_line(due, created, body)) == Some(Status::Pending),
        due_date_of(new_line(due, created, body)) == Some(due),
        created_date_of(new_line(due, created, body)) == Some(created),
        date_prefix_of(new_line(due, created, body)) == Some(
            seq!['📅', ' '] + date_chars(due) + seq![' ', '📋', ' '] + date_chars(created),
        ),
        body_of(new_line(due, created, body)) == trim(body),
{
    let s = new_line(due, created, body);
    lemma_date_chars_round_trip(due);
    lemma_date_chars_round_trip(created);
    lemma_date_chars_shape(due);
    lemma_date_chars_shape(created);
    assert(s.len() == 32 + body.len());
    assert(s[0] == '-');
    assert(s[1] == ' ');
    assert(s[2] == '[');
    assert(s[3] == ' ');
    assert(s[4] == ']');
    assert(s[5] == ' ');
    assert(s[6] == '📅');
    assert(s[7] == ' ');
    assert forall|t: int| 0 <= t < 10 implies s[8 + t] == #[trigger] date_chars(due)[t] by {}
    assert(s[18] == ' ');
    assert(s[19] == '📋');
    assert(s[20] == ' ');
    assert forall|t: int| 0 <= t < 10 implies s[21 + t] == #[trigger] date_chars(created)[t] by {}
    assert(s[31] == ' ');
    // status
    assert(pending_token() =~= s.subrange(0, 5));
    assert(status_of(s) == Some(Status::Pending));
    // due date
    assert forall|k: int| 0 <= k < 6 implies s[k] != '📅' by {}
    lemma_first_tag_match_skip(s, 0, 6, '📅');
    assert(is_digit(s[8]));
    assert(!is_space(s[8]));
    assert(space_run_end(s, 8) == 8);
    assert(space_run_end(s, 7) == 8);
    assert(date_pattern_at(s, 8)) by {
        assert(date_pattern_at(date_chars(due), 0));
    }
    assert(date_at(s, 8) == due) by {
        assert(date_at(s, 8) == date_at(date_chars(due), 0));
    }
    assert(tag_match_at(s, 6, '📅'));
    assert(first_tag_match(s, 6, '📅') == Some(6int));
    assert(tag_date_at(s, 6) == due);
    // creation date
    assert forall|k: int| 0 <= k < 19 implies s[k] != '📋' by {
        if 8 <= k < 18 {
            assert(s[k] == date_chars(due)[k - 8]);
            if k - 8 != 4 && k - 8 != 7 {
                assert(is_digit(date_chars(due)[k - 8]));
            }
        }
    }
    lemma_first_tag_match_skip(s, 0, 19, '📋');
    assert(is_digit(s[21]));
    assert(!is_space(s[21]));
    assert(space_run_end(s, 21) == 21);
    assert(space_run_end(s, 20) == 21);
    assert(date_pattern_at(s, 21)) by {
        assert(date_pattern_at(date_chars(created), 0));
    }
    assert(date_at(s, 21) == created) by {
        assert(date_at(s, 21) == date_at(date_chars(created), 0));
    }
    assert(tag_match_at(s, 19, '📋'));
    assert(first_tag_match(s, 19, '📋') == Some(19int));
    assert(tag_date_at(s, 19) == created);
    // date-prefix span and body
    lemma_find_char_skip(s, 0, 6, '📅');
    assert(find_char(s, 6, '📅') == Some(6int));
    lemma_find_char_skip(s, 7, 19, '📋');
    assert(find_char(s, 19, '📋') == Some(19int));
    assert forall|k: int| 21 <= k < 31 implies !is_space(s[k]) by {
        assert(s[k] == date_chars(created)[k - 21]);
        if k - 21 != 4 && k - 21 != 7 {
            assert(is_digit(date_chars(created)[k - 21]));
        }
    }
    lemma_nonspace_run_value(s, 21, 31);
    assert(date_prefix_span(s) == Some((6int, 31int)));
    assert(s.subrange(6, 31) =~= seq!['📅', ' '] + date_chars(due) + seq![' ', '📋', ' ']
        + date_chars(created));
    assert(s.subrange(31, s.len() as int) =~= seq![' '] + body);
    lemma_trim_leading_space(' ', body);
}

/// Completing a pending line rewrites only what it must: the status
/// becomes done and the completion date decodes to the date applied,
/// while the due date and creation date decode unchanged; and whenever
/// the line has a date-prefix span, the span and the body are
/// preserved too.
#[verifier::rlimit(60)]
pub proof fn lemma_completion_effect(s: Seq<char>, d: Date)
    requires
        status_of(s) == Some(Status::Pending),
        d.valid(),
    ensures
        status_of(completion_line(s, d)) == Some(Status::Done),
        completion_date_of(completion_line(s, d)) == Some(d),
        due_date_of(completion_line(s, d)) == due_date_of(s),
        created_date_of(completion_line(s, d)) == created_date_of(s),
        date_prefix_span(s) is Some ==> date_prefix_of(completion_line(s, d)) == date_prefix_of(
            s,
        ) && body_of(completion_line(s, d)) == body_of(s),
{
    let t = completion_line(s, d);
    lemma_date_chars_shape(d);
    lemma_date_chars_round_trip(d);
    assert(pending_token().is_prefix_of(s));
    assert(s.len() >= 5);
    assert(s[0] == '-' && s[1] == ' ' && s[2] == '[' && s[3] == ' ' && s[4] == ']') by {
        assert(s.subrange(0, 5)[0] == s[0]);
        assert(s.subrange(0, 5)[1] == s[1]);
        assert(s.subrange(0, 5)[2] == s[2]);
        assert(s.subrange(0, 5)[3] == s[3]);
        assert(s.subrange(0, 5)[4] == s[4]);
    }
    assert(t.len() == 13 + s.len());
    assert(t[0] == '-');
    assert(t[1] == ' ');
    assert(t[2] == '[');
    assert(t[3] == 'x');
    assert(t[4] == ']');
    assert(t[5] == ' ');
    assert(t[6] == '✅');
    assert(t[7] == ' ');
    assert forall|u: int| 0 <= u < 10 implies t[8 + u] == #[trigger] date_chars(d)[u] by {}
    assert forall|k: int| 5 <= k < s.len() implies #[trigger] s[k] == t[k + 13] by {
        assert(t[18 + (k - 5)] == s.skip(5)[k - 5]);
    }
    lemma_skip_agree(s, 5, t, 18);
    // status: done, and not pending
    assert(done_token() =~= t.subrange(0, 5));
    assert(!pending_token().is_prefix_of(t)) by {
        assert(t.subrange(0, 5)[3] == 'x');
    }
    assert(status_of(t) == Some(Status::Done));
    // completion date: the inserted tag is leftmost
    assert forall|k: int| 0 <= k < 6 implies t[k] != '✅' by {}
    lemma_first_tag_match_skip(t, 0, 6, '✅');
    assert(is_digit(t[8]));
    assert(!is_space(t[8]));
    assert(space_run_end(t, 8) == 8);
    assert(space_run_end(t, 7) == 8);
    assert(date_pattern_at(t, 8)) by {
        assert(date_pattern_at(date_chars(d), 0));
    }
    assert(date_at(t, 8) == d) by {
        assert(date_at(t, 8) == date_at(date_chars(d), 0));
    }
    assert(tag_match_at(t, 6, '✅'));
    assert(first_tag_match(t, 6, '✅') == Some(6int));
    assert(completion_date_of(t) == Some(d));
    // neither head holds a date glyph
    assert forall|k: int| 0 <= k < 18 implies t[k] != '📅' && t[k] != '📋' by {
        if 8 <= k < 18 {
            assert(t[k] == date_chars(d)[k - 8]);
            if k - 8 != 4 && k - 8 != 7 {
                assert(is_digit(date_chars(d)[k - 8]));
            }
        }
    }
    assert forall|k: int| 0 <= k < 5 implies s[k] != '📅' && s[k] != '📋' by {}
    // due and creation dates decode unchanged
    lemma_first_tag_match_skip(s, 0, 5, '📅');
    lemma_first_tag_match_skip(t, 0, 18, '📅');
    lemma_tag_shift(s, 5, t, 18, '📅');
    lemma_first_tag_match_skip(s, 0, 5, '📋');
    lemma_first_tag_match_skip(t, 0, 18, '📋');
    lemma_tag_shift(s, 5, t, 18, '📋');
    // span and body
    if date_prefix_span(s) is Some {
        lemma_find_char_skip(s, 0, 5, '📅');
        lemma_find_char_skip(t, 0, 18, '📅');
        lemma_find_char_shift(s, 5, t, 18, '📅');
        let i = find_char(s, 0, '📅')->0;
        lemma_find_char(s, 5, '📅');
        assert(5 <= i < s.len());
        assert(find_char(t, 0, '📅') == Some(i + 13));
        lemma_skip_agree(s, i + 1, t, i + 14);
        lemma_find_char_shift(s, i + 1, t, i + 14, '📋');
        let j_opt = find_char(s, i + 1, '📋');
        assert(j_opt is Some);
        let j = j_opt->0;
        lemma_find_char(s, i + 1, '📋');
        assert(i + 1 <= j < s.len());
        lemma_skip_agree(s, j + 1, t, j + 14);
        lemma_space_run_end_shift(s, j + 1, t, j + 14);
        let w = space_run_end(s, j + 1);
        lemma_space_run_end(s, j + 1);
        assert(j + 1 <= w <= s.len());
        lemma_skip_agree(s, w, t, w + 13);
        lemma_nonspace_run_end_shift(s, w, t, w + 13);
        let e = nonspace_run_end(s, w);
        lemma_nonspace_run_end(s, w);
        assert(w <= e <= s.len());
        assert(date_prefix_span(s) == Some((i, e)));
        assert(date_prefix_span(t) == Some((i + 13, e + 13)));
        assert(t.subrange(i + 13, e + 13) =~= s.subrange(i, e));
        assert(t.subrange(e + 13, t.len() as int) =~= s.subrange(e, s.len() as int));
        assert(date_prefix_of(t) == date_prefix_of(s));
        assert(body_of(t) == body_of(s));
    }
}

/// A mutation that drops the rewritten line out of the filtered view —
/// and touches no other line — leaves that line with no display
/// number at all.  In particular display number 1, which named the
/// rewritten line when the resolved number was 1, now names another
/// line or nothing; the first and last positions of the new view are
/// both elsewhere.
pub proof fn lemma_mutated_line_leaves_view(
    ls: Seq<Seq<char>>,
    ls2: Seq<Seq<char>>,
    f: TaskFilter,
    i: int,
)
    requires
        ls2.len() == ls.len(),
        0 <= i < ls.len(),
        forall|j: int| 0 <= j < ls.len() && j != i ==> ls2[j] == ls[j],
        !line_matches(ls2[i], f),
    ensures
        !matching_indices(ls2, f).contains(i),
        matching_indices(ls2, f).len() > 0 ==> matching_indices(ls2, f).first() != i
            && matching_indices(ls2, f).last() != i,
{
    lemma_matching_indices_props(ls2, f);
    let m2 = matching_indices(ls2, f);
    if m2.contains(i) {
        let k = choose|k: int| 0 <= k < m2.len() && m2[k] == i;
        assert(line_matches(ls2[m2[k]], f));
        assert(false);
    }
    if m2.len() > 0 {
        assert(m2.contains(m2.first())) by {
            assert(m2[0] == m2.first());
        }
        assert(m2.contains(m2.last())) by {
            assert(m2[m2.len() - 1] == m2.last());
        }
    }
}

/// A rewrite that changes no line's matching — in particular one that
/// touches lines outside the view, or changes a line without moving it
/// in or out — leaves the whole numbering as it was.
pub proof fn lemma_numbering_stable(ls: Seq<Seq<char>>, ls2: Seq<Seq<char>>, f: TaskFilter)
    requires
        ls2.len() == ls.len(),
        forall|j: int|
            0 <= j < ls.len() ==> line_matches(#[trigger] ls2[j], f) == line_matches(ls[j], f),
    ensures
        matching_indices(ls2, f) == matching_indices(ls, f),
{
    lemma_numbering_stable_from(ls, ls2, f, 0);
}

proof fn lemma_matching_from_agree(
    ls: Seq<Seq<char>>,
    ls2: Seq<Seq<char>>,
    f: TaskFilter,
    a: int,
)
    requires
        ls2.len() == ls.len(),
        0 <= a <= ls.len(),
        forall|j: int| a <= j < ls.len() ==> ls2[j] == ls[j],
    ensures
        matching_from(ls2, f, a) == matching_from(ls, f, a),
    decreases ls.len() - a,
{
    if a < ls.len() {
        lemma_matching_from_agree(ls, ls2, f, a + 1);
    }
}

proof fn lemma_cons_keeps_removal(h: int, m1: Seq<int>, m12: Seq<int>, q: int)
    requires
        0 <= q < m1.len(),
        m12 == m1.subrange(0, q) + m1.subrange(q + 1, m1.len() as int),
    ensures
        seq![h] + m12 == (seq![h] + m1).subrange(0, q + 1) + (seq![h] + m1).subrange(
            q + 2,
            (seq![h] + m1).len() as int,
        ),
{
    let m = seq![h] + m1;
    let l = seq![h] + m12;
    let r = m.subrange(0, q + 1) + m.subrange(q + 2, m.len() as int);
    assert forall|k: int| 0 <= k < l.len() implies #[trigger] l[k] == r[k] by {
        if k == 0 {
            assert(m.subrange(0, q + 1)[0] == m[0]);
        } else if k <= q {
            assert(l[k] == m12[k - 1]);
            assert(m12[k - 1] == m1.subrange(0, q)[k - 1]);
            assert(m.subrange(0, q + 1)[k] == m[k]);
        } else {
            assert(l[k] == m12[k - 1]);
            assert(m12[k - 1] == m1.subrange(q + 1, m1.len() as int)[k - 1 - q]);
            assert(m.subrange(q + 2, m.len() as int)[k - q - 1] == m[k + 1]);
        }
    }
    assert(l =~= r);
}

proof fn lemma_head_removal(h: int, tail: Seq<int>)
    ensures
        tail == (seq![h] + tail).subrange(0, 0) + (seq![h] + tail).subrange(
            1,
            (seq![h] + tail).len() as int,
        ),
{
    let m = seq![h] + tail;
    assert forall|k: int| 0 <= k < tail.len() implies #[trigger] tail[k] == (m.subrange(0, 0)
        + m.subrange(1, m.len() as int))[k] by {
        assert(m.subrange(1, m.len() as int)[k] == m[k + 1]);
    }
    assert(tail =~= m.subrange(0, 0) + m.subrange(1, m.len() as int));
}

proof fn lemma_matching_from_removal(
    ls: Seq<Seq<char>>,
    ls2: Seq<Seq<char>>,
    f: TaskFilter,
    i: int,
    a: int,
) -> (p: int)
    requires
        ls2.len() == ls.len(),
        0 <= a <= i < ls.len(),
        forall|j: int| 0 <= j < ls.len() && j != i ==> ls2[j] == ls[j],
        line_matches(ls[i], f),
        !line_matches(ls2[i], f),
    ensures
        ({
            let m = matching_from(ls, f, a);
            let m2 = matching_from(ls2, f, a);
            &&& 0 <= p < m.len()
            &&& m[p] == i
            &&& m2 == m.subrange(0, p) + m.subrange(p + 1, m.len() as int)
        }),
    decreases i - a,
{
    let m = matching_from(ls, f, a);
    let m2 = matching_from(ls2, f, a);
    if a == i {
        lemma_matching_from_agree(ls, ls2, f, a + 1);
        let tail = matching_from(ls, f, a + 1);
        assert(m == seq![i] + tail);
        assert(m2 == tail);
        lemma_head_removal(i, tail);
        0
    } else {
        let q = lemma_matching_from_removal(ls, ls2, f, i, a + 1);
        let m1 = matching_from(ls, f, a + 1);
        let m12 = matching_from(ls2, f, a + 1);
        assert(ls2[a] == ls[a]);
        if line_matches(ls[a], f) {
            assert(m == seq![a] + m1);
            assert(m2 == seq![a] + m12);
            lemma_cons_keeps_removal(a, m1, m12, q);
            let p = q + 1;
            assert(m[p] == m1[q]);
            p
        } else {
            assert(m == m1);
            assert(m2 == m12);
            q
        }
    }
}

/// The structural form of the resolver law: a mutation that removes
/// one matching line from the view — and touches no other line —
/// leaves a view that is the old one with exactly that position taken
/// out, order preserved.  Hence the rewritten line holds no display
/// number; and display number 1 (the last position, in the
/// newest-first order the pending view uses) keeps its absolute index
/// exactly when the removed line was not number 1, and moves off the
/// removed line when it was.
pub proof fn lemma_view_after_removal(
    ls: Seq<Seq<char>>,
    ls2: Seq<Seq<char>>,
    f: TaskFilter,
    i: int,
) -> (p: int)
    requires
        ls2.len() == ls.len(),
        0 <= i < ls.len(),
        forall|j: int| 0 <= j < ls.len() && j != i ==> ls2[j] == ls[j],
        line_matches(ls[i], f),
        !line_matches(ls2[i], f),
    ensures
        ({
            let m = matching_indices(ls, f);
            let m2 = matching_indices(ls2, f);
            &&& 0 <= p < m.len()
            &&& m[p] == i
            &&& m2 == m.subrange(0, p) + m.subrange(p + 1, m.len() as int)
            &&& m2.len() == m.len() - 1
            &&& !m2.contains(i)
            &&& m.last() != i ==> m2.len() > 0 && m2.last() == m.last()
            &&& m.last() == i && m.len() > 1 ==> m2.last() == m[m.len() - 2] && m2.last() != i
        }),
{
    lemma_matching_indices_props(ls, f);
    let p = lemma_matching_from_removal(ls, ls2, f, i, 0);
    let m = matching_indices(ls, f);
    let m2 = matching_indices(ls2, f);
    lemma_mutated_line_leaves_view(ls, ls2, f, i);
    if m.last() != i {
        assert(p < m.len() - 1);
        assert(m2[m2.len() - 1] == m.subrange(p + 1, m.len() as int)[m.len() - 2 - p]);
        assert(m2.last() == m.last());
    } else {
        assert(p == m.len() - 1) by {
            if p < m.len() - 1 {
                assert(m[p] < m[m.len() - 1]);
            }
        }
        if m.len() > 1 {
            assert(m2[m2.len() - 1] == m.subrange(0, p)[m.len() - 2]);
            assert(m2.last() == m[m.len() - 2]);
            assert(m[m.len() - 2] < m[m.len() - 1]);
        }
    }
    p
}

proof fn lemma_numbering_stable_from(
    ls: Seq<Seq<char>>,
    ls2: Seq<Seq<char>>,
    f: TaskFilter,
    a: int,
)
    requires
        ls2.len() == ls.len(),
        0 <= a <= ls.len(),
        forall|j: int|
            0 <= j < ls.len() ==> line_matches(#[trigger] ls2[j], f) == line_matches(ls[j], f),
    ensures
        matching_from(ls2, f, a) == matching_from(ls, f, a),
    decreases ls.len() - a,
{
    if a < ls.len() {
        lemma_numbering_stable_from(ls, ls2, f, a + 1);
    }
}

} // verus!
