//! The record codec: one task per line of text.
//!
//! A line starts with a status token — `- [ ]` pending, `- [x]` done,
//! `- [-]` cancelled — and carries dates tagged by glyphs: `📅` before
//! the due date, `📋` before the creation date, `✅` before a
//! completion date and `❌` before a cancellation date.  A tagged date
//! is the glyph, at least one whitespace character, and a valid
//! `YYYY-MM-DD` date; decoding finds the leftmost such occurrence and
//! treats anything malformed as absent rather than as an error, so
//! foreign or hand-edited lines never fail, they simply match no
//! filter.
//!
//! The date-prefix span runs from the first `📅` through the first
//! following `📋` and the non-whitespace run after it (the creation
//! date's token).  Cancellation preserves that span verbatim and wraps
//! the body — the trimmed remainder after the span — in `~~` markers.

use vstd::prelude::*;

use crate::date::{
    date_at, date_chars, date_pattern_at, parse_date_at, push_date, Date,
};
use crate::text::{
    char_is_space, find_char, is_space, lemma_rtrim_end, lemma_space_run_end, line_chars,
    nonspace_run_end, rtrim_end, space_run_end, trim,
};

verus! {

/// The state a line's status token declares.
#[derive(Clone, Copy, PartialEq, Eq, Structural, Debug)]
pub enum Status {
    Pending,
    Done,
    Cancelled,
}

pub open spec fn pending_token() -> Seq<char> {
    seq!['-', ' ', '[', ' ', ']']
}

pub open spec fn done_token() -> Seq<char> {
    seq!['-', ' ', '[', 'x', ']']
}

pub open spec fn cancelled_token() -> Seq<char> {
    seq!['-', ' ', '[', '-', ']']
}

/// The status a line declares with its leading token, if any.
pub open spec fn status_of(s: Seq<char>) -> Option<Status> {
    if pending_token().is_prefix_of(s) {
        Some(Status::Pending)
    } else if done_token().is_prefix_of(s) {
        Some(Status::Done)
    } else if cancelled_token().is_prefix_of(s) {
        Some(Status::Cancelled)
    } else {
        None
    }
}

/// Whether position `i` starts a tagged date: the glyph `g`, at least
/// one whitespace character, then a valid `YYYY-MM-DD` date.
pub open spec fn tag_match_at(s: Seq<char>, i: int, g: char) -> bool {
    &&& 0 <= i < s.len()
    &&& s[i] == g
    &&& space_run_end(s, i + 1) > i + 1
    &&& date_pattern_at(s, space_run_end(s, i + 1))
    &&& date_at(s, space_run_end(s, i + 1)).valid()
}

/// The date of the tagged-date occurrence starting at `i`.
pub open spec fn tag_date_at(s: Seq<char>, i: int) -> Date {
    date_at(s, space_run_end(s, i + 1))
}

/// The leftmost position at or after `i` where a tagged date with
/// glyph `g` starts.
pub open spec fn first_tag_match(s: Seq<char>, i: int, g: char) -> Option<int>
    decreases s.len() - i,
{
    if i < 0 || i >= s.len() {
        None
    } else if tag_match_at(s, i, g) {
        Some(i)
    } else {
        first_tag_match(s, i + 1, g)
    }
}

/// The date of the leftmost tagged-date occurrence with glyph `g`.
pub open spec fn tagged_date(s: Seq<char>, g: char) -> Option<Date> {
    match first_tag_match(s, 0, g) {
        Some(i) => Some(tag_date_at(s, i)),
        None => None,
    }
}

pub open spec fn due_date_of(s: Seq<char>) -> Option<Date> {
    tagged_date(s, '📅')
}

pub open spec fn created_date_of(s: Seq<char>) -> Option<Date> {
    tagged_date(s, '📋')
}

pub open spec fn completion_date_of(s: Seq<char>) -> Option<Date> {
    tagged_date(s, '✅')
}

/// The date-prefix span: from the first `📅` through the first `📋`
/// after it, the whitespace that follows, and the creation date's
/// non-whitespace token.  The bounds are a half-open character range.
pub open spec fn date_prefix_span(s: Seq<char>) -> Option<(int, int)> {
    match find_char(s, 0, '📅') {
        Some(i) => match find_char(s, i + 1, '📋') {
            Some(j) => Some((i, nonspace_run_end(s, space_run_end(s, j + 1)))),
            None => None,
        },
        None => None,
    }
}

/// The text of the date-prefix span, if the line has one.
pub open spec fn date_prefix_of(s: Seq<char>) -> Option<Seq<char>> {
    match date_prefix_span(s) {
        Some((a, e)) => Some(s.subrange(a, e)),
        None => None,
    }
}

/// The body: what follows the date-prefix span, trimmed; the whole
/// line trimmed where there is no span.
pub open spec fn body_of(s: Seq<char>) -> Seq<char> {
    match date_prefix_span(s) {
        Some((a, e)) => trim(s.subrange(e, s.len() as int)),
        None => trim(s),
    }
}

/// A fresh pending line: status token, tagged due date, tagged
/// creation date, body.
pub open spec fn new_line(due: Date, created: Date, body: Seq<char>) -> Seq<char> {
    seq!['-', ' ', '[', ' ', ']', ' ', '📅', ' '] + date_chars(due) + seq![' ', '📋', ' ']
        + date_chars(created) + seq![' '] + body
}

/// A pending line after completion: the pending token becomes the done
/// token followed by the tagged completion date; the rest of the line
/// is kept as it was.
pub open spec fn completion_line(s: Seq<char>, d: Date) -> Seq<char> {
    seq!['-', ' ', '[', 'x', ']', ' ', '✅', ' '] + date_chars(d) + s.skip(5)
}

/// A line after cancellation: cancelled token, tagged cancellation
/// date, the date-prefix span preserved verbatim, and the body wrapped
/// in strikethrough markers.
pub open spec fn cancellation_line(s: Seq<char>, d: Date) -> Seq<char> {
    let span: Seq<char> = match date_prefix_span(s) {
        Some((a, e)) => s.subrange(a, e),
        None => Seq::empty(),
    };
    seq!['-', ' ', '[', '-', ']', ' ', '❌', ' '] + date_chars(d) + seq![' '] + span
        + seq![' ', '~', '~'] + body_of(s) + seq!['~', '~']
}

fn status_of_vec(v: &Vec<char>) -> (r: Option<Status>)
    ensures
        r == status_of(v@),
{
    if v.len() >= 5 && v[0] == '-' && v[1] == ' ' && v[2] == '[' && v[4] == ']' {
        if v[3] == ' ' {
            proof {
                assert(pending_token() =~= v@.subrange(0, 5));
            }
            Some(Status::Pending)
        } else if v[3] == 'x' {
            proof {
                assert(done_token() =~= v@.subrange(0, 5));
                assert(v@.subrange(0, 5)[3] == 'x');
            }
            Some(Status::Done)
        } else if v[3] == '-' {
            proof {
                assert(cancelled_token() =~= v@.subrange(0, 5));
                assert(v@.subrange(0, 5)[3] == '-');
            }
            Some(Status::Cancelled)
        } else {
            proof {
                if v@.len() >= 5 {
                    assert(v@.subrange(0, 5)[3] == v@[3]);
                }
            }
            None
        }
    } else {
        proof {
            if v@.len() >= 5 {
                assert(v@.subrange(0, 5)[0] == v@[0]);
                assert(v@.subrange(0, 5)[1] == v@[1]);
                assert(v@.subrange(0, 5)[2] == v@[2]);
                assert(v@.subrange(0, 5)[4] == v@[4]);
            }
        }
        None
    }
}

/// Decodes the status token at the line's start; `None` where no
/// recognized token is present.
pub fn decode_status(line: &str) -> (r: Option<Status>)
    ensures
        r == status_of(line@),
{
    let v = line_chars(line);
    status_of_vec(&v)
}

fn tag_at(v: &Vec<char>, i: usize, g: char) -> (r: Option<Date>)
    requires
        i < v@.len(),
    ensures
        match r {
            Some(d) => tag_match_at(v@, i as int, g) && tag_date_at(v@, i as int) == d,
            None => !tag_match_at(v@, i as int, g),
        },
{
    let n = v.len();
    if v[i] != g {
        return None;
    }
    let mut j: usize = i + 1;
    while j < v.len() && char_is_space(v[j])
        invariant
            i + 1 <= j <= v@.len(),
            space_run_end(v@, i as int + 1) == space_run_end(v@, j as int),
        decreases v@.len() - j,
    {
        proof {
            assert(space_run_end(v@, j as int) == space_run_end(v@, j as int + 1));
        }
        j = j + 1;
    }
    proof {
        assert(space_run_end(v@, j as int) == j as int);
    }
    if j == i + 1 {
        return None;
    }
    parse_date_at(v, j)
}

fn scan_tag(v: &Vec<char>, g: char) -> (r: Option<Date>)
    ensures
        r == tagged_date(v@, g),
        match r {
            Some(d) => d.valid(),
            None => true,
        },
{
    let mut i: usize = 0;
    while i < v.len()
        invariant
            i <= v@.len(),
            first_tag_match(v@, 0, g) == first_tag_match(v@, i as int, g),
        decreases v@.len() - i,
    {
        match tag_at(v, i, g) {
            Some(d) => {
                proof {
                    assert(first_tag_match(v@, i as int, g) == Some(i as int));
                }
                return Some(d);
            },
            None => {
                proof {
                    assert(first_tag_match(v@, i as int, g) == first_tag_match(
                        v@,
                        i as int + 1,
                        g,
                    ));
                }
            },
        }
        i = i + 1;
    }
    proof {
        assert(first_tag_match(v@, i as int, g) is None);
    }
    None
}

/// Decodes the due date: the leftmost `📅` followed by whitespace and
/// a valid `YYYY-MM-DD` date; `None` where the pattern or the date is
/// malformed.
pub fn decode_due_date(line: &str) -> (r: Option<Date>)
    ensures
        r == due_date_of(line@),
        match r {
            Some(d) => d.valid(),
            None => true,
        },
{
    let v = line_chars(line);
    scan_tag(&v, '📅')
}

/// Decodes the creation date, keyed on the `📋` glyph.
pub fn decode_created_date(line: &str) -> (r: Option<Date>)
    ensures
        r == created_date_of(line@),
        match r {
            Some(d) => d.valid(),
            None => true,
        },
{
    let v = line_chars(line);
    scan_tag(&v, '📋')
}

/// Decodes the completion date, keyed on the `✅` glyph.
pub fn decode_completion_date(line: &str) -> (r: Option<Date>)
    ensures
        r == completion_date_of(line@),
        match r {
            Some(d) => d.valid(),
            None => true,
        },
{
    let v = line_chars(line);
    scan_tag(&v, '✅')
}

fn find_char_in(v: &Vec<char>, from: usize, c: char) -> (r: Option<usize>)
    requires
        from <= v@.len(),
    ensures
        match r {
            Some(j) => find_char(v@, from as int, c) == Some(j as int) && from <= j < v@.len(),
            None => find_char(v@, from as int, c) is None,
        },
{
    let mut i: usize = from;
    while i < v.len()
        invariant
            from <= i <= v@.len(),
            find_char(v@, from as int, c) == find_char(v@, i as int, c),
        decreases v@.len() - i,
    {
        if v[i] == c {
            return Some(i);
        }
        i = i + 1;
    }
    None
}

fn nonspace_end_from(v: &Vec<char>, from: usize) -> (e: usize)
    requires
        from <= v@.len(),
    ensures
        e as int == nonspace_run_end(v@, from as int),
        from <= e <= v@.len(),
{
    let mut i: usize = from;
    while i < v.len() && !char_is_space(v[i])
        invariant
            from <= i <= v@.len(),
            nonspace_run_end(v@, from as int) == nonspace_run_end(v@, i as int),
        decreases v@.len() - i,
    {
        proof {
            assert(nonspace_run_end(v@, i as int) == nonspace_run_end(v@, i as int + 1));
        }
        i = i + 1;
    }
    proof {
        assert(nonspace_run_end(v@, i as int) == i as int);
    }
    i
}

fn space_end_from(v: &Vec<char>, from: usize) -> (e: usize)
    requires
        from <= v@.len(),
    ensures
        e as int == space_run_end(v@, from as int),
        from <= e <= v@.len(),
{
    let mut i: usize = from;
    while i < v.len() && char_is_space(v[i])
        invariant
            from <= i <= v@.len(),
            space_run_end(v@, from as int) == space_run_end(v@, i as int),
        decreases v@.len() - i,
    {
        proof {
            assert(space_run_end(v@, i as int) == space_run_end(v@, i as int + 1));
        }
        i = i + 1;
    }
    proof {
        assert(space_run_end(v@, i as int) == i as int);
    }
    i
}

fn span_of(v: &Vec<char>) -> (r: Option<(usize, usize)>)
    ensures
        match r {
            Some(p) => date_prefix_span(v@) == Some((p.0 as int, p.1 as int)) && p.0 < p.1
                <= v@.len(),
            None => date_prefix_span(v@) is None,
        },
{
    let _n = v.len();
    let a = match find_char_in(v, 0, '📅') {
        Some(i) => i,
        None => {
            return None;
        },
    };
    let b = match find_char_in(v, a + 1, '📋') {
        Some(j) => j,
        None => {
            return None;
        },
    };
    let w = space_end_from(v, b + 1);
    let e = nonspace_end_from(v, w);
    Some((a, e))
}

/// Decodes the date-prefix span — `📅` through the creation date's
/// token — used verbatim when cancelling.
pub fn decode_date_prefix(line: &str) -> (r: Option<String>)
    ensures
        match r {
            Some(p) => date_prefix_of(line@) == Some(p@),
            None => date_prefix_of(line@) is None,
        },
{
    let v = line_chars(line);
    match span_of(&v) {
        Some((a, e)) => {
            let sub = line.substring_char(a, e);
            Some(String::from_str(sub))
        },
        None => None,
    }
}

fn trim_str(s: &str) -> (r: String)
    ensures
        r@ == trim(s@),
{
    let v = line_chars(s);
    let mut e: usize = v.len();
    while e > 0 && char_is_space(v[e - 1])
        invariant
            e <= v@.len(),
            rtrim_end(v@, v@.len() as int) == rtrim_end(v@, e as int),
        decreases e,
    {
        proof {
            assert(rtrim_end(v@, e as int) == rtrim_end(v@, e as int - 1));
        }
        e = e - 1;
    }
    proof {
        assert(rtrim_end(v@, e as int) == e as int);
    }
    let mut a: usize = 0;
    while a < e && char_is_space(v[a])
        invariant
            a <= e,
            e <= v@.len(),
            rtrim_end(v@, v@.len() as int) == e as int,
            rtrim_end(v@, e as int) == e as int,
            space_run_end(v@, 0) == space_run_end(v@, a as int),
            forall|k: int| 0 <= k < a ==> is_space(v@[k]),
        decreases e - a,
    {
        proof {
            assert(space_run_end(v@, a as int) == space_run_end(v@, a as int + 1));
        }
        a = a + 1;
    }
    if a < e {
        proof {
            assert(space_run_end(v@, a as int) == a as int);
        }
        let sub = s.substring_char(a, e);
        String::from_str(sub)
    } else {
        proof {
            lemma_rtrim_end(v@, e as int);
            lemma_space_run_end(v@, 0);
            if e > 0 {
                assert(is_space(v@[e - 1]));
                assert(false);
            }
            assert(e == 0);
            assert(trim(v@) =~= Seq::<char>::empty());
        }
        String::new()
    }
}

fn body_string(line: &str, v: &Vec<char>) -> (r: String)
    requires
        v@ == line@,
    ensures
        r@ == body_of(line@),
{
    match span_of(v) {
        Some((_a, e)) => {
            let n = line.unicode_len();
            let tail = line.substring_char(e, n);
            trim_str(tail)
        },
        None => trim_str(line),
    }
}

/// Decodes the body: the text after the date-prefix span, trimmed of
/// surrounding whitespace.
pub fn decode_body(line: &str) -> (r: String)
    ensures
        r@ == body_of(line@),
{
    let v = line_chars(line);
    body_string(line, &v)
}

/// Encodes a fresh pending task line.
pub fn encode_new(due: &Date, created: &Date, body: &str) -> (r: String)
    requires
        due.valid(),
        created.valid(),
    ensures
        r@ == new_line(*due, *created, body@),
{
    let mut out = String::from_str("- [ ] 📅 ");
    push_date(&mut out, due);
    out.append(" 📋 ");
    push_date(&mut out, created);
    out.append(" ");
    out.append(body);
    proof {
        reveal_strlit("- [ ] 📅 ");
        reveal_strlit(" 📋 ");
        reveal_strlit(" ");
        assert("- [ ] 📅 "@ =~= seq!['-', ' ', '[', ' ', ']', ' ', '📅', ' ']);
        assert(" 📋 "@ =~= seq![' ', '📋', ' ']);
        assert(" "@ =~= seq![' ']);
        assert(out@ =~= new_line(*due, *created, body@));
    }
    out
}

/// Rewrites a pending line as done: the pending token is replaced by
/// the done token and the tagged completion date; everything after the
/// token is kept unchanged.
pub fn apply_completion(line: &str, d: &Date) -> (r: String)
    requires
        d.valid(),
        status_of(line@) == Some(Status::Pending),
    ensures
        r@ == completion_line(line@, *d),
{
    let mut out = String::from_str("- [x] ✅ ");
    push_date(&mut out, d);
    let n = line.unicode_len();
    proof {
        assert(pending_token().is_prefix_of(line@));
        assert(line@.len() >= 5);
    }
    let tail = line.substring_char(5, n);
    out.append(tail);
    proof {
        reveal_strlit("- [x] ✅ ");
        assert("- [x] ✅ "@ =~= seq!['-', ' ', '[', 'x', ']', ' ', '✅', ' ']);
        assert(out@ =~= completion_line(line@, *d));
    }
    out
}

/// Rewrites a line as cancelled: cancelled token, tagged cancellation
/// date, the preserved date-prefix span, and the body in `~~` markers.
pub fn apply_cancellation(line: &str, d: &Date) -> (r: String)
    requires
        d.valid(),
    ensures
        r@ == cancellation_line(line@, *d),
{
    let v = line_chars(line);
    let mut out = String::from_str("- [-] ❌ ");
    push_date(&mut out, d);
    out.append(" ");
    match span_of(&v) {
        Some((a, e)) => {
            let sp = line.substring_char(a, e);
            out.append(sp);
        },
        None => {},
    }
    out.append(" ~~");
    let body = body_string(line, &v);
    out.append(body.as_str());
    out.append("~~");
    proof {
        reveal_strlit("- [-] ❌ ");
        reveal_strlit(" ");
        reveal_strlit(" ~~");
        reveal_strlit("~~");
        assert("- [-] ❌ "@ =~= seq!['-', ' ', '[', '-', ']', ' ', '❌', ' ']);
        assert(" "@ =~= seq![' ']);
        assert(" ~~"@ =~= seq![' ', '~', '~']);
        assert("~~"@ =~= seq!['~', '~']);
        assert(out@ =~= cancellation_line(line@, *d));
    }
    out
}

/// Tagged-date scanning may start past a stretch with no glyph.
pub proof fn lemma_first_tag_match_skip(s: Seq<char>, a: int, b: int, g: char)
    requires
        0 <= a <= b <= s.len(),
        forall|k: int| a <= k < b ==> s[k] != g,
    ensures
        first_tag_match(s, a, g) == first_tag_match(s, b, g),
    decreases b - a,
{
    if a < b {
        assert(!tag_match_at(s, a, g));
        lemma_first_tag_match_skip(s, a + 1, b, g);
    }
}

/// Tagged-date scanning depends only on the characters from the start
/// index onward: in two sequences whose tails agree it finds
/// corresponding occurrences of the same date.
pub proof fn lemma_tag_shift(s1: Seq<char>, a1: int, s2: Seq<char>, a2: int, g: char)
    requires
        0 <= a1 <= s1.len(),
        0 <= a2 <= s2.len(),
        s1.skip(a1) == s2.skip(a2),
    ensures
        match first_tag_match(s1, a1, g) {
            Some(j1) => first_tag_match(s2, a2, g) == Some(j1 - a1 + a2) && tag_match_at(
                s1,
                j1,
                g,
            ) && tag_date_at(s1, j1) == tag_date_at(s2, j1 - a1 + a2),
            None => first_tag_match(s2, a2, g) is None,
        },
    decreases s1.len() - a1,
{
    crate::text::lemma_skip_pointwise(s1, a1, s2, a2);
    if a1 < s1.len() {
        assert(s1[a1] == s2[a2]);
        crate::text::lemma_skip_agree(s1, a1 + 1, s2, a2 + 1);
        crate::text::lemma_space_run_end_shift(s1, a1 + 1, s2, a2 + 1);
        lemma_space_run_end(s1, a1 + 1);
        lemma_space_run_end(s2, a2 + 1);
        let j1 = space_run_end(s1, a1 + 1);
        let j2 = space_run_end(s2, a2 + 1);
        assert(j1 - a1 == j2 - a2);
        assert(date_pattern_at(s1, j1) == date_pattern_at(s2, j2)) by {
            if j1 + 10 <= s1.len() {
                assert forall|t: int| 0 <= t < 10 implies s1[j1 + t] == #[trigger] s2[
                    j2 + t
                ] by {
                    assert(s1[j1 + t] == s2[j1 + t - a1 + a2]);
                }
            }
        }
        if date_pattern_at(s1, j1) {
            assert(date_at(s1, j1) == date_at(s2, j2)) by {
                assert forall|t: int| 0 <= t < 10 implies s1[j1 + t] == #[trigger] s2[
                    j2 + t
                ] by {
                    assert(s1[j1 + t] == s2[j1 + t - a1 + a2]);
                }
            }
        }
        assert(tag_match_at(s1, a1, g) == tag_match_at(s2, a2, g));
        if tag_match_at(s1, a1, g) {
            assert(first_tag_match(s1, a1, g) == Some(a1));
            assert(first_tag_match(s2, a2, g) == Some(a2));
            assert(tag_date_at(s1, a1) == tag_date_at(s2, a2));
        } else {
            lemma_tag_shift(s1, a1 + 1, s2, a2 + 1, g);
            assert(first_tag_match(s1, a1, g) == first_tag_match(s1, a1 + 1, g));
            assert(first_tag_match(s2, a2, g) == first_tag_match(s2, a2 + 1, g));
        }
    }
}

} // verus!
