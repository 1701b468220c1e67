//! Character-level scanning primitives shared by the line codec.
//!
//! A task line is a sequence of characters.  The codec's patterns are
//! built from a few primitives: a whitespace class, runs of whitespace
//! and of non-whitespace, the first occurrence of a character, and
//! trimming.  Each primitive has a specification-level definition here
//! together with the lemmas the codec proofs need, chiefly that every
//! primitive reads only the characters at and after its start index.

use vstd::prelude::*;

verus! {

/// The whitespace characters the patterns accept between a tag glyph
/// and its date (the Unicode white-space class).
pub open spec fn is_space(c: char) -> bool {
    ||| c == ' '
    ||| c == '\t'
    ||| c == '\n'
    ||| c == '\r'
    ||| c == '\u{b}'
    ||| c == '\u{c}'
    ||| c == '\u{85}'
    ||| c == '\u{a0}'
    ||| c == '\u{1680}'
    ||| c == '\u{2000}'
    ||| c == '\u{2001}'
    ||| c == '\u{2002}'
    ||| c == '\u{2003}'
    ||| c == '\u{2004}'
    ||| c == '\u{2005}'
    ||| c == '\u{2006}'
    ||| c == '\u{2007}'
    ||| c == '\u{2008}'
    ||| c == '\u{2009}'
    ||| c == '\u{200a}'
    ||| c == '\u{2028}'
    ||| c == '\u{2029}'
    ||| c == '\u{202f}'
    ||| c == '\u{205f}'
    ||| c == '\u{3000}'
}

pub fn char_is_space(c: char) -> (b: bool)
    ensures
        b == is_space(c),
{
    c == ' ' || c == '\t' || c == '\n' || c == '\r' || c == '\u{b}' || c == '\u{c}' || c
        == '\u{85}' || c == '\u{a0}' || c == '\u{1680}' || c == '\u{2000}' || c == '\u{2001}' || c
        == '\u{2002}' || c == '\u{2003}' || c == '\u{2004}' || c == '\u{2005}' || c == '\u{2006}'
        || c == '\u{2007}' || c == '\u{2008}' || c == '\u{2009}' || c == '\u{200a}' || c
        == '\u{2028}' || c == '\u{2029}' || c == '\u{202f}' || c == '\u{205f}' || c == '\u{3000}'
}

/// The first index at or after `i` whose character is not whitespace,
/// or the length when whitespace runs to the end.
pub open spec fn space_run_end(s: Seq<char>, i: int) -> int
    decreases s.len() - i,
{
    if 0 <= i < s.len() && is_space(s[i]) {
        space_run_end(s, i + 1)
    } else {
        i
    }
}

/// The first index at or after `i` whose character is whitespace, or
/// the length when none is.
pub open spec fn nonspace_run_end(s: Seq<char>, i: int) -> int
    decreases s.len() - i,
{
    if 0 <= i < s.len() && !is_space(s[i]) {
        nonspace_run_end(s, i + 1)
    } else {
        i
    }
}

/// The first index at or after `i` holding `c`, if there is one.
pub open spec fn find_char(s: Seq<char>, i: int, c: char) -> Option<int>
    decreases s.len() - i,
{
    if i < 0 || i >= s.len() {
        None
    } else if s[i] == c {
        Some(i)
    } else {
        find_char(s, i + 1, c)
    }
}

/// The end of `s` with trailing whitespace removed: scanning from `e`
/// leftward, the first position whose predecessor is not whitespace.
pub open spec fn rtrim_end(s: Seq<char>, e: int) -> int
    decreases e,
{
    if 0 < e <= s.len() && is_space(s[e - 1]) {
        rtrim_end(s, e - 1)
    } else {
        e
    }
}

/// `s` with leading and trailing whitespace removed.
pub open spec fn trim(s: Seq<char>) -> Seq<char> {
    let e = rtrim_end(s, s.len() as int);
    let a = space_run_end(s, 0);
    if a <= e {
        s.subrange(a, e)
    } else {
        Seq::empty()
    }
}

pub proof fn lemma_space_run_end(s: Seq<char>, i: int)
    requires
        0 <= i <= s.len(),
    ensures
        i <= space_run_end(s, i) <= s.len(),
        forall|k: int| i <= k < space_run_end(s, i) ==> is_space(s[k]),
        space_run_end(s, i) == s.len() || !is_space(s[space_run_end(s, i)]),
    decreases s.len() - i,
{
    if i < s.len() && is_space(s[i]) {
        lemma_space_run_end(s, i + 1);
    }
}

pub proof fn lemma_nonspace_run_end(s: Seq<char>, i: int)
    requires
        0 <= i <= s.len(),
    ensures
        i <= nonspace_run_end(s, i) <= s.len(),
        forall|k: int| i <= k < nonspace_run_end(s, i) ==> !is_space(s[k]),
        nonspace_run_end(s, i) == s.len() || is_space(s[nonspace_run_end(s, i)]),
    decreases s.len() - i,
{
    if i < s.len() && !is_space(s[i]) {
        lemma_nonspace_run_end(s, i + 1);
    }
}

pub proof fn lemma_find_char(s: Seq<char>, i: int, c: char)
    requires
        0 <= i <= s.len(),
    ensures
        match find_char(s, i, c) {
            Some(j) => i <= j < s.len() && s[j] == c && forall|k: int| i <= k < j ==> s[k] != c,
            None => forall|k: int| i <= k < s.len() ==> s[k] != c,
        },
    decreases s.len() - i,
{
    if i < s.len() && s[i] != c {
        lemma_find_char(s, i + 1, c);
    }
}

pub proof fn lemma_rtrim_end(s: Seq<char>, e: int)
    requires
        0 <= e <= s.len(),
    ensures
        0 <= rtrim_end(s, e) <= e,
        forall|k: int| rtrim_end(s, e) <= k < e ==> is_space(s[k]),
        rtrim_end(s, e) == 0 || !is_space(s[rtrim_end(s, e) - 1]),
    decreases e,
{
    if 0 < e && is_space(s[e - 1]) {
        lemma_rtrim_end(s, e - 1);
    }
}

/// Whitespace runs look the same in two sequences that agree from
/// their start indices onward.
pub proof fn lemma_space_run_end_shift(s1: Seq<char>, a1: int, s2: Seq<char>, a2: int)
    requires
        0 <= a1 <= s1.len(),
        0 <= a2 <= s2.len(),
        s1.skip(a1) == s2.skip(a2),
    ensures
        space_run_end(s1, a1) - a1 == space_run_end(s2, a2) - a2,
    decreases s1.len() - a1,
{
    assert(s1.skip(a1).len() == s1.len() - a1);
    assert(s2.skip(a2).len() == s2.len() - a2);
    if a1 < s1.len() {
        assert(s1.skip(a1)[0] == s1[a1]);
        assert(s2.skip(a2)[0] == s2[a2]);
        if is_space(s1[a1]) {
            assert forall|k: int|
                0 <= k < s1.skip(a1 + 1).len() implies #[trigger] s1.skip(a1 + 1)[k] == s2.skip(
                a2 + 1,
            )[k] by {
                assert(s1.skip(a1 + 1)[k] == s1[a1 + 1 + k]);
                assert(s1.skip(a1)[k + 1] == s1[a1 + 1 + k]);
                assert(s2.skip(a2 + 1)[k] == s2[a2 + 1 + k]);
                assert(s2.skip(a2)[k + 1] == s2[a2 + 1 + k]);
            }
            assert(s1.skip(a1 + 1) =~= s2.skip(a2 + 1));
            lemma_space_run_end_shift(s1, a1 + 1, s2, a2 + 1);
        }
    }
}

/// Non-whitespace runs look the same in two sequences that agree from
/// their start indices onward.
pub proof fn lemma_nonspace_run_end_shift(s1: Seq<char>, a1: int, s2: Seq<char>, a2: int)
    requires
        0 <= a1 <= s1.len(),
        0 <= a2 <= s2.len(),
        s1.skip(a1) == s2.skip(a2),
    ensures
        nonspace_run_end(s1, a1) - a1 == nonspace_run_end(s2, a2) - a2,
    decreases s1.len() - a1,
{
    assert(s1.skip(a1).len() == s1.len() - a1);
    assert(s2.skip(a2).len() == s2.len() - a2);
    if a1 < s1.len() {
        assert(s1.skip(a1)[0] == s1[a1]);
        assert(s2.skip(a2)[0] == s2[a2]);
        if !is_space(s1[a1]) {
            assert forall|k: int|
                0 <= k < s1.skip(a1 + 1).len() implies #[trigger] s1.skip(a1 + 1)[k] == s2.skip(
                a2 + 1,
            )[k] by {
                assert(s1.skip(a1 + 1)[k] == s1[a1 + 1 + k]);
                assert(s1.skip(a1)[k + 1] == s1[a1 + 1 + k]);
                assert(s2.skip(a2 + 1)[k] == s2[a2 + 1 + k]);
                assert(s2.skip(a2)[k + 1] == s2[a2 + 1 + k]);
            }
            assert(s1.skip(a1 + 1) =~= s2.skip(a2 + 1));
            lemma_nonspace_run_end_shift(s1, a1 + 1, s2, a2 + 1);
        }
    }
}

/// `find_char` finds corresponding positions in two sequences that
/// agree from their start indices onward.
pub proof fn lemma_find_char_shift(s1: Seq<char>, a1: int, s2: Seq<char>, a2: int, c: char)
    requires
        0 <= a1 <= s1.len(),
        0 <= a2 <= s2.len(),
        s1.skip(a1) == s2.skip(a2),
    ensures
        match find_char(s1, a1, c) {
            Some(j1) => find_char(s2, a2, c) == Some(j1 - a1 + a2),
            None => find_char(s2, a2, c) is None,
        },
    decreases s1.len() - a1,
{
    assert(s1.skip(a1).len() == s1.len() - a1);
    assert(s2.skip(a2).len() == s2.len() - a2);
    if a1 < s1.len() {
        assert(s1.skip(a1)[0] == s1[a1]);
        assert(s2.skip(a2)[0] == s2[a2]);
        if s1[a1] != c {
            assert forall|k: int|
                0 <= k < s1.skip(a1 + 1).len() implies #[trigger] s1.skip(a1 + 1)[k] == s2.skip(
                a2 + 1,
            )[k] by {
                assert(s1.skip(a1 + 1)[k] == s1[a1 + 1 + k]);
                assert(s1.skip(a1)[k + 1] == s1[a1 + 1 + k]);
                assert(s2.skip(a2 + 1)[k] == s2[a2 + 1 + k]);
                assert(s2.skip(a2)[k + 1] == s2[a2 + 1 + k]);
            }
            assert(s1.skip(a1 + 1) =~= s2.skip(a2 + 1));
            lemma_find_char_shift(s1, a1 + 1, s2, a2 + 1, c);
        }
    }
}

/// Two sequences equal from their start indices onward agree
/// character by character at corresponding positions.
pub proof fn lemma_skip_pointwise(s1: Seq<char>, a1: int, s2: Seq<char>, a2: int)
    requires
        0 <= a1 <= s1.len(),
        0 <= a2 <= s2.len(),
        s1.skip(a1) == s2.skip(a2),
    ensures
        s1.len() - a1 == s2.len() - a2,
        forall|k: int| a1 <= k < s1.len() ==> s1[k] == s2[k - a1 + a2],
{
    assert(s1.skip(a1).len() == s1.len() - a1);
    assert(s2.skip(a2).len() == s2.len() - a2);
    assert forall|k: int| a1 <= k < s1.len() implies s1[k] == s2[k - a1 + a2] by {
        assert(s1.skip(a1)[k - a1] == s1[k]);
        assert(s2.skip(a2)[k - a1] == s2[k - a1 + a2]);
    }
}

/// The converse: character-by-character agreement from the start
/// indices onward makes the two tails equal.
pub proof fn lemma_skip_agree(s1: Seq<char>, a1: int, s2: Seq<char>, a2: int)
    requires
        0 <= a1 <= s1.len(),
        0 <= a2 <= s2.len(),
        s1.len() - a1 == s2.len() - a2,
        forall|k: int| a1 <= k < s1.len() ==> s1[k] == s2[k - a1 + a2],
    ensures
        s1.skip(a1) == s2.skip(a2),
{
    assert forall|k: int|
        0 <= k < s1.skip(a1).len() implies #[trigger] s1.skip(a1)[k] == s2.skip(a2)[k] by {
        assert(s1.skip(a1)[k] == s1[a1 + k]);
        assert(s2.skip(a2)[k] == s2[a2 + k]);
        assert(s1[a1 + k] == s2[a1 + k - a1 + a2]);
    }
    assert(s1.skip(a1) =~= s2.skip(a2));
}

/// Scanning for a character may start past a stretch known not to
/// hold it.
pub proof fn lemma_find_char_skip(s: Seq<char>, a: int, b: int, c: char)
    requires
        0 <= a <= b <= s.len(),
        forall|k: int| a <= k < b ==> s[k] != c,
    ensures
        find_char(s, a, c) == find_char(s, b, c),
    decreases b - a,
{
    if a < b {
        lemma_find_char_skip(s, a + 1, b, c);
    }
}

/// A run of non-whitespace bounded on the right by the end or by a
/// whitespace character ends exactly there.
pub proof fn lemma_nonspace_run_value(s: Seq<char>, a: int, b: int)
    requires
        0 <= a <= b <= s.len(),
        forall|k: int| a <= k < b ==> !is_space(s[k]),
        b == s.len() || is_space(s[b]),
    ensures
        nonspace_run_end(s, a) == b,
    decreases b - a,
{
    if a < b {
        lemma_nonspace_run_value(s, a + 1, b);
    }
}

/// Trimming ignores a whitespace character prepended to the text.
pub proof fn lemma_trim_leading_space(c: char, t: Seq<char>)
    requires
        is_space(c),
    ensures
        trim(seq![c] + t) == trim(t),
{
    let u = seq![c] + t;
    assert(u.len() == t.len() + 1);
    assert forall|k: int| 0 <= k < t.len() implies u[k + 1] == #[trigger] t[k] by {}
    assert(u.skip(1) == t.skip(0)) by {
        assert forall|k: int| 0 <= k < u.skip(1).len() implies #[trigger] u.skip(1)[k] == t.skip(
            0,
        )[k] by {
            assert(u.skip(1)[k] == u[k + 1]);
            assert(t.skip(0)[k] == t[k]);
        }
        assert(u.skip(1) =~= t.skip(0));
    }
    lemma_space_run_end_shift(u, 1, t, 0);
    assert(space_run_end(u, 0) == space_run_end(u, 1));
    let au = space_run_end(u, 0);
    let at = space_run_end(t, 0);
    assert(au == at + 1);
    lemma_rtrim_shift(c, t, t.len() as int);
    let rt = rtrim_end(t, t.len() as int);
    let ru = rtrim_end(u, u.len() as int);
    lemma_space_run_end(t, 0);
    lemma_rtrim_end(t, t.len() as int);
    if rt == 0 {
        assert(ru == 0);
        assert(trim(u) == Seq::<char>::empty());
        assert(trim(t) =~= Seq::<char>::empty());
    } else {
        assert(ru == rt + 1);
        if at <= rt {
            assert(trim(u) =~= trim(t)) by {
                assert forall|k: int| 0 <= k < rt - at implies #[trigger] u.subrange(au, ru)[k]
                    == t.subrange(at, rt)[k] by {
                    assert(u.subrange(au, ru)[k] == u[at + 1 + k]);
                    assert(t.subrange(at, rt)[k] == t[at + k]);
                }
            }
        }
    }
}

proof fn lemma_rtrim_shift(c: char, t: Seq<char>, e: int)
    requires
        0 <= e <= t.len(),
    ensures
        ({
            let r = rtrim_end(t, e);
            rtrim_end(seq![c] + t, e + 1) == (if r == 0 && is_space(c) {
                0
            } else {
                r + 1
            })
        }),
    decreases e,
{
    let u = seq![c] + t;
    if e > 0 {
        assert(u[e] == t[e - 1]);
        if is_space(t[e - 1]) {
            lemma_rtrim_shift(c, t, e - 1);
        }
    } else {
        assert(rtrim_end(t, 0) == 0);
        if is_space(c) {
            assert(u[0] == c);
            assert(rtrim_end(u, 1) == rtrim_end(u, 0));
        } else {
            assert(rtrim_end(u, 1) == 1);
        }
    }
}

/// The characters of a string, as a vector with the same view.
pub fn line_chars(s: &str) -> (v: Vec<char>)
    ensures
        v@ == s@,
{
    let n = s.unicode_len();
    let mut v: Vec<char> = Vec::new();
    let mut i: usize = 0;
    while i < n
        invariant
            i <= n,
            n == s@.len(),
            v@.len() == i,
            forall|k: int| 0 <= k < i ==> v@[k] == s@[k],
        decreases n - i,
    {
        let c = s.get_char(i);
        v.push(c);
        i = i + 1;
    }
    proof {
        assert(v@ =~= s@);
    }
    v
}

} // verus!
