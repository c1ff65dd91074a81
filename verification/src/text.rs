//! Character classes and string helpers shared by the parser and the shell.
use vstd::prelude::*;

verus! {

/// The characters that Unicode classes as `White_Space`, the set that
/// `char::is_whitespace` (and so `str::trim`) recognises.
pub open spec fn is_space(c: char) -> bool {
    ||| ('\u{9}' <= c && c <= '\u{d}')
    ||| c == ' '
    ||| c == '\u{85}'
    ||| c == '\u{a0}'
    ||| c == '\u{1680}'
    ||| ('\u{2000}' <= c && c <= '\u{200a}')
    ||| c == '\u{2028}'
    ||| c == '\u{2029}'
    ||| c == '\u{202f}'
    ||| c == '\u{205f}'
    ||| c == '\u{3000}'
}

pub fn is_space_char(c: char) -> (b: bool)
    ensures
        b == is_space(c),
{
    ('\u{9}' <= c && c <= '\u{d}') || c == ' ' || c == '\u{85}' || c == '\u{a0}' || c == '\u{1680}'
        || ('\u{2000}' <= c && c <= '\u{200a}') || c == '\u{2028}' || c == '\u{2029}' || c
        == '\u{202f}' || c == '\u{205f}' || c == '\u{3000}'
}

/// Calls `String::push`, trusted to append `c` to the characters of `s`
/// and change nothing else.
#[verifier::external_body]
pub(crate) fn string_push(s: &mut String, c: char)
    ensures
        final(s)@ == old(s)@.push(c),
{
    s.push(c);
}

/// The characters of a string slice, in order.
pub fn chars_of(s: &str) -> (r: Vec<char>)
    ensures
        r@ == s@,
{
    broadcast use vstd::string::group_string_axioms;
    let mut r: Vec<char> = Vec::new();
    for c in it: s.chars()
        invariant
            it.seq() == s@,
            r@ == it.seq().take(it.index() as int),
    {
        r.push(c);
    }
    r
}

/// Whether a string holds exactly the characters of `lit`.
pub fn string_is(s: &String, lit: &str) -> (b: bool)
    ensures
        b == (s@ == lit@),
{
    let other = String::from_str(lit);
    *s == other
}

/// The text without the white space at its start.
pub open spec fn trim_start(s: Seq<char>) -> Seq<char>
    decreases s.len(),
{
    if s.len() > 0 && is_space(s[0]) {
        trim_start(s.drop_first())
    } else {
        s
    }
}

/// The text without the white space at its end.
pub open spec fn trim_end(s: Seq<char>) -> Seq<char>
    decreases s.len(),
{
    if s.len() > 0 && is_space(s.last()) {
        trim_end(s.drop_last())
    } else {
        s
    }
}

/// The text without white space at either end, as `str::trim` gives it.
pub open spec fn trim(s: Seq<char>) -> Seq<char> {
    trim_end(trim_start(s))
}

/// Trimming the start removes a run of white space at the start.
pub proof fn lemma_trim_start_shape(s: Seq<char>)
    ensures
        exists|lo: int|
            0 <= lo <= s.len() && (forall|i: int| 0 <= i < lo ==> is_space(#[trigger] s[i])) && trim_start(s)
                == s.subrange(lo, s.len() as int) && (lo < s.len() ==> !is_space(s[lo])),
    decreases s.len(),
{
    if s.len() > 0 && is_space(s[0]) {
        let t = s.drop_first();
        lemma_trim_start_shape(t);
        let lo = choose|lo: int|
            0 <= lo <= t.len() && (forall|i: int| 0 <= i < lo ==> is_space(#[trigger] t[i])) && trim_start(t)
                == t.subrange(lo, t.len() as int) && (lo < t.len() ==> !is_space(t[lo]));
        assert(t.subrange(lo, t.len() as int) == s.subrange(lo + 1, s.len() as int));
        assert forall|i: int| 0 <= i < lo + 1 implies is_space(#[trigger] s[i]) by {
            if i > 0 {
                assert(s[i] == t[i - 1]);
            }
        }
        assert(lo + 1 < s.len() ==> s[lo + 1] == t[lo]);
    } else {
        assert(s.subrange(0, s.len() as int) == s);
    }
}

/// Trimming the end removes a run of white space at the end.
pub proof fn lemma_trim_end_shape(s: Seq<char>)
    ensures
        exists|hi: int|
            0 <= hi <= s.len() && (forall|i: int| hi <= i < s.len() ==> is_space(#[trigger] s[i])) && trim_end(s)
                == s.subrange(0, hi) && (hi > 0 ==> !is_space(s[hi - 1])),
    decreases s.len(),
{
    if s.len() > 0 && is_space(s.last()) {
        let t = s.drop_last();
        lemma_trim_end_shape(t);
        let hi = choose|hi: int|
            0 <= hi <= t.len() && (forall|i: int| hi <= i < t.len() ==> is_space(#[trigger] t[i])) && trim_end(t)
                == t.subrange(0, hi) && (hi > 0 ==> !is_space(t[hi - 1]));
        assert(t.subrange(0, hi) == s.subrange(0, hi));
        assert forall|i: int| hi <= i < s.len() implies is_space(#[trigger] s[i]) by {
            if i < t.len() {
                assert(s[i] == t[i]);
            }
        }
        assert(hi > 0 ==> s[hi - 1] == t[hi - 1]);
    } else {
        assert(s.subrange(0, s.len() as int) == s);
    }
}

proof fn lemma_trim_start_after_space(a: Seq<char>, x: Seq<char>)
    requires
        forall|i: int| 0 <= i < a.len() ==> is_space(#[trigger] a[i]),
        x.len() > 0 && !is_space(x[0]),
    ensures
        trim_start(a + x) == x,
    decreases a.len(),
{
    if a.len() > 0 {
        assert((a + x)[0] == a[0]);
        assert((a + x).drop_first() == a.drop_first() + x);
        lemma_trim_start_after_space(a.drop_first(), x);
    } else {
        assert(a + x == x);
    }
}

proof fn lemma_trim_end_before_space(x: Seq<char>, b: Seq<char>)
    requires
        forall|i: int| 0 <= i < b.len() ==> is_space(#[trigger] b[i]),
        x.len() > 0 && !is_space(x.last()),
    ensures
        trim_end(x + b) == x,
    decreases b.len(),
{
    if b.len() > 0 {
        assert((x + b).last() == b.last());
        assert((x + b).drop_last() == x + b.drop_last());
        lemma_trim_end_before_space(x, b.drop_last());
    } else {
        assert(x + b == x);
    }
}

/// A text with white space on both sides of a nonempty core that starts and
/// ends with other characters trims to that core.
pub proof fn lemma_trim_around(a: Seq<char>, x: Seq<char>, b: Seq<char>)
    requires
        forall|i: int| 0 <= i < a.len() ==> is_space(#[trigger] a[i]),
        forall|i: int| 0 <= i < b.len() ==> is_space(#[trigger] b[i]),
        x.len() > 0 && !is_space(x[0]) && !is_space(x.last()),
    ensures
        trim(a + x + b) == x,
{
    assert(a + x + b == a + (x + b));
    assert((x + b)[0] == x[0]);
    lemma_trim_start_after_space(a, x + b);
    lemma_trim_end_before_space(x, b);
}

/// Where the trimmed text starts and ends.
pub fn trim_bounds(chars: &Vec<char>) -> (r: (usize, usize))
    ensures
        r.0 <= r.1 <= chars@.len(),
        trim(chars@) == chars@.subrange(r.0 as int, r.1 as int),
{
    let n = chars.len();
    let mut lo: usize = 0;
    assert(chars@.subrange(0, n as int) == chars@);
    while lo < n && is_space_char(chars[lo])
        invariant
            lo <= n == chars@.len(),
            trim_start(chars@) == trim_start(chars@.subrange(lo as int, n as int)),
        decreases n - lo,
    {
        assert(chars@.subrange(lo as int, n as int).drop_first() == chars@.subrange(lo + 1, n as int));
        lo = lo + 1;
    }
    let mut hi: usize = n;
    while hi > lo && is_space_char(chars[hi - 1])
        invariant
            lo <= hi <= n == chars@.len(),
            trim_start(chars@) == chars@.subrange(lo as int, n as int),
            trim(chars@) == trim_end(chars@.subrange(lo as int, hi as int)),
        decreases hi,
    {
        assert(chars@.subrange(lo as int, hi as int).drop_last() == chars@.subrange(lo as int, hi - 1));
        hi = hi - 1;
    }
    (lo, hi)
}

} // verus!
