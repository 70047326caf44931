//! Character-sequence primitives: trimming surrounding whitespace, removing
//! every occurrence of a pattern, splitting on commas, and truncating at the
//! first `/`. Each operation has a specification over `Seq<char>` and an
//! executable counterpart over `Vec<char>` proved against it.

use vstd::prelude::*;
use vstd::string::StrSliceExecFns;

verus! {

/// The whitespace characters that trimming removes at either end: the
/// Unicode White_Space set, as `char::is_whitespace` holds it.
pub open spec fn is_space(c: char) -> bool {
    c == '\t' || c == '\n' || c == '\u{000b}' || c == '\u{000c}' || c == '\r' || c == ' ' || c
        == '\u{0085}' || c == '\u{00a0}' || c == '\u{1680}' || ('\u{2000}' <= c && c
        <= '\u{200a}') || c == '\u{2028}' || c == '\u{2029}' || c == '\u{202f}' || c == '\u{205f}'
        || c == '\u{3000}'
}

/// `s` without its leading whitespace.
pub open spec fn trim_start(s: Seq<char>) -> Seq<char>
    decreases s.len(),
{
    if s.len() > 0 && is_space(s[0]) {
        trim_start(s.drop_first())
    } else {
        s
    }
}

/// `s` without its trailing whitespace.
pub open spec fn trim_end(s: Seq<char>) -> Seq<char>
    decreases s.len(),
{
    if s.len() > 0 && is_space(s.last()) {
        trim_end(s.drop_last())
    } else {
        s
    }
}

/// `s` without surrounding whitespace.
pub open spec fn trimmed(s: Seq<char>) -> Seq<char> {
    trim_end(trim_start(s))
}

/// `s` with every occurrence of `pat` removed, scanning left to right;
/// text spliced together by a removal is not rescanned.
pub open spec fn strip_occurrences(s: Seq<char>, pat: Seq<char>) -> Seq<char>
    decreases s.len(),
{
    if pat.len() == 0 || s.len() == 0 {
        s
    } else if s.len() >= pat.len() && s.take(pat.len() as int) == pat {
        strip_occurrences(s.skip(pat.len() as int), pat)
    } else {
        seq![s[0]] + strip_occurrences(s.drop_first(), pat)
    }
}

/// The prefix of `s` that precedes its first `/`; all of `s` when it has none.
pub open spec fn until_slash(s: Seq<char>) -> Seq<char>
    decreases s.len(),
{
    if s.len() == 0 {
        s
    } else if s[0] == '/' {
        Seq::empty()
    } else {
        seq![s[0]] + until_slash(s.drop_first())
    }
}

/// The index of the first `,` in `s`, or -1 when it has none.
pub open spec fn first_comma(s: Seq<char>) -> int
    decreases s.len(),
{
    if s.len() == 0 {
        -1
    } else if s[0] == ',' {
        0
    } else if first_comma(s.drop_first()) < 0 {
        -1
    } else {
        first_comma(s.drop_first()) + 1
    }
}

pub proof fn lemma_first_comma_bounds(s: Seq<char>)
    ensures
        -1 <= first_comma(s) < s.len(),
        first_comma(s) >= 0 ==> s[first_comma(s)] == ',',
    decreases s.len(),
{
    if s.len() > 0 && s[0] != ',' {
        lemma_first_comma_bounds(s.drop_first());
    }
}

/// The pieces of `s` between its commas, in order; `s` itself when it has
/// none. An empty `s` yields one empty piece.
pub open spec fn split_commas(s: Seq<char>) -> Seq<Seq<char>>
    decreases s.len(),
    via split_commas_decreases
{
    if first_comma(s) < 0 {
        seq![s]
    } else {
        seq![s.take(first_comma(s))] + split_commas(s.skip(first_comma(s) + 1))
    }
}

#[via_fn]
proof fn split_commas_decreases(s: Seq<char>) {
    lemma_first_comma_bounds(s);
}

/// Where the scanned range shows the first comma (or its absence),
/// `first_comma` agrees.
pub proof fn lemma_first_comma_at(s: Seq<char>, j: int)
    requires
        0 <= j <= s.len(),
        forall|k: int| 0 <= k < j ==> s[k] != ',',
        j < s.len() ==> s[j] == ',',
    ensures
        first_comma(s) == if j < s.len() {
            j
        } else {
            -1
        },
    decreases s.len(),
{
    if s.len() == 0 {
    } else if j == 0 {
    } else {
        assert(s[0] != ',');
        lemma_first_comma_at(s.drop_first(), j - 1);
    }
}

/// Where the scanned range shows the first `/` (or its absence),
/// `until_slash` keeps exactly the text before it.
pub proof fn lemma_until_slash_take(s: Seq<char>, j: int)
    requires
        0 <= j <= s.len(),
        forall|k: int| 0 <= k < j ==> s[k] != '/',
        j < s.len() ==> s[j] == '/',
    ensures
        until_slash(s) == s.take(j),
    decreases s.len(),
{
    if s.len() == 0 {
        assert(s.take(0) =~= s);
    } else if j == 0 {
        assert(s[0] == '/');
        assert(s.take(0) =~= Seq::<char>::empty());
    } else {
        assert(s[0] != '/');
        lemma_until_slash_take(s.drop_first(), j - 1);
        assert(s.take(j) =~= seq![s[0]] + s.drop_first().take(j - 1));
    }
}

/// `until_slash` never keeps a `/`.
pub proof fn lemma_until_slash_no_slash(s: Seq<char>)
    ensures
        forall|k: int| 0 <= k < until_slash(s).len() ==> until_slash(s)[k] != '/',
    decreases s.len(),
{
    if s.len() > 0 && s[0] != '/' {
        lemma_until_slash_no_slash(s.drop_first());
        assert(forall|k: int| 0 < k < until_slash(s).len() ==> until_slash(s)[k] == until_slash(
            s.drop_first(),
        )[k - 1]);
    }
}

/// Dropping `a` leading whitespace characters, with none left in front,
/// is what `trim_start` does.
pub proof fn lemma_trim_start_skip(s: Seq<char>, a: int)
    requires
        0 <= a <= s.len(),
        forall|k: int| 0 <= k < a ==> is_space(s[k]),
        a < s.len() ==> !is_space(s[a]),
    ensures
        trim_start(s) == s.skip(a),
    decreases s.len(),
{
    if a == 0 {
        assert(s.skip(0) =~= s);
    } else {
        assert(is_space(s[0]));
        lemma_trim_start_skip(s.drop_first(), a - 1);
        assert(s.drop_first().skip(a - 1) =~= s.skip(a));
    }
}

/// Dropping the trailing whitespace after position `b`, with none left at
/// the end, is what `trim_end` does.
pub proof fn lemma_trim_end_take(s: Seq<char>, b: int)
    requires
        0 <= b <= s.len(),
        forall|k: int| b <= k < s.len() ==> is_space(s[k]),
        b > 0 ==> !is_space(s[b - 1]),
    ensures
        trim_end(s) == s.take(b),
    decreases s.len(),
{
    if b == s.len() {
        assert(s.take(b) =~= s);
    } else {
        assert(is_space(s.last()));
        lemma_trim_end_take(s.drop_last(), b);
        assert(s.drop_last().take(b) =~= s.take(b));
    }
}

/// The characters of `s`, in order, as a vector.
pub fn str_to_chars(s: &str) -> (r: Vec<char>)
    ensures
        r@ == s@,
{
    let n = s.unicode_len();
    let mut r: Vec<char> = Vec::new();
    let mut i: usize = 0;
    while i < n
        invariant
            n == s@.len(),
            i <= n,
            r@ == s@.take(i as int),
        decreases n - i,
    {
        r.push(s.get_char(i));
        proof {
            assert(s@.take(i + 1) =~= s@.take(i as int).push(s@[i as int]));
        }
        i += 1;
    }
    proof {
        assert(s@.take(n as int) =~= s@);
    }
    r
}

/// A copy of `s[from..to]`.
pub fn copy_range(s: &Vec<char>, from: usize, to: usize) -> (r: Vec<char>)
    requires
        from <= to <= s@.len(),
    ensures
        r@ == s@.subrange(from as int, to as int),
{
    let mut r: Vec<char> = Vec::new();
    let mut i: usize = from;
    while i < to
        invariant
            from <= i <= to <= s@.len(),
            r@ == s@.subrange(from as int, i as int),
        decreases to - i,
    {
        r.push(s[i]);
        proof {
            assert(s@.subrange(from as int, i + 1) =~= s@.subrange(from as int, i as int).push(
                s@[i as int],
            ));
        }
        i += 1;
    }
    r
}

fn is_space_char(c: char) -> (r: bool)
    ensures
        r == is_space(c),
{
    c == '\t' || c == '\n' || c == '\u{000b}' || c == '\u{000c}' || c == '\r' || c == ' ' || c
        == '\u{0085}' || c == '\u{00a0}' || c == '\u{1680}' || ('\u{2000}' <= c && c
        <= '\u{200a}') || c == '\u{2028}' || c == '\u{2029}' || c == '\u{202f}' || c == '\u{205f}'
        || c == '\u{3000}'
}

/// `s` without surrounding whitespace, as `trimmed` describes.
pub fn trim_chars(s: &Vec<char>) -> (r: Vec<char>)
    ensures
        r@ == trimmed(s@),
{
    let mut a: usize = 0;
    while a < s.len() && is_space_char(s[a])
        invariant
            a <= s@.len(),
            forall|k: int| 0 <= k < a ==> is_space(s@[k]),
        decreases s@.len() - a,
    {
        a += 1;
    }
    let mut b: usize = s.len();
    while b > a && is_space_char(s[b - 1])
        invariant
            a <= b <= s@.len(),
            forall|k: int| b <= k < s@.len() ==> is_space(s@[k]),
        decreases b,
    {
        b -= 1;
    }
    proof {
        lemma_trim_start_skip(s@, a as int);
        lemma_trim_end_take(s@.skip(a as int), b - a);
        assert(s@.skip(a as int).take(b - a) =~= s@.subrange(a as int, b as int));
    }
    copy_range(s, a, b)
}

/// Whether `pat` occurs in `s` at position `i`.
pub fn matches_at(s: &Vec<char>, i: usize, pat: &Vec<char>) -> (r: bool)
    requires
        i <= s@.len(),
    ensures
        r == (i + pat@.len() <= s@.len() && s@.subrange(i as int, i + pat@.len()) == pat@),
{
    if s.len() - i < pat.len() {
        return false;
    }
    let slen = s.len();
    let mut j: usize = 0;
    while j < pat.len()
        invariant
            j <= pat@.len(),
            i + pat@.len() <= s@.len(),
            slen == s@.len(),
            forall|k: int| 0 <= k < j ==> s@[i + k] == pat@[k],
        decreases pat@.len() - j,
    {
        if s[i + j] != pat[j] {
            proof {
                assert(s@.subrange(i as int, i + pat@.len())[j as int] != pat@[j as int]);
            }
            return false;
        }
        j += 1;
    }
    proof {
        assert(s@.subrange(i as int, i + pat@.len()) =~= pat@);
    }
    true
}

/// `s` with every occurrence of `pat` removed, as `strip_occurrences`
/// describes.
pub fn strip_occurrences_chars(s: &Vec<char>, pat: &Vec<char>) -> (r: Vec<char>)
    requires
        pat@.len() >= 1,
    ensures
        r@ == strip_occurrences(s@, pat@),
{
    let mut r: Vec<char> = Vec::new();
    let mut i: usize = 0;
    proof {
        assert(s@.skip(0) =~= s@);
        assert(Seq::<char>::empty() + strip_occurrences(s@, pat@) =~= strip_occurrences(
            s@,
            pat@,
        ));
    }
    while i < s.len()
        invariant
            i <= s@.len(),
            pat@.len() >= 1,
            strip_occurrences(s@, pat@) == r@ + strip_occurrences(s@.skip(i as int), pat@),
        decreases s@.len() - i,
    {
        if matches_at(s, i, pat) {
            proof {
                let rest = s@.skip(i as int);
                assert(rest.take(pat@.len() as int) =~= s@.subrange(i as int, i + pat@.len()));
                assert(rest.skip(pat@.len() as int) =~= s@.skip(i + pat@.len()));
            }
            i += pat.len();
        } else {
            proof {
                let rest = s@.skip(i as int);
                assert(rest.len() > 0 && rest[0] == s@[i as int]);
                if rest.len() >= pat@.len() {
                    assert(rest.take(pat@.len() as int) =~= s@.subrange(
                        i as int,
                        i + pat@.len(),
                    ));
                }
                assert(rest.drop_first() =~= s@.skip(i + 1));
                assert(strip_occurrences(rest, pat@) == seq![s@[i as int]] + strip_occurrences(
                    s@.skip(i + 1),
                    pat@,
                ));
                assert(r@.push(s@[i as int]) + strip_occurrences(s@.skip(i + 1), pat@) =~= r@
                    + strip_occurrences(rest, pat@));
            }
            r.push(s[i]);
            i += 1;
        }
    }
    proof {
        assert(s@.skip(s@.len() as int) =~= Seq::<char>::empty());
        assert(r@ + Seq::<char>::empty() =~= r@);
    }
    r
}

/// The prefix of `s` before its first `/`, as `until_slash` describes.
pub fn until_slash_chars(s: &Vec<char>) -> (r: Vec<char>)
    ensures
        r@ == until_slash(s@),
{
    let mut i: usize = 0;
    while i < s.len() && s[i] != '/'
        invariant
            i <= s@.len(),
            forall|k: int| 0 <= k < i ==> s@[k] != '/',
        decreases s@.len() - i,
    {
        i += 1;
    }
    proof {
        lemma_until_slash_take(s@, i as int);
        assert(s@.take(i as int) =~= s@.subrange(0, i as int));
    }
    copy_range(s, 0, i)
}

} // verus!
