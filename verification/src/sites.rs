//! Turning a comma-separated site string into the text appended to a
//! pending list: each piece is trimmed, dropped when empty, stripped of
//! every `http://` and `https://` occurrence, cut at its first `/`, and
//! prefixed with a `.`; each resulting entry is preceded by a newline.

use vstd::prelude::*;
use crate::text::{
    first_comma, lemma_first_comma_at, lemma_until_slash_no_slash, split_commas,
    strip_occurrences, strip_occurrences_chars, str_to_chars, trim_chars, trimmed, until_slash,
    until_slash_chars, copy_range,
};

verus! {

/// A site string with every `http://`, then every `https://`, removed.
pub open spec fn schemes_removed(t: Seq<char>) -> Seq<char> {
    strip_occurrences(strip_occurrences(t, "http://"@), "https://"@)
}

/// The stored entry made from one trimmed piece: a `.` followed by the
/// piece with its schemes removed and everything from its first `/` on
/// dropped.
pub open spec fn entry_of(t: Seq<char>) -> Seq<char> {
    seq!['.'] + until_slash(schemes_removed(t))
}

/// The entries one piece contributes: none when it trims to nothing,
/// otherwise its single normalized entry.
pub open spec fn piece_entries(p: Seq<char>) -> Seq<Seq<char>> {
    if trimmed(p).len() == 0 {
        Seq::empty()
    } else {
        seq![entry_of(trimmed(p))]
    }
}

/// The entries contributed by a sequence of pieces, in order.
pub open spec fn entries_of_pieces(ps: Seq<Seq<char>>) -> Seq<Seq<char>>
    decreases ps.len(),
{
    if ps.len() == 0 {
        Seq::empty()
    } else {
        piece_entries(ps.first()) + entries_of_pieces(ps.drop_first())
    }
}

/// The entries stored for a whole comma-separated site string.
pub open spec fn entries(sites: Seq<char>) -> Seq<Seq<char>> {
    entries_of_pieces(split_commas(sites))
}

/// The entries joined into file text: a newline before each entry.
pub open spec fn joined(es: Seq<Seq<char>>) -> Seq<char>
    decreases es.len(),
{
    if es.len() == 0 {
        Seq::empty()
    } else {
        seq!['\n'] + es.first() + joined(es.drop_first())
    }
}

/// The text that adding `sites` appends to a pending list.
pub open spec fn payload(sites: Seq<char>) -> Seq<char> {
    joined(entries(sites))
}

proof fn lemma_joined_prepend(pe: Seq<Seq<char>>, es: Seq<Seq<char>>)
    requires
        pe.len() <= 1,
    ensures
        joined(pe + es) == joined(pe) + joined(es),
{
    if pe.len() == 0 {
        assert(pe + es =~= es);
        assert(joined(pe) + joined(es) =~= joined(es));
    } else {
        let all = pe + es;
        assert(all.first() == pe[0]);
        assert(all.drop_first() =~= es);
        assert(pe.drop_first() =~= Seq::<Seq<char>>::empty());
        assert(joined(Seq::<Seq<char>>::empty()) == Seq::<char>::empty());
        assert(joined(pe) == seq!['\n'] + pe.first() + joined(pe.drop_first()));
        assert(joined(pe) =~= seq!['\n'] + pe[0]);
        assert(joined(pe + es) =~= joined(pe) + joined(es));
    }
}

/// Appends to `out` what `piece` contributes to the payload: nothing when
/// the piece trims to nothing, otherwise a newline and its entry.
fn append_piece(out: &mut Vec<char>, piece: &Vec<char>)
    ensures
        final (out)@ == old(out)@ + joined(piece_entries(piece@)),
{
    let t = trim_chars(piece);
    if t.len() > 0 {
        proof {
            reveal_strlit("http://");
            reveal_strlit("https://");
        }
        let http = str_to_chars("http://");
        let https = str_to_chars("https://");
        let cleaned = strip_occurrences_chars(&t, &http);
        let cleaned = strip_occurrences_chars(&cleaned, &https);
        let host = until_slash_chars(&cleaned);
        out.push('\n');
        out.push('.');
        let mut j: usize = 0;
        while j < host.len()
            invariant
                j <= host@.len(),
                out@ == old(out)@ + seq!['\n', '.'] + host@.take(j as int),
            decreases host@.len() - j,
        {
            out.push(host[j]);
            proof {
                assert(host@.take(j + 1) =~= host@.take(j as int).push(host@[j as int]));
                assert((old(out)@ + seq!['\n', '.'] + host@.take(j as int)).push(host@[j as int])
                    =~= old(out)@ + seq!['\n', '.'] + host@.take(j + 1));
            }
            j += 1;
        }
        proof {
            assert(host@.take(host@.len() as int) =~= host@);
            let e = entry_of(trimmed(piece@));
            let pe = piece_entries(piece@);
            assert(pe == seq![e]);
            assert(pe.first() == e);
            assert(pe.drop_first() =~= Seq::<Seq<char>>::empty());
            assert(joined(Seq::<Seq<char>>::empty()) == Seq::<char>::empty());
            assert(joined(pe) == seq!['\n'] + pe.first() + joined(pe.drop_first()));
            assert(joined(pe) =~= seq!['\n'] + e);
            assert(old(out)@ + seq!['\n', '.'] + host@ =~= old(out)@ + (seq!['\n'] + e));
        }
    } else {
        proof {
            assert(out@ + joined(piece_entries(piece@)) =~= out@);
        }
    }
}

/// The text to append to the pending list for the comma-separated site
/// string `sites`, as `payload` describes. An all-whitespace or empty
/// string yields no text at all.
pub fn add_payload(sites: &str) -> (r: Vec<char>)
    ensures
        r@ == payload(sites@),
{
    let s = str_to_chars(sites);
    let mut out: Vec<char> = Vec::new();
    let mut start: usize = 0;
    let mut i: usize = 0;
    proof {
        assert(s@.skip(0) =~= s@);
        assert(Seq::<char>::empty() + joined(entries(s@)) =~= joined(entries(s@)));
    }
    while i < s.len()
        invariant
            start <= i <= s@.len(),
            forall|k: int| start <= k < i ==> s@[k] != ',',
            joined(entries(s@)) == out@ + joined(entries_of_pieces(split_commas(s@.skip(
                start as int,
            )))),
        decreases s@.len() - i,
    {
        if s[i] == ',' {
            proof {
                lemma_piece_done(s@, start as int, i as int, out@);
            }
            let piece = copy_range(&s, start, i);
            append_piece(&mut out, &piece);
            start = i + 1;
        }
        i += 1;
    }
    proof {
        lemma_piece_done(s@, start as int, s@.len() as int, out@);
    }
    let piece = copy_range(&s, start, s.len());
    append_piece(&mut out, &piece);
    proof {
        assert(joined(entries_of_pieces(Seq::<Seq<char>>::empty())) =~= Seq::<char>::empty());
        assert(out@ + Seq::<char>::empty() =~= out@);
        assert(s@ == sites@);
    }
    out
}

/// One piece of the remaining text ends at `i` (a comma there, or the end
/// of the string): processing `s[start..i]` accounts for the head piece of
/// the remaining split.
proof fn lemma_piece_done(s: Seq<char>, start: int, i: int, out: Seq<char>)
    requires
        0 <= start <= i <= s.len(),
        forall|k: int| start <= k < i ==> s[k] != ',',
        i < s.len() ==> s[i] == ',',
        joined(entries(s)) == out + joined(entries_of_pieces(split_commas(s.skip(start)))),
    ensures
        i < s.len() ==> joined(entries(s)) == (out + joined(
            piece_entries(s.subrange(start, i)),
        )) + joined(entries_of_pieces(split_commas(s.skip(i + 1)))),
        i == s.len() ==> joined(entries(s)) == (out + joined(
            piece_entries(s.subrange(start, i)),
        )) + joined(entries_of_pieces(Seq::<Seq<char>>::empty())),
{
    let rest = s.skip(start);
    assert(forall|k: int| 0 <= k < i - start ==> rest[k] != ',');
    lemma_first_comma_at(rest, i - start);
    let piece = s.subrange(start, i);
    assert(rest.take(i - start) =~= piece);
    if i < s.len() {
        assert(first_comma(rest) == i - start);
        let tail = split_commas(rest.skip(i - start + 1));
        assert(split_commas(rest) == seq![piece] + tail);
        assert(rest.skip(i - start + 1) =~= s.skip(i + 1));
        assert((seq![piece] + tail).first() == piece);
        assert((seq![piece] + tail).drop_first() =~= tail);
        assert(entries_of_pieces(split_commas(rest)) == piece_entries(piece) + entries_of_pieces(
            tail,
        ));
        lemma_joined_prepend(piece_entries(piece), entries_of_pieces(tail));
        assert(out + (joined(piece_entries(piece)) + joined(entries_of_pieces(tail))) =~= (out
            + joined(piece_entries(piece))) + joined(entries_of_pieces(tail)));
    } else {
        assert(first_comma(rest) == -1);
        assert(split_commas(rest) == seq![rest]);
        assert(rest =~= piece);
        assert(seq![piece].first() == piece);
        assert(seq![piece].drop_first() =~= Seq::<Seq<char>>::empty());
        assert(entries_of_pieces(seq![piece]) == piece_entries(piece) + entries_of_pieces(
            Seq::<Seq<char>>::empty(),
        ));
        assert(piece_entries(piece) + Seq::<Seq<char>>::empty() =~= piece_entries(piece));
        assert(joined(entries_of_pieces(Seq::<Seq<char>>::empty())) =~= Seq::<char>::empty());
        assert(out + joined(piece_entries(piece)) =~= (out + joined(piece_entries(piece)))
            + Seq::<char>::empty());
    }
}

/// Whether `pat` occurs anywhere in `s`.
pub open spec fn has_occurrence(s: Seq<char>, pat: Seq<char>) -> bool {
    exists|k: int| 0 <= k && k + pat.len() <= s.len() && #[trigger] s.subrange(k, k + pat.len())
        == pat
}

/// A stored entry is never empty, begins with the `.` the operation
/// prepends, keeps no `/`, and contains no `http://` or `https://`
/// occurrence.
pub open spec fn well_formed_entry(e: Seq<char>) -> bool {
    &&& e.len() >= 1
    &&& e[0] == '.'
    &&& forall|k: int| 0 <= k < e.len() ==> e[k] != '/'
    &&& !has_occurrence(e, "http://"@)
    &&& !has_occurrence(e, "https://"@)
}

/// The entry made from any piece keeps no `/` and starts with `.`.
pub proof fn lemma_entry_well_formed(t: Seq<char>)
    ensures
        well_formed_entry(entry_of(t)),
{
    let e = entry_of(t);
    reveal_strlit("http://");
    reveal_strlit("https://");
    lemma_until_slash_no_slash(schemes_removed(t));
    assert(forall|k: int| 0 < k < e.len() ==> e[k] == until_slash(schemes_removed(t))[k - 1]);
    assert(forall|k: int| 0 <= k < e.len() ==> e[k] != '/');
    lemma_no_slash_no_occurrence(e, "http://"@, 5);
    lemma_no_slash_no_occurrence(e, "https://"@, 6);
}

/// A string with no `/` has no occurrence of a pattern whose character at
/// `slash_at` is a `/`.
proof fn lemma_no_slash_no_occurrence(s: Seq<char>, pat: Seq<char>, slash_at: int)
    requires
        forall|k: int| 0 <= k < s.len() ==> s[k] != '/',
        0 <= slash_at < pat.len(),
        pat[slash_at] == '/',
    ensures
        !has_occurrence(s, pat),
{
    assert forall|k: int|
        !(0 <= k && k + pat.len() <= s.len() && #[trigger] s.subrange(k, k + pat.len())
            == pat) by {
        if 0 <= k && k + pat.len() <= s.len() && s.subrange(k, k + pat.len()) == pat {
            assert(s.subrange(k, k + pat.len())[slash_at] == s[k + slash_at]);
            assert(s[k + slash_at] == '/');
        }
    }
}

proof fn lemma_entries_of_pieces_well_formed(ps: Seq<Seq<char>>)
    ensures
        forall|i: int|
            0 <= i < entries_of_pieces(ps).len() ==> well_formed_entry(entries_of_pieces(ps)[i]),
    decreases ps.len(),
{
    if ps.len() > 0 {
        lemma_entry_well_formed(trimmed(ps.first()));
        lemma_entries_of_pieces_well_formed(ps.drop_first());
        assert(forall|i: int|
            piece_entries(ps.first()).len() <= i < entries_of_pieces(ps).len()
                ==> entries_of_pieces(ps)[i] == entries_of_pieces(ps.drop_first())[i
                - piece_entries(ps.first()).len()]);
    }
}

/// Every entry stored for any site string is well formed: it begins with
/// the prepended `.`, keeps nothing from any `/` on, and contains no
/// scheme prefix.
pub proof fn lemma_stored_entries_well_formed(sites: Seq<char>)
    ensures
        forall|i: int| 0 <= i < entries(sites).len() ==> well_formed_entry(entries(sites)[i]),
{
    lemma_entries_of_pieces_well_formed(split_commas(sites));
}

/// The leading `.` is single wherever the cleaned piece does not itself
/// begin with one (a piece such as `.a` keeps its own dot and gains the
/// prepended one).
pub proof fn lemma_entry_dot_is_single(t: Seq<char>)
    requires
        schemes_removed(t).len() > 0 ==> schemes_removed(t)[0] != '.',
    ensures
        entry_of(t)[0] == '.',
        entry_of(t).len() > 1 ==> entry_of(t)[1] != '.',
{
    let cleaned = schemes_removed(t);
    if entry_of(t).len() > 1 {
        assert(until_slash(cleaned).len() > 0);
        assert(until_slash(cleaned)[0] == cleaned[0]);
        assert(entry_of(t)[1] == cleaned[0]);
    }
}

/// Truncation at the first `/`: when the cleaned piece has its first `/`
/// at position `j` (or none, with `j` its length), the stored entry is
/// exactly `.` followed by the text before that position.
pub proof fn lemma_entry_keeps_only_host_prefix(t: Seq<char>, j: int)
    requires
        0 <= j <= schemes_removed(t).len(),
        forall|k: int| 0 <= k < j ==> schemes_removed(t)[k] != '/',
        j < schemes_removed(t).len() ==> schemes_removed(t)[j] == '/',
    ensures
        entry_of(t) == seq!['.'] + schemes_removed(t).take(j),
{
    crate::text::lemma_until_slash_take(schemes_removed(t), j);
}

} // verus!
