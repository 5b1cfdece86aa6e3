//! What holds of text that is split, trimmed, joined and written.

use crate::text::{
    blanked, blanks, clipped, decimal_of, digit, filled, find_from, has_prefix, has_suffix,
    has_text, is_white, joined, last_at, lemma_find_from, lemma_pieces_nonempty, lines_of, nonempty,
    occurs_at, pieces, repeated, replaced, text_before, trimmed, trimmed_end, trimmed_start,
    without_return, without_returns, without_suffixes, words_of,
};
use vstd::prelude::*;

verus! {

// ---- pieces -----------------------------------------------------------------------------

/// Whether no part holds the separator.
pub open spec fn all_without(parts: Seq<Seq<char>>, sep: char) -> bool {
    forall|i: int| 0 <= i < parts.len() ==> !(#[trigger] parts[i]).contains(sep)
}

/// Text without a separator extends the last piece.
pub proof fn lemma_pieces_grow(s: Seq<char>, t: Seq<char>, sep: char)
    requires
        !t.contains(sep),
    ensures
        pieces(s, sep).len() > 0,
        pieces(s + t, sep) == pieces(s, sep).drop_last().push(pieces(s, sep).last() + t),
    decreases t.len(),
{
    lemma_pieces_nonempty(s, sep);
    let p = pieces(s, sep);
    if t.len() == 0 {
        assert(s + t == s);
        assert(p.last() + t == p.last());
        assert(p == p.drop_last().push(p.last()));
    } else {
        let u = t.drop_last();
        assert forall|i: int| 0 <= i < u.len() implies u[i] != sep by {
            assert(t[i] == u[i]);
        }
        lemma_pieces_grow(s, u, sep);
        assert((s + t).drop_last() == s + u);
        assert((s + t).last() == t.last());
        assert(t[t.len() - 1] != sep);
        let q = pieces(s + u, sep);
        assert(q.drop_last() == p.drop_last());
        assert(q.last().push(t.last()) == p.last() + t);
    }
}

/// Splitting undoes joining: parts that hold no separator are found again in the text that
/// has them with the separator in between.
pub proof fn law_splitting_undoes_joining(parts: Seq<Seq<char>>, sep: char)
    requires
        parts.len() > 0,
        all_without(parts, sep),
    ensures
        pieces(joined(parts, seq![sep]), sep) == parts,
    decreases parts.len(),
{
    assert(!parts[parts.len() - 1].contains(sep));
    if parts.len() == 1 {
        let none = Seq::<char>::empty();
        lemma_pieces_grow(none, parts[0], sep);
        assert(none + parts[0] == parts[0]);
        assert(pieces(none, sep) == seq![none]);
        assert(seq![none].drop_last().push(parts[0]) == parts);
    } else {
        let front = parts.drop_last();
        assert forall|i: int| 0 <= i < front.len() implies !(#[trigger] front[i]).contains(sep) by {
            assert(front[i] == parts[i]);
        }
        law_splitting_undoes_joining(front, sep);
        let s = joined(front, seq![sep]);
        assert(s + seq![sep] == s.push(sep));
        assert(s.push(sep).drop_last() == s);
        let p = pieces(s.push(sep), sep);
        assert(p == front.push(Seq::empty()));
        lemma_pieces_grow(s.push(sep), parts.last(), sep);
        assert(p.drop_last() == front);
        assert(p.last() + parts.last() == parts.last());
        assert(front.push(parts.last()) == parts);
    }
}

/// Joining undoes splitting: no piece holds the separator, and the pieces with the separator
/// in between are the text.
pub proof fn law_joining_undoes_splitting(s: Seq<char>, sep: char)
    ensures
        pieces(s, sep).len() > 0,
        all_without(pieces(s, sep), sep),
        joined(pieces(s, sep), seq![sep]) == s,
    decreases s.len(),
{
    lemma_pieces_nonempty(s, sep);
    if s.len() == 0 {
        assert(joined(pieces(s, sep), seq![sep]) == s);
    } else {
        let front = s.drop_last();
        law_joining_undoes_splitting(front, sep);
        let before = pieces(front, sep);
        let all = pieces(s, sep);
        assert(s == front.push(s.last()));
        if s.last() == sep {
            assert(all.drop_last() == before);
            assert(all.last() == Seq::<char>::empty());
            assert(joined(all, seq![sep]) == front + seq![sep] + Seq::<char>::empty());
            assert(front + seq![sep] + Seq::<char>::empty() == s);
            assert forall|i: int| 0 <= i < all.len() implies !(#[trigger] all[i]).contains(sep) by {
                if i < before.len() {
                    assert(all[i] == before[i]);
                }
            }
        } else {
            let grown = before.last().push(s.last());
            assert(all.drop_last() == before.drop_last());
            assert(all.last() == grown);
            if before.len() == 1 {
                assert(joined(before, seq![sep]) == before[0]);
                assert(joined(all, seq![sep]) == grown);
            } else {
                let head = joined(before.drop_last(), seq![sep]) + seq![sep];
                assert(front == head + before.last());
                assert(joined(all, seq![sep]) == head + grown);
                assert(head + grown == s);
            }
            assert forall|i: int| 0 <= i < all.len() implies !(#[trigger] all[i]).contains(sep) by {
                if i < all.len() - 1 {
                    assert(all[i] == before[i]);
                } else {
                    assert(!before[before.len() - 1].contains(sep));
                    assert forall|j: int| 0 <= j < grown.len() implies grown[j] != sep by {
                        if j < before.last().len() {
                            assert(before.last()[j] == grown[j]);
                            assert(before.last().contains(grown[j]));
                        }
                    }
                }
            }
        }
    }
}

/// What is kept of a list of parts is every part that holds something, and no other, in
/// order.
pub proof fn law_nonempty_is_exact(parts: Seq<Seq<char>>)
    ensures
        nonempty(parts) == parts.filter(|p: Seq<char>| p.len() > 0),
    decreases parts.len(),
{
    reveal(Seq::filter);
    if parts.len() > 0 {
        law_nonempty_is_exact(parts.drop_last());
    }
}

/// Names that each end in a separator are found again, where none is empty or holds it.
pub proof fn law_ended_names_are_read(names: Seq<Seq<char>>, sep: char)
    requires
        all_without(names, sep),
        forall|i: int| 0 <= i < names.len() ==> (#[trigger] names[i]).len() > 0,
    ensures
        nonempty(pieces(ended(names, seq![sep]), sep)) == names,
{
    let none = Seq::<char>::empty();
    if names.len() == 0 {
        assert(pieces(none, sep) == seq![none]);
        let one = seq![none];
        assert(one.drop_last() == names);
        assert(nonempty(one.drop_last()) == names);
        assert(nonempty(one) == names);
    } else {
        let s = joined(names, seq![sep]);
        law_splitting_undoes_joining(names, sep);
        lemma_ended(names, seq![sep]);
        assert(s + seq![sep] == s.push(sep));
        assert(s.push(sep).drop_last() == s);
        let p = pieces(s.push(sep), sep);
        assert(p == names.push(none));
        assert(p.drop_last() == names);
        lemma_nonempty_all(names);
    }
}

/// The parts one after the other, with `end` behind each.
pub open spec fn ended(parts: Seq<Seq<char>>, end: Seq<char>) -> Seq<char>
    decreases parts.len(),
{
    if parts.len() == 0 {
        Seq::empty()
    } else {
        ended(parts.drop_last(), end) + parts.last() + end
    }
}

pub proof fn lemma_ended(parts: Seq<Seq<char>>, end: Seq<char>)
    requires
        parts.len() > 0,
    ensures
        ended(parts, end) == joined(parts, end) + end,
    decreases parts.len(),
{
    if parts.len() == 1 {
        assert(ended(parts.drop_last(), end) == Seq::<char>::empty());
        assert(Seq::<char>::empty() + parts[0] == parts[0]);
    } else {
        lemma_ended(parts.drop_last(), end);
    }
}

proof fn lemma_nonempty_all(parts: Seq<Seq<char>>)
    requires
        forall|i: int| 0 <= i < parts.len() ==> (#[trigger] parts[i]).len() > 0,
    ensures
        nonempty(parts) == parts,
    decreases parts.len(),
{
    if parts.len() > 0 {
        let front = parts.drop_last();
        assert forall|i: int| 0 <= i < front.len() implies (#[trigger] front[i]).len() > 0 by {
            assert(front[i] == parts[i]);
        }
        lemma_nonempty_all(front);
        assert(parts[parts.len() - 1].len() > 0);
        assert(front.push(parts.last()) == parts);
    }
}

// ---- lines and words ----------------------------------------------------------------------

/// Lines are read back: each ended by a line feed, or by a carriage return and a line feed,
/// where no line holds a line feed or ends in a carriage return.
pub proof fn law_lines_are_read(lines: Seq<Seq<char>>, end: Seq<char>)
    requires
        end == seq!['\n'] || end == seq!['\r', '\n'],
        all_without(lines, '\n'),
        forall|i: int|
            0 <= i < lines.len() ==> (#[trigger] lines[i]).len() == 0 || lines[i].last() != '\r',
    ensures
        lines_of(ended(lines, end)) == lines,
        lines.len() > 0 && lines.last().len() > 0 ==> lines_of(joined(lines, end)) == lines,
{
    let cr = if end == seq!['\n'] {
        Seq::<char>::empty()
    } else {
        seq!['\r']
    };
    let none = Seq::<char>::empty();
    let raw = lines.map_values(|l: Seq<char>| l + cr);
    assert forall|i: int| 0 <= i < raw.len() implies !(#[trigger] raw[i]).contains('\n') by {
        assert(!lines[i].contains('\n'));
        assert forall|j: int| 0 <= j < raw[i].len() implies raw[i][j] != '\n' by {
            if j < lines[i].len() {
                assert(lines[i].contains(lines[i][j]));
            }
        }
    }
    lemma_ends_move(lines, cr);
    assert(cr + seq!['\n'] == end);
    if lines.len() == 0 {
        assert(pieces(none, '\n') == seq![none]);
        assert(seq![none].drop_last() == Seq::<Seq<char>>::empty());
        assert(lines_of(none) == lines);
    } else {
        law_splitting_undoes_joining(raw, '\n');
        lemma_ended(raw, seq!['\n']);
        let s = joined(raw, seq!['\n']);
        assert(s + seq!['\n'] == s.push('\n'));
        assert(s.push('\n').drop_last() == s);
        let p = pieces(s.push('\n'), '\n');
        assert(p == raw.push(none));
        assert(p.drop_last() == raw);
        assert(without_returns(raw) == lines) by {
            assert forall|i: int| 0 <= i < lines.len() implies without_return(raw[i])
                == lines[i] by {
                lemma_return_off(lines[i], cr);
            }
        }
        assert(ended(lines, end) == s.push('\n'));
        assert(lines_of(ended(lines, end)) == lines);
        if lines.last().len() > 0 {
            let last = lines.last();
            let whole = raw.drop_last().push(last);
            lemma_joined_ends(lines, cr);
            assert(joined(lines, end) == joined(whole, seq!['\n']));
            assert forall|i: int| 0 <= i < whole.len() implies !(#[trigger] whole[i]).contains(
                '\n',
            ) by {
                if i < whole.len() - 1 {
                    assert(whole[i] == raw[i]);
                } else {
                    assert(!lines[lines.len() - 1].contains('\n'));
                }
            }
            law_splitting_undoes_joining(whole, '\n');
            assert(whole.drop_last() == raw.drop_last());
            assert(without_returns(raw.drop_last()) == lines.drop_last()) by {
                assert forall|i: int| 0 <= i < lines.len() - 1 implies without_return(
                    raw.drop_last()[i],
                ) == lines.drop_last()[i] by {
                    lemma_return_off(lines[i], cr);
                }
            }
            assert(lines.drop_last().push(last) == lines);
        }
    }
}

proof fn lemma_return_off(l: Seq<char>, cr: Seq<char>)
    requires
        cr.len() == 0 || cr == seq!['\r'],
        l.len() == 0 || l.last() != '\r',
    ensures
        without_return(l + cr) == l,
{
    if cr.len() == 0 {
        assert(l + cr == l);
    } else {
        assert((l + cr).drop_last() == l);
    }
}

proof fn lemma_ends_move(lines: Seq<Seq<char>>, cr: Seq<char>)
    ensures
        ended(lines, cr + seq!['\n']) == ended(
            lines.map_values(|l: Seq<char>| l + cr),
            seq!['\n'],
        ),
    decreases lines.len(),
{
    let raw = lines.map_values(|l: Seq<char>| l + cr);
    if lines.len() > 0 {
        lemma_ends_move(lines.drop_last(), cr);
        assert(raw.drop_last() == lines.drop_last().map_values(|l: Seq<char>| l + cr));
        let head = ended(lines.drop_last(), cr + seq!['\n']);
        assert(head + lines.last() + (cr + seq!['\n']) == head + (lines.last() + cr) + seq!['\n']);
    }
}

proof fn lemma_joined_ends(lines: Seq<Seq<char>>, cr: Seq<char>)
    requires
        lines.len() > 0,
    ensures
        joined(lines, cr + seq!['\n']) == joined(
            lines.map_values(|l: Seq<char>| l + cr).drop_last().push(lines.last()),
            seq!['\n'],
        ),
{
    let raw = lines.map_values(|l: Seq<char>| l + cr);
    let whole = raw.drop_last().push(lines.last());
    if lines.len() > 1 {
        let front = lines.drop_last();
        lemma_ends_move(front, cr);
        lemma_ended(front, cr + seq!['\n']);
        assert(raw.drop_last() == front.map_values(|l: Seq<char>| l + cr));
        lemma_ended(raw.drop_last(), seq!['\n']);
        assert(whole.drop_last() == raw.drop_last());
    }
}

/// Words are read back, whichever white characters stand between them.
pub proof fn law_words_are_read(words: Seq<Seq<char>>, gap: char)
    requires
        is_white(gap),
        words.len() > 0,
        forall|i: int, j: int|
            0 <= i < words.len() && 0 <= j < words[i].len() ==> !is_white(#[trigger] words[i][j]),
        forall|i: int| 0 <= i < words.len() ==> (#[trigger] words[i]).len() > 0,
    ensures
        words_of(joined(words, seq![gap])) == words,
{
    lemma_blanked_joined(words, gap);
    assert forall|i: int| 0 <= i < words.len() implies !(#[trigger] words[i]).contains(' ') by {
        assert forall|j: int| 0 <= j < words[i].len() implies words[i][j] != ' ' by {
            assert(!is_white(words[i][j]));
        }
    }
    law_splitting_undoes_joining(words, ' ');
    lemma_nonempty_all(words);
}

proof fn lemma_blanked_joined(words: Seq<Seq<char>>, gap: char)
    requires
        is_white(gap),
        words.len() > 0,
        forall|i: int, j: int|
            0 <= i < words.len() && 0 <= j < words[i].len() ==> !is_white(#[trigger] words[i][j]),
    ensures
        blanked(joined(words, seq![gap])) == joined(words, seq![' ']),
    decreases words.len(),
{
    let last = words[words.len() - 1];
    assert(blanked(last) == last) by {
        assert forall|j: int| 0 <= j < last.len() implies blanked(last)[j] == last[j] by {
            assert(!is_white(words[words.len() - 1][j]));
        }
    }
    if words.len() > 1 {
        let front = words.drop_last();
        assert forall|i: int, j: int| 0 <= i < front.len() && 0 <= j < front[i].len() implies !is_white(
            #[trigger] front[i][j],
        ) by {
            assert(!is_white(words[i][j]));
        }
        lemma_blanked_joined(front, gap);
        let a = joined(front, seq![gap]);
        assert(blanked(a + seq![gap] + last) == blanked(a) + seq![' '] + blanked(last));
    }
}

// ---- white space ----------------------------------------------------------------------------

proof fn lemma_trimmed_start(s: Seq<char>) -> (i: int)
    ensures
        0 <= i <= s.len(),
        trimmed_start(s) == s.skip(i),
        forall|j: int| 0 <= j < i ==> is_white(#[trigger] s[j]),
        i < s.len() ==> !is_white(s[i]),
    decreases s.len(),
{
    if s.len() > 0 && is_white(s[0]) {
        let k = lemma_trimmed_start(s.drop_first());
        assert(s.drop_first().skip(k) == s.skip(k + 1));
        assert forall|j: int| 0 <= j < k + 1 implies is_white(#[trigger] s[j]) by {
            if j > 0 {
                assert(s.drop_first()[j - 1] == s[j]);
            }
        }
        k + 1
    } else {
        assert(s.skip(0) == s);
        0
    }
}

proof fn lemma_trimmed_end(s: Seq<char>) -> (k: int)
    ensures
        0 <= k <= s.len(),
        trimmed_end(s) == s.take(k),
        forall|j: int| k <= j < s.len() ==> is_white(#[trigger] s[j]),
        k > 0 ==> !is_white(s[k - 1]),
    decreases s.len(),
{
    if s.len() > 0 && is_white(s.last()) {
        let k = lemma_trimmed_end(s.drop_last());
        assert(s.drop_last().take(k) == s.take(k));
        assert forall|j: int| k <= j < s.len() implies is_white(#[trigger] s[j]) by {
            if j < s.len() - 1 {
                assert(s.drop_last()[j] == s[j]);
            }
        }
        k
    } else {
        assert(s.take(s.len() as int) == s);
        s.len() as int
    }
}

/// Trimming takes white space off both ends and nothing else: what stands between the first
/// character that is not white and the last one is left.
pub proof fn law_trimming_is_exact(before: Seq<char>, s: Seq<char>, after: Seq<char>)
    requires
        forall|i: int| 0 <= i < before.len() ==> is_white(#[trigger] before[i]),
        forall|i: int| 0 <= i < after.len() ==> is_white(#[trigger] after[i]),
        s.len() == 0 || (!is_white(s[0]) && !is_white(s.last())),
    ensures
        trimmed(before + s + after) == s,
{
    let whole = before + s + after;
    let i = lemma_trimmed_start(whole);
    let rest = whole.skip(i);
    let k = lemma_trimmed_end(rest);
    if s.len() == 0 {
        if i < whole.len() {
            assert(is_white(whole[i])) by {
                if i < before.len() {
                    assert(before[i] == whole[i]);
                } else {
                    assert(after[i - before.len()] == whole[i]);
                }
            }
        }
        assert(rest.len() == 0);
        assert(trimmed(whole) == s);
    } else {
        let n = before.len() as int;
        assert(whole[n] == s[0]);
        if i < n {
            assert(before[i] == whole[i]);
        }
        if i > n {
            assert(is_white(whole[n]));
        }
        assert(rest == s + after);
        if k > s.len() {
            assert(after[k - 1 - s.len()] == rest[k - 1]);
        }
        if k < s.len() {
            assert(is_white(rest[s.len() - 1]));
        }
        assert(rest.take(k) == s);
    }
}

/// The white characters are the controls from the tab to the carriage return, the blank and
/// the spaces of Unicode, and no others.
pub proof fn law_white_characters(c: char)
    ensures
        is_white(c) <==> (c == '\t' || c == '\n' || c == '\u{b}' || c == '\u{c}' || c == '\r' || c
            == ' ' || c == '\u{85}' || c == '\u{a0}' || c == '\u{1680}' || c == '\u{2000}' || c
            == '\u{2001}' || c == '\u{2002}' || c == '\u{2003}' || c == '\u{2004}' || c
            == '\u{2005}' || c == '\u{2006}' || c == '\u{2007}' || c == '\u{2008}' || c
            == '\u{2009}' || c == '\u{200a}' || c == '\u{2028}' || c == '\u{2029}' || c
            == '\u{202f}' || c == '\u{205f}' || c == '\u{3000}'),
{
}

/// Whether a text begins with, ends with or holds another says that it is that other with more
/// text behind, before or around it.
pub proof fn law_holding_text(a: Seq<char>, pat: Seq<char>, b: Seq<char>)
    ensures
        has_text(a + pat + b, pat),
        has_prefix(pat + b, pat),
        has_suffix(a + pat, pat),
        has_prefix(b, pat) ==> b == pat + b.skip(pat.len() as int),
        has_suffix(b, pat) ==> b == b.take(b.len() - pat.len()) + pat,
{
    let n = a.len() as int;
    let whole = a + pat + b;
    assert(whole.subrange(n, n + pat.len()) == pat);
    assert(occurs_at(whole, pat, n));
    assert((pat + b).subrange(0, pat.len() as int) == pat);
    let end = a + pat;
    assert(end.len() - pat.len() == n);
    assert(end.subrange(n, n + pat.len()) == pat);
    if has_prefix(b, pat) {
        assert(b == b.subrange(0, pat.len() as int) + b.skip(pat.len() as int));
    }
    if has_suffix(b, pat) {
        assert(b == b.take(b.len() - pat.len()) + b.subrange(b.len() - pat.len(), b.len() as int));
    }
}

/// A text that holds another has a part before it and a part behind it.
pub proof fn law_held_text_has_surroundings(s: Seq<char>, pat: Seq<char>) -> (around: (
    Seq<char>,
    Seq<char>,
))
    requires
        has_text(s, pat),
    ensures
        s == around.0 + pat + around.1,
{
    let i = choose|i: int| occurs_at(s, pat, i);
    let (x, y) = (s.take(i), s.skip(i + pat.len()));
    assert(s == x + s.subrange(i, i + pat.len()) + y);
    (x, y)
}

/// Searching finds the first place: the pattern stands there, and at none before it.
pub proof fn law_first_place_is_found(s: Seq<char>, pat: Seq<char>, i: int, k: int)
    requires
        0 <= i <= k,
        k + pat.len() <= s.len(),
        s.subrange(k, k + pat.len()) == pat,
        forall|j: int|
            i <= j < k ==> #[trigger] s.subrange(j, j + pat.len()) != pat,
    ensures
        find_from(s, pat, i) == Some(k),
{
    lemma_find_from(s, pat, i);
    assert(occurs_at(s, pat, k));
    match find_from(s, pat, i) {
        Some(m) => {
            if m < k {
                assert(s.subrange(m, m + pat.len()) == pat);
            }
        },
        None => {},
    }
}

// ---- writing ----------------------------------------------------------------------------------

/// The number that a run of decimal digits writes.
pub open spec fn written(s: Seq<char>) -> nat
    decreases s.len(),
{
    if s.len() == 0 {
        0
    } else {
        written(s.drop_last()) * 10 + (s.last() as u32 - '0' as u32) as nat
    }
}

/// A number written in decimal reads as that number, in digits alone, and does not start with
/// a zero unless it is zero.
pub proof fn law_numbers_read_back(n: nat)
    ensures
        written(decimal_of(n)) == n,
        decimal_of(n).len() > 0,
        forall|i: int| 0 <= i < decimal_of(n).len() ==> '0' <= #[trigger] decimal_of(n)[i] <= '9',
        n > 0 ==> decimal_of(n)[0] != '0',
    decreases n,
{
    let s = decimal_of(n);
    let d = n % 10;
    assert(digit(d) as u32 == '0' as u32 + d);
    assert('0' <= digit(d) <= '9');
    if n < 10 {
        assert(s.drop_last() == Seq::<char>::empty());
        assert(written(s.drop_last()) == 0);
    } else {
        law_numbers_read_back(n / 10);
        assert(s.drop_last() == decimal_of(n / 10));
        assert(s[0] == decimal_of(n / 10)[0]);
    }
}

/// One text comes before another where it is a shorter beginning of it, or has the lesser
/// character at the first place where they differ; and only there.
pub proof fn law_dictionary_order(a: Seq<char>, b: Seq<char>, k: int)
    requires
        0 <= k <= a.len(),
        k <= b.len(),
        a.take(k) == b.take(k),
        k == a.len() || k == b.len() || a[k] != b[k],
    ensures
        text_before(a, b) <==> k < b.len() && (k == a.len() || a[k] < b[k]),
    decreases k,
{
    if k > 0 {
        assert(a[0] == a.take(k)[0] && b[0] == b.take(k)[0]);
        assert(a.drop_first().take(k - 1) == a.take(k).drop_first());
        assert(b.drop_first().take(k - 1) == b.take(k).drop_first());
        if k < a.len() && k < b.len() {
            assert(a.drop_first()[k - 1] == a[k]);
            assert(b.drop_first()[k - 1] == b[k]);
        }
        law_dictionary_order(a.drop_first(), b.drop_first(), k - 1);
    }
}

/// Endings taken off a text are repetitions of the pattern, and none is left.
pub proof fn law_endings_come_off(s: Seq<char>, pat: Seq<char>, n: nat)
    requires
        pat.len() > 0,
        !has_suffix(s, pat),
    ensures
        without_suffixes(s + repeated(pat, n), pat) == s,
    decreases n,
{
    if n == 0 {
        assert(s + repeated(pat, n) == s);
    } else {
        let front = s + repeated(pat, (n - 1) as nat);
        let whole = s + repeated(pat, n);
        assert(whole == front + pat);
        assert(whole.subrange(whole.len() - pat.len(), whole.len() as int) == pat);
        assert(whole.take(whole.len() - pat.len()) == front);
        law_endings_come_off(s, pat, (n - 1) as nat);
    }
}

/// A text made wider keeps its characters and gets blanks behind them, up to the width; one
/// that is clipped keeps its first characters.
pub proof fn law_widths(s: Seq<char>, width: nat, i: int)
    ensures
        filled(s, width).len() == (if s.len() < width { width } else { s.len() }),
        0 <= i < s.len() ==> filled(s, width)[i] == s[i],
        s.len() <= i < width ==> filled(s, width)[i] == ' ',
        blanks(width).len() == width,
        0 <= i < width ==> blanks(width)[i] == ' ',
        clipped(s, width).len() == (if s.len() < width { s.len() } else { width }),
        0 <= i < clipped(s, width).len() ==> clipped(s, width)[i] == s[i],
        repeated(s, 0).len() == 0,
        repeated(s, width + 1) == s + repeated(s, width),
{
    lemma_repeated_front(s, width);
}

proof fn lemma_repeated_front(s: Seq<char>, n: nat)
    ensures
        repeated(s, n + 1) == s + repeated(s, n),
    decreases n,
{
    if n == 0 {
        assert(repeated(s, 0) == Seq::<char>::empty());
        assert(Seq::<char>::empty() + s == s + Seq::<char>::empty());
        assert(repeated(s, 1) == repeated(s, 0) + s);
    } else {
        lemma_repeated_front(s, (n - 1) as nat);
        assert(repeated(s, n + 1) == repeated(s, n) + s);
        assert(s + repeated(s, (n - 1) as nat) + s == s + (repeated(s, (n - 1) as nat) + s));
    }
}

/// Replacing a character leaves every other one where it is.
pub proof fn law_replacing_is_exact(s: Seq<char>, from: char, to: char, i: int)
    requires
        0 <= i < s.len(),
    ensures
        replaced(s, from, to).len() == s.len(),
        s[i] == from ==> replaced(s, from, to)[i] == to,
        s[i] != from ==> replaced(s, from, to)[i] == s[i],
{
}

/// The last place of a character is the one behind which it does not come again.
pub proof fn law_last_place_is_found(a: Seq<char>, c: char, b: Seq<char>)
    requires
        !b.contains(c),
    ensures
        last_at(a + seq![c] + b, c) == Some(a.len() as int),
        last_at(b, c) is None,
    decreases b.len(),
{
    let s = a + seq![c] + b;
    if b.len() > 0 {
        let rest = b.drop_last();
        assert(b.contains(b.last()));
        assert(!rest.contains(c)) by {
            if rest.contains(c) {
                let i = choose|i: int| 0 <= i < rest.len() && rest[i] == c;
                assert(b[i] == c);
            }
        }
        law_last_place_is_found(a, c, rest);
        assert(s.drop_last() == a + seq![c] + rest);
        assert(s.last() == b.last());
    } else {
        assert(s.last() == c);
    }
}

/// Searching for what does not stand there finds nothing.
pub proof fn law_absent_text_is_not_found(s: Seq<char>, pat: Seq<char>, i: int)
    requires
        0 <= i,
        forall|j: int|
            i <= j && j + pat.len() <= s.len() ==> #[trigger] s.subrange(j, j + pat.len()) != pat,
    ensures
        find_from(s, pat, i) is None,
{
    lemma_find_from(s, pat, i);
    match find_from(s, pat, i) {
        Some(k) => {
            assert(s.subrange(k, k + pat.len()) == pat);
        },
        None => {},
    }
}

} // verus!
