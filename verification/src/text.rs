//! Text as sequences of characters: searching, splitting, trimming, joining.

use vstd::prelude::*;
use vstd::utf8::encode_utf8;

verus! {

// ---- what the operations mean ------------------------------------------------

/// The characters with the Unicode `White_Space` property.
pub open spec fn is_white(c: char) -> bool {
    ||| '\u{9}' <= c <= '\u{d}'
    ||| c == ' '
    ||| c == '\u{85}'
    ||| c == '\u{a0}'
    ||| c == '\u{1680}'
    ||| '\u{2000}' <= c <= '\u{200a}'
    ||| c == '\u{2028}'
    ||| c == '\u{2029}'
    ||| c == '\u{202f}'
    ||| c == '\u{205f}'
    ||| c == '\u{3000}'
}

/// `s` without the white space it starts with.
pub open spec fn trimmed_start(s: Seq<char>) -> Seq<char>
    decreases s.len(),
{
    if s.len() > 0 && is_white(s[0]) {
        trimmed_start(s.drop_first())
    } else {
        s
    }
}

/// `s` without the white space it ends with.
pub open spec fn trimmed_end(s: Seq<char>) -> Seq<char>
    decreases s.len(),
{
    if s.len() > 0 && is_white(s.last()) {
        trimmed_end(s.drop_last())
    } else {
        s
    }
}

/// `s` without the white space at either end.
pub open spec fn trimmed(s: Seq<char>) -> Seq<char> {
    trimmed_end(trimmed_start(s))
}

/// Whether `pat` stands in `s` at position `i`.
pub open spec fn occurs_at(s: Seq<char>, pat: Seq<char>, i: int) -> bool {
    &&& 0 <= i
    &&& i + pat.len() <= s.len()
    &&& s.subrange(i, i + pat.len()) == pat
}

/// Whether `pat` stands anywhere in `s`.
pub open spec fn has_text(s: Seq<char>, pat: Seq<char>) -> bool {
    exists|i: int| occurs_at(s, pat, i)
}

/// Whether `s` begins with `pat`.
pub open spec fn has_prefix(s: Seq<char>, pat: Seq<char>) -> bool {
    occurs_at(s, pat, 0)
}

/// Whether `s` ends with `pat`.
pub open spec fn has_suffix(s: Seq<char>, pat: Seq<char>) -> bool {
    occurs_at(s, pat, s.len() - pat.len())
}

/// The first position at or after `i` where `pat` stands in `s`.
pub open spec fn find_from(s: Seq<char>, pat: Seq<char>, i: int) -> Option<int>
    decreases s.len() + 1 - i,
{
    if i < 0 || i + pat.len() > s.len() {
        None
    } else if occurs_at(s, pat, i) {
        Some(i)
    } else {
        find_from(s, pat, i + 1)
    }
}

/// The pieces of `s` between the separators `sep`: one more than there are
/// separators.
pub open spec fn pieces(s: Seq<char>, sep: char) -> Seq<Seq<char>>
    decreases s.len(),
{
    if s.len() == 0 {
        seq![Seq::empty()]
    } else {
        let before = pieces(s.drop_last(), sep);
        if s.last() == sep {
            before.push(Seq::empty())
        } else {
            before.drop_last().push(before.last().push(s.last()))
        }
    }
}

/// The members of `parts` that hold something, in order.
pub open spec fn nonempty(parts: Seq<Seq<char>>) -> Seq<Seq<char>>
    decreases parts.len(),
{
    if parts.len() == 0 {
        Seq::empty()
    } else if parts.last().len() == 0 {
        nonempty(parts.drop_last())
    } else {
        nonempty(parts.drop_last()).push(parts.last())
    }
}

/// `s` without the carriage return it may end with.
pub open spec fn without_return(s: Seq<char>) -> Seq<char> {
    if s.len() > 0 && s.last() == '\r' {
        s.drop_last()
    } else {
        s
    }
}

/// Each member of `parts` without the carriage return it may end with.
pub open spec fn without_returns(parts: Seq<Seq<char>>) -> Seq<Seq<char>> {
    Seq::new(parts.len(), |i: int| without_return(parts[i]))
}

/// The lines of `s`. A line ends at a line feed, or at a carriage return and a
/// line feed; what follows the last line feed is a line if it holds something.
pub open spec fn lines_of(s: Seq<char>) -> Seq<Seq<char>> {
    let parts = pieces(s, '\n');
    let ended = without_returns(parts.drop_last());
    if parts.last().len() == 0 {
        ended
    } else {
        ended.push(parts.last())
    }
}

/// `s` with every white character made a blank.
pub open spec fn blanked(s: Seq<char>) -> Seq<char> {
    Seq::new(s.len(), |i: int| if is_white(s[i]) { ' ' } else { s[i] })
}

/// The words of `s`: its longest runs without white space.
pub open spec fn words_of(s: Seq<char>) -> Seq<Seq<char>> {
    nonempty(pieces(blanked(s), ' '))
}

/// The members of `parts` one after the other, with `sep` between them.
pub open spec fn joined(parts: Seq<Seq<char>>, sep: Seq<char>) -> Seq<char>
    decreases parts.len(),
{
    if parts.len() == 0 {
        Seq::empty()
    } else if parts.len() == 1 {
        parts[0]
    } else {
        joined(parts.drop_last(), sep) + sep + parts.last()
    }
}

/// `s` with each `from` made a `to`.
pub open spec fn replaced(s: Seq<char>, from: char, to: char) -> Seq<char> {
    Seq::new(s.len(), |i: int| if s[i] == from { to } else { s[i] })
}

/// `n` blanks.
pub open spec fn blanks(n: nat) -> Seq<char> {
    Seq::new(n, |i: int| ' ')
}

/// `s` filled up with blanks on the right to `width` characters.
pub open spec fn filled(s: Seq<char>, width: nat) -> Seq<char> {
    if s.len() < width {
        s + blanks((width - s.len()) as nat)
    } else {
        s
    }
}

/// The first `n` characters of `s`, or all of them.
pub open spec fn clipped(s: Seq<char>, n: nat) -> Seq<char> {
    if s.len() > n {
        s.take(n as int)
    } else {
        s
    }
}

/// The decimal digit of value `d`.
pub open spec fn digit(d: nat) -> char {
    (('0' as u32) + d) as char
}

/// `n` written in decimal.
pub open spec fn decimal_of(n: nat) -> Seq<char>
    decreases n,
{
    if n < 10 {
        seq![digit(n)]
    } else {
        decimal_of(n / 10).push(digit(n % 10))
    }
}

/// Dictionary order by code points: whether `a` comes strictly before `b`.
pub open spec fn text_before(a: Seq<char>, b: Seq<char>) -> bool
    decreases a.len(),
{
    if b.len() == 0 {
        false
    } else if a.len() == 0 {
        true
    } else if a[0] != b[0] {
        a[0] < b[0]
    } else {
        text_before(a.drop_first(), b.drop_first())
    }
}

/// `s` without the repetitions of `pat` that it ends with.
pub open spec fn without_suffixes(s: Seq<char>, pat: Seq<char>) -> Seq<char>
    decreases s.len(),
{
    if pat.len() > 0 && has_suffix(s, pat) {
        without_suffixes(s.take(s.len() - pat.len()), pat)
    } else {
        s
    }
}

/// The last position of `c` in `s`.
pub open spec fn last_at(s: Seq<char>, c: char) -> Option<int>
    decreases s.len(),
{
    if s.len() == 0 {
        None
    } else if s.last() == c {
        Some(s.len() - 1)
    } else {
        last_at(s.drop_last(), c)
    }
}

// ---- trusted: std -------------------------------------------------------------

/// `String::push` appends one character.
pub assume_specification[ String::push ](s: &mut String, c: char)
    ensures
        final(s)@ == old(s)@.push(c),
;

/// `String::pop` takes the last character away, if there is one, and hands it out.
pub assume_specification[ String::pop ](s: &mut String) -> (r: Option<char>)
    ensures
        old(s)@.len() == 0 ==> r is None && final(s)@ == old(s)@,
        old(s)@.len() > 0 ==> r == Some(old(s)@.last()) && final(s)@ == old(s)@.drop_last(),
;

/// What `str::to_lowercase` makes of a text.
pub uninterp spec fn lowercase(s: Seq<char>) -> Seq<char>;

/// `str::to_lowercase` is a function of the text alone; which characters it
/// yields is left to Unicode.
#[verifier::external_body]
pub(crate) fn to_lower(s: &str) -> (r: String)
    ensures
        r@ == lowercase(s@),
{
    s.to_lowercase()
}

/// What the `Debug` form of a text is.
pub uninterp spec fn debug_form(s: Seq<char>) -> Seq<char>;

/// `str`'s `Debug` form, the text in double quotes with escapes, is a function of
/// the text alone; the escapes themselves are left to std.
#[verifier::external_body]
pub(crate) fn to_debug(s: &str) -> (r: String)
    ensures
        r@ == debug_form(s@),
{
    format!("{:?}", s)
}

/// `str::from_utf8` hands the text out exactly when the bytes are valid UTF-8, and
/// the bytes are then its encoding.
#[verifier::external_body]
pub(crate) fn text_of_bytes(bytes: &[u8]) -> (r: Option<&str>)
    ensures
        r is Some <==> vstd::utf8::valid_utf8(bytes@),
        r matches Some(s) ==> encode_utf8(s@) == bytes@,
{
    std::str::from_utf8(bytes).ok()
}

/// What `String::from_utf8_lossy` makes of bytes.
pub uninterp spec fn lossy_text(bytes: Seq<u8>) -> Seq<char>;

/// `String::from_utf8_lossy` is a function of the bytes alone, and keeps the text that
/// valid UTF-8 encodes; what stands in for invalid bytes is left to std.
#[verifier::external_body]
pub(crate) fn to_text(bytes: &[u8]) -> (r: String)
    ensures
        r@ == lossy_text(bytes@),
        vstd::utf8::valid_utf8(bytes@) ==> encode_utf8(r@) == bytes@,
{
    String::from_utf8_lossy(bytes).into_owned()
}

// ---- characters and strings ------------------------------------------------------

/// The characters of a string, in order.
pub fn chars_of(s: &str) -> (r: Vec<char>)
    ensures
        r@ == s@,
{
    let mut out: Vec<char> = Vec::new();
    for c in it: s.chars()
        invariant
            out@ == s@.take(it.index() as int),
            it.seq() == s@,
    {
        out.push(c);
    }
    assert(s@.take(s@.len() as int) == s@);
    out
}

/// The string of the characters `cs[lo..hi]`.
pub fn string_between(cs: &Vec<char>, lo: usize, hi: usize) -> (r: String)
    requires
        lo <= hi <= cs@.len(),
    ensures
        r@ == cs@.subrange(lo as int, hi as int),
{
    let mut out = String::new();
    for i in lo..hi
        invariant
            lo <= i <= hi <= cs@.len(),
            out@ == cs@.subrange(lo as int, i as int),
    {
        out.push(cs[i]);
        assert(cs@.subrange(lo as int, i + 1) == cs@.subrange(lo as int, i as int).push(
            cs@[i as int],
        ));
    }
    out
}

/// The string that holds the given characters.
pub fn string_of(cs: &Vec<char>) -> (r: String)
    ensures
        r@ == cs@,
{
    assert(cs@.subrange(0, cs@.len() as int) == cs@);
    string_between(cs, 0, cs.len())
}

/// The texts `parts` as strings of their own.
pub fn strings(parts: &[&str]) -> (r: Vec<String>)
    ensures
        r.deep_view() == parts.deep_view(),
        r@.len() == parts@.len(),
{
    let mut out: Vec<String> = Vec::new();
    for i in 0..parts.len()
        invariant
            out.deep_view() == parts.deep_view().take(i as int),
    {
        let ghost before = out.deep_view();
        let s = parts[i].to_owned();
        out.push(s);
        assert(out.deep_view() == before.push(s@));
        assert(parts.deep_view()[i as int] == s@);
    }
    assert(parts.deep_view().take(parts@.len() as int) == parts.deep_view());
    out
}

/// Whether two texts hold the same characters.
pub fn same(a: &str, b: &str) -> (r: bool)
    ensures
        r == (a@ == b@),
{
    let x = a.as_bytes();
    let y = b.as_bytes();
    proof {
        vstd::utf8::encode_utf8_decode_utf8(a@);
        vstd::utf8::encode_utf8_decode_utf8(b@);
    }
    if x.len() != y.len() {
        return false;
    }
    for i in 0..x.len()
        invariant
            x@.len() == y@.len(),
            x@ == encode_utf8(a@),
            y@ == encode_utf8(b@),
            forall|j: int| 0 <= j < i ==> x@[j] == y@[j],
    {
        if x[i] != y[i] {
            return false;
        }
    }
    assert(x@ == y@);
    true
}

pub fn white(c: char) -> (r: bool)
    ensures
        r == is_white(c),
{
    ('\u{9}' <= c && c <= '\u{d}') || c == ' ' || c == '\u{85}' || c == '\u{a0}' || c == '\u{1680}'
        || ('\u{2000}' <= c && c <= '\u{200a}') || c == '\u{2028}' || c == '\u{2029}' || c
        == '\u{202f}' || c == '\u{205f}' || c == '\u{3000}'
}

// ---- concatenation ----------------------------------------------------------------

pub fn cat(a: &str, b: &str) -> (r: String)
    ensures
        r@ == a@ + b@,
{
    let mut out = String::new();
    out.append(a);
    out.append(b);
    out
}

pub fn cat3(a: &str, b: &str, c: &str) -> (r: String)
    ensures
        r@ == a@ + b@ + c@,
{
    let mut out = cat(a, b);
    out.append(c);
    out
}

pub fn cat4(a: &str, b: &str, c: &str, d: &str) -> (r: String)
    ensures
        r@ == a@ + b@ + c@ + d@,
{
    let mut out = cat3(a, b, c);
    out.append(d);
    out
}

pub fn cat5(a: &str, b: &str, c: &str, d: &str, e: &str) -> (r: String)
    ensures
        r@ == a@ + b@ + c@ + d@ + e@,
{
    let mut out = cat4(a, b, c, d);
    out.append(e);
    out
}

pub fn cat6(a: &str, b: &str, c: &str, d: &str, e: &str, f: &str) -> (r: String)
    ensures
        r@ == a@ + b@ + c@ + d@ + e@ + f@,
{
    let mut out = cat5(a, b, c, d, e);
    out.append(f);
    out
}

// ---- searching --------------------------------------------------------------------

/// Whether `pat` stands in `s` at `i`.
fn stands_at(s: &Vec<char>, pat: &Vec<char>, i: usize) -> (r: bool)
    ensures
        r == occurs_at(s@, pat@, i as int),
{
    let n = s.len();
    if i > n || pat.len() > n - i {
        return false;
    }
    for k in 0..pat.len()
        invariant
            i + pat@.len() <= n,
            n == s@.len(),
            forall|j: int| 0 <= j < k ==> s@[i + j] == pat@[j],
    {
        if s[i + k] != pat[k] {
            assert(s@.subrange(i as int, i + pat@.len())[k as int] != pat@[k as int]);
            return false;
        }
    }
    assert(s@.subrange(i as int, i + pat@.len()) == pat@);
    true
}

pub proof fn lemma_find_from(s: Seq<char>, pat: Seq<char>, i: int)
    requires
        0 <= i,
    ensures
        match find_from(s, pat, i) {
            Some(k) => i <= k && occurs_at(s, pat, k) && (forall|j: int|
                i <= j < k ==> !occurs_at(s, pat, j)),
            None => forall|j: int| i <= j ==> !occurs_at(s, pat, j),
        },
    decreases s.len() + 1 - i,
{
    if i + pat.len() > s.len() {
    } else if occurs_at(s, pat, i) {
    } else {
        lemma_find_from(s, pat, i + 1);
    }
}

/// The first position at or after `from` where `pat` stands in `s`.
pub fn find_chars(s: &Vec<char>, pat: &Vec<char>, from: usize) -> (r: Option<usize>)
    requires
        from <= s@.len(),
    ensures
        match r {
            Some(k) => find_from(s@, pat@, from as int) == Some(k as int) && occurs_at(
                s@,
                pat@,
                k as int,
            ),
            None => find_from(s@, pat@, from as int) is None,
        },
{
    let mut i: usize = from;
    while i < s.len()
        invariant
            from <= i <= s@.len(),
            find_from(s@, pat@, from as int) == find_from(s@, pat@, i as int),
        decreases s@.len() - i,
    {
        if stands_at(s, pat, i) {
            return Some(i);
        }
        proof {
            lemma_find_from(s@, pat@, i as int);
            lemma_find_from(s@, pat@, i + 1);
        }
        i = i + 1;
    }
    proof {
        lemma_find_from(s@, pat@, i as int);
    }
    if stands_at(s, pat, i) {
        Some(i)
    } else {
        None
    }
}

/// Whether `pat` stands anywhere in `s`.
pub fn holds(s: &str, pat: &str) -> (r: bool)
    ensures
        r == has_text(s@, pat@),
{
    let cs = chars_of(s);
    let ps = chars_of(pat);
    let r = find_chars(&cs, &ps, 0);
    proof {
        lemma_find_from(s@, pat@, 0);
    }
    r.is_some()
}

/// Whether `c` stands anywhere in `s`.
pub fn has_char(s: &str, c: char) -> (r: bool)
    ensures
        r == s@.contains(c),
{
    for x in it: s.chars()
        invariant
            it.seq() == s@,
            forall|j: int| 0 <= j < it.index() ==> s@[j] != c,
    {
        if x == c {
            assert(s@[it.index() as int] == c);
            return true;
        }
    }
    false
}

/// Whether `s` begins with `pat`.
pub fn begins(s: &str, pat: &str) -> (r: bool)
    ensures
        r == has_prefix(s@, pat@),
{
    let cs = chars_of(s);
    let ps = chars_of(pat);
    stands_at(&cs, &ps, 0)
}

/// Whether `s` begins with `c`.
pub fn begins_char(s: &str, c: char) -> (r: bool)
    ensures
        r == (s@.len() > 0 && s@[0] == c),
{
    let cs = chars_of(s);
    cs.len() > 0 && cs[0] == c
}

/// Whether `s` ends with `pat`.
pub fn ends(s: &str, pat: &str) -> (r: bool)
    ensures
        r == has_suffix(s@, pat@),
{
    let cs = chars_of(s);
    let ps = chars_of(pat);
    if ps.len() > cs.len() {
        return false;
    }
    stands_at(&cs, &ps, cs.len() - ps.len())
}

/// What follows `pat` in `s`, if `s` begins with it.
pub fn strip_prefix(s: &str, pat: &str) -> (r: Option<String>)
    ensures
        match r {
            Some(rest) => has_prefix(s@, pat@) && rest@ == s@.skip(pat@.len() as int),
            None => !has_prefix(s@, pat@),
        },
{
    let cs = chars_of(s);
    let ps = chars_of(pat);
    if stands_at(&cs, &ps, 0) {
        assert(s@.skip(pat@.len() as int) == s@.subrange(pat@.len() as int, s@.len() as int));
        Some(string_between(&cs, ps.len(), cs.len()))
    } else {
        None
    }
}

// ---- trimming ---------------------------------------------------------------------

/// `s` without the white space at either end.
pub fn trim(s: &str) -> (r: String)
    ensures
        r@ == trimmed(s@),
{
    let cs = chars_of(s);
    let n = cs.len();
    let mut lo: usize = 0;
    assert(cs@.subrange(0, n as int) == cs@);
    while lo < n && white(cs[lo])
        invariant
            n == cs@.len(),
            lo <= n,
            trimmed_start(cs@) == trimmed_start(cs@.subrange(lo as int, n as int)),
        decreases n - lo,
    {
        assert(cs@.subrange(lo as int, n as int).drop_first() == cs@.subrange(
            lo + 1,
            n as int,
        ));
        lo = lo + 1;
    }
    let mut hi: usize = n;
    while hi > lo && white(cs[hi - 1])
        invariant
            n == cs@.len(),
            lo <= hi <= n,
            trimmed(cs@) == trimmed_end(cs@.subrange(lo as int, hi as int)),
        decreases hi,
    {
        assert(cs@.subrange(lo as int, hi as int).drop_last() == cs@.subrange(
            lo as int,
            hi - 1,
        ));
        hi = hi - 1;
    }
    string_between(&cs, lo, hi)
}

/// Whether `s` holds white space alone.
pub fn is_blank(s: &str) -> (r: bool)
    ensures
        r == (trimmed(s@).len() == 0),
{
    let t = trim(s);
    t.as_str().is_empty()
}

/// `s` without the repetitions of `pat` that it ends with.
pub fn trim_suffixes(s: &str, pat: &str) -> (r: String)
    ensures
        r@ == without_suffixes(s@, pat@),
{
    let ps = chars_of(pat);
    let mut kept = chars_of(s);
    while ps.len() > 0 && ps.len() <= kept.len() && stands_at(&kept, &ps, kept.len() - ps.len())
        invariant
            ps@ == pat@,
            without_suffixes(s@, pat@) == without_suffixes(kept@, pat@),
        decreases kept@.len(),
    {
        let n = kept.len() - ps.len();
        assert(kept@.take(n as int) == kept@.subrange(0, n as int));
        kept.truncate(n);
    }
    string_of(&kept)
}

// ---- splitting --------------------------------------------------------------------

pub proof fn lemma_pieces_nonempty(s: Seq<char>, sep: char)
    ensures
        pieces(s, sep).len() > 0,
    decreases s.len(),
{
    if s.len() > 0 {
        lemma_pieces_nonempty(s.drop_last(), sep);
    }
}

/// A character other than the separator is part of some piece.
pub proof fn lemma_piece_with(s: Seq<char>, sep: char, c: char)
    requires
        s.contains(c),
        c != sep,
    ensures
        exists|k: int| 0 <= k < pieces(s, sep).len() && (#[trigger] pieces(s, sep)[k]).contains(c),
    decreases s.len(),
{
    lemma_pieces_nonempty(s, sep);
    let i = choose|i: int| 0 <= i < s.len() && s[i] == c;
    let front = s.drop_last();
    let before = pieces(front, sep);
    let all = pieces(s, sep);
    lemma_pieces_nonempty(front, sep);
    if s.last() == c {
        let end = all[all.len() - 1];
        assert(end[end.len() - 1] == c);
        assert(all[all.len() - 1].contains(c));
    } else {
        assert(front[i] == c);
        lemma_piece_with(front, sep, c);
        let k = choose|k: int| 0 <= k < before.len() && (#[trigger] before[k]).contains(c);
        let j = choose|j: int| 0 <= j < before[k].len() && before[k][j] == c;
        assert(all[k][j] == c);
        assert(all[k].contains(c));
    }
}

proof fn lemma_trimmed_end_filled(s: Seq<char>, i: int)
    requires
        0 <= i < s.len(),
        !is_white(s[i]),
    ensures
        trimmed_end(s).len() > 0,
    decreases s.len(),
{
    if is_white(s.last()) {
        assert(s.drop_last()[i] == s[i]);
        lemma_trimmed_end_filled(s.drop_last(), i);
    }
}

/// Trimming leaves something of a text that holds more than white space.
pub proof fn lemma_trimmed_filled(s: Seq<char>, i: int)
    requires
        0 <= i < s.len(),
        !is_white(s[i]),
    ensures
        trimmed(s).len() > 0,
    decreases s.len(),
{
    if is_white(s[0]) {
        assert(s.drop_first()[i - 1] == s[i]);
        lemma_trimmed_filled(s.drop_first(), i - 1);
    } else {
        lemma_trimmed_end_filled(s, i);
    }
}

proof fn lemma_trimmed_start_blank(s: Seq<char>)
    requires
        forall|i: int| 0 <= i < s.len() ==> is_white(s[i]),
    ensures
        trimmed(s).len() == 0,
    decreases s.len(),
{
    if s.len() > 0 {
        assert forall|i: int| 0 <= i < s.drop_first().len() implies is_white(s.drop_first()[i]) by {
            assert(s.drop_first()[i] == s[i + 1]);
        }
        lemma_trimmed_start_blank(s.drop_first());
    }
}

/// A text of which trimming leaves something holds more than white space.
pub proof fn lemma_filled_trimmed(s: Seq<char>) -> (i: int)
    requires
        trimmed(s).len() > 0,
    ensures
        0 <= i < s.len(),
        !is_white(s[i]),
{
    if forall|i: int| 0 <= i < s.len() ==> is_white(s[i]) {
        lemma_trimmed_start_blank(s);
    }
    choose|i: int| 0 <= i < s.len() && !is_white(s[i])
}

/// The pieces of `s` between the separators `sep`.
pub fn split(s: &str, sep: char) -> (r: Vec<String>)
    ensures
        r.deep_view() == pieces(s@, sep),
        r@.len() > 0,
{
    let mut out: Vec<String> = Vec::new();
    let mut cur = String::new();
    assert(s@.take(0) == Seq::<char>::empty());
    assert(out.deep_view().push(cur@) == pieces(s@.take(0), sep));
    for c in it: s.chars()
        invariant
            it.seq() == s@,
            out.deep_view().push(cur@) == pieces(s@.take(it.index() as int), sep),
    {
        let ghost n = it.index() as int;
        let ghost before = out.deep_view();
        let ghost had = cur@;
        assert(s@.take(n + 1).drop_last() == s@.take(n));
        assert(s@.take(n + 1).last() == c);
        assert(before.push(had).drop_last() == before);
        if c == sep {
            out.push(cur);
            cur = String::new();
            assert(out.deep_view() == before.push(had));
        } else {
            cur.push(c);
        }
        assert(out.deep_view().push(cur@) == pieces(s@.take(n + 1), sep));
    }
    assert(s@.take(s@.len() as int) == s@);
    let ghost before = out.deep_view();
    let ghost had = cur@;
    out.push(cur);
    assert(out.deep_view() == before.push(had));
    out
}

/// The members of `parts` that hold something, in order.
pub fn keep_nonempty(parts: &Vec<String>) -> (r: Vec<String>)
    ensures
        r.deep_view() == nonempty(parts.deep_view()),
{
    let mut out: Vec<String> = Vec::new();
    assert(out.deep_view() == nonempty(parts.deep_view().take(0)));
    for i in 0..parts.len()
        invariant
            out.deep_view() == nonempty(parts.deep_view().take(i as int)),
    {
        let ghost all = parts.deep_view();
        let ghost before = out.deep_view();
        assert(all.take(i + 1).drop_last() == all.take(i as int));
        assert(all.take(i + 1).last() == parts@[i as int]@);
        if !parts[i].as_str().is_empty() {
            out.push(parts[i].clone());
            assert(out.deep_view() == before.push(parts@[i as int]@));
        }
    }
    assert(parts.deep_view().take(parts@.len() as int) == parts.deep_view());
    out
}

/// The lines of `s`.
pub fn lines(s: &str) -> (r: Vec<String>)
    ensures
        r.deep_view() == lines_of(s@),
{
    let parts = split(s, '\n');
    let n = parts.len();
    let mut out: Vec<String> = Vec::new();
    let ghost all = parts.deep_view();
    for i in 0..n - 1
        invariant
            n == parts@.len(),
            n > 0,
            all == parts.deep_view(),
            out.deep_view() == without_returns(all.take(i as int)),
    {
        let ghost before = out.deep_view();
        let cs = chars_of(parts[i].as_str());
        let line = if cs.len() > 0 && cs[cs.len() - 1] == '\r' {
            assert(cs@.drop_last() == cs@.subrange(0, cs@.len() - 1));
            string_between(&cs, 0, cs.len() - 1)
        } else {
            parts[i].clone()
        };
        out.push(line);
        assert(out.deep_view() == before.push(line@));
        assert(without_returns(all.take(i + 1)) == without_returns(all.take(i as int)).push(
            without_return(all[i as int]),
        ));
    }
    assert(all.take(n - 1) == all.drop_last());
    if !parts[n - 1].as_str().is_empty() {
        let ghost before = out.deep_view();
        out.push(parts[n - 1].clone());
        assert(out.deep_view() == before.push(all.last()));
    }
    out
}

/// The words of `s`.
pub fn words(s: &str) -> (r: Vec<String>)
    ensures
        r.deep_view() == words_of(s@),
{
    let mut flat = String::new();
    for c in it: s.chars()
        invariant
            it.seq() == s@,
            flat@ == blanked(s@).take(it.index() as int),
    {
        let ghost n = it.index() as int;
        flat.push(if white(c) { ' ' } else { c });
        assert(blanked(s@).take(n + 1) == blanked(s@).take(n).push(blanked(s@)[n]));
    }
    assert(blanked(s@).take(s@.len() as int) == blanked(s@));
    let parts = split(flat.as_str(), ' ');
    keep_nonempty(&parts)
}

/// `s` split at the last `c`, if it holds one.
pub fn split_last(s: &str, c: char) -> (r: Option<(String, String)>)
    ensures
        match r {
            Some((before, after)) => last_at(s@, c) matches Some(k) && 0 <= k < s@.len() && before@
                == s@.take(k) && after@ == s@.skip(k + 1),
            None => last_at(s@, c) is None,
        },
{
    let cs = chars_of(s);
    let n = cs.len();
    let mut i: usize = n;
    assert(s@.take(n as int) == s@);
    while i > 0
        invariant
            cs@ == s@,
            n == s@.len(),
            i <= n,
            last_at(s@, c) == last_at(s@.take(i as int), c),
        decreases i,
    {
        assert(s@.take(i as int).drop_last() == s@.take(i - 1));
        if cs[i - 1] == c {
            assert(s@.take(i - 1) == s@.subrange(0, i - 1));
            assert(s@.skip(i as int) == s@.subrange(i as int, n as int));
            return Some((string_between(&cs, 0, i - 1), string_between(&cs, i, n)));
        }
        i = i - 1;
    }
    None
}

// ---- putting together -------------------------------------------------------------

/// The members of `parts` one after the other, with `sep` between them.
pub fn join(parts: &Vec<String>, sep: &str) -> (r: String)
    ensures
        r@ == joined(parts.deep_view(), sep@),
{
    let mut out = String::new();
    let ghost all = parts.deep_view();
    assert(all.take(0) == Seq::<Seq<char>>::empty());
    for i in 0..parts.len()
        invariant
            all == parts.deep_view(),
            out@ == joined(all.take(i as int), sep@),
    {
        assert(all.take(i + 1).drop_last() == all.take(i as int));
        assert(all.take(i + 1).last() == parts@[i as int]@);
        if i > 0 {
            out.append(sep);
        }
        out.append(parts[i].as_str());
    }
    assert(all.take(parts@.len() as int) == all);
    out
}

/// `s` with each `from` made a `to`.
pub fn replace_char(s: &str, from: char, to: char) -> (r: String)
    ensures
        r@ == replaced(s@, from, to),
{
    let mut out = String::new();
    for c in it: s.chars()
        invariant
            it.seq() == s@,
            out@ == replaced(s@, from, to).take(it.index() as int),
    {
        let ghost n = it.index() as int;
        out.push(if c == from { to } else { c });
        assert(replaced(s@, from, to).take(n + 1) == replaced(s@, from, to).take(n).push(
            replaced(s@, from, to)[n],
        ));
    }
    assert(replaced(s@, from, to).take(s@.len() as int) == replaced(s@, from, to));
    out
}

/// `n` times the text `unit`.
pub open spec fn repeated(unit: Seq<char>, n: nat) -> Seq<char>
    decreases n,
{
    if n == 0 {
        Seq::empty()
    } else {
        repeated(unit, (n - 1) as nat) + unit
    }
}

/// `n` times the text `unit`.
pub fn repeat(unit: &str, n: usize) -> (r: String)
    ensures
        r@ == repeated(unit@, n as nat),
{
    let mut out = String::new();
    for i in 0..n
        invariant
            out@ == repeated(unit@, i as nat),
    {
        out.append(unit);
    }
    out
}

/// `n` blanks.
pub fn space_run(n: usize) -> (r: String)
    ensures
        r@ == blanks(n as nat),
{
    let mut out = String::new();
    for i in 0..n
        invariant
            out@ == blanks(i as nat),
    {
        out.push(' ');
        assert(blanks((i + 1) as nat) == blanks(i as nat).push(' '));
    }
    out
}

/// `s` filled up with blanks on the right to `width` characters.
pub fn fill(s: &str, width: usize) -> (r: String)
    ensures
        r@ == filled(s@, width as nat),
{
    let n = s.unicode_len();
    if n < width {
        let gap = space_run(width - n);
        cat(s, gap.as_str())
    } else {
        s.to_owned()
    }
}

/// The first `n` characters of `s`, or all of them.
pub fn clip(s: &str, n: usize) -> (r: String)
    ensures
        r@ == clipped(s@, n as nat),
{
    let cs = chars_of(s);
    if cs.len() > n {
        assert(s@.take(n as int) == s@.subrange(0, n as int));
        string_between(&cs, 0, n)
    } else {
        s.to_owned()
    }
}

fn digit_char(d: u64) -> (r: char)
    requires
        d < 10,
    ensures
        r == digit(d as nat),
{
    (48u8 + d as u8) as char
}

/// `n` written in decimal.
pub fn decimal(n: u64) -> (r: String)
    ensures
        r@ == decimal_of(n as nat),
    decreases n,
{
    if n < 10 {
        let mut out = String::new();
        out.push(digit_char(n));
        assert(out@ == seq![digit(n as nat)]);
        out
    } else {
        let mut out = decimal(n / 10);
        out.push(digit_char(n % 10));
        out
    }
}

/// Whether `a` comes strictly before `b` in dictionary order by code points.
pub fn comes_before(a: &str, b: &str) -> (r: bool)
    ensures
        r == text_before(a@, b@),
{
    let x = chars_of(a);
    let y = chars_of(b);
    let mut i: usize = 0;
    assert(x@.skip(0) == x@);
    assert(y@.skip(0) == y@);
    while i < x.len() && i < y.len()
        invariant
            x@ == a@,
            y@ == b@,
            i <= x@.len(),
            i <= y@.len(),
            text_before(a@, b@) == text_before(x@.skip(i as int), y@.skip(i as int)),
        decreases x@.len() - i,
    {
        if x[i] != y[i] {
            return x[i] < y[i];
        }
        assert(x@.skip(i as int).drop_first() == x@.skip(i + 1));
        assert(y@.skip(i as int).drop_first() == y@.skip(i + 1));
        i = i + 1;
    }
    i < y.len()
}

} // verus!
