//! What holds of dates, ages, names of spaces, handoffs and what is read from JSON.

use crate::cli_laws::law_first_place_in_a_list;
use crate::data::{
    age_text, civil_day, digits_value, field, iso_epoch, month_days, path_parts, space_name,
};
use crate::handoff::{first_broken, handoff_in, handoff_text};
use crate::json::{escaped, field_from, member_of, quoted, text_at, JsonView};
use crate::names::{names_of, standard_names, AgentNamesView};
use crate::parse_laws::lemma_joined_add;
use crate::text::{decimal_of, joined, nonempty, pieces};
use crate::text_laws::{
    all_without, ended, law_joining_undoes_splitting, law_nonempty_is_exact,
    law_splitting_undoes_joining, lemma_ended,
};
use vstd::prelude::*;

verus! {

// ---- spaces by their path -------------------------------------------------------------------

/// The parts of an absolute path are the names that it is made of.
proof fn lemma_path_parts(parts: Seq<Seq<char>>)
    requires
        all_without(parts, '/'),
        forall|i: int| 0 <= i < parts.len() ==> (#[trigger] parts[i]).len() > 0,
    ensures
        path_parts(seq!['/'] + joined(parts, seq!['/'])) == parts,
{
    let none = Seq::<char>::empty();
    let sep = seq!['/'];
    if parts.len() == 0 {
        let two = seq![none, none];
        assert(two.drop_last() == seq![none]);
        assert(joined(seq![none], sep) == none);
        assert(joined(two, sep) == none + sep + none);
        assert(none + sep + none == sep + joined(parts, sep));
        law_splitting_undoes_joining(two, '/');
        assert(nonempty(seq![none]) == Seq::<Seq<char>>::empty()) by {
            assert(seq![none].drop_last() == Seq::<Seq<char>>::empty());
            assert(nonempty(Seq::<Seq<char>>::empty()) == Seq::<Seq<char>>::empty());
        }
        assert(nonempty(two) == parts);
    } else {
        let all = seq![none] + parts;
        lemma_joined_add(seq![none], parts, sep);
        assert(joined(seq![none], sep) == none);
        assert(none + sep + joined(parts, sep) == sep + joined(parts, sep));
        assert forall|i: int| 0 <= i < all.len() implies !(#[trigger] all[i]).contains('/') by {
            if i > 0 {
                assert(!parts[i - 1].contains('/'));
            }
        }
        law_splitting_undoes_joining(all, '/');
        lemma_nonempty_behind(parts);
    }
}

proof fn lemma_nonempty_behind(parts: Seq<Seq<char>>)
    requires
        forall|i: int| 0 <= i < parts.len() ==> (#[trigger] parts[i]).len() > 0,
    ensures
        nonempty(seq![Seq::<char>::empty()] + parts) == parts,
    decreases parts.len(),
{
    let none = Seq::<char>::empty();
    let all = seq![none] + parts;
    if parts.len() == 0 {
        assert(all == seq![none]);
        assert(all.drop_last() == Seq::<Seq<char>>::empty());
        assert(nonempty(Seq::<Seq<char>>::empty()) == parts);
    } else {
        let front = parts.drop_last();
        assert forall|i: int| 0 <= i < front.len() implies (#[trigger] front[i]).len() > 0 by {
            assert(front[i] == parts[i]);
        }
        lemma_nonempty_behind(front);
        assert(all.drop_last() == seq![none] + front);
        assert(all.last() == parts[parts.len() - 1]);
        assert(parts == front.push(parts.last()));
    }
}

/// A directory belongs to the space that stands below the first `Desktop` on its path; without
/// one, or with nothing below it, it goes by its own name, and the top by the tilde.
pub proof fn law_space_of_a_directory(parts: Seq<Seq<char>>, k: int)
    requires
        all_without(parts, '/'),
        forall|i: int| 0 <= i < parts.len() ==> (#[trigger] parts[i]).len() > 0,
    ensures
        ({
            let cwd = seq!['/'] + joined(parts, seq!['/']);
            let first = 0 <= k < parts.len() && parts[k] == "Desktop"@ && forall|j: int|
                0 <= j < k ==> #[trigger] parts[j] != "Desktop"@;
            &&& first && k + 1 < parts.len() ==> space_name(cwd) == parts[k + 1]
            &&& first && k + 1 == parts.len() ==> space_name(cwd) == "Desktop"@
            &&& parts.len() > 0 && (forall|j: int|
                0 <= j < parts.len() ==> #[trigger] parts[j] != "Desktop"@) ==> space_name(cwd)
                == parts[parts.len() - 1]
            &&& parts.len() == 0 ==> space_name(cwd) == seq!['~']
        }),
{
    lemma_path_parts(parts);
    law_first_place_in_a_list(parts, "Desktop"@, k);
    reveal_strlit("~");
    assert("~"@ == seq!['~']);
}

/// Whatever slashes stand on a path, the names between them decide to which space it belongs.
pub proof fn law_space_of_any_directory(cwd: Seq<char>, k: int)
    ensures
        ({
            let names = pieces(cwd, '/').filter(|p: Seq<char>| p.len() > 0);
            &&& 0 <= k && k + 1 < names.len() && names[k] == "Desktop"@ && (forall|j: int|
                0 <= j < k ==> #[trigger] names[j] != "Desktop"@) ==> space_name(cwd) == names[k
                + 1]
            &&& names.len() > 0 && (forall|j: int|
                0 <= j < names.len() ==> #[trigger] names[j] != "Desktop"@) ==> space_name(cwd)
                == names[names.len() - 1]
            &&& names.len() == 0 ==> space_name(cwd) == seq!['~']
        }),
{
    law_nonempty_is_exact(pieces(cwd, '/'));
    law_first_place_in_a_list(path_parts(cwd), "Desktop"@, k);
    reveal_strlit("~");
    assert("~"@ == seq!['~']);
}

// ---- the calendar ---------------------------------------------------------------------------

/// How long the months are: February has 29 days in the years that four divides, but for those
/// that a hundred divides and four hundred does not.
pub proof fn law_months_have_their_days(y: int)
    ensures
        month_days(y, 1) == 31 && month_days(y, 3) == 31 && month_days(y, 5) == 31 && month_days(
            y,
            7,
        ) == 31 && month_days(y, 8) == 31 && month_days(y, 10) == 31 && month_days(y, 12) == 31,
        month_days(y, 4) == 30 && month_days(y, 6) == 30 && month_days(y, 9) == 30 && month_days(
            y,
            11,
        ) == 30,
        y % 400 == 0 ==> month_days(y, 2) == 29,
        y % 100 == 0 && y % 400 != 0 ==> month_days(y, 2) == 28,
        y % 4 == 0 && y % 100 != 0 ==> month_days(y, 2) == 29,
        y % 4 != 0 ==> month_days(y, 2) == 28,
{
}

/// The byte of a digit.
pub open spec fn digit_byte(n: int) -> u8 {
    (48 + n) as u8
}

/// A timestamp: its date, `mark`, its time, and `rest` behind it.
pub open spec fn stamp(
    y: int,
    mo: int,
    d: int,
    mark: u8,
    h: int,
    mi: int,
    s: int,
    rest: Seq<u8>,
) -> Seq<u8> {
    seq![
        digit_byte(y / 1000),
        digit_byte(y / 100 % 10),
        digit_byte(y / 10 % 10),
        digit_byte(y % 10),
        45u8,
        digit_byte(mo / 10),
        digit_byte(mo % 10),
        45u8,
        digit_byte(d / 10),
        digit_byte(d % 10),
        mark,
        digit_byte(h / 10),
        digit_byte(h % 10),
        58u8,
        digit_byte(mi / 10),
        digit_byte(mi % 10),
        58u8,
        digit_byte(s / 10),
        digit_byte(s % 10),
    ] + rest
}

proof fn lemma_two(b: Seq<u8>, at: int, n: int)
    requires
        0 <= n < 100,
        0 <= at,
        at + 2 <= b.len(),
        b[at] == digit_byte(n / 10),
        b[at + 1] == digit_byte(n % 10),
    ensures
        field(b, at, at + 2) == Some(n),
{
    let f = b.subrange(at, at + 2);
    let one = f.drop_last();
    assert(one.drop_last() == Seq::<u8>::empty());
    assert(digits_value(Seq::<u8>::empty()) == Some(0int));
    assert(one.last() == b[at]);
    assert(digits_value(one) == Some(n / 10));
    assert(f.last() == b[at + 1]);
}

proof fn lemma_four(b: Seq<u8>, n: int)
    requires
        0 <= n < 10_000,
        4 <= b.len(),
        b[0] == digit_byte(n / 1000),
        b[1] == digit_byte(n / 100 % 10),
        b[2] == digit_byte(n / 10 % 10),
        b[3] == digit_byte(n % 10),
    ensures
        field(b, 0, 4) == Some(n),
{
    let f = b.subrange(0, 4);
    let three = b.subrange(0, 3);
    lemma_two(b, 0, n / 100);
    assert(f.drop_last() == three);
    assert(three.drop_last() == b.subrange(0, 2));
    assert(three.last() == b[2]);
    assert(digits_value(three) == Some(n / 100 * 10 + n / 10 % 10));
    assert(f.last() == b[3]);
}

/// A timestamp is read field by field: its day and within the day its hours, minutes and
/// seconds, in seconds since 1970 began. What is no date, or no time of the day, is not read; the
/// sixtieth second is one only at the end of a day. Nothing behind the seconds counts.
pub proof fn law_timestamps_are_read(
    y: int,
    mo: int,
    d: int,
    mark: u8,
    h: int,
    mi: int,
    s: int,
    rest: Seq<u8>,
)
    requires
        0 <= y < 10_000,
        0 <= mo < 100,
        0 <= d < 100,
        0 <= h < 100,
        0 <= mi < 100,
        0 <= s < 100,
    ensures
        ({
            let read = iso_epoch(stamp(y, mo, d, mark, h, mi, s, rest));
            let dated = 1 <= mo <= 12 && 1 <= d <= month_days(y, mo);
            let timed = h < 24 && mi < 60 && (s < 60 || h == 23 && mi == 59 && s == 60);
            &&& (mark == 84 || mark == 32) && dated && timed ==> read == Some(
                civil_day(y, mo, d) * 86_400 + h * 3_600 + mi * 60 + s,
            )
            &&& !dated || !timed || (mark != 84 && mark != 32) ==> read is None
        }),
{
    let b = stamp(y, mo, d, mark, h, mi, s, rest);
    lemma_four(b, y);
    lemma_two(b, 5, mo);
    lemma_two(b, 8, d);
    lemma_two(b, 11, h);
    lemma_two(b, 14, mi);
    lemma_two(b, 17, s);
}

/// What has no timestamp's shape is not read: too short, or with another mark between its fields.
pub proof fn law_other_shapes_are_not_read(b: Seq<u8>)
    ensures
        b.len() < 19 ==> iso_epoch(b) is None,
        b.len() >= 19 && (b[4] != 45 || b[7] != 45 || (b[10] != 84 && b[10] != 32) || b[13] != 58
            || b[16] != 58) ==> iso_epoch(b) is None,
{
}

proof fn lemma_no_digit(b: Seq<u8>, i: int)
    requires
        0 <= i < b.len(),
        !(48 <= b[i] <= 57),
    ensures
        digits_value(b) is None,
    decreases b.len(),
{
    if i < b.len() - 1 {
        assert(b.drop_last()[i] == b[i]);
        lemma_no_digit(b.drop_last(), i);
    }
}

/// A timestamp with anything but a digit where a digit belongs is not read.
pub proof fn law_fields_are_digits(b: Seq<u8>, i: int)
    requires
        0 <= i < 19 <= b.len(),
        i != 4 && i != 7 && i != 10 && i != 13 && i != 16,
        !(48 <= b[i] <= 57),
    ensures
        iso_epoch(b) is None,
{
    if i < 4 {
        assert(b.subrange(0, 4)[i] == b[i]);
        lemma_no_digit(b.subrange(0, 4), i);
    } else {
        let at = i - (i + 1) % 3;
        assert(b.subrange(at, at + 2)[i - at] == b[i]);
        lemma_no_digit(b.subrange(at, at + 2), i - at);
    }
}

/// An age is told in its largest whole unit: minutes, hours, days, months of thirty days; below a
/// minute, and from a moment still to come, it is just now; without a time it is not known.
pub proof fn law_ages_are_told(since: int, now: int, n: nat)
    requires
        since > 0,
    ensures
        now - since < 60 ==> age_text(since, now) == "just now"@,
        0 < n < 60 && n * 60 <= now - since < (n + 1) * 60 ==> age_text(since, now) == decimal_of(n)
            + "m ago"@,
        0 < n < 24 && n * 3_600 <= now - since < (n + 1) * 3_600 ==> age_text(since, now)
            == decimal_of(n) + "h ago"@,
        0 < n < 30 && n * 86_400 <= now - since < (n + 1) * 86_400 ==> age_text(since, now)
            == decimal_of(n) + "d ago"@,
        0 < n && n * 2_592_000 <= now - since < (n + 1) * 2_592_000 ==> age_text(since, now)
            == decimal_of(n) + "mo ago"@,
        forall|early: int| early <= 0 ==> #[trigger] age_text(early, now) == seq!['?'],
{
    reveal_strlit("?");
    assert("?"@ == seq!['?']);
}

// ---- handoffs -------------------------------------------------------------------------------

/// A handoff is its elements, each with a line feed behind it: first the directory, next the
/// arguments.
pub proof fn law_handoff_is_line_by_line(cwd: Seq<char>, argv: Seq<Seq<char>>)
    ensures
        handoff_text(seq![cwd] + argv) == ended(seq![cwd] + argv, seq!['\n']),
        handoff_text(seq![cwd] + argv) == cwd + seq!['\n'] + ended(argv, seq!['\n']),
{
    reveal_strlit("\n");
    assert("\n"@ == seq!['\n']);
    lemma_ended(seq![cwd] + argv, seq!['\n']);
    lemma_ended_front(cwd, argv, seq!['\n']);
}

proof fn lemma_ended_front(first: Seq<char>, rest: Seq<Seq<char>>, end: Seq<char>)
    ensures
        ended(seq![first] + rest, end) == first + end + ended(rest, end),
    decreases rest.len(),
{
    let all = seq![first] + rest;
    if rest.len() == 0 {
        assert(all == seq![first]);
        assert(all.drop_last() == Seq::<Seq<char>>::empty());
        assert(ended(Seq::<Seq<char>>::empty(), end) == Seq::<char>::empty());
        assert(Seq::<char>::empty() + first + end == first + end + ended(rest, end));
    } else {
        assert(all.drop_last() == seq![first] + rest.drop_last());
        assert(all.last() == rest.last());
        lemma_ended_front(first, rest.drop_last(), end);
        assert(first + end + ended(rest.drop_last(), end) + rest.last() + end == first + end + (ended(
            rest.drop_last(),
            end,
        ) + rest.last() + end));
    }
}

/// A handoff may end without its last line feed.
pub proof fn law_last_line_feed_is_optional(cwd: Seq<char>, argv: Seq<Seq<char>>)
    requires
        cwd.len() > 0,
        all_without(seq![cwd] + argv, '\n'),
        argv.len() > 0 ==> argv.last().len() > 0,
    ensures
        handoff_in(joined(seq![cwd] + argv, seq!['\n'])) == Some((cwd, argv)),
{
    let parts = seq![cwd] + argv;
    law_splitting_undoes_joining(parts, '\n');
    assert(argv.len() > 0 ==> parts.last() == argv.last());
    assert(argv.len() == 0 ==> parts.last() == cwd);
    assert(parts.skip(1) == argv);
}

/// A handoff whose first line is empty, or that has none, is none.
pub proof fn law_handoff_needs_a_directory(rest: Seq<char>)
    ensures
        handoff_in(Seq::empty()) is None,
        handoff_in(seq!['\n'] + rest) is None,
{
    let none = Seq::<char>::empty();
    assert(pieces(none, '\n') == seq![none]);
    let s = seq!['\n'] + rest;
    let more = pieces(rest, '\n');
    law_joining_undoes_splitting(rest, '\n');
    let all = seq![none] + more;
    lemma_joined_add(seq![none], more, seq!['\n']);
    assert(none + seq!['\n'] + rest == s);
    assert forall|i: int| 0 <= i < all.len() implies !(#[trigger] all[i]).contains('\n') by {
        if i > 0 {
            assert(!more[i - 1].contains('\n'));
        }
    }
    law_splitting_undoes_joining(all, '\n');
    assert(pieces(s, '\n') == all);
    assert(all[0].len() == 0);
}

proof fn lemma_first_broken(parts: Seq<Seq<char>>, i: int, k: int)
    requires
        0 <= i,
    ensures
        i <= k < parts.len() && parts[k].contains('\n') && (forall|j: int|
            i <= j < k ==> !(#[trigger] parts[j]).contains('\n')) ==> first_broken(parts, i)
            == Some(parts[k]),
        (forall|j: int| i <= j < parts.len() ==> !(#[trigger] parts[j]).contains('\n'))
            ==> first_broken(parts, i) is None,
    decreases parts.len() - i,
{
    if i < parts.len() {
        lemma_first_broken(parts, i + 1, k);
    }
}

/// The element that keeps a handoff from being written is the first one that holds a line feed.
pub proof fn law_first_line_feed_counts(parts: Seq<Seq<char>>, k: int)
    ensures
        0 <= k < parts.len() && parts[k].contains('\n') && (forall|j: int|
            0 <= j < k ==> !(#[trigger] parts[j]).contains('\n')) ==> first_broken(parts, 0)
            == Some(parts[k]),
        (forall|j: int| 0 <= j < parts.len() ==> !(#[trigger] parts[j]).contains('\n'))
            ==> first_broken(parts, 0) is None,
{
    lemma_first_broken(parts, 0, k);
}

// ---- JSON -----------------------------------------------------------------------------------

proof fn lemma_field_from(fields: Seq<(Seq<char>, JsonView)>, key: Seq<char>, i: int, k: int)
    requires
        0 <= i,
    ensures
        i <= k < fields.len() && fields[k].0 == key && (forall|j: int|
            i <= j < k ==> (#[trigger] fields[j]).0 != key) ==> field_from(fields, key, i) == Some(
            fields[k].1,
        ),
        (forall|j: int| i <= j < fields.len() ==> (#[trigger] fields[j]).0 != key) ==> field_from(
            fields,
            key,
            i,
        ) is None,
    decreases fields.len() - i,
{
    if i < fields.len() {
        lemma_field_from(fields, key, i + 1, k);
    }
}

/// What an object holds under a key is the value of the first field of that key; what is no
/// object holds nothing, and what is no text is not read as one.
pub proof fn law_fields_are_found(fields: Seq<(Seq<char>, JsonView)>, key: Seq<char>, k: int)
    ensures
        ({
            let j = JsonView::Object(fields);
            let first = 0 <= k < fields.len() && fields[k].0 == key && forall|i: int|
                0 <= i < k ==> (#[trigger] fields[i]).0 != key;
            &&& first ==> member_of(j, key) == Some(fields[k].1)
            &&& first ==> (fields[k].1 matches JsonView::Text(s) ==> text_at(j, key) == Some(s))
            &&& first && !(fields[k].1 is Text) ==> text_at(j, key) is None
            &&& (forall|i: int| 0 <= i < fields.len() ==> (#[trigger] fields[i]).0 != key)
                ==> member_of(j, key) is None && text_at(j, key) is None
        }),
        forall|j: JsonView| !(j is Object) ==> #[trigger] member_of(j, key) is None,
{
    lemma_field_from(fields, key, 0, k);
}

/// The names of the agent are read from the four texts of the settings, all of which it takes.
pub proof fn law_names_are_read(j: JsonView)
    ensures
        names_of(j) matches Some(n) ==> text_at(j, "label"@) == Some(n.label) && text_at(
            j,
            "program"@,
        ) == Some(n.program) && text_at(j, "home"@) == Some(n.home) && text_at(j, "policy"@)
            == Some(n.policy),
        names_of(j) is None <==> text_at(j, "label"@) is None || text_at(j, "program"@) is None
            || text_at(j, "home"@) is None || text_at(j, "policy"@) is None,
        standard_names() == (AgentNamesView {
            label: "Agent"@,
            program: "agent"@,
            home: ".agent"@,
            policy: "AGENT.md"@,
        }),
{
}

/// A text is quoted character by character: a quote and a backslash behind a backslash, the
/// controls by their letters or by their numbers, and every other character as it is.
pub proof fn law_quoting(a: Seq<char>, c: char)
    ensures
        quoted(a) == seq!['"'] + escaped(a) + seq!['"'],
        escaped(Seq::empty()) == Seq::<char>::empty(),
        c == '"' ==> escaped(a.push(c)) == escaped(a) + seq!['\\', '"'],
        c == '\\' ==> escaped(a.push(c)) == escaped(a) + seq!['\\', '\\'],
        c == '\n' ==> escaped(a.push(c)) == escaped(a) + seq!['\\', 'n'],
        c == '\r' ==> escaped(a.push(c)) == escaped(a) + seq!['\\', 'r'],
        c == '\t' ==> escaped(a.push(c)) == escaped(a) + seq!['\\', 't'],
        c == '\u{8}' ==> escaped(a.push(c)) == escaped(a) + seq!['\\', 'b'],
        c == '\u{c}' ==> escaped(a.push(c)) == escaped(a) + seq!['\\', 'f'],
        (c as u32) < 32 && c != '\n' && c != '\r' && c != '\t' && c != '\u{8}' && c != '\u{c}'
            ==> escaped(a.push(c)) == escaped(a) + seq![
            '\\',
            'u',
            '0',
            '0',
            if (c as u32) < 16 {
                '0'
            } else {
                '1'
            },
            seq![
                '0', '1', '2', '3', '4', '5', '6', '7', '8', '9', 'a', 'b', 'c', 'd', 'e', 'f',
            ][c as int % 16],
        ],
        c as u32 >= 32 && c != '"' && c != '\\' ==> escaped(a.push(c)) == escaped(a) + seq![c],
{
    assert(a.push(c).drop_last() == a);
}

} // verus!
