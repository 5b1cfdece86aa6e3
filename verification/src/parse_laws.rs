//! What holds of the sessions that transcripts make up.

use crate::data::{iso_epoch, space_name, Backend, MessageView};
use crate::json::{json_in_text, member_of, text_at, JsonView};
use crate::parse::{
    byte_lines, claude_cwd, claude_name, claude_session, claude_turn, claude_turns, codex_cwd,
    codex_cwd_in, codex_id, codex_name, codex_name_in, codex_session, codex_session_id, codex_turn,
    codex_turns, content_text, first_filled, first_user, latest, message_blob, part_text,
    parts_text, payload_of, prose, record_in, records_in, records_on, session_of, short_id,
    stamp_of, tag_in, text_under, title_of,
};
use crate::path::{base_name_of, file_stem_of, parent_of};
use crate::text::{
    find_from, has_prefix, has_text, joined, lemma_find_from, lowercase, occurs_at, pieces, trimmed,
};
use vstd::prelude::*;
use vstd::utf8::{decode_utf8, encode_utf8, valid_utf8};

verus! {

// ---- records -----------------------------------------------------------------------------

proof fn lemma_byte_lines(a: Seq<u8>, b: Seq<u8>)
    ensures
        byte_lines(a).len() > 0,
        byte_lines(a + seq![10u8] + b) == byte_lines(a) + byte_lines(b),
    decreases b.len(),
{
    lemma_byte_lines_nonempty(a);
    lemma_byte_lines_nonempty(b);
    let whole = a + seq![10u8] + b;
    let none = Seq::<u8>::empty();
    if b.len() == 0 {
        assert(whole.drop_last() == a);
        assert(byte_lines(whole) == byte_lines(a).push(none));
        assert(byte_lines(b) == seq![none]);
        assert(byte_lines(a) + seq![none] == byte_lines(a).push(none));
    } else {
        let front = b.drop_last();
        lemma_byte_lines(a, front);
        assert(whole.drop_last() == a + seq![10u8] + front);
        assert(whole.last() == b.last());
        let x = byte_lines(a);
        let y = byte_lines(front);
        lemma_byte_lines_nonempty(front);
        if b.last() == 10 {
            assert((x + y).push(none) == x + y.push(none));
        } else {
            let grown = y.last().push(b.last());
            assert((x + y).last() == y.last());
            assert((x + y).drop_last().push(grown) == x + y.drop_last().push(grown));
        }
    }
}

proof fn lemma_byte_lines_nonempty(a: Seq<u8>)
    ensures
        byte_lines(a).len() > 0,
    decreases a.len(),
{
    if a.len() > 0 {
        lemma_byte_lines_nonempty(a.drop_last());
    }
}

proof fn lemma_one_line(a: Seq<u8>)
    requires
        !a.contains(10u8),
    ensures
        byte_lines(a) == seq![a],
    decreases a.len(),
{
    if a.len() > 0 {
        let front = a.drop_last();
        assert forall|i: int| 0 <= i < front.len() implies front[i] != 10u8 by {
            assert(a[i] == front[i]);
            assert(a.contains(a[i]));
        }
        lemma_one_line(front);
        assert(a.contains(a[a.len() - 1]));
        assert(front.push(a.last()) == a);
        assert(seq![front].drop_last().push(a) == seq![a]);
    } else {
        assert(a == Seq::<u8>::empty());
    }
}

proof fn lemma_records_add(a: Seq<Seq<u8>>, b: Seq<Seq<u8>>)
    ensures
        records_on(a + b) == records_on(a) + records_on(b),
    decreases b.len(),
{
    if b.len() == 0 {
        assert(a + b == a);
        assert(records_on(a) + records_on(b) == records_on(a));
    } else {
        lemma_records_add(a, b.drop_last());
        assert((a + b).drop_last() == a + b.drop_last());
        assert((a + b).last() == b.last());
        match record_in(b.last()) {
            Some(j) => {
                assert((records_on(a) + records_on(b.drop_last())).push(j) == records_on(a) + (
                records_on(b.drop_last()).push(j)));
            },
            None => {},
        }
    }
}

/// A transcript is read line by line: what stands on a line is its record, whatever stands on
/// the others; a line that is blank, no text or no JSON is passed over.
pub proof fn law_records_stand_on_lines(before: Seq<u8>, line: Seq<u8>, after: Seq<u8>)
    requires
        !line.contains(10u8),
    ensures
        ({
            let text = trimmed(decode_utf8(line));
            let own = if valid_utf8(line) && text.len() > 0 {
                match json_in_text(text) {
                    Some(j) => seq![j],
                    None => Seq::empty(),
                }
            } else {
                Seq::empty()
            };
            &&& records_in(before + seq![10u8] + line + seq![10u8] + after) == records_in(before)
                + own + records_in(after)
            &&& records_in(line) == own
        }),
{
    let head = before + seq![10u8] + line;
    lemma_byte_lines(before, line);
    lemma_byte_lines(head, after);
    lemma_one_line(line);
    assert(head + seq![10u8] + after == before + seq![10u8] + line + seq![10u8] + after);
    lemma_records_add(byte_lines(before), seq![line]);
    lemma_records_add(byte_lines(head), byte_lines(after));
    let one = seq![line];
    assert(one.drop_last() == Seq::<Seq<u8>>::empty());
    assert(records_on(one.drop_last()) == Seq::<JsonView>::empty());
    assert(one.last() == line);
    assert(records_on(one) == match record_in(line) {
        Some(j) => seq![j],
        None => Seq::<JsonView>::empty(),
    });
}

// ---- titles --------------------------------------------------------------------------------

/// A title is the first line that holds something, without the white space around it: all of
/// it, or its first eighty characters and an ellipsis.
pub proof fn law_title_is_first_filled_line(s: Seq<char>, k: int)
    requires
        0 <= k < pieces(s, '\n').len(),
        trimmed(pieces(s, '\n')[k]).len() > 0,
        forall|i: int| 0 <= i < k ==> trimmed(#[trigger] pieces(s, '\n')[i]).len() == 0,
    ensures
        ({
            let line = trimmed(pieces(s, '\n')[k]);
            &&& line.len() <= 80 ==> title_of(s) == line
            &&& line.len() > 80 ==> title_of(s) == line.take(80) + seq!['…']
        }),
{
    reveal_strlit("…");
    assert("…"@ == seq!['…']);
    lemma_first_filled_at(pieces(s, '\n'), k);
}

proof fn lemma_first_filled_at(parts: Seq<Seq<char>>, k: int)
    requires
        0 <= k < parts.len(),
        trimmed(parts[k]).len() > 0,
        forall|i: int| 0 <= i < k ==> trimmed(#[trigger] parts[i]).len() == 0,
    ensures
        first_filled(parts) == parts[k],
    decreases k,
{
    if k > 0 {
        assert(trimmed(parts[0]).len() == 0);
        let rest = parts.drop_first();
        assert forall|i: int| 0 <= i < k - 1 implies trimmed(#[trigger] rest[i]).len() == 0 by {
            assert(rest[i] == parts[i + 1]);
        }
        lemma_first_filled_at(rest, k - 1);
    }
}

/// The first turn of the user among the messages is the one with the least position.
proof fn lemma_first_user_at(messages: Seq<MessageView>, k: int)
    requires
        0 <= k < messages.len(),
        messages[k].role == "user"@,
        forall|i: int| 0 <= i < k ==> (#[trigger] messages[i]).role != "user"@,
    ensures
        first_user(messages) == Some(messages[k].text),
    decreases k,
{
    if k > 0 {
        assert(messages[0].role != "user"@);
        let rest = messages.drop_first();
        assert forall|i: int| 0 <= i < k - 1 implies (#[trigger] rest[i]).role != "user"@ by {
            assert(rest[i] == messages[i + 1]);
        }
        lemma_first_user_at(rest, k - 1);
    }
}

proof fn lemma_no_user(messages: Seq<MessageView>)
    requires
        forall|i: int| 0 <= i < messages.len() ==> (#[trigger] messages[i]).role != "user"@,
    ensures
        first_user(messages) is None,
    decreases messages.len(),
{
    if messages.len() > 0 {
        assert(messages[0].role != "user"@);
        let rest = messages.drop_first();
        assert forall|i: int| 0 <= i < rest.len() implies (#[trigger] rest[i]).role != "user"@ by {
            assert(rest[i] == messages[i + 1]);
        }
        lemma_no_user(rest);
    }
}

/// Whether a record of the first agent names the session.
pub open spec fn names_session(j: JsonView) -> bool {
    text_at(j, "type"@) == Some("ai-title"@) && text_at(j, "aiTitle"@) is Some
}

proof fn lemma_claude_name(records: Seq<JsonView>, k: int)
    requires
        0 <= k < records.len(),
        names_session(records[k]),
        forall|i: int| k < i < records.len() ==> !names_session(#[trigger] records[i]),
    ensures
        Some(claude_name(records)) == text_at(records[k], "aiTitle"@),
    decreases records.len(),
{
    reveal_strlit("ai-title");
    assert("ai-title"@.len() == 8);
    if k < records.len() - 1 {
        assert(!names_session(records[records.len() - 1]));
        let front = records.drop_last();
        assert(front[k] == records[k]);
        assert forall|i: int| k < i < front.len() implies !names_session(#[trigger] front[i]) by {
            assert(front[i] == records[i]);
        }
        lemma_claude_name(front, k);
    }
}

proof fn lemma_claude_unnamed(records: Seq<JsonView>)
    requires
        forall|i: int| 0 <= i < records.len() ==> !names_session(#[trigger] records[i]),
    ensures
        claude_name(records).len() == 0,
    decreases records.len(),
{
    reveal_strlit("ai-title");
    assert("ai-title"@.len() == 8);
    if records.len() > 0 {
        assert(!names_session(records[records.len() - 1]));
        let front = records.drop_last();
        assert forall|i: int| 0 <= i < front.len() implies !names_session(#[trigger] front[i]) by {
            assert(front[i] == records[i]);
        }
        lemma_claude_unnamed(front);
    }
}

/// A session of the first agent is called by the last title that the agent gave it, where that
/// holds something; failing that by the first message of the user, the one before all others;
/// failing that by the beginning of its id.
pub proof fn law_claude_title(
    path: Seq<char>,
    id: Seq<char>,
    records: Seq<JsonView>,
    mtime: i64,
    n: int,
    k: int,
)
    ensures
        ({
            let s = claude_session(path, id, records, mtime);
            let unnamed = forall|i: int|
                0 <= i < records.len() ==> !names_session(#[trigger] records[i]);
            let spoke = 0 <= k < s.messages.len() && s.messages[k].role == "user"@ && (forall|i: int|
                0 <= i < k ==> (#[trigger] s.messages[i]).role != "user"@);
            let silent = forall|i: int|
                0 <= i < s.messages.len() ==> (#[trigger] s.messages[i]).role != "user"@;
            let last = 0 <= n < records.len() && names_session(records[n]) && (forall|i: int|
                n < i < records.len() ==> !names_session(#[trigger] records[i]));
            let name = text_at(records[n], "aiTitle"@)->0;
            &&& last && name.len() > 0 ==> s.title == title_of(name)
            &&& (unnamed || (last && name.len() == 0)) && spoke ==> s.title == title_of(
                s.messages[k].text,
            )
            &&& (unnamed || (last && name.len() == 0)) && silent ==> s.title == "(session "@
                + short_id(id) + ")"@
        }),
{
    let s = claude_session(path, id, records, mtime);
    let turns = claude_turns(records);
    assert(s.messages == turns);
    if forall|i: int| 0 <= i < records.len() ==> !names_session(#[trigger] records[i]) {
        lemma_claude_unnamed(records);
    }
    if 0 <= n < records.len() && names_session(records[n]) && (forall|i: int|
        n < i < records.len() ==> !names_session(#[trigger] records[i])) {
        lemma_claude_name(records, n);
    }
    if 0 <= k < turns.len() && turns[k].role == "user"@ && (forall|i: int|
        0 <= i < k ==> (#[trigger] turns[i]).role != "user"@) {
        lemma_first_user_at(turns, k);
    }
    if forall|i: int| 0 <= i < turns.len() ==> (#[trigger] turns[i]).role != "user"@ {
        lemma_no_user(turns);
    }
}

/// A session of the second agent is called by the first name in its records; failing that by
/// the first message of the user; failing that by the beginning of its id.
pub proof fn law_codex_title(
    id: Seq<char>,
    records: Seq<JsonView>,
    mtime: i64,
    n: int,
    k: int,
)
    ensures
        ({
            let s = codex_session(id, records, mtime);
            let unnamed = forall|i: int|
                0 <= i < records.len() ==> (#[trigger] codex_name_in(records[i])).len() == 0;
            let first = 0 <= n < records.len() && codex_name_in(records[n]).len() > 0 && (forall|
                i: int,
            |
                0 <= i < n ==> (#[trigger] codex_name_in(records[i])).len() == 0);
            let spoke = 0 <= k < s.messages.len() && s.messages[k].role == "user"@ && (forall|i: int|
                0 <= i < k ==> (#[trigger] s.messages[i]).role != "user"@);
            let silent = forall|i: int|
                0 <= i < s.messages.len() ==> (#[trigger] s.messages[i]).role != "user"@;
            &&& first ==> s.title == title_of(codex_name_in(records[n]))
            &&& unnamed && spoke ==> s.title == title_of(s.messages[k].text)
            &&& unnamed && silent ==> s.title == "(session "@ + short_id(id) + ")"@
        }),
{
    let s = codex_session(id, records, mtime);
    let turns = codex_turns(records);
    assert(s.messages == turns);
    lemma_codex_firsts(records, n);
    if 0 <= k < turns.len() && turns[k].role == "user"@ && (forall|i: int|
        0 <= i < k ==> (#[trigger] turns[i]).role != "user"@) {
        lemma_first_user_at(turns, k);
    }
    if forall|i: int| 0 <= i < turns.len() ==> (#[trigger] turns[i]).role != "user"@ {
        lemma_no_user(turns);
    }
}

/// What the records of the second agent give first: a name, a directory, an id.
proof fn lemma_codex_firsts(records: Seq<JsonView>, n: int)
    ensures
        (forall|i: int| 0 <= i < records.len() ==> (#[trigger] codex_name_in(records[i])).len() == 0)
            ==> codex_name(records).len() == 0,
        (forall|i: int| 0 <= i < records.len() ==> (#[trigger] codex_cwd_in(records[i])).len() == 0)
            ==> codex_cwd(records).len() == 0,
        (forall|i: int| 0 <= i < records.len() ==> (#[trigger] id_given(records[i])).len() == 0)
            ==> codex_id(records).len() == 0,
        0 <= n < records.len() && codex_name_in(records[n]).len() > 0 && (forall|i: int|
            0 <= i < n ==> (#[trigger] codex_name_in(records[i])).len() == 0) ==> codex_name(records)
            == codex_name_in(records[n]),
        0 <= n < records.len() && codex_cwd_in(records[n]).len() > 0 && (forall|i: int|
            0 <= i < n ==> (#[trigger] codex_cwd_in(records[i])).len() == 0) ==> codex_cwd(records)
            == codex_cwd_in(records[n]),
        0 <= n < records.len() && id_given(records[n]).len() > 0 && (forall|i: int|
            0 <= i < n ==> (#[trigger] id_given(records[i])).len() == 0) ==> codex_id(records)
            == id_given(records[n]),
    decreases records.len(),
{
    if records.len() > 0 {
        let front = records.drop_last();
        lemma_codex_firsts(front, n);
        assert forall|i: int| 0 <= i < front.len() implies #[trigger] front[i] == records[i] by {}
        let last = records[records.len() - 1];
        if forall|i: int| 0 <= i < records.len() ==> (#[trigger] codex_name_in(records[i])).len()
            == 0 {
            assert forall|i: int| 0 <= i < front.len() implies (#[trigger] codex_name_in(
                front[i],
            )).len() == 0 by {
                assert(codex_name_in(records[i]).len() == 0);
            }
            assert(codex_name_in(last).len() == 0);
        }
        if forall|i: int| 0 <= i < records.len() ==> (#[trigger] codex_cwd_in(records[i])).len()
            == 0 {
            assert forall|i: int| 0 <= i < front.len() implies (#[trigger] codex_cwd_in(
                front[i],
            )).len() == 0 by {
                assert(codex_cwd_in(records[i]).len() == 0);
            }
            assert(codex_cwd_in(last).len() == 0);
        }
        if forall|i: int| 0 <= i < records.len() ==> (#[trigger] id_given(records[i])).len() == 0 {
            assert forall|i: int| 0 <= i < front.len() implies (#[trigger] id_given(front[i])).len()
                == 0 by {
                assert(id_given(records[i]).len() == 0);
            }
            assert(id_given(last).len() == 0);
        }
        if 0 <= n < records.len() {
            if forall|i: int| 0 <= i < n ==> (#[trigger] codex_name_in(records[i])).len() == 0 {
                assert forall|i: int| 0 <= i < n && i < front.len() implies (
                #[trigger] codex_name_in(front[i])).len() == 0 by {
                    assert(codex_name_in(records[i]).len() == 0);
                }
            }
            if forall|i: int| 0 <= i < n ==> (#[trigger] codex_cwd_in(records[i])).len() == 0 {
                assert forall|i: int| 0 <= i < n && i < front.len() implies (#[trigger] codex_cwd_in(
                    front[i],
                )).len() == 0 by {
                    assert(codex_cwd_in(records[i]).len() == 0);
                }
            }
            if forall|i: int| 0 <= i < n ==> (#[trigger] id_given(records[i])).len() == 0 {
                assert forall|i: int| 0 <= i < n && i < front.len() implies (#[trigger] id_given(
                    front[i],
                )).len() == 0 by {
                    assert(id_given(records[i]).len() == 0);
                }
            }
        }
    }
}

/// The id that a record gives.
pub open spec fn id_given(j: JsonView) -> Seq<char> {
    match text_at(payload_of(j), "id"@) {
        Some(id) => id,
        None => Seq::empty(),
    }
}

/// A stand-in title shows the longest beginning of the id that is written in eight bytes.
pub proof fn law_short_id_is_longest(id: Seq<char>) -> (n: int)
    ensures
        0 <= n <= id.len(),
        short_id(id) == id.take(n),
        n > 0 ==> encode_utf8(id.take(n)).len() <= 8,
        n < id.len() ==> encode_utf8(id.take(n + 1)).len() > 8,
    decreases id.len(),
{
    if encode_utf8(id).len() <= 8 || id.len() == 0 {
        assert(id.take(id.len() as int) == id);
        id.len() as int
    } else {
        let front = id.drop_last();
        let n = law_short_id_is_longest(front);
        assert(front.take(n) == id.take(n));
        if n < front.len() {
            assert(front.take(n + 1) == id.take(n + 1));
        } else {
            assert(id.take(n + 1) == id);
        }
        n
    }
}

// ---- working directory, time, id ------------------------------------------------------------------

proof fn lemma_claude_cwd(records: Seq<JsonView>, k: int)
    ensures
        (forall|i: int| 0 <= i < records.len() ==> (#[trigger] text_under(records[i], "cwd"@)).len()
            == 0) ==> claude_cwd(records).len() == 0,
        0 <= k < records.len() && text_under(records[k], "cwd"@).len() > 0 && (forall|i: int|
            0 <= i < k ==> (#[trigger] text_under(records[i], "cwd"@)).len() == 0) ==> claude_cwd(
            records,
        ) == text_under(records[k], "cwd"@),
    decreases records.len(),
{
    if records.len() > 0 {
        let front = records.drop_last();
        lemma_claude_cwd(front, k);
        let last = records[records.len() - 1];
        if forall|i: int| 0 <= i < records.len() ==> (#[trigger] text_under(
            records[i],
            "cwd"@,
        )).len() == 0 {
            assert forall|i: int| 0 <= i < front.len() implies (#[trigger] text_under(
                front[i],
                "cwd"@,
            )).len() == 0 by {
                assert(text_under(records[i], "cwd"@).len() == 0);
            }
            assert(text_under(last, "cwd"@).len() == 0);
        }
        if 0 <= k < records.len() && (forall|i: int|
            0 <= i < k ==> (#[trigger] text_under(records[i], "cwd"@)).len() == 0) {
            assert forall|i: int| 0 <= i < k && i < front.len() implies (#[trigger] text_under(
                front[i],
                "cwd"@,
            )).len() == 0 by {
                assert(text_under(records[i], "cwd"@).len() == 0);
            }
        }
    }
}

/// A session of the first agent belongs to the first directory that its records name; failing
/// that to the one that the name of its folder writes with `-` for `/`.
pub proof fn law_claude_directory(
    path: Seq<char>,
    id: Seq<char>,
    records: Seq<JsonView>,
    mtime: i64,
    k: int,
)
    ensures
        ({
            let s = claude_session(path, id, records, mtime);
            let named = |i: int| text_at(records[i], "cwd"@) matches Some(c) && c.len() > 0;
            &&& 0 <= k < records.len() && named(k) && (forall|i: int|
                0 <= i < k ==> !#[trigger] named(i)) ==> text_at(records[k], "cwd"@) == Some(s.cwd)
            &&& (forall|i: int| 0 <= i < records.len() ==> !#[trigger] named(i)) ==> match parent_of(
                path,
            ) {
                Some(dir) => s.cwd.len() == base_name_of(dir).len() && forall|i: int|
                    0 <= i < s.cwd.len() ==> #[trigger] s.cwd[i] == (if base_name_of(dir)[i]
                        == '-' {
                        '/'
                    } else {
                        base_name_of(dir)[i]
                    }),
                None => s.cwd.len() == 0,
            }
            &&& s.space == space_name(s.cwd)
            &&& s.id == id
            &&& s.backend == Backend::Claude
        }),
{
    let named = |i: int| text_at(records[i], "cwd"@) matches Some(c) && c.len() > 0;
    lemma_claude_cwd(records, k);
    if 0 <= k < records.len() && named(k) && (forall|i: int| 0 <= i < k ==> !#[trigger] named(i)) {
        assert forall|i: int| 0 <= i < k implies (#[trigger] text_under(records[i], "cwd"@)).len()
            == 0 by {
            assert(!named(i));
        }
    }
    if forall|i: int| 0 <= i < records.len() ==> !#[trigger] named(i) {
        assert forall|i: int| 0 <= i < records.len() implies (#[trigger] text_under(
            records[i],
            "cwd"@,
        )).len() == 0 by {
            assert(!named(i));
        }
    }
}

/// A session of the second agent belongs to the first directory that a record names, in its
/// own member before a tag.
pub proof fn law_codex_directory(id: Seq<char>, records: Seq<JsonView>, mtime: i64, k: int)
    requires
        0 <= k < records.len(),
        text_at(payload_of(records[k]), "cwd"@) matches Some(c) && c.len() > 0,
        forall|i: int| 0 <= i < k ==> (#[trigger] codex_cwd_in(records[i])).len() == 0,
    ensures
        text_at(payload_of(records[k]), "cwd"@) == Some(codex_session(id, records, mtime).cwd),
        codex_session(id, records, mtime).space == space_name(
            codex_session(id, records, mtime).cwd,
        ),
        codex_session(id, records, mtime).id == id,
        codex_session(id, records, mtime).backend == Backend::Codex,
{
    lemma_codex_firsts(records, k);
}

/// Where records name no directory of their own, the one in a `<cwd>` tag counts: of an
/// environment record, or of what was said.
pub proof fn law_codex_tagged_directory(j: JsonView, before: Seq<char>, dir: Seq<char>, after: Seq<char>)
    requires
        text_at(payload_of(j), "cwd"@) is None,
        member_of(payload_of(j), "content"@) == Some(
            JsonView::Text(before + "<cwd>"@ + dir + "</cwd>"@ + after),
        ),
        text_at(j, "type"@) == Some("environment_context"@),
        !has_text(before + "<cwd"@, "<cwd>"@),
        !has_text(dir + "</cwd"@, "</cwd>"@),
        trimmed(dir).len() > 0,
    ensures
        codex_cwd_in(j) == trimmed(dir),
{
    reveal_strlit("environment_context");
    reveal_strlit("environment");
    assert("environment_context"@.subrange(0, 11) == "environment"@);
    assert(occurs_at("environment_context"@, "environment"@, 0));
    reveal_strlit("<cwd>");
    reveal_strlit("</cwd>");
    reveal_strlit("<cwd");
    reveal_strlit("</cwd");
    reveal_strlit("<");
    reveal_strlit("</");
    reveal_strlit(">");
    reveal_strlit("cwd");
    assert("<"@ + "cwd"@ + ">"@ == "<cwd>"@);
    assert("</"@ + "cwd"@ + ">"@ == "</cwd>"@);
    assert("<"@ + "cwd"@ == "<cwd"@);
    assert("</"@ + "cwd"@ == "</cwd"@);
    law_tag_holds_inner_text(before, "cwd"@, dir, after);
}

/// What a tag holds is what stands between its opening and the next closing, without the white
/// space around it.
pub proof fn law_tag_holds_inner_text(
    before: Seq<char>,
    tag: Seq<char>,
    inner: Seq<char>,
    after: Seq<char>,
)
    requires
        !has_text(before + ("<"@ + tag), "<"@ + tag + ">"@),
        !has_text(inner + ("</"@ + tag), "</"@ + tag + ">"@),
    ensures
        tag_in(before + ("<"@ + tag + ">"@) + inner + ("</"@ + tag + ">"@) + after, tag) == Some(
            trimmed(inner),
        ),
{
    reveal_strlit("<");
    reveal_strlit("</");
    reveal_strlit(">");
    let open = "<"@ + tag + ">"@;
    let close = "</"@ + tag + ">"@;
    let text = before + open + inner + close + after;
    let a = before.len() as int;
    let b = a + open.len() + inner.len();
    lemma_find_from(text, open, 0);
    assert(text.subrange(a, a + open.len()) == open);
    assert(occurs_at(text, open, a));
    let k = find_from(text, open, 0)->0;
    if k < a {
        let x = before + ("<"@ + tag);
        assert(x.subrange(k, k + open.len()) == text.subrange(k, k + open.len()));
        assert(occurs_at(x, open, k));
    }
    assert(k == a);
    lemma_find_from(text, close, a + open.len());
    assert(text.subrange(b, b + close.len()) == close);
    assert(occurs_at(text, close, b));
    let m = find_from(text, close, a + open.len())->0;
    if m < b {
        let y = inner + ("</"@ + tag);
        let n = m - a - open.len();
        assert(y.subrange(n, n + close.len()) == text.subrange(m, m + close.len()));
        assert(occurs_at(y, close, n));
    }
    assert(m == b);
    assert(text.subrange(a + open.len(), b) == inner);
}

proof fn lemma_latest_reached(records: Seq<JsonView>)
    ensures
        0 <= latest(records),
        latest(records) > 0 ==> exists|i: int|
            0 <= i < records.len() && stamp_of(#[trigger] records[i]) == Some(latest(records)),
    decreases records.len(),
{
    if records.len() > 0 {
        let front = records.drop_last();
        lemma_latest_reached(front);
        if latest(records) > 0 {
            if latest(records) == latest(front) {
                let i = choose|i: int|
                    0 <= i < front.len() && stamp_of(#[trigger] front[i]) == Some(latest(front));
                assert(records[i] == front[i]);
            } else {
                assert(stamp_of(records[records.len() - 1]) == Some(latest(records)));
            }
        }
    }
}

/// A session was last active at the latest time that one of its records carries, and at that
/// of its file where none carries a time after the epoch.
pub proof fn law_last_activity(
    path: Seq<char>,
    id: Seq<char>,
    records: Seq<JsonView>,
    mtime: i64,
    k: int,
)
    requires
        forall|i: int|
            0 <= i < records.len() ==> (text_at(#[trigger] records[i], "timestamp"@) matches Some(t)
                ==> (iso_epoch(encode_utf8(t)) matches Some(e) ==> e <= i64::MAX)),
    ensures
        ({
            let time = |i: int| match text_at(records[i], "timestamp"@) {
                Some(t) => iso_epoch(encode_utf8(t)),
                None => None,
            };
            let a = claude_session(path, id, records, mtime).last_activity;
            let b = codex_session(id, records, mtime).last_activity;
            &&& a == b
            &&& 0 <= k < records.len() && (time(k) matches Some(t) && t > 0) && (forall|i: int|
                0 <= i < records.len() ==> ((#[trigger] time(i)) matches Some(t) ==> t <= time(
                    k,
                )->0)) ==> time(k) == Some(a as int)
            &&& (forall|i: int|
                0 <= i < records.len() ==> ((#[trigger] time(i)) matches Some(t) ==> t <= 0)) ==> a
                == mtime
        }),
{
    let time = |i: int| match text_at(records[i], "timestamp"@) {
        Some(t) => iso_epoch(encode_utf8(t)),
        None => None,
    };
    lemma_latest_reached(records);
    if 0 <= k < records.len() && (time(k) matches Some(t) && t > 0) && (forall|i: int|
        0 <= i < records.len() ==> ((#[trigger] time(i)) matches Some(t) ==> t <= time(k)->0)) {
        crate::parse::law_latest_covers(records, k);
        assert(stamp_of(records[k]) == time(k));
        let i = choose|i: int|
            0 <= i < records.len() && stamp_of(#[trigger] records[i]) == Some(latest(records));
        assert(time(i) == stamp_of(records[i]));
        assert(text_at(records[k], "timestamp"@) is Some);
    }
    if forall|i: int| 0 <= i < records.len() ==> ((#[trigger] time(i)) matches Some(t) ==> t <= 0) {
        if latest(records) > 0 {
            let i = choose|i: int|
                0 <= i < records.len() && stamp_of(#[trigger] records[i]) == Some(latest(records));
            assert(time(i) == stamp_of(records[i]));
        }
    }
}

/// The id of a session of the second agent is the first one that a record gives; failing that
/// the last five parts of the file's name between dashes, which a UUID has.
pub proof fn law_codex_session_id(
    path: Seq<char>,
    records: Seq<JsonView>,
    k: int,
    time: Seq<char>,
    uuid: Seq<Seq<char>>,
)
    ensures
        0 <= k < records.len() && id_given(records[k]).len() > 0 && (forall|i: int|
            0 <= i < k ==> (#[trigger] id_given(records[i])).len() == 0) ==> codex_session_id(
            path,
            records,
        ) == Some(id_given(records[k])),
        (forall|i: int| 0 <= i < records.len() ==> (#[trigger] id_given(records[i])).len() == 0)
            && uuid.len() == 5 && crate::text_laws::all_without(uuid, '-') && uuid[0].len() > 0
            && file_stem_of(path) == Some(time + seq!['-'] + joined(uuid, seq!['-']))
            ==> codex_session_id(path, records) == Some(joined(uuid, seq!['-'])),
        (forall|i: int| 0 <= i < records.len() ==> (#[trigger] id_given(records[i])).len() == 0)
            && file_stem_of(path) is None ==> codex_session_id(path, records) is None,
{
    lemma_codex_firsts(records, k);
    if uuid.len() == 5 && crate::text_laws::all_without(uuid, '-') && uuid[0].len() > 0 {
        reveal_strlit("-");
        assert("-"@ == seq!['-']);
        let head = pieces(time, '-');
        let stem = time + seq!['-'] + joined(uuid, seq!['-']);
        crate::text_laws::law_joining_undoes_splitting(time, '-');
        lemma_joined_add(head, uuid, seq!['-']);
        let all = head + uuid;
        assert(joined(all, seq!['-']) == stem);
        assert forall|i: int| 0 <= i < all.len() implies !(#[trigger] all[i]).contains('-') by {
            if i < head.len() {
                assert(!head[i].contains('-'));
            } else {
                assert(!uuid[i - head.len()].contains('-'));
            }
        }
        crate::text_laws::law_splitting_undoes_joining(all, '-');
        assert(all.skip(all.len() - 5) == uuid);
        lemma_joined_filled(uuid, seq!['-']);
    }
}

proof fn lemma_joined_filled(parts: Seq<Seq<char>>, sep: Seq<char>)
    requires
        parts.len() > 0,
        parts[0].len() > 0,
    ensures
        joined(parts, sep).len() > 0,
    decreases parts.len(),
{
    if parts.len() > 1 {
        lemma_joined_filled(parts.drop_last(), sep);
    }
}

pub proof fn lemma_joined_add(a: Seq<Seq<char>>, b: Seq<Seq<char>>, sep: Seq<char>)
    requires
        a.len() > 0,
        b.len() > 0,
    ensures
        joined(a + b, sep) == joined(a, sep) + sep + joined(b, sep),
    decreases b.len(),
{
    let all = a + b;
    assert(all.drop_last() == a + b.drop_last());
    assert(all.last() == b.last());
    if b.len() == 1 {
        assert(a + b.drop_last() == a);
    } else {
        lemma_joined_add(a, b.drop_last(), sep);
        let x = joined(a, sep) + sep;
        assert(x + joined(b.drop_last(), sep) + sep + b.last() == x + (joined(b.drop_last(), sep)
            + sep + b.last()));
    }
}

// ---- messages ------------------------------------------------------------------------------------

/// The conversation is told in the order of the records, each by itself: the messages of some
/// records followed by others are the messages of the former followed by those of the latter.
pub proof fn law_messages_follow_the_records(a: Seq<JsonView>, b: Seq<JsonView>, j: JsonView)
    ensures
        claude_turns(a + b) == claude_turns(a) + claude_turns(b),
        codex_turns(a + b) == codex_turns(a) + codex_turns(b),
        claude_turns(seq![j]) == match claude_turn(j) {
            Some(m) => seq![m],
            None => Seq::empty(),
        },
        codex_turns(seq![j]) == match codex_turn(j) {
            Some(m) => seq![m],
            None => Seq::empty(),
        },
    decreases b.len(),
{
    let one = seq![j];
    assert(one.drop_last() == Seq::<JsonView>::empty());
    assert(claude_turns(one.drop_last()) == Seq::<MessageView>::empty());
    assert(codex_turns(one.drop_last()) == Seq::<MessageView>::empty());
    assert(one.last() == j);
    if b.len() == 0 {
        assert(a + b == a);
        assert(claude_turns(a) + claude_turns(b) == claude_turns(a));
        assert(codex_turns(a) + codex_turns(b) == codex_turns(a));
    } else {
        law_messages_follow_the_records(a, b.drop_last(), j);
        assert((a + b).drop_last() == a + b.drop_last());
        assert((a + b).last() == b.last());
        match claude_turn(b.last()) {
            Some(m) => {
                assert((claude_turns(a) + claude_turns(b.drop_last())).push(m) == claude_turns(a)
                    + claude_turns(b.drop_last()).push(m));
            },
            None => {},
        }
        match codex_turn(b.last()) {
            Some(m) => {
                assert((codex_turns(a) + codex_turns(b.drop_last())).push(m) == codex_turns(a)
                    + codex_turns(b.drop_last()).push(m));
            },
            None => {},
        }
    }
}

/// A record of the first agent is a message where it is of the type `user` or `assistant` and
/// what its content says holds something; what the user said has to be prose. The role is the
/// one in the message, failing that the type.
pub proof fn law_claude_message(j: JsonView, ty: Seq<char>, msg: JsonView, content: JsonView)
    requires
        text_at(j, "type"@) == Some(ty),
        member_of(j, "message"@) == Some(msg),
        member_of(msg, "content"@) == Some(content),
    ensures
        ({
            let role = match text_at(msg, "role"@) {
                Some(r) => r,
                None => ty,
            };
            let text = content_text(content);
            let kept = (ty == "user"@ || ty == "assistant"@) && trimmed(text).len() > 0 && (role
                == "user"@ ==> prose(text));
            &&& kept ==> claude_turn(j) == Some(MessageView { role, text })
            &&& !kept ==> claude_turn(j) is None
        }),
{
}

/// A record of the second agent is a message where it has a role and a content that says
/// something; what the user said has to be prose. It may stand under `payload` as well.
pub proof fn law_codex_message(j: JsonView, inner: JsonView, role: Seq<char>, content: JsonView)
    requires
        member_of(j, "payload"@) == Some(inner) || (member_of(j, "payload"@) is None && inner == j),
    ensures
        ({
            let text = content_text(content);
            let said = text_at(inner, "role"@) == Some(role) && member_of(inner, "content"@) == Some(
                content,
            );
            let kept = trimmed(text).len() > 0 && (role == "user"@ ==> prose(text));
            &&& said && kept ==> codex_turn(j) == Some(MessageView { role, text })
            &&& said && !kept ==> codex_turn(j) is None
            &&& text_at(inner, "role"@) is None || member_of(inner, "content"@) is None
                ==> codex_turn(j) is None
        }),
{
}

/// A name of the second agent's session stands under `name`, or under `title` where there is
/// no `name`.
pub proof fn law_codex_name(j: JsonView)
    ensures
        text_at(payload_of(j), "name"@) matches Some(n) ==> codex_name_in(j) == n,
        member_of(payload_of(j), "name"@) is None ==> (text_at(payload_of(j), "title"@) matches Some(
            t,
        ) ==> codex_name_in(j) == t),
        member_of(payload_of(j), "name"@) is None && text_at(payload_of(j), "title"@) is None
            ==> codex_name_in(j).len() == 0,
{
}

/// Prose of the user holds something and is none of the wrappers that a harness adds: no
/// caveat, nothing that starts with a tag, no command, no interruption.
pub proof fn law_prose(text: Seq<char>, rest: Seq<char>)
    ensures
        prose(text) ==> trimmed(text).len() > 0,
        trimmed(text) == "Caveat:"@ + rest ==> !prose(text),
        trimmed(text) == "<"@ + rest ==> !prose(text),
        has_text(trimmed(text), "<command-name>"@) ==> !prose(text),
        has_text(trimmed(text), "[Request interrupted"@) ==> !prose(text),
        trimmed(text).len() > 0 && !trimmed(text).contains('<') && !trimmed(text).contains('[')
            && trimmed(text)[0] != 'C' ==> prose(text),
        trimmed(text).len() > 0 && !has_prefix(trimmed(text), "Caveat:"@) && trimmed(text)[0] != '<'
            && !has_text(trimmed(text), "<command-name>"@) && !has_text(
            trimmed(text),
            "[Request interrupted"@,
        ) ==> prose(text),
{
    reveal_strlit("Caveat:");
    reveal_strlit("<");
    reveal_strlit("<command-name>");
    reveal_strlit("[Request interrupted");
    let t = trimmed(text);
    if t == "Caveat:"@ + rest {
        assert(t.subrange(0, 7) == "Caveat:"@);
    }
    if t == "<"@ + rest {
        assert(t[0] == '<');
    }
    if t.len() > 0 && !t.contains('<') && !t.contains('[') && t[0] != 'C' {
        assert(t.contains(t[0]));
        if has_text(t, "<command-name>"@) {
            let i = choose|i: int| occurs_at(t, "<command-name>"@, i);
            assert(t.subrange(i, i + 14)[0] == t[i]);
            assert(t.contains(t[i]));
        }
        if has_text(t, "[Request interrupted"@) {
            let i = choose|i: int| occurs_at(t, "[Request interrupted"@, i);
            assert(t.subrange(i, i + 20)[0] == t[i]);
            assert(t.contains(t[i]));
        }
        if has_prefix(t, "Caveat:"@) {
            assert(t.subrange(0, 7)[0] == t[0]);
        }
    }
}

/// The texts of the given parts.
pub open spec fn texts_of(parts: Seq<JsonView>) -> Seq<Seq<char>> {
    parts.map_values(|p: JsonView| text_at(p, "text"@)->0)
}

/// Whether a part is prose: its type says so, and it has a text.
pub open spec fn is_prose_part(p: JsonView) -> bool {
    (text_at(p, "type"@) == Some("text"@) || text_at(p, "type"@) == Some("input_text"@) || text_at(
        p,
        "type"@,
    ) == Some("output_text"@)) && text_at(p, "text"@) is Some
}

proof fn lemma_parts_joined(parts: Seq<JsonView>)
    requires
        parts.len() > 0,
        forall|i: int|
            0 <= i < parts.len() ==> is_prose_part(#[trigger] parts[i]) && text_at(
                parts[i],
                "text"@,
            )->0.len() > 0,
    ensures
        parts_text(parts) == joined(texts_of(parts), seq!['\n']),
        parts_text(parts).len() > 0,
    decreases parts.len(),
{
    let last = parts[parts.len() - 1];
    assert(is_prose_part(last));
    assert(part_text(last) == text_at(last, "text"@));
    let texts = texts_of(parts);
    let front = parts.drop_last();
    assert(texts.drop_last() == texts_of(front));
    if parts.len() == 1 {
        assert(parts_text(front) == Seq::<char>::empty());
    } else {
        assert forall|i: int| 0 <= i < front.len() implies is_prose_part(#[trigger] front[i])
            && text_at(front[i], "text"@)->0.len() > 0 by {
            assert(front[i] == parts[i]);
        }
        lemma_parts_joined(front);
    }
}

/// What a content says: a bare text says itself; a list says the texts of its prose parts, a
/// line feed between them; tool calls, images and thinking add nothing, wherever they stand.
pub proof fn law_content_says(
    text: Seq<char>,
    parts: Seq<JsonView>,
    a: Seq<JsonView>,
    p: JsonView,
    b: Seq<JsonView>,
)
    ensures
        content_text(JsonView::Text(text)) == text,
        parts.len() > 0 && (forall|i: int|
            0 <= i < parts.len() ==> is_prose_part(#[trigger] parts[i]) && text_at(
                parts[i],
                "text"@,
            )->0.len() > 0) ==> content_text(JsonView::List(parts)) == joined(
            texts_of(parts),
            seq!['\n'],
        ),
        !is_prose_part(p) ==> content_text(JsonView::List(a + seq![p] + b)) == content_text(
            JsonView::List(a + b),
        ),
        content_text(JsonView::List(Seq::empty())).len() == 0,
{
    if parts.len() > 0 && (forall|i: int|
        0 <= i < parts.len() ==> is_prose_part(#[trigger] parts[i]) && text_at(
            parts[i],
            "text"@,
        )->0.len() > 0) {
        lemma_parts_joined(parts);
    }
    if !is_prose_part(p) {
        lemma_part_adds_nothing(a, p, b);
    }
}

proof fn lemma_part_adds_nothing(a: Seq<JsonView>, p: JsonView, b: Seq<JsonView>)
    requires
        !is_prose_part(p),
    ensures
        parts_text(a + seq![p] + b) == parts_text(a + b),
    decreases b.len(),
{
    assert(part_text(p) is None);
    let whole = a + seq![p] + b;
    if b.len() == 0 {
        assert(whole.drop_last() == a);
        assert(whole.last() == p);
        assert(a + b == a);
    } else {
        lemma_part_adds_nothing(a, p, b.drop_last());
        assert(whole.drop_last() == a + seq![p] + b.drop_last());
        assert((a + b).drop_last() == a + b.drop_last());
        assert(whole.last() == b.last() && (a + b).last() == b.last());
    }
}

/// What a session is searched by is its title, its messages, its directory and its space, all
/// lower-cased, a line feed between them, and nothing else. It counts its messages.
pub proof fn law_search_text_is_exact(
    backend: Backend,
    id: Seq<char>,
    title: Seq<char>,
    cwd: Seq<char>,
    last: i64,
    messages: Seq<MessageView>,
)
    requires
        messages.len() <= usize::MAX,
    ensures
        ({
            let s = session_of(backend, id, title, cwd, last, messages);
            &&& s.search_blob == joined(
                seq![lowercase(title)] + messages.map_values(|m: MessageView| lowercase(m.text))
                    + seq![lowercase(cwd), lowercase(s.space)],
                seq!['\n'],
            )
            &&& s.messages == messages
            &&& s.msg_count == messages.len()
            &&& s.title == title
            &&& s.cwd == cwd
            &&& s.last_activity == last
        }),
{
    let lows = messages.map_values(|m: MessageView| lowercase(m.text));
    let head = seq![lowercase(title)];
    lemma_blob(lowercase(title), messages);
    let space = lowercase(space_name(cwd));
    let tail = seq![lowercase(cwd), space];
    let nl = seq!['\n'];
    lemma_joined_add(head + lows, tail, nl);
    assert(tail.drop_last() == seq![lowercase(cwd)]);
    assert(joined(tail.drop_last(), nl) == lowercase(cwd));
    assert(joined(tail, nl) == lowercase(cwd) + nl + space);
    let x = lowercase(title) + message_blob(messages);
    assert(x + nl + (lowercase(cwd) + nl + space) == x + nl + lowercase(cwd) + nl + space);
}

proof fn lemma_blob(title: Seq<char>, messages: Seq<MessageView>)
    ensures
        joined(
            seq![title] + messages.map_values(|m: MessageView| lowercase(m.text)),
            seq!['\n'],
        ) == title + message_blob(messages),
    decreases messages.len(),
{
    let lows = messages.map_values(|m: MessageView| lowercase(m.text));
    let all = seq![title] + lows;
    if messages.len() == 0 {
        assert(all == seq![title]);
        assert(title + message_blob(messages) == title);
    } else {
        let front = messages.drop_last();
        lemma_blob(title, front);
        assert(all.drop_last() == seq![title] + front.map_values(
            |m: MessageView| lowercase(m.text),
        ));
        let low = lowercase(messages.last().text);
        assert(all.last() == low);
        assert(title + message_blob(front) + seq!['\n'] + low == title + (message_blob(front)
            + seq!['\n'] + low));
    }
}

/// A text without a line that holds something gives no title.
pub proof fn law_blank_text_gives_no_title(s: Seq<char>)
    requires
        forall|i: int|
            0 <= i < pieces(s, '\n').len() ==> trimmed(#[trigger] pieces(s, '\n')[i]).len() == 0,
    ensures
        title_of(s).len() == 0,
{
    lemma_none_filled(pieces(s, '\n'));
    assert(trimmed(Seq::<char>::empty()).len() == 0);
}

proof fn lemma_none_filled(parts: Seq<Seq<char>>)
    requires
        forall|i: int| 0 <= i < parts.len() ==> trimmed(#[trigger] parts[i]).len() == 0,
    ensures
        first_filled(parts).len() == 0,
    decreases parts.len(),
{
    if parts.len() > 0 {
        let rest = parts.drop_first();
        assert forall|i: int| 0 <= i < rest.len() implies trimmed(#[trigger] rest[i]).len() == 0 by {
            assert(rest[i] == parts[i + 1]);
        }
        assert(trimmed(parts[0]).len() == 0);
        lemma_none_filled(rest);
    }
}

/// A further part of a content is told behind a line feed, unless nothing was told before it; a
/// content that is neither a text nor a list says nothing.
pub proof fn law_content_grows(parts: Seq<JsonView>, p: JsonView, other: JsonView)
    ensures
        ({
            let before = content_text(JsonView::List(parts));
            let after = content_text(JsonView::List(parts.push(p)));
            &&& is_prose_part(p) && before.len() > 0 ==> after == before + seq!['\n'] + text_at(
                p,
                "text"@,
            )->0
            &&& is_prose_part(p) && before.len() == 0 ==> after == text_at(p, "text"@)->0
            &&& !is_prose_part(p) ==> after == before
            &&& !(other is Text) && !(other is List) ==> content_text(other).len() == 0
        }),
{
    assert(parts.push(p).drop_last() == parts);
}

/// A record without a message, or of another type, and a message without a content are none.
pub proof fn law_claude_records_without_messages(j: JsonView, msg: JsonView)
    ensures
        text_at(j, "type"@) is None ==> claude_turn(j) is None,
        member_of(j, "message"@) is None ==> claude_turn(j) is None,
        member_of(j, "message"@) == Some(msg) && member_of(msg, "content"@) is None
            ==> claude_turn(j) is None,
{
    reveal_strlit("user");
    reveal_strlit("assistant");
    assert("user"@.len() == 4 && "assistant"@.len() == 9);
}

/// A session of the second agent belongs to the directory of the first record that has one, and
/// to none where no record has.
pub proof fn law_codex_first_directory(id: Seq<char>, records: Seq<JsonView>, mtime: i64, k: int)
    ensures
        ({
            let cwd = codex_session(id, records, mtime).cwd;
            &&& 0 <= k < records.len() && codex_cwd_in(records[k]).len() > 0 && (forall|i: int|
                0 <= i < k ==> (#[trigger] codex_cwd_in(records[i])).len() == 0) ==> cwd
                == codex_cwd_in(records[k])
            &&& (forall|i: int|
                0 <= i < records.len() ==> (#[trigger] codex_cwd_in(records[i])).len() == 0)
                ==> cwd.len() == 0
        }),
{
    lemma_first_cwd(records, k);
}

proof fn lemma_first_cwd(records: Seq<JsonView>, k: int)
    ensures
        0 <= k < records.len() && codex_cwd_in(records[k]).len() > 0 && (forall|i: int|
            0 <= i < k ==> (#[trigger] codex_cwd_in(records[i])).len() == 0) ==> codex_cwd(records)
            == codex_cwd_in(records[k]),
        (forall|i: int|
            0 <= i < records.len() ==> (#[trigger] codex_cwd_in(records[i])).len() == 0)
            ==> codex_cwd(records).len() == 0,
    decreases records.len(),
{
    if records.len() > 0 {
        let front = records.drop_last();
        assert forall|i: int| 0 <= i < front.len() implies #[trigger] front[i] == records[i] by {}
        lemma_first_cwd(front, k);
        if forall|i: int|
            0 <= i < records.len() ==> (#[trigger] codex_cwd_in(records[i])).len() == 0 {
            assert forall|i: int| 0 <= i < front.len() implies (#[trigger] codex_cwd_in(
                front[i],
            )).len() == 0 by {
                assert(codex_cwd_in(records[i]).len() == 0);
            }
            assert(codex_cwd_in(records[records.len() - 1]).len() == 0);
        }
        if 0 <= k < records.len() && forall|i: int|
            0 <= i < k ==> (#[trigger] codex_cwd_in(records[i])).len() == 0 {
            if k < front.len() {
                assert(front[k] == records[k]);
                assert forall|i: int| 0 <= i < k implies (#[trigger] codex_cwd_in(
                    front[i],
                )).len() == 0 by {
                    assert(codex_cwd_in(records[i]).len() == 0);
                }
            } else {
                assert forall|i: int| 0 <= i < front.len() implies (#[trigger] codex_cwd_in(
                    front[i],
                )).len() == 0 by {
                    assert(codex_cwd_in(records[i]).len() == 0);
                }
            }
        }
    }
}

/// The directory of a record is the one that it names itself, before any in a tag; one in a tag
/// of an environment counts before one in what was said, and what was said counts whatever the
/// type of the record is.
pub proof fn law_codex_directory_in_a_record(j: JsonView, said: Seq<char>, dir: Seq<char>)
    requires
        dir.len() > 0,
    ensures
        text_at(payload_of(j), "cwd"@) == Some(dir) ==> codex_cwd_in(j) == dir,
        text_at(payload_of(j), "cwd"@) is None && member_of(payload_of(j), "content"@) == Some(
            JsonView::Text(said),
        ) && text_at(payload_of(j), "role"@) is Some && tag_in(said, "cwd"@) == Some(dir) && trimmed(
            said,
        ).len() > 0 ==> codex_cwd_in(j) == dir,
        text_at(payload_of(j), "cwd"@) is None && member_of(payload_of(j), "content"@) is None
            && !(payload_of(j) is Text) && !(payload_of(j) is List) ==> codex_cwd_in(j).len() == 0,
{
    lemma_no_tag();
}

proof fn lemma_no_tag()
    ensures
        tag_in(Seq::empty(), "cwd"@) is None,
{
    let open = "<"@ + "cwd"@ + ">"@;
    reveal_strlit("<");
    reveal_strlit(">");
    reveal_strlit("cwd");
    assert(open.len() == 5);
    assert(find_from(Seq::<char>::empty(), open, 0) is None);
}

/// A name that is there and is no text names nothing, even where there is a title.
pub proof fn law_codex_name_is_text(j: JsonView, n: JsonView)
    requires
        member_of(payload_of(j), "name"@) == Some(n),
        !(n is Text),
    ensures
        codex_name_in(j).len() == 0,
{
}

/// What a record holds stands under `payload`, or in the record itself where there is none.
pub proof fn law_payload(j: JsonView, inner: JsonView)
    ensures
        member_of(j, "payload"@) == Some(inner) ==> payload_of(j) == inner,
        member_of(j, "payload"@) is None ==> payload_of(j) == j,
{
}

/// A file whose name has no more than five parts between dashes is called by all of it.
pub proof fn law_short_stems_are_ids(path: Seq<char>, records: Seq<JsonView>, stem: Seq<char>)
    requires
        codex_id(records).len() == 0,
        file_stem_of(path) == Some(stem),
        pieces(stem, '-').len() <= 5,
    ensures
        codex_session_id(path, records) == Some(stem),
{
    reveal_strlit("-");
    assert("-"@ == seq!['-']);
    crate::text_laws::law_joining_undoes_splitting(stem, '-');
}

/// A tag that is not opened, or not closed behind that, holds nothing.
pub proof fn law_open_tags_hold_nothing(text: Seq<char>, tag: Seq<char>)
    ensures
        !has_text(text, "<"@ + tag + ">"@) ==> tag_in(text, tag) is None,
        !has_text(text, "</"@ + tag + ">"@) ==> tag_in(text, tag) is None,
{
    let open = "<"@ + tag + ">"@;
    let close = "</"@ + tag + ">"@;
    lemma_find_from(text, open, 0);
    match find_from(text, open, 0) {
        Some(i) => {
            lemma_find_from(text, close, i + open.len());
        },
        None => {},
    }
}

} // verus!
