//! Defensive parsing of the transcripts that agents leave.
//!
//! Schemas are internal and drift between versions, so we match on `type`/`role`, pull
//! fields when present, and skip anything we can't make sense of rather than failing the
//! whole file.

use crate::data::{
    iso_epoch, now_epoch, parse_iso_epoch, space_name, space_of, Backend, Message, MessageView,
    Session, SessionView,
};
use crate::json::{json_in_text, json_view, member_of, read_text, text_at, Json, JsonView};
use crate::names::{AgentNames, CODEX_HOME};
use crate::path::{
    base_name, base_name_of, extension_is, file_stem, file_stem_of, has_extension, join,
    joined_path, law_names_are_filled, parent, parent_of,
};
use crate::text::{
    begins, begins_char, cat, cat3, clip, find_chars, find_from, has_prefix, has_text, holds,
    lemma_filled_trimmed, lemma_find_from, lemma_piece_with, lemma_trimmed_filled,
    is_blank, joined, lowercase, occurs_at, pieces, replace_char, replaced, same, split,
    string_between, text_of_bytes, to_lower, trim, trimmed, chars_of,
};
use vstd::prelude::*;
use vstd::utf8::{decode_utf8, encode_utf8, valid_utf8};

verus! {

/// The longest title, in characters.
pub const TITLE_MAX: usize = 80;

/// What the loader streams back.
pub enum Load {
    Session(Box<Session>),
    Done,
}

// ---- where transcripts are ------------------------------------------------------------

/// Where the first agent keeps its transcripts, where there is a home directory.
pub fn claude_root(home: Option<&str>, names: &AgentNames) -> (r: Option<String>)
    ensures
        r.deep_view() == match home {
            Some(h) => Some(joined_path(joined_path(h@, names.home@), "projects"@)),
            None => None,
        },
{
    match home {
        Some(h) => Some(join(join(h, names.home.as_str()).as_str(), "projects")),
        None => None,
    }
}

/// Where the second agent keeps its transcripts, where there is a home directory.
pub fn codex_root(home: Option<&str>) -> (r: Option<String>)
    ensures
        r.deep_view() == match home {
            Some(h) => Some(joined_path(joined_path(h@, CODEX_HOME@), "sessions"@)),
            None => None,
        },
{
    match home {
        Some(h) => Some(join(join(h, CODEX_HOME).as_str(), "sessions")),
        None => None,
    }
}

/// The files among the paths found below a root that hold a transcript: regular files
/// with the extension `jsonl`.
pub fn is_jsonl(path: &str, regular: bool) -> (r: bool)
    ensures
        r == (regular && has_extension(path@, "jsonl"@)),
{
    regular && extension_is(path, "jsonl")
}

/// When a file was last changed, as epoch seconds, or zero where that is unknown or lies
/// before the epoch.
pub fn file_mtime_epoch(since_epoch: Option<u64>) -> (r: i64)
    ensures
        match since_epoch {
            Some(s) => if s <= i64::MAX { r == s } else { r == s - 0x1_0000_0000_0000_0000 },
            None => r == 0,
        },
{
    now_epoch(since_epoch)
}

// ---- records ----------------------------------------------------------------------------

/// The pieces of `bytes` between the line feeds.
pub open spec fn byte_lines(bytes: Seq<u8>) -> Seq<Seq<u8>>
    decreases bytes.len(),
{
    if bytes.len() == 0 {
        seq![Seq::empty()]
    } else {
        let before = byte_lines(bytes.drop_last());
        if bytes.last() == 10 {
            before.push(Seq::empty())
        } else {
            before.drop_last().push(before.last().push(bytes.last()))
        }
    }
}

/// The record on a line: what JSON reads in its text, white space around it aside. There
/// is none where the line is not UTF-8, is blank or is not JSON.
pub open spec fn record_in(line: Seq<u8>) -> Option<JsonView> {
    let text = trimmed(decode_utf8(line));
    if !valid_utf8(line) || text.len() == 0 {
        None
    } else {
        json_in_text(text)
    }
}

/// The records on the lines, in order.
pub open spec fn records_on(lines: Seq<Seq<u8>>) -> Seq<JsonView>
    decreases lines.len(),
{
    if lines.len() == 0 {
        Seq::empty()
    } else {
        match record_in(lines.last()) {
            Some(j) => records_on(lines.drop_last()).push(j),
            None => records_on(lines.drop_last()),
        }
    }
}

/// The records of a transcript.
pub open spec fn records_in(bytes: Seq<u8>) -> Seq<JsonView> {
    records_on(byte_lines(bytes))
}

fn read_record(line: &[u8]) -> (r: Option<Json>)
    ensures
        match r {
            Some(j) => record_in(line@) == Some(json_view(j)),
            None => record_in(line@) is None,
        },
{
    match text_of_bytes(line) {
        Some(s) => {
            proof {
                vstd::utf8::encode_utf8_decode_utf8(s@);
            }
            let t = trim(s);
            if t.as_str().is_empty() {
                None
            } else {
                read_text(t.as_str())
            }
        },
        None => None,
    }
}

/// The records of a transcript; lines that hold none are passed over.
pub fn read_lines(bytes: &[u8]) -> (r: Vec<Json>)
    ensures
        r.deep_view() == records_in(bytes@),
{
    let mut out: Vec<Json> = Vec::new();
    let mut cur: Vec<u8> = Vec::new();
    let ghost mut done: Seq<Seq<u8>> = Seq::empty();
    assert(bytes@.take(0) == Seq::<u8>::empty());
    assert(done.push(cur@) == byte_lines(bytes@.take(0)));
    assert(out.deep_view() == records_on(done));
    for i in 0..bytes.len()
        invariant
            done.push(cur@) == byte_lines(bytes@.take(i as int)),
            out.deep_view() == records_on(done),
    {
        let ghost had = cur@;
        let ghost before = out.deep_view();
        assert(bytes@.take(i + 1).drop_last() == bytes@.take(i as int));
        assert(bytes@.take(i + 1).last() == bytes@[i as int]);
        assert(done.push(had).drop_last() == done);
        if bytes[i] == 10 {
            match read_record(cur.as_slice()) {
                Some(j) => {
                    out.push(j);
                    assert(out.deep_view() == before.push(json_view(j)));
                },
                None => {},
            }
            cur = Vec::new();
            proof {
                done = done.push(had);
            }
        } else {
            cur.push(bytes[i]);
        }
        assert(done.push(cur@) == byte_lines(bytes@.take(i + 1)));
    }
    assert(bytes@.take(bytes@.len() as int) == bytes@);
    let ghost before = out.deep_view();
    let ghost had = cur@;
    assert(done.push(had).drop_last() == done);
    match read_record(cur.as_slice()) {
        Some(j) => {
            out.push(j);
            assert(out.deep_view() == before.push(json_view(j)));
        },
        None => {},
    }
    out
}

// ---- titles and prose -------------------------------------------------------------------

/// The first of `parts` that holds more than white space.
pub open spec fn first_filled(parts: Seq<Seq<char>>) -> Seq<char>
    decreases parts.len(),
{
    if parts.len() == 0 {
        Seq::empty()
    } else if trimmed(parts[0]).len() > 0 {
        parts[0]
    } else {
        first_filled(parts.drop_first())
    }
}

/// The first line of `s` that holds something, trimmed, and cut to `TITLE_MAX` characters
/// with an ellipsis where it is longer.
pub open spec fn title_of(s: Seq<char>) -> Seq<char> {
    let line = trimmed(first_filled(pieces(s, '\n')));
    if line.len() > TITLE_MAX {
        line.take(TITLE_MAX as int) + "…"@
    } else {
        line
    }
}

pub fn truncate_title(s: &str) -> (r: String)
    ensures
        r@ == title_of(s@),
{
    let parts = split(s, '\n');
    let ghost view = parts.deep_view();
    let mut line = String::new();
    let mut i: usize = 0;
    assert(view.skip(0) == view);
    while i < parts.len()
        invariant_except_break
            line@ == Seq::<char>::empty(),
            first_filled(view) == first_filled(view.skip(i as int)),
        invariant
            i <= parts@.len(),
            view == parts.deep_view(),
        ensures
            line@ == first_filled(view),
        decreases parts@.len() - i,
    {
        assert(view.skip(i as int)[0] == parts@[i as int]@);
        assert(view.skip(i as int).drop_first() == view.skip(i + 1));
        if !is_blank(parts[i].as_str()) {
            line = parts[i].clone();
            break;
        }
        i = i + 1;
    }
    let line = trim(line.as_str());
    if line.as_str().unicode_len() > TITLE_MAX {
        let clipped = clip(line.as_str(), TITLE_MAX);
        cat(clipped.as_str(), "…")
    } else {
        line
    }
}

/// Whether the text is prose that the user typed.
pub open spec fn prose(text: Seq<char>) -> bool {
    let t = trimmed(text);
    &&& t.len() > 0
    &&& !has_prefix(t, "Caveat:"@)
    &&& t[0] != '<'
    &&& !has_text(t, "<command-name>"@)
    &&& !has_text(t, "[Request interrupted"@)
}

/// Genuine prose the user typed — as opposed to harness wrappers
/// (`<local-command-caveat>`, `<command-name>`, …), tool results, or pasted
/// attachments. Non-prose user turns are dropped entirely: they'd pollute the
/// preview, the search haystack, and the message count alike.
pub fn is_prose(text: &str) -> (r: bool)
    ensures
        r == prose(text@),
{
    let t = trim(text);
    let t = t.as_str();
    !t.is_empty() && !begins(t, "Caveat:") && !begins_char(t, '<') && !holds(t, "<command-name>")
        && !holds(t, "[Request interrupted")
}

/// The longest beginning of an id that is written in eight bytes at most.
pub open spec fn short_id(id: Seq<char>) -> Seq<char>
    decreases id.len(),
{
    if encode_utf8(id).len() <= 8 || id.len() == 0 {
        id
    } else {
        short_id(id.drop_last())
    }
}

fn shorten(id: &str) -> (r: String)
    ensures
        r@ == short_id(id@),
{
    let mut kept = id.to_owned();
    while kept.as_str().as_bytes().len() > 8 && !kept.as_str().is_empty()
        invariant
            short_id(id@) == short_id(kept@),
        decreases kept@.len(),
    {
        kept.pop();
    }
    kept
}

/// The title where nothing else names the session.
pub open spec fn stand_in_title(id: Seq<char>) -> Seq<char> {
    "(session "@ + short_id(id) + ")"@
}

/// The title of a session: the name it was given, failing that the first prose of the
/// user, failing that a stand-in.
pub open spec fn session_title(name: Seq<char>, first: Option<Seq<char>>, id: Seq<char>) -> Seq<
    char,
> {
    if name.len() > 0 {
        title_of(name)
    } else if first is Some {
        title_of(first->0)
    } else {
        stand_in_title(id)
    }
}

fn make_title(name: &str, first: Option<&str>, id: &str) -> (r: String)
    ensures
        r@ == session_title(name@, first.deep_view(), id@),
{
    if !name.is_empty() {
        truncate_title(name)
    } else {
        match first {
            Some(p) => truncate_title(p),
            None => cat3("(session ", shorten(id).as_str(), ")"),
        }
    }
}

// ---- sessions ---------------------------------------------------------------------------

/// The texts of the messages, each lower-cased behind a line feed.
pub open spec fn message_blob(messages: Seq<MessageView>) -> Seq<char>
    decreases messages.len(),
{
    if messages.len() == 0 {
        Seq::empty()
    } else {
        message_blob(messages.drop_last()) + seq!['\n'] + lowercase(messages.last().text)
    }
}

/// The session with the given parts; its search text holds the title, the messages, the
/// directory and the space, all lower-cased, a line each.
pub open spec fn session_of(
    backend: Backend,
    id: Seq<char>,
    title: Seq<char>,
    cwd: Seq<char>,
    last_activity: i64,
    messages: Seq<MessageView>,
) -> SessionView {
    SessionView {
        backend,
        id,
        title,
        cwd,
        space: space_name(cwd),
        last_activity,
        messages,
        msg_count: messages.len() as usize,
        search_blob: lowercase(title) + message_blob(messages) + seq!['\n'] + lowercase(cwd) + seq![
            '\n',
        ] + lowercase(space_name(cwd)),
    }
}

pub fn finalize(
    backend: Backend,
    id: String,
    title: String,
    cwd: String,
    last_activity: i64,
    messages: Vec<Message>,
) -> (r: Session)
    ensures
        r.deep_view() == session_of(
            backend,
            id@,
            title@,
            cwd@,
            last_activity,
            messages.deep_view(),
        ),
{
    let mut blob = to_lower(title.as_str());
    let ghost head = blob@;
    let ghost view = messages.deep_view();
    assert(view.take(0) == Seq::<MessageView>::empty());
    for i in 0..messages.len()
        invariant
            view == messages.deep_view(),
            blob@ == head + message_blob(view.take(i as int)),
    {
        assert(view.take(i + 1).drop_last() == view.take(i as int));
        assert(view.take(i + 1).last() == messages@[i as int].deep_view());
        blob.push('\n');
        let low = to_lower(messages[i].text.as_str());
        blob.append(low.as_str());
        assert(blob@ == head + (message_blob(view.take(i as int)) + seq!['\n'] + low@));
    }
    assert(view.take(messages@.len() as int) == view);
    blob.push('\n');
    let low = to_lower(cwd.as_str());
    blob.append(low.as_str());
    let space = space_of(cwd.as_str());
    blob.push('\n');
    let tail = to_lower(space.as_str());
    blob.append(tail.as_str());
    assert(blob@ == head + message_blob(view) + seq!['\n'] + low@ + seq!['\n'] + tail@);
    Session {
        backend,
        id,
        title,
        cwd,
        space,
        last_activity,
        msg_count: messages.len(),
        messages,
        search_blob: blob,
    }
}

// ---- content ----------------------------------------------------------------------------

/// The text of a part of a message's content, where it is prose: a part of the type `text`,
/// `input_text` or `output_text` that has one.
pub open spec fn part_text(part: JsonView) -> Option<Seq<char>> {
    match text_at(part, "type"@) {
        Some(t) => if t == "text"@ || t == "input_text"@ || t == "output_text"@ {
            text_at(part, "text"@)
        } else {
            None
        },
        None => None,
    }
}

fn read_part(part: &Json) -> (r: Option<&String>)
    ensures
        match r {
            Some(s) => part_text(json_view(*part)) == Some(s@),
            None => part_text(json_view(*part)) is None,
        },
{
    match part.str_at("type") {
        Some(t) => {
            let t = t.as_str();
            if same(t, "text") || same(t, "input_text") || same(t, "output_text") {
                part.str_at("text")
            } else {
                None
            }
        },
        None => None,
    }
}

/// The texts of the parts that are prose, a line feed between them.
pub open spec fn parts_text(parts: Seq<JsonView>) -> Seq<char>
    decreases parts.len(),
{
    if parts.len() == 0 {
        Seq::empty()
    } else {
        let before = parts_text(parts.drop_last());
        match part_text(parts.last()) {
            Some(t) => if before.len() > 0 {
                before + seq!['\n'] + t
            } else {
                t
            },
            None => before,
        }
    }
}

/// The prose of a message's content: the content itself where it is a text, the texts of
/// its parts where it is a list.
pub open spec fn content_text(content: JsonView) -> Seq<char> {
    match content {
        JsonView::Text(s) => s,
        JsonView::List(parts) => parts_text(parts),
        _ => Seq::empty(),
    }
}

/// Pull plain prose out of a message `content` that may be a bare string or an
/// array of typed parts. Only `text`/`input_text`/`output_text` parts (all of
/// which carry a `text` field) are kept; tool calls, images, and model
/// "thinking" are dropped so the preview and search stay clean.
pub fn extract_text(content: &Json) -> (r: String)
    ensures
        r@ == content_text(json_view(*content)),
{
    match content {
        Json::Text(s) => s.clone(),
        Json::List(parts) => {
            let ghost view = json_view(*content)->List_0;
            let mut buf = String::new();
            assert(view.take(0) == Seq::<JsonView>::empty());
            for i in 0..parts.len()
                invariant
                    *content == Json::List(*parts),
                    view == json_view(*content)->List_0,
                    buf@ == parts_text(view.take(i as int)),
            {
                assert(view.take(i + 1).drop_last() == view.take(i as int));
                assert(view.take(i + 1).last() == json_view(parts@[i as int]));
                match read_part(&parts[i]) {
                    Some(t) => {
                        if !buf.as_str().is_empty() {
                            buf.push('\n');
                        }
                        buf.append(t.as_str());
                    },
                    None => {},
                }
            }
            assert(view.take(parts@.len() as int) == view);
            buf
        },
        _ => String::new(),
    }
}

/// What stands between the first `<tag>` and the first `</tag>` behind it, trimmed.
pub open spec fn tag_in(text: Seq<char>, tag: Seq<char>) -> Option<Seq<char>> {
    let open = "<"@ + tag + ">"@;
    let close = "</"@ + tag + ">"@;
    match find_from(text, open, 0) {
        Some(i) => match find_from(text, close, i + open.len()) {
            Some(k) => Some(trimmed(text.subrange(i + open.len(), k))),
            None => None,
        },
        None => None,
    }
}

/// Extract the inner text of `<tag>...</tag>` from a blob, if present.
pub fn extract_tag(text: &str, tag: &str) -> (r: Option<String>)
    ensures
        r.deep_view() == tag_in(text@, tag@),
{
    let open = cat3("<", tag, ">");
    let close = cat3("</", tag, ">");
    let cs = chars_of(text);
    let os = chars_of(open.as_str());
    let es = chars_of(close.as_str());
    let n = cs.len();
    let start = match find_chars(&cs, &os, 0) {
        Some(i) => {
            assert(i + os@.len() <= n);
            i + os.len()
        },
        None => {
            return None;
        },
    };
    match find_chars(&cs, &es, start) {
        Some(end) => {
            proof {
                lemma_find_from(text@, es@, start as int);
            }
            let inner = string_between(&cs, start, end);
            Some(trim(inner.as_str()))
        },
        None => None,
    }
}

/// The directory of the file with each `-` read as `/`.
pub open spec fn dir_slug(path: Seq<char>) -> Seq<char> {
    match parent_of(path) {
        Some(dir) => replaced(base_name_of(dir), '-', '/'),
        None => Seq::empty(),
    }
}

/// Fallback when a file carries no `cwd`: the directory name is the cwd
/// with `/` encoded as `-` (e.g. `-Users-u-Desktop-x`).
pub fn decode_dir_slug(path: &str) -> (r: String)
    ensures
        r@ == dir_slug(path@),
{
    match parent(path) {
        Some(dir) => {
            let name = base_name(dir.as_str());
            replace_char(name.as_str(), '-', '/')
        },
        None => {
            assert(dir_slug(path@) == Seq::<char>::empty());
            String::new()
        },
    }
}

// ---- what both kinds of transcript share --------------------------------------------------

/// The text of a member, or nothing at all.
pub open spec fn text_under(j: JsonView, key: Seq<char>) -> Seq<char> {
    match text_at(j, key) {
        Some(s) => s,
        None => Seq::empty(),
    }
}

fn str_under(j: &Json, key: &str) -> (r: String)
    ensures
        r@ == text_under(json_view(*j), key@),
{
    match j.str_at(key) {
        Some(s) => s.clone(),
        None => String::new(),
    }
}

/// The time of a record, where it carries one that can be read.
pub open spec fn stamp_of(j: JsonView) -> Option<int> {
    match text_at(j, "timestamp"@) {
        Some(s) => iso_epoch(encode_utf8(s)),
        None => None,
    }
}

/// The latest time among the records, or zero where none is later.
pub open spec fn latest(records: Seq<JsonView>) -> int
    decreases records.len(),
{
    if records.len() == 0 {
        0
    } else {
        let before = latest(records.drop_last());
        match stamp_of(records.last()) {
            Some(t) if t > before => t,
            _ => before,
        }
    }
}

fn later(last: i64, j: &Json) -> (r: i64)
    ensures
        r == match stamp_of(json_view(*j)) {
            Some(t) => if t > last {
                t
            } else {
                last as int
            },
            None => last as int,
        },
{
    match j.str_at("timestamp") {
        Some(s) => match parse_iso_epoch(s.as_str()) {
            Some(t) => if t > last {
                t
            } else {
                last
            },
            None => last,
        },
        None => last,
    }
}

/// A turn of the conversation, unless it is blank or no prose of the user.
pub open spec fn turn_of(role: Seq<char>, text: Seq<char>) -> Option<MessageView> {
    if trimmed(text).len() == 0 || (role == "user"@ && !prose(text)) {
        None
    } else {
        Some(MessageView { role, text })
    }
}

fn make_turn(role: String, text: String) -> (r: Option<Message>)
    ensures
        r.deep_view() == turn_of(role@, text@),
{
    if is_blank(text.as_str()) || (same(role.as_str(), "user") && !is_prose(text.as_str())) {
        None
    } else {
        Some(Message { role, text })
    }
}

/// The first message of the user.
pub open spec fn first_user(messages: Seq<MessageView>) -> Option<Seq<char>>
    decreases messages.len(),
{
    if messages.len() == 0 {
        None
    } else if messages[0].role == "user"@ {
        Some(messages[0].text)
    } else {
        first_user(messages.drop_first())
    }
}

fn find_user(messages: &Vec<Message>) -> (r: Option<String>)
    ensures
        r.deep_view() == first_user(messages.deep_view()),
{
    let ghost view = messages.deep_view();
    let mut i: usize = 0;
    assert(view.skip(0) == view);
    while i < messages.len()
        invariant
            i <= messages@.len(),
            view == messages.deep_view(),
            first_user(view) == first_user(view.skip(i as int)),
        decreases messages@.len() - i,
    {
        assert(view.skip(i as int)[0] == messages@[i as int].deep_view());
        assert(view.skip(i as int).drop_first() == view.skip(i + 1));
        if same(messages[i].role.as_str(), "user") {
            return Some(messages[i].text.clone());
        }
        i = i + 1;
    }
    None
}

/// The time of a session: that of its latest record, or that of its file.
pub open spec fn activity(latest: int, mtime: i64) -> i64 {
    if latest == 0 {
        mtime
    } else {
        latest as i64
    }
}

// ---- transcripts of the first agent ---------------------------------------------------------------------

/// The working directory: the first one that a record names.
pub open spec fn claude_cwd(records: Seq<JsonView>) -> Seq<char>
    decreases records.len(),
{
    if records.len() == 0 {
        Seq::empty()
    } else {
        let before = claude_cwd(records.drop_last());
        if before.len() > 0 {
            before
        } else {
            text_under(records.last(), "cwd"@)
        }
    }
}

/// The title that the agent gave: the last one counts.
pub open spec fn claude_name(records: Seq<JsonView>) -> Seq<char>
    decreases records.len(),
{
    if records.len() == 0 {
        Seq::empty()
    } else if text_under(records.last(), "type"@) == "ai-title"@ && text_at(
        records.last(),
        "aiTitle"@,
    ) is Some {
        text_under(records.last(), "aiTitle"@)
    } else {
        claude_name(records.drop_last())
    }
}

/// The turn that a record holds, where it holds one.
pub open spec fn claude_turn(j: JsonView) -> Option<MessageView> {
    let ty = text_under(j, "type"@);
    if ty != "user"@ && ty != "assistant"@ {
        None
    } else {
        match member_of(j, "message"@) {
            Some(msg) => {
                let role = match text_at(msg, "role"@) {
                    Some(s) => s,
                    None => ty,
                };
                let text = match member_of(msg, "content"@) {
                    Some(c) => content_text(c),
                    None => Seq::empty(),
                };
                turn_of(role, text)
            },
            None => None,
        }
    }
}

/// The turns of the conversation.
pub open spec fn claude_turns(records: Seq<JsonView>) -> Seq<MessageView>
    decreases records.len(),
{
    if records.len() == 0 {
        Seq::empty()
    } else {
        match claude_turn(records.last()) {
            Some(m) => claude_turns(records.drop_last()).push(m),
            None => claude_turns(records.drop_last()),
        }
    }
}

/// The session that the records of the transcript at `path` make up.
pub open spec fn claude_session(
    path: Seq<char>,
    id: Seq<char>,
    records: Seq<JsonView>,
    mtime: i64,
) -> SessionView {
    let turns = claude_turns(records);
    let cwd = claude_cwd(records);
    session_of(
        Backend::Claude,
        id,
        session_title(claude_name(records), first_user(turns), id),
        if cwd.len() > 0 {
            cwd
        } else {
            dir_slug(path)
        },
        activity(latest(records), mtime),
        turns,
    )
}

fn read_claude_turn(j: &Json) -> (r: Option<Message>)
    ensures
        r.deep_view() == claude_turn(json_view(*j)),
{
    let ty = str_under(j, "type");
    if !same(ty.as_str(), "user") && !same(ty.as_str(), "assistant") {
        return None;
    }
    match j.get("message") {
        Some(msg) => {
            let role = match msg.str_at("role") {
                Some(s) => s.clone(),
                None => ty,
            };
            let text = match msg.get("content") {
                Some(c) => extract_text(c),
                None => String::new(),
            };
            make_turn(role, text)
        },
        None => None,
    }
}

/// The session that the records of the first agent's transcript make up. `path` is where the file
/// is, `id` its stem, `mtime` when it was last changed.
pub fn claude_records(path: &str, id: String, records: &Vec<Json>, mtime: i64) -> (r: Session)
    ensures
        r.deep_view() == claude_session(path@, id@, records.deep_view(), mtime),
{
    let scan = scan_claude(records);
    finish_claude(path, id, scan, mtime)
}

/// What one walk over the records of the first agent's transcript collects.
struct ClaudeScan {
    cwd: String,
    name: String,
    turns: Vec<Message>,
    first: Option<String>,
    last: i64,
}

spec fn scanned_claude(scan: ClaudeScan, records: Seq<JsonView>) -> bool {
    &&& scan.cwd@ == claude_cwd(records)
    &&& scan.name@ == claude_name(records)
    &&& scan.turns.deep_view() == claude_turns(records)
    &&& scan.first.deep_view() == first_user(claude_turns(records))
    &&& scan.last == latest(records)
}

fn scan_claude(records: &Vec<Json>) -> (r: ClaudeScan)
    ensures
        scanned_claude(r, records.deep_view()),
{
    let ghost view = records.deep_view();
    let mut cwd = String::new();
    let mut name = String::new();
    let mut turns: Vec<Message> = Vec::new();
    let mut last: i64 = 0;
    assert(view.take(0) == Seq::<JsonView>::empty());
    assert(turns.deep_view() == Seq::<MessageView>::empty());
    for i in 0..records.len()
        invariant
            view == records.deep_view(),
            cwd@ == claude_cwd(view.take(i as int)),
            name@ == claude_name(view.take(i as int)),
            turns.deep_view() == claude_turns(view.take(i as int)),
            last == latest(view.take(i as int)),
    {
        let ghost before = turns.deep_view();
        let v = &records[i];
        assert(view.take(i + 1).drop_last() == view.take(i as int));
        assert(view.take(i + 1).last() == json_view(*v));
        let ty = str_under(v, "type");
        if cwd.as_str().is_empty() {
            cwd = str_under(v, "cwd");
        }
        if same(ty.as_str(), "ai-title") {
            match v.str_at("aiTitle") {
                Some(t) => {
                    name = t.clone();
                },
                None => {},
            }
        }
        last = later(last, v);
        match read_claude_turn(v) {
            Some(m) => {
                turns.push(m);
                assert(turns.deep_view() == before.push(m.deep_view()));
            },
            None => {},
        }
    }
    assert(view.take(records@.len() as int) == view);
    let first = find_user(&turns);
    ClaudeScan { cwd, name, turns, first, last }
}

fn as_text(s: &Option<String>) -> (r: Option<&str>)
    ensures
        r.deep_view() == s.deep_view(),
{
    match s {
        Some(t) => Some(t.as_str()),
        None => None,
    }
}

fn finish_claude(path: &str, id: String, scan: ClaudeScan, mtime: i64) -> (r: Session)
    ensures
        forall|records: Seq<JsonView>| #[trigger]
            scanned_claude(scan, records) ==> r.deep_view() == claude_session(
                path@,
                id@,
                records,
                mtime,
            ),
{
    let cwd = if scan.cwd.as_str().is_empty() {
        decode_dir_slug(path)
    } else {
        scan.cwd.clone()
    };
    let last = if scan.last == 0 {
        mtime
    } else {
        scan.last
    };
    let title = make_title(scan.name.as_str(), as_text(&scan.first), id.as_str());
    finalize(Backend::Claude, id, title, cwd, last, scan.turns)
}

/// Parse the first agent's transcript at `path` that holds `bytes`. There is no session where the
/// path names no file.
pub fn parse_claude_file(path: &str, bytes: &[u8], mtime: i64) -> (r: Option<Session>)
    ensures
        r.deep_view() == match file_stem_of(path@) {
            Some(id) => Some(claude_session(path@, id, records_in(bytes@), mtime)),
            None => None,
        },
{
    let id = match file_stem(path) {
        Some(id) => id,
        None => {
            return None;
        },
    };
    let records = read_lines(bytes);
    let scan = scan_claude(&records);
    Some(finish_claude(path, id, scan, mtime))
}

// ---- transcripts of the second agent ------------------------------------------------------------------------

/// Records may be flat or wrapped under `payload`.
pub open spec fn payload_of(j: JsonView) -> JsonView {
    match member_of(j, "payload"@) {
        Some(p) => p,
        None => j,
    }
}

/// The type of a record, failing that of its payload.
pub open spec fn codex_type(j: JsonView) -> Seq<char> {
    match text_at(j, "type"@) {
        Some(s) => s,
        None => text_under(payload_of(j), "type"@),
    }
}

/// What the tag `cwd` in a text holds.
pub open spec fn tagged_cwd(text: Seq<char>) -> Seq<char> {
    match tag_in(text, "cwd"@) {
        Some(c) => c,
        None => Seq::empty(),
    }
}

/// The first of two texts that holds something.
pub open spec fn first_of(a: Seq<char>, b: Seq<char>) -> Seq<char> {
    if a.len() > 0 {
        a
    } else {
        b
    }
}

/// What the environment record of an older format holds.
pub open spec fn environment_text(j: JsonView) -> Seq<char> {
    if has_text(codex_type(j), "environment"@) {
        let payload = payload_of(j);
        match member_of(payload, "content"@) {
            Some(c) => content_text(c),
            None => content_text(payload),
        }
    } else {
        Seq::empty()
    }
}

/// The role and the text of a record that is part of the conversation.
pub open spec fn spoken(j: JsonView) -> Option<(Seq<char>, Seq<char>)> {
    let payload = payload_of(j);
    match (text_at(payload, "role"@), member_of(payload, "content"@)) {
        (Some(role), Some(content)) => Some((role, content_text(content))),
        _ => None,
    }
}

/// The working directory that a record names: in a member of its own, failing that in a
/// tag of the environment, failing that in a tag of what was said.
pub open spec fn codex_cwd_in(j: JsonView) -> Seq<char> {
    let own = text_under(payload_of(j), "cwd"@);
    let environment = tagged_cwd(environment_text(j));
    let said = match spoken(j) {
        Some(t) => if trimmed(t.1).len() > 0 {
            tagged_cwd(t.1)
        } else {
            Seq::empty()
        },
        None => Seq::empty(),
    };
    first_of(own, first_of(environment, said))
}

/// The name that a record gives: that under `name`, or under `title` where there is no
/// `name` at all.
pub open spec fn codex_name_in(j: JsonView) -> Seq<char> {
    let payload = payload_of(j);
    let named = match member_of(payload, "name"@) {
        Some(n) => Some(n),
        None => member_of(payload, "title"@),
    };
    match named {
        Some(JsonView::Text(s)) => s,
        _ => Seq::empty(),
    }
}

/// The working directory: the first one that a record names.
pub open spec fn codex_cwd(records: Seq<JsonView>) -> Seq<char>
    decreases records.len(),
{
    if records.len() == 0 {
        Seq::empty()
    } else {
        first_of(codex_cwd(records.drop_last()), codex_cwd_in(records.last()))
    }
}

/// The name: the first one that a record gives.
pub open spec fn codex_name(records: Seq<JsonView>) -> Seq<char>
    decreases records.len(),
{
    if records.len() == 0 {
        Seq::empty()
    } else {
        first_of(codex_name(records.drop_last()), codex_name_in(records.last()))
    }
}

/// The id: the first one that a record gives.
pub open spec fn codex_id(records: Seq<JsonView>) -> Seq<char>
    decreases records.len(),
{
    if records.len() == 0 {
        Seq::empty()
    } else {
        first_of(codex_id(records.drop_last()), text_under(payload_of(records.last()), "id"@))
    }
}

/// The turn that a record holds, where it holds one.
pub open spec fn codex_turn(j: JsonView) -> Option<MessageView> {
    match spoken(j) {
        Some(t) => turn_of(t.0, t.1),
        None => None,
    }
}

/// The turns of the conversation.
pub open spec fn codex_turns(records: Seq<JsonView>) -> Seq<MessageView>
    decreases records.len(),
{
    if records.len() == 0 {
        Seq::empty()
    } else {
        match codex_turn(records.last()) {
            Some(m) => codex_turns(records.drop_last()).push(m),
            None => codex_turns(records.drop_last()),
        }
    }
}

/// The id in a file's stem `rollout-<time>-<uuid>`: its last five pieces.
pub open spec fn id_in_stem(stem: Seq<char>) -> Seq<char> {
    let parts = pieces(stem, '-');
    let tail = if parts.len() > 5 {
        parts.skip(parts.len() - 5)
    } else {
        parts
    };
    first_of(joined(tail, "-"@), stem)
}

/// The id of the session: the one in the records, failing that the one in the file's stem.
pub open spec fn codex_session_id(path: Seq<char>, records: Seq<JsonView>) -> Option<Seq<char>> {
    if codex_id(records).len() > 0 {
        Some(codex_id(records))
    } else {
        match file_stem_of(path) {
            Some(stem) => Some(id_in_stem(stem)),
            None => None,
        }
    }
}

/// The session that the records of a transcript make up.
pub open spec fn codex_session(id: Seq<char>, records: Seq<JsonView>, mtime: i64) -> SessionView {
    let turns = codex_turns(records);
    session_of(
        Backend::Codex,
        id,
        session_title(codex_name(records), first_user(turns), id),
        codex_cwd(records),
        activity(latest(records), mtime),
        turns,
    )
}

fn payload(j: &Json) -> (r: &Json)
    ensures
        json_view(*r) == payload_of(json_view(*j)),
{
    match j.get("payload") {
        Some(p) => p,
        None => j,
    }
}

fn find_tagged(text: &str) -> (r: String)
    ensures
        r@ == tagged_cwd(text@),
{
    match extract_tag(text, "cwd") {
        Some(c) => c,
        None => String::new(),
    }
}

fn read_environment(j: &Json) -> (r: String)
    ensures
        r@ == environment_text(json_view(*j)),
{
    let body = payload(j);
    let ty = match j.str_at("type") {
        Some(s) => s.clone(),
        None => str_under(body, "type"),
    };
    if holds(ty.as_str(), "environment") {
        match body.get("content") {
            Some(c) => extract_text(c),
            None => extract_text(body),
        }
    } else {
        String::new()
    }
}

fn read_spoken(j: &Json) -> (r: Option<(String, String)>)
    ensures
        r.deep_view() == spoken(json_view(*j)),
{
    let body = payload(j);
    match (body.str_at("role"), body.get("content")) {
        (Some(role), Some(content)) => Some((role.clone(), extract_text(content))),
        _ => None,
    }
}

fn read_codex_cwd(j: &Json, said: &Option<(String, String)>) -> (r: String)
    requires
        said.deep_view() == spoken(json_view(*j)),
    ensures
        r@ == codex_cwd_in(json_view(*j)),
{
    let own = str_under(payload(j), "cwd");
    if !own.as_str().is_empty() {
        return own;
    }
    let environment = read_environment(j);
    let tagged = find_tagged(environment.as_str());
    if !tagged.as_str().is_empty() {
        return tagged;
    }
    match said {
        Some(t) => {
            if !is_blank(t.1.as_str()) {
                find_tagged(t.1.as_str())
            } else {
                String::new()
            }
        },
        None => String::new(),
    }
}

fn read_codex_name(j: &Json) -> (r: String)
    ensures
        r@ == codex_name_in(json_view(*j)),
{
    let body = payload(j);
    let named = match body.get("name") {
        Some(n) => Some(n),
        None => body.get("title"),
    };
    match named {
        Some(Json::Text(s)) => s.clone(),
        _ => String::new(),
    }
}

/// What one walk over the records of the second agent's transcript collects.
struct CodexScan {
    id: String,
    cwd: String,
    name: String,
    turns: Vec<Message>,
    first: Option<String>,
    last: i64,
}

spec fn scanned_codex(scan: CodexScan, records: Seq<JsonView>) -> bool {
    &&& scan.id@ == codex_id(records)
    &&& scan.cwd@ == codex_cwd(records)
    &&& scan.name@ == codex_name(records)
    &&& scan.turns.deep_view() == codex_turns(records)
    &&& scan.first.deep_view() == first_user(codex_turns(records))
    &&& scan.last == latest(records)
}

fn scan_codex(records: &Vec<Json>) -> (r: CodexScan)
    ensures
        scanned_codex(r, records.deep_view()),
{
    let ghost view = records.deep_view();
    let mut id = String::new();
    let mut cwd = String::new();
    let mut name = String::new();
    let mut turns: Vec<Message> = Vec::new();
    let mut last: i64 = 0;
    assert(view.take(0) == Seq::<JsonView>::empty());
    assert(turns.deep_view() == Seq::<MessageView>::empty());
    for i in 0..records.len()
        invariant
            view == records.deep_view(),
            id@ == codex_id(view.take(i as int)),
            cwd@ == codex_cwd(view.take(i as int)),
            name@ == codex_name(view.take(i as int)),
            turns.deep_view() == codex_turns(view.take(i as int)),
            last == latest(view.take(i as int)),
    {
        let ghost before = turns.deep_view();
        let v = &records[i];
        assert(view.take(i + 1).drop_last() == view.take(i as int));
        assert(view.take(i + 1).last() == json_view(*v));
        last = later(last, v);
        let said = read_spoken(v);
        if id.as_str().is_empty() {
            id = str_under(payload(v), "id");
        }
        if cwd.as_str().is_empty() {
            cwd = read_codex_cwd(v, &said);
        }
        if name.as_str().is_empty() {
            name = read_codex_name(v);
        }
        match said {
            Some((role, text)) => match make_turn(role, text) {
                Some(m) => {
                    turns.push(m);
                    assert(turns.deep_view() == before.push(m.deep_view()));
                },
                None => {},
            },
            None => {},
        }
    }
    assert(view.take(records@.len() as int) == view);
    let first = find_user(&turns);
    CodexScan { id, cwd, name, turns, first, last }
}

/// The id in a file's stem.
fn stem_id(stem: &str) -> (r: String)
    ensures
        r@ == id_in_stem(stem@),
{
    let parts = split(stem, '-');
    let ghost view = parts.deep_view();
    let n = parts.len();
    let from: usize = if n > 5 {
        n - 5
    } else {
        0
    };
    let mut tail: Vec<String> = Vec::new();
    for i in from..n
        invariant
            from <= i <= n,
            n == parts@.len(),
            view == parts.deep_view(),
            tail.deep_view() == view.subrange(from as int, i as int),
    {
        let ghost before = tail.deep_view();
        let part = parts[i].clone();
        tail.push(part);
        assert(tail.deep_view() == before.push(part@));
        assert(view.subrange(from as int, i + 1) == before.push(view[i as int]));
    }
    assert(view.subrange(0, n as int) == view);
    assert(view.skip(from as int) == view.subrange(from as int, n as int));
    let id = crate::text::join(&tail, "-");
    if id.as_str().is_empty() {
        stem.to_owned()
    } else {
        id
    }
}

fn finish_codex(id: String, scan: CodexScan, mtime: i64) -> (r: Session)
    ensures
        forall|records: Seq<JsonView>| #[trigger]
            scanned_codex(scan, records) ==> r.deep_view() == codex_session(id@, records, mtime),
{
    let last = if scan.last == 0 {
        mtime
    } else {
        scan.last
    };
    let title = make_title(scan.name.as_str(), as_text(&scan.first), id.as_str());
    finalize(Backend::Codex, id, title, scan.cwd, last, scan.turns)
}

/// The session that the records of the second agent's transcript make up, under the given id;
/// `mtime` is when the file was last changed.
pub fn codex_records(id: String, records: &Vec<Json>, mtime: i64) -> (r: Session)
    ensures
        r.deep_view() == codex_session(id@, records.deep_view(), mtime),
{
    let scan = scan_codex(records);
    finish_codex(id, scan, mtime)
}

/// Parse the second agent's transcript at `path` that holds `bytes`. There is no session where
/// neither the records nor the path give it an id.
pub fn parse_codex_file(path: &str, bytes: &[u8], mtime: i64) -> (r: Option<Session>)
    ensures
        r.deep_view() == match codex_session_id(path@, records_in(bytes@)) {
            Some(id) => Some(codex_session(id, records_in(bytes@), mtime)),
            None => None,
        },
{
    let records = read_lines(bytes);
    let scan = scan_codex(&records);
    let id = if scan.id.as_str().is_empty() {
        match file_stem(path) {
            Some(stem) => stem_id(stem.as_str()),
            None => {
                return None;
            },
        }
    } else {
        scan.id.clone()
    };
    Some(finish_codex(id, scan, mtime))
}

// ---- what holds of every session ----------------------------------------------------------------

/// Every turn that is kept holds more than white space, and a turn of the user is prose.
pub open spec fn turns_are_clean(turns: Seq<MessageView>) -> bool {
    forall|i: int|
        0 <= i < turns.len() ==> trimmed((#[trigger] turns[i]).text).len() > 0 && (turns[i].role
            == "user"@ ==> prose(turns[i].text))
}

/// Blank turns, and turns of the user that are no prose, never reach a session.
pub proof fn law_turns_are_clean(records: Seq<JsonView>)
    ensures
        turns_are_clean(claude_turns(records)),
        turns_are_clean(codex_turns(records)),
    decreases records.len(),
{
    if records.len() > 0 {
        law_turns_are_clean(records.drop_last());
    }
}

/// The latest time is no earlier than that of any record.
pub proof fn law_latest_covers(records: Seq<JsonView>, i: int)
    requires
        0 <= i < records.len(),
    ensures
        stamp_of(records[i]) matches Some(t) ==> t <= latest(records),
        0 <= latest(records),
    decreases records.len(),
{
    if i < records.len() - 1 {
        law_latest_covers(records.drop_last(), i);
        assert(records.drop_last()[i] == records[i]);
    } else if records.len() > 1 {
        law_latest_covers(records.drop_last(), 0);
    } else {
        assert(latest(records.drop_last()) == 0);
    }
    assert(0 <= latest(records.drop_last()));
}

proof fn lemma_first_filled(parts: Seq<Seq<char>>, k: int)
    requires
        0 <= k < parts.len(),
        trimmed(parts[k]).len() > 0,
    ensures
        trimmed(first_filled(parts)).len() > 0,
    decreases parts.len(),
{
    if trimmed(parts[0]).len() == 0 {
        assert(parts.drop_first()[k - 1] == parts[k]);
        lemma_first_filled(parts.drop_first(), k - 1);
    }
}

/// The title made of a text that holds more than white space holds something, and is at
/// most one character longer than the limit.
pub proof fn law_title_is_filled(s: Seq<char>)
    requires
        trimmed(s).len() > 0,
    ensures
        0 < title_of(s).len() <= TITLE_MAX + 1,
{
    let i = lemma_filled_trimmed(s);
    assert(s.contains(s[i]));
    lemma_piece_with(s, '\n', s[i]);
    let parts = pieces(s, '\n');
    let k = choose|k: int| 0 <= k < parts.len() && (#[trigger] parts[k]).contains(s[i]);
    let j = choose|j: int| 0 <= j < parts[k].len() && parts[k][j] == s[i];
    lemma_trimmed_filled(parts[k], j);
    lemma_first_filled(parts, k);
    reveal_strlit("…");
}

proof fn lemma_first_user(turns: Seq<MessageView>)
    requires
        turns_are_clean(turns),
    ensures
        first_user(turns) matches Some(p) ==> trimmed(p).len() > 0,
    decreases turns.len(),
{
    if turns.len() > 0 && turns[0].role != "user"@ {
        assert forall|i: int| 0 <= i < turns.drop_first().len() implies trimmed(
            (#[trigger] turns.drop_first()[i]).text,
        ).len() > 0 && (turns.drop_first()[i].role == "user"@ ==> prose(
            turns.drop_first()[i].text,
        )) by {
            assert(turns.drop_first()[i] == turns[i + 1]);
        }
        lemma_first_user(turns.drop_first());
    }
}

/// A session has an id and a title, unless the agent named it with white space alone.
pub proof fn law_sessions_are_named(path: Seq<char>, records: Seq<JsonView>)
    ensures
        file_stem_of(path) matches Some(id) ==> id.len() > 0 && (claude_name(records).len() == 0
            || trimmed(claude_name(records)).len() > 0 ==> session_title(
            claude_name(records),
            first_user(claude_turns(records)),
            id,
        ).len() > 0),
        codex_session_id(path, records) matches Some(id) ==> id.len() > 0 && (codex_name(
            records,
        ).len() == 0 || trimmed(codex_name(records)).len() > 0 ==> session_title(
            codex_name(records),
            first_user(codex_turns(records)),
            id,
        ).len() > 0),
{
    law_names_are_filled(path);
    law_turns_are_clean(records);
    lemma_first_user(claude_turns(records));
    lemma_first_user(codex_turns(records));
    reveal_strlit("(session ");
    match first_user(claude_turns(records)) {
        Some(p) => {
            law_title_is_filled(p);
        },
        None => {},
    }
    match first_user(codex_turns(records)) {
        Some(p) => {
            law_title_is_filled(p);
        },
        None => {},
    }
    if trimmed(claude_name(records)).len() > 0 {
        law_title_is_filled(claude_name(records));
    }
    if trimmed(codex_name(records)).len() > 0 {
        law_title_is_filled(codex_name(records));
    }
}

proof fn lemma_blob_holds(messages: Seq<MessageView>, i: int) -> (at: int)
    requires
        0 <= i < messages.len(),
    ensures
        occurs_at(message_blob(messages), lowercase(messages[i].text), at),
    decreases messages.len(),
{
    let blob = message_blob(messages);
    let front = message_blob(messages.drop_last());
    let low = lowercase(messages[i].text);
    if i == messages.len() - 1 {
        let at = front.len() as int + 1;
        assert(blob.subrange(at, at + low.len()) == low);
        at
    } else {
        assert(messages.drop_last()[i] == messages[i]);
        let at = lemma_blob_holds(messages.drop_last(), i);
        assert(blob.subrange(at, at + low.len()) == front.subrange(at, at + low.len()));
        at
    }
}

/// The search text of a session holds its title, its directory, its space and each of its
/// messages, all lower-cased.
pub proof fn law_search_covers_session(
    backend: Backend,
    id: Seq<char>,
    title: Seq<char>,
    cwd: Seq<char>,
    last: i64,
    messages: Seq<MessageView>,
)
    ensures
        ({
            let blob = session_of(backend, id, title, cwd, last, messages).search_blob;
            &&& has_text(blob, lowercase(title))
            &&& has_text(blob, lowercase(cwd))
            &&& has_text(blob, lowercase(space_name(cwd)))
            &&& forall|i: int|
                0 <= i < messages.len() ==> has_text(
                    blob,
                    lowercase((#[trigger] messages[i]).text),
                )
        }),
{
    let blob = session_of(backend, id, title, cwd, last, messages).search_blob;
    let head = lowercase(title);
    let body = message_blob(messages);
    let dir = lowercase(cwd);
    let space = lowercase(space_name(cwd));
    assert(blob.subrange(0, head.len() as int) == head);
    assert(occurs_at(blob, head, 0));
    let d = (head.len() + body.len() + 1) as int;
    assert(blob.subrange(d, d + dir.len()) == dir);
    assert(occurs_at(blob, dir, d));
    let e = d + dir.len() + 1;
    assert(blob.subrange(e, e + space.len()) == space);
    assert(occurs_at(blob, space, e));
    assert forall|i: int| 0 <= i < messages.len() implies has_text(
        blob,
        lowercase((#[trigger] messages[i]).text),
    ) by {
        let low = lowercase(messages[i].text);
        let at = lemma_blob_holds(messages, i);
        let m = head.len() + at;
        assert(blob.subrange(m, m + low.len()) == body.subrange(at, at + low.len()));
        assert(occurs_at(blob, low, m));
    }
}

} // verus!
