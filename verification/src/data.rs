//! Sessions, the space a session belongs to, and the times they carry.

use crate::names::{AgentNames, AgentNamesView, CODEX_LABEL};
use crate::text::{
    cat, decimal, decimal_of, has_text, holds, keep_nonempty, nonempty, pieces, same, split,
};
use vstd::prelude::*;
use vstd::utf8::encode_utf8;

verus! {

// ---- sessions -------------------------------------------------------------------

#[derive(Clone, Copy, PartialEq, Eq, Debug, Structural)]
pub enum Backend {
    Claude,
    Codex,
}

/// What a backend is called on screen.
pub open spec fn backend_label(b: Backend, names: AgentNamesView) -> Seq<char> {
    match b {
        Backend::Claude => names.label,
        Backend::Codex => CODEX_LABEL@,
    }
}

impl Backend {
    pub fn label(self, names: &AgentNames) -> (r: &str)
        ensures
            r@ == backend_label(self, names.deep_view()),
    {
        match self {
            Backend::Claude => names.label.as_str(),
            Backend::Codex => CODEX_LABEL,
        }
    }
}

#[derive(Clone, Debug)]
pub struct Message {
    pub role: String,
    pub text: String,
}

/// A message as text.
#[verifier::ext_equal]
pub struct MessageView {
    pub role: Seq<char>,
    pub text: Seq<char>,
}

impl DeepView for Message {
    type V = MessageView;

    open spec fn deep_view(&self) -> MessageView {
        MessageView { role: self.role@, text: self.text@ }
    }
}

#[derive(Clone, Debug)]
pub struct Session {
    pub backend: Backend,
    /// Id under which the agent resumes it (filename stem or in-file id).
    pub id: String,
    pub title: String,
    pub cwd: String,
    /// The "space": the folder the cwd lives under (e.g. `proj`, `toolbox`).
    pub space: String,
    /// Epoch seconds of last activity; drives sort order and the "when" column.
    pub last_activity: i64,
    pub messages: Vec<Message>,
    pub msg_count: usize,
    /// Pre-lowercased haystack for substring search.
    pub search_blob: String,
}

/// A session as text and numbers.
#[verifier::ext_equal]
pub struct SessionView {
    pub backend: Backend,
    pub id: Seq<char>,
    pub title: Seq<char>,
    pub cwd: Seq<char>,
    pub space: Seq<char>,
    pub last_activity: i64,
    pub messages: Seq<MessageView>,
    pub msg_count: usize,
    pub search_blob: Seq<char>,
}

impl DeepView for Session {
    type V = SessionView;

    open spec fn deep_view(&self) -> SessionView {
        SessionView {
            backend: self.backend,
            id: self.id@,
            title: self.title@,
            cwd: self.cwd@,
            space: self.space@,
            last_activity: self.last_activity,
            messages: self.messages.deep_view(),
            msg_count: self.msg_count,
            search_blob: self.search_blob@,
        }
    }
}

impl Session {
    /// Whether the search text of the session holds `needle_lower`.
    pub fn matches(&self, needle_lower: &str) -> (r: bool)
        ensures
            r == (needle_lower@.len() == 0 || has_text(self.search_blob@, needle_lower@)),
    {
        needle_lower.is_empty() || holds(self.search_blob.as_str(), needle_lower)
    }
}

// ---- the space of a directory ---------------------------------------------------------

/// The components of a path, without the empty ones.
pub open spec fn path_parts(path: Seq<char>) -> Seq<Seq<char>> {
    nonempty(pieces(path, '/'))
}

/// The first position at or after `i` where `parts` holds `x`.
pub open spec fn index_from(parts: Seq<Seq<char>>, x: Seq<char>, i: int) -> Option<int>
    decreases parts.len() - i,
{
    if i < 0 || i >= parts.len() {
        None
    } else if parts[i] == x {
        Some(i)
    } else {
        index_from(parts, x, i + 1)
    }
}

/// The component right under the first `Desktop` if there is one, otherwise the last
/// component, otherwise `~`.
pub open spec fn space_name(cwd: Seq<char>) -> Seq<char> {
    let parts = path_parts(cwd);
    let at = index_from(parts, "Desktop"@, 0);
    if at is Some && at->0 + 1 < parts.len() {
        parts[at->0 + 1]
    } else if parts.len() > 0 {
        parts.last()
    } else {
        "~"@
    }
}

/// The first position of `x` in `parts`.
pub fn position(parts: &Vec<String>, x: &str) -> (r: Option<usize>)
    ensures
        match r {
            Some(k) => k < parts@.len() && index_from(parts.deep_view(), x@, 0) == Some(k as int),
            None => index_from(parts.deep_view(), x@, 0) is None,
        },
{
    let mut i: usize = 0;
    while i < parts.len()
        invariant
            i <= parts@.len(),
            index_from(parts.deep_view(), x@, 0) == index_from(parts.deep_view(), x@, i as int),
        decreases parts@.len() - i,
    {
        assert(parts.deep_view()[i as int] == parts@[i as int]@);
        if same(parts[i].as_str(), x) {
            return Some(i);
        }
        i = i + 1;
    }
    None
}

/// The space a working directory belongs to: the component right under `Desktop`
/// if present, otherwise the directory's own name.
pub fn space_of(cwd: &str) -> (r: String)
    ensures
        r@ == space_name(cwd@),
{
    let all = split(cwd, '/');
    let parts = keep_nonempty(&all);
    let ghost view = parts.deep_view();
    let at = position(&parts, "Desktop");
    let n = parts.len();
    match at {
        Some(i) if i + 1 < n => {
            assert(view[i + 1] == parts@[i + 1]@);
            parts[i + 1].clone()
        },
        _ => {
            if n > 0 {
                assert(view[n - 1] == parts@[n - 1]@);
                parts[n - 1].clone()
            } else {
                "~".to_owned()
            }
        },
    }
}

// ---- time -------------------------------------------------------------------------

/// The clock reading as epoch seconds: `since_epoch` whole seconds past the epoch,
/// or nothing where the clock stands before it.
pub fn now_epoch(since_epoch: Option<u64>) -> (r: i64)
    ensures
        match since_epoch {
            Some(s) => if s <= i64::MAX { r == s } else { r == s - 0x1_0000_0000_0000_0000 },
            None => r == 0,
        },
{
    match since_epoch {
        Some(s) => {
            let r = s as i64;
            assert(s <= 0x7fff_ffff_ffff_ffffu64 ==> (s as i64) == s) by (bit_vector);
            assert(s > 0x7fff_ffff_ffff_ffffu64 ==> (s as i64) == s - 0x1_0000_0000_0000_0000) by (bit_vector);
            r
        },
        None => 0,
    }
}

/// Whether `y` is a leap year of the Gregorian calendar.
pub open spec fn is_leap(y: int) -> bool {
    y % 4 == 0 && (y % 100 != 0 || y % 400 == 0)
}

pub open spec fn year_days(y: int) -> int {
    if is_leap(y) {
        366
    } else {
        365
    }
}

pub open spec fn month_days(y: int, m: int) -> int {
    if m == 2 {
        if is_leap(y) {
            29
        } else {
            28
        }
    } else if m == 4 || m == 6 || m == 9 || m == 11 {
        30
    } else {
        31
    }
}

/// The days from 1970-01-01 to the first of January of the year `y`.
pub open spec fn year_start(y: int) -> int
    decreases (if y > 1970 { y - 1970 } else { 1970 - y }),
{
    if y == 1970 {
        0
    } else if y > 1970 {
        year_start(y - 1) + year_days(y - 1)
    } else {
        year_start(y + 1) - year_days(y)
    }
}

/// The days from the first of January to the first of the month `m` in the year `y`.
pub open spec fn month_start(y: int, m: int) -> int
    decreases m,
{
    if m <= 1 {
        0
    } else {
        month_start(y, m - 1) + month_days(y, m - 1)
    }
}

/// The days from 1970-01-01 to the day `d` of the month `m` in the year `y`.
pub open spec fn civil_day(y: int, m: int, d: int) -> int {
    year_start(y) + month_start(y, m) + d - 1
}

proof fn lemma_year_start(y: int)
    ensures
        year_start(y) == 365 * (y - 1) + (y - 1) / 4 - (y - 1) / 100 + (y - 1) / 400 - 719162,
    decreases (if y > 1970 { y - 1970 } else { 1970 - y }),
{
    if y == 1970 {
    } else if y > 1970 {
        lemma_year_start(y - 1);
    } else {
        lemma_year_start(y + 1);
    }
}

proof fn lemma_month_start(y: int, m: int)
    requires
        1 <= m <= 12,
    ensures
        month_start(y, m) == (if m > 2 {
            (153 * (m - 3) + 2) / 5 + 59 + (if is_leap(y) { 1int } else { 0int })
        } else {
            31 * (m - 1)
        }),
{
    reveal_with_fuel(month_start, 13);
}

proof fn lemma_step_4(y: int)
    ensures
        y / 4 - (y - 1) / 4 == (if y % 4 == 0 { 1int } else { 0int }),
{
}

proof fn lemma_step_100(y: int)
    ensures
        y / 100 - (y - 1) / 100 == (if y % 100 == 0 { 1int } else { 0int }),
{
}

proof fn lemma_step_400(y: int)
    ensures
        y / 400 - (y - 1) / 400 == (if y % 400 == 0 { 1int } else { 0int }),
{
}

proof fn lemma_century(y: int)
    ensures
        y % 400 == 0 ==> y % 100 == 0,
        y % 100 == 0 ==> y % 4 == 0,
{
    if y % 400 == 0 {
        let k = 4 * (y / 400);
        assert(y == k * 100);
        vstd::arithmetic::div_mod::lemma_mod_multiples_basic(k, 100);
    }
    if y % 100 == 0 {
        let k = 25 * (y / 100);
        assert(y == k * 4);
        vstd::arithmetic::div_mod::lemma_mod_multiples_basic(k, 4);
    }
}

proof fn lemma_era(y: int, era: int, yoe: int)
    requires
        era == y / 400,
        yoe == y % 400,
    ensures
        era * 146_097 + yoe * 365 + yoe / 4 - yoe / 100 == 365 * y + y / 4 - y / 100 + y / 400,
{
    assert(y == 400 * era + yoe);
    assert(y / 4 == 100 * era + yoe / 4);
    assert(y / 100 == 4 * era + yoe / 100);
}

/// Howard Hinnant's days-from-civil algorithm: the days from the first of January 1970 to the
/// day `d` of the month `m` in the year `y`. The day after a day of the calendar counts one
/// more.
pub fn days_from_civil(y: i64, m: i64, d: i64) -> (r: i64)
    requires
        -20_000_000_000_000_000 <= y <= 20_000_000_000_000_000,
        1 <= m <= 12,
        1 <= d <= 31,
    ensures
        r == civil_day(y as int, m as int, d as int),
        d <= month_days(y as int, m as int) ==> ({
            let next = next_date(y as int, m as int, d as int);
            civil_day(next.0, next.1, next.2) == r + 1
        }),
        y == 1970 && m == 1 && d == 1 ==> r == 0,
        0 <= y <= 9999 ==> -800_000 <= r <= 4_000_000,
{
    let ghost year = y as int;
    let y: i64 = if m <= 2 { y - 1 } else { y };
    // Eras of 400 years, rounded down.
    let era: i64 = if y >= 0 { y / 400 } else { -((399 - y) / 400) };
    assert(era == (y as int) / 400);
    let yoe: i64 = y - era * 400;
    let doy: i64 = (153 * (if m > 2 { m - 3 } else { m + 9 }) + 2) / 5 + d - 1;
    assert(0 <= yoe < 400);
    assert(0 <= doy <= 400);
    let doe: i64 = yoe * 365 + yoe / 4 - yoe / 100 + doy;
    proof {
        lemma_era(y as int, era as int, yoe as int);
        lemma_year_start(year);
        lemma_month_start(year, m as int);
        lemma_step_4(year);
        lemma_step_100(year);
        lemma_step_400(year);
        lemma_century(year);
        if m > 2 {
            assert(month_start(year, m as int) + d - 1 == doy + 59 + (if is_leap(year) {
                1int
            } else {
                0int
            }));
        } else {
            assert(month_start(year, m as int) + d - 1 + 306 == doy);
        }
        if d <= month_days(year, m as int) {
            law_days_are_consecutive(year, m as int, d as int);
        }
    }
    era * 146_097 + doe - 719_468
}

/// The day after the day `d` of the month `m` in the year `y`.
pub open spec fn next_date(y: int, m: int, d: int) -> (int, int, int) {
    if d < month_days(y, m) {
        (y, m, d + 1)
    } else if m < 12 {
        (y, m + 1, 1)
    } else {
        (y + 1, 1, 1)
    }
}

/// Days are counted one by one from the first of January 1970, in every year, before it
/// too.
pub proof fn law_days_are_consecutive(y: int, m: int, d: int)
    requires
        1 <= m <= 12,
        1 <= d <= month_days(y, m),
    ensures
        ({
            let next = next_date(y, m, d);
            civil_day(next.0, next.1, next.2) == civil_day(y, m, d) + 1
        }),
        civil_day(1970, 1, 1) == 0,
{
    assert(month_start(y, m + 1) == month_start(y, m) + month_days(y, m));
    assert(month_start(y, 13) == year_days(y)) by {
        reveal_with_fuel(month_start, 14);
    }
    assert(year_start(y + 1) == year_start(y) + year_days(y)) by {
        reveal_with_fuel(year_start, 2);
    }
}

fn days_in_month(y: i64, m: i64) -> (r: i64)
    requires
        0 <= y,
    ensures
        r == month_days(y as int, m as int),
{
    if m == 2 {
        if y % 4 == 0 && (y % 100 != 0 || y % 400 == 0) {
            29
        } else {
            28
        }
    } else if m == 4 || m == 6 || m == 9 || m == 11 {
        30
    } else {
        31
    }
}

/// The number that a run of ASCII digits writes, or nothing where another byte stands
/// in it.
pub open spec fn digits_value(b: Seq<u8>) -> Option<int>
    decreases b.len(),
{
    if b.len() == 0 {
        Some(0)
    } else {
        match digits_value(b.drop_last()) {
            Some(v) if 48 <= b.last() <= 57 => Some(v * 10 + (b.last() - 48)),
            _ => None,
        }
    }
}

/// The number written in `b[lo..hi]`.
pub open spec fn field(b: Seq<u8>, lo: int, hi: int) -> Option<int> {
    digits_value(b.subrange(lo, hi))
}

/// Whether `b` begins like `YYYY-MM-DDTHH:MM:SS` or `YYYY-MM-DD HH:MM:SS`, digits aside.
pub open spec fn has_iso_shape(b: Seq<u8>) -> bool {
    &&& b.len() >= 19
    &&& b[4] == 45
    &&& b[7] == 45
    &&& b[10] == 84 || b[10] == 32
    &&& b[13] == 58
    &&& b[16] == 58
}

/// Whether a day has the time `h:mi:s`, which may end in a leap second.
pub open spec fn is_time(h: int, mi: int, s: int) -> bool {
    h <= 23 && mi <= 59 && (s <= 59 || (h == 23 && mi == 59 && s == 60))
}

/// Epoch seconds of the timestamp that the bytes `b` begin with: the six numbers have
/// to be digits, the day one of the calendar and the time one of that day. A leap second, at
/// the end of a day, counts as the first second of the next.
pub open spec fn iso_epoch(b: Seq<u8>) -> Option<int> {
    if !has_iso_shape(b) {
        None
    } else {
        match (
            field(b, 0, 4),
            field(b, 5, 7),
            field(b, 8, 10),
            field(b, 11, 13),
            field(b, 14, 16),
            field(b, 17, 19),
        ) {
            (Some(y), Some(mo), Some(d), Some(h), Some(mi), Some(s)) => {
                if 1 <= mo <= 12 && 1 <= d <= month_days(y, mo) && is_time(h, mi, s) {
                    Some(civil_day(y, mo, d) * 86_400 + h * 3_600 + mi * 60 + s)
                } else {
                    None
                }
            },
            _ => None,
        }
    }
}

/// The number written in `b[lo..hi]`, for at most four digits.
fn num(b: &[u8], lo: usize, hi: usize) -> (r: Option<i64>)
    requires
        lo <= hi <= b@.len(),
        hi - lo <= 4,
    ensures
        match r {
            Some(v) => field(b@, lo as int, hi as int) == Some(v as int) && 0 <= v <= 9999,
            None => field(b@, lo as int, hi as int) is None,
        },
        hi - lo <= 2 ==> (r matches Some(v) ==> v <= 99),
{
    let mut v: i64 = 0;
    let mut i: usize = lo;
    let ghost whole = b@.subrange(lo as int, hi as int);
    assert(whole.take(0) == Seq::<u8>::empty());
    while i < hi
        invariant
            lo <= i <= hi <= b@.len(),
            hi - lo <= 4,
            whole == b@.subrange(lo as int, hi as int),
            digits_value(whole.take(i - lo)) == Some(v as int),
            i == lo ==> v == 0,
            i == lo + 1 ==> 0 <= v <= 9,
            i == lo + 2 ==> 0 <= v <= 99,
            i == lo + 3 ==> 0 <= v <= 999,
            i == lo + 4 ==> 0 <= v <= 9999,
        decreases hi - i,
    {
        let c = b[i];
        assert(whole.take(i - lo + 1).drop_last() == whole.take(i - lo));
        assert(whole.take(i - lo + 1).last() == c);
        if c < 48 || c > 57 {
            proof {
                lemma_digits_prefix(whole, i - lo + 1);
            }
            return None;
        }
        v = v * 10 + (c - 48) as i64;
        i = i + 1;
    }
    assert(whole.take(hi - lo) == whole);
    Some(v)
}

/// A run of digits is a number only if each of its beginnings is one.
proof fn lemma_digits_prefix(b: Seq<u8>, n: int)
    requires
        0 <= n <= b.len(),
        digits_value(b.take(n)) is None,
    ensures
        digits_value(b) is None,
    decreases b.len(),
{
    if n == b.len() {
        assert(b.take(n) == b);
    } else {
        assert(b.drop_last().take(n) == b.take(n));
        lemma_digits_prefix(b.drop_last(), n);
    }
}

/// Parse an RFC-3339 UTC timestamp (`YYYY-MM-DDTHH:MM:SS...`) to epoch seconds.
/// Returns `None` on anything unrecognized so callers can fall back to mtime; a leap
/// second (`23:59:60`) is recognized.
pub fn parse_iso_epoch(s: &str) -> (r: Option<i64>)
    ensures
        match r {
            Some(v) => iso_epoch(encode_utf8(s@)) == Some(v as int),
            None => iso_epoch(encode_utf8(s@)) is None,
        },
{
    let b = s.as_bytes();
    if b.len() < 19 {
        return None;
    }
    if b[4] != 45 || b[7] != 45 || (b[10] != 84 && b[10] != 32) || b[13] != 58 || b[16] != 58 {
        return None;
    }
    let year = num(b, 0, 4)?;
    let month = num(b, 5, 7)?;
    let day = num(b, 8, 10)?;
    let hour = num(b, 11, 13)?;
    let min = num(b, 14, 16)?;
    let sec = num(b, 17, 19)?;
    if month < 1 || month > 12 || day < 1 || day > days_in_month(year, month) {
        return None;
    }
    let leap = hour == 23 && min == 59 && sec == 60;
    if hour > 23 || min > 59 || (sec > 59 && !leap) {
        return None;
    }
    let days = days_from_civil(year, month, day);
    Some(days * 86_400 + hour * 3_600 + min * 60 + sec)
}

/// How long ago `since` was at `now`, in the largest unit that fits.
pub open spec fn age_text(since: int, now: int) -> Seq<char> {
    let secs = if now > since { now - since } else { 0 };
    if since <= 0 {
        "?"@
    } else if secs < 60 {
        "just now"@
    } else if secs < 3_600 {
        decimal_of((secs / 60) as nat) + "m ago"@
    } else if secs < 86_400 {
        decimal_of((secs / 3_600) as nat) + "h ago"@
    } else if secs < 2_592_000 {
        decimal_of((secs / 86_400) as nat) + "d ago"@
    } else {
        decimal_of((secs / 2_592_000) as nat) + "mo ago"@
    }
}

pub fn humanize_since(since: i64, now: i64) -> (r: String)
    requires
        since <= 0 || i64::MIN <= now - since,
    ensures
        r@ == age_text(since as int, now as int),
{
    if since <= 0 {
        return "?".to_owned();
    }
    let secs: u64 = if now > since { (now - since) as u64 } else { 0 };
    if secs < 60 {
        "just now".to_owned()
    } else if secs < 3_600 {
        cat(decimal(secs / 60).as_str(), "m ago")
    } else if secs < 86_400 {
        cat(decimal(secs / 3_600).as_str(), "h ago")
    } else if secs < 2_592_000 {
        cat(decimal(secs / 86_400).as_str(), "d ago")
    } else {
        cat(decimal(secs / 2_592_000).as_str(), "mo ago")
    }
}

// ---- timestamps sort as text ------------------------------------------------------------

/// Whether the first nineteen bytes of `a` come before those of `b` in byte order.
pub open spec fn stamp_before(a: Seq<u8>, b: Seq<u8>) -> bool {
    exists|k: int|
        0 <= k < 19 && a.len() >= 19 && b.len() >= 19 && #[trigger] a.take(k) == b.take(k) && a[k]
            < b[k]
}

proof fn lemma_years_grow(y: int, z: int)
    requires
        y < z,
    ensures
        year_start(y) + year_days(y) <= year_start(z),
    decreases z - y,
{
    assert(year_start(y) + year_days(y) == year_start(y + 1)) by {
        reveal_with_fuel(year_start, 2);
    }
    if y + 1 < z {
        lemma_years_grow(y + 1, z);
    }
}

proof fn lemma_months_grow(y: int, m: int, n: int)
    requires
        1 <= m < n,
    ensures
        month_start(y, m) + month_days(y, m) <= month_start(y, n),
    decreases n - m,
{
    if m + 1 < n {
        lemma_months_grow(y, m, n - 1);
    }
}

proof fn lemma_year_holds_months(y: int, m: int)
    requires
        1 <= m <= 12,
    ensures
        0 <= month_start(y, m),
        month_start(y, m) + month_days(y, m) <= year_days(y),
{
    reveal_with_fuel(month_start, 13);
}

/// Days of the calendar come in the order of their year, month and day.
pub proof fn law_days_in_calendar_order(y: int, m: int, d: int, z: int, n: int, e: int)
    requires
        1 <= m <= 12,
        1 <= n <= 12,
        1 <= d <= month_days(y, m),
        1 <= e <= month_days(z, n),
        y < z || (y == z && (m < n || (m == n && d < e))),
    ensures
        civil_day(y, m, d) < civil_day(z, n, e),
{
    lemma_year_holds_months(y, m);
    lemma_year_holds_months(z, n);
    if y < z {
        lemma_years_grow(y, z);
    } else if m < n {
        lemma_months_grow(y, m, n);
    }
}

/// Runs of as many digits come in byte order as their numbers do.
proof fn lemma_digits_order(a: Seq<u8>, b: Seq<u8>, k: int)
    requires
        a.len() == b.len(),
        0 <= k < a.len(),
        a.take(k) == b.take(k),
        a[k] < b[k],
        digits_value(a) is Some,
        digits_value(b) is Some,
    ensures
        digits_value(a)->0 < digits_value(b)->0,
    decreases a.len(),
{
    if k + 1 == a.len() {
        assert(a.drop_last() == a.take(k));
        assert(b.drop_last() == b.take(k));
    } else {
        assert(a.drop_last().take(k) == a.take(k));
        assert(b.drop_last().take(k) == b.take(k));
        lemma_digits_order(a.drop_last(), b.drop_last(), k);
    }
}

proof fn lemma_field_order(a: Seq<u8>, b: Seq<u8>, lo: int, hi: int, k: int)
    requires
        a.len() >= 19,
        b.len() >= 19,
        0 <= k < 19,
        a.take(k) == b.take(k),
        a[k] < b[k],
        0 <= lo < hi <= 19,
        field(a, lo, hi) is Some,
        field(b, lo, hi) is Some,
    ensures
        lo <= k < hi ==> field(a, lo, hi)->0 < field(b, lo, hi)->0,
        hi <= k ==> field(a, lo, hi)->0 == field(b, lo, hi)->0,
{
    let x = a.subrange(lo, hi);
    let y = b.subrange(lo, hi);
    assert forall|j: int| 0 <= j < k implies a[j] == b[j] by {
        assert(a.take(k)[j] == a[j]);
        assert(b.take(k)[j] == b[j]);
    }
    if lo <= k < hi {
        assert(x.take(k - lo) == y.take(k - lo));
        lemma_digits_order(x, y, k - lo);
    }
    if hi <= k {
        assert(x == y);
    }
}

/// Timestamps with the same letter between date and time sort as text in the
/// order of the moments they name; only a leap second and the second after it are one.
pub proof fn law_stamps_sort_chronologically(a: Seq<u8>, b: Seq<u8>)
    requires
        iso_epoch(a) is Some,
        iso_epoch(b) is Some,
        a[10] == b[10],
        stamp_before(a, b),
    ensures
        iso_epoch(a)->0 <= iso_epoch(b)->0,
        field(a, 17, 19) != Some(60int) ==> iso_epoch(a)->0 < iso_epoch(b)->0,
{
    let k = choose|k: int|
        0 <= k < 19 && a.len() >= 19 && b.len() >= 19 && #[trigger] a.take(k) == b.take(k) && a[k]
            < b[k];
    lemma_field_order(a, b, 0, 4, k);
    lemma_field_order(a, b, 5, 7, k);
    lemma_field_order(a, b, 8, 10, k);
    lemma_field_order(a, b, 11, 13, k);
    lemma_field_order(a, b, 14, 16, k);
    lemma_field_order(a, b, 17, 19, k);
    lemma_digits_natural(a.subrange(11, 13));
    lemma_digits_natural(b.subrange(11, 13));
    lemma_digits_natural(a.subrange(14, 16));
    lemma_digits_natural(b.subrange(14, 16));
    lemma_digits_natural(a.subrange(17, 19));
    lemma_digits_natural(b.subrange(17, 19));
    if k < 10 {
        law_days_in_calendar_order(
            field(a, 0, 4)->0,
            field(a, 5, 7)->0,
            field(a, 8, 10)->0,
            field(b, 0, 4)->0,
            field(b, 5, 7)->0,
            field(b, 8, 10)->0,
        );
    }
}

proof fn lemma_digits_natural(b: Seq<u8>)
    ensures
        digits_value(b) matches Some(v) ==> 0 <= v,
    decreases b.len(),
{
    if b.len() > 0 {
        lemma_digits_natural(b.drop_last());
    }
}

} // verus!
