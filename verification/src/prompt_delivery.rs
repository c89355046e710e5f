//! Delivering a prompt to an agent that may not be listening yet.
//!
//! Writing a prompt into a pane is not delivering it: an agent that is still starting may
//! swallow the submission. So a write is provisional until the agent reports that it was
//! given that prompt; until then it is repeated, at growing intervals, up to a deadline.

use crate::text;
use vstd::prelude::*;
use vstd::string::*;
use vstd::utf8::*;

verus! {

/// The length in bytes that a reported prompt is cut to. Compare prompts with
/// [`prompt_submission_matches`] only: a longer one never equals its report.
pub const USER_PROMPT_MAX_LEN: usize = 200;

/// How long an automatic prompt is repeated before it is abandoned, in milliseconds.
pub const AUTOMATIC_PROMPT_DEADLINE_MS: u64 = 60_000;

/// How far the clocks of the writer and of the reporter may be apart, in seconds.
pub const CONFIRMATION_CLOCK_SKEW_SECS: i64 = 5;

// ---------------------------------------------------------------------------
// Prompts and their reports
// ---------------------------------------------------------------------------

/// The number of bytes that a character takes in UTF-8.
pub open spec fn width(c: char) -> nat {
    encode_scalar(c as u32).len()
}

/// The number of leading characters of `s` that fit in `max` bytes.
pub open spec fn fitting(s: Seq<char>, max: nat) -> nat
    decreases s.len(),
{
    if s.len() == 0 || width(s[0]) > max {
        0
    } else {
        1 + fitting(s.drop_first(), (max - width(s[0])) as nat)
    }
}

/// `s`, or as many leading characters of it as fit in `max` bytes, and an ellipsis.
pub open spec fn truncated(s: Seq<char>, max: nat) -> Seq<char> {
    if encode_utf8(s).len() <= max {
        s
    } else {
        s.take(fitting(s, max) as int) + "…"@
    }
}

/// Whether a reported prompt is evidence that `expected` was submitted.
pub open spec fn confirms(expected: Seq<char>, reported: Seq<char>) -> bool {
    ||| text::trimmed(reported) == text::trimmed(expected)
    ||| text::trimmed(reported) == truncated(text::trimmed(expected), USER_PROMPT_MAX_LEN as nat)
}

fn char_width(c: char) -> (r: usize)
    ensures
        r == width(c),
        1 <= r <= 4,
{
    let code: u32 = c as u32;
    if code < 0x80 {
        1
    } else if code < 0x800 {
        2
    } else if code < 0x10000 {
        3
    } else {
        4
    }
}

proof fn fitting_all(s: Seq<char>, max: nat)
    ensures
        fitting(s, max) <= s.len(),
        encode_utf8(s.take(fitting(s, max) as int)).len() <= max,
        fitting(s, max) == s.len() <==> encode_utf8(s).len() <= max,
        fitting(s, max) < s.len() ==> encode_utf8(s.take(fitting(s, max) as int)).len() + width(
            s[fitting(s, max) as int],
        ) > max,
    decreases s.len(),
{
    if s.len() == 0 {
        assert(s.take(0) =~= s);
    } else if width(s[0]) > max {
        assert(s.take(0) =~= Seq::<char>::empty());
    } else {
        let rest = s.drop_first();
        let left = (max - width(s[0])) as nat;
        fitting_all(rest, left);
        let n = fitting(s, max) as int;
        assert(s.take(n).drop_first() =~= rest.take(n - 1));
        assert(s.take(n)[0] == s[0]);
    }
}

/// Cut `s` to at most `max` bytes, with an ellipsis behind it where anything was cut. No
/// character is split.
pub fn truncate_on_char_boundary(s: &str, max: usize) -> (r: String)
    ensures
        r@ == truncated(s@, max as nat),
{
    let chars = text::chars_of(s);
    let mut left: usize = max;
    let mut i: usize = 0;
    proof {
        fitting_all(s@, max as nat);
        assert(chars@.skip(0) =~= chars@);
    }
    while i < chars.len() && char_width(chars[i]) <= left
        invariant
            i <= chars@.len(),
            fitting(chars@, max as nat) == i + fitting(chars@.skip(i as int), left as nat),
        decreases chars@.len() - i,
    {
        proof {
            let now = chars@.skip(i as int);
            assert(now[0] == chars@[i as int]);
            assert(now.drop_first() =~= chars@.skip(i + 1));
        }
        left = left - char_width(chars[i]);
        i = i + 1;
    }
    proof {
        let now = chars@.skip(i as int);
        if i < chars@.len() {
            assert(now[0] == chars@[i as int]);
        }
        assert(fitting(chars@, max as nat) == i);
        assert(chars@.subrange(0, i as int) =~= chars@.take(i as int));
    }
    if i == chars.len() {
        return s.to_owned();
    }
    let mut out = text::text_between(chars.as_slice(), 0, i);
    out.append("…");
    out
}

/// Whether a reported prompt is evidence that `expected` was submitted: it is that prompt, or
/// what is left of it in a report, apart from white space at the ends.
pub fn prompt_submission_matches(expected: &str, reported: &str) -> (r: bool)
    ensures
        r == confirms(expected@, reported@),
{
    let wanted = text::trim_text(expected);
    let given = text::trim_text(reported);
    if given == wanted {
        return true;
    }
    let cut = truncate_on_char_boundary(wanted.as_str(), USER_PROMPT_MAX_LEN);
    given == cut
}

// ---------------------------------------------------------------------------
// Retries
// ---------------------------------------------------------------------------

/// How many times the first delay is doubled.
pub open spec fn doublings(attempts: nat) -> nat {
    if attempts <= 1 {
        0
    } else if attempts <= 9 {
        (attempts - 1) as nat
    } else {
        8
    }
}

/// The delay after so many attempts, in milliseconds: half a second, doubled with each
/// further attempt, and 15 seconds at most.
pub open spec fn retry_delay(attempts: nat) -> nat {
    let doubled = 500 * vstd::arithmetic::power2::pow2(doublings(attempts));
    if doubled <= 15_000 {
        doubled
    } else {
        15_000
    }
}

/// How long to wait, in milliseconds, before an unconfirmed prompt is written once more.
/// `attempts` is the number of times that it was written.
pub fn unconfirmed_retry_delay(attempts: u32) -> (r: u64)
    ensures
        r == retry_delay(attempts as nat),
{
    let steps: u32 = if attempts <= 1 {
        0
    } else if attempts <= 9 {
        attempts - 1
    } else {
        8
    };
    let mut delay: u64 = 500;
    let mut i: u32 = 0;
    proof {
        vstd::arithmetic::power2::lemma2_to64();
    }
    while i < steps
        invariant
            i <= steps <= 8,
            delay == 500 * vstd::arithmetic::power2::pow2(i as nat),
            vstd::arithmetic::power2::pow2(i as nat) <= 256,
        decreases steps - i,
    {
        proof {
            vstd::arithmetic::power2::lemma_pow2_unfold((i + 1) as nat);
            vstd::arithmetic::power2::lemma2_to64();
            if i + 1 < 8 {
                vstd::arithmetic::power2::lemma_pow2_strictly_increases((i + 1) as nat, 8);
            }
        }
        delay = delay * 2;
        i = i + 1;
    }
    if delay <= 15_000 {
        delay
    } else {
        15_000
    }
}

// ---------------------------------------------------------------------------
// When a report counts
// ---------------------------------------------------------------------------

/// The first second that the calendar holds: the beginning of January 1, 262144 BCE.
pub const FIRST_SECOND: i64 = -8_334_601_228_800;

/// The last second that the calendar holds: the end of December 31, 262142.
pub const LAST_SECOND: i64 = 8_210_266_876_799;

/// A moment: seconds since the beginning of 1970 in UTC, and nanoseconds into the second. In
/// the last second of a minute they may run on into a leap second.
#[derive(Debug, Clone, Copy, PartialEq, Eq, Structural)]
pub struct Timestamp {
    pub secs: i64,
    pub nanos: u32,
}

impl Timestamp {
    /// Whether the calendar holds the moment.
    pub open spec fn is_valid(self) -> bool {
        &&& FIRST_SECOND <= self.secs <= LAST_SECOND
        &&& self.nanos < 1_000_000_000 || (self.nanos < 2_000_000_000 && self.secs % 60 == 59)
    }

    /// The moment in nanoseconds.
    pub open spec fn total(self) -> int {
        self.secs * 1_000_000_000 + self.nanos
    }

    /// Whether there is a floor for a write at this moment.
    pub open spec fn has_floor(self) -> bool {
        self.is_valid() && self.total() - CONFIRMATION_CLOCK_SKEW_SECS * 1_000_000_000
            >= FIRST_SECOND * 1_000_000_000
    }

    /// Whether there is a floor for a write at this moment. There is for every moment but the
    /// first few seconds of the calendar.
    pub fn has_confirmation_floor(&self) -> (r: bool)
        ensures
            r == self.has_floor(),
    {
        minus_seconds(*self, CONFIRMATION_CLOCK_SKEW_SECS).is_some()
    }
}

/// `chrono::DateTime::<Utc>::checked_sub_signed`, on a moment made by
/// `DateTime::from_timestamp`, with a whole positive number of seconds: the moment that many
/// seconds earlier, without a leap second, or nothing where the calendar does not hold the
/// one or the other.
#[verifier::external_body]
fn minus_seconds(at: Timestamp, seconds: i64) -> (r: Option<Timestamp>)
    requires
        0 < seconds <= i64::MAX / 1000,
    ensures
        match r {
            Some(earlier) => {
                &&& at.is_valid()
                &&& earlier.is_valid()
                &&& earlier.nanos < 1_000_000_000
                &&& earlier.total() == at.total() - seconds * 1_000_000_000
            },
            None => !at.is_valid() || at.total() - seconds * 1_000_000_000 < FIRST_SECOND
                * 1_000_000_000,
        },
{
    let at = chrono::DateTime::from_timestamp(at.secs, at.nanos)?;
    let earlier = at.checked_sub_signed(chrono::TimeDelta::seconds(seconds))?;
    Some(Timestamp { secs: earlier.timestamp(), nanos: earlier.timestamp_subsec_nanos() })
}

/// The earliest moment at which a report may count as evidence for a write at `written_at`.
/// What was reported earlier is older history of the pane.
pub fn confirmation_floor(written_at: Timestamp) -> (r: Timestamp)
    requires
        written_at.has_floor(),
    ensures
        r.is_valid(),
        r.nanos < 1_000_000_000,
        r.total() == written_at.total() - CONFIRMATION_CLOCK_SKEW_SECS * 1_000_000_000,
{
    match minus_seconds(written_at, CONFIRMATION_CLOCK_SKEW_SECS) {
        Some(floor) => floor,
        None => written_at,
    }
}

// ---------------------------------------------------------------------------
// Identities
// ---------------------------------------------------------------------------

/// Where delivery identities come from: a number that no other process has, and a counter.
#[derive(Debug)]
pub struct DeliveryIds {
    pub nonce: u64,
    pub next: u64,
}

/// The identity of a delivery.
pub open spec fn delivery_id(nonce: u64, pane_id: Seq<char>, seq: u64) -> Seq<char> {
    "send-"@ + text::hex_digits(nonce as nat, 16) + "-"@ + pane_id + "-"@ + text::decimal(
        seq as nat,
    )
}

/// Make the identity of a new delivery into a pane.
pub fn mint_delivery_id(ids: &mut DeliveryIds, pane_id: &str) -> (r: String)
    ensures
        r@ == delivery_id(old(ids).nonce, pane_id@, old(ids).next),
        final(ids).nonce == old(ids).nonce,
        final(ids).next == if old(ids).next == u64::MAX {
            0
        } else {
            old(ids).next + 1
        },
{
    let seq: u64 = ids.next;
    ids.next = if seq == u64::MAX {
        0
    } else {
        seq + 1
    };
    let mut id = "send-".to_owned();
    id.append(text::hex_text(ids.nonce, 16).as_str());
    id.append("-");
    id.append(pane_id);
    id.append("-");
    id.append(text::decimal_text(seq).as_str());
    id
}

/// The identity of one attempt at a delivery.
pub open spec fn attempt_id(delivery_id: Seq<char>, attempt: nat) -> Seq<char> {
    delivery_id + "#a"@ + text::decimal(attempt)
}

/// The identity under which one attempt goes to the daemon. The daemon answers an identity
/// that it knows from memory, without writing again, so each attempt has one of its own.
pub fn attempt_delivery_id(delivery_id: &str, attempt: u32) -> (r: String)
    ensures
        r@ == attempt_id(delivery_id@, attempt as nat),
{
    let mut id = delivery_id.to_owned();
    id.append("#a");
    id.append(text::decimal_text(attempt as u64).as_str());
    id
}

// ---------------------------------------------------------------------------
// Log records
// ---------------------------------------------------------------------------

/// How serious a record is.
#[derive(Debug, Clone, Copy, PartialEq, Eq, Structural)]
pub enum LogLevel {
    Info,
    Warn,
}

/// What a record says beside the names.
#[derive(Debug, PartialEq, Eq)]
pub enum LogDetail {
    /// The number of this attempt.
    Attempt(u32),
    /// The number of attempts in all.
    Attempts(u32),
    Reason(String),
}

/// What a [`LogDetail`] stands for.
pub enum DetailModel {
    Attempt(u32),
    Attempts(u32),
    Reason(Seq<char>),
}

impl View for LogDetail {
    type V = DetailModel;

    open spec fn view(&self) -> DetailModel {
        match *self {
            LogDetail::Attempt(n) => DetailModel::Attempt(n),
            LogDetail::Attempts(n) => DetailModel::Attempts(n),
            LogDetail::Reason(why) => DetailModel::Reason(why@),
        }
    }
}

/// One record of the log.
#[derive(Debug)]
pub struct LogRecord {
    pub level: LogLevel,
    pub path: String,
    pub pane_id: String,
    pub delivery_id: String,
    pub detail: LogDetail,
    pub message: String,
}

/// What a [`LogRecord`] stands for.
pub struct RecordModel {
    pub level: LogLevel,
    pub path: Seq<char>,
    pub pane_id: Seq<char>,
    pub delivery_id: Seq<char>,
    pub detail: DetailModel,
    pub message: Seq<char>,
}

impl View for LogRecord {
    type V = RecordModel;

    open spec fn view(&self) -> RecordModel {
        RecordModel {
            level: self.level,
            path: self.path@,
            pane_id: self.pane_id@,
            delivery_id: self.delivery_id@,
            detail: self.detail@,
            message: self.message@,
        }
    }
}

/// The record that the bytes of a prompt were written into a pane.
pub fn log_prompt_written(path: &str, pane_id: &str, delivery_id: &str, attempt: u32) -> (r:
    LogRecord)
    ensures
        r@ == (RecordModel {
            level: LogLevel::Info,
            path: path@,
            pane_id: pane_id@,
            delivery_id: delivery_id@,
            detail: DetailModel::Attempt(attempt),
            message: "prompt written to pane; provisional until UserPromptSubmit confirms it"@,
        }),
{
    LogRecord {
        level: LogLevel::Info,
        path: path.to_owned(),
        pane_id: pane_id.to_owned(),
        delivery_id: delivery_id.to_owned(),
        detail: LogDetail::Attempt(attempt),
        message: "prompt written to pane; provisional until UserPromptSubmit confirms it".to_owned(),
    }
}

/// The record that a written prompt is still unconfirmed, and is written again.
pub fn log_prompt_unconfirmed(path: &str, pane_id: &str, delivery_id: &str, attempt: u32) -> (r:
    LogRecord)
    ensures
        r@ == (RecordModel {
            level: LogLevel::Info,
            path: path@,
            pane_id: pane_id@,
            delivery_id: delivery_id@,
            detail: DetailModel::Attempt(attempt),
            message: "prompt delivery unconfirmed; re-submitting"@,
        }),
{
    LogRecord {
        level: LogLevel::Info,
        path: path.to_owned(),
        pane_id: pane_id.to_owned(),
        delivery_id: delivery_id.to_owned(),
        detail: LogDetail::Attempt(attempt),
        message: "prompt delivery unconfirmed; re-submitting".to_owned(),
    }
}

/// The record that the agent reported the prompt that was written.
pub fn log_prompt_confirmed(path: &str, pane_id: &str, delivery_id: &str, attempt: u32) -> (r:
    LogRecord)
    ensures
        r@ == (RecordModel {
            level: LogLevel::Info,
            path: path@,
            pane_id: pane_id@,
            delivery_id: delivery_id@,
            detail: DetailModel::Attempt(attempt),
            message: "prompt delivery confirmed by the agent's submitted prompt"@,
        }),
{
    LogRecord {
        level: LogLevel::Info,
        path: path.to_owned(),
        pane_id: pane_id.to_owned(),
        delivery_id: delivery_id.to_owned(),
        detail: LogDetail::Attempt(attempt),
        message: "prompt delivery confirmed by the agent's submitted prompt".to_owned(),
    }
}

/// The record that an agent reports no prompts at all, so that the write is final.
pub fn log_prompt_unconfirmable(path: &str, pane_id: &str, delivery_id: &str, reason: &str) -> (r:
    LogRecord)
    ensures
        r@ == (RecordModel {
            level: LogLevel::Info,
            path: path@,
            pane_id: pane_id@,
            delivery_id: delivery_id@,
            detail: DetailModel::Reason(reason@),
            message: "prompt written to pane; delivery cannot be confirmed by this agent, not retrying"@,
        }),
{
    LogRecord {
        level: LogLevel::Info,
        path: path.to_owned(),
        pane_id: pane_id.to_owned(),
        delivery_id: delivery_id.to_owned(),
        detail: LogDetail::Reason(reason.to_owned()),
        message:
            "prompt written to pane; delivery cannot be confirmed by this agent, not retrying".to_owned(),
    }
}

/// The record that a prompt was not confirmed before the deadline and is abandoned.
pub fn log_prompt_abandoned(path: &str, pane_id: &str, delivery_id: &str, attempts: u32) -> (r:
    LogRecord)
    ensures
        r@ == (RecordModel {
            level: LogLevel::Warn,
            path: path@,
            pane_id: pane_id@,
            delivery_id: delivery_id@,
            detail: DetailModel::Attempts(attempts),
            message: "prompt delivery unconfirmed at the deadline; abandoning"@,
        }),
{
    LogRecord {
        level: LogLevel::Warn,
        path: path.to_owned(),
        pane_id: pane_id.to_owned(),
        delivery_id: delivery_id.to_owned(),
        detail: LogDetail::Attempts(attempts),
        message: "prompt delivery unconfirmed at the deadline; abandoning".to_owned(),
    }
}

// ---------------------------------------------------------------------------
// Laws
// ---------------------------------------------------------------------------

/// A truncated text is the whole of it where that fits; else it is the longest beginning of
/// whole characters that fits, and an ellipsis.
pub proof fn truncation_keeps_the_longest_beginning(s: Seq<char>, max: nat)
    ensures
        encode_utf8(s).len() <= max ==> truncated(s, max) == s,
        encode_utf8(s).len() > max ==> {
            let n = fitting(s, max);
            &&& n < s.len()
            &&& truncated(s, max) == s.take(n as int) + "…"@
            &&& encode_utf8(s.take(n as int)).len() <= max
            &&& encode_utf8(s.take(n as int + 1)).len() > max
        },
{
    fitting_all(s, max);
    let n = fitting(s, max) as int;
    if n < s.len() {
        assert(s.take(n + 1) =~= s.take(n).push(s[n]));
        encoding_grows(s.take(n), s[n]);
    }
}

proof fn encoding_grows(s: Seq<char>, c: char)
    ensures
        encode_utf8(s.push(c)).len() == encode_utf8(s).len() + width(c),
    decreases s.len(),
{
    let t = s.push(c);
    if s.len() == 0 {
        assert(t.drop_first() =~= Seq::<char>::empty());
        assert(encode_utf8(t.drop_first()).len() == 0);
    } else {
        assert(t.drop_first() =~= s.drop_first().push(c));
        assert(t[0] == s[0]);
        encoding_grows(s.drop_first(), c);
    }
}

/// The report of a submitted prompt confirms it, however long the prompt is: the whole text,
/// and the text cut to the length of a report, both without the white space at its ends.
pub proof fn a_submitted_prompt_is_confirmed_by_its_report(prompt: Seq<char>)
    ensures
        confirms(prompt, prompt),
        confirms(prompt, text::trimmed(prompt)),
        confirms(prompt, truncated(text::trimmed(prompt), USER_PROMPT_MAX_LEN as nat)),
{
    let t = text::trimmed(prompt);
    let max = USER_PROMPT_MAX_LEN as nat;
    text::trimming_trims(prompt);
    text::trimming_trims(t);
    let cut = truncated(t, max);
    fitting_all(t, max);
    if encode_utf8(t).len() > max {
        reveal_strlit("…");
        assert(t.len() > 0);
        assert(width(t[0]) <= 4);
        assert(fitting(t, max) >= 1);
        assert(cut[0] == t[0]);
        assert(cut.last() == '…');
        assert(text::is_trimmed(cut));
    }
    text::trimming_trims(cut);
}

/// White space at the ends of a prompt or of its report makes no difference.
pub proof fn white_space_at_the_ends_does_not_matter(expected: Seq<char>, reported: Seq<char>)
    ensures
        confirms(expected, reported) == confirms(text::trimmed(expected), text::trimmed(reported)),
{
    text::trimming_trims(expected);
    text::trimming_trims(reported);
}

/// A delay is never shorter than the one before it, and never longer than 15 seconds.
pub proof fn delays_grow_up_to_a_cap(attempts: nat)
    ensures
        500 <= retry_delay(attempts) <= retry_delay(attempts + 1) <= 15_000,
        attempts >= 6 ==> retry_delay(attempts) == 15_000,
{
    vstd::arithmetic::power2::lemma2_to64();
}

/// The time that the first `attempts` delays take together.
pub open spec fn total_delay(attempts: nat) -> nat
    decreases attempts,
{
    if attempts == 0 {
        0
    } else {
        total_delay((attempts - 1) as nat) + retry_delay(attempts)
    }
}

/// Nine attempts cover the whole time up to the deadline.
pub proof fn the_deadline_is_covered_in_single_digit_attempts()
    ensures
        total_delay(9) >= AUTOMATIC_PROMPT_DEADLINE_MS,
{
    vstd::arithmetic::power2::lemma2_to64();
    reveal_with_fuel(total_delay, 10);
}

/// The floor lies before the write, by the same time for every write.
pub proof fn the_floor_precedes_the_write(
    written: Timestamp,
    floor: Timestamp,
    later: Timestamp,
    later_floor: Timestamp,
)
    requires
        floor.total() == written.total() - CONFIRMATION_CLOCK_SKEW_SECS * 1_000_000_000,
        later_floor.total() == later.total() - CONFIRMATION_CLOCK_SKEW_SECS * 1_000_000_000,
    ensures
        floor.total() < written.total(),
        written.total() <= later.total() <==> floor.total() <= later_floor.total(),
{
}

proof fn split_at_last(
    a: Seq<char>,
    b: Seq<char>,
    sep: char,
    m: Seq<char>,
    n: Seq<char>,
)
    requires
        a + seq![sep] + m == b + seq![sep] + n,
        !m.contains(sep),
        !n.contains(sep),
    ensures
        a == b,
        m == n,
{
    let left = a + seq![sep] + m;
    let right = b + seq![sep] + n;
    assert(left.len() == a.len() + 1 + m.len());
    assert(right.len() == b.len() + 1 + n.len());
    assert(right[b.len() as int] == sep);
    assert(left[a.len() as int] == sep);
    if a.len() < b.len() {
        assert(left[b.len() as int] == m[b.len() - a.len() - 1]);
        assert(m[b.len() - a.len() - 1] == sep);
        assert(m.contains(sep));
    } else if b.len() < a.len() {
        assert(right[a.len() as int] == n[a.len() - b.len() - 1]);
        assert(n[a.len() - b.len() - 1] == sep);
        assert(n.contains(sep));
    } else {
        assert(a =~= left.take(a.len() as int));
        assert(b =~= right.take(a.len() as int));
        assert(m =~= left.skip(a.len() as int + 1));
        assert(n =~= right.skip(a.len() as int + 1));
    }
}

proof fn decimal_has_no(n: nat, c: char)
    requires
        !text::is_digit(c),
    ensures
        !text::decimal(n).contains(c),
{
    text::decimal_reads_back(n);
    if text::decimal(n).contains(c) {
        let i = choose|i: int| 0 <= i < text::decimal(n).len() && text::decimal(n)[i] == c;
        assert(text::is_digit(text::decimal(n)[i]));
    }
}

/// Two deliveries with the same identity come from the same process, the same pane and the
/// same turn of the counter. So no two processes and no two deliveries share one.
pub proof fn delivery_ids_are_unique(
    nonce: u64,
    pane_id: Seq<char>,
    seq: u64,
    other_nonce: u64,
    other_pane: Seq<char>,
    other_seq: u64,
)
    requires
        delivery_id(nonce, pane_id, seq) == delivery_id(other_nonce, other_pane, other_seq),
    ensures
        nonce == other_nonce,
        pane_id == other_pane,
        seq == other_seq,
{
    reveal_strlit("send-");
    reveal_strlit("-");
    let h1 = text::hex_digits(nonce as nat, 16);
    let h2 = text::hex_digits(other_nonce as nat, 16);
    let a = "send-"@ + h1 + "-"@ + pane_id;
    let b = "send-"@ + h2 + "-"@ + other_pane;
    assert("-"@ =~= seq!['-']);
    decimal_has_no(seq as nat, '-');
    decimal_has_no(other_seq as nat, '-');
    split_at_last(a, b, '-', text::decimal(seq as nat), text::decimal(other_seq as nat));
    text::decimal_is_injective(seq as nat, other_seq as nat);
    text::hex_digits_len(nonce as nat, 16);
    text::hex_digits_len(other_nonce as nat, 16);
    assert(h1 =~= a.subrange(5, 21));
    assert(h2 =~= b.subrange(5, 21));
    assert(pane_id =~= a.skip(22));
    assert(other_pane =~= b.skip(22));
    assert(vstd::arithmetic::power::pow(16, 16) == 0x1_0000_0000_0000_0000) by {
        reveal_with_fuel(vstd::arithmetic::power::pow, 17);
    }
    text::hex_digits_are_injective(nonce as nat, other_nonce as nat, 16);
}

/// Each attempt at a delivery has an identity of its own, which begins with that of the
/// delivery.
pub proof fn attempt_ids_are_unique(
    delivery_id: Seq<char>,
    attempt: nat,
    other_id: Seq<char>,
    other_attempt: nat,
)
    ensures
        delivery_id.is_prefix_of(attempt_id(delivery_id, attempt)),
        attempt_id(delivery_id, attempt) == attempt_id(other_id, other_attempt) ==> delivery_id
            == other_id && attempt == other_attempt,
{
    let a = attempt_id(delivery_id, attempt);
    assert(a.subrange(0, delivery_id.len() as int) =~= delivery_id);
    if a == attempt_id(other_id, other_attempt) {
        reveal_strlit("#a");
        let x = delivery_id + seq!['#'];
        let y = other_id + seq!['#'];
        assert(a =~= x + seq!['a'] + text::decimal(attempt));
        assert(a =~= y + seq!['a'] + text::decimal(other_attempt));
        decimal_has_no(attempt, 'a');
        decimal_has_no(other_attempt, 'a');
        split_at_last(x, y, 'a', text::decimal(attempt), text::decimal(other_attempt));
        assert(delivery_id =~= x.drop_last());
        assert(other_id =~= y.drop_last());
        text::decimal_is_injective(attempt, other_attempt);
    }
}

proof fn beginnings_grow(s: Seq<char>, m: int, n: int)
    requires
        0 <= m <= n <= s.len(),
    ensures
        encode_utf8(s.take(m)).len() <= encode_utf8(s.take(n)).len(),
    decreases n - m,
{
    if m < n {
        beginnings_grow(s, m, n - 1);
        assert(s.take(n) =~= s.take(n - 1).push(s[n - 1]));
        encoding_grows(s.take(n - 1), s[n - 1]);
    }
}

/// Whether `report` is `prompt` cut to 200 bytes: as many whole characters as fit, and an
/// ellipsis in place of the rest.
pub open spec fn is_cut_of(prompt: Seq<char>, report: Seq<char>) -> bool {
    exists|n: int|
        {
            &&& 0 <= n < prompt.len()
            &&& report == #[trigger] prompt.take(n) + "…"@
            &&& encode_utf8(prompt.take(n)).len() <= 200
            &&& encode_utf8(prompt.take(n + 1)).len() > 200
        }
}

/// Only a prompt's own report confirms it: apart from white space at the ends it is the prompt
/// itself, or the prompt cut to 200 bytes with an ellipsis behind it; and each of these does.
pub proof fn only_its_own_report_confirms_a_prompt(expected: Seq<char>, reported: Seq<char>)
    ensures
        confirms(expected, reported) <==> text::trimmed(reported) == text::trimmed(expected)
            || is_cut_of(text::trimmed(expected), text::trimmed(reported)),
{
    let t = text::trimmed(expected);
    let r = text::trimmed(reported);
    fitting_all(t, 200);
    truncation_keeps_the_longest_beginning(t, 200);
    let f = fitting(t, 200) as int;
    if r == truncated(t, 200) && r != t {
        assert(r == t.take(f) + "…"@);
        assert(is_cut_of(t, r));
    }
    if is_cut_of(t, r) {
        let n = choose|n: int|
            {
                &&& 0 <= n < t.len()
                &&& r == #[trigger] t.take(n) + "…"@
                &&& encode_utf8(t.take(n)).len() <= 200
                &&& encode_utf8(t.take(n + 1)).len() > 200
            };
        beginnings_grow(t, n + 1, t.len() as int);
        assert(t.take(t.len() as int) =~= t);
        if n < f {
            beginnings_grow(t, n + 1, f);
        } else if f < n {
            beginnings_grow(t, f + 1, n);
        }
        assert(n == f);
    }
}

/// Prompts of at most 200 bytes confirm one another exactly where they are equal apart from
/// white space at the ends. So a prompt that differs in one character confirms nothing.
pub proof fn short_prompts_confirm_only_themselves(expected: Seq<char>, reported: Seq<char>)
    requires
        encode_utf8(text::trimmed(expected)).len() <= 200,
    ensures
        confirms(expected, reported) <==> text::trimmed(expected) == text::trimmed(reported),
{
    let t = text::trimmed(expected);
    let r = text::trimmed(reported);
    only_its_own_report_confirms_a_prompt(expected, reported);
    if is_cut_of(t, r) {
        let n = choose|n: int|
            {
                &&& 0 <= n < t.len()
                &&& r == #[trigger] t.take(n) + "…"@
                &&& encode_utf8(t.take(n)).len() <= 200
                &&& encode_utf8(t.take(n + 1)).len() > 200
            };
        beginnings_grow(t, n + 1, t.len() as int);
        assert(t.take(t.len() as int) =~= t);
    }
}

/// A text that is cut is a beginning of the text, with an ellipsis behind it: no other character
/// is added, and none is changed.
pub proof fn a_cut_text_begins_like_the_text(s: Seq<char>, max: nat)
    ensures
        encode_utf8(s).len() <= max ==> truncated(s, max) == s,
        encode_utf8(s).len() > max ==> exists|n: int|
            {
                &&& 0 <= n < s.len()
                &&& truncated(s, max) == #[trigger] s.take(n) + "…"@
                &&& encode_utf8(s.take(n)).len() <= max
                &&& encode_utf8(s.take(n + 1)).len() > max
            },
{
    truncation_keeps_the_longest_beginning(s, max);
}

/// The first delay is half a second, and each one after it is twice the one before, up to 15
/// seconds.
pub proof fn each_delay_doubles_the_last(attempts: nat)
    ensures
        retry_delay(0) == 500,
        retry_delay(1) == 500,
        attempts >= 1 ==> retry_delay(attempts + 1) == if 2 * retry_delay(attempts) <= 15_000 {
            2 * retry_delay(attempts)
        } else {
            15_000
        },
{
    vstd::arithmetic::power2::lemma2_to64();
    delays_grow_up_to_a_cap(attempts);
    if 1 <= attempts < 9 {
        vstd::arithmetic::power2::lemma_pow2_unfold(attempts);
    }
}

/// There is a floor for every moment of the calendar but its first five seconds.
pub proof fn almost_every_moment_has_a_floor(at: Timestamp)
    ensures
        at.has_floor() <==> at.is_valid() && at.secs >= FIRST_SECOND + 5,
{
}

/// The identity of a delivery is `send-`, sixteen hexadecimal digits of the process, the pane
/// as it is, and the turn of the counter.
pub proof fn a_delivery_id_names_its_pane(nonce: u64, pane_id: Seq<char>, seq: u64)
    ensures
        ({
            let id = delivery_id(nonce, pane_id, seq);
            let turn = text::decimal(seq as nat);
            &&& id.len() == 5 + 16 + 1 + pane_id.len() + 1 + turn.len()
            &&& id.take(5) == "send-"@
            &&& id.subrange(5, 21) == text::hex_digits(nonce as nat, 16)
            &&& id.subrange(22, 22 + pane_id.len() as int) == pane_id
            &&& id.skip(23 + pane_id.len() as int) == turn
        }),
{
    reveal_strlit("send-");
    reveal_strlit("-");
    text::hex_digits_len(nonce as nat, 16);
    let id = delivery_id(nonce, pane_id, seq);
    assert(id.take(5) =~= "send-"@);
    assert(id.subrange(5, 21) =~= text::hex_digits(nonce as nat, 16));
    assert(id.subrange(22, 22 + pane_id.len() as int) =~= pane_id);
    assert(id.skip(23 + pane_id.len() as int) =~= text::decimal(seq as nat));
}

/// The identity of an attempt is that of its delivery, then its number behind `#a`.
pub proof fn an_attempt_id_ends_with_its_number(delivery_id: Seq<char>, attempt: nat)
    ensures
        attempt_id(delivery_id, attempt).skip(delivery_id.len() as int) == "#a"@ + text::decimal(
            attempt,
        ),
{
    assert(attempt_id(delivery_id, attempt).skip(delivery_id.len() as int) =~= "#a"@
        + text::decimal(attempt));
}

} // verus!
