//! Bounded fleet-status refreshes: the state that decides when the fleet status of the
//! active thread is queried and which answers are taken, and the reading of a command's
//! output into a fleet-status segment.
use vstd::prelude::*;
use vstd::utf8::{decode_utf8, encode_utf8, encode_utf8_decode_utf8, encode_utf8_valid_utf8, valid_utf8};

use crate::fleet_segment::{
    active_runs_marker, approvals_marker, counts_valid, fleet_counts_of, fleet_word,
    fleet_words, is_ascii_digit, is_canonical_fleet_status, join_words, lemma_decimal, optional_word,
    render_fleet, unread_marker, FleetStatusCounts,
};
use crate::text::decimal;
use crate::ids::ThreadId;
use crate::text::{push_char, str_chars};

verus! {

/// Largest output, in bytes, accepted from the fleet-status command.
pub const FLEET_STATUS_MAX_BYTES: u64 = 128;

/// Time between two fleet-status queries, in nanoseconds.
pub const FLEET_STATUS_REFRESH_INTERVAL_NANOS: u64 = 10_000_000_000;

/// Time allowed to the fleet-status command, in nanoseconds.
pub const FLEET_STATUS_TIMEOUT_NANOS: u64 = 2_000_000_000;

/// A point on a monotonic clock, in nanoseconds from an origin that the caller fixes.
#[derive(Clone, Copy, Debug, PartialEq, Eq, Structural)]
pub struct Instant {
    pub nanos: u64,
}

/// What the fleet-status refresh keeps between frames.
#[derive(Clone, Debug, PartialEq, Eq)]
pub struct FleetStatusState {
    /// The thread whose fleet status is shown, if any.
    pub active_thread_id: Option<ThreadId>,
    /// The last segment received for that thread.
    pub segment: Option<String>,
    /// A query is in flight.
    pub pending: bool,
    /// When the last query was started.
    pub last_requested_at: Option<Instant>,
}

/// What a refresh asks of its caller.
#[derive(Clone, Copy, Debug, PartialEq, Eq, Structural)]
pub struct FleetRefresh {
    /// Start a query for this thread.
    pub query_thread: Option<ThreadId>,
    /// Schedule the next frame at this instant; `None` means one refresh interval from now.
    pub frame_due: Option<Instant>,
}

impl FleetStatusState {
    /// A state for `active_thread_id` with no segment, no query in flight and no query made.
    pub open spec fn cleared(active_thread_id: Option<ThreadId>) -> FleetStatusState {
        FleetStatusState { active_thread_id, segment: None, pending: false, last_requested_at: None }
    }

    /// The answer of a query for `thread_id` taken into `s`: when that thread is the active
    /// one, the segment replaces the shown one and no query is in flight any more; an answer for
    /// any other thread changes nothing. The flag says whether it was taken.
    pub open spec fn updated(s: FleetStatusState, thread_id: ThreadId, segment: Option<String>) -> (
        FleetStatusState,
        bool,
    ) {
        if s.active_thread_id == Some(thread_id) {
            (FleetStatusState { segment, pending: false, ..s }, true)
        } else {
            (s, false)
        }
    }

    /// With an active thread, the refresh arithmetic stays within the clock's range; without
    /// one there is no arithmetic.
    pub open spec fn refresh_in_range(s: FleetStatusState, now: Instant) -> bool {
        s.active_thread_id is Some ==> {
            &&& now.nanos <= u64::MAX - FLEET_STATUS_REFRESH_INTERVAL_NANOS
            &&& (s.last_requested_at matches Some(t) ==> t.nanos <= u64::MAX
                - FLEET_STATUS_REFRESH_INTERVAL_NANOS)
        }
    }

    /// Whether a query is due at `now`: none is in flight, and the last one started a refresh
    /// interval ago or earlier, or there was none.
    pub open spec fn query_due(s: FleetStatusState, now: Instant) -> bool {
        !s.pending && (s.last_requested_at matches Some(t) ==> now.nanos >= t.nanos
            + FLEET_STATUS_REFRESH_INTERVAL_NANOS)
    }

    /// The refresh of `s` at `now`. Without an active thread nothing happens. With one, a due
    /// query is started (in flight, started now) and the next frame is due a refresh interval
    /// after the last query.
    pub open spec fn refreshed(s: FleetStatusState, now: Instant) -> (
        FleetStatusState,
        Option<FleetRefresh>,
    ) {
        match s.active_thread_id {
            None => (s, None),
            Some(thread) => {
                let due = FleetStatusState::query_due(s, now);
                let last = if due {
                    Some(now)
                } else {
                    s.last_requested_at
                };
                (
                    FleetStatusState { pending: s.pending || due, last_requested_at: last, ..s },
                    Some(
                        FleetRefresh {
                            query_thread: if due {
                                Some(thread)
                            } else {
                                None
                            },
                            frame_due: match last {
                                Some(t) => Some(
                                    Instant {
                                        nanos: (t.nanos + FLEET_STATUS_REFRESH_INTERVAL_NANOS) as u64,
                                    },
                                ),
                                None => None,
                            },
                        },
                    ),
                )
            },
        }
    }

    /// Forgets everything but the thread now shown.
    pub fn reset(&mut self, active_thread_id: Option<ThreadId>)
        ensures
            *final(self) == FleetStatusState::cleared(active_thread_id),
    {
        *self = FleetStatusState {
            active_thread_id,
            segment: None,
            pending: false,
            last_requested_at: None,
        };
    }

    /// Takes the answer of a query for `thread_id`; returns whether it was taken.
    pub fn apply_update(&mut self, thread_id: ThreadId, segment: Option<String>) -> (taken: bool)
        ensures
            (*final(self), taken) == FleetStatusState::updated(*old(self), thread_id, segment),
    {
        match self.active_thread_id {
            Some(active) => {
                if active != thread_id {
                    return false;
                }
            },
            None => {
                return false;
            },
        }
        self.pending = false;
        self.segment = segment;
        true
    }

    /// Starts showing the fleet status of `current_thread_id`. When it is already the active
    /// thread nothing changes; otherwise the state is cleared for it. Returns whether a frame
    /// must be scheduled: the state changed to a thread.
    pub fn enable_fleet_status_for_current_thread(&mut self, current_thread_id: Option<ThreadId>) -> (schedule_frame:
        bool)
        ensures
            old(self).active_thread_id == current_thread_id ==> *final(self) == *old(self)
                && !schedule_frame,
            old(self).active_thread_id != current_thread_id ==> *final(self)
                == FleetStatusState::cleared(current_thread_id) && schedule_frame
                == current_thread_id is Some,
    {
        let same = match (self.active_thread_id, current_thread_id) {
            (Some(a), Some(b)) => a == b,
            (None, None) => true,
            _ => false,
        };
        if same {
            return false;
        }
        self.reset(current_thread_id);
        current_thread_id.is_some()
    }

    /// Stops showing any fleet status: the state is cleared for no thread.
    pub fn disable_fleet_status(&mut self)
        ensures
            *final(self) == FleetStatusState::cleared(None),
    {
        if self.active_thread_id.is_some() || self.segment.is_some() || self.pending
            || self.last_requested_at.is_some() {
            self.reset(None);
        }
    }

    /// Takes a fleet-status answer for `thread_id`, as [`FleetStatusState::apply_update`].
    pub fn set_status_line_fleet(&mut self, thread_id: ThreadId, segment: Option<String>) -> (taken:
        bool)
        ensures
            (*final(self), taken) == FleetStatusState::updated(*old(self), thread_id, segment),
    {
        self.apply_update(thread_id, segment)
    }

    /// Decides the refresh at `now`: whether to start a query, and when the next frame is due.
    pub fn refresh_fleet_status_if_due(&mut self, now: Instant) -> (refresh: Option<FleetRefresh>)
        requires
            FleetStatusState::refresh_in_range(*old(self), now),
        ensures
            (*final(self), refresh) == FleetStatusState::refreshed(*old(self), now),
    {
        let thread_id = match self.active_thread_id {
            Some(t) => t,
            None => {
                return None;
            },
        };
        let due = match self.last_requested_at {
            Some(last) => now.nanos >= last.nanos + FLEET_STATUS_REFRESH_INTERVAL_NANOS,
            None => true,
        };
        let mut query_thread: Option<ThreadId> = None;
        if !self.pending && due {
            self.pending = true;
            self.last_requested_at = Some(now);
            query_thread = Some(thread_id);
        }
        let frame_due = match self.last_requested_at {
            Some(last) => Some(Instant { nanos: last.nanos + FLEET_STATUS_REFRESH_INTERVAL_NANOS }),
            None => None,
        };
        Some(FleetRefresh { query_thread, frame_due })
    }
}

/// A refresh that starts a query leaves it in flight: the next refresh, at any instant,
/// starts none.
pub proof fn lemma_no_overlapping_queries(s: FleetStatusState, now: Instant, later: Instant)
    requires
        FleetStatusState::refreshed(s, now).1 matches Some(r) && r.query_thread is Some,
    ensures
        FleetStatusState::refreshed(FleetStatusState::refreshed(s, now).0, later).1 matches Some(r)
            && r.query_thread is None,
{
}

/// Queries for a thread start at most once per refresh interval, even when each answer is
/// taken at once.
pub proof fn lemma_queries_spaced_by_interval(
    s: FleetStatusState,
    now: Instant,
    segment: Option<String>,
    later: Instant,
)
    requires
        FleetStatusState::refreshed(s, now).1 matches Some(r) && r.query_thread is Some,
        later.nanos < now.nanos + FLEET_STATUS_REFRESH_INTERVAL_NANOS,
    ensures
        ({
            let started = FleetStatusState::refreshed(s, now).0;
            let answered = FleetStatusState::updated(started, s.active_thread_id.unwrap(), segment).0;
            FleetStatusState::refreshed(answered, later).1 matches Some(r) && r.query_thread is None
        }),
{
}

/// Taking the answer for the active thread shows its segment and ends the query in flight.
pub proof fn lemma_answer_ends_query(s: FleetStatusState, thread_id: ThreadId, segment: Option<String>)
    requires
        s.active_thread_id == Some(thread_id),
    ensures
        FleetStatusState::updated(s, thread_id, segment).1,
        FleetStatusState::updated(s, thread_id, segment).0.segment == segment,
        !FleetStatusState::updated(s, thread_id, segment).0.pending,
{
}

/// An answer for a thread that is not the active one leaves the state as it was.
pub proof fn lemma_stale_answer_ignored(s: FleetStatusState, thread_id: ThreadId, segment: Option<String>)
    requires
        s.active_thread_id != Some(thread_id),
    ensures
        FleetStatusState::updated(s, thread_id, segment) == (s, false),
{
}

/// Rust's `char::is_control`: the characters of general category `Cc`.
pub open spec fn is_control_char(c: char) -> bool {
    (c as int) <= 0x1F || (0x7F <= (c as int) <= 0x9F)
}

/// `s` without one trailing `c`, if it ends with one.
pub open spec fn strip_last(s: Seq<char>, c: char) -> Seq<char> {
    if s.len() > 0 && s.last() == c {
        s.drop_last()
    } else {
        s
    }
}

/// The segment a command printed: its output as UTF-8, without one trailing line feed and
/// then one trailing carriage return, kept only when non-empty, free of control characters and
/// a canonical fleet-status segment.
pub open spec fn command_segment(bytes: Seq<u8>) -> Option<Seq<char>> {
    if !valid_utf8(bytes) {
        None
    } else {
        let s = strip_last(strip_last(decode_utf8(bytes), '\n'), '\r');
        if s.len() == 0 || (exists|i: int| 0 <= i < s.len() && is_control_char(#[trigger] s[i]))
            || fleet_counts_of(s) is None {
            None
        } else {
            Some(s)
        }
    }
}

/// Decodes UTF-8 bytes into a string.
///
/// Calls `String::from_utf8`, which std documents as succeeding exactly when the bytes are
/// valid UTF-8, the string then holding the characters they encode.
#[verifier::external_body]
fn decode_utf8_string(bytes: Vec<u8>) -> (text: Option<String>)
    ensures
        text is Some <==> valid_utf8(bytes@),
        text matches Some(t) ==> t@ == decode_utf8(bytes@),
{
    String::from_utf8(bytes).ok()
}

fn is_control(c: char) -> (control: bool)
    ensures
        control == is_control_char(c),
{
    assert(c as int <= 0x10FFFF);
    let v: u32 = c as u32;
    assert(v as int == c as int);
    v <= 0x1F || (0x7F <= v && v <= 0x9F)
}

/// Whether output of `len` bytes is within the size accepted from the fleet-status command.
pub fn output_fits(len: usize) -> (fits: bool)
    ensures
        fits == (len <= FLEET_STATUS_MAX_BYTES),
{
    len as u64 <= FLEET_STATUS_MAX_BYTES
}

/// What a finished fleet-status command yields: its segment when its output is within the
/// accepted size and it exited successfully, and nothing otherwise.
pub fn command_outcome(output: Vec<u8>, exited_successfully: bool) -> (segment: Option<String>)
    ensures
        output@.len() <= FLEET_STATUS_MAX_BYTES && exited_successfully ==> (match segment {
            Some(s) => command_segment(output@) == Some(s@),
            None => command_segment(output@) is None,
        }),
        !(output@.len() <= FLEET_STATUS_MAX_BYTES && exited_successfully) ==> segment is None,
{
    if !output_fits(output.len()) || !exited_successfully {
        return None;
    }
    parse_command_output(output)
}

/// Reads the output of the fleet-status command into a segment.
pub fn parse_command_output(bytes: Vec<u8>) -> (segment: Option<String>)
    ensures
        segment matches Some(s) ==> command_segment(bytes@) == Some(s@),
        segment is None ==> command_segment(bytes@) is None,
{
    let ghost raw = bytes@;
    let output = match decode_utf8_string(bytes) {
        Some(o) => o,
        None => {
            return None;
        },
    };
    let chars = str_chars(output.as_str());
    let mut end = chars.len();
    if end > 0 && chars[end - 1] == '\n' {
        end = end - 1;
    }
    let ghost once = chars@.subrange(0, end as int);
    proof {
        assert(once =~= strip_last(chars@, '\n'));
    }
    if end > 0 && chars[end - 1] == '\r' {
        end = end - 1;
    }
    let ghost s = chars@.subrange(0, end as int);
    proof {
        assert(s =~= strip_last(once, '\r'));
    }
    if end == 0 {
        return None;
    }
    let mut text = String::new();
    let mut i: usize = 0;
    while i < end
        invariant
            i <= end <= chars@.len(),
            s == chars@.subrange(0, end as int),
            valid_utf8(raw),
            raw == bytes@,
            s == strip_last(strip_last(decode_utf8(raw), '\n'), '\r'),
            text@ == s.take(i as int),
            forall|j: int| 0 <= j < i ==> !is_control_char(#[trigger] s[j]),
        decreases end - i,
    {
        let c = chars[i];
        if is_control(c) {
            proof {
                assert(s[i as int] == c);
                assert(0 <= i < s.len() && is_control_char(s[i as int]));
            }
            return None;
        }
        push_char(&mut text, c);
        proof {
            assert(s.take(i + 1) =~= s.take(i as int).push(c));
        }
        i = i + 1;
    }
    proof {
        assert(text@ =~= s);
    }
    if !is_canonical_fleet_status(text.as_str()) {
        return None;
    }
    Some(text)
}


/// No control character anywhere in `s`.
pub open spec fn free_of_control(s: Seq<char>) -> bool {
    forall|i: int| 0 <= i < s.len() ==> !is_control_char(#[trigger] s[i])
}

proof fn lemma_join_free_of_control(ws: Seq<Seq<char>>)
    requires
        forall|i: int| 0 <= i < ws.len() ==> free_of_control(#[trigger] ws[i]),
    ensures
        free_of_control(join_words(ws)),
    decreases ws.len(),
{
    if ws.len() > 1 {
        let rest = ws.drop_last();
        assert forall|i: int| 0 <= i < rest.len() implies free_of_control(#[trigger] rest[i]) by {
            assert(rest[i] == ws[i]);
        }
        lemma_join_free_of_control(rest);
        let j = join_words(ws);
        let a = join_words(rest) + seq![' '];
        let w = ws.last();
        assert(free_of_control(w));
        assert forall|i: int| 0 <= i < j.len() implies !is_control_char(#[trigger] j[i]) by {
            if i < join_words(rest).len() {
                assert(j[i] == join_words(rest)[i]);
            } else if i == join_words(rest).len() {
                assert(j[i] == ' ');
            } else {
                assert(j[i] == w[i - a.len()]);
            }
        }
    } else if ws.len() == 1 {
        assert(free_of_control(ws[0]));
    }
}

proof fn lemma_marked_word(m: char, n: u64)
    requires
        !is_control_char(m),
    ensures
        free_of_control(seq![m] + decimal(n as nat)),
        (seq![m] + decimal(n as nat)).len() > 0,
        is_ascii_digit((seq![m] + decimal(n as nat)).last()),
{
    lemma_decimal(n as nat);
    let w = seq![m] + decimal(n as nat);
    let d = decimal(n as nat);
    assert forall|i: int| 0 <= i < w.len() implies !is_control_char(#[trigger] w[i]) by {
        if i > 0 {
            assert(w[i] == d[i - 1]);
            assert(is_ascii_digit(d[i - 1]));
        }
    }
    assert(w.last() == d[d.len() - 1]);
}

proof fn lemma_render_shape(c: FleetStatusCounts)
    ensures
        free_of_control(render_fleet(c)),
        render_fleet(c).len() > 0,
        is_ascii_digit(render_fleet(c).last()),
{
    let ws = fleet_words(c);
    let a = optional_word(c.approvals, approvals_marker());
    let u = optional_word(c.unread, unread_marker());
    let r = optional_word(c.active_runs, active_runs_marker());
    lemma_decimal(c.live as nat);
    let d = decimal(c.live as nat);
    assert forall|i: int| 0 <= i < d.len() implies !is_control_char(#[trigger] d[i]) by {
        assert(is_ascii_digit(d[i]));
    }
    if let Some(n) = c.approvals {
        lemma_marked_word(approvals_marker(), n);
    }
    if let Some(n) = c.unread {
        lemma_marked_word(unread_marker(), n);
    }
    if let Some(n) = c.active_runs {
        lemma_marked_word(active_runs_marker(), n);
    }
    assert(ws == seq![fleet_word(), d] + a + u + r);
    assert forall|i: int| 0 <= i < ws.len() implies free_of_control(#[trigger] ws[i]) by {
        if i == 0 {
        } else if i == 1 {
        } else if i < 2 + a.len() {
            assert(ws[i] == a[i - 2]);
        } else if i < 2 + a.len() + u.len() {
            assert(ws[i] == u[i - 2 - a.len()]);
        } else {
            assert(ws[i] == r[i - 2 - a.len() - u.len()]);
        }
    }
    lemma_join_free_of_control(ws);
    let last = ws.last();
    assert(last.len() > 0 && is_ascii_digit(last.last())) by {
        if r.len() > 0 {
            assert(last == r[0]);
        } else if u.len() > 0 {
            assert(last == u[0]);
        } else if a.len() > 0 {
            assert(last == a[0]);
        } else {
            assert(last == d);
            assert(d.last() == d[d.len() - 1]);
        }
    }
    assert(ws.len() >= 2);
    let j = join_words(ws);
    assert(j == join_words(ws.drop_last()) + seq![' '] + last);
    assert(j.last() == last.last());
}

/// A command that prints the canonical segment of valid counts, followed by a line feed, a
/// carriage return and a line feed, or nothing, is read back as exactly that segment.
pub proof fn lemma_command_output_roundtrip(c: FleetStatusCounts, ending: Seq<char>)
    requires
        counts_valid(c),
        ending == Seq::<char>::empty() || ending == seq!['\n'] || ending == seq!['\r', '\n'],
    ensures
        command_segment(encode_utf8(render_fleet(c) + ending)) == Some(render_fleet(c)),
{
    let s = render_fleet(c);
    let printed = s + ending;
    encode_utf8_valid_utf8(printed);
    encode_utf8_decode_utf8(printed);
    lemma_render_shape(c);
    assert(s.last() != '\n' && s.last() != '\r');
    if ending == seq!['\n'] {
        assert(printed.drop_last() =~= s);
    } else if ending == seq!['\r', '\n'] {
        assert(printed.drop_last() =~= s.push('\r'));
        assert(s.push('\r').drop_last() =~= s);
    } else {
        assert(printed =~= s);
    }
    assert(strip_last(strip_last(printed, '\n'), '\r') == s);
    assert(fleet_counts_of(s) is Some) by {
        assert(counts_valid(c) && render_fleet(c) == s);
    }
}

} // verus!
