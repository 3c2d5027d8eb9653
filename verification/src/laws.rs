//! Laws of the status line, stated over inputs and results: what each rendering must be, by
//! the numbers it shows and the order of its parts.
use vstd::prelude::*;

use crate::fleet_segment::{
    counts_valid, all_digits, digits_value, fleet_counts_of, fleet_word, fleet_words, join_words,
    lemma_decimal, optional_word, render_fleet, FleetStatusCounts,
};
use crate::fleet_status::{
    command_segment, free_of_control, is_control_char, FleetRefresh, FleetStatusState, Instant,
    FLEET_STATUS_REFRESH_INTERVAL_NANOS,
};
use crate::hooks::{
    ascii_lower, is_reserved_name, lowercase_ascii, reserved_entries, HookSessionIdentity, CODEX_PARENT_THREAD_ID_ENV_VAR, CODEX_SESSION_ID_ENV_VAR,
    CODEX_THREAD_ID_ENV_VAR, CODEX_THREAD_TOKEN_ENV_VAR,
};
use vstd::utf8::{decode_utf8, valid_utf8};
use crate::ids::{hex_char, hex_digits, uuid_text, ThreadId};
use crate::status_format::{
    clamp_nonneg, countdown_text, is_unicode_ws, reset_details_text, title_text,
    tokens_text, trim_end, trim_start, usage_style_of, used_tokens_text, ClaudeLimit,
};
use crate::status_line::{
    composed_spans, compact_right_marker, first_marker, right_marker, split_spans, SpanView,
    context_percent, context_span, fleet_status_spans, gray_style, left_spans,
    limit_spans, model_text, right_spans, ClaudeStatusLineData,
};
use crate::styled::{bold_style, dim_style, fg_style, plain_style, spans_text, Color, Style};
use crate::text::{decimal, signed_decimal};

verus! {

/// A decimal rendering is a run of ASCII digits, without a leading zero unless it is `0`,
/// whose value is the number rendered.
pub proof fn law_decimal(n: nat)
    ensures
        decimal(n).len() > 0,
        all_digits(decimal(n)),
        digits_value(decimal(n)) == n,
        decimal(n).len() == 1 || decimal(n)[0] != '0',
        decimal(n).len() == 1 <==> n < 10,
    decreases n,
{
    lemma_decimal(n);
    if n >= 10 {
        law_decimal(n / 10);
        let d = decimal(n);
        assert(d.drop_last() =~= decimal(n / 10));
        assert(d[0] == decimal(n / 10)[0]);
        if decimal(n / 10).len() == 1 {
            assert(n / 10 >= 1);
            assert(digits_value(decimal(n / 10)) == (decimal(n / 10)[0] as int) - 48) by {
                assert(decimal(n / 10).drop_last() =~= Seq::<char>::empty());
                assert(digits_value(Seq::<char>::empty()) == 0);
            }
        }
    }
}

/// A countdown to a reset: nothing unless the reset is ahead; from a day ahead, whole days and
/// the hours left over (`1d3h`); from an hour ahead, hours and minutes (`3h46m`); below an hour,
/// minutes.
pub proof fn law_countdown(resets_at: int, now: int)
    ensures
        ({
            let r = resets_at - now;
            &&& (r < i64::MIN || r > i64::MAX || r <= 0 ==> countdown_text(resets_at, now) is None)
            &&& (86_400 <= r <= i64::MAX ==> countdown_text(resets_at, now) == Some(
                decimal((r / 86_400) as nat).push('d') + decimal(((r - (r / 86_400) * 86_400)
                    / 3_600) as nat).push('h'),
            ))
            &&& (3_600 <= r < 86_400 ==> countdown_text(resets_at, now) == Some(
                decimal((r / 3_600) as nat).push('h') + decimal(((r - (r / 3_600) * 3_600) / 60) as nat).push('m'),
            ))
            &&& (0 < r < 3_600 ==> countdown_text(resets_at, now) == Some(
                decimal((r / 60) as nat).push('m'),
            ))
        }),
{
    let r = resets_at - now;
    if r > 0 {
        assert(r % 86_400 == r - (r / 86_400) * 86_400);
        assert(r % 3_600 == r - (r / 3_600) * 3_600);
        if r < 86_400 {
            assert(r / 86_400 == 0);
            assert(r % 86_400 == r);
        }
        if r < 3_600 {
            assert(r % 3_600 == r);
        }
    }
}

/// Usage colour bands: light green below 50, yellow (not bold) from 50 to 84, bold red from 85.
pub proof fn law_usage_bands(p: int)
    ensures
        p < 50 ==> usage_style_of(p) == fg_style(Color::LightGreen),
        50 <= p <= 84 ==> usage_style_of(p) == fg_style(Color::Yellow),
        p >= 85 ==> usage_style_of(p) == bold_style(Color::Red),
        !usage_style_of(p).add_modifier.bold <==> p < 85,
{
}

/// Usage bands only rise with the percentage.
pub open spec fn band(p: int) -> int {
    if usage_style_of(p) == bold_style(Color::Red) {
        2
    } else if usage_style_of(p) == fg_style(Color::Yellow) {
        1
    } else {
        0
    }
}

/// A higher percentage is never shown in a lower band.
pub proof fn law_usage_bands_monotone(p: int, q: int)
    requires
        p <= q,
    ensures
        band(p) <= band(q),
{
    law_usage_bands(p);
    law_usage_bands(q);
}

/// The left side: the title part when there is a title, then the directory, then the branch
/// part when there is a branch, whatever the other fields hold.
pub proof fn law_left_side(data: ClaudeStatusLineData)
    ensures
        ({
            let spans = left_spans(data);
            let t: int = if data.thread_title is Some {
                2
            } else {
                0
            };
            let n: int = t + 1 + if data.git_branch is Some {
                1int
            } else {
                0int
            };
            &&& spans.len() == n
            &&& (data.thread_title matches Some(x) ==> spans[0] == (title_text(x@), fg_style(Color::DarkGray))
                && spans[1] == (seq![':', ' '], fg_style(Color::DarkGray)))
            &&& spans[t] == (data.current_dir@, fg_style(Color::DarkGray))
            &&& (data.git_branch matches Some(b) ==> spans[n - 1] == (
                seq![' ', '('] + b@ + seq![')'],
                fg_style(Color::DarkGray),
            ))
        }),
{
}

/// A refresh starts a query for the active thread whenever none is in flight and the last one
/// started at least a refresh interval before (or there was none), whatever segment is shown;
/// the query is then in flight, started now, and the next frame is due an interval later.
pub proof fn law_refresh_starts_due_query(s: FleetStatusState, now: Instant, thread: ThreadId)
    requires
        s.active_thread_id == Some(thread),
        !s.pending,
        s.last_requested_at matches Some(t) ==> now.nanos >= t.nanos + FLEET_STATUS_REFRESH_INTERVAL_NANOS,
        FleetStatusState::refresh_in_range(s, now),
    ensures
        FleetStatusState::refreshed(s, now).1 == Some(
            FleetRefresh {
                query_thread: Some(thread),
                frame_due: Some(Instant { nanos: (now.nanos + FLEET_STATUS_REFRESH_INTERVAL_NANOS) as u64 }),
            },
        ),
        FleetStatusState::refreshed(s, now).0 == (FleetStatusState {
            pending: true,
            last_requested_at: Some(now),
            ..s
        }),
{
}

/// A refresh that finds a query in flight, or the last one started less than an interval ago,
/// starts none and changes nothing.
pub proof fn law_refresh_not_due(s: FleetStatusState, now: Instant)
    requires
        s.active_thread_id is Some,
        s.pending || (s.last_requested_at matches Some(t) && now.nanos < t.nanos
            + FLEET_STATUS_REFRESH_INTERVAL_NANOS),
    ensures
        FleetStatusState::refreshed(s, now).0 == s,
        FleetStatusState::refreshed(s, now).1 matches Some(r) && r.query_thread is None,
{
}

/// What a refresh decides does not depend on the segment shown, and the refresh keeps it.
pub proof fn law_refresh_ignores_segment(s: FleetStatusState, now: Instant, segment: Option<String>)
    ensures
        FleetStatusState::refreshed(FleetStatusState { segment, ..s }, now).1
            == FleetStatusState::refreshed(s, now).1,
        FleetStatusState::refreshed(FleetStatusState { segment, ..s }, now).0 == (FleetStatusState {
            segment,
            ..FleetStatusState::refreshed(s, now).0
        }),
{
}

proof fn lemma_trim_start_range(s: Seq<char>) -> (i: int)
    ensures
        0 <= i <= s.len(),
        trim_start(s) == s.subrange(i, s.len() as int),
        forall|k: int| 0 <= k < i ==> is_unicode_ws(#[trigger] s[k]),
        i < s.len() ==> !is_unicode_ws(s[i]),
    decreases s.len(),
{
    if s.len() > 0 && is_unicode_ws(s[0]) {
        let rest = s.drop_first();
        let j = lemma_trim_start_range(rest);
        assert(rest.subrange(j, rest.len() as int) =~= s.subrange(j + 1, s.len() as int));
        assert forall|k: int| 0 <= k < j + 1 implies is_unicode_ws(#[trigger] s[k]) by {
            if k > 0 {
                assert(s[k] == rest[k - 1]);
            }
        }
        if j + 1 < s.len() {
            assert(s[j + 1] == rest[j]);
        }
        j + 1
    } else {
        assert(s.subrange(0, s.len() as int) =~= s);
        0
    }
}

proof fn lemma_trim_end_range(s: Seq<char>) -> (j: int)
    ensures
        0 <= j <= s.len(),
        trim_end(s) == s.subrange(0, j),
        forall|k: int| j <= k < s.len() ==> is_unicode_ws(#[trigger] s[k]),
        j > 0 ==> !is_unicode_ws(s[j - 1]),
    decreases s.len(),
{
    if s.len() > 0 && is_unicode_ws(s.last()) {
        let rest = s.drop_last();
        let j = lemma_trim_end_range(rest);
        assert(rest.subrange(0, j) =~= s.subrange(0, j));
        assert forall|k: int| j <= k < s.len() implies is_unicode_ws(#[trigger] s[k]) by {
            if k < s.len() - 1 {
                assert(s[k] == rest[k]);
            }
        }
        if j > 0 {
            assert(s[j - 1] == rest[j - 1]);
        }
        j
    } else {
        assert(s.subrange(0, s.len() as int) =~= s);
        s.len() as int
    }
}

/// A shown title: the title without its leading and trailing whitespace (a stretch of the title
/// starting and ending with non-whitespace, with only whitespace around it); when that is longer
/// than 39 characters, its first 39 characters followed by `…`.
pub proof fn law_title(title: Seq<char>)
    ensures
        exists|i: int, j: int|
            {
                &&& 0 <= i <= j <= title.len()
                &&& trim_end(trim_start(title)) == title.subrange(i, j)
                &&& (forall|k: int| 0 <= k < i ==> is_unicode_ws(#[trigger] title[k]))
                &&& (forall|k: int| j <= k < title.len() ==> is_unicode_ws(#[trigger] title[k]))
                &&& (i < j ==> !is_unicode_ws(title[i]) && !is_unicode_ws(title[j - 1]))
            },
        ({
            let t = trim_end(trim_start(title));
            let shown = title_text(title);
            &&& (t.len() <= 39 ==> shown == t)
            &&& (t.len() > 39 ==> shown.len() == 40 && shown[39] == '\u{2026}' && forall|k: int|
                0 <= k < 39 ==> #[trigger] shown[k] == t[k])
        }),
{
    let i = lemma_trim_start_range(title);
    let s = trim_start(title);
    let j = lemma_trim_end_range(s);
    assert(trim_end(s) =~= title.subrange(i, i + j));
    assert forall|k: int| i + j <= k < title.len() implies is_unicode_ws(#[trigger] title[k]) by {
        assert(title[k] == s[k - i]);
    }
    if j > 0 {
        assert(title[i] == s[0]);
        assert(title[i + j - 1] == s[j - 1]);
        if i < title.len() {
        }
    }
    assert({
        &&& 0 <= i <= i + j <= title.len()
        &&& trim_end(trim_start(title)) == title.subrange(i, i + j)
        &&& (forall|k: int| 0 <= k < i ==> is_unicode_ws(#[trigger] title[k]))
        &&& (forall|k: int| i + j <= k < title.len() ==> is_unicode_ws(#[trigger] title[k]))
        &&& (i < i + j ==> !is_unicode_ws(title[i]) && !is_unicode_ws(title[i + j - 1]))
    });
}


/// A signed rendering: the decimal rendering, behind a `-` exactly when negative.
pub proof fn law_signed_decimal(i: int)
    ensures
        i >= 0 ==> signed_decimal(i) == decimal(i as nat),
        i < 0 ==> signed_decimal(i).len() >= 2 && signed_decimal(i)[0] == '-'
            && signed_decimal(i).drop_first() == decimal((-i) as nat),
{
    if i < 0 {
        law_decimal((-i) as nat);
        assert((seq!['-'] + decimal((-i) as nat)).drop_first() =~= decimal((-i) as nat));
    }
}

/// A token count, negative counts taken as zero: a whole number of millions as that number
/// and `M`; anything else as the count in thousands rounded half up, and `k`.
pub proof fn law_tokens(t: int, fractional: Seq<char>)
    ensures
        ({
            let c = clamp_nonneg(t);
            let s = tokens_text(t);
            &&& s.len() >= 2
            &&& (c >= 1_000_000 && c % 1_000_000 == 0 ==> s.last() == 'M' && s.drop_last() == decimal(
                (c / 1_000_000) as nat,
            ) && (c / 1_000_000) * 1_000_000 == c)
            &&& (!(c >= 1_000_000 && c % 1_000_000 == 0) ==> s.last() == 'k' && exists|x: nat|
                #![trigger decimal(x)]
                s.drop_last() == decimal(x) && x * 1000 <= c + 500 < x * 1000 + 1000)
            &&& (c >= 1000 ==> exists|x: nat|
                #![trigger decimal(x)]
                used_tokens_text(t, fractional) == decimal(x) && x * 1000 <= c + 500 < x * 1000
                    + 1000)
            &&& (c < 1000 ==> used_tokens_text(t, fractional) == fractional)
            &&& (t < 0 ==> c == 0)
            &&& (t >= 0 ==> c == t)
        }),
{
    let c = clamp_nonneg(t);
    let m = (c / 1_000_000) as nat;
    let x = ((c + 500) / 1000) as nat;
    law_decimal(m);
    law_decimal(x);
    assert(decimal(m).push('M').drop_last() =~= decimal(m));
    assert(decimal(x).push('k').drop_last() =~= decimal(x));
    assert(x * 1000 <= c + 500 < x * 1000 + 1000);
}

/// The context percentage: 100 from a full window on, else the used share of the window in
/// whole percent, rounded down.
pub proof fn law_context_percent(used: int, window: int)
    requires
        window > 0,
    ensures
        ({
            let u = clamp_nonneg(used);
            let p = context_percent(used, window);
            &&& (u >= window ==> p == 100)
            &&& (u < window ==> 0 <= p < 100 && p * window <= u * 100 < (p + 1) * window)
        }),
{
    let u = clamp_nonneg(used);
    let q = u * 100 / window;
    assert(q * window <= u * 100 < (q + 1) * window) by (nonlinear_arith)
        requires
            q == u * 100 / window,
            window > 0,
            u >= 0,
    ;
    if u >= window {
        assert(q >= 100) by (nonlinear_arith)
            requires
                q * window <= u * 100 < (q + 1) * window,
                u >= window,
                window > 0,
        ;
    } else {
        assert(0 <= q < 100) by (nonlinear_arith)
            requires
                q * window <= u * 100 < (q + 1) * window,
                0 <= u < window,
                window > 0,
        ;
    }
}

/// The context usage: `used/window (p%)` in the colour of its band when both are known and the
/// window is positive, else a gray `--`.
pub proof fn law_context_span(data: ClaudeStatusLineData, fractional: Seq<char>)
    ensures
        match (data.context_used_tokens, data.context_window) {
            (Some(used), Some(window)) => window > 0 ==> {
                let p = context_percent(used as int, window as int);
                &&& context_span(data, fractional).0 == used_tokens_text(used as int, fractional)
                    + seq!['/'] + tokens_text(window as int) + seq![' ', '('] + decimal(p as nat)
                    + seq!['%', ')']
                &&& context_span(data, fractional).1 == usage_style_of(p)
            },
            _ => true,
        },
        !(data.context_used_tokens is Some && data.context_window is Some
            && data.context_window.unwrap() > 0) ==> context_span(data, fractional) == (
            seq!['-', '-'],
            fg_style(Color::DarkGray),
        ),
{
}

/// A usage limit shows a gray ` · `, its gray label and a space, its percentage and `%` in the
/// colour of its band, and, when asked for and known, its reset details in gray parentheses.
pub proof fn law_limit_spans(limit: Option<ClaudeLimit>, now: int, include_resets: bool)
    ensures
        limit is None ==> limit_spans(limit, now, include_resets).len() == 0,
        limit matches Some(l) ==> {
            let sp = limit_spans(limit, now, include_resets);
            let shown = include_resets && reset_details_text(l, now) is Some;
            &&& sp.len() == if shown {
                4int
            } else {
                3int
            }
            &&& sp[0] == (seq![' ', '\u{b7}', ' '], fg_style(Color::DarkGray))
            &&& sp[1] == (l.label@.push(' '), fg_style(Color::DarkGray))
            &&& sp[2] == (signed_decimal(l.used_percent as int).push('%'), usage_style_of(
                l.used_percent as int,
            ))
            &&& (shown ==> sp[3] == (seq![' ', '('] + reset_details_text(l, now).unwrap() + seq![')'],
                fg_style(Color::DarkGray)))
        },
{
}

/// The right side, in order: the model in dim cyan, two plain spaces, the fleet group, a gray
/// `ctx `, the context usage, the five-hour limit and then the weekly limit.
pub proof fn law_right_side(data: ClaudeStatusLineData, include_resets: bool, fractional: Seq<char>)
    ensures
        ({
            let sp = right_spans(data, include_resets, fractional);
            let fl = fleet_status_spans(data.fleet_status);
            let now = data.now_epoch_seconds as int;
            let five = limit_spans(data.five_hour, now, include_resets);
            let week = limit_spans(data.weekly, now, include_resets);
            let f = fl.len() as int;
            &&& sp.len() == 4 + fl.len() + five.len() + week.len()
            &&& sp[0] == (model_text(data), Style {
                fg: Some(Color::Cyan),
                add_modifier: crate::styled::Modifiers { bold: false, dim: true },
            })
            &&& sp[1] == (seq![' ', ' '], plain_style())
            &&& sp.subrange(2, 2 + f) == fl
            &&& sp[2 + f] == (seq!['c', 't', 'x', ' '], fg_style(Color::DarkGray))
            &&& sp[3 + f] == context_span(data, fractional)
            &&& sp.subrange(4 + f, 4 + f + five.len()) == five
            &&& sp.subrange(4 + f + five.len(), sp.len() as int) == week
        }),
{
    let sp = right_spans(data, include_resets, fractional);
    let fl = fleet_status_spans(data.fleet_status);
    let now = data.now_epoch_seconds as int;
    let five = limit_spans(data.five_hour, now, include_resets);
    let week = limit_spans(data.weekly, now, include_resets);
    let f = fl.len() as int;
    assert(sp.subrange(2, 2 + f) =~= fl);
    assert(sp.subrange(4 + f, 4 + f + five.len()) =~= five);
    assert(sp.subrange(4 + f + five.len(), sp.len() as int) =~= week);
}

/// The model label: the model alone without attributes; otherwise ` [`, the context window (when
/// known) and the reasoning effort (when set) separated by `, `, and `]`.
pub proof fn law_model_text(data: ClaudeStatusLineData)
    ensures
        ({
            let m = data.model@;
            let r = data.reasoning@;
            match data.max_context_window {
                None => if r.len() == 0 {
                    model_text(data) == m
                } else {
                    model_text(data) == m + seq![' ', '['] + r + seq![']']
                },
                Some(w) => if r.len() == 0 {
                    model_text(data) == m + seq![' ', '['] + tokens_text(w as int) + seq![']']
                } else {
                    model_text(data) == m + seq![' ', '['] + tokens_text(w as int) + seq![',', ' ']
                        + r + seq![']']
                },
            }
        }),
{
    let m = data.model@;
    let r = data.reasoning@;
    match data.max_context_window {
        None => {
            if r.len() == 0 {
                assert(crate::status_line::model_attributes(data) =~= Seq::<Seq<char>>::empty());
                assert(m + Seq::<char>::empty() =~= m);
            } else {
                assert(crate::status_line::model_attributes(data) =~= seq![r]);
                assert(crate::status_line::join_with(seq![r], seq![',', ' ']) == r);
                assert(m + (seq![' ', '['] + r + seq![']']) =~= m + seq![' ', '['] + r + seq![']']);
            }
        },
        Some(w) => {
            let t = tokens_text(w as int);
            if r.len() == 0 {
                assert(crate::status_line::model_attributes(data) =~= seq![t]);
                assert(crate::status_line::join_with(seq![t], seq![',', ' ']) == t);
                assert(m + (seq![' ', '['] + t + seq![']']) =~= m + seq![' ', '['] + t + seq![']']);
            } else {
                let ws = seq![t, r];
                assert(crate::status_line::model_attributes(data) =~= ws);
                assert(ws.drop_last() =~= seq![t]);
                assert(crate::status_line::join_with(seq![t], seq![',', ' ']) == t);
                assert(m + (seq![' ', '['] + (t + seq![',', ' '] + r) + seq![']']) =~= m + seq![
                    ' ',
                    '[',
                ] + t + seq![',', ' '] + r + seq![']']);
            }
        },
    }
}

/// The text of one optional count in a segment: a space, its marker and the count.
pub open spec fn count_text(count: Option<u64>, marker: char) -> Seq<char> {
    match count {
        Some(n) => seq![' ', marker] + decimal(n as nat),
        None => seq![],
    }
}

proof fn lemma_join_optional(ws: Seq<Seq<char>>, count: Option<u64>, marker: char)
    requires
        ws.len() >= 1,
    ensures
        join_words(ws + optional_word(count, marker)) == join_words(ws) + count_text(count, marker),
        (ws + optional_word(count, marker)).len() >= 1,
{
    match count {
        Some(n) => {
            let w = seq![marker] + decimal(n as nat);
            assert(ws + optional_word(count, marker) =~= ws.push(w));
            assert(ws.push(w).drop_last() =~= ws);
            assert(join_words(ws) + seq![' '] + w =~= join_words(ws) + count_text(count, marker));
        },
        None => {
            assert(ws + optional_word(count, marker) =~= ws);
            assert(join_words(ws) + count_text(count, marker) =~= join_words(ws));
        },
    }
}

/// The canonical segment: `fleet`, a space and the live count, then ` ⚠A`, ` ✉U` and ` ⇄R` for
/// the counts that are present, in that order.
pub proof fn law_render_fleet(c: FleetStatusCounts)
    ensures
        render_fleet(c) == seq!['f', 'l', 'e', 'e', 't', ' '] + decimal(c.live as nat) + count_text(
            c.approvals,
            '\u{26a0}',
        ) + count_text(c.unread, '\u{2709}') + count_text(c.active_runs, '\u{21c4}'),
{
    let w0 = seq![fleet_word(), decimal(c.live as nat)];
    assert(w0.drop_last() =~= seq![fleet_word()]);
    assert(join_words(seq![fleet_word()]) == fleet_word());
    assert(join_words(w0) == fleet_word() + seq![' '] + decimal(c.live as nat));
    assert(join_words(w0) =~= seq!['f', 'l', 'e', 'e', 't', ' '] + decimal(c.live as nat));
    let a = optional_word(c.approvals, '\u{26a0}');
    let u = optional_word(c.unread, '\u{2709}');
    let r = optional_word(c.active_runs, '\u{21c4}');
    lemma_join_optional(w0, c.approvals, '\u{26a0}');
    lemma_join_optional(w0 + a, c.unread, '\u{2709}');
    lemma_join_optional(w0 + a + u, c.active_runs, '\u{21c4}');
    assert(fleet_words(c) =~= w0 + a + u + r);
}

/// The fleet group of a canonical segment: a gray `fleet `, the live count unstyled, then for
/// each present count a plain space and the count behind its marker (approvals in bold red,
/// unread in yellow, active runs in cyan), and a gray ` · `; nothing for any other segment.
pub proof fn law_fleet_group(status: Option<String>)
    ensures
        match status {
            Some(s) => match fleet_counts_of(s@) {
                Some(c) => fleet_status_spans(status) == seq![
                    (seq!['f', 'l', 'e', 'e', 't', ' '], fg_style(Color::DarkGray)),
                    (decimal(c.live as nat), plain_style()),
                ] + (match c.approvals {
                    Some(n) => seq![
                        (seq![' '], plain_style()),
                        (seq!['\u{26a0}'] + decimal(n as nat), bold_style(Color::Red)),
                    ],
                    None => seq![],
                }) + (match c.unread {
                    Some(n) => seq![
                        (seq![' '], plain_style()),
                        (seq!['\u{2709}'] + decimal(n as nat), fg_style(Color::Yellow)),
                    ],
                    None => seq![],
                }) + (match c.active_runs {
                    Some(n) => seq![
                        (seq![' '], plain_style()),
                        (seq!['\u{21c4}'] + decimal(n as nat), fg_style(Color::Cyan)),
                    ],
                    None => seq![],
                }) + seq![(seq![' ', '\u{b7}', ' '], fg_style(Color::DarkGray))],
                None => fleet_status_spans(status).len() == 0,
            },
            None => fleet_status_spans(status).len() == 0,
        },
{
    if let Some(s) = status {
        if let Some(c) = fleet_counts_of(s@) {
            assert(fleet_word().push(' ') =~= seq!['f', 'l', 'e', 'e', 't', ' ']);
        }
    }
}

/// Reset details: `↻` and the countdown when the reset is ahead, the resets left (`1 reset
/// left`, `N resets left`), both joined by `; `, or nothing when neither is known.
pub proof fn law_reset_details(limit: ClaudeLimit, now: int)
    ensures
        ({
            let countdown = match limit.resets_at {
                Some(at) => countdown_text(at as int, now),
                None => None,
            };
            let count = match limit.resets_left {
                Some(n) => Some(signed_decimal(n as int) + if n == 1 {
                    seq![' ', 'r', 'e', 's', 'e', 't', ' ', 'l', 'e', 'f', 't']
                } else {
                    seq![' ', 'r', 'e', 's', 'e', 't', 's', ' ', 'l', 'e', 'f', 't']
                }),
                None => None,
            };
            match (countdown, count) {
                (None, None) => reset_details_text(limit, now) is None,
                (Some(c), None) => reset_details_text(limit, now) == Some(seq!['\u{21bb}'] + c),
                (None, Some(k)) => reset_details_text(limit, now) == Some(k),
                (Some(c), Some(k)) => reset_details_text(limit, now) == Some(
                    seq!['\u{21bb}'] + c + seq![';', ' '] + k,
                ),
            }
        }),
{
}

/// The text of spans put together is the text of each, put together.
pub proof fn law_spans_text_concat(a: Seq<(Seq<char>, Style)>, b: Seq<(Seq<char>, Style)>)
    ensures
        spans_text(a + b) == spans_text(a) + spans_text(b),
    decreases b.len(),
{
    if b.len() == 0 {
        assert(a + b =~= a);
        assert(spans_text(a) + spans_text(b) =~= spans_text(a));
    } else {
        law_spans_text_concat(a, b.drop_last());
        assert((a + b).drop_last() =~= a + b.drop_last());
        assert((a + b).last() == b.last());
        assert(spans_text(a) + spans_text(b) =~= spans_text(a) + spans_text(b.drop_last()) + b.last().0);
    }
}


/// The value of a lowercase hexadecimal digit.
pub open spec fn hex_digit_value(c: char) -> int {
    if 48 <= (c as int) <= 57 {
        (c as int) - 48
    } else {
        (c as int) - 87
    }
}

/// A lowercase hexadecimal digit.
pub open spec fn is_lower_hex(c: char) -> bool {
    48 <= (c as int) <= 57 || 97 <= (c as int) <= 102
}

/// The number that a string of hexadecimal digits denotes.
pub open spec fn hex_value(s: Seq<char>) -> int
    decreases s.len(),
{
    if s.len() == 0 {
        0
    } else {
        hex_value(s.drop_last()) * 16 + hex_digit_value(s.last())
    }
}

/// Sixteen to the power `n`.
pub open spec fn pow16(n: nat) -> nat
    decreases n,
{
    if n == 0 {
        1
    } else {
        16 * pow16((n - 1) as nat)
    }
}

proof fn lemma_hex_digits(v: nat, n: nat)
    ensures
        hex_digits(v, n).len() == n,
        forall|i: int| 0 <= i < n ==> is_lower_hex(#[trigger] hex_digits(v, n)[i]),
        hex_value(hex_digits(v, n)) == v % pow16(n),
        pow16(n) > 0,
    decreases n,
{
    if n > 0 {
        let m = (n - 1) as nat;
        lemma_hex_digits(v / 16, m);
        let h = hex_digits(v, n);
        let prev = hex_digits(v / 16, m);
        assert(h == prev.push(hex_char(v % 16)));
        assert(h.drop_last() =~= prev);
        let d: nat = v % 16;
        assert(hex_digit_value(hex_char(d)) == d && is_lower_hex(hex_char(d))) by {
            if d < 10 {
                assert((hex_char(d) as int) == 48 + d);
            } else {
                assert((hex_char(d) as int) == 87 + d);
            }
        }
        assert forall|i: int| 0 <= i < n implies is_lower_hex(#[trigger] h[i]) by {
            if i < m {
                assert(h[i] == prev[i]);
            }
        }
        let p: int = pow16(m) as int;
        let q: int = (v / 16) as int;
        let a: int = q / p;
        let b: int = q % p;
        assert(v == q * 16 + d);
        vstd::arithmetic::div_mod::lemma_fundamental_div_mod(q, p);
        vstd::arithmetic::div_mod::lemma_mod_pos_bound(q, p);
        assert(v == a * (16 * p) + (16 * b + d)) by (nonlinear_arith)
            requires
                v == q * 16 + d,
                q == p * a + b,
        ;
        assert(0 <= 16 * b + d < 16 * p) by (nonlinear_arith)
            requires
                0 <= b < p,
                0 <= d < 16,
        ;
        vstd::arithmetic::div_mod::lemma_fundamental_div_mod_converse(v as int, 16 * p, a, 16 * b + d as int);
    }
}

/// A thread or session id shows as 36 characters: 32 lowercase hexadecimal digits in groups of
/// 8, 4, 4, 4 and 12 separated by `-`, whose value is the UUID.
pub proof fn law_uuid_text(v: u128)
    ensures
        ({
            let u = uuid_text(v);
            let h = u.subrange(0, 8) + u.subrange(9, 13) + u.subrange(14, 18) + u.subrange(19, 23)
                + u.subrange(24, 36);
            &&& u.len() == 36
            &&& u[8] == '-' && u[13] == '-' && u[18] == '-' && u[23] == '-'
            &&& h.len() == 32
            &&& (forall|i: int| 0 <= i < 32 ==> is_lower_hex(#[trigger] h[i]))
            &&& hex_value(h) == v
        }),
{
    lemma_hex_digits(v as nat, 32);
    let full = hex_digits(v as nat, 32);
    let u = uuid_text(v);
    let h = u.subrange(0, 8) + u.subrange(9, 13) + u.subrange(14, 18) + u.subrange(19, 23)
        + u.subrange(24, 36);
    assert(h =~= full);
    reveal_with_fuel(pow16, 33);
    assert(pow16(32) == 0x1_0000_0000_0000_0000_0000_0000_0000_0000);
    assert(v < pow16(32));
    assert((v as nat) % pow16(32) == v);
}


/// What a command's output is read as: a non-empty canonical segment free of control
/// characters, which is the decoded output itself or the output without a final line feed,
/// carriage return, or carriage return and line feed.
pub proof fn law_command_segment(bytes: Seq<u8>)
    ensures
        command_segment(bytes) matches Some(s) ==> {
            &&& valid_utf8(bytes)
            &&& s.len() > 0
            &&& free_of_control(s)
            &&& fleet_counts_of(s) is Some
            &&& (decode_utf8(bytes) == s || decode_utf8(bytes) == s.push('\n') || decode_utf8(bytes)
                == s.push('\r') || decode_utf8(bytes) == s.push('\r').push('\n'))
        },
{
    if let Some(s) = command_segment(bytes) {
        let d = decode_utf8(bytes);
        let once = crate::fleet_status::strip_last(d, '\n');
        if d.len() > 0 && d.last() == '\n' {
            assert(once.push('\n') =~= d);
        }
        if once.len() > 0 && once.last() == '\r' {
            assert(s.push('\r') =~= once);
        }
        assert forall|i: int| 0 <= i < s.len() implies !is_control_char(#[trigger] s[i]) by {
            if is_control_char(s[i]) {
                assert(exists|k: int| 0 <= k < s.len() && is_control_char(#[trigger] s[k]));
            }
        }
    }
}

/// A cleared state shows the given thread, with no segment, no query in flight and none made.
pub proof fn law_cleared(active_thread_id: Option<ThreadId>)
    ensures
        FleetStatusState::cleared(active_thread_id).active_thread_id == active_thread_id,
        FleetStatusState::cleared(active_thread_id).segment is None,
        !FleetStatusState::cleared(active_thread_id).pending,
        FleetStatusState::cleared(active_thread_id).last_requested_at is None,
{
}

/// The reserved variables of an identity, in order: the thread id, the parent thread id only
/// for a child thread, the session id, and the token's secret.
pub proof fn law_reserved_entries(identity: HookSessionIdentity)
    ensures
        ({
            let e = reserved_entries(identity);
            let n: int = if identity.parent_thread_id is Some {
                4
            } else {
                3
            };
            &&& e.len() == n
            &&& e[0] == (CODEX_THREAD_ID_ENV_VAR@, uuid_text(identity.thread_id.uuid))
            &&& (identity.parent_thread_id matches Some(p) ==> e[1] == (
                CODEX_PARENT_THREAD_ID_ENV_VAR@,
                uuid_text(p.uuid),
            ))
            &&& e[n - 2] == (CODEX_SESSION_ID_ENV_VAR@, uuid_text(identity.session_id.uuid))
            &&& e[n - 1] == (CODEX_THREAD_TOKEN_ENV_VAR@, identity.thread_token.secret@)
        }),
{
}


/// The reserved names are `CODEX_THREAD_ID`, `CODEX_PARENT_THREAD_ID`, `CODEX_SESSION_ID` and
/// `CODEX_THREAD_TOKEN`.
pub proof fn law_reserved_names()
    ensures
        CODEX_THREAD_ID_ENV_VAR@ == seq![
            'C', 'O', 'D', 'E', 'X', '_', 'T', 'H', 'R', 'E', 'A', 'D', '_', 'I', 'D'
        ],
        CODEX_PARENT_THREAD_ID_ENV_VAR@ == seq![
            'C', 'O', 'D', 'E', 'X', '_', 'P', 'A', 'R', 'E', 'N', 'T', '_', 'T', 'H', 'R', 'E',
            'A', 'D', '_', 'I', 'D'
        ],
        CODEX_SESSION_ID_ENV_VAR@ == seq![
            'C', 'O', 'D', 'E', 'X', '_', 'S', 'E', 'S', 'S', 'I', 'O', 'N', '_', 'I', 'D'
        ],
        CODEX_THREAD_TOKEN_ENV_VAR@ == seq![
            'C', 'O', 'D', 'E', 'X', '_', 'T', 'H', 'R', 'E', 'A', 'D', '_', 'T', 'O', 'K', 'E',
            'N'
        ],
{
    reveal_strlit("CODEX_THREAD_ID");
    reveal_strlit("CODEX_PARENT_THREAD_ID");
    reveal_strlit("CODEX_SESSION_ID");
    reveal_strlit("CODEX_THREAD_TOKEN");
    assert(CODEX_THREAD_ID_ENV_VAR@ =~= seq![
        'C', 'O', 'D', 'E', 'X', '_', 'T', 'H', 'R', 'E', 'A', 'D', '_', 'I', 'D'
    ]);
    assert(CODEX_PARENT_THREAD_ID_ENV_VAR@ =~= seq![
        'C', 'O', 'D', 'E', 'X', '_', 'P', 'A', 'R', 'E', 'N', 'T', '_', 'T', 'H', 'R', 'E', 'A',
        'D', '_', 'I', 'D'
    ]);
    assert(CODEX_SESSION_ID_ENV_VAR@ =~= seq![
        'C', 'O', 'D', 'E', 'X', '_', 'S', 'E', 'S', 'S', 'I', 'O', 'N', '_', 'I', 'D'
    ]);
    assert(CODEX_THREAD_TOKEN_ENV_VAR@ =~= seq![
        'C', 'O', 'D', 'E', 'X', '_', 'T', 'H', 'R', 'E', 'A', 'D', '_', 'T', 'O', 'K', 'E', 'N'
    ]);
}

/// Making ASCII letters lower-case turns `A`..`Z` into `a`..`z` and leaves every other
/// character alone.
pub proof fn law_ascii_lower(c: char)
    ensures
        65 <= (c as int) <= 90 ==> (ascii_lower(c) as int) == (c as int) + 32,
        !(65 <= (c as int) <= 90) ==> ascii_lower(c) == c,
        ascii_lower(ascii_lower(c)) == ascii_lower(c),
{
}

/// A name reserved when matched exactly is reserved when matched ignoring ASCII case, and
/// ignoring ASCII case, a name and its lower-case form are reserved alike.
pub proof fn law_reserved_case(name: Seq<char>)
    ensures
        is_reserved_name(name, false) ==> is_reserved_name(name, true),
        is_reserved_name(lowercase_ascii(name), true) == is_reserved_name(name, true),
{
    assert(lowercase_ascii(lowercase_ascii(name)) =~= lowercase_ascii(name)) by {
        assert forall|i: int| 0 <= i < name.len() implies #[trigger] lowercase_ascii(
            lowercase_ascii(name),
        )[i] == lowercase_ascii(name)[i] by {
            law_ascii_lower(name[i]);
        }
    }
}


/// The styles: plain is no colour and no modifier; a colour alone, bold, or dimmed sets that
/// colour and only that modifier.
pub proof fn law_styles(color: Color)
    ensures
        plain_style() == (Style {
            fg: None,
            add_modifier: crate::styled::Modifiers { bold: false, dim: false },
        }),
        fg_style(color) == (Style {
            fg: Some(color),
            add_modifier: crate::styled::Modifiers { bold: false, dim: false },
        }),
        bold_style(color) == (Style {
            fg: Some(color),
            add_modifier: crate::styled::Modifiers { bold: true, dim: false },
        }),
        dim_style(color) == (Style {
            fg: Some(color),
            add_modifier: crate::styled::Modifiers { bold: false, dim: true },
        }),
        gray_style() == fg_style(Color::DarkGray),
{
}

/// Counts are valid exactly when no optional count is zero.
pub proof fn law_counts_valid(c: FleetStatusCounts)
    ensures
        counts_valid(c) <==> c.approvals != Some(0u64) && c.unread != Some(0u64) && c.active_runs
            != Some(0u64),
{
}

/// A composed line is its left side, a plain span of the right marker (NUL, then
/// `codex-status-right`, then NUL), its full right side, a plain span of the compact marker (NUL,
/// `codex-status-compact-right`, NUL) and its compact right side.
pub proof fn law_composed(left: Seq<SpanView>, right: Seq<SpanView>, compact_right: Seq<SpanView>)
    ensures
        composed_spans(left, right, compact_right) == left + seq![
            (seq!['\u{0}'] + seq!['c', 'o', 'd', 'e', 'x', '-', 's', 't', 'a', 't', 'u', 's', '-']
                + seq!['r', 'i', 'g', 'h', 't', '\u{0}'], plain_style()),
        ] + right + seq![
            (seq!['\u{0}'] + seq!['c', 'o', 'd', 'e', 'x', '-', 's', 't', 'a', 't', 'u', 's', '-']
                + seq!['c', 'o', 'm', 'p', 'a', 'c', 't', '-', 'r', 'i', 'g', 'h', 't', '\u{0}'],
                plain_style()),
        ] + compact_right,
{
    assert(seq!['\u{0}'] + seq!['c', 'o', 'd', 'e', 'x', '-', 's', 't', 'a', 't', 'u', 's', '-']
        + seq!['r', 'i', 'g', 'h', 't', '\u{0}'] =~= right_marker());
    assert(seq!['\u{0}'] + seq!['c', 'o', 'd', 'e', 'x', '-', 's', 't', 'a', 't', 'u', 's', '-']
        + seq!['c', 'o', 'm', 'p', 'a', 'c', 't', '-', 'r', 'i', 'g', 'h', 't', '\u{0}']
        =~= compact_right_marker());
}

/// What a split gives back is the line split, cut at a right-marker span and a later
/// compact-marker span: its left side holds neither marker, and its full right side holds no
/// compact marker.
pub proof fn law_split_sound(spans: Seq<SpanView>)
    ensures
        split_spans(spans) matches Some((l, r, c)) ==> {
            &&& spans[l.len() as int].0 == right_marker()
            &&& spans[(l.len() + 1 + r.len()) as int].0 == compact_right_marker()
            &&& spans =~= l + seq![spans[l.len() as int]] + r + seq![spans[(l.len() + 1 + r.len()) as int]] + c
            &&& forall|j: int| 0 <= j < l.len() ==> #[trigger] l[j].0 != right_marker()
                && l[j].0 != compact_right_marker()
            &&& forall|j: int| 0 <= j < r.len() ==> #[trigger] r[j].0 != compact_right_marker()
        },
{
    if let Some((l, r, c)) = split_spans(spans) {
        let ri = first_marker(spans, right_marker()).unwrap();
        let ci = first_marker(spans, compact_right_marker()).unwrap();
        let wr = choose|i: int| crate::status_line::is_first_marker(spans, right_marker(), i);
        let wc = choose|i: int| crate::status_line::is_first_marker(spans, compact_right_marker(), i);
        assert(ri == wr && ci == wc);
        assert(spans[ri].0 == right_marker());
        assert(spans[ci].0 == compact_right_marker());
        assert forall|j: int| 0 <= j < l.len() implies #[trigger] l[j].0 != right_marker()
            && l[j].0 != compact_right_marker() by {
            assert(l[j] == spans[j]);
        }
        assert forall|j: int| 0 <= j < r.len() implies #[trigger] r[j].0 != compact_right_marker() by {
            assert(r[j] == spans[ri + 1 + j]);
        }
    }
}

} // verus!
