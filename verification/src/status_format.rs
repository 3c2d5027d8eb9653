//! The pieces of text a status line is built from: token counts, reset countdowns and
//! details, usage colours and thread titles.
use vstd::prelude::*;

use crate::styled::{bold_style, fg_style, Color, Style};
use crate::text::{
    decimal, push_char, push_decimal, push_signed_decimal, signed_decimal, str_chars, u64_text,
};

verus! {

/// A usage limit shown on the right of the status line.
#[derive(Clone, Debug, PartialEq, Eq)]
pub struct ClaudeLimit {
    pub label: &'static str,
    pub used_percent: i64,
    pub resets_at: Option<i64>,
    pub resets_left: Option<i64>,
}

/// Negative counts show as zero.
pub open spec fn clamp_nonneg(t: int) -> int {
    if t < 0 {
        0
    } else {
        t
    }
}

/// A token count: whole millions as `NM`, anything else rounded to thousands as `Nk`.
pub open spec fn tokens_text(tokens: int) -> Seq<char> {
    let t = clamp_nonneg(tokens);
    if t >= 1_000_000 && t % 1_000_000 == 0 {
        decimal((t / 1_000_000) as nat).push('M')
    } else {
        decimal(((t + 500) / 1000) as nat).push('k')
    }
}

/// A used-token count: rounded to thousands from a thousand on, and below that the given
/// fractional rendering.
pub open spec fn used_tokens_text(tokens: int, fractional: Seq<char>) -> Seq<char> {
    let t = clamp_nonneg(tokens);
    if t >= 1000 {
        decimal(((t + 500) / 1000) as nat)
    } else {
        fractional
    }
}

/// Formats a token count.
pub fn format_tokens(tokens: i64) -> (text: String)
    requires
        tokens <= i64::MAX - 500,
    ensures
        text@ == tokens_text(tokens as int),
{
    let t: i64 = if tokens < 0 {
        0
    } else {
        tokens
    };
    let mut s = String::new();
    if t >= 1_000_000 && t % 1_000_000 == 0 {
        push_decimal(&mut s, (t / 1_000_000) as u64);
        push_char(&mut s, 'M');
    } else {
        push_decimal(&mut s, ((t + 500) / 1000) as u64);
        push_char(&mut s, 'k');
    }
    s
}

/// Formats a used-token count. Counts of a thousand or more are rounded to thousands;
/// below that `fractional` is used, which is the count in thousands with one decimal as the
/// caller renders it.
pub fn format_used_tokens(tokens: i64, fractional: &str) -> (text: String)
    requires
        tokens <= i64::MAX - 500,
    ensures
        text@ == used_tokens_text(tokens as int, fractional@),
{
    let t: i64 = if tokens < 0 {
        0
    } else {
        tokens
    };
    if t >= 1000 {
        u64_text(((t + 500) / 1000) as u64)
    } else {
        String::from_str(fractional)
    }
}

/// The colour band of a usage percentage: red and bold from 85, yellow from 50, else green.
pub open spec fn usage_style_of(percent: int) -> Style {
    if percent >= 85 {
        bold_style(Color::Red)
    } else if percent >= 50 {
        fg_style(Color::Yellow)
    } else {
        fg_style(Color::LightGreen)
    }
}

/// The style for a usage percentage.
pub fn usage_style(percent: i64) -> (style: Style)
    ensures
        style == usage_style_of(percent as int),
{
    if percent >= 85 {
        Style::bold(Color::Red)
    } else if percent >= 50 {
        Style::fg(Color::Yellow)
    } else {
        Style::fg(Color::LightGreen)
    }
}

/// Time left until a reset: `DdHh` from a day on, `HhMm` from an hour on, else `Mm`; nothing
/// when the reset is not in the future or the difference does not fit in an `i64`.
pub open spec fn countdown_text(resets_at: int, now: int) -> Option<Seq<char>> {
    let remaining = resets_at - now;
    if remaining < i64::MIN || remaining > i64::MAX || remaining <= 0 {
        None
    } else {
        let days = remaining / 86_400;
        let hours = remaining % 86_400 / 3_600;
        let minutes = remaining % 3_600 / 60;
        if days > 0 {
            Some(decimal(days as nat).push('d') + decimal(hours as nat).push('h'))
        } else if hours > 0 {
            Some(decimal(hours as nat).push('h') + decimal(minutes as nat).push('m'))
        } else {
            Some(decimal(minutes as nat).push('m'))
        }
    }
}

/// Formats the time left until `resets_at`, seen at `now`.
pub fn reset_countdown(resets_at: i64, now: i64) -> (countdown: Option<String>)
    ensures
        countdown matches Some(s) ==> countdown_text(resets_at as int, now as int) == Some(s@),
        countdown is None ==> countdown_text(resets_at as int, now as int) is None,
{
    let remaining = match resets_at.checked_sub(now) {
        Some(r) => r,
        None => {
            return None;
        },
    };
    if remaining <= 0 {
        return None;
    }
    let days = remaining / 86_400;
    let hours = remaining % 86_400 / 3_600;
    let minutes = remaining % 3_600 / 60;
    let mut s = String::new();
    if days > 0 {
        push_decimal(&mut s, days as u64);
        push_char(&mut s, 'd');
        push_decimal(&mut s, hours as u64);
        push_char(&mut s, 'h');
        proof {
            assert(s@ =~= decimal(days as nat).push('d') + decimal(hours as nat).push('h'));
        }
    } else if hours > 0 {
        push_decimal(&mut s, hours as u64);
        push_char(&mut s, 'h');
        push_decimal(&mut s, minutes as u64);
        push_char(&mut s, 'm');
        proof {
            assert(s@ =~= decimal(hours as nat).push('h') + decimal(minutes as nat).push('m'));
        }
    } else {
        push_decimal(&mut s, minutes as u64);
        push_char(&mut s, 'm');
        proof {
            assert(s@ =~= decimal(minutes as nat).push('m'));
        }
    }
    Some(s)
}

/// `N reset left` for one, `N resets left` otherwise.
pub open spec fn resets_left_text(count: int) -> Seq<char> {
    signed_decimal(count) + if count == 1 {
        seq![' ', 'r', 'e', 's', 'e', 't', ' ', 'l', 'e', 'f', 't']
    } else {
        seq![' ', 'r', 'e', 's', 'e', 't', 's', ' ', 'l', 'e', 'f', 't']
    }
}

/// The reset details of a limit: `↻` and the countdown, the resets left, both joined by `; `,
/// or nothing when neither is known.
pub open spec fn reset_details_text(limit: ClaudeLimit, now: int) -> Option<Seq<char>> {
    let countdown = match limit.resets_at {
        Some(at) => match countdown_text(at as int, now) {
            Some(c) => Some(seq!['\u{21bb}'] + c),
            None => None,
        },
        None => None,
    };
    let count = match limit.resets_left {
        Some(n) => Some(resets_left_text(n as int)),
        None => None,
    };
    match (countdown, count) {
        (Some(a), Some(b)) => Some(a + seq![';', ' '] + b),
        (Some(a), None) => Some(a),
        (None, Some(b)) => Some(b),
        (None, None) => None,
    }
}

/// Formats the reset details of `limit` at `now`.
pub fn reset_details(limit: &ClaudeLimit, now: i64) -> (details: Option<String>)
    ensures
        details matches Some(s) ==> reset_details_text(*limit, now as int) == Some(s@),
        details is None ==> reset_details_text(*limit, now as int) is None,
{
    let countdown: Option<String> = match limit.resets_at {
        Some(at) => match reset_countdown(at, now) {
            Some(remaining) => {
                let mut s = String::new();
                push_char(&mut s, '\u{21bb}');
                s.append(remaining.as_str());
                Some(s)
            },
            None => None,
        },
        None => None,
    };
    let count: Option<String> = match limit.resets_left {
        Some(n) => {
            let mut s = String::new();
            push_signed_decimal(&mut s, n);
            if n == 1 {
                proof {
                    reveal_strlit(" reset left");
                }
                s.append(" reset left");
            } else {
                proof {
                    reveal_strlit(" resets left");
                }
                s.append(" resets left");
            }
            Some(s)
        },
        None => None,
    };
    match (countdown, count) {
        (Some(a), Some(b)) => {
            let mut s = a;
            proof {
                reveal_strlit("; ");
            }
            s.append("; ");
            s.append(b.as_str());
            Some(s)
        },
        (Some(a), None) => Some(a),
        (None, Some(b)) => Some(b),
        (None, None) => None,
    }
}


/// Rust's `char::is_whitespace`: the Unicode `White_Space` characters.
pub open spec fn is_unicode_ws(c: char) -> bool {
    let v = c as int;
    ||| 0x9 <= v <= 0xD
    ||| v == 0x20
    ||| v == 0x85
    ||| v == 0xA0
    ||| v == 0x1680
    ||| 0x2000 <= v <= 0x200A
    ||| v == 0x2028
    ||| v == 0x2029
    ||| v == 0x202F
    ||| v == 0x205F
    ||| v == 0x3000
}

/// `s` without its leading whitespace.
pub open spec fn trim_start(s: Seq<char>) -> Seq<char>
    decreases s.len(),
{
    if s.len() > 0 && is_unicode_ws(s[0]) {
        trim_start(s.drop_first())
    } else {
        s
    }
}

/// `s` without its trailing whitespace.
pub open spec fn trim_end(s: Seq<char>) -> Seq<char>
    decreases s.len(),
{
    if s.len() > 0 && is_unicode_ws(s.last()) {
        trim_end(s.drop_last())
    } else {
        s
    }
}

/// A thread title as shown: trimmed, and cut to 39 characters followed by `…` when longer.
pub open spec fn title_text(title: Seq<char>) -> Seq<char> {
    let t = trim_end(trim_start(title));
    if t.len() > 39 {
        t.take(39).push('\u{2026}')
    } else {
        t
    }
}

fn is_whitespace(c: char) -> (ws: bool)
    ensures
        ws == is_unicode_ws(c),
{
    assert(c as int <= 0x10FFFF);
    let v: u32 = c as u32;
    assert(v as int == c as int);
    (0x9 <= v && v <= 0xD) || v == 0x20 || v == 0x85 || v == 0xA0 || v == 0x1680 || (0x2000 <= v
        && v <= 0x200A) || v == 0x2028 || v == 0x2029 || v == 0x202F || v == 0x205F || v == 0x3000
}

/// Shortens a thread title for the status line.
pub fn truncate_title(title: &str) -> (shown: String)
    ensures
        shown@ == title_text(title@),
{
    let chars = str_chars(title);
    let n = chars.len();
    let mut start: usize = 0;
    proof {
        assert(chars@.subrange(0, n as int) =~= chars@);
    }
    while start < n && is_whitespace(chars[start])
        invariant
            n == chars@.len(),
            start <= n,
            trim_start(chars@) == trim_start(chars@.subrange(start as int, n as int)),
        decreases n - start,
    {
        proof {
            let rest = chars@.subrange(start as int, n as int);
            assert(rest.drop_first() =~= chars@.subrange(start + 1, n as int));
        }
        start = start + 1;
    }
    proof {
        let rest = chars@.subrange(start as int, n as int);
        if start < n {
            assert(rest[0] == chars@[start as int]);
        }
        assert(trim_start(rest) == rest);
    }
    let mut end: usize = n;
    while end > start && is_whitespace(chars[end - 1])
        invariant
            n == chars@.len(),
            start <= end <= n,
            trim_end(chars@.subrange(start as int, n as int)) == trim_end(
                chars@.subrange(start as int, end as int),
            ),
        decreases end - start,
    {
        proof {
            let t = chars@.subrange(start as int, end as int);
            assert(t.drop_last() =~= chars@.subrange(start as int, end - 1));
            assert(t.last() == chars@[end - 1]);
        }
        end = end - 1;
    }
    let ghost trimmed = chars@.subrange(start as int, end as int);
    proof {
        if end > start {
            assert(trimmed.last() == chars@[end - 1]);
        }
        assert(trim_end(trimmed) == trimmed);
    }
    let mut shown = String::new();
    let mut i: usize = start;
    while i < end && i - start < 39
        invariant
            start <= i <= end,
            end <= n,
            n == chars@.len(),
            i - start <= 39,
            trimmed == chars@.subrange(start as int, end as int),
            shown@ == trimmed.take(i - start),
        decreases end - i,
    {
        push_char(&mut shown, chars[i]);
        proof {
            assert(trimmed.take(i + 1 - start) =~= trimmed.take(i - start).push(chars@[i as int]));
        }
        i = i + 1;
    }
    if i < end {
        push_char(&mut shown, '\u{2026}');
    } else {
        proof {
            assert(trimmed.take(i - start) =~= trimmed);
        }
    }
    shown
}


/// A shown title never exceeds 40 characters.
pub proof fn lemma_title_short(title: Seq<char>)
    ensures
        title_text(title).len() <= 40,
{
}

} // verus!
