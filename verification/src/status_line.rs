//! Two-sided status-line composition: a left side (title, directory, branch) and a right side
//! (model, fleet status, context usage, usage limits), the right side once in full and once
//! compact, joined by marker spans that a renderer splits on.
use vstd::prelude::*;

use crate::fleet_segment::{lemma_decimal, is_ascii_digit,
    active_runs_marker, approvals_marker, fleet_counts_of, fleet_word, parse_fleet_status,
    unread_marker, FleetStatusCounts,
};
use crate::status_format::{countdown_text, resets_left_text, trim_end, trim_start,
    clamp_nonneg, format_tokens, format_used_tokens, reset_details, reset_details_text, title_text,
    tokens_text, truncate_title, usage_style, usage_style_of, used_tokens_text, ClaudeLimit,
};
use crate::styled::{
    bold_style, copy_spans, dim_style, fg_style, plain_style, push_span, spans_view, Color, Line,
    Span, Style,
};
use crate::text::{decimal, push_char, push_decimal, push_signed_decimal, signed_decimal, string_of, u64_text};

verus! {

/// Marker span between the left side and the full right side. Renderers consume it; it is
/// never written to a terminal.
pub const RIGHT_MARKER: &'static str = "\u{0}codex-status-right\u{0}";

/// Marker span between the full right side and the compact right side.
pub const COMPACT_RIGHT_MARKER: &'static str = "\u{0}codex-status-compact-right\u{0}";

/// The characters of [`RIGHT_MARKER`].
pub open spec fn right_marker() -> Seq<char> {
    seq![
        '\u{0}', 'c', 'o', 'd', 'e', 'x', '-', 's', 't', 'a', 't', 'u', 's', '-', 'r', 'i', 'g',
        'h', 't', '\u{0}'
    ]
}

/// The characters of [`COMPACT_RIGHT_MARKER`].
pub open spec fn compact_right_marker() -> Seq<char> {
    seq![
        '\u{0}', 'c', 'o', 'd', 'e', 'x', '-', 's', 't', 'a', 't', 'u', 's', '-', 'c', 'o', 'm',
        'p', 'a', 'c', 't', '-', 'r', 'i', 'g', 'h', 't', '\u{0}'
    ]
}

/// What a status line shows.
#[derive(Clone, Debug, PartialEq, Eq)]
pub struct ClaudeStatusLineData {
    pub thread_title: Option<String>,
    pub current_dir: String,
    pub git_branch: Option<String>,
    pub model: String,
    pub max_context_window: Option<i64>,
    pub context_window: Option<i64>,
    pub reasoning: String,
    pub context_used_tokens: Option<i64>,
    pub fleet_status: Option<String>,
    pub five_hour: Option<ClaudeLimit>,
    pub weekly: Option<ClaudeLimit>,
    pub now_epoch_seconds: i64,
}

/// The three lines a composed status line splits into.
#[derive(Clone, Debug, PartialEq, Eq)]
pub struct ClaudeStatusLineParts {
    pub left: Line,
    pub right: Line,
    pub compact_right: Line,
}

/// The text and style of one span.
pub type SpanView = (Seq<char>, Style);

pub open spec fn gray_style() -> Style {
    fg_style(Color::DarkGray)
}

/// The separator ` · ` between right-side groups.
pub open spec fn separator() -> Seq<char> {
    seq![' ', '\u{b7}', ' ']
}

/// The token counts stay within the range that the display arithmetic handles.
pub open spec fn display_in_range(data: ClaudeStatusLineData) -> bool {
    &&& (data.max_context_window matches Some(w) ==> w <= i64::MAX - 500)
    &&& (data.context_used_tokens matches Some(used) ==> (data.context_window matches Some(
        window,
    ) ==> (window > 0 ==> used <= i64::MAX / 100 && window <= i64::MAX - 500)))
}

/// Left side: the title and `: ` when there is a title, the directory, and ` (branch)` when
/// there is a branch, all gray.
pub open spec fn left_spans(data: ClaudeStatusLineData) -> Seq<SpanView> {
    (match data.thread_title {
        Some(t) => seq![(title_text(t@), gray_style()), (seq![':', ' '], gray_style())],
        None => seq![],
    }) + seq![(data.current_dir@, gray_style())] + (match data.git_branch {
        Some(b) => seq![(seq![' ', '('] + b@ + seq![')'], gray_style())],
        None => seq![],
    })
}

/// The model's attributes: the maximal context window, then the reasoning effort when set.
pub open spec fn model_attributes(data: ClaudeStatusLineData) -> Seq<Seq<char>> {
    (match data.max_context_window {
        Some(w) => seq![tokens_text(w as int)],
        None => seq![],
    }) + (if data.reasoning@.len() > 0 {
        seq![data.reasoning@]
    } else {
        seq![]
    })
}

/// Pieces joined by `sep`.
pub open spec fn join_with(ws: Seq<Seq<char>>, sep: Seq<char>) -> Seq<char>
    decreases ws.len(),
{
    if ws.len() == 0 {
        seq![]
    } else if ws.len() == 1 {
        ws[0]
    } else {
        join_with(ws.drop_last(), sep) + sep + ws.last()
    }
}

/// The model, followed by ` [attributes]` when it has any.
pub open spec fn model_text(data: ClaudeStatusLineData) -> Seq<char> {
    let attrs = model_attributes(data);
    data.model@ + if attrs.len() == 0 {
        seq![]
    } else {
        seq![' ', '['] + join_with(attrs, seq![',', ' ']) + seq![']']
    }
}

/// A space and an optional count after its marker, in `style`.
pub open spec fn optional_count_spans(count: Option<u64>, marker: char, style: Style) -> Seq<
    SpanView,
> {
    match count {
        Some(n) => seq![(seq![' '], plain_style()), (seq![marker] + decimal(n as nat), style)],
        None => seq![],
    }
}

/// The fleet group: `fleet `, the live count, approvals in bold red, unread in yellow,
/// active runs in cyan, then the separator.
pub open spec fn fleet_spans(c: FleetStatusCounts) -> Seq<SpanView> {
    seq![(fleet_word().push(' '), gray_style()), (decimal(c.live as nat), plain_style())]
        + optional_count_spans(c.approvals, approvals_marker(), bold_style(Color::Red))
        + optional_count_spans(c.unread, unread_marker(), fg_style(Color::Yellow))
        + optional_count_spans(c.active_runs, active_runs_marker(), fg_style(Color::Cyan)) + seq![
        (separator(), gray_style()),
    ]
}

/// The fleet group when the fleet status is a canonical segment, else nothing.
pub open spec fn fleet_status_spans(status: Option<String>) -> Seq<SpanView> {
    match status {
        Some(s) => match fleet_counts_of(s@) {
            Some(c) => fleet_spans(c),
            None => seq![],
        },
        None => seq![],
    }
}

/// Percentage of the context window used, between 0 and 100.
pub open spec fn context_percent(used: int, window: int) -> int {
    let p = clamp_nonneg(used) * 100 / window;
    if p > 100 {
        100
    } else {
        p
    }
}

/// Context usage `used/window (p%)` in its usage colour, or a gray `--` when unknown.
pub open spec fn context_span(data: ClaudeStatusLineData, fractional: Seq<char>) -> SpanView {
    match (data.context_used_tokens, data.context_window) {
        (Some(used), Some(window)) => if window > 0 {
            let p = context_percent(used as int, window as int);
            (used_tokens_text(used as int, fractional) + seq!['/'] + tokens_text(window as int)
                + seq![' ', '('] + decimal(p as nat) + seq!['%', ')'], usage_style_of(p))
        } else {
            (seq!['-', '-'], gray_style())
        },
        _ => (seq!['-', '-'], gray_style()),
    }
}

/// A usage limit: separator, label, the percentage in its usage colour, and when asked for and
/// known, the reset details in parentheses.
pub open spec fn limit_spans(limit: Option<ClaudeLimit>, now: int, include_resets: bool) -> Seq<
    SpanView,
> {
    match limit {
        None => seq![],
        Some(l) => seq![
            (separator(), gray_style()),
            (l.label@.push(' '), gray_style()),
            (signed_decimal(l.used_percent as int).push('%'), usage_style_of(l.used_percent as int)),
        ] + if include_resets && reset_details_text(l, now) is Some {
            seq![(seq![' ', '('] + reset_details_text(l, now).unwrap() + seq![')'], gray_style())]
        } else {
            seq![]
        },
    }
}

/// Right side: the model in dim cyan, two spaces, the fleet group, `ctx ` and the context
/// usage, then the five-hour and weekly limits.
pub open spec fn right_spans(
    data: ClaudeStatusLineData,
    include_resets: bool,
    fractional: Seq<char>,
) -> Seq<SpanView> {
    seq![(model_text(data), dim_style(Color::Cyan)), (seq![' ', ' '], plain_style())]
        + fleet_status_spans(data.fleet_status) + seq![
        (seq!['c', 't', 'x', ' '], gray_style()),
        context_span(data, fractional),
    ] + limit_spans(data.five_hour, data.now_epoch_seconds as int, include_resets) + limit_spans(
        data.weekly,
        data.now_epoch_seconds as int,
        include_resets,
    )
}

/// The composed line: left side, right marker, full right side, compact marker, compact right
/// side.
pub open spec fn composed_spans(
    left: Seq<SpanView>,
    right: Seq<SpanView>,
    compact_right: Seq<SpanView>,
) -> Seq<SpanView> {
    left + seq![(right_marker(), plain_style())] + right + seq![
        (compact_right_marker(), plain_style()),
    ] + compact_right
}

/// The status line for `data`.
pub open spec fn status_line_spans(data: ClaudeStatusLineData, fractional: Seq<char>) -> Seq<
    SpanView,
> {
    composed_spans(
        left_spans(data),
        right_spans(data, true, fractional),
        right_spans(data, false, fractional),
    )
}

/// The left side of the status line.
pub fn left_line(data: &ClaudeStatusLineData) -> (line: Line)
    ensures
        line@ == left_spans(*data),
{
    let gray = Style::fg(Color::DarkGray);
    let mut spans: Vec<Span> = Vec::new();
    proof {
        reveal_strlit(": ");
        reveal_strlit(" (");
        assert(": "@ =~= seq![':', ' ']);
        assert(" ("@ =~= seq![' ', '(']);
        assert(spans_view(spans@) =~= Seq::<SpanView>::empty());
    }
    let ghost head: Seq<SpanView> = seq![];
    if let Some(title) = &data.thread_title {
        push_span(&mut spans, truncate_title(title.as_str()), gray);
        push_span(&mut spans, string_of(": "), gray);
        proof {
            head = seq![(title_text(title@), gray_style()), (seq![':', ' '], gray_style())];
            assert(spans_view(spans@) =~= head);
        }
    }
    push_span(&mut spans, data.current_dir.clone(), gray);
    let ghost mid = spans_view(spans@);
    proof {
        assert(mid =~= head + seq![(data.current_dir@, gray_style())]);
    }
    if let Some(branch) = &data.git_branch {
        let mut s = string_of(" (");
        s.append(branch.as_str());
        push_char(&mut s, ')');
        push_span(&mut spans, s, gray);
        proof {
            assert(s@ =~= seq![' ', '('] + branch@ + seq![')']);
            assert(spans_view(spans@) =~= mid + seq![(seq![' ', '('] + branch@ + seq![')'], gray_style())]);
        }
    }
    let line = Line { spans };
    proof {
        assert(line@ =~= left_spans(*data));
    }
    line
}


/// The text of each string.
pub open spec fn strings_view(v: Seq<String>) -> Seq<Seq<char>> {
    v.map_values(|s: String| s@)
}

/// The strings joined by `sep` (`[String]::join`).
fn join_strings(parts: &Vec<String>, sep: &str) -> (joined: String)
    ensures
        joined@ == join_with(strings_view(parts@), sep@),
{
    let mut joined = String::new();
    let mut i: usize = 0;
    while i < parts.len()
        invariant
            i <= parts@.len(),
            joined@ == join_with(strings_view(parts@).take(i as int), sep@),
        decreases parts@.len() - i,
    {
        let ghost ws = strings_view(parts@);
        if i > 0 {
            joined.append(sep);
        }
        joined.append(parts[i].as_str());
        proof {
            assert(ws.take(i + 1).drop_last() =~= ws.take(i as int));
            assert(ws[i as int] == parts@[i as int]@);
            if i == 0 {
                assert(joined@ =~= ws.take(1)[0]);
            }
        }
        i = i + 1;
    }
    proof {
        assert(strings_view(parts@).take(parts@.len() as int) =~= strings_view(parts@));
    }
    joined
}

/// The model and its attributes.
fn model_label(data: &ClaudeStatusLineData) -> (label: String)
    requires
        display_in_range(*data),
    ensures
        label@ == model_text(*data),
{
    let mut attrs: Vec<String> = Vec::new();
    if let Some(window) = data.max_context_window {
        attrs.push(format_tokens(window));
    }
    let ghost first = strings_view(attrs@);
    if !data.reasoning.as_str().is_empty() {
        attrs.push(data.reasoning.clone());
        proof {
            assert(strings_view(attrs@) =~= first.push(data.reasoning@));
        }
    }
    proof {
        assert(strings_view(attrs@) =~= model_attributes(*data));
    }
    let mut label = data.model.clone();
    if attrs.len() > 0 {
        proof {
            reveal_strlit(" [");
            reveal_strlit(", ");
            assert(" ["@ =~= seq![' ', '[']);
            assert(", "@ =~= seq![',', ' ']);
        }
        label.append(" [");
        let joined = join_strings(&attrs, ", ");
        label.append(joined.as_str());
        push_char(&mut label, ']');
        proof {
            assert(label@ =~= model_text(*data));
        }
    } else {
        proof {
            assert(label@ =~= model_text(*data));
        }
    }
    label
}

/// A marker followed by a count.
fn marked_count(marker: char, n: u64) -> (s: String)
    ensures
        s@ == seq![marker] + decimal(n as nat),
{
    let mut s = String::new();
    push_char(&mut s, marker);
    push_decimal(&mut s, n);
    proof {
        assert(s@ =~= seq![marker] + decimal(n as nat));
    }
    s
}

/// Appends the fleet group for `fleet`.
fn push_fleet_spans(spans: &mut Vec<Span>, fleet: &FleetStatusCounts)
    ensures
        spans_view(final(spans)@) == spans_view(old(spans)@) + fleet_spans(*fleet),
{
    proof {
        reveal_strlit("fleet ");
        reveal_strlit(" ");
        reveal_strlit(" \u{b7} ");
        assert("fleet "@ =~= fleet_word().push(' '));
        assert(" "@ =~= seq![' ']);
        assert(" \u{b7} "@ =~= separator());
    }
    let gray = Style::fg(Color::DarkGray);
    let ghost start = spans_view(spans@);
    push_span(spans, string_of("fleet "), gray);
    push_span(spans, u64_text(fleet.live), Style::plain());
    let ghost mut acc: Seq<SpanView> = seq![
        (fleet_word().push(' '), gray_style()),
        (decimal(fleet.live as nat), plain_style()),
    ];
    proof {
        assert(spans_view(spans@) =~= start + acc);
    }
    if let Some(approvals) = fleet.approvals {
        push_span(spans, string_of(" "), Style::plain());
        push_span(spans, marked_count('\u{26a0}', approvals), Style::bold(Color::Red));
    }
    proof {
        acc = acc + optional_count_spans(fleet.approvals, approvals_marker(), bold_style(Color::Red));
        assert(spans_view(spans@) =~= start + acc);
    }
    if let Some(unread) = fleet.unread {
        push_span(spans, string_of(" "), Style::plain());
        push_span(spans, marked_count('\u{2709}', unread), Style::fg(Color::Yellow));
    }
    proof {
        acc = acc + optional_count_spans(fleet.unread, unread_marker(), fg_style(Color::Yellow));
        assert(spans_view(spans@) =~= start + acc);
    }
    if let Some(active_runs) = fleet.active_runs {
        push_span(spans, string_of(" "), Style::plain());
        push_span(spans, marked_count('\u{21c4}', active_runs), Style::fg(Color::Cyan));
    }
    proof {
        acc = acc + optional_count_spans(fleet.active_runs, active_runs_marker(), fg_style(Color::Cyan));
        assert(spans_view(spans@) =~= start + acc);
    }
    push_span(spans, string_of(" \u{b7} "), gray);
    proof {
        assert(spans_view(spans@) =~= start + fleet_spans(*fleet));
    }
}

/// Appends the context-usage span.
fn push_context_span(spans: &mut Vec<Span>, data: &ClaudeStatusLineData, fractional_used: &str)
    requires
        display_in_range(*data),
    ensures
        spans_view(final(spans)@) == spans_view(old(spans)@).push(
            context_span(*data, fractional_used@),
        ),
{
    let gray = Style::fg(Color::DarkGray);
    proof {
        reveal_strlit("--");
        assert("--"@ =~= seq!['-', '-']);
    }
    match (data.context_used_tokens, data.context_window) {
        (Some(used), Some(window)) => {
            if window > 0 {
                let u: i64 = if used < 0 {
                    0
                } else {
                    used
                };
                let mut percent: i64 = (u * 100) / window;
                if percent > 100 {
                    percent = 100;
                }
                let mut s = format_used_tokens(used, fractional_used);
                push_char(&mut s, '/');
                let w = format_tokens(window);
                s.append(w.as_str());
                push_char(&mut s, ' ');
                push_char(&mut s, '(');
                push_decimal(&mut s, percent as u64);
                push_char(&mut s, '%');
                push_char(&mut s, ')');
                proof {
                    let p = context_percent(used as int, window as int);
                    assert(percent == p);
                    assert(s@ =~= used_tokens_text(used as int, fractional_used@) + seq!['/']
                        + tokens_text(window as int) + seq![' ', '('] + decimal(p as nat) + seq![
                        '%',
                        ')',
                    ]);
                }
                push_span(spans, s, usage_style(percent));
            } else {
                push_span(spans, string_of("--"), gray);
            }
        },
        _ => {
            push_span(spans, string_of("--"), gray);
        },
    }
}

/// Appends the spans of a usage limit.
fn push_limit_spans(spans: &mut Vec<Span>, limit: &Option<ClaudeLimit>, now: i64, include_resets: bool)
    ensures
        spans_view(final(spans)@) == spans_view(old(spans)@) + limit_spans(
            *limit,
            now as int,
            include_resets,
        ),
{
    let ghost start = spans_view(spans@);
    match limit {
        None => {
            proof {
                assert(spans_view(spans@) =~= start + limit_spans(*limit, now as int, include_resets));
            }
        },
        Some(l) => {
            proof {
                reveal_strlit(" \u{b7} ");
                assert(" \u{b7} "@ =~= separator());
            }
            let gray = Style::fg(Color::DarkGray);
            push_span(spans, string_of(" \u{b7} "), gray);
            let mut label = string_of(l.label);
            push_char(&mut label, ' ');
            push_span(spans, label, gray);
            let mut percent = String::new();
            push_signed_decimal(&mut percent, l.used_percent);
            push_char(&mut percent, '%');
            proof {
                assert(percent@ =~= signed_decimal(l.used_percent as int).push('%'));
            }
            push_span(spans, percent, usage_style(l.used_percent));
            if include_resets {
                if let Some(details) = reset_details(l, now) {
                    let mut s = String::new();
                    push_char(&mut s, ' ');
                    push_char(&mut s, '(');
                    s.append(details.as_str());
                    push_char(&mut s, ')');
                    proof {
                        assert(s@ =~= seq![' ', '('] + details@ + seq![')']);
                    }
                    push_span(spans, s, gray);
                }
            }
            proof {
                assert(spans_view(spans@) =~= start + limit_spans(*limit, now as int, include_resets));
            }
        },
    }
}

/// The right side of the status line; with `include_resets`, limits show their reset details.
/// `fractional_used` is the used-token count in thousands with one decimal, shown when fewer
/// than a thousand tokens are used.
pub fn right_line(data: &ClaudeStatusLineData, include_resets: bool, fractional_used: &str) -> (line:
    Line)
    requires
        display_in_range(*data),
    ensures
        line@ == right_spans(*data, include_resets, fractional_used@),
{
    let gray = Style::fg(Color::DarkGray);
    let model_style = Style::dim(Color::Cyan);
    proof {
        reveal_strlit("  ");
        reveal_strlit("ctx ");
        assert("  "@ =~= seq![' ', ' ']);
        assert("ctx "@ =~= seq!['c', 't', 'x', ' ']);
    }
    let mut spans: Vec<Span> = Vec::new();
    push_span(&mut spans, model_label(data), model_style);
    push_span(&mut spans, string_of("  "), Style::plain());
    let ghost head = spans_view(spans@);
    proof {
        assert(head =~= seq![(model_text(*data), dim_style(Color::Cyan)), (seq![' ', ' '], plain_style())]);
    }
    if let Some(segment) = &data.fleet_status {
        if let Some(fleet) = parse_fleet_status(segment.as_str()) {
            push_fleet_spans(&mut spans, &fleet);
        }
    }
    proof {
        assert(spans_view(spans@) =~= head + fleet_status_spans(data.fleet_status));
    }
    let ghost with_fleet = spans_view(spans@);
    push_span(&mut spans, string_of("ctx "), gray);
    push_context_span(&mut spans, data, fractional_used);
    proof {
        assert(spans_view(spans@) =~= with_fleet + seq![
            (seq!['c', 't', 'x', ' '], gray_style()),
            context_span(*data, fractional_used@),
        ]);
    }
    push_limit_spans(&mut spans, &data.five_hour, data.now_epoch_seconds, include_resets);
    push_limit_spans(&mut spans, &data.weekly, data.now_epoch_seconds, include_resets);
    let line = Line { spans };
    proof {
        assert(line@ =~= right_spans(*data, include_resets, fractional_used@));
    }
    line
}


/// Appends copies of all spans of `more`.
fn extend_spans(spans: &mut Vec<Span>, more: &Vec<Span>)
    ensures
        spans_view(final(spans)@) == spans_view(old(spans)@) + spans_view(more@),
{
    let copy = copy_spans(more, 0, more.len());
    let mut copy = copy;
    let ghost before = spans_view(spans@);
    spans.append(&mut copy);
    proof {
        assert(spans_view(more@).subrange(0, more@.len() as int) =~= spans_view(more@));
        assert(spans_view(spans@) =~= before + spans_view(more@));
    }
}

/// The two-sided status line for `data`: the left side, a right marker, the right side with
/// reset details, a compact marker, and the right side without them.
pub fn claude_status_line(data: ClaudeStatusLineData, fractional_used: &str) -> (line: Line)
    requires
        display_in_range(data),
    ensures
        line@ == status_line_spans(data, fractional_used@),
{
    let left = left_line(&data);
    let right = right_line(&data, true, fractional_used);
    let compact_right = right_line(&data, false, fractional_used);
    let mut spans = left.spans;
    proof {
        reveal_strlit("\u{0}codex-status-right\u{0}");
        reveal_strlit("\u{0}codex-status-compact-right\u{0}");
        assert(RIGHT_MARKER@ =~= right_marker());
        assert(COMPACT_RIGHT_MARKER@ =~= compact_right_marker());
    }
    push_span(&mut spans, string_of(RIGHT_MARKER), Style::plain());
    extend_spans(&mut spans, &right.spans);
    push_span(&mut spans, string_of(COMPACT_RIGHT_MARKER), Style::plain());
    extend_spans(&mut spans, &compact_right.spans);
    let line = Line { spans };
    proof {
        assert(line@ =~= status_line_spans(data, fractional_used@));
    }
    line
}

/// Whether `i` is the first position of a span whose text is `marker`.
pub open spec fn is_first_marker(spans: Seq<SpanView>, marker: Seq<char>, i: int) -> bool {
    &&& 0 <= i < spans.len()
    &&& spans[i].0 == marker
    &&& forall|j: int| 0 <= j < i ==> #[trigger] spans[j].0 != marker
}

/// The first position of a span whose text is `marker`.
pub open spec fn first_marker(spans: Seq<SpanView>, marker: Seq<char>) -> Option<int> {
    if exists|i: int| is_first_marker(spans, marker, i) {
        Some(choose|i: int| is_first_marker(spans, marker, i))
    } else {
        None
    }
}

/// The three sides of a composed line: what stands before the first right marker, between it
/// and the first compact marker, and after that; nothing when a marker is missing or the
/// compact marker comes first.
pub open spec fn split_spans(spans: Seq<SpanView>) -> Option<
    (Seq<SpanView>, Seq<SpanView>, Seq<SpanView>),
> {
    match (first_marker(spans, right_marker()), first_marker(spans, compact_right_marker())) {
        (Some(r), Some(c)) => if c <= r {
            None
        } else {
            Some((spans.take(r), spans.subrange(r + 1, c), spans.skip(c + 1)))
        },
        _ => None,
    }
}

proof fn lemma_first_marker_unique(spans: Seq<SpanView>, marker: Seq<char>, i: int)
    requires
        is_first_marker(spans, marker, i),
    ensures
        first_marker(spans, marker) == Some(i),
{
    let k = choose|k: int| is_first_marker(spans, marker, k);
    if k < i {
        assert(spans[k].0 != marker);
    } else if k > i {
        assert(spans[i].0 != marker);
    }
}

/// The first position of a span whose text is `marker`.
fn find_marker(spans: &Vec<Span>, marker: &String) -> (found: Option<usize>)
    ensures
        found matches Some(i) ==> i < spans@.len() && first_marker(spans_view(spans@), marker@)
            == Some(i as int),
        found is None ==> first_marker(spans_view(spans@), marker@) is None,
{
    let ghost v = spans_view(spans@);
    let mut i: usize = 0;
    while i < spans.len()
        invariant
            i <= spans@.len(),
            v == spans_view(spans@),
            forall|j: int| 0 <= j < i ==> #[trigger] v[j].0 != marker@,
        decreases spans@.len() - i,
    {
        if spans[i].content == *marker {
            proof {
                assert(v[i as int].0 == marker@);
                lemma_first_marker_unique(v, marker@, i as int);
            }
            return Some(i);
        }
        i = i + 1;
    }
    None
}

/// Splits a composed status line into its left side, full right side and compact right side.
pub fn split_claude_status_line(line: &Line) -> (parts: Option<ClaudeStatusLineParts>)
    ensures
        parts matches Some(p) ==> split_spans(line@) == Some((p.left@, p.right@, p.compact_right@)),
        parts is None ==> split_spans(line@) is None,
{
    proof {
        reveal_strlit("\u{0}codex-status-right\u{0}");
        reveal_strlit("\u{0}codex-status-compact-right\u{0}");
        assert(RIGHT_MARKER@ =~= right_marker());
        assert(COMPACT_RIGHT_MARKER@ =~= compact_right_marker());
    }
    let right_text = string_of(RIGHT_MARKER);
    let compact_text = string_of(COMPACT_RIGHT_MARKER);
    let right_index = match find_marker(&line.spans, &right_text) {
        Some(i) => i,
        None => {
            return None;
        },
    };
    let compact_index = match find_marker(&line.spans, &compact_text) {
        Some(i) => i,
        None => {
            return None;
        },
    };
    if compact_index <= right_index {
        return None;
    }
    let n = line.spans.len();
    let left = Line { spans: copy_spans(&line.spans, 0, right_index) };
    let right = Line { spans: copy_spans(&line.spans, right_index + 1, compact_index) };
    let compact_right = Line { spans: copy_spans(&line.spans, compact_index + 1, n) };
    proof {
        let v = line@;
        assert(left@ =~= v.take(right_index as int));
        assert(compact_right@ =~= v.skip(compact_index + 1));
    }
    Some(ClaudeStatusLineParts { left, right, compact_right })
}

/// No span of `spans` reads as either marker.
pub open spec fn marker_free(spans: Seq<SpanView>) -> bool {
    forall|j: int|
        0 <= j < spans.len() ==> #[trigger] spans[j].0 != right_marker() && spans[j].0
            != compact_right_marker()
}

/// Splitting a composed line gives back its three sides, when none of them holds a span that
/// reads as a marker.
pub proof fn lemma_split_composed(
    left: Seq<SpanView>,
    right: Seq<SpanView>,
    compact_right: Seq<SpanView>,
)
    requires
        marker_free(left),
        marker_free(right),
        marker_free(compact_right),
    ensures
        split_spans(composed_spans(left, right, compact_right)) == Some((left, right, compact_right)),
{
    let all = composed_spans(left, right, compact_right);
    let r = left.len() as int;
    let c = r + 1 + right.len();
    assert(right_marker() != compact_right_marker()) by {
        assert(right_marker()[14] != compact_right_marker()[14]);
    }
    assert(all[r] == (right_marker(), plain_style()));
    assert(all[c] == (compact_right_marker(), plain_style()));
    assert forall|j: int| 0 <= j < r implies #[trigger] all[j].0 != right_marker() by {
        assert(all[j] == left[j]);
    }
    assert forall|j: int| 0 <= j < c implies #[trigger] all[j].0 != compact_right_marker() by {
        if j < r {
            assert(all[j] == left[j]);
        } else if j > r {
            assert(all[j] == right[j - r - 1]);
        }
    }
    lemma_first_marker_unique(all, right_marker(), r);
    lemma_first_marker_unique(all, compact_right_marker(), c);
    assert(all.take(r) =~= left);
    assert(all.subrange(r + 1, c) =~= right);
    assert(all.skip(c + 1) =~= compact_right);
}

/// Splitting the status line of `data` gives back its left side, its full right side and its
/// compact right side, when none of them holds a span that reads as a marker.
pub proof fn lemma_split_status_line(data: ClaudeStatusLineData, fractional: Seq<char>)
    requires
        marker_free(left_spans(data)),
        marker_free(right_spans(data, true, fractional)),
        marker_free(right_spans(data, false, fractional)),
    ensures
        split_spans(status_line_spans(data, fractional)) == Some(
            (
                left_spans(data),
                right_spans(data, true, fractional),
                right_spans(data, false, fractional),
            ),
        ),
{
    lemma_split_composed(
        left_spans(data),
        right_spans(data, true, fractional),
        right_spans(data, false, fractional),
    );
}


/// The context percentage shown is between 0 and 100.
pub proof fn lemma_context_percent_bounded(used: int, window: int)
    requires
        window > 0,
    ensures
        0 <= context_percent(used, window) <= 100,
{
    let u = clamp_nonneg(used);
    assert(u * 100 >= 0) by (nonlinear_arith)
        requires
            u >= 0,
    ;
    assert(u * 100 / window >= 0) by (nonlinear_arith)
        requires
            u * 100 >= 0,
            window > 0,
    ;
}

/// The compact right side shows no reset details: it is the full right side when neither
/// limit has any.
pub proof fn lemma_compact_without_details(data: ClaudeStatusLineData, fractional: Seq<char>)
    requires
        data.five_hour matches Some(l) ==> reset_details_text(l, data.now_epoch_seconds as int) is None,
        data.weekly matches Some(l) ==> reset_details_text(l, data.now_epoch_seconds as int) is None,
    ensures
        right_spans(data, false, fractional) == right_spans(data, true, fractional),
{
}


/// No NUL character in `s`.
pub open spec fn nul_free(s: Seq<char>) -> bool {
    forall|i: int| 0 <= i < s.len() ==> #[trigger] s[i] != '\u{0}'
}

/// No span text holds a NUL character.
pub open spec fn texts_nul_free(spans: Seq<SpanView>) -> bool {
    forall|j: int| 0 <= j < spans.len() ==> nul_free(#[trigger] spans[j].0)
}

/// None of the texts of `data` that a status line shows holds a NUL character.
pub open spec fn data_nul_free(data: ClaudeStatusLineData) -> bool {
    &&& (data.thread_title matches Some(t) ==> nul_free(t@))
    &&& nul_free(data.current_dir@)
    &&& (data.git_branch matches Some(b) ==> nul_free(b@))
    &&& nul_free(data.model@)
    &&& nul_free(data.reasoning@)
    &&& (data.five_hour matches Some(l) ==> nul_free(l.label@))
    &&& (data.weekly matches Some(l) ==> nul_free(l.label@))
}

proof fn lemma_cat(a: Seq<char>, b: Seq<char>)
    requires
        nul_free(a),
        nul_free(b),
    ensures
        nul_free(a + b),
{
    assert forall|i: int| 0 <= i < (a + b).len() implies #[trigger] (a + b)[i] != '\u{0}' by {
        if i < a.len() {
            assert((a + b)[i] == a[i]);
        } else {
            assert((a + b)[i] == b[i - a.len()]);
        }
    }
}

proof fn lemma_push(a: Seq<char>, c: char)
    requires
        nul_free(a),
        c != '\u{0}',
    ensures
        nul_free(a.push(c)),
{
    assert forall|i: int| 0 <= i < a.push(c).len() implies #[trigger] a.push(c)[i] != '\u{0}' by {
        if i < a.len() {
            assert(a.push(c)[i] == a[i]);
        }
    }
}

proof fn lemma_decimal_nul_free(n: nat)
    ensures
        nul_free(decimal(n)),
{
    lemma_decimal(n);
    let d = decimal(n);
    assert forall|i: int| 0 <= i < d.len() implies #[trigger] d[i] != '\u{0}' by {
        assert(is_ascii_digit(d[i]));
    }
}

proof fn lemma_signed_nul_free(i: int)
    ensures
        nul_free(signed_decimal(i)),
{
    if i < 0 {
        lemma_decimal_nul_free((-i) as nat);
        lemma_cat(seq!['-'], decimal((-i) as nat));
    } else {
        lemma_decimal_nul_free(i as nat);
    }
}

proof fn lemma_tokens_nul_free(t: int, fractional: Seq<char>)
    requires
        nul_free(fractional),
    ensures
        nul_free(tokens_text(t)),
        nul_free(used_tokens_text(t, fractional)),
{
    let c = clamp_nonneg(t);
    lemma_decimal_nul_free((c / 1_000_000) as nat);
    lemma_decimal_nul_free(((c + 500) / 1000) as nat);
    lemma_push(decimal((c / 1_000_000) as nat), 'M');
    lemma_push(decimal(((c + 500) / 1000) as nat), 'k');
}

proof fn lemma_trim_nul_free(s: Seq<char>)
    requires
        nul_free(s),
    ensures
        nul_free(trim_start(s)),
        nul_free(trim_end(s)),
    decreases s.len(),
{
    if s.len() > 0 {
        let a = s.drop_first();
        let b = s.drop_last();
        assert forall|i: int| 0 <= i < a.len() implies #[trigger] a[i] != '\u{0}' by {
            assert(a[i] == s[i + 1]);
        }
        assert forall|i: int| 0 <= i < b.len() implies #[trigger] b[i] != '\u{0}' by {
            assert(b[i] == s[i]);
        }
        lemma_trim_nul_free(a);
        lemma_trim_nul_free(b);
    }
}

proof fn lemma_title_nul_free(title: Seq<char>)
    requires
        nul_free(title),
    ensures
        nul_free(title_text(title)),
{
    lemma_trim_nul_free(title);
    let t0 = trim_start(title);
    lemma_trim_nul_free(t0);
    let t = trim_end(t0);
    if t.len() > 39 {
        let k = t.take(39);
        assert forall|i: int| 0 <= i < k.len() implies #[trigger] k[i] != '\u{0}' by {
            assert(k[i] == t[i]);
        }
        lemma_push(k, '\u{2026}');
    }
}

proof fn lemma_details_nul_free(limit: ClaudeLimit, now: int)
    ensures
        reset_details_text(limit, now) matches Some(d) ==> nul_free(d),
{
    let countdown = match limit.resets_at {
        Some(at) => countdown_text(at as int, now),
        None => None,
    };
    if let Some(c) = countdown {
        let at = limit.resets_at.unwrap() as int;
        let remaining = at - now;
        let days = remaining / 86_400;
        let hours = remaining % 86_400 / 3_600;
        let minutes = remaining % 3_600 / 60;
        lemma_decimal_nul_free(days as nat);
        lemma_decimal_nul_free(hours as nat);
        lemma_decimal_nul_free(minutes as nat);
        lemma_push(decimal(days as nat), 'd');
        lemma_push(decimal(hours as nat), 'h');
        lemma_push(decimal(minutes as nat), 'm');
        lemma_cat(decimal(days as nat).push('d'), decimal(hours as nat).push('h'));
        lemma_cat(decimal(hours as nat).push('h'), decimal(minutes as nat).push('m'));
        assert(nul_free(c));
        lemma_cat(seq!['\u{21bb}'], c);
    }
    if let Some(n) = limit.resets_left {
        lemma_signed_nul_free(n as int);
        let one = seq![' ', 'r', 'e', 's', 'e', 't', ' ', 'l', 'e', 'f', 't'];
        let many = seq![' ', 'r', 'e', 's', 'e', 't', 's', ' ', 'l', 'e', 'f', 't'];
        assert(nul_free(one));
        assert(nul_free(many));
        lemma_cat(signed_decimal(n as int), one);
        lemma_cat(signed_decimal(n as int), many);
        assert(nul_free(resets_left_text(n as int)));
        if let Some(c) = countdown {
            lemma_cat(seq!['\u{21bb}'] + c, seq![';', ' ']);
            lemma_cat(seq!['\u{21bb}'] + c + seq![';', ' '], resets_left_text(n as int));
        }
    }
}

proof fn lemma_spans_cat(a: Seq<SpanView>, b: Seq<SpanView>)
    requires
        texts_nul_free(a),
        texts_nul_free(b),
    ensures
        texts_nul_free(a + b),
{
    assert forall|j: int| 0 <= j < (a + b).len() implies nul_free(#[trigger] (a + b)[j].0) by {
        if j < a.len() {
            assert((a + b)[j] == a[j]);
        } else {
            assert((a + b)[j] == b[j - a.len()]);
        }
    }
}

proof fn lemma_join_nul_free(ws: Seq<Seq<char>>, sep: Seq<char>)
    requires
        forall|i: int| 0 <= i < ws.len() ==> nul_free(#[trigger] ws[i]),
        nul_free(sep),
    ensures
        nul_free(join_with(ws, sep)),
    decreases ws.len(),
{
    if ws.len() == 1 {
        assert(nul_free(ws[0]));
    } else if ws.len() > 1 {
        let rest = ws.drop_last();
        assert forall|i: int| 0 <= i < rest.len() implies nul_free(#[trigger] rest[i]) by {
            assert(rest[i] == ws[i]);
        }
        lemma_join_nul_free(rest, sep);
        assert(nul_free(ws[ws.len() - 1]));
        lemma_cat(join_with(rest, sep), sep);
        lemma_cat(join_with(rest, sep) + sep, ws.last());
    }
}

proof fn lemma_left_nul_free(data: ClaudeStatusLineData)
    requires
        data_nul_free(data),
    ensures
        texts_nul_free(left_spans(data)),
{
    let a = match data.thread_title {
        Some(t) => seq![(title_text(t@), gray_style()), (seq![':', ' '], gray_style())],
        None => seq![],
    };
    let b = seq![(data.current_dir@, gray_style())];
    let c = match data.git_branch {
        Some(br) => seq![(seq![' ', '('] + br@ + seq![')'], gray_style())],
        None => seq![],
    };
    if let Some(t) = data.thread_title {
        lemma_title_nul_free(t@);
        assert(nul_free(seq![':', ' ']));
    }
    assert(texts_nul_free(a));
    assert(texts_nul_free(b));
    if let Some(br) = data.git_branch {
        lemma_cat(seq![' ', '('], br@);
        lemma_push(seq![' ', '('] + br@, ')');
        assert(seq![' ', '('] + br@ + seq![')'] =~= (seq![' ', '('] + br@).push(')'));
    }
    assert(texts_nul_free(c));
    lemma_spans_cat(a, b);
    lemma_spans_cat(a + b, c);
}

proof fn lemma_model_nul_free(data: ClaudeStatusLineData)
    requires
        data_nul_free(data),
        display_in_range(data),
    ensures
        nul_free(model_text(data)),
{
    let attrs = model_attributes(data);
    if let Some(w) = data.max_context_window {
        lemma_tokens_nul_free(w as int, seq![]);
    }
    assert forall|i: int| 0 <= i < attrs.len() implies nul_free(#[trigger] attrs[i]) by {
        let first = match data.max_context_window {
            Some(w) => seq![tokens_text(w as int)],
            None => Seq::<Seq<char>>::empty(),
        };
        if i < first.len() {
            assert(attrs[i] == first[i]);
        } else {
            assert(attrs[i] == data.reasoning@);
        }
    }
    if attrs.len() > 0 {
        lemma_join_nul_free(attrs, seq![',', ' ']);
        lemma_cat(seq![' ', '['], join_with(attrs, seq![',', ' ']));
        lemma_cat(seq![' ', '['] + join_with(attrs, seq![',', ' ']), seq![']']);
        lemma_cat(data.model@, seq![' ', '['] + join_with(attrs, seq![',', ' ']) + seq![']']);
    } else {
        assert(data.model@ + Seq::<char>::empty() =~= data.model@);
    }
}

proof fn lemma_count_spans_nul_free(count: Option<u64>, marker: char, style: Style)
    requires
        marker != '\u{0}',
    ensures
        texts_nul_free(optional_count_spans(count, marker, style)),
{
    if let Some(n) = count {
        lemma_decimal_nul_free(n as nat);
        lemma_cat(seq![marker], decimal(n as nat));
        assert(nul_free(seq![' ']));
    }
}

proof fn lemma_fleet_nul_free(status: Option<String>)
    ensures
        texts_nul_free(fleet_status_spans(status)),
{
    if let Some(st) = status {
        if let Some(c) = fleet_counts_of(st@) {
            lemma_decimal_nul_free(c.live as nat);
            assert(nul_free(fleet_word().push(' ')));
            let head = seq![(fleet_word().push(' '), gray_style()), (decimal(c.live as nat), plain_style())];
            let a = optional_count_spans(c.approvals, approvals_marker(), bold_style(Color::Red));
            let u = optional_count_spans(c.unread, unread_marker(), fg_style(Color::Yellow));
            let r = optional_count_spans(c.active_runs, active_runs_marker(), fg_style(Color::Cyan));
            let tail = seq![(separator(), gray_style())];
            assert(texts_nul_free(head));
            lemma_count_spans_nul_free(c.approvals, approvals_marker(), bold_style(Color::Red));
            lemma_count_spans_nul_free(c.unread, unread_marker(), fg_style(Color::Yellow));
            lemma_count_spans_nul_free(c.active_runs, active_runs_marker(), fg_style(Color::Cyan));
            assert(nul_free(separator()));
            assert(texts_nul_free(tail));
            lemma_spans_cat(head, a);
            lemma_spans_cat(head + a, u);
            lemma_spans_cat(head + a + u, r);
            lemma_spans_cat(head + a + u + r, tail);
        }
    }
}

proof fn lemma_context_nul_free(data: ClaudeStatusLineData, fractional: Seq<char>)
    requires
        nul_free(fractional),
    ensures
        nul_free(context_span(data, fractional).0),
{
    match (data.context_used_tokens, data.context_window) {
        (Some(used), Some(window)) => {
            if window > 0 {
                let p = context_percent(used as int, window as int);
                lemma_tokens_nul_free(used as int, fractional);
                lemma_tokens_nul_free(window as int, fractional);
                lemma_decimal_nul_free(p as nat);
                let u = used_tokens_text(used as int, fractional);
                lemma_cat(u, seq!['/']);
                lemma_cat(u + seq!['/'], tokens_text(window as int));
                lemma_cat(u + seq!['/'] + tokens_text(window as int), seq![' ', '(']);
                lemma_cat(u + seq!['/'] + tokens_text(window as int) + seq![' ', '('], decimal(p as nat));
                lemma_cat(
                    u + seq!['/'] + tokens_text(window as int) + seq![' ', '('] + decimal(p as nat),
                    seq!['%', ')'],
                );
            } else {
                assert(nul_free(seq!['-', '-']));
            }
        },
        _ => {
            assert(nul_free(seq!['-', '-']));
        },
    }
}

proof fn lemma_limit_nul_free(limit: Option<ClaudeLimit>, now: int, include_resets: bool)
    requires
        limit matches Some(l) ==> nul_free(l.label@),
    ensures
        texts_nul_free(limit_spans(limit, now, include_resets)),
{
    if let Some(l) = limit {
        lemma_push(l.label@, ' ');
        lemma_signed_nul_free(l.used_percent as int);
        lemma_push(signed_decimal(l.used_percent as int), '%');
        assert(nul_free(separator()));
        let head = seq![
            (separator(), gray_style()),
            (l.label@.push(' '), gray_style()),
            (signed_decimal(l.used_percent as int).push('%'), usage_style_of(l.used_percent as int)),
        ];
        assert(texts_nul_free(head));
        lemma_details_nul_free(l, now);
        let tail = if include_resets && reset_details_text(l, now) is Some {
            seq![(seq![' ', '('] + reset_details_text(l, now).unwrap() + seq![')'], gray_style())]
        } else {
            seq![]
        };
        if include_resets && reset_details_text(l, now) is Some {
            let d = reset_details_text(l, now).unwrap();
            lemma_cat(seq![' ', '('], d);
            lemma_cat(seq![' ', '('] + d, seq![')']);
        }
        assert(texts_nul_free(tail));
        lemma_spans_cat(head, tail);
    }
}

proof fn lemma_right_nul_free(data: ClaudeStatusLineData, include_resets: bool, fractional: Seq<char>)
    requires
        data_nul_free(data),
        display_in_range(data),
        nul_free(fractional),
    ensures
        texts_nul_free(right_spans(data, include_resets, fractional)),
{
    lemma_model_nul_free(data);
    assert(nul_free(seq![' ', ' ']));
    let head = seq![(model_text(data), dim_style(Color::Cyan)), (seq![' ', ' '], plain_style())];
    assert(texts_nul_free(head));
    lemma_fleet_nul_free(data.fleet_status);
    lemma_context_nul_free(data, fractional);
    assert(nul_free(seq!['c', 't', 'x', ' ']));
    let ctx = seq![(seq!['c', 't', 'x', ' '], gray_style()), context_span(data, fractional)];
    assert(texts_nul_free(ctx));
    let now = data.now_epoch_seconds as int;
    lemma_limit_nul_free(data.five_hour, now, include_resets);
    lemma_limit_nul_free(data.weekly, now, include_resets);
    let f = fleet_status_spans(data.fleet_status);
    lemma_spans_cat(head, f);
    lemma_spans_cat(head + f, ctx);
    lemma_spans_cat(head + f + ctx, limit_spans(data.five_hour, now, include_resets));
    lemma_spans_cat(
        head + f + ctx + limit_spans(data.five_hour, now, include_resets),
        limit_spans(data.weekly, now, include_resets),
    );
}

proof fn lemma_nul_free_marker_free(spans: Seq<SpanView>)
    requires
        texts_nul_free(spans),
    ensures
        marker_free(spans),
{
    assert forall|j: int| 0 <= j < spans.len() implies #[trigger] spans[j].0 != right_marker()
        && spans[j].0 != compact_right_marker() by {
        assert(nul_free(spans[j].0));
        if spans[j].0 == right_marker() {
            assert(spans[j].0[0] == '\u{0}');
        }
        if spans[j].0 == compact_right_marker() {
            assert(spans[j].0[0] == '\u{0}');
        }
    }
}

/// Splitting the status line of `data` gives back its left side, its full right side and its
/// compact right side, when none of the texts it shows, nor the fractional token text, holds a
/// NUL character.
pub proof fn lemma_split_status_line_nul_free(data: ClaudeStatusLineData, fractional: Seq<char>)
    requires
        data_nul_free(data),
        display_in_range(data),
        nul_free(fractional),
    ensures
        split_spans(status_line_spans(data, fractional)) == Some(
            (
                left_spans(data),
                right_spans(data, true, fractional),
                right_spans(data, false, fractional),
            ),
        ),
{
    lemma_left_nul_free(data);
    lemma_right_nul_free(data, true, fractional);
    lemma_right_nul_free(data, false, fractional);
    lemma_nul_free_marker_free(left_spans(data));
    lemma_nul_free_marker_free(right_spans(data, true, fractional));
    lemma_nul_free_marker_free(right_spans(data, false, fractional));
    lemma_split_status_line(data, fractional);
}

} // verus!
