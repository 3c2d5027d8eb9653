use codex_status::fleet_segment::parse_fleet_status;
use codex_status::status_format::{
    format_tokens, format_used_tokens, reset_countdown, reset_details, truncate_title, usage_style,
    ClaudeLimit,
};
use codex_status::status_line::{
    claude_status_line, left_line, right_line, split_claude_status_line, ClaudeStatusLineData,
    COMPACT_RIGHT_MARKER, RIGHT_MARKER,
};
use codex_status::styled::{text, Color, Line, Modifier, Span, Style};

fn fractional_used(data: &ClaudeStatusLineData) -> String {
    let tokens = data.context_used_tokens.unwrap_or(0).max(0);
    format!("{:.1}", tokens as f64 / 1_000.0)
}

fn status_line(data: ClaudeStatusLineData) -> Line {
    let fractional = fractional_used(&data);
    claude_status_line(data, &fractional)
}

fn right(data: &ClaudeStatusLineData, include_resets: bool) -> Line {
    right_line(data, include_resets, &fractional_used(data))
}

fn plain_data() -> ClaudeStatusLineData {
    ClaudeStatusLineData {
        thread_title: None,
        current_dir: "~".to_string(),
        git_branch: None,
        model: "gpt".to_string(),
        max_context_window: None,
        context_window: None,
        reasoning: String::new(),
        context_used_tokens: None,
        fleet_status: None,
        five_hour: None,
        weekly: None,
        now_epoch_seconds: 0,
    }
}

#[test]
fn mirrors_claude_layout_and_compacts_resets() {
    let line = status_line(ClaudeStatusLineData {
        thread_title: Some("Implement the compact status line".to_string()),
        current_dir: "./work/codex".to_string(),
        git_branch: Some("feature/status".to_string()),
        model: "gpt-5.6-sol".to_string(),
        max_context_window: Some(1_000_000),
        context_window: Some(258_000),
        reasoning: "max".to_string(),
        context_used_tokens: Some(134_000),
        fleet_status: Some("fleet 3 ⚠1 ✉2 ⇄1".to_string()),
        five_hour: Some(ClaudeLimit {
            label: "5h",
            used_percent: 49,
            resets_at: Some(10_800),
            resets_left: None,
        }),
        weekly: Some(ClaudeLimit {
            label: "7d",
            used_percent: 85,
            resets_at: Some(180_000),
            resets_left: Some(1),
        }),
        now_epoch_seconds: 0,
    });
    let parts = split_claude_status_line(&line).expect("split status line");

    assert_eq!(
        text(&parts.left),
        "Implement the compact status line: ./work/codex (feature/status)"
    );
    assert_eq!(
        text(&parts.right),
        "gpt-5.6-sol [1M, max]  fleet 3 ⚠1 ✉2 ⇄1 · ctx 134/258k (51%) · 5h 49% (↻3h0m) · 7d 85% (↻2d2h; 1 reset left)"
    );
    assert_eq!(
        text(&parts.compact_right),
        "gpt-5.6-sol [1M, max]  fleet 3 ⚠1 ✉2 ⇄1 · ctx 134/258k (51%) · 5h 49% · 7d 85%"
    );
}

#[test]
fn applies_claude_usage_color_bands() {
    let line = right(
        &ClaudeStatusLineData {
            thread_title: None,
            current_dir: "~".to_string(),
            git_branch: None,
            model: "gpt".to_string(),
            max_context_window: Some(400_000),
            context_window: Some(100_000),
            reasoning: "high".to_string(),
            context_used_tokens: Some(84_000),
            fleet_status: None,
            five_hour: Some(ClaudeLimit {
                label: "5h",
                used_percent: 49,
                resets_at: None,
                resets_left: None,
            }),
            weekly: Some(ClaudeLimit {
                label: "7d",
                used_percent: 85,
                resets_at: None,
                resets_left: None,
            }),
            now_epoch_seconds: 0,
        },
        false,
    );

    assert_eq!(
        text(&line),
        "gpt [400k, high]  ctx 84/100k (84%) · 5h 49% · 7d 85%"
    );
    assert_eq!(line.spans[3].style.fg, Some(Color::Yellow));
    assert_eq!(line.spans[6].style.fg, Some(Color::LightGreen));
    assert_eq!(line.spans[9].style.fg, Some(Color::Red));
    assert!(line.spans[9].style.add_modifier.contains(Modifier::Bold));
}

#[test]
fn fleet_status_has_canonical_order_and_semantic_styles() {
    let line = right(
        &ClaudeStatusLineData {
            thread_title: None,
            current_dir: "~".to_string(),
            git_branch: None,
            model: "gpt".to_string(),
            max_context_window: None,
            context_window: Some(100_000),
            reasoning: String::new(),
            context_used_tokens: Some(10_000),
            fleet_status: Some("fleet 4 ⚠2 ✉3 ⇄1".to_string()),
            five_hour: None,
            weekly: None,
            now_epoch_seconds: 0,
        },
        /*include_resets*/ false,
    );

    assert_eq!(text(&line), "gpt  fleet 4 ⚠2 ✉3 ⇄1 · ctx 10/100k (10%)");
    assert_eq!(line.spans[2].style.fg, Some(Color::DarkGray));
    assert_eq!(line.spans[3].style.fg, None);
    assert_eq!(line.spans[5].style.fg, Some(Color::Red));
    assert!(line.spans[5].style.add_modifier.contains(Modifier::Bold));
    assert_eq!(line.spans[7].style.fg, Some(Color::Yellow));
    assert_eq!(line.spans[9].style.fg, Some(Color::Cyan));
    assert_eq!(line.spans[10].style.fg, Some(Color::DarkGray));
}

#[test]
fn malformed_fleet_status_is_omitted() {
    for fleet_status in [
        "fleet",
        "fleet nope",
        "fleet 3 ✉2 ⚠1",
        "fleet 3 ⚠1 ⚠2",
        "fleet 3 unknown",
        "fleet 03",
        "fleet 3 ⚠0",
        "fleet 3 ✉0",
        "fleet 3 ⇄0",
    ] {
        assert_eq!(parse_fleet_status(fleet_status), None, "{fleet_status}");
    }
}

#[test]
fn formats_available_weekly_reset_details() {
    let limit = |resets_at, resets_left| ClaudeLimit {
        label: "7d",
        used_percent: 50,
        resets_at,
        resets_left,
    };

    assert_eq!(
        [
            reset_details(&limit(Some(180_000), Some(1)), 0),
            reset_details(&limit(Some(180_000), Some(2)), 0),
            reset_details(&limit(Some(180_000), None), 0),
            reset_details(&limit(None, Some(0)), 0),
            reset_details(&limit(None, None), 0),
        ],
        [
            Some("↻2d2h; 1 reset left".to_string()),
            Some("↻2d2h; 2 resets left".to_string()),
            Some("↻2d2h".to_string()),
            Some("0 resets left".to_string()),
            None,
        ]
    );
}

#[test]
fn split_gives_back_the_three_sides() {
    let data = ClaudeStatusLineData {
        thread_title: Some("  Title  ".to_string()),
        git_branch: Some("main".to_string()),
        context_window: Some(200_000),
        context_used_tokens: Some(240),
        five_hour: Some(ClaudeLimit {
            label: "5h",
            used_percent: 12,
            resets_at: Some(125),
            resets_left: Some(3),
        }),
        ..plain_data()
    };
    let fractional = fractional_used(&data);
    let left = left_line(&data);
    let full = right_line(&data, true, &fractional);
    let compact = right_line(&data, false, &fractional);
    let parts = split_claude_status_line(&claude_status_line(data, &fractional)).expect("split");
    assert_eq!(parts.left, left);
    assert_eq!(parts.right, full);
    assert_eq!(parts.compact_right, compact);
    assert_eq!(text(&parts.left), "Title: ~ (main)");
    assert_eq!(text(&parts.right), "gpt  ctx 0.2/200k (0%) · 5h 12% (↻2m; 3 resets left)");
    assert_eq!(text(&parts.compact_right), "gpt  ctx 0.2/200k (0%) · 5h 12%");
}

#[test]
fn split_refuses_lines_without_both_markers_in_order() {
    let span = |s: &str| Span::styled(s.to_string(), Style::plain());
    let no_markers = Line { spans: vec![span("a"), span("b")] };
    assert_eq!(split_claude_status_line(&no_markers), None);
    let reversed = Line {
        spans: vec![span("a"), span(COMPACT_RIGHT_MARKER), span("b"), span(RIGHT_MARKER), span("c")],
    };
    assert_eq!(split_claude_status_line(&reversed), None);
    let ordered = Line {
        spans: vec![span("a"), span(RIGHT_MARKER), span("b"), span(COMPACT_RIGHT_MARKER), span("c")],
    };
    let parts = split_claude_status_line(&ordered).expect("split");
    assert_eq!(text(&parts.left), "a");
    assert_eq!(text(&parts.right), "b");
    assert_eq!(text(&parts.compact_right), "c");
}

#[test]
fn context_usage_is_unknown_without_a_positive_window() {
    let line = right(
        &ClaudeStatusLineData { context_window: Some(0), context_used_tokens: Some(5), ..plain_data() },
        true,
    );
    assert_eq!(text(&line), "gpt  ctx --");
    assert_eq!(line.spans[3].style.fg, Some(Color::DarkGray));
    let line = right(&ClaudeStatusLineData { context_window: Some(1000), ..plain_data() }, true);
    assert_eq!(text(&line), "gpt  ctx --");
}

#[test]
fn context_percent_is_clamped_to_one_hundred() {
    let line = right(
        &ClaudeStatusLineData {
            context_window: Some(1_000),
            context_used_tokens: Some(5_000),
            ..plain_data()
        },
        true,
    );
    assert_eq!(text(&line), "gpt  ctx 5/1k (100%)");
    assert_eq!(line.spans[3].style.fg, Some(Color::Red));
    let line = right(
        &ClaudeStatusLineData {
            context_window: Some(1_000),
            context_used_tokens: Some(-7),
            ..plain_data()
        },
        true,
    );
    assert_eq!(text(&line), "gpt  ctx 0.0/1k (0%)");
}

#[test]
fn model_style_is_dim_cyan() {
    let line = right(&plain_data(), true);
    assert_eq!(line.spans[0].style.fg, Some(Color::Cyan));
    assert!(line.spans[0].style.add_modifier.contains(Modifier::Dim));
    assert!(!line.spans[0].style.add_modifier.contains(Modifier::Bold));
    assert_eq!(line.spans[1].style, Style::plain());
}

#[test]
fn formats_token_counts() {
    assert_eq!(format_tokens(1_000_000), "1M");
    assert_eq!(format_tokens(3_000_000), "3M");
    assert_eq!(format_tokens(1_500_000), "1500k");
    assert_eq!(format_tokens(258_000), "258k");
    assert_eq!(format_tokens(499), "0k");
    assert_eq!(format_tokens(500), "1k");
    assert_eq!(format_tokens(-10), "0k");
    assert_eq!(format_tokens(0), "0k");
    assert_eq!(format_used_tokens(134_000, "x"), "134");
    assert_eq!(format_used_tokens(1_499, "x"), "1");
    assert_eq!(format_used_tokens(1_500, "x"), "2");
    assert_eq!(format_used_tokens(999, "1.0"), "1.0");
    assert_eq!(format_used_tokens(-3, "0.0"), "0.0");
}

#[test]
fn usage_bands_have_fixed_edges() {
    assert_eq!(usage_style(85), Style::bold(Color::Red));
    assert_eq!(usage_style(84), Style::fg(Color::Yellow));
    assert_eq!(usage_style(50), Style::fg(Color::Yellow));
    assert_eq!(usage_style(49), Style::fg(Color::LightGreen));
    assert_eq!(usage_style(-1), Style::fg(Color::LightGreen));
    assert_eq!(usage_style(250), Style::bold(Color::Red));
}

#[test]
fn countdowns_use_the_two_largest_units() {
    assert_eq!(reset_countdown(180_000, 0), Some("2d2h".to_string()));
    assert_eq!(reset_countdown(10_800, 0), Some("3h0m".to_string()));
    assert_eq!(reset_countdown(3_599, 0), Some("59m".to_string()));
    assert_eq!(reset_countdown(59, 0), Some("0m".to_string()));
    assert_eq!(reset_countdown(100, 100), None);
    assert_eq!(reset_countdown(0, 100), None);
    assert_eq!(reset_countdown(i64::MAX, -1), None);
    assert_eq!(reset_countdown(i64::MAX, 0), Some("106751991167300d15h".to_string()));
}

#[test]
fn negative_percentages_and_counts_keep_their_sign() {
    let limit = ClaudeLimit { label: "7d", used_percent: -4, resets_at: None, resets_left: Some(-2) };
    assert_eq!(reset_details(&limit, 0), Some("-2 resets left".to_string()));
    let line = right(&ClaudeStatusLineData { weekly: Some(limit), ..plain_data() }, true);
    assert_eq!(text(&line), "gpt  ctx -- · 7d -4% (-2 resets left)");
}

#[test]
fn titles_are_trimmed_and_cut_at_thirty_nine_characters() {
    assert_eq!(truncate_title("  hello \t"), "hello");
    assert_eq!(truncate_title("\u{3000}title\u{a0}"), "title");
    let long = "a".repeat(40);
    assert_eq!(truncate_title(&long), format!("{}…", "a".repeat(39)));
    let exact = "b".repeat(39);
    assert_eq!(truncate_title(&exact), exact);
    assert_eq!(truncate_title("   "), "");
    assert!(truncate_title(&"é".repeat(100)).chars().count() <= 40);
}

#[test]
fn left_side_without_title_or_branch_is_the_directory() {
    let line = left_line(&plain_data());
    assert_eq!(text(&line), "~");
    assert_eq!(line.spans.len(), 1);
    assert_eq!(line.spans[0].style.fg, Some(Color::DarkGray));
}

#[test]
fn compact_right_side_equals_full_one_without_details() {
    let data = ClaudeStatusLineData {
        five_hour: Some(ClaudeLimit { label: "5h", used_percent: 1, resets_at: Some(-5), resets_left: None }),
        ..plain_data()
    };
    assert_eq!(right(&data, true), right(&data, false));
}

#[test]
fn nul_free_status_line_splits_into_its_sides() {
    let data = ClaudeStatusLineData {
        thread_title: Some("a title that is longer than thirty-nine characters in all".to_string()),
        git_branch: Some("dev".to_string()),
        max_context_window: Some(128_000),
        reasoning: "low".to_string(),
        context_window: Some(128_000),
        context_used_tokens: Some(64_000),
        fleet_status: Some("fleet 1 ✉4".to_string()),
        weekly: Some(ClaudeLimit { label: "7d", used_percent: 60, resets_at: Some(90_000), resets_left: Some(1) }),
        now_epoch_seconds: 1,
        ..plain_data()
    };
    let fractional = fractional_used(&data);
    let expected = (
        left_line(&data),
        right_line(&data, true, &fractional),
        right_line(&data, false, &fractional),
    );
    let parts = split_claude_status_line(&claude_status_line(data, &fractional)).expect("split");
    assert_eq!((parts.left, parts.right, parts.compact_right), expected);
}
