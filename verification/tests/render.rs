use cc_sakura_line::cells::{git_changes_spans, pill_spans};
use cc_sakura_line::render::{format_output, render_spans};
use cc_sakura_line::snapshot::Snapshot;
use cc_sakura_line::style::Hue;
use cc_sakura_line::width::display_width;

fn sample() -> Snapshot {
    Snapshot {
        model: "model".to_string(),
        version: "0.1.0".to_string(),
        contributions: "🌲 9".to_string(),
        session_clock: "5h32m".to_string(),
        repository: "owner/repo".to_string(),
        branch: "main".to_string(),
        git_changes: "+3 -1".to_string(),
        ahead_behind: "↑1 ↓0".to_string(),
        context: "10K/100K".to_string(),
        context_remaining: "90% left".to_string(),
        now_clock: "12:34:56".to_string(),
    }
}

fn strip_ansi(s: &str) -> String {
    let mut out = String::new();
    let mut chars = s.chars();
    while let Some(c) = chars.next() {
        if c == '\u{1b}' {
            for d in chars.by_ref() {
                if d == 'm' {
                    break;
                }
            }
        } else {
            out.push(c);
        }
    }
    out
}

#[test]
fn format_output_contains_lines() {
    let snapshot = sample();
    let output = format_output(&snapshot, None, false);
    let lines: Vec<&str> = output.trim_end().split('\n').collect();
    assert!(lines.len() >= 3);
    assert!(output.contains("model"));
    assert!(output.contains("0.1.0"));
    assert!(output.contains("owner/repo"));
}

#[test]
fn output_is_three_gutter_opened_lines() {
    let snapshot = sample();
    let output = format_output(&snapshot, None, false);
    assert!(output.ends_with('\n'));
    let lines: Vec<&str> = output.trim_end().split('\n').collect();
    assert_eq!(lines.len(), 3);
    for line in &lines {
        // the row base colors, then the one-column gutter
        assert!(line.starts_with("\u{1b}[38;2;220;220;220m\u{1b}[48;2;40;40;40m "));
        assert!(strip_ansi(line).starts_with(' '));
    }
    assert!(output.contains("model"));
    assert!(output.contains("0.1.0"));
    assert!(output.contains("owner/repo"));
}

#[test]
fn natural_mode_never_truncates() {
    let mut snapshot = sample();
    snapshot.model = "a-rather-long-model-name".to_string();
    snapshot.repository = "some-owner/some-long-repository".to_string();
    let output = strip_ansi(&format_output(&snapshot, None, false));
    for value in [
        "a-rather-long-model-name",
        "0.1.0",
        "🌲 9",
        "5h32m",
        "some-owner/some-long-repository",
        "main",
        "+3 -1",
        "↑1 ↓0",
        "10K/100K",
        "90% left",
        "12:34:56",
    ] {
        assert!(output.contains(value), "missing {value:?}");
    }
}

#[test]
fn fixed_width_lines_stay_within_budget() {
    let snapshot = sample();
    for width in [1usize, 5, 20, 35, 80] {
        for fill in [false, true] {
            let output = format_output(&snapshot, Some(width), fill);
            for line in output.trim_end().split('\n') {
                let visible = strip_ansi(line);
                assert!(
                    display_width(&visible) <= width,
                    "width {width} fill {fill}: {visible:?}"
                );
            }
        }
    }
}

#[test]
fn repeated_renders_are_identical() {
    let snapshot = sample();
    for width in [None, Some(20), Some(60)] {
        for fill in [false, true] {
            let a = format_output(&snapshot, width, fill);
            let b = format_output(&snapshot, width, fill);
            assert_eq!(a, b);
            let sa = render_spans(&snapshot, width, fill);
            let sb = render_spans(&snapshot, width, fill);
            assert_eq!(sa, sb);
        }
    }
}

#[test]
fn adapters_show_the_same_characters() {
    let snapshot = sample();
    for width in [None, Some(24), Some(60)] {
        for fill in [false, true] {
            let text = format_output(&snapshot, width, fill);
            let spans = render_spans(&snapshot, width, fill);
            let text_lines: Vec<&str> = text.trim_end().split('\n').collect();
            assert_eq!(text_lines.len(), spans.len());
            for (line, line_spans) in text_lines.iter().zip(spans.iter()) {
                let from_spans: String =
                    line_spans.iter().map(|s| s.text.as_str()).collect();
                assert_eq!(strip_ansi(line), from_spans);
            }
        }
    }
}

#[test]
fn diff_tokens_are_recolored() {
    // " +3 -1 " at width 7: plain, green "+3", plain, red "-1", plain
    let spans = git_changes_spans("+3 -1", 7, Hue::MidBg, Hue::MidFg);
    assert_eq!(spans.len(), 5);
    assert_eq!(spans[1].text, "+3");
    assert_eq!(spans[1].fg, Hue::PlusFg);
    assert_eq!(spans[2].text, " ");
    assert_eq!(spans[2].fg, Hue::MidFg);
    assert_eq!(spans[3].text, "-1");
    assert_eq!(spans[3].fg, Hue::MinusFg);
}

#[test]
fn lone_sign_stays_plain() {
    let spans = git_changes_spans("-", 3, Hue::MidBg, Hue::MidFg);
    assert_eq!(spans.len(), 1);
    assert_eq!(spans[0].text, " - ");
    assert_eq!(spans[0].fg, Hue::MidFg);
}

#[test]
fn fill_without_width_renders_empty_rows() {
    // fill mode with no known width computes against an empty budget:
    // every column resolves to zero width and only the gutter remains
    let output = format_output(&sample(), None, true);
    let lines: Vec<&str> = output.trim_end().split('\n').collect();
    assert_eq!(lines.len(), 3);
    for line in lines {
        assert_eq!(strip_ansi(line), " ");
    }
}

#[test]
fn width_table_facts_hold() {
    assert!(cc_sakura_line::cells::check_narrow_marks());
}

#[test]
fn narrow_pill_degrades_to_block() {
    let spans = pill_spans("x", 1, Hue::Sakura, Hue::SakuraInk);
    assert_eq!(spans.len(), 1);
    assert_eq!(spans[0].text, " ");
    assert_eq!(spans[0].fg, Hue::SakuraInk);
    assert_eq!(spans[0].bg, Hue::Sakura);
    assert!(!spans[0].text.contains('\u{e0b6}'));
    assert!(!spans[0].text.contains('\u{e0b4}'));

    let wide = pill_spans("x", 5, Hue::Sakura, Hue::SakuraInk);
    assert_eq!(wide.len(), 3);
    assert_eq!(wide[0].text, "\u{e0b6}");
    assert_eq!(wide[2].text, "\u{e0b4}");
    assert_eq!(wide[1].text, " x ");
}
