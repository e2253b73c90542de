use cc_sakura_line::context::{format_context, format_remaining};
use cc_sakura_line::session::{clock, format_duration};
use cc_sakura_line::width::{display_width, fit_cell, trim_to_width};
use cc_sakura_line::layout::column_widths;

#[test]
fn format_context_with_total() {
    assert_eq!(format_context(Some(120), Some(200)), "120/200");
}

#[test]
fn format_remaining_percent() {
    assert_eq!(format_remaining(Some(50), Some(200)), "75% left");
}

#[test]
fn format_remaining_unknown() {
    assert_eq!(format_remaining(None, None), "-");
}

#[test]
fn format_context_edges() {
    assert_eq!(format_context(Some(5), None), "5");
    assert_eq!(format_context(Some(5), Some(0)), "-");
    assert_eq!(format_context(None, Some(10)), "-");
}

#[test]
fn format_remaining_edges() {
    assert_eq!(format_remaining(Some(300), Some(200)), "0% left");
    assert_eq!(format_remaining(Some(0), Some(200)), "100% left");
    assert_eq!(format_remaining(Some(1), Some(3)), "67% left");
}

#[test]
fn format_duration_humanized() {
    assert_eq!(format_duration(0), "<1m");
    assert_eq!(format_duration(59), "<1m");
    assert_eq!(format_duration(60), "1m");
    assert_eq!(format_duration(1932), "32m");
    assert_eq!(format_duration(3600), "1h");
    assert_eq!(format_duration(19920), "5h32m");
}

#[test]
fn clock_matches_duration_label() {
    assert_eq!(clock(19920), "5h32m");
}

#[test]
fn display_width_counts_columns() {
    assert_eq!(display_width("abc"), 3);
    assert_eq!(display_width("🌲"), 2);
    assert_eq!(display_width("日本語"), 6);
    assert_eq!(display_width(""), 0);
}

#[test]
fn fit_cell_has_exact_width() {
    for w in 0..12 {
        assert_eq!(display_width(&fit_cell("héllo", w)), w);
        assert_eq!(display_width(&fit_cell("日本語", w)), w);
        assert_eq!(display_width(&fit_cell("", w)), w);
    }
    assert_eq!(fit_cell("ab", 4), "ab  ");
    assert_eq!(fit_cell("abcd", 2), "ab");
    // a first character wider than the whole budget leaves only padding
    assert_eq!(fit_cell("日", 1), " ");
}

#[test]
fn trim_never_splits_wide_chars() {
    assert_eq!(trim_to_width("日本", 3), "日");
    assert_eq!(trim_to_width("日本", 4), "日本");
    assert_eq!(trim_to_width("日本", 1), "");
    assert!(display_width(&trim_to_width("a日b本c", 5)) <= 5);
}

#[test]
fn column_widths_sum_to_usable() {
    let w = column_widths(41);
    assert_eq!((w.c0, w.c1, w.c2, w.c3), (10, 10, 10, 11));
    for usable in 0..100 {
        let t = column_widths(usable);
        assert_eq!(t.c0 + t.c1 + t.c2 + t.c3, usable);
    }
}
