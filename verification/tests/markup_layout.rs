use rastfetch::layout::{
    column_width, format_terminal_output, logo_column_width, split_lines, split_multiline_strings,
};
use rastfetch::markup::{count_chars_without_markers, render_line, render_segments, RenderEvent};
use rastfetch::theme::Color;

#[test]
fn visible_width_skips_directives() {
    assert_eq!(count_chars_without_markers("$1Hello$2World"), 10);
}

#[test]
fn visible_width_plain_text() {
    assert_eq!(count_chars_without_markers("Hello"), 5);
    assert_eq!(count_chars_without_markers(""), 0);
}

#[test]
fn visible_width_dollar_without_digit() {
    assert_eq!(count_chars_without_markers("$"), 1);
    assert_eq!(count_chars_without_markers("a$"), 2);
    assert_eq!(count_chars_without_markers("$x"), 2);
    assert_eq!(count_chars_without_markers("$5"), 0);
}

#[test]
fn segments_switch_at_directives() {
    let segs = render_segments("A$2B$1C", 2);
    let got: Vec<(usize, &str)> = segs.iter().map(|g| (g.slot, g.text.as_str())).collect();
    assert_eq!(got, vec![(0, "A"), (1, "B"), (0, "C")]);
}

#[test]
fn segments_consume_out_of_range_directives() {
    let segs = render_segments("a$9b", 2);
    let got: Vec<(usize, &str)> = segs.iter().map(|g| (g.slot, g.text.as_str())).collect();
    assert_eq!(got, vec![(0, "ab")]);

    let segs = render_segments("a$0b", 3);
    let got: Vec<(usize, &str)> = segs.iter().map(|g| (g.slot, g.text.as_str())).collect();
    assert_eq!(got, vec![(0, "ab")]);
}

#[test]
fn render_switches_colors_and_resets_once() {
    let palette = vec![Color::Red, Color::Green];
    let ev = render_line("A$2B$1C", &palette);
    assert_eq!(
        ev,
        vec![
            RenderEvent::SetColor(Color::Red),
            RenderEvent::Print("A".to_string()),
            RenderEvent::SetColor(Color::Green),
            RenderEvent::Print("B".to_string()),
            RenderEvent::SetColor(Color::Red),
            RenderEvent::Print("C".to_string()),
            RenderEvent::Reset,
            RenderEvent::Newline,
        ]
    );
    let resets = ev.iter().filter(|e| matches!(e, RenderEvent::Reset)).count();
    assert_eq!(resets, 1);
    assert!(matches!(ev[ev.len() - 2], RenderEvent::Reset));
    assert!(matches!(ev[ev.len() - 1], RenderEvent::Newline));
}

#[test]
fn render_empty_palette_prints_plainly() {
    let ev = render_line("A$2B", &vec![]);
    assert_eq!(
        ev,
        vec![
            RenderEvent::Print("AB".to_string()),
            RenderEvent::Reset,
            RenderEvent::Newline,
        ]
    );
}

#[test]
fn render_same_line_twice_is_identical() {
    let palette = vec![Color::Blue, Color::White, Color::Green];
    let first = render_line("$3Uptime:$2 3h", &palette);
    let second = render_line("$3Uptime:$2 3h", &palette);
    assert_eq!(first, second);
}

#[test]
fn multiline_string_splits_into_rows() {
    let out = split_multiline_strings(vec!["line1\nline2\nline3".to_string()]);
    assert_eq!(out, vec!["line1", "line2", "line3"]);
}

#[test]
fn multiline_split_keeps_order_and_drops_empties() {
    let out = split_multiline_strings(vec![
        "a".to_string(),
        "".to_string(),
        "b\nc".to_string(),
        "d\n".to_string(),
    ]);
    assert_eq!(out, vec!["a", "b", "c", "d"]);
}

#[test]
fn split_lines_handles_crlf_and_final_line() {
    assert_eq!(split_lines("a\r\nb"), vec!["a", "b"]);
    assert_eq!(split_lines("a\nb\n"), vec!["a", "b"]);
    assert_eq!(split_lines(""), Vec::<String>::new());
    assert_eq!(split_lines("\n"), vec![""]);
    assert_eq!(split_lines("b\r"), vec!["b\r"]);
}

#[test]
fn column_width_is_max_visible_plus_margin() {
    let logo = vec![
        "Hello".to_string(),   // visible width 5
        "abc".to_string(),     // visible width 3
        "abcdefg".to_string(), // visible width 7
    ];
    assert_eq!(column_width(&logo, 3), 10);
}

#[test]
fn column_width_counts_markup_as_zero() {
    let logo = vec!["$1Hi$2!".to_string()]; // visible width 3
    assert_eq!(column_width(&logo, 3), 6);
}

#[test]
fn info_starts_exactly_at_the_column() {
    let logo = vec!["Hello".to_string()];
    let info = vec!["info".to_string()];
    let rows = format_terminal_output(&logo, &info, 10);
    assert_eq!(rows, vec!["Hello     info"]);
}

#[test]
fn markup_in_logo_keeps_info_aligned() {
    let logo = vec!["$1Hi".to_string()]; // raw length 4, visible width 2
    let info = vec!["x".to_string()];
    let rows = format_terminal_output(&logo, &info, 5);
    assert_eq!(rows, vec!["$1Hi   x"]);
}

#[test]
fn composition_pairs_rows_and_pads_the_shorter_block() {
    let logo = vec!["AA".to_string(), "B".to_string()];
    let info = vec!["one".to_string(), "two".to_string(), "three".to_string()];
    let rows = format_terminal_output(&logo, &info, 4);
    assert_eq!(rows, vec!["AA  one", "B   two", "    three"]);
}

#[test]
fn multiline_fact_occupies_consecutive_aligned_rows() {
    let fetched = vec!["line1\nline2\nline3".to_string()];
    let info = split_multiline_strings(fetched);
    let logo = vec!["@".to_string()];
    let rows = format_terminal_output(&logo, &info, 4);
    assert_eq!(rows, vec!["@   line1", "    line2", "    line3"]);
}

#[test]
fn logo_wider_than_column_gets_no_padding() {
    let logo = vec!["abcdef".to_string()]; // visible width 6, column only 4
    let info = vec!["x".to_string()];
    let rows = format_terminal_output(&logo, &info, 4);
    assert_eq!(rows, vec!["abcdefx"]);
}

#[test]
fn composition_without_logo_passes_info_through() {
    let info = vec!["one".to_string(), "two".to_string()];
    let rows = format_terminal_output(&Vec::new(), &info, 0);
    assert_eq!(rows, info);
}

#[test]
fn directive_at_line_start_opens_an_empty_run() {
    let segs = render_segments("$1Hello", 2);
    let got: Vec<(usize, &str)> = segs.iter().map(|g| (g.slot, g.text.as_str())).collect();
    assert_eq!(got, vec![(0, ""), (0, "Hello")]);
}

#[test]
fn logo_column_width_ignores_ansi_escapes() {
    let logo = vec!["\u{1b}[32mab\u{1b}[0m".to_string()];
    assert_eq!(logo_column_width(&logo, 3), 5);
}
