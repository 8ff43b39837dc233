use std::borrow::Cow;
use tailspin::merge::{merge_spans, ResolvedSpan};
use tailspin::palette::{Palette, StyleId};
use tailspin::render::render;
use tailspin::span::{Collector, Span};
use tailspin::style::{Color, Style};

fn code_name(code: &str) -> String {
    let name = match code {
        "0" => "reset",
        "1" => "bold",
        "2" => "faint",
        "3" => "italic",
        "4" => "underline",
        "30" => "black",
        "31" => "red",
        "32" => "green",
        "33" => "yellow",
        "34" => "blue",
        "35" => "magenta",
        "36" => "cyan",
        "37" => "white",
        "40" => "bg_black",
        "41" => "bg_red",
        "42" => "bg_green",
        "43" => "bg_yellow",
        "44" => "bg_blue",
        "45" => "bg_magenta",
        "46" => "bg_cyan",
        "47" => "bg_white",
        other => other,
    };
    format!("[{name}]")
}

/// Replaces each ANSI escape sequence with readable names such as `[red]`.
fn convert_escape_codes(s: &str) -> String {
    let mut out = String::new();
    let mut rest = s;
    while let Some(pos) = rest.find("\x1b[") {
        out.push_str(&rest[..pos]);
        let after = &rest[pos + 2..];
        match after.find('m') {
            Some(end) => {
                for code in after[..end].split(';') {
                    out.push_str(&code_name(code));
                }
                rest = &after[end + 1..];
            }
            None => {
                out.push_str(&rest[pos..]);
                rest = "";
            }
        }
    }
    out.push_str(rest);
    out
}

fn red() -> StyleId {
    StyleId::new(0)
}

fn blue() -> StyleId {
    StyleId::new(1)
}

fn yellow() -> StyleId {
    StyleId::new(2)
}

fn padded_span(start: usize, end: usize, style: StyleId, priority: u16) -> Span {
    Span { start, end, style, priority, padded: true }
}

fn resolved(start: usize, end: usize, style: StyleId) -> ResolvedSpan {
    ResolvedSpan { start, end, style, padded: false }
}

fn padded(start: usize, end: usize, style: StyleId) -> ResolvedSpan {
    ResolvedSpan { start, end, style, padded: true }
}

#[test]
fn coalesces_adjacent_same_style() {
    let style = red();
    let mut collector = Collector::new();
    collector.push(0, 1, style);
    collector.push(1, 2, style);
    collector.push(2, 3, style);

    let spans = collector.into_spans();
    assert_eq!(spans.len(), 1);
    assert_eq!(spans[0].start, 0);
    assert_eq!(spans[0].end, 3);
}

#[test]
fn does_not_coalesce_different_styles() {
    let mut collector = Collector::new();
    collector.push(0, 1, red());
    collector.push(1, 2, blue());
    collector.push(2, 3, red());

    let spans = collector.into_spans();
    assert_eq!(spans.len(), 3);
}

#[test]
fn does_not_coalesce_non_adjacent() {
    let mut collector = Collector::new();
    collector.push(0, 1, red());
    collector.push(3, 4, red());

    let spans = collector.into_spans();
    assert_eq!(spans.len(), 2);
}

#[test]
fn reset_clears_spans() {
    let mut collector = Collector::new();
    collector.push_padded(0, 3, red());
    collector.reset();
    assert!(collector.into_spans().is_empty());
}

#[test]
fn push_padded_marks_span_padded() {
    let mut collector = Collector::new();
    collector.push_padded(0, 3, red());

    let spans = collector.into_spans();
    assert_eq!(spans.len(), 1);
    assert!(spans[0].padded);
}

#[test]
fn does_not_coalesce_padded_with_plain() {
    let mut collector = Collector::new();
    collector.push(0, 1, red());
    collector.push_padded(1, 2, red());

    let spans = collector.into_spans();
    assert_eq!(spans.len(), 2);
    assert!(!spans[0].padded);
    assert!(spans[1].padded);
}

#[test]
fn empty_range_is_ignored() {
    let mut collector = Collector::new();
    collector.push(4, 4, red());
    collector.push(5, 2, red());
    assert!(collector.into_spans().is_empty());
}

#[test]
fn drain_into_stamps_priority_and_empties() {
    let mut collector = Collector::new();
    collector.push(0, 2, red());
    collector.push(4, 6, blue());
    let mut all = vec![Span::new(9, 10, yellow(), 0)];
    collector.drain_into(&mut all, 7);
    assert_eq!(all.len(), 3);
    assert_eq!(all[1], Span::new(0, 2, red(), 7));
    assert_eq!(all[2], Span::new(4, 6, blue(), 7));
    assert!(collector.into_spans().is_empty());
}

#[test]
fn empty_spans() {
    let result = merge_spans(10, &[]);
    assert!(result.is_empty());
}

#[test]
fn single_span() {
    let spans = [Span::new(2, 5, red(), 0)];
    let result = merge_spans(10, &spans);
    assert_eq!(result, vec![resolved(2, 5, red())]);
}

#[test]
fn non_overlapping_spans() {
    let spans = [Span::new(0, 3, red(), 0), Span::new(5, 8, blue(), 1)];
    let result = merge_spans(10, &spans);
    assert_eq!(result, vec![resolved(0, 3, red()), resolved(5, 8, blue())]);
}

#[test]
fn overlapping_higher_priority_wins() {
    let spans = [Span::new(0, 6, red(), 0), Span::new(3, 8, blue(), 1)];
    let result = merge_spans(10, &spans);
    assert_eq!(result, vec![resolved(0, 6, red()), resolved(6, 8, blue())]);
}

#[test]
fn lower_priority_fills_gaps() {
    let spans = [Span::new(5, 7, red(), 0), Span::new(0, 10, yellow(), 1)];
    let result = merge_spans(10, &spans);
    assert_eq!(
        result,
        vec![resolved(0, 5, yellow()), resolved(5, 7, red()), resolved(7, 10, yellow())]
    );
}

#[test]
fn adjacent_different_styles() {
    let spans = [Span::new(0, 3, red(), 0), Span::new(3, 6, blue(), 0)];
    let result = merge_spans(6, &spans);
    assert_eq!(result, vec![resolved(0, 3, red()), resolved(3, 6, blue())]);
}

#[test]
fn intact_padded_span_keeps_padded_flag() {
    let spans = [padded_span(2, 7, red(), 0)];
    let result = merge_spans(10, &spans);
    assert_eq!(result, vec![padded(2, 7, red())]);
}

#[test]
fn fragmented_padded_span_loses_padded_flag() {
    let spans = [Span::new(4, 5, blue(), 0), padded_span(2, 7, red(), 1)];
    let result = merge_spans(10, &spans);
    assert_eq!(
        result,
        vec![resolved(2, 4, red()), resolved(4, 5, blue()), resolved(5, 7, red())]
    );
}

#[test]
fn multiple_padded_ranges_in_order() {
    let spans = [padded_span(0, 4, red(), 0), padded_span(6, 10, blue(), 1)];
    let result = merge_spans(10, &spans);
    assert_eq!(result, vec![padded(0, 4, red()), padded(6, 10, blue())]);
}

#[test]
fn overlapping_padded_ranges_keep_padding_on_the_intact_one() {
    let spans = [padded_span(4, 13, red(), 0), padded_span(0, 9, blue(), 1)];
    let result = merge_spans(13, &spans);
    assert_eq!(result, vec![resolved(0, 4, blue()), padded(4, 13, red())]);
}

#[test]
fn equal_priority_earlier_span_wins() {
    let spans = [Span::new(0, 4, red(), 3), Span::new(2, 6, blue(), 3)];
    let result = merge_spans(6, &spans);
    assert_eq!(result, vec![resolved(0, 4, red()), resolved(4, 6, blue())]);
}

#[test]
fn same_style_from_two_finders_merges_into_one_fragment() {
    let spans = [Span::new(0, 3, red(), 0), Span::new(3, 6, red(), 1)];
    let result = merge_spans(6, &spans);
    assert_eq!(result, vec![resolved(0, 6, red())]);
}

fn palette_style(palette: &mut Palette, style: Style) -> StyleId {
    palette.intern(style)
}

#[test]
fn empty_spans_returns_borrowed() {
    let input = "hello world";
    let result = render(input, &[], &Palette::new());
    assert!(matches!(result, Cow::Borrowed(_)));
    assert_eq!(&*result, "hello world");
}

#[test]
fn single_span_in_middle() {
    let input = "hello world";
    let mut palette = Palette::new();
    let red = palette_style(&mut palette, Style::new().fg(Color::Red));
    let result = render(input, &[resolved(6, 11, red)], &palette);
    assert_eq!(convert_escape_codes(&result), "hello [red]world[reset]");
}

#[test]
fn preserves_text_between_spans() {
    let input = "abc def ghi";
    let mut palette = Palette::new();
    let red = palette_style(&mut palette, Style::new().fg(Color::Red));
    let result = render(input, &[resolved(0, 3, red), resolved(8, 11, red)], &palette);
    assert_eq!(convert_escape_codes(&result), "[red]abc[reset] def [red]ghi[reset]");
}

#[test]
fn adjacent_spans_no_gap() {
    let input = "abcdef";
    let mut palette = Palette::new();
    let red = palette_style(&mut palette, Style::new().fg(Color::Red));
    let green = palette_style(&mut palette, Style::new().fg(Color::Green));
    let result = render(input, &[resolved(0, 3, red), resolved(3, 6, green)], &palette);
    assert_eq!(convert_escape_codes(&result), "[red]abc[reset][green]def[reset]");
}

#[test]
fn padded_span_gets_spaces() {
    let input = "x ERROR y";
    let mut palette = Palette::new();
    let bg_red = palette_style(&mut palette, Style::new().on(Color::Red));
    let result = render(input, &[padded(2, 7, bg_red)], &palette);
    assert_eq!(convert_escape_codes(&result), "x [bg_red] ERROR [reset] y");
}

#[test]
fn padded_span_at_start_of_input() {
    let input = "ERROR rest";
    let mut palette = Palette::new();
    let bg_red = palette_style(&mut palette, Style::new().on(Color::Red));
    let result = render(input, &[padded(0, 5, bg_red)], &palette);
    assert_eq!(convert_escape_codes(&result), "[bg_red] ERROR [reset] rest");
}

#[test]
fn padded_span_at_end_of_input() {
    let input = "prefix ERROR";
    let mut palette = Palette::new();
    let bg_red = palette_style(&mut palette, Style::new().on(Color::Red));
    let result = render(input, &[padded(7, 12, bg_red)], &palette);
    assert_eq!(convert_escape_codes(&result), "prefix [bg_red] ERROR [reset]");
}

#[test]
fn non_padded_span_gets_no_spaces() {
    let input = "x ERROR y";
    let mut palette = Palette::new();
    let red = palette_style(&mut palette, Style::new().fg(Color::Red));
    let result = render(input, &[resolved(2, 7, red)], &palette);
    assert_eq!(convert_escape_codes(&result), "x [red]ERROR[reset] y");
}

#[test]
fn mixed_padded_and_plain() {
    let input = "WARN then ERROR end";
    let mut palette = Palette::new();
    let bg_yellow = palette_style(&mut palette, Style::new().on(Color::Yellow));
    let bg_red = palette_style(&mut palette, Style::new().on(Color::Red));
    let result = render(input, &[padded(0, 4, bg_yellow), padded(10, 15, bg_red)], &palette);
    assert_eq!(
        convert_escape_codes(&result),
        "[bg_yellow] WARN [reset] then [bg_red] ERROR [reset] end"
    );
}

#[test]
fn padded_followed_by_plain_fragment() {
    let input = "x ERROR y";
    let mut palette = Palette::new();
    let bg_red = palette_style(&mut palette, Style::new().on(Color::Red));
    let green = palette_style(&mut palette, Style::new().fg(Color::Green));
    let result = render(input, &[resolved(2, 5, bg_red), resolved(5, 7, green)], &palette);
    assert_eq!(convert_escape_codes(&result), "x [bg_red]ERR[reset][green]OR[reset] y");
}

#[test]
fn render_keeps_multibyte_text() {
    let input = "café 42 résumé";
    let mut palette = Palette::new();
    let red = palette_style(&mut palette, Style::new().fg(Color::Red));
    let result = render(input, &[resolved(6, 8, red)], &palette);
    assert_eq!(convert_escape_codes(&result), "café [red]42[reset] résumé");
}

#[test]
fn interning_the_same_style_returns_the_same_id() {
    let mut palette = Palette::new();
    let a = palette.intern(Style::new().fg(Color::Red));
    let b = palette.intern(Style::new().fg(Color::Blue));
    let c = palette.intern(Style::new().fg(Color::Red));

    assert_eq!(a, c);
    assert_ne!(a, b);
}

#[test]
fn indexing_resolves_the_precomputed_prefix() {
    let mut palette = Palette::new();
    let cyan = palette.intern(Style::new().fg(Color::Cyan));

    assert_eq!(palette.prefix(cyan), "\x1b[36m");
}

#[test]
fn plain_style_has_empty_prefix() {
    assert_eq!(Style::new().prefix(), "");
    assert_eq!(Style::default().prefix(), "");
}

#[test]
fn prefixes_agree_with_nu_ansi_term() {
    let colors = [
        (Color::Black, nu_ansi_term::Color::Black),
        (Color::Red, nu_ansi_term::Color::Red),
        (Color::Green, nu_ansi_term::Color::Green),
        (Color::Yellow, nu_ansi_term::Color::Yellow),
        (Color::Blue, nu_ansi_term::Color::Blue),
        (Color::Magenta, nu_ansi_term::Color::Magenta),
        (Color::Cyan, nu_ansi_term::Color::Cyan),
        (Color::White, nu_ansi_term::Color::White),
        (Color::BrightBlack, nu_ansi_term::Color::DarkGray),
        (Color::BrightRed, nu_ansi_term::Color::LightRed),
        (Color::BrightGreen, nu_ansi_term::Color::LightGreen),
        (Color::BrightYellow, nu_ansi_term::Color::LightYellow),
        (Color::BrightBlue, nu_ansi_term::Color::LightBlue),
        (Color::BrightMagenta, nu_ansi_term::Color::LightMagenta),
        (Color::BrightCyan, nu_ansi_term::Color::LightCyan),
        (Color::BrightWhite, nu_ansi_term::Color::LightGray),
    ];
    for (fg, nu_fg) in colors {
        for (bg, nu_bg) in colors {
            for bits in 0..16u8 {
                let mut ours = Style::new().fg(fg).on(bg);
                let mut theirs = nu_ansi_term::Style::new().fg(nu_fg).on(nu_bg);
                if bits & 1 != 0 {
                    ours = ours.bold();
                    theirs = theirs.bold();
                }
                if bits & 2 != 0 {
                    ours = ours.faint();
                    theirs = theirs.dimmed();
                }
                if bits & 4 != 0 {
                    ours = ours.italic();
                    theirs = theirs.italic();
                }
                if bits & 8 != 0 {
                    ours = ours.underline();
                    theirs = theirs.underline();
                }
                assert_eq!(ours.prefix(), theirs.prefix().to_string());
                let only_fg = Style::new().fg(fg);
                assert_eq!(only_fg.prefix(), nu_ansi_term::Style::new().fg(nu_fg).prefix().to_string());
            }
        }
    }
    assert_eq!(Style::new().bold().prefix(), nu_ansi_term::Style::new().bold().prefix().to_string());
}

#[test]
fn merge_does_not_depend_on_span_order() {
    let spans = [
        Span::new(0, 6, red(), 0),
        Span::new(3, 8, blue(), 1),
        padded_span(8, 10, yellow(), 2),
        Span::new(5, 9, yellow(), 3),
    ];
    let expected = merge_spans(12, &spans);
    let reversed: Vec<Span> = spans.iter().rev().copied().collect();
    assert_eq!(merge_spans(12, &reversed), expected);
    let shuffled = [spans[2], spans[0], spans[3], spans[1]];
    assert_eq!(merge_spans(12, &shuffled), expected);
}
