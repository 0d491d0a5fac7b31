use termdown::code_block::{code_block_output, frame_width};
use termdown::event::MdEvent;
use termdown::markdown::{markdown_events, render_markdown, wrap_width};
use termdown::render::render_events;
use termdown::width::visible_width;

fn chars(s: &str) -> Vec<char> {
    s.chars().collect()
}

fn render(events: Vec<MdEvent>, width: usize) -> String {
    render_events(&events, width).iter().collect()
}

fn text(s: &str) -> MdEvent {
    MdEvent::Text(s.to_string())
}

#[test]
fn ordered_list_counts_up_from_its_start() {
    let out = render(
        vec![
            MdEvent::ListStart(Some(7)),
            MdEvent::ItemStart,
            text("a"),
            MdEvent::ItemEnd,
            MdEvent::ItemStart,
            text("b"),
            MdEvent::ItemEnd,
            MdEvent::ItemStart,
            text("c"),
            MdEvent::ItemEnd,
            MdEvent::ListEnd,
        ],
        60,
    );
    assert_eq!(
        out,
        "\n\x1b[35m 7. \x1b[0ma\n\x1b[35m 8. \x1b[0mb\n\x1b[35m 9. \x1b[0mc\n"
    );
}

#[test]
fn wide_counters_are_not_padded() {
    let out = render(
        vec![
            MdEvent::ListStart(Some(99)),
            MdEvent::ItemStart,
            text("a"),
            MdEvent::ItemStart,
            text("b"),
            MdEvent::ListEnd,
        ],
        60,
    );
    assert_eq!(out, "\n\x1b[35m99. \x1b[0ma\n\x1b[35m100. \x1b[0mb\n");
}

#[test]
fn nested_items_are_indented_two_spaces_a_level() {
    let out = render(
        vec![
            MdEvent::ListStart(None),
            MdEvent::ItemStart,
            text("a"),
            MdEvent::ListStart(None),
            MdEvent::ItemStart,
            text("b"),
            MdEvent::ListStart(None),
            MdEvent::ItemStart,
            text("c"),
            MdEvent::ListEnd,
            MdEvent::ListEnd,
            MdEvent::ListEnd,
        ],
        60,
    );
    assert_eq!(
        out,
        "\n\x1b[35m ▸ \x1b[0ma\n  \x1b[35m ▸ \x1b[0mb\n    \x1b[35m ▸ \x1b[0mc\n"
    );
}

#[test]
fn frame_is_at_least_forty_columns() {
    assert_eq!(frame_width(&vec![chars("ab")], &chars("rs")), 40);
}

#[test]
fn frame_grows_with_the_widest_line() {
    let long = "x".repeat(45);
    assert_eq!(frame_width(&vec![chars("ab"), chars(&long)], &chars("rs")), 45);
}

#[test]
fn frame_ignores_escapes_when_measuring() {
    let styled = format!("\x1b[1m{}\x1b[0m", "y".repeat(41));
    assert_eq!(frame_width(&vec![chars(&styled)], &chars("rs")), 41);
}

#[test]
fn frame_leaves_room_around_a_long_label() {
    let tag = "t".repeat(38);
    assert_eq!(frame_width(&vec![chars("ab")], &chars(&tag)), 42);
}

#[test]
fn visible_width_skips_escape_sequences() {
    assert_eq!(visible_width(&chars("\x1b[1mab\x1b[38;5;40mc\x1b[0m")), 3);
    assert_eq!(visible_width(&chars("")), 0);
}

#[test]
fn soft_broken_paragraph_wraps_at_the_budget() {
    let out = render(
        vec![
            MdEvent::ParagraphStart,
            text("aaaaa bbbbb ccccc"),
            MdEvent::SoftBreak,
            text("ddd"),
            MdEvent::ParagraphEnd,
        ],
        8,
    );
    assert_eq!(out, "aaaaa\nbbbbb\nccccc\nddd\n");
    for line in out.lines() {
        assert!(line.chars().count() <= 8);
    }
}

#[test]
fn unmatched_link_end_shows_a_bracket() {
    let out = render(vec![MdEvent::LinkEnd, text("x")], 60);
    assert_eq!(out, "]x\n");
}

#[test]
fn link_shows_its_destination() {
    let out = render(
        vec![
            MdEvent::LinkStart("http://a".to_string()),
            text("t"),
            MdEvent::LinkEnd,
        ],
        60,
    );
    assert_eq!(out, "\x1b[34m[t](\x1b[34mhttp://a\x1b[0m)\n");
}

#[test]
fn blank_lines_between_blocks_take_the_larger_request() {
    let out = render(
        vec![
            MdEvent::BlockQuoteStart,
            text("q"),
            MdEvent::BlockQuoteEnd,
            MdEvent::HeadingStart(2),
            text("H"),
            MdEvent::HeadingEnd,
        ],
        60,
    );
    assert_eq!(out, "\n\x1b[2m│ \x1b[0mq\n\n\x1b[1m\x1b[38;5;40m## H\x1b[0m\n");
}

#[test]
fn heading_then_paragraph() {
    let out = render_markdown("# Title\n\nSome *text*.", 80);
    assert_eq!(
        out,
        "\n\n\x1b[1m\x1b[38;5;40m# Title\x1b[0m\n\nSome \x1b[3mtext\x1b[0m.\n"
    );
}

#[test]
fn ordered_list_with_nested_bullets() {
    let out = render_markdown("1. one\n2. two\n   - nested\n", 80);
    assert_eq!(
        out,
        "\n\x1b[35m 1. \x1b[0mone\n\x1b[35m 2. \x1b[0mtwo\n  \x1b[35m ▸ \x1b[0mnested\n"
    );
}

#[test]
fn unknown_language_falls_back_to_plain_frame() {
    let out = render_markdown("```nosuchlang\nlet x = 1;\n```\n", 80);
    let dashes = "─".repeat(40);
    let expected = format!(
        "\n\x1b[2m┌{d}\x1b[0m\n\x1b[2m│\x1b[0m let x = 1;\n\x1b[2m└{d}\x1b[0m\n",
        d = dashes
    );
    assert_eq!(out, expected);
}

#[test]
fn highlighted_code_is_framed_under_its_label() {
    let out: String = code_block_output(&chars("ab\n"), &chars("rs"), Some(chars("AB\n")))
        .iter()
        .collect();
    let expected = format!(
        "\x1b[2m{l} rs {l}\x1b[0m\nAB\n\x1b[2m{b}\x1b[0m\n",
        l = "─".repeat(18),
        b = "─".repeat(40)
    );
    assert_eq!(out, expected);
}

#[test]
fn blank_code_shows_nothing() {
    let out = code_block_output(&chars(" \n\t\n"), &chars("rs"), None);
    assert!(out.is_empty());
}

#[test]
fn known_language_is_highlighted() {
    let out = render_markdown("```rust\nfn main() {}\n```\n", 80);
    assert!(!out.contains("│"));
    assert!(out.contains(" rust "));
    assert!(!out.contains("\nfn main() {}\n"));
    assert!(out.contains("main"));
}

#[test]
fn rule_is_capped_at_fifty_columns() {
    let out = render(vec![MdEvent::Rule], 60);
    assert_eq!(out, format!("\n\x1b[2m{}\x1b[0m\n", "─".repeat(50)));
    let narrow = render(vec![MdEvent::Rule], 10);
    assert_eq!(narrow, format!("\n\x1b[2m{}\x1b[0m\n", "─".repeat(10)));
}

#[test]
fn inline_code_is_marked() {
    let out = render(vec![MdEvent::Code("x".to_string())], 60);
    assert_eq!(out, "\x1b[38;5;111m`x`\x1b[0m\n");
}

#[test]
fn markup_tags_are_dropped_and_other_markup_kept() {
    assert_eq!(render(vec![MdEvent::Html("<br>".to_string())], 60), "");
    assert_eq!(render(vec![MdEvent::Html("hello".to_string())], 60), "hello\n");
}

#[test]
fn unmatched_list_end_does_not_fail() {
    assert_eq!(render(vec![MdEvent::ListEnd, text("a")], 60), "\na\n");
}

#[test]
fn hard_break_starts_a_new_line() {
    let out = render(vec![text("a"), MdEvent::HardBreak, MdEvent::SoftBreak, text("b")], 60);
    assert_eq!(out, "a\nb\n");
}

#[test]
fn strong_and_strike_are_styled() {
    let out = render(
        vec![
            MdEvent::StrongStart,
            text("s"),
            MdEvent::StrongEnd,
            MdEvent::StrikeStart,
            text("k"),
            MdEvent::StrikeEnd,
        ],
        60,
    );
    assert_eq!(out, "\x1b[1m\x1b[33ms\x1b[0m\x1b[9mk\x1b[0m\n");
}

#[test]
fn text_inside_a_list_wraps_under_the_item() {
    let out = render(
        vec![MdEvent::ListStart(None), MdEvent::ItemStart, text("aaaa bbbb"), MdEvent::ListEnd],
        8,
    );
    assert_eq!(out, "\n\x1b[35m ▸ \x1b[0maaaa\n  bbbb\n");
}

#[test]
fn wrap_budget_follows_the_terminal() {
    assert_eq!(wrap_width(80), 60);
    assert_eq!(wrap_width(10), 7);
    assert_eq!(wrap_width(500), 100);
}

#[test]
fn parser_events_are_carried_over() {
    let events = markdown_events("# T");
    assert_eq!(
        events,
        vec![MdEvent::HeadingStart(1), text("T"), MdEvent::HeadingEnd]
    );
}

#[test]
fn closing_an_inner_style_keeps_the_outer_one() {
    let out = render(
        vec![
            MdEvent::EmphasisStart,
            MdEvent::StrongStart,
            text("a"),
            MdEvent::StrongEnd,
            text("b"),
            MdEvent::EmphasisEnd,
        ],
        60,
    );
    assert_eq!(out, "\x1b[3m\x1b[1m\x1b[33ma\x1b[0m\x1b[3mb\x1b[0m\n");
}

#[test]
fn every_line_of_a_quote_carries_the_bar() {
    let bar = "\x1b[2m│ \x1b[0m";
    let out = render_markdown("> a\n> b\n>\n> c\n", 80);
    assert_eq!(out, format!("\n{bar}a b\n{bar}c\n", bar = bar));
    let broken = render(
        vec![
            MdEvent::BlockQuoteStart,
            text("a"),
            MdEvent::HardBreak,
            text("b"),
            MdEvent::BlockQuoteEnd,
        ],
        60,
    );
    assert_eq!(broken, format!("\n{bar}a\n{bar}b\n", bar = bar));
}

#[test]
fn nested_quotes_stack_their_bars() {
    let bar = "\x1b[2m│ \x1b[0m";
    let out = render(
        vec![
            MdEvent::BlockQuoteStart,
            MdEvent::BlockQuoteStart,
            text("a"),
            MdEvent::HardBreak,
            text("b"),
            MdEvent::BlockQuoteEnd,
            MdEvent::BlockQuoteEnd,
        ],
        60,
    );
    assert_eq!(out, format!("\n{bar}\n{bar}{bar}a\n{bar}{bar}b\n", bar = bar));
}

#[test]
fn plain_frame_grows_with_a_long_line() {
    let line = "x".repeat(60);
    let code = format!("{}\n", line);
    let out: String = code_block_output(&chars(&code), &chars("nosuchlang"), None).iter().collect();
    let dashes = "─".repeat(60);
    let expected = format!(
        "\x1b[2m┌{d}\x1b[0m\n\x1b[2m│\x1b[0m {l}\n\x1b[2m└{d}\x1b[0m\n",
        d = dashes,
        l = line
    );
    assert_eq!(out, expected);
}

#[test]
fn plain_frame_leaves_room_around_a_long_label() {
    let tag = "t".repeat(50);
    let out: String = code_block_output(&chars("x\n"), &chars(&tag), None).iter().collect();
    let dashes = "─".repeat(54);
    let expected = format!(
        "\x1b[2m┌{d}\x1b[0m\n\x1b[2m│\x1b[0m x\n\x1b[2m└{d}\x1b[0m\n",
        d = dashes
    );
    assert_eq!(out, expected);
}

#[test]
fn empty_tag_is_labelled_text() {
    let out: String = code_block_output(&chars("ab\n"), &chars(""), Some(chars("AB\n")))
        .iter()
        .collect();
    let expected = format!(
        "\x1b[2m{l} text {r}\x1b[0m\nAB\n\x1b[2m{b}\x1b[0m\n",
        l = "─".repeat(17),
        r = "─".repeat(17),
        b = "─".repeat(40)
    );
    assert_eq!(out, expected);
}

#[test]
fn unicode_blank_code_shows_nothing() {
    let out = code_block_output(&chars("\u{3000}\u{a0}\n"), &chars("rs"), None);
    assert!(out.is_empty());
}

#[test]
fn soft_break_line_stays_within_the_budget() {
    let out = render_markdown("aaaa bbbb cccc dddd\neeee ffff", 12);
    assert_eq!(out, "aaaa bbbb\ncccc dddd\neeee ffff\n");
    for line in out.lines() {
        assert!(line.chars().count() <= 9);
    }
}

#[test]
fn hyphenated_words_are_not_split() {
    let out = render(vec![text("aaaa-bbbb cc")], 5);
    assert_eq!(out, "aaaa-bbbb\ncc\n");
}

#[test]
fn document_ending_in_a_heading_ends_its_line() {
    let out = render_markdown("# T", 80);
    assert_eq!(out, "\n\n\x1b[1m\x1b[38;5;40m# T\x1b[0m\n");
}

#[test]
fn nested_items_do_not_advance_the_outer_counter() {
    let out = render_markdown("1. a\n   - x\n   - y\n2. b\n", 80);
    assert_eq!(
        out,
        "\n\x1b[35m 1. \x1b[0ma\n  \x1b[35m ▸ \x1b[0mx\n  \x1b[35m ▸ \x1b[0my\n\x1b[35m 2. \x1b[0mb\n"
    );
}
