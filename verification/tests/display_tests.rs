use rusty_bvg::config::Config;
use rusty_bvg::departure::Departure;
use rusty_bvg::display::{layout_departure, smart_wrap, split_words, DisplayConfig, PlacedText};
use rusty_bvg::text::{
    byte_len_of, chars_of, contains, matches_at, push_decimal, same_text, starts_with, string_of,
    take_chars,
};

fn chars(s: &str) -> Vec<char> {
    s.chars().collect()
}

fn placed(text: &str, x: i32, y: i32) -> PlacedText {
    PlacedText { text: text.to_string(), x, y }
}

#[test]
fn format_joins_line_destination_and_minutes() {
    assert_eq!(Departure::new("S3", "Erkner", 2).format(), "S3 Erkner 2 min");
    assert_eq!(Departure::new("M10", "Hauptbahnhof", 0).format(), "M10 Hauptbahnhof 0 min");
    assert_eq!(Departure::new("", "", 10).format(), "  10 min");
    assert_eq!(Departure::new("S9", "BER", u32::MAX).format(), "S9 BER 4294967295 min");
    assert_eq!(Departure::new("U5", "H\u{f6}now", 107).format(), "U5 H\u{f6}now 107 min");
}

#[test]
fn format_truncated_keeps_what_fits() {
    let dep = Departure::new("S5", "Strausberg Nord", 8);
    assert_eq!(dep.format_truncated(24), "S5 Strausberg Nord 8 min");
    assert_eq!(dep.format_truncated(100), "S5 Strausberg Nord 8 min");
    assert_eq!(dep.format_truncated(usize::MAX), "S5 Strausberg Nord 8 min");
}

#[test]
fn format_truncated_shortens_the_destination_only() {
    let dep = Departure::new("S5", "Strausberg Nord", 8);
    assert_eq!(dep.format_truncated(23), "S5 Strausberg Nor 8 min");
    assert_eq!(dep.format_truncated(15), "S5 Straus 8 min");
    assert_eq!(dep.format_truncated(10), "S5 S 8 min");
    let dep = Departure::new("M10", "Warschauer Str.", 12);
    assert_eq!(dep.format_truncated(16), "M10 Warsc 12 min");
}

#[test]
fn format_truncated_cuts_the_whole_text_where_nothing_else_helps() {
    let dep = Departure::new("S5", "Strausberg Nord", 8);
    assert_eq!(dep.format_truncated(9), "S5 Straus");
    assert_eq!(dep.format_truncated(5), "S5 St");
    assert_eq!(dep.format_truncated(1), "S");
    assert_eq!(dep.format_truncated(0), "");
}

#[test]
fn format_truncated_measures_in_bytes_and_cuts_in_characters() {
    let dep = Departure::new("S9", "Sch\u{f6}neweide", 3);
    assert_eq!(dep.format().len(), 21);
    assert_eq!(dep.format_truncated(21), "S9 Sch\u{f6}neweide 3 min");
    assert_eq!(dep.format_truncated(20), "S9 Sch\u{f6}neweide 3 min");
    assert_eq!(dep.format_truncated(19), "S9 Sch\u{f6}neweid 3 min");
    assert_eq!(dep.format_truncated(13), "S9 Sch\u{f6} 3 min");
    assert_eq!(dep.format_truncated(9), "S9 Sch\u{f6}ne");
}

#[test]
fn words_are_the_runs_between_whitespace() {
    assert_eq!(split_words("U3 Krumme Lanke"), vec!["U3", "Krumme", "Lanke"]);
    assert_eq!(split_words("  two   spaces \t tab\nline  "), vec!["two", "spaces", "tab", "line"]);
    assert_eq!(split_words("one"), vec!["one"]);
    assert_eq!(split_words(""), Vec::<String>::new());
    assert_eq!(split_words(" \t\r\n"), Vec::<String>::new());
    assert_eq!(split_words("a\u{a0}b\u{2003}c"), vec!["a", "b", "c"]);
    assert_eq!(split_words("S+U-Bhf."), vec!["S+U-Bhf."]);
}

#[test]
fn words_agree_with_split_whitespace() {
    let texts =
        ["", " ", "a", " a", "a ", "a b", "a  b", "\ta\nb\r\nc ", "x\u{3000}y", "\u{feff}z q"];
    for text in texts {
        let expected: Vec<String> = text.split_whitespace().map(|w| w.to_string()).collect();
        assert_eq!(split_words(text), expected, "{:?}", text);
    }
}

#[test]
fn wrap_of_a_text_that_fits_on_one_line() {
    let lines = smart_wrap("U3 Krumme Lanke", 16, 2);
    assert_eq!(lines.len(), 2);
    assert!(lines[0].len() <= 16);
    assert!(lines[1].len() <= 16);
    assert_eq!(lines, vec!["U3 Krumme Lanke", ""]);
}

#[test]
fn wrap_breaks_between_words() {
    assert_eq!(smart_wrap("S5 Strausberg Nord", 16, 2), vec!["S5 Strausberg", "Nord"]);
    assert_eq!(smart_wrap("aaaa bbbb cccc dddd", 9, 3), vec!["aaaa bbbb", "cccc dddd", ""]);
    assert_eq!(smart_wrap("aaaa bbbb cccc dddd", 8, 4), vec!["aaaa", "bbbb", "cccc", "dddd"]);
    assert_eq!(smart_wrap("a b c", 1, 3), vec!["a", "b", "c"]);
    assert_eq!(smart_wrap("  a   b  ", 3, 1), vec!["a b"]);
}

#[test]
fn wrap_leaves_out_what_finds_no_room() {
    assert_eq!(
        smart_wrap("S5 Strausberg Nord via Lichtenberg", 16, 2),
        vec!["S5 Strausberg", "Nord via"]
    );
    assert_eq!(smart_wrap("one two three", 3, 1), vec!["one"]);
    assert_eq!(smart_wrap("one two three", 5, 2), vec!["one", "two"]);
}

#[test]
fn wrap_cuts_a_word_that_is_too_wide() {
    assert_eq!(
        smart_wrap("Donaudampfschifffahrt", 16, 2),
        vec!["Donaudampfschiff", ""]
    );
    assert_eq!(
        smart_wrap("S1 Donaudampfschifffahrt Nord", 16, 3),
        vec!["S1", "Donaudampfschiff", "Nord"]
    );
    assert_eq!(smart_wrap("abcdef gh", 3, 2), vec!["abc", "gh"]);
}

#[test]
fn wrap_measures_in_bytes_and_cuts_in_characters() {
    assert_eq!(smart_wrap("K\u{f6}ln ab", 7, 2), vec!["K\u{f6}ln", "ab"]);
    assert_eq!(smart_wrap("K\u{f6}ln ab", 8, 2), vec!["K\u{f6}ln ab", ""]);
    assert_eq!(smart_wrap("\u{e4}\u{f6}\u{fc}", 3, 1), vec!["\u{e4}\u{f6}\u{fc}"]);
    assert_eq!(smart_wrap("\u{e4}\u{f6}\u{fc}\u{df}", 3, 1), vec!["\u{e4}\u{f6}\u{fc}"]);
    assert_eq!(smart_wrap("\u{e4}\u{f6}", 5, 1), vec!["\u{e4}\u{f6}"]);
}

#[test]
fn wrap_always_returns_the_lines_asked_for() {
    assert_eq!(smart_wrap("", 16, 2), vec!["", ""]);
    assert_eq!(smart_wrap("a", 16, 0), Vec::<String>::new());
    assert_eq!(smart_wrap("a b", 1, 0), Vec::<String>::new());
    assert_eq!(smart_wrap("a b c", 0, 2), vec!["", ""]);
    assert_eq!(smart_wrap("a", 1, 5), vec!["a", "", "", "", ""]);
    for width in 0..12 {
        for count in 0..5 {
            let lines = smart_wrap("Das ist ein Text mit W\u{f6}rtern", width, count);
            assert_eq!(lines.len(), count);
            for line in &lines {
                assert!(line.chars().count() <= width);
            }
        }
    }
}

#[test]
fn wrapped_lines_are_tidy_and_the_empty_ones_come_last() {
    let texts = [
        "U3 Krumme Lanke",
        "  S5   Strausberg \t Nord\n",
        "Donaudampfschifffahrt ab Wien",
        "a b c d e f g h",
        " ",
        "",
    ];
    for text in texts {
        for width in 0..20 {
            for count in 0..4 {
                let lines = smart_wrap(text, width, count);
                let filled = lines.iter().take_while(|line| !line.is_empty()).count();
                assert!(lines[filled..].iter().all(|line| line.is_empty()));
                for line in &lines {
                    assert!(!line.starts_with(char::is_whitespace), "{:?}", line);
                    assert!(!line.ends_with(char::is_whitespace), "{:?}", line);
                    assert!(!line.contains("  "), "{:?}", line);
                    assert!(line.chars().all(|c| c == ' ' || !c.is_whitespace()), "{:?}", line);
                }
            }
        }
    }
}

#[test]
fn layout_puts_the_minutes_below_the_heading() {
    assert_eq!(
        layout_departure(&Departure::new("U3", "Krumme Lanke", 5)),
        vec![placed("U3 Krumme Lanke", 2, 5), placed("5 min", 2, 14)]
    );
    assert_eq!(
        layout_departure(&Departure::new("S5", "Strausberg Nord Bahnhof", 8)),
        vec![placed("S5 Strausberg", 2, 5), placed("Nord Bahnhof", 2, 14), placed("8 min", 2, 23)]
    );
    assert_eq!(
        layout_departure(&Departure::new("S7", "Potsdam Hauptbahnhof u\u{308}ber Wannsee", 12)),
        vec![placed("S7 Potsdam", 2, 5), placed("Hauptbahnhof", 2, 14), placed("12 min", 2, 23)]
    );
}

#[test]
fn layout_without_heading_puts_the_minutes_on_the_second_row() {
    assert_eq!(layout_departure(&Departure::new("", "", 1)), vec![placed("1 min", 2, 14)]);
    assert_eq!(layout_departure(&Departure::new(" ", "\t", 0)), vec![placed("0 min", 2, 14)]);
}

#[test]
fn display_defaults_to_the_small_panel() {
    let config = DisplayConfig::default();
    assert_eq!(config.width, 64);
    assert_eq!(config.height, 32);
    assert_eq!(config.hardware_mapping, "regular");
}

#[test]
fn settings_default_to_the_home_station() {
    let config = Config::default();
    assert_eq!(config.stop_id, "900120003");
    assert_eq!(config.home_station, "Warschauer");
    assert_eq!(config.horizon_minutes, 15);
    assert_eq!(config.top_k, 3);
    assert_eq!(config.refresh_period_ms, 20_000);
    assert_eq!(config.rotate_period_ms, 10_000);
    assert_eq!(config.request_timeout_ms, 10_000);
    assert_eq!(config.tick_ms, 500);
    assert_eq!(config.display, DisplayConfig::default());
}

#[test]
fn text_goes_to_characters_and_back() {
    assert_eq!(chars_of("S\u{fc}d \u{27F2}"), vec!['S', '\u{fc}', 'd', ' ', '\u{27F2}']);
    assert_eq!(chars_of(""), Vec::<char>::new());
    let v = chars("Ostkreuz");
    assert_eq!(string_of(&v, 0, 8), "Ostkreuz");
    assert_eq!(string_of(&v, 3, 8), "kreuz");
    assert_eq!(string_of(&v, 3, 3), "");
}

#[test]
fn lengths_are_counted_in_bytes() {
    assert_eq!(byte_len_of(""), 0);
    assert_eq!(byte_len_of("Erkner"), 6);
    assert_eq!(byte_len_of("Wei\u{df}ensee"), 10);
    assert_eq!(byte_len_of("\u{27F2}"), 3);
    assert_eq!(byte_len_of("\u{1F68B}"), 4);
}

#[test]
fn take_chars_takes_whole_characters() {
    assert_eq!(take_chars("Sch\u{f6}neweide", 4), "Sch\u{f6}");
    assert_eq!(take_chars("Sch\u{f6}neweide", 0), "");
    assert_eq!(take_chars("Sch\u{f6}neweide", 11), "Sch\u{f6}neweide");
    assert_eq!(take_chars("Sch\u{f6}neweide", usize::MAX), "Sch\u{f6}neweide");
}

#[test]
fn patterns_are_found_where_they_stand() {
    let text = chars("S+U Warschauer Str.");
    assert!(matches_at(&text, &chars("Warschauer"), 4));
    assert!(!matches_at(&text, &chars("Warschauer"), 3));
    assert!(!matches_at(&text, &chars("Str."), 16));
    assert!(matches_at(&text, &chars(""), 19));
    assert!(!matches_at(&text, &chars(""), 20));
    assert!(starts_with(&text, &chars("S+U")));
    assert!(starts_with(&text, &chars("")));
    assert!(!starts_with(&text, &chars("U")));
    assert!(contains(&text, &chars("Warschauer")));
    assert!(contains(&text, &chars("")));
    assert!(contains(&text, &chars(".")));
    assert!(contains(&text, &text));
    assert!(!contains(&text, &chars("Warschauer Str. ")));
    assert!(!contains(&chars(""), &chars("a")));
    assert!(contains(&chars(""), &chars("")));
    assert!(same_text(&chars("S41"), &chars("S41")));
    assert!(!same_text(&chars("S41"), &chars("S42")));
    assert!(!same_text(&chars("S41"), &chars("S4")));
}

#[test]
fn numbers_are_written_in_decimal() {
    for (n, expected) in
        [(0u32, "0"), (7, "7"), (10, "10"), (99, "99"), (100, "100"), (4_294_967_295, "4294967295")]
    {
        let mut s = String::from("n=");
        push_decimal(&mut s, n);
        assert_eq!(s, format!("n={}", expected));
    }
    for n in (0..100_000u32).step_by(7919) {
        let mut s = String::new();
        push_decimal(&mut s, n);
        assert_eq!(s, n.to_string());
    }
}
