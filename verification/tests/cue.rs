use std::cell::RefCell;

use subtitle_wrap::cue::{
    calc_srt, insert_category, line_to_sequence, pause, placeholder, reading_time, Sequencer,
};
use subtitle_wrap::types::{Attributes, Delta, Srt};

const CAUTION: &str = "too long sentence, cannot be splitted";
const CATEGORY: &str = "Sentences continue for more than three lines.";

fn strings(items: &[&str]) -> Vec<String> {
    items.iter().map(|s| s.to_string()).collect()
}

fn ten_per_char(text: &str) -> i64 {
    10 * text.chars().count() as i64
}

fn plain(text: &str) -> Delta {
    Delta { insert: text.to_string(), attributes: None }
}

fn cautioned(text: &str) -> Delta {
    Delta {
        insert: text.to_string(),
        attributes: Some(Attributes { warning: None, caution: Some(CAUTION.to_string()) }),
    }
}

fn cue(duration: u64, text: &str) -> Srt {
    Srt { duration, text: text.to_string() }
}

fn single_duration(text: &str) -> u64 {
    calc_srt(text.to_string(), None).duration
}

#[test]
fn the_placeholder_is_shown_two_seconds() {
    let srt = calc_srt("☆".to_string(), None);
    assert_eq!(srt.duration, 2);
    assert_eq!(srt.text, "<b>☆</b>");
}

#[test]
fn a_single_line_is_shown_at_least_two_seconds() {
    assert_eq!(single_duration(""), 2);
    assert_eq!(single_duration("a"), 2);
    assert_eq!(single_duration("abcdefgh"), 2);
}

#[test]
fn a_single_line_is_shown_a_second_for_four_bytes_rounded_up() {
    assert_eq!(single_duration("abcdefghi"), 3);
    assert_eq!(single_duration("abcdefghijkl"), 3);
    assert_eq!(single_duration("abcdefghijklm"), 4);
    assert_eq!(single_duration(&"x".repeat(30)), 8);
    assert_eq!(single_duration(&"x".repeat(56)), 14);
    assert_eq!(single_duration(&"x".repeat(57)), 15);
    assert_eq!(single_duration(&"x".repeat(60)), 15);
}

#[test]
fn a_single_line_is_shown_at_most_fifteen_seconds() {
    assert_eq!(single_duration(&"x".repeat(61)), 15);
    assert_eq!(single_duration(&"x".repeat(124)), 15);
    assert_eq!(single_duration(&"x".repeat(10_000)), 15);
}

#[test]
fn every_single_line_is_shown_between_two_and_fifteen_seconds() {
    for n in 0..200 {
        let d = single_duration(&"y".repeat(n));
        assert!(2 <= d && d <= 15, "{} bytes give {}", n, d);
        let d = single_duration(&"。".repeat(n));
        assert!(2 <= d && d <= 15, "{} marks give {}", n, d);
    }
}

#[test]
fn length_is_counted_in_bytes() {
    // three characters of three bytes each
    assert_eq!(single_duration("あいう"), 3);
    // the star twice is no placeholder: six bytes
    assert_eq!(single_duration("☆☆"), 2);
    assert_eq!(single_duration("☆☆☆☆"), 3);
}

#[test]
fn a_black_star_is_no_placeholder() {
    assert!(placeholder("☆"));
    assert!(!placeholder("★"));
    assert!(!placeholder(""));
    assert!(!placeholder("☆ "));
    assert!(!placeholder("☆☆"));
}

#[test]
fn a_single_cue_is_bold() {
    let srt = calc_srt("Hello".to_string(), None);
    assert_eq!(srt, cue(2, "<b>Hello</b>"));
}

#[test]
fn a_pair_is_shown_for_the_bytes_of_both_lines() {
    // 11 bytes and 6 bytes: 17 / 30 * 7.5 = 4.25
    let srt = calc_srt("Hello world".to_string(), Some("Foo。"));
    assert_eq!(srt, cue(5, "<b>Hello world</b>\n<b>Foo。</b>"));
}

#[test]
fn a_pair_is_not_kept_between_two_and_fifteen_seconds() {
    assert_eq!(calc_srt("a".to_string(), Some("b")).duration, 1);
    assert_eq!(calc_srt(String::new(), Some("")).duration, 0);
    assert_eq!(calc_srt("x".repeat(100), Some(&"y".repeat(100))).duration, 50);
    assert_eq!(calc_srt("x".repeat(62), Some(&"y".repeat(62))).duration, 31);
    assert_eq!(calc_srt("x".repeat(62), Some(&"y".repeat(63))).duration, 32);
}

#[test]
fn a_pair_with_the_placeholder_is_timed_like_any_pair() {
    let srt = calc_srt("☆".to_string(), Some("☆"));
    assert_eq!(srt, cue(2, "<b>☆</b>\n<b>☆</b>"));
    let srt = calc_srt("☆".to_string(), Some("abcdefghij"));
    assert_eq!(srt.duration, 4);
}

#[test]
fn reading_time_rounds_up() {
    assert_eq!(reading_time(0, 0), 0);
    assert_eq!(reading_time(1, 0), 1);
    assert_eq!(reading_time(0, 4), 1);
    assert_eq!(reading_time(2, 3), 2);
    assert_eq!(reading_time(30, 0), 8);
    assert_eq!(reading_time(60, 60), 30);
    assert_eq!(reading_time(60, 61), 31);
    assert_eq!(reading_time(62, 62), 31);
    // 2 * 18446744073709551615 bytes
    assert_eq!(reading_time(u64::MAX as usize, u64::MAX as usize), 9223372036854775808);
}

#[test]
fn pause_is_an_empty_line_or_a_full_stop_alone() {
    assert!(pause(""));
    assert!(pause("。"));
    assert!(!pause("。。"));
    assert!(!pause("a。"));
    assert!(!pause("."));
    assert!(!pause(" "));
    assert!(!pause("☆"));
}

#[test]
fn two_lines_make_one_cue() {
    let lines = strings(&["Hello world", "Foo。"]);
    let (cues, runs, errors) = line_to_sequence(&ten_per_char, &lines, 100_000);
    assert_eq!(cues, vec![cue(5, "<b>Hello world</b>\n<b>Foo。</b>")]);
    assert_eq!(runs, vec![plain("Hello world\n"), plain("Foo。\n")]);
    assert!(errors.is_empty());
}

#[test]
fn no_lines_make_nothing() {
    let (cues, runs, errors) = line_to_sequence(&ten_per_char, &Vec::new(), 100);
    assert!(cues.is_empty());
    assert!(runs.is_empty());
    assert!(errors.is_empty());
}

#[test]
fn a_line_left_over_makes_a_cue_of_its_own() {
    let lines = strings(&["first line", "second line", "third"]);
    let (cues, runs, errors) = line_to_sequence(&ten_per_char, &lines, 100_000);
    // 10 + 11 = 21 bytes: 5.25 seconds
    assert_eq!(cues, vec![cue(6, "<b>first line</b>\n<b>second line</b>"), cue(2, "<b>third</b>")]);
    assert_eq!(
        runs,
        vec![plain("first line\n"), plain("second line\n"), plain("\n"), plain("third\n")]
    );
    assert!(errors.is_empty());
}

#[test]
fn the_run_stream_is_broken_before_every_third_line() {
    let lines = strings(&["a", "b", "c", "d", "e", "f", "g"]);
    let (cues, runs, _) = line_to_sequence(&ten_per_char, &lines, 100_000);
    let texts: Vec<&str> = runs.iter().map(|r| r.insert.as_str()).collect();
    assert_eq!(texts, vec!["a\n", "b\n", "\n", "c\n", "d\n", "e\n", "\n", "f\n", "g\n"]);
    assert!(runs.iter().all(|r| r.attributes.is_none()));
    let shown: Vec<&str> = cues.iter().map(|c| c.text.as_str()).collect();
    assert_eq!(
        shown,
        vec!["<b>a</b>\n<b>b</b>", "<b>c</b>\n<b>d</b>", "<b>e</b>\n<b>f</b>", "<b>g</b>"]
    );
}

#[test]
fn a_pause_lets_the_waiting_line_go_alone() {
    let lines = strings(&["a", "", "b", "c"]);
    let (cues, runs, _) = line_to_sequence(&ten_per_char, &lines, 100_000);
    assert_eq!(cues, vec![cue(2, "<b>a</b>"), cue(1, "<b>b</b>\n<b>c</b>")]);
    assert_eq!(runs, vec![plain("a\n"), plain("\n"), plain("b\n"), plain("c\n")]);
}

#[test]
fn a_full_stop_alone_is_a_pause() {
    let lines = strings(&["a", "。", "b", "c", "。", "d"]);
    let (cues, runs, _) = line_to_sequence(&ten_per_char, &lines, 100_000);
    let shown: Vec<&str> = cues.iter().map(|c| c.text.as_str()).collect();
    assert_eq!(shown, vec!["<b>a</b>", "<b>b</b>\n<b>c</b>", "<b>d</b>"]);
    let texts: Vec<&str> = runs.iter().map(|r| r.insert.as_str()).collect();
    assert_eq!(texts, vec!["a\n", "。\n", "b\n", "c\n", "。\n", "d\n"]);
}

#[test]
fn a_pause_starts_the_count_of_lines_again() {
    let lines = strings(&["a", "b", "", "c", "d", "e"]);
    let (_, runs, _) = line_to_sequence(&ten_per_char, &lines, 100_000);
    let texts: Vec<&str> = runs.iter().map(|r| r.insert.as_str()).collect();
    assert_eq!(texts, vec!["a\n", "b\n", "\n", "c\n", "d\n", "\n", "e\n"]);
}

#[test]
fn a_pause_with_nothing_waiting_makes_no_cue() {
    let lines = strings(&["", "。", "", "a", "b", ""]);
    let (cues, runs, _) = line_to_sequence(&ten_per_char, &lines, 100_000);
    assert_eq!(cues, vec![cue(1, "<b>a</b>\n<b>b</b>")]);
    assert_eq!(runs.len(), 6);
}

#[test]
fn a_line_too_wide_is_cautioned_and_reported_once() {
    let lines = strings(&["short", "a very long line", "another long line", "tiny"]);
    let (cues, runs, errors) = line_to_sequence(&ten_per_char, &lines, 100);
    assert_eq!(
        runs,
        vec![
            plain("short\n"),
            cautioned("a very long line\n"),
            plain("\n"),
            cautioned("another long line\n"),
            plain("tiny\n"),
        ]
    );
    assert_eq!(errors, strings(&[CATEGORY]));
    assert_eq!(cues.len(), 2);
}

#[test]
fn a_line_exactly_at_the_width_is_not_cautioned() {
    let lines = strings(&["abcde"]);
    let (_, runs, errors) = line_to_sequence(&ten_per_char, &lines, 50);
    assert_eq!(runs, vec![plain("abcde\n")]);
    assert!(errors.is_empty());
    let (_, runs, errors) = line_to_sequence(&ten_per_char, &lines, 49);
    assert_eq!(runs, vec![cautioned("abcde\n")]);
    assert_eq!(errors, strings(&[CATEGORY]));
}

#[test]
fn a_pause_can_be_too_wide() {
    let (cues, runs, errors) = line_to_sequence(&ten_per_char, &strings(&["", "。"]), -1);
    assert!(cues.is_empty());
    assert_eq!(runs, vec![cautioned("\n"), cautioned("。\n")]);
    assert_eq!(errors, strings(&[CATEGORY]));
}

#[test]
fn lines_are_trimmed_before_anything_else() {
    let asked: RefCell<Vec<String>> = RefCell::new(Vec::new());
    let measure = |text: &str| -> i64 {
        asked.borrow_mut().push(text.to_string());
        10 * text.chars().count() as i64
    };
    let lines = strings(&["  abc \t", "\u{3000}de\u{a0}\n", " \r\n ", " 。 ", "f g"]);
    let (cues, runs, errors) = line_to_sequence(&measure, &lines, 30);
    assert_eq!(*asked.borrow(), strings(&["abc", "de", "", "。", "f g"]));
    assert_eq!(
        runs,
        vec![plain("abc\n"), plain("de\n"), plain("\n"), plain("。\n"), plain("f g\n")]
    );
    assert_eq!(cues, vec![cue(2, "<b>abc</b>\n<b>de</b>"), cue(2, "<b>f g</b>")]);
    assert!(errors.is_empty());
}

fn has_white_space_property(c: char) -> bool {
    matches!(
        c as u32,
        0x09..=0x0D
            | 0x20
            | 0x85
            | 0xA0
            | 0x1680
            | 0x2000..=0x200A
            | 0x2028
            | 0x2029
            | 0x202F
            | 0x205F
            | 0x3000
    )
}

#[test]
fn white_space_of_every_kind_is_trimmed_and_nothing_else() {
    let mut lines: Vec<String> = Vec::new();
    let mut expected: Vec<String> = Vec::new();
    for code in 0u32..=0x10FFFF {
        if let Some(c) = char::from_u32(code) {
            lines.clear();
            lines.push(format!("{}x{}", c, c));
            let (_, runs, _) = line_to_sequence(&ten_per_char, &lines, 100_000);
            expected.clear();
            if has_white_space_property(c) {
                expected.push("x\n".to_string());
            } else {
                expected.push(format!("{}x{}\n", c, c));
            }
            assert_eq!(runs.len(), 1);
            assert_eq!(runs[0].insert, expected[0], "U+{:04X}", code);
        }
    }
}

#[test]
fn white_space_inside_a_line_stays() {
    let lines = strings(&[" a  b\tc "]);
    let (_, runs, _) = line_to_sequence(&ten_per_char, &lines, 100_000);
    assert_eq!(runs, vec![plain("a  b\tc\n")]);
}

#[test]
fn sequencing_twice_gives_the_same() {
    let lines = strings(&["one", "two two two", "", "three", "。", "four", "five", "six"]);
    let first = line_to_sequence(&ten_per_char, &lines, 60);
    let second = line_to_sequence(&ten_per_char, &lines, 60);
    assert_eq!(first, second);
}

#[test]
fn insert_category_keeps_each_category_once() {
    let mut errors: Vec<String> = Vec::new();
    insert_category(&mut errors, "a");
    insert_category(&mut errors, "b");
    insert_category(&mut errors, "a");
    insert_category(&mut errors, "b");
    insert_category(&mut errors, "c");
    assert_eq!(errors, strings(&["a", "b", "c"]));
}

#[test]
fn sequencer_step_by_step() {
    let mut s = Sequencer::new();
    assert!(s.cues.is_empty() && s.runs.is_empty() && s.errors.is_empty());
    assert_eq!(s.pending, None);
    assert_eq!(s.count, 0);

    s.feed("a", 10, 50);
    assert_eq!(s.pending, Some("a".to_string()));
    assert_eq!(s.count, 1);
    assert_eq!(s.runs, vec![plain("a\n")]);

    s.feed("bbbbbb", 60, 50);
    assert_eq!(s.pending, None);
    assert_eq!(s.count, 2);
    assert_eq!(s.cues, vec![cue(2, "<b>a</b>\n<b>bbbbbb</b>")]);
    assert_eq!(s.runs, vec![plain("a\n"), cautioned("bbbbbb\n")]);
    assert_eq!(s.errors, strings(&[CATEGORY]));

    s.feed("c", 10, 50);
    assert_eq!(s.pending, Some("c".to_string()));
    assert_eq!(s.count, 0);
    assert_eq!(s.runs, vec![plain("a\n"), cautioned("bbbbbb\n"), plain("\n"), plain("c\n")]);

    s.feed("", 0, 50);
    assert_eq!(s.pending, None);
    assert_eq!(s.count, 0);
    assert_eq!(s.cues.len(), 2);
    assert_eq!(s.cues[1], cue(2, "<b>c</b>"));

    s.feed("☆", 10, 50);
    let (cues, runs, errors) = s.finish();
    assert_eq!(cues.len(), 3);
    assert_eq!(cues[2], cue(2, "<b>☆</b>"));
    assert_eq!(runs.len(), 6);
    assert_eq!(errors, strings(&[CATEGORY]));
}
