use subtitle_wrap::format_newline;
use subtitle_wrap::types::{Attributes, Delta};

fn strings(items: &[&str]) -> Vec<String> {
    items.iter().map(|s| s.to_string()).collect()
}

fn ten_per_char(text: &str) -> i64 {
    10 * text.chars().count() as i64
}

fn plain(text: &str) -> Delta {
    Delta { insert: text.to_string(), attributes: None }
}

#[test]
fn tokens_become_lines_runs_and_a_subtitle_file() {
    let tokens = strings(&["Hello", " world", "", "Foo", "。", ""]);
    let response = format_newline(&ten_per_char, tokens, 100_000);
    assert_eq!(response.lines, strings(&["Hello world", "Foo。"]));
    assert_eq!(response.input, vec![plain("Hello world\n"), plain("Foo。\n")]);
    assert!(response.errors.is_empty());
    assert_eq!(
        response.subtitle,
        "1\n01:00:00,000 --> 01:05:05,000\n<b>Hello world</b>\n<b>Foo。</b>\n\n"
    );
}

#[test]
fn no_tokens_give_an_empty_response() {
    let response = format_newline(&ten_per_char, Vec::new(), 100);
    assert!(response.lines.is_empty());
    assert!(response.input.is_empty());
    assert!(response.errors.is_empty());
    assert_eq!(response.subtitle, "");
}

#[test]
fn paragraphs_and_long_tokens_in_one_text() {
    let tokens = strings(&[
        "Good", " morning", "。", "", "", "Supercalifragilistic", " is", " long", "", "☆", "",
        "Bye", "-", "bye",
    ]);
    let response = format_newline(&ten_per_char, tokens, 120);
    assert_eq!(
        response.lines,
        strings(&[
            "Good morning",
            "。",
            "",
            "Supercalifragilistic",
            " is long",
            "☆",
            "Bye-",
            "bye",
        ])
    );
    let caution = Some(Attributes {
        warning: None,
        caution: Some("too long sentence, cannot be splitted".to_string()),
    });
    assert_eq!(
        response.input,
        vec![
            plain("Good morning\n"),
            plain("。\n"),
            plain("\n"),
            Delta { insert: "Supercalifragilistic\n".to_string(), attributes: caution },
            plain("is long\n"),
            plain("\n"),
            plain("☆\n"),
            plain("Bye-\n"),
            plain("bye\n"),
        ]
    );
    assert_eq!(response.errors, strings(&["Sentences continue for more than three lines."]));
    // "Good morning" alone: 12 bytes, 3 seconds; the long word with "is long":
    // 27 bytes, 7 seconds; the star with "Bye-": 7 bytes, 2 seconds; "bye" alone
    let expected = "1\n01:00:00,000 --> 01:03:03,000\n<b>Good morning</b>\n\n\
                    2\n01:03:03,000 --> 01:10:10,000\n<b>Supercalifragilistic</b>\n<b>is long</b>\n\n\
                    3\n01:10:10,000 --> 01:12:12,000\n<b>☆</b>\n<b>Bye-</b>\n\n\
                    4\n01:12:12,000 --> 01:14:14,000\n<b>bye</b>\n\n";
    assert_eq!(response.subtitle, expected);
}

#[test]
fn doing_the_work_again_gives_the_same_response() {
    let tokens = strings(&["One", " two", "", "", " three", "。", "four", "-", "five", " six", ""]);
    let first = format_newline(&ten_per_char, tokens.clone(), 80);
    let second = format_newline(&ten_per_char, tokens, 80);
    assert_eq!(first, second);
    assert_eq!(first.subtitle.as_bytes(), second.subtitle.as_bytes());
}
