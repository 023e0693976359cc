use subtitle_wrap::text::{byte_length, digit, push_decimal};
use subtitle_wrap::timecode::{calc_subtitle_time, generate_subtitle, push_time_code, two_places};
use subtitle_wrap::types::Srt;

fn cue(duration: u64, text: &str) -> Srt {
    Srt { duration, text: text.to_string() }
}

fn fields(seconds: u128) -> (String, String, String) {
    let t = calc_subtitle_time(seconds);
    (t.hour, t.minute, t.second)
}

fn triple(h: &str, m: &str, s: &str) -> (String, String, String) {
    (h.to_string(), m.to_string(), s.to_string())
}

#[test]
fn time_zero_is_hour_one() {
    assert_eq!(fields(0), triple("01", "00", "00"));
}

#[test]
fn time_fields_below_a_minute() {
    assert_eq!(fields(5), triple("01", "05", "05"));
    assert_eq!(fields(59), triple("01", "59", "59"));
}

#[test]
fn minute_field_counts_seconds_not_minutes() {
    assert_eq!(fields(60), triple("01", "60", "00"));
    assert_eq!(fields(75), triple("01", "75", "15"));
    assert_eq!(fields(99), triple("01", "99", "39"));
}

#[test]
fn minute_field_keeps_its_last_two_digits() {
    assert_eq!(fields(100), triple("01", "00", "40"));
    assert_eq!(fields(1234), triple("01", "34", "34"));
}

#[test]
fn minute_field_loses_the_whole_hours() {
    assert_eq!(fields(3599), triple("01", "99", "59"));
    assert_eq!(fields(3600), triple("02", "99", "00"));
    assert_eq!(fields(3661), triple("02", "60", "01"));
    assert_eq!(fields(7200), triple("03", "98", "00"));
}

#[test]
fn hour_field_keeps_its_last_two_digits() {
    assert_eq!(fields(98 * 3600), triple("99", "02", "00"));
    assert_eq!(fields(99 * 3600), triple("00", "01", "00"));
    assert_eq!(fields(100 * 3600), triple("01", "00", "00"));
}

#[test]
fn time_fields_of_the_largest_time() {
    // 340282366920938463463374607431768211455 / 3600 = 94522879700260684295381835397713392 rest 255
    assert_eq!(fields(u128::MAX), triple("93", "63", "15"));
}

#[test]
fn two_places_pads_and_cuts() {
    assert_eq!(two_places(0), "00");
    assert_eq!(two_places(7), "07");
    assert_eq!(two_places(10), "10");
    assert_eq!(two_places(99), "99");
    assert_eq!(two_places(100), "00");
    assert_eq!(two_places(12345), "45");
}

#[test]
fn two_places_is_the_end_of_the_padded_numeral() {
    for v in 0u128..2000 {
        let padded = format!("00{}", v);
        assert_eq!(two_places(v), padded[padded.len() - 2..]);
    }
}

#[test]
fn push_time_code_appends() {
    let mut out = String::from("x");
    push_time_code(&mut out, 5);
    assert_eq!(out, "x01:05:05,000");
}

#[test]
fn push_decimal_writes_the_numeral() {
    for n in [0usize, 1, 9, 10, 11, 99, 100, 101, 12345, 1_000_000, usize::MAX] {
        let mut out = String::from("n=");
        push_decimal(&mut out, n);
        assert_eq!(out, format!("n={}", n));
    }
}

#[test]
fn digit_gives_the_ten_digits() {
    let all: String = (0u8..10).map(digit).collect();
    assert_eq!(all, "0123456789");
}

#[test]
fn byte_length_counts_bytes() {
    assert_eq!(byte_length(""), 0);
    assert_eq!(byte_length("abc"), 3);
    assert_eq!(byte_length("☆"), 3);
    assert_eq!(byte_length("aé。😀"), 1 + 2 + 3 + 4);
}

#[test]
fn no_cues_give_an_empty_file() {
    assert_eq!(generate_subtitle(Vec::new()), "");
}

#[test]
fn one_cue_gives_one_block() {
    let out = generate_subtitle(vec![cue(5, "<b>Hello world</b>\n<b>Foo。</b>")]);
    assert_eq!(out, "1\n01:00:00,000 --> 01:05:05,000\n<b>Hello world</b>\n<b>Foo。</b>\n\n");
}

#[test]
fn cues_follow_one_another_without_a_gap() {
    let out = generate_subtitle(vec![cue(2, "a"), cue(3, "b"), cue(15, "c")]);
    let expected = "1\n01:00:00,000 --> 01:02:02,000\na\n\n\
                    2\n01:02:02,000 --> 01:05:05,000\nb\n\n\
                    3\n01:05:05,000 --> 01:20:20,000\nc\n\n";
    assert_eq!(out, expected);
}

#[test]
fn each_block_starts_where_the_block_before_ended() {
    let durations = [2u64, 15, 7, 0, 3, 40, 61, 3600, 1];
    let cues: Vec<Srt> = durations.iter().map(|d| cue(*d, "t")).collect();
    let out = generate_subtitle(cues);
    let blocks: Vec<&str> = out.split("\n\n").filter(|b| !b.is_empty()).collect();
    assert_eq!(blocks.len(), durations.len());
    let mut last_end = String::from("01:00:00,000");
    for (i, block) in blocks.iter().enumerate() {
        let rows: Vec<&str> = block.split('\n').collect();
        assert_eq!(rows[0], (i + 1).to_string());
        let times: Vec<&str> = rows[1].split(" --> ").collect();
        assert_eq!(times[0], last_end);
        last_end = times[1].to_string();
    }
    // 2 + 15 + 7 + 0 + 3 + 40 + 61 + 3600 + 1 = 3729
    assert_eq!(last_end, "02:28:09,000");
}

#[test]
fn a_cue_of_no_seconds_ends_when_it_starts() {
    let out = generate_subtitle(vec![cue(0, "a")]);
    assert_eq!(out, "1\n01:00:00,000 --> 01:00:00,000\na\n\n");
}

#[test]
fn block_numbers_go_beyond_nine() {
    let cues: Vec<Srt> = (0..12).map(|_| cue(1, "x")).collect();
    let out = generate_subtitle(cues);
    assert!(out.contains("\n\n10\n01:09:09,000 --> 01:10:10,000\nx\n\n"));
    assert!(out.ends_with("12\n01:11:11,000 --> 01:12:12,000\nx\n\n"));
}

#[test]
fn the_longest_durations_add_up() {
    let out = generate_subtitle(vec![cue(u64::MAX, "a"), cue(u64::MAX, "b")]);
    // 18446744073709551615: hours 5124095576030431, rest 15
    // 36893488147419103230: hours 10248191152060862, rest 30
    let expected = "1\n01:00:00,000 --> 32:84:15,000\na\n\n\
                    2\n32:84:15,000 --> 63:68:30,000\nb\n\n";
    assert_eq!(out, expected);
}

#[test]
fn cue_text_is_written_as_it_is() {
    let out = generate_subtitle(vec![cue(2, ""), cue(2, "two\nrows")]);
    let expected = "1\n01:00:00,000 --> 01:02:02,000\n\n\n\
                    2\n01:02:02,000 --> 01:04:04,000\ntwo\nrows\n\n";
    assert_eq!(out, expected);
}
