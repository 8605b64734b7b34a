use svar::lrc::{parse_lrc, parse_timestamp, LrcLine, LyricsData};

fn chars(s: &str) -> Vec<char> {
    s.chars().collect()
}

fn timed(d: &LyricsData) -> Vec<(i64, String)> {
    d.lines.iter().map(|l: &LrcLine| (l.time_us, l.text.clone())).collect()
}

#[test]
fn timestamp_minutes_seconds_fraction() {
    assert_eq!(parse_timestamp(&chars("01:02.5")), Some(62_500_000));
    assert_eq!(parse_timestamp(&chars("00:12.34")), Some(12_340_000));
    assert_eq!(parse_timestamp(&chars("1:2")), Some(62_000_000));
    assert_eq!(parse_timestamp(&chars("00:12.3456789")), Some(12_345_678));
    assert_eq!(parse_timestamp(&chars("10:00")), Some(600_000_000));
}

#[test]
fn timestamp_colon_fraction() {
    assert_eq!(parse_timestamp(&chars("01:02:50")), Some(62_500_000));
    assert_eq!(parse_timestamp(&chars("00:07:5")), Some(7_500_000));
    assert_eq!(parse_timestamp(&chars("00:02:50.5")), None);
    assert_eq!(parse_timestamp(&chars("03:07:25")), parse_timestamp(&chars("03:07.25")));
    assert_eq!(parse_timestamp(&chars("-2:+7:-25")), parse_timestamp(&chars("-2:+7.-25")));
}

#[test]
fn timestamp_signs_and_points() {
    assert_eq!(parse_timestamp(&chars("-1:00")), Some(-60_000_000));
    assert_eq!(parse_timestamp(&chars("+1:30")), Some(90_000_000));
    assert_eq!(parse_timestamp(&chars("1.5:00")), Some(90_000_000));
    assert_eq!(parse_timestamp(&chars("1.:05")), Some(65_000_000));
    assert_eq!(parse_timestamp(&chars(".5:00")), Some(30_000_000));
    assert_eq!(parse_timestamp(&chars("0:-1.5")), Some(-500_000));
    assert_eq!(parse_timestamp(&chars("00:02.-5")), Some(1_950_000));
    assert_eq!(parse_timestamp(&chars("00:02.5.5")), Some(2_005_500));
    assert_eq!(parse_timestamp(&chars("-0:00")), Some(0));
}

#[test]
fn timestamp_exponents() {
    assert_eq!(parse_timestamp(&chars("1e1:00")), Some(600_000_000));
    assert_eq!(parse_timestamp(&chars("1E1:00")), Some(600_000_000));
    assert_eq!(parse_timestamp(&chars("1e-1:00")), Some(6_000_000));
    assert_eq!(parse_timestamp(&chars("2.5E-3:00")), Some(150_000));
    assert_eq!(parse_timestamp(&chars("1.5e1:00")), Some(900_000_000));
    assert_eq!(parse_timestamp(&chars("0:1e1")), Some(10_000_000));
    assert_eq!(parse_timestamp(&chars("00:02.5e1")), Some(2_050_000));
    assert_eq!(parse_timestamp(&chars("00:1.5e1")), Some(1_050_000));
    assert_eq!(parse_timestamp(&chars("0e999999999999999999999999999999999999:00")), Some(0));
    assert_eq!(parse_timestamp(&chars("1e-99999999999999999999999999999999999:00")), Some(0));
}

#[test]
fn timestamp_infinities_and_large_values_hold_to_the_ends() {
    assert_eq!(parse_timestamp(&chars("inf:00")), Some(i64::MAX));
    assert_eq!(parse_timestamp(&chars("-Infinity:00")), Some(i64::MIN));
    assert_eq!(parse_timestamp(&chars("INF:-5")), Some(i64::MAX));
    assert_eq!(parse_timestamp(&chars("0:inf")), Some(i64::MAX));
    assert_eq!(parse_timestamp(&chars("0:1.inf")), Some(i64::MAX));
    assert_eq!(parse_timestamp(&chars("1e400:00")), Some(i64::MAX));
    assert_eq!(parse_timestamp(&chars("99999999999999999999:00")), Some(i64::MAX));
    assert_eq!(parse_timestamp(&chars("-99999999999999999999:00")), Some(i64::MIN));
}

#[test]
fn timestamp_not_a_number_is_no_time() {
    assert_eq!(parse_timestamp(&chars("NaN:00")), None);
    assert_eq!(parse_timestamp(&chars("+nan:00")), None);
    assert_eq!(parse_timestamp(&chars("inf:-inf")), None);
    assert_eq!(parse_timestamp(&chars("-inf:inf")), None);
}

#[test]
fn timestamp_rejects_malformed_numbers() {
    assert_eq!(parse_timestamp(&chars("1e:00")), None);
    assert_eq!(parse_timestamp(&chars("e1:00")), None);
    assert_eq!(parse_timestamp(&chars("1e+:00")), None);
    assert_eq!(parse_timestamp(&chars("1e1.5:00")), None);
    assert_eq!(parse_timestamp(&chars("infx:00")), None);
    assert_eq!(parse_timestamp(&chars("-:00")), None);
    assert_eq!(parse_timestamp(&chars("1 :00")), None);
}

#[test]
fn timestamp_rejects_other_tags() {
    assert_eq!(parse_timestamp(&chars("ar: Artist")), None);
    assert_eq!(parse_timestamp(&chars("12")), None);
    assert_eq!(parse_timestamp(&chars("00:.5")), None);
    assert_eq!(parse_timestamp(&chars("00:5.")), None);
    assert_eq!(parse_timestamp(&chars(":05")), None);
}

#[test]
fn parse_sorts_timed_lines_and_keeps_plain_lines() {
    let d = parse_lrc("[00:12.34]Hello\n[00:05.00]First\n\n[ar: Artist]\nplain");
    assert!(d.synced);
    assert_eq!(timed(&d), vec![(5_000_000, "First".to_string()), (12_340_000, "Hello".to_string())]);
    assert_eq!(d.plain_lines, vec!["".to_string(), "plain".to_string()]);
}

#[test]
fn parse_repeated_tags_give_one_line_each() {
    let d = parse_lrc("[00:03.00][00:01.00]Chorus");
    assert_eq!(
        timed(&d),
        vec![(1_000_000, "Chorus".to_string()), (3_000_000, "[00:01.00]Chorus".to_string())]
    );
    assert!(d.plain_lines.is_empty());
}

#[test]
fn parse_colon_fraction_tag() {
    let d = parse_lrc("[01:02:50]Hi");
    assert!(d.synced);
    assert_eq!(timed(&d), vec![(62_500_000, "Hi".to_string())]);
    assert!(d.plain_lines.is_empty());
}

#[test]
fn parse_exponent_tag() {
    let d = parse_lrc("[1e1:00]x");
    assert!(d.synced);
    assert_eq!(timed(&d), vec![(600_000_000, "x".to_string())]);
}

#[test]
fn parse_negative_time_comes_first() {
    let d = parse_lrc("[00:01]a\n[-1:00]before");
    assert_eq!(timed(&d), vec![(-60_000_000, "before".to_string()), (1_000_000, "a".to_string())]);
}

#[test]
fn parse_equal_times_keep_their_order() {
    let d = parse_lrc("[00:02]b\n[00:01]a\n[00:02]c");
    assert_eq!(
        timed(&d),
        vec![(1_000_000, "a".to_string()), (2_000_000, "b".to_string()), (2_000_000, "c".to_string())]
    );
}

#[test]
fn parse_trims_lines_and_text() {
    let d = parse_lrc("   [00:01.00]   Hi   \r\n");
    assert_eq!(timed(&d), vec![(1_000_000, "Hi".to_string())]);
}

#[test]
fn parse_unsynced_text() {
    let d = parse_lrc("Line one\r\nLine two\n");
    assert!(!d.synced);
    assert!(d.lines.is_empty());
    assert_eq!(d.plain_lines, vec!["Line one".to_string(), "Line two".to_string()]);
}

#[test]
fn parse_timed_line_without_text_and_tag_stops_at_non_time() {
    let d = parse_lrc("[00:04.00]\n[00:05.00][x]rest");
    assert_eq!(timed(&d), vec![(4_000_000, "".to_string()), (5_000_000, "[x]rest".to_string())]);
}

#[test]
fn parse_empty_input() {
    let d = parse_lrc("");
    assert!(!d.synced);
    assert!(d.lines.is_empty());
    assert!(d.plain_lines.is_empty());
    assert!(d.is_empty());
}

#[test]
fn synced_exactly_when_lines_exist() {
    let a = parse_lrc("[ti: Title]\nwords");
    assert_eq!(a.synced, !a.lines.is_empty());
    let b = parse_lrc("[00:00.10]words");
    assert_eq!(b.synced, !b.lines.is_empty());
    assert!(b.synced);
}

#[test]
fn placeholder_is_empty() {
    let e = LyricsData::empty();
    assert!(!e.synced);
    assert_eq!(e.plain_lines, vec!["No lyrics available".to_string()]);
    assert!(e.is_empty());
    let other = parse_lrc("No lyrics available, really");
    assert!(!other.is_empty());
}

#[test]
fn instrumental_check() {
    let d = parse_lrc("\u{266a} Instrumental Track \u{266a}");
    assert!(d.is_instrumental());
    assert!(!parse_lrc("words").is_instrumental());
}

#[test]
fn parsed_texts_are_trimmed_and_plain_lines_never_start_with_bracket() {
    let d = parse_lrc("  words  \n[00:01]   sung  \n\t[ar: Someone]\n[x\n[00:02] [00:03]  both ");
    for l in &d.lines {
        assert_eq!(l.text, l.text.trim());
    }
    for p in &d.plain_lines {
        assert_eq!(p.as_str(), p.trim());
        assert!(!p.starts_with('['));
    }
    assert_eq!(d.plain_lines, vec!["words".to_string()]);
    assert_eq!(
        timed(&d),
        vec![
            (1_000_000, "sung".to_string()),
            (2_000_000, "[00:03]  both".to_string()),
            (3_000_000, "both".to_string()),
        ]
    );
}

#[test]
fn reordering_lines_with_distinct_times_changes_nothing() {
    let a = parse_lrc("[00:02]b\n[00:01]a\nplain\n[00:03][00:00.5]c");
    let b = parse_lrc("[00:03][00:00.5]c\nplain\n[00:01]a\n[00:02]b");
    assert_eq!(a.synced, b.synced);
    assert_eq!(timed(&a), timed(&b));
    assert_eq!(
        timed(&a),
        vec![
            (500_000, "c".to_string()),
            (1_000_000, "a".to_string()),
            (2_000_000, "b".to_string()),
            (3_000_000, "[00:00.5]c".to_string()),
        ]
    );
}
