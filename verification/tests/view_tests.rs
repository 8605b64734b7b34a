use svar::lrc::{parse_lrc, LyricsData};
use svar::view::{plan_lyrics, show_not_synced_badge, LyricsPlan};

fn song() -> LyricsData {
    parse_lrc("[00:01]a\n[00:02]b\n[00:03]c\n[00:04]d\n[00:05]e\n[00:06]f\n[00:07]g\n[00:08]h\n[00:09]i\n[00:10]j")
}

#[test]
fn nothing_to_show() {
    assert_eq!(plan_lyrics(&LyricsData::empty(), 0, None, 20), LyricsPlan::NoLyrics);
    assert_eq!(plan_lyrics(&parse_lrc(""), 0, Some(3), 20), LyricsPlan::NoLyrics);
}

#[test]
fn current_line_and_centring() {
    let d = song();
    // before the first line: the first is current
    assert_eq!(plan_lyrics(&d, 0, None, 5), LyricsPlan::Synced { current: 0, scroll: 0 });
    // at 7.5 s line g (index 6) is current; 4 usable rows: centred 2 above
    assert_eq!(plan_lyrics(&d, 7_500_000, None, 5), LyricsPlan::Synced { current: 6, scroll: 4 });
    // exactly at a line's start
    assert_eq!(plan_lyrics(&d, 3_000_000, None, 1), LyricsPlan::Synced { current: 2, scroll: 2 });
    assert_eq!(plan_lyrics(&d, 99_000_000, None, 0), LyricsPlan::Synced { current: 9, scroll: 9 });
}

#[test]
fn manual_offset_is_clamped() {
    let d = song();
    assert_eq!(plan_lyrics(&d, 7_500_000, Some(-2), 5), LyricsPlan::Synced { current: 6, scroll: 2 });
    assert_eq!(plan_lyrics(&d, 7_500_000, Some(-100), 5), LyricsPlan::Synced { current: 6, scroll: 0 });
    assert_eq!(plan_lyrics(&d, 7_500_000, Some(100), 5), LyricsPlan::Synced { current: 6, scroll: 9 });
}

#[test]
fn plain_lyrics_and_instrumental() {
    let p = parse_lrc("a\nb\nc");
    assert_eq!(plan_lyrics(&p, 0, None, 10), LyricsPlan::Plain { scroll: 0 });
    assert_eq!(plan_lyrics(&p, 0, Some(1), 10), LyricsPlan::Plain { scroll: 1 });
    assert_eq!(plan_lyrics(&p, 0, Some(9), 10), LyricsPlan::Plain { scroll: 2 });
    assert_eq!(plan_lyrics(&p, 0, Some(-9), 10), LyricsPlan::Plain { scroll: 0 });
    let i = parse_lrc("\u{266a} Instrumental Track \u{266a}");
    assert_eq!(plan_lyrics(&i, 0, None, 10), LyricsPlan::Instrumental);
}

#[test]
fn not_synced_badge() {
    assert!(show_not_synced_badge(&parse_lrc("words"), "Title"));
    assert!(!show_not_synced_badge(&parse_lrc("words"), ""));
    assert!(!show_not_synced_badge(&song(), "Title"));
    assert!(!show_not_synced_badge(&LyricsData::empty(), "Title"));
    assert!(!show_not_synced_badge(&parse_lrc("\u{266a} Instrumental Track \u{266a}"), "Title"));
}
