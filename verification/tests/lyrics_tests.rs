use svar::lrc::{parse_lrc, LyricsData};
use svar::lyrics::{cache_key, LyricsCache, LyricsService};

#[test]
fn cache_key_trims_and_lowercases() {
    assert_eq!(cache_key("  AC/DC ", "Back In Black\t"), "ac/dc - back in black");
    assert_eq!(cache_key("ÄBBA", "ÖÖ"), "äbba - öö");
    assert_eq!(cache_key("", ""), " - ");
}

#[test]
fn cache_key_ignores_surrounding_space() {
    assert_eq!(cache_key(" Queen ", " Bohemian Rhapsody "), cache_key("Queen", "Bohemian Rhapsody"));
}

#[test]
fn cache_get_insert_remove() {
    let mut c = LyricsCache::new();
    assert!(c.get("k").is_none());
    c.insert("k".to_string(), parse_lrc("one"));
    c.insert("j".to_string(), parse_lrc("two"));
    assert_eq!(c.get("k").unwrap().plain_lines, vec!["one".to_string()]);
    c.insert("k".to_string(), parse_lrc("three"));
    assert_eq!(c.get("k").unwrap().plain_lines, vec!["three".to_string()]);
    c.remove("k");
    assert!(c.get("k").is_none());
    assert_eq!(c.get("j").unwrap().plain_lines, vec!["two".to_string()]);
}

#[test]
fn fetched_lyrics_are_served_afterwards() {
    let mut s = LyricsService::new();
    assert!(s.get_lyrics("Artist", "Song").is_none());
    let got = s.accept_fetched("Artist", "Song", Some(parse_lrc("[00:01]hey")));
    assert!(got.synced);
    let again = s.get_lyrics(" artist", "SONG ").unwrap();
    assert_eq!(again.lines[0].text, "hey");
    assert!(s.get_lyrics("Other", "Song").is_none());
}

#[test]
fn failed_or_empty_fetch_is_not_remembered() {
    let mut s = LyricsService::new();
    let d = s.accept_fetched("A", "B", None);
    assert!(d.is_empty());
    assert_eq!(d.plain_lines, vec!["No lyrics available".to_string()]);
    assert!(s.get_lyrics("A", "B").is_none());
    let d2 = s.accept_fetched("A", "B", Some(LyricsData::empty()));
    assert!(d2.is_empty());
    assert!(s.get_lyrics("A", "B").is_none());
}

#[test]
fn invalidate_forgets_one_track() {
    let mut s = LyricsService::new();
    s.accept_fetched("A", "B", Some(parse_lrc("x")));
    s.accept_fetched("C", "D", Some(parse_lrc("y")));
    s.invalidate("a", "b");
    assert!(s.get_lyrics("A", "B").is_none());
    assert_eq!(s.get_lyrics("C", "D").unwrap().plain_lines, vec!["y".to_string()]);
}

#[test]
fn key_joining() {
    assert_eq!(svar::lyrics::join_key("a", "b"), "a - b");
}
