use svar::app::{clean_title, App, KeyAction, KeyCode, KeyPress};
use svar::lrc::parse_lrc;
use svar::player::{PlayerState, TrackMetadata};

fn key(c: char) -> KeyPress {
    KeyPress { code: KeyCode::Char(c), control_only: false }
}

fn state(title: &str, artist: &str, album: &str, duration_sec: u64, position_us: u64) -> PlayerState {
    PlayerState {
        metadata: TrackMetadata {
            title: title.to_string(),
            artist: artist.to_string(),
            album: album.to_string(),
            duration_sec,
        },
        position_us,
    }
}

#[test]
fn titles_lose_noise_brackets() {
    assert_eq!(clean_title("Song (Official Video)"), "Song");
    assert_eq!(clean_title("  Song [Remastered 2011]  "), "Song");
    assert_eq!(clean_title("Song (feat. Someone)"), "Song (feat. Someone)");
    assert_eq!(clean_title("Song (Live) (Official Video)"), "Song (Live)");
    assert_eq!(clean_title("Song (LYRICS"), "Song (LYRICS");
    assert_eq!(clean_title("Song [HD] (Mix)"), "Song [HD] (Mix)");
    assert_eq!(clean_title("Plain"), "Plain");
    assert_eq!(clean_title("(Audio)"), "");
}

#[test]
fn cleaned_title_is_a_prefix_of_the_trimmed_title() {
    for t in ["  A (Acoustic) ", "B [x]", "C (Video) tail"] {
        let c = clean_title(t);
        assert!(t.trim().starts_with(c.as_str()));
    }
}

#[test]
fn new_app() {
    let app = App::new();
    assert!(!app.should_quit);
    assert!(app.manual_scroll_offset.is_none());
    assert!(app.lyrics.is_empty());
    assert_eq!(app.last_fetched_song, (String::new(), String::new()));
}

#[test]
fn tick_requests_lyrics_once_per_track() {
    let mut app = App::new();
    assert!(app.on_tick(None).is_none());
    let req = app.on_tick(Some(state("Song (Official Audio)", "Band", "LP", 180, 0))).unwrap();
    assert_eq!(req.artist, "Band");
    assert_eq!(req.title, "Song");
    assert_eq!(req.album, Some("LP".to_string()));
    assert_eq!(req.duration_sec, Some(180));
    assert_eq!(app.last_fetched_song, ("Band".to_string(), "Song (Official Audio)".to_string()));
    assert!(app.on_tick(Some(state("Song (Official Audio)", "Band", "LP", 180, 1_000_000))).is_none());
    let req2 = app.on_tick(Some(state("Next", "Band", "", 0, 0))).unwrap();
    assert_eq!(req2.album, None);
    assert_eq!(req2.duration_sec, None);
    assert!(app.on_tick(Some(state("", "Band", "", 0, 0))).is_none());
}

#[test]
fn tick_jump_drops_manual_scroll() {
    let mut app = App::new();
    app.on_tick(Some(state("S", "A", "", 0, 10_000_000)));
    app.handle_key_event(key('j'));
    app.on_tick(Some(state("S", "A", "", 0, 11_000_000)));
    assert_eq!(app.manual_scroll_offset, Some(1));
    app.on_tick(Some(state("S", "A", "", 0, 13_000_000)));
    assert_eq!(app.manual_scroll_offset, None);
}

#[test]
fn scrolling_keys() {
    let mut app = App::new();
    app.handle_key_event(KeyPress { code: KeyCode::Up, control_only: false });
    assert_eq!(app.manual_scroll_offset, Some(-1));
    app.handle_key_event(key('k'));
    assert_eq!(app.manual_scroll_offset, Some(-2));
    app.handle_key_event(KeyPress { code: KeyCode::Down, control_only: false });
    app.handle_key_event(key('j'));
    assert_eq!(app.manual_scroll_offset, Some(0));
    app.handle_key_event(key('c'));
    assert_eq!(app.manual_scroll_offset, None);
    assert!(!app.should_quit);
}

#[test]
fn quitting_keys() {
    let mut app = App::new();
    app.handle_key_event(KeyPress { code: KeyCode::Char('c'), control_only: true });
    assert!(app.should_quit);
    let mut app2 = App::new();
    app2.handle_key_event(key('q'));
    assert!(app2.should_quit);
    let mut app3 = App::new();
    app3.handle_key_event(KeyPress { code: KeyCode::Other, control_only: true });
    assert!(!app3.should_quit);
}

#[test]
fn refetch_key() {
    let mut app = App::new();
    assert!(matches!(app.handle_key_event(key('r')), KeyAction::Nothing));
    app.on_tick(Some(state("Tune [Lyric Video]", "X", "", 0, 0)));
    match app.handle_key_event(key('r')) {
        KeyAction::Refetch(req) => {
            assert_eq!(req.title, "Tune");
            assert_eq!(req.artist, "X");
        }
        KeyAction::Nothing => panic!("expected a refetch"),
    }
}

#[test]
fn received_lyrics_are_shown() {
    let mut app = App::new();
    app.handle_key_event(key('j'));
    app.receive_lyrics(parse_lrc("[00:01]hi"));
    assert!(app.lyrics.synced);
    assert_eq!(app.manual_scroll_offset, None);
    let req = app.fetch_lyrics_for_current_song();
    assert_eq!(req.title, "");
}

#[test]
fn noise_words_are_found() {
    let c = |s: &str| s.chars().collect::<Vec<char>>();
    assert!(svar::app::has_noise_chars(&c("official music video")));
    assert!(svar::app::has_noise_chars(&c("hd")));
    assert!(svar::app::has_noise_chars(&c("2011 remastered")));
    assert!(!svar::app::has_noise_chars(&c("feat. someone")));
    assert!(!svar::app::has_noise_chars(&c("Official")));
}
