use svar::mpris::{
    clean_player_name, dict_artist, dict_get, dict_str, dict_u64, extract_artist, extract_str,
    extract_u64, join_strings, read_player_props, select_players, MprisClient, MprisValue,
};
use svar::player::{PlaybackStatus, PlayerState, TrackMetadata};

fn s(x: &str) -> MprisValue {
    MprisValue::Str(x.to_string())
}

fn var(v: MprisValue) -> MprisValue {
    MprisValue::Variant(Box::new(v))
}

fn dict(entries: Vec<(&str, MprisValue)>) -> MprisValue {
    MprisValue::Dict(entries.into_iter().map(|(k, v)| (s(k), v)).collect())
}

fn props(status: &str, meta: Option<MprisValue>, position: Option<i64>) -> MprisValue {
    let mut entries = vec![("PlaybackStatus", var(s(status)))];
    if let Some(m) = meta {
        entries.push(("Metadata", var(m)));
    }
    if let Some(p) = position {
        entries.push(("Position", var(MprisValue::I64(p))));
    }
    dict(entries)
}

fn meta(title: &str, artist: &str, album: &str, length_us: u64) -> MprisValue {
    dict(vec![
        ("xesam:title", var(s(title))),
        ("xesam:artist", var(MprisValue::Array(vec![s(artist)]))),
        ("xesam:album", var(s(album))),
        ("mpris:length", var(MprisValue::U64(length_us))),
    ])
}

#[test]
fn extract_values() {
    assert_eq!(extract_str(&var(var(s("x")))), Some("x".to_string()));
    assert_eq!(extract_str(&MprisValue::U32(3)), None);
    assert_eq!(extract_u64(&MprisValue::I64(-5)), Some(0));
    assert_eq!(extract_u64(&MprisValue::I32(7)), Some(7));
    assert_eq!(extract_u64(&var(MprisValue::U32(9))), Some(9));
    assert_eq!(extract_u64(&MprisValue::Other), None);
}

#[test]
fn dictionary_lookup() {
    let d = var(MprisValue::Dict(vec![
        (MprisValue::U32(1), s("skipped")),
        (s("a"), s("first")),
        (s("a"), s("second")),
        (s("n"), MprisValue::U64(42)),
    ]));
    assert!(dict_get(&d, "missing").is_none());
    assert_eq!(dict_str(&d, "a"), Some("first".to_string()));
    assert_eq!(dict_u64(&d, "n"), Some(42));
    assert_eq!(dict_str(&d, "n"), None);
    assert!(dict_get(&s("not a dict"), "a").is_none());
}

#[test]
fn artists_are_joined() {
    let arr = MprisValue::Array(vec![s("A"), MprisValue::U32(1), var(s("B"))]);
    assert_eq!(extract_artist(&arr), Some("A, B".to_string()));
    assert_eq!(extract_artist(&MprisValue::Array(vec![])), None);
    assert_eq!(extract_artist(&var(s("Solo"))), Some("Solo".to_string()));
    let d = dict(vec![("xesam:artist", var(MprisValue::Array(vec![s("X")])))]);
    assert_eq!(dict_artist(&d, "xesam:artist"), Some("X".to_string()));
    assert_eq!(join_strings(&vec!["a".to_string(), "b".to_string(), "c".to_string()], "/"), "a/b/c");
}

#[test]
fn player_names() {
    assert_eq!(clean_player_name("org.mpris.MediaPlayer2.spotify"), "spotify");
    assert_eq!(clean_player_name("org.mpris.MediaPlayer2.vlc.instance123"), "vlc");
    assert_eq!(
        clean_player_name("org.mpris.MediaPlayer2.org.mpris.MediaPlayer2.mpv"),
        "mpv"
    );
    assert_eq!(clean_player_name("other.name"), "other");
}

#[test]
fn players_are_filtered_and_sorted() {
    let names = vec![
        "org.freedesktop.DBus".to_string(),
        "org.mpris.MediaPlayer2.vlc".to_string(),
        "org.mpris.MediaPlayer2.playerctld".to_string(),
        "org.mpris.MediaPlayer2.PlayerCtlD".to_string(),
        "org.mpris.MediaPlayer2.firefox.instance_1_2".to_string(),
        "org.mpris.MediaPlayer2.Spotify".to_string(),
    ];
    assert_eq!(
        select_players(names),
        vec![
            "org.mpris.MediaPlayer2.Spotify".to_string(),
            "org.mpris.MediaPlayer2.firefox.instance_1_2".to_string(),
            "org.mpris.MediaPlayer2.vlc".to_string(),
        ]
    );
}

#[test]
fn reading_properties() {
    let p = read_player_props(&props("Paused", Some(meta("T", "A", "B", 3_000_000)), Some(1_000)));
    assert_eq!(p.status, PlaybackStatus::Paused);
    assert_eq!(p.title, Some("T".to_string()));
    assert_eq!(p.artist, Some("A".to_string()));
    assert_eq!(p.album, Some("B".to_string()));
    assert_eq!(p.length_us, Some(3_000_000));
    assert_eq!(p.position_us, Some(1_000));
    let q = read_player_props(&props("Buffering", None, None));
    assert_eq!(q.status, PlaybackStatus::Stopped);
    assert_eq!(q.title, None);
    assert_eq!(PlaybackStatus::from_mpris(Some("Playing")), PlaybackStatus::Playing);
    assert_eq!(PlaybackStatus::from_mpris(None), PlaybackStatus::Stopped);
}

#[test]
fn tracker_follows_reports() {
    let mut c = MprisClient::new(0);
    let st = c.fetch_current_state(&props("Playing", Some(meta("Song", "Band", "LP", 200_000_000)), Some(10_000_000)), 1_000);
    assert_eq!(st.metadata.title, "Song");
    assert_eq!(st.metadata.artist, "Band");
    assert_eq!(st.metadata.duration_sec, 200);
    assert_eq!(st.position_us, 10_000_000);
    // a report within 10 ms of the last one: the position is extrapolated
    let st = c.fetch_current_state(&props("Playing", None, Some(10_005_000)), 501_000);
    assert_eq!(st.position_us, 10_500_000);
    // no position reported while playing: extrapolated
    let st = c.fetch_current_state(&props("Playing", None, None), 2_001_000);
    assert_eq!(st.position_us, 12_000_000);
    // a seek backwards is taken
    let st = c.fetch_current_state(&props("Playing", None, Some(3_000_000)), 2_002_000);
    assert_eq!(st.position_us, 3_000_000);
    // paused: the reported position is taken as is
    let st = c.fetch_current_state(&props("Paused", None, Some(4_000_000)), 9_000_000);
    assert_eq!(st.position_us, 4_000_000);
    // paused without a position: stays
    let st = c.fetch_current_state(&props("Paused", None, None), 19_000_000);
    assert_eq!(st.position_us, 4_000_000);
}

#[test]
fn tracker_caps_at_duration() {
    let mut c = MprisClient::new(0);
    let st = c.fetch_current_state(&props("Paused", Some(meta("S", "A", "B", 5_500_000)), Some(7_000_000)), 0);
    assert_eq!(st.metadata.duration_sec, 5);
    assert_eq!(st.position_us, 5_000_000);
}

#[test]
fn tracker_starts_over_on_new_track() {
    let mut c = MprisClient::new(0);
    c.fetch_current_state(&props("Playing", Some(meta("One", "A", "Album", 100_000_000)), Some(50_000_000)), 0);
    let m2 = dict(vec![("xesam:title", var(s("Two")))]);
    let st = c.fetch_current_state(&props("Playing", Some(m2), None), 3_000_000);
    assert_eq!(st.metadata.title, "Two");
    assert_eq!(st.metadata.artist, "");
    assert_eq!(st.metadata.album, "");
    assert_eq!(st.metadata.duration_sec, 0);
    assert_eq!(st.position_us, 0);
    assert_eq!(c.last_update_us, 3_000_000);
}

#[test]
fn player_state_defaults() {
    let p = PlayerState::default();
    assert_eq!(p.position_us, 0);
    let m = TrackMetadata::default();
    assert_eq!(m.title, "");
    assert_eq!(m.duration_sec, 0);
}

#[test]
fn extrapolated_position_grows_with_time() {
    let report = props("Playing", None, None);
    let mut earlier = MprisClient::new(1_000);
    let mut later = MprisClient::new(1_000);
    let a = earlier.fetch_current_state(&report, 2_000);
    let b = later.fetch_current_state(&report, 9_000);
    assert_eq!(a.position_us, 1_000);
    assert_eq!(b.position_us, 8_000);
    assert!(a.position_us <= b.position_us);
}
