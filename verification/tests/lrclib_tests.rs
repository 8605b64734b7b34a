use svar::lrclib::{
    compose_exact_url, compose_search_url, exact_url, first_usable, process_response, search_url,
    LrclibError, LrclibResponse,
};

fn response(instrumental: Option<bool>, plain: Option<&str>, synced: Option<&str>) -> LrclibResponse {
    LrclibResponse {
        instrumental,
        plain_lyrics: plain.map(|s| s.to_string()),
        synced_lyrics: synced.map(|s| s.to_string()),
    }
}

#[test]
fn instrumental_answer() {
    let d = process_response(&response(Some(true), Some("words"), Some("[00:01]x"))).unwrap();
    assert!(!d.synced);
    assert!(d.lines.is_empty());
    assert_eq!(d.plain_lines, vec!["\u{266a} Instrumental Track \u{266a}".to_string()]);
    assert!(d.is_instrumental());
}

#[test]
fn synced_answer_is_parsed() {
    let d = process_response(&response(Some(false), Some("plain"), Some("[00:01.00]One\n[00:00.50]Zero")))
        .unwrap();
    assert!(d.synced);
    assert_eq!(d.lines.len(), 2);
    assert_eq!(d.lines[0].time_us, 500_000);
    assert_eq!(d.lines[0].text, "Zero");
    assert_eq!(d.lines[1].text, "One");
}

#[test]
fn synced_without_time_tags_falls_back_to_plain() {
    let d = process_response(&response(None, Some("First\nSecond"), Some("no tags here"))).unwrap();
    assert!(!d.synced);
    assert_eq!(d.plain_lines, vec!["First".to_string(), "Second".to_string()]);
}

#[test]
fn plain_lines_are_not_trimmed() {
    let d = process_response(&response(None, Some("  a  \r\n\nb"), Some("   "))).unwrap();
    assert_eq!(d.plain_lines, vec!["  a  ".to_string(), "".to_string(), "b".to_string()]);
}

#[test]
fn empty_answer_is_an_error() {
    assert_eq!(process_response(&response(None, None, None)).unwrap_err(), LrclibError::EmptyLyrics);
    assert_eq!(
        process_response(&response(Some(false), Some(" \n "), Some("\t"))).unwrap_err(),
        LrclibError::EmptyLyrics
    );
    assert_eq!(LrclibError::EmptyLyrics.message(), "Empty lyrics in response");
    assert_eq!(LrclibError::NotFound.message(), "No lyrics found on LRCLIB");
}

#[test]
fn search_takes_first_answer_that_shows_something() {
    let items = vec![
        response(None, None, None),
        response(None, Some("No lyrics available"), None),
        response(None, Some("real words"), None),
        response(Some(true), None, None),
    ];
    let d = first_usable(&items).unwrap();
    assert_eq!(d.plain_lines, vec!["real words".to_string()]);
    let none = vec![response(None, None, None), response(None, Some("  "), None)];
    assert!(first_usable(&none).is_none());
    assert!(first_usable(&Vec::new()).is_none());
}

#[test]
fn exact_url_composition() {
    assert_eq!(
        compose_exact_url("T", "A", Some("B"), Some(215)),
        "https://lrclib.net/api/get?track_name=T&artist_name=A&album_name=B&duration=215"
    );
    assert_eq!(
        compose_exact_url("T", "A", None, Some(0)),
        "https://lrclib.net/api/get?track_name=T&artist_name=A"
    );
    assert_eq!(compose_search_url("q%20x"), "https://lrclib.net/api/search?q=q%20x");
}

#[test]
fn exact_url_encodes_parts() {
    assert_eq!(
        exact_url("AC/DC", "Back in Black", Some("Back in Black"), Some(255)),
        "https://lrclib.net/api/get?track_name=Back%20in%20Black&artist_name=AC%2FDC&album_name=Back%20in%20Black&duration=255"
    );
    assert_eq!(
        exact_url("Björk", "Jóga", Some(""), None),
        "https://lrclib.net/api/get?track_name=J%C3%B3ga&artist_name=Bj%C3%B6rk"
    );
}

#[test]
fn search_url_encodes_query() {
    assert_eq!(
        search_url("AC/DC", "Back in Black"),
        "https://lrclib.net/api/search?q=AC%2FDC%20Back%20in%20Black"
    );
}

#[test]
fn search_url_keeps_unreserved_characters() {
    assert_eq!(
        search_url("A-b_c.d~", "x!"),
        "https://lrclib.net/api/search?q=A-b_c.d~%20x%21"
    );
}
