//! The LRCLIB lyrics service: the requests made to it and what is made of
//! its answers.
use vstd::prelude::*;
use crate::lrc::{
    instrumental_text, no_lyrics_text, parse_lrc, parse_lrc_spec, scan, LrcLine, LyricsData,
    LyricsModel,
};
use crate::text::{
    chars_of, decimal, decimal_string, lines_of, split_lines, string_of, strings_view, trim,
    trim_chars, vecs_view,
};

verus! {

/// One answer of LRCLIB for a track.
#[derive(Debug)]
pub struct LrclibResponse {
    pub instrumental: Option<bool>,
    pub plain_lyrics: Option<String>,
    pub synced_lyrics: Option<String>,
}

/// The content of an LRCLIB answer.
pub struct ResponseModel {
    pub instrumental: Option<bool>,
    pub plain_lyrics: Option<Seq<char>>,
    pub synced_lyrics: Option<Seq<char>>,
}

/// The view of an optional string.
pub open spec fn opt_view(s: Option<String>) -> Option<Seq<char>> {
    match s {
        Some(x) => Some(x@),
        None => None,
    }
}

impl View for LrclibResponse {
    type V = ResponseModel;

    open spec fn view(&self) -> ResponseModel {
        ResponseModel {
            instrumental: self.instrumental,
            plain_lyrics: opt_view(self.plain_lyrics),
            synced_lyrics: opt_view(self.synced_lyrics),
        }
    }
}

/// Why an answer or a search gave no lyrics.
#[derive(Debug, Clone, Copy, PartialEq, Eq, Structural)]
pub enum LrclibError {
    /// The answer held neither usable synced nor plain lyrics.
    EmptyLyrics,
    /// No search result held lyrics.
    NotFound,
}

impl LrclibError {
    /// The error's message.
    pub fn message(&self) -> (r: String)
        ensures
            r@ == match self {
                LrclibError::EmptyLyrics => "Empty lyrics in response"@,
                LrclibError::NotFound => "No lyrics found on LRCLIB"@,
            },
    {
        match self {
            LrclibError::EmptyLyrics => "Empty lyrics in response".to_string(),
            LrclibError::NotFound => "No lyrics found on LRCLIB".to_string(),
        }
    }
}

/// Which lyrics an answer provides.
pub enum ResponseKind {
    Instrumental,
    Synced,
    Plain,
    Empty,
}

/// Whether LRC text holds at least one timed line.
pub open spec fn has_timed_lines(s: Seq<char>) -> bool {
    scan(split_lines(s)).synced
}

/// The unsynced lyrics made of plain text: its lines.
pub open spec fn plain_model(s: Seq<char>) -> LyricsModel {
    LyricsModel { synced: false, lines: seq![], plain_lines: split_lines(s) }
}

/// Which lyrics an answer provides: an instrumental track, else synced
/// lyrics that are not blank and have a timed line, else plain lyrics that
/// are not blank.
pub open spec fn response_kind(item: ResponseModel) -> ResponseKind {
    if item.instrumental == Some(true) {
        ResponseKind::Instrumental
    } else if item.synced_lyrics is Some && trim(item.synced_lyrics->0).len() > 0
        && has_timed_lines(item.synced_lyrics->0) {
        ResponseKind::Synced
    } else if item.plain_lyrics is Some && trim(item.plain_lyrics->0).len() > 0 {
        ResponseKind::Plain
    } else {
        ResponseKind::Empty
    }
}

/// Whether `d` is what an answer gives.
pub open spec fn response_gives(item: ResponseModel, d: LyricsModel) -> bool {
    match response_kind(item) {
        ResponseKind::Instrumental => d == LyricsModel::instrumental(),
        ResponseKind::Synced => parse_lrc_spec(item.synced_lyrics->0, d) && d.lines.len() > 0,
        ResponseKind::Plain => d == plain_model(item.plain_lyrics->0),
        ResponseKind::Empty => false,
    }
}

/// Whether an answer gives lyrics that show something.
pub open spec fn response_usable(item: ResponseModel) -> bool {
    match response_kind(item) {
        ResponseKind::Instrumental => true,
        ResponseKind::Synced => true,
        ResponseKind::Plain => !plain_model(item.plain_lyrics->0).is_empty(),
        ResponseKind::Empty => false,
    }
}

/// The instrumental lyrics show something.
pub proof fn lemma_instrumental_not_empty()
    ensures
        !LyricsModel::instrumental().is_empty(),
        instrumental_text() != no_lyrics_text(),
{
    reveal_strlit("No lyrics available");
    reveal_strlit("\u{266a} Instrumental Track \u{266a}");
    assert(instrumental_text().len() != no_lyrics_text().len());
}

/// Whether the optional text is present and not blank.
fn present_not_blank(s: &Option<String>) -> (r: bool)
    ensures
        r == (s is Some && trim(s->0@).len() > 0),
{
    match s {
        Some(x) => {
            let c = chars_of(x.as_str());
            trim_chars(&c).len() > 0
        },
        None => false,
    }
}

/// Turns one LRCLIB answer into lyrics: an instrumental track gives the
/// instrumental placeholder; synced lyrics with a timed line are parsed;
/// otherwise non-blank plain lyrics give their lines; otherwise the answer is
/// empty.
pub fn process_response(item: &LrclibResponse) -> (r: Result<LyricsData, LrclibError>)
    ensures
        match r {
            Ok(d) => response_gives(item@, d@),
            Err(e) => response_kind(item@) is Empty && e == LrclibError::EmptyLyrics,
        },
{
    if item.instrumental.unwrap_or(false) {
        let mut plain_lines: Vec<String> = Vec::new();
        plain_lines.push("\u{266a} Instrumental Track \u{266a}".to_string());
        let d = LyricsData { synced: false, lines: Vec::new(), plain_lines };
        assert(d@.plain_lines =~= seq![instrumental_text()]);
        assert(d@.lines =~= Seq::<(i64, Seq<char>)>::empty());
        return Ok(d);
    }
    if present_not_blank(&item.synced_lyrics) {
        match &item.synced_lyrics {
            Some(synced) => {
                let parsed = parse_lrc(synced.as_str());
                if parsed.lines.len() > 0 {
                    return Ok(parsed);
                }
            },
            None => {},
        }
    }
    if present_not_blank(&item.plain_lyrics) {
        match &item.plain_lyrics {
            Some(plain) => {
                let c = chars_of(plain.as_str());
                let ls = lines_of(&c);
                let mut plain_lines: Vec<String> = Vec::new();
                let mut i: usize = 0;
                while i < ls.len()
                    invariant
                        i <= ls@.len(),
                        plain_lines@.len() == i,
                        forall|k: int| 0 <= k < i ==> #[trigger] plain_lines@[k]@ == ls@[k]@,
                    decreases ls@.len() - i,
                {
                    plain_lines.push(string_of(&ls[i]));
                    i = i + 1;
                }
                assert(strings_view(plain_lines@) =~= vecs_view(ls@));
                let d = LyricsData { synced: false, lines: Vec::new(), plain_lines };
                assert(d@.lines =~= Seq::<(i64, Seq<char>)>::empty());
                return Ok(d);
            },
            None => {},
        }
    }
    Err(LrclibError::EmptyLyrics)
}

/// The lyrics of the first search result that gives lyrics showing
/// something, if any.
pub fn first_usable(items: &Vec<LrclibResponse>) -> (r: Option<LyricsData>)
    ensures
        match r {
            Some(d) => exists|i: int|
                0 <= i < items@.len() && (forall|j: int|
                    0 <= j < i ==> !response_usable(#[trigger] items@[j]@)) && response_usable(
                    items@[i]@,
                ) && response_gives(items@[i]@, d@),
            None => forall|j: int| 0 <= j < items@.len() ==> !response_usable(#[trigger] items@[j]@),
        },
        r matches Some(d) ==> !d@.is_empty(),
{
    let mut i: usize = 0;
    while i < items.len()
        invariant
            i <= items@.len(),
            forall|j: int| 0 <= j < i ==> !response_usable(#[trigger] items@[j]@),
        decreases items@.len() - i,
    {
        match process_response(&items[i]) {
            Ok(d) => {
                if !d.is_empty() {
                    assert(response_usable(items@[i as int]@));
                    return Some(d);
                }
                assert(!response_usable(items@[i as int]@)) by {
                    match response_kind(items@[i as int]@) {
                        ResponseKind::Instrumental => {
                            lemma_instrumental_not_empty();
                        },
                        ResponseKind::Synced => {},
                        ResponseKind::Plain => {},
                        ResponseKind::Empty => {},
                    }
                }
            },
            Err(_) => {
                assert(!response_usable(items@[i as int]@));
            },
        }
        i = i + 1;
    }
    None
}

/// An answer counts as a search result to take exactly when the lyrics it
/// gives are not empty: whatever lyrics an answer gives, it is usable if and
/// only if they show something. In particular an instrumental answer is
/// usable, as its lyrics are the instrumental message.
pub proof fn law_usable_iff_not_empty(item: ResponseModel, d: LyricsModel)
    requires
        response_gives(item, d),
    ensures
        response_usable(item) <==> !d.is_empty(),
        item.instrumental == Some(true) ==> response_usable(item) && d == LyricsModel::instrumental(),
{
    lemma_instrumental_not_empty();
}

/// An empty answer gives no lyrics and is not usable.
pub proof fn law_empty_answer_gives_nothing(item: ResponseModel, d: LyricsModel)
    requires
        response_kind(item) is Empty,
    ensures
        !response_gives(item, d),
        !response_usable(item),
{
}

// ---------------------------------------------------------------------------
// Request addresses
// ---------------------------------------------------------------------------

/// An ASCII character that `urlencoding::encode` writes as it is: a letter,
/// a digit, `-`, `.`, `_` or `~`.
pub open spec fn is_unreserved(c: char) -> bool {
    ('0' <= c && c <= '9') || ('A' <= c && c <= 'Z') || ('a' <= c && c <= 'z') || c == '-' || c
        == '.' || c == '_' || c == '~'
}

/// The upper-case hexadecimal digit of `d` (below 16).
pub open spec fn hex_digit(d: u8) -> char {
    if d < 10 {
        (48 + d) as char
    } else {
        (55 + d) as char
    }
}

/// The UTF-8 encoding of `c`.
pub open spec fn utf8_bytes(c: char) -> Seq<u8> {
    let v = c as u32;
    if v < 0x80 {
        seq![v as u8]
    } else if v < 0x800 {
        seq![(0xC0 + v / 64) as u8, (0x80 + v % 64) as u8]
    } else if v < 0x10000 {
        seq![(0xE0 + v / 4096) as u8, (0x80 + (v / 64) % 64) as u8, (0x80 + v % 64) as u8]
    } else {
        seq![
            (0xF0 + v / 262144) as u8,
            (0x80 + (v / 4096) % 64) as u8,
            (0x80 + (v / 64) % 64) as u8,
            (0x80 + v % 64) as u8,
        ]
    }
}

/// How `urlencoding::encode` writes one byte: as its ASCII character when
/// that is unreserved, else `%` and the byte in two upper-case hexadecimal
/// digits.
pub open spec fn byte_escape(b: u8) -> Seq<char> {
    if b < 0x80 && is_unreserved(b as char) {
        seq![b as char]
    } else {
        seq!['%', hex_digit(b / 16), hex_digit(b % 16)]
    }
}

/// How `urlencoding::encode` writes a sequence of bytes: byte by byte.
pub open spec fn bytes_escape(bs: Seq<u8>) -> Seq<char>
    decreases bs.len(),
{
    if bs.len() == 0 {
        seq![]
    } else {
        bytes_escape(bs.drop_last()) + byte_escape(bs.last())
    }
}

/// What `urlencoding::encode` returns for the text `s`: each byte of its
/// UTF-8 encoding written by `byte_escape`.
pub open spec fn url_encoded(s: Seq<char>) -> Seq<char>
    decreases s.len(),
{
    if s.len() == 0 {
        seq![]
    } else {
        url_encoded(s.drop_last()) + bytes_escape(utf8_bytes(s.last()))
    }
}

/// `urlencoding::encode`: percent-encodes every byte of the UTF-8 encoding
/// of `s` except ASCII letters, digits and `-`, `.`, `_`, `~`, which it keeps
/// (`url_encoded`).
#[verifier::external_body]
pub(crate) fn url_encode(s: &str) -> (r: String)
    ensures
        r@ == url_encoded(s@),
{
    urlencoding::encode(s).into_owned()
}

/// The address of the exact-match request, from the already encoded title,
/// artist and album, and the duration in seconds.
pub open spec fn exact_url_spec(
    title_enc: Seq<char>,
    artist_enc: Seq<char>,
    album_enc: Option<Seq<char>>,
    duration_sec: Option<u64>,
) -> Seq<char> {
    "https://lrclib.net/api/get?track_name="@ + title_enc + "&artist_name="@ + artist_enc + (
    match album_enc {
        Some(a) => "&album_name="@ + a,
        None => seq![],
    }) + (match duration_sec {
        Some(d) => if d > 0 {
            "&duration="@ + decimal(d as nat)
        } else {
            seq![]
        },
        None => seq![],
    })
}

/// Builds the exact-match request address from already encoded parts: the
/// album parameter when an encoded album is given, the duration parameter
/// when a positive duration is given.
pub fn compose_exact_url(
    title_enc: &str,
    artist_enc: &str,
    album_enc: Option<&str>,
    duration_sec: Option<u64>,
) -> (r: String)
    ensures
        r@ == exact_url_spec(title_enc@, artist_enc@, opt_str_view(album_enc), duration_sec),
{
    let mut url = "https://lrclib.net/api/get?track_name=".to_string();
    url.append(title_enc);
    url.append("&artist_name=");
    url.append(artist_enc);
    match album_enc {
        Some(a) => {
            url.append("&album_name=");
            url.append(a);
        },
        None => {},
    }
    match duration_sec {
        Some(d) => {
            if d > 0 {
                url.append("&duration=");
                let ds = decimal_string(d);
                url.append(ds.as_str());
            }
        },
        None => {},
    }
    assert(url@ =~= exact_url_spec(title_enc@, artist_enc@, opt_str_view(album_enc), duration_sec));
    url
}

/// The view of an optional string slice.
pub open spec fn opt_str_view(s: Option<&str>) -> Option<Seq<char>> {
    match s {
        Some(x) => Some(x@),
        None => None,
    }
}

/// The album that the exact-match request names: a given, non-empty album.
pub open spec fn album_param(album: Option<Seq<char>>) -> Option<Seq<char>> {
    match album {
        Some(a) => if a.len() > 0 {
            Some(url_encoded(a))
        } else {
            None
        },
        None => None,
    }
}

/// The address of the exact-match request for a track: title and artist
/// encoded, the album when given and not empty, the duration when positive.
pub fn exact_url(artist: &str, title: &str, album: Option<&str>, duration_sec: Option<u64>) -> (r:
    String)
    ensures
        r@ == exact_url_spec(
            url_encoded(title@),
            url_encoded(artist@),
            album_param(opt_str_view(album)),
            duration_sec,
        ),
{
    let title_enc = url_encode(title);
    let artist_enc = url_encode(artist);
    let album_enc: Option<String> = match album {
        Some(a) => {
            if a.is_empty() {
                None
            } else {
                Some(url_encode(a))
            }
        },
        None => None,
    };
    match &album_enc {
        Some(a) => compose_exact_url(
            title_enc.as_str(),
            artist_enc.as_str(),
            Some(a.as_str()),
            duration_sec,
        ),
        None => compose_exact_url(title_enc.as_str(), artist_enc.as_str(), None, duration_sec),
    }
}

/// The search query for a track: artist, a space, title.
pub open spec fn search_query(artist: Seq<char>, title: Seq<char>) -> Seq<char> {
    artist + " "@ + title
}

/// The address of the search request, from the already encoded query.
pub fn compose_search_url(query_enc: &str) -> (r: String)
    ensures
        r@ == "https://lrclib.net/api/search?q="@ + query_enc@,
{
    let mut url = "https://lrclib.net/api/search?q=".to_string();
    url.append(query_enc);
    url
}

/// The address of the search request for a track.
pub fn search_url(artist: &str, title: &str) -> (r: String)
    ensures
        r@ == "https://lrclib.net/api/search?q="@ + url_encoded(search_query(artist@, title@)),
{
    let mut query = artist.to_string();
    query.append(" ");
    query.append(title);
    assert(query@ == search_query(artist@, title@));
    let enc = url_encode(query.as_str());
    compose_search_url(enc.as_str())
}

} // verus!
