//! The application's state and how it reacts to player ticks and keys.
use vstd::prelude::*;
use crate::lrc::{str_equal, LyricsData, LyricsModel};
use crate::player::{PlayerModel, PlayerState};
use crate::text::{
    chars_of, contains_chars, contains_seq, copy_range, find_char, find_from, lemma_find_from,
    lemma_rfind, lemma_trim_end_prefix, lowercase, rfind, rfind_char, string_of, to_lowercase, trim,
    trim_chars, trim_end, trim_end_chars,
};

verus! {

// ---------------------------------------------------------------------------
// Track titles
// ---------------------------------------------------------------------------

/// Words that mark a bracketed part of a title as noise, such as
/// "(Official Video)" or "[Remastered]".
pub open spec fn noise_words() -> Seq<Seq<char>> {
    seq!["official"@, "video"@, "lyric"@, "audio"@, "hd"@, "remaster"@, "live"@, "acoustic"@]
}

/// Whether `inner` contains one of the noise words.
pub open spec fn has_noise(inner: Seq<char>) -> bool {
    exists|i: int| 0 <= i < noise_words().len() && contains_seq(inner, #[trigger] noise_words()[i])
}

/// Where the last bracketed part of `t` opens: the last `(` or `[`.
pub open spec fn bracket_start(t: Seq<char>) -> Option<int> {
    match (rfind(t, '('), rfind(t, '[')) {
        (Some(a), Some(b)) => Some(
            if a >= b {
                a
            } else {
                b
            },
        ),
        (Some(a), None) => Some(a),
        (None, Some(b)) => Some(b),
        (None, None) => None,
    }
}

/// A title without its last bracketed part when that part (lower-cased)
/// holds a noise word; the title is trimmed, and so is what precedes the
/// dropped part.
pub open spec fn clean_title_spec(title: Seq<char>) -> Seq<char> {
    let t = trim(title);
    match bracket_start(t) {
        Some(s) => {
            let close = if t[s] == '(' {
                ')'
            } else {
                ']'
            };
            match find_from(t, close, s) {
                Some(e) => if has_noise(lowercase(t.subrange(s + 1, e))) {
                    trim_end(t.subrange(0, s))
                } else {
                    t
                },
                None => t,
            }
        },
        None => t,
    }
}

/// Whether `inner` contains one of the noise words.
pub fn has_noise_chars(inner: &[char]) -> (r: bool)
    ensures
        r == has_noise(inner@),
{
    let w0 = chars_of("official");
    let w1 = chars_of("video");
    let w2 = chars_of("lyric");
    let w3 = chars_of("audio");
    let w4 = chars_of("hd");
    let w5 = chars_of("remaster");
    let w6 = chars_of("live");
    let w7 = chars_of("acoustic");
    let r = contains_chars(inner, &w0) || contains_chars(inner, &w1) || contains_chars(inner, &w2)
        || contains_chars(inner, &w3) || contains_chars(inner, &w4) || contains_chars(inner, &w5)
        || contains_chars(inner, &w6) || contains_chars(inner, &w7);
    assert(noise_words()[0] == w0@ && noise_words()[1] == w1@ && noise_words()[2] == w2@
        && noise_words()[3] == w3@ && noise_words()[4] == w4@ && noise_words()[5] == w5@
        && noise_words()[6] == w6@ && noise_words()[7] == w7@);
    assert(r == has_noise(inner@)) by {
        if has_noise(inner@) {
            let i = choose|i: int| 0 <= i < noise_words().len() && contains_seq(inner@, #[trigger] noise_words()[i]);
            assert(0 <= i < 8);
        }
    }
    r
}

/// The title to search lyrics for: trimmed, and without a last bracketed
/// part that marks a version ("(Official Video)", "[Live]", ...).
pub fn clean_title(title: &str) -> (r: String)
    ensures
        r@ == clean_title_spec(title@),
        r@.len() <= trim(title@).len(),
        r@ == trim(title@).subrange(0, r@.len() as int),
{
    let chars = chars_of(title);
    let t = trim_chars(&chars);
    proof {
        lemma_rfind(t@, '(');
        lemma_rfind(t@, '[');
        assert(t@.subrange(0, t@.len() as int) =~= t@);
    }
    let start: Option<usize> = match (rfind_char(&t, '('), rfind_char(&t, '[')) {
        (Some(a), Some(b)) => Some(
            if a >= b {
                a
            } else {
                b
            },
        ),
        (Some(a), None) => Some(a),
        (None, Some(b)) => Some(b),
        (None, None) => None,
    };
    match start {
        Some(s) => {
            let close = if t[s] == '(' {
                ')'
            } else {
                ']'
            };
            proof {
                lemma_find_from(t@, close, s as int);
            }
            match find_char(&t, close, s) {
                Some(e) => {
                    assert(t@[s as int] != close);
                    let inner = copy_range(&t, s + 1, e);
                    let inner_s = string_of(&inner);
                    let lower_s = to_lowercase(inner_s.as_str());
                    let lower = chars_of(lower_s.as_str());
                    if has_noise_chars(&lower) {
                        let head = copy_range(&t, 0, s);
                        let kept = trim_end_chars(&head);
                        proof {
                            lemma_trim_end_prefix(head@);
                            assert(kept@ =~= t@.subrange(0, kept@.len() as int));
                        }
                        return string_of(&kept);
                    }
                },
                None => {},
            }
        },
        None => {},
    }
    string_of(&t)
}

// ---------------------------------------------------------------------------
// Requests for lyrics
// ---------------------------------------------------------------------------

/// What lyrics to fetch: the track's artist, its cleaned title, its album
/// when known, its duration in seconds when known.
#[derive(Debug)]
pub struct LyricsRequest {
    pub artist: String,
    pub title: String,
    pub album: Option<String>,
    pub duration_sec: Option<u64>,
}

/// The content of a `LyricsRequest`.
pub struct RequestModel {
    pub artist: Seq<char>,
    pub title: Seq<char>,
    pub album: Option<Seq<char>>,
    pub duration_sec: Option<u64>,
}

impl View for LyricsRequest {
    type V = RequestModel;

    open spec fn view(&self) -> RequestModel {
        RequestModel {
            artist: self.artist@,
            title: self.title@,
            album: match self.album {
                Some(a) => Some(a@),
                None => None,
            },
            duration_sec: self.duration_sec,
        }
    }
}

/// The request for the lyrics of the player's current track.
pub open spec fn request_for(p: PlayerModel) -> RequestModel {
    RequestModel {
        artist: p.metadata.artist,
        title: clean_title_spec(p.metadata.title),
        album: if p.metadata.album.len() == 0 {
            None
        } else {
            Some(p.metadata.album)
        },
        duration_sec: if p.metadata.duration_sec > 0 {
            Some(p.metadata.duration_sec)
        } else {
            None
        },
    }
}

// ---------------------------------------------------------------------------
// Keys
// ---------------------------------------------------------------------------

/// The key of a key press, as far as the application tells keys apart.
#[derive(Debug, Clone, Copy, PartialEq, Eq, Structural)]
pub enum KeyCode {
    Char(char),
    Up,
    Down,
    Other,
}

/// A key press: its key, and whether Control (and no other modifier) was
/// held.
#[derive(Debug, Clone, Copy, PartialEq, Eq, Structural)]
pub struct KeyPress {
    pub code: KeyCode,
    pub control_only: bool,
}

/// What a key asks the caller to do.
#[derive(Debug)]
pub enum KeyAction {
    /// Nothing beyond the change of state.
    Nothing,
    /// Forget the remembered lyrics of the request's artist and title, fetch
    /// them again and hand them to `receive_lyrics`.
    Refetch(LyricsRequest),
}

/// What a key does.
pub enum KeyEffect {
    Quit,
    ScrollUp,
    ScrollDown,
    Recenter,
    Refetch,
    Nothing,
}

/// What a key does: `q` or Control-`c` quits; Up or `k` scrolls up, Down or
/// `j` scrolls down; `c` re-centres on the current line; `r` fetches the
/// lyrics again.
pub open spec fn key_effect(k: KeyPress) -> KeyEffect {
    if k.code == KeyCode::Char('q') || (k.code == KeyCode::Char('c') && k.control_only) {
        KeyEffect::Quit
    } else if k.code == KeyCode::Up || k.code == KeyCode::Char('k') {
        KeyEffect::ScrollUp
    } else if k.code == KeyCode::Down || k.code == KeyCode::Char('j') {
        KeyEffect::ScrollDown
    } else if k.code == KeyCode::Char('c') {
        KeyEffect::Recenter
    } else if k.code == KeyCode::Char('r') {
        KeyEffect::Refetch
    } else {
        KeyEffect::Nothing
    }
}

// ---------------------------------------------------------------------------
// The application
// ---------------------------------------------------------------------------

/// The application's state: the player as last seen, the lyrics shown, the
/// user's scroll offset (none: follow the current line), whether to quit,
/// and the (artist, title) whose lyrics were last fetched.
#[derive(Debug)]
pub struct App {
    pub player: PlayerState,
    pub lyrics: LyricsData,
    pub manual_scroll_offset: Option<isize>,
    pub should_quit: bool,
    pub last_fetched_song: (String, String),
}

/// The content of an `App`.
pub struct AppModel {
    pub player: PlayerModel,
    pub lyrics: LyricsModel,
    pub manual_scroll_offset: Option<isize>,
    pub should_quit: bool,
    pub last_fetched_song: (Seq<char>, Seq<char>),
}

impl View for App {
    type V = AppModel;

    open spec fn view(&self) -> AppModel {
        AppModel {
            player: self.player@,
            lyrics: self.lyrics@,
            manual_scroll_offset: self.manual_scroll_offset,
            should_quit: self.should_quit,
            last_fetched_song: (self.last_fetched_song.0@, self.last_fetched_song.1@),
        }
    }
}

/// The distance between two positions.
pub open spec fn distance(a: u64, b: u64) -> nat {
    if a >= b {
        (a - b) as nat
    } else {
        (b - a) as nat
    }
}

/// A tick: a newly seen player state replaces the old one, and a jump of
/// more than 1.5 s drops the user's scroll offset; when the player has a
/// titled track other than the one last fetched, it becomes the last
/// fetched and its lyrics are requested.
pub open spec fn tick(m: AppModel, state: Option<PlayerModel>) -> (AppModel, Option<RequestModel>) {
    let player = match state {
        Some(s) => s,
        None => m.player,
    };
    let offset = match state {
        Some(s) => if distance(s.position_us, m.player.position_us) > 1_500_000 {
            None
        } else {
            m.manual_scroll_offset
        },
        None => m.manual_scroll_offset,
    };
    let song = (player.metadata.artist, player.metadata.title);
    let fetch = player.metadata.title.len() > 0 && song != m.last_fetched_song;
    (
        AppModel {
            player,
            lyrics: m.lyrics,
            manual_scroll_offset: offset,
            should_quit: m.should_quit,
            last_fetched_song: if fetch {
                song
            } else {
                m.last_fetched_song
            },
        },
        if fetch {
            Some(request_for(player))
        } else {
            None
        },
    )
}

/// The scroll offset after one step up (`-1`) or down (`+1`) from the
/// current one (none counts as 0).
pub open spec fn scrolled(offset: Option<isize>, step: int) -> Option<isize> {
    Some(
        (match offset {
            Some(o) => o as int,
            None => 0,
        } + step) as isize,
    )
}

/// The state after a key.
pub open spec fn after_key(m: AppModel, k: KeyPress) -> AppModel {
    match key_effect(k) {
        KeyEffect::Quit => AppModel { should_quit: true, ..m },
        KeyEffect::ScrollUp => AppModel { manual_scroll_offset: scrolled(m.manual_scroll_offset, -1), ..m },
        KeyEffect::ScrollDown => AppModel { manual_scroll_offset: scrolled(m.manual_scroll_offset, 1), ..m },
        KeyEffect::Recenter => AppModel { manual_scroll_offset: None, ..m },
        _ => m,
    }
}

/// The request a key makes: `r` asks for the lyrics of a titled track again.
pub open spec fn key_request(m: AppModel, k: KeyPress) -> Option<RequestModel> {
    match key_effect(k) {
        KeyEffect::Refetch => if m.player.metadata.title.len() > 0 {
            Some(request_for(m.player))
        } else {
            None
        },
        _ => None,
    }
}

/// Whether a key can be handled without the scroll offset overflowing.
pub open spec fn key_in_range(m: AppModel, k: KeyPress) -> bool {
    let o = match m.manual_scroll_offset {
        Some(o) => o as int,
        None => 0,
    };
    match key_effect(k) {
        KeyEffect::ScrollUp => o > isize::MIN,
        KeyEffect::ScrollDown => o < isize::MAX,
        _ => true,
    }
}

impl App {
    /// The state at start: no player seen, the placeholder lyrics, following
    /// the current line, nothing fetched yet.
    pub fn new() -> (r: App)
        ensures
            r@.player == (PlayerModel { metadata: crate::player::TrackModel::blank(), position_us: 0 }),
            r@.lyrics == LyricsModel::empty(),
            r@.manual_scroll_offset is None,
            !r@.should_quit,
            r@.last_fetched_song == (Seq::<char>::empty(), Seq::<char>::empty()),
    {
        App {
            player: PlayerState::default(),
            lyrics: LyricsData::empty(),
            manual_scroll_offset: None,
            should_quit: false,
            last_fetched_song: (String::new(), String::new()),
        }
    }

    /// The request for the lyrics of the current track.
    pub fn fetch_lyrics_for_current_song(&self) -> (r: LyricsRequest)
        ensures
            r@ == request_for(self.player@),
    {
        let md = &self.player.metadata;
        LyricsRequest {
            artist: md.artist.clone(),
            title: clean_title(md.title.as_str()),
            album: if md.album.as_str().is_empty() {
                None
            } else {
                Some(md.album.clone())
            },
            duration_sec: if md.duration_sec > 0 {
                Some(md.duration_sec)
            } else {
                None
            },
        }
    }

    /// Shows fetched lyrics, following the current line again.
    pub fn receive_lyrics(&mut self, lyrics: LyricsData)
        ensures
            final(self)@ == (AppModel { lyrics: lyrics@, manual_scroll_offset: None, ..old(self)@ }),
    {
        self.lyrics = lyrics;
        self.manual_scroll_offset = None;
    }

    /// A tick with the player state just seen (if any); gives the request
    /// for lyrics when a new track appeared.
    pub fn on_tick(&mut self, state: Option<PlayerState>) -> (r: Option<LyricsRequest>)
        ensures
            ({
                let (m, req) = tick(
                    old(self)@,
                    match state {
                        Some(s) => Some(s@),
                        None => None,
                    },
                );
                &&& final(self)@ == m
                &&& match r {
                    Some(x) => req == Some(x@),
                    None => req is None,
                }
            }),
    {
        match state {
            Some(s) => {
                let a = s.position_us;
                let b = self.player.position_us;
                let diff = if a >= b {
                    a - b
                } else {
                    b - a
                };
                if diff > 1_500_000 {
                    self.manual_scroll_offset = None;
                }
                self.player = s;
            },
            None => {},
        }
        let title = self.player.metadata.title.clone();
        let artist = self.player.metadata.artist.clone();
        let same = str_equal(artist.as_str(), self.last_fetched_song.0.as_str()) && str_equal(
            title.as_str(),
            self.last_fetched_song.1.as_str(),
        );
        if !title.as_str().is_empty() && !same {
            self.last_fetched_song = (artist, title);
            Some(self.fetch_lyrics_for_current_song())
        } else {
            None
        }
    }

    /// Handles a key press; gives what the caller must do beyond it.
    pub fn handle_key_event(&mut self, key: KeyPress) -> (r: KeyAction)
        requires
            key_in_range(old(self)@, key),
        ensures
            final(self)@ == after_key(old(self)@, key),
            match r {
                KeyAction::Refetch(x) => key_request(old(self)@, key) == Some(x@),
                KeyAction::Nothing => key_request(old(self)@, key) is None,
            },
    {
        let is_q = key.code == KeyCode::Char('q');
        let is_c = key.code == KeyCode::Char('c');
        if is_q || (is_c && key.control_only) {
            self.should_quit = true;
            KeyAction::Nothing
        } else if key.code == KeyCode::Up || key.code == KeyCode::Char('k') {
            let current = match self.manual_scroll_offset {
                Some(o) => o,
                None => 0,
            };
            self.manual_scroll_offset = Some(current - 1);
            KeyAction::Nothing
        } else if key.code == KeyCode::Down || key.code == KeyCode::Char('j') {
            let current = match self.manual_scroll_offset {
                Some(o) => o,
                None => 0,
            };
            self.manual_scroll_offset = Some(current + 1);
            KeyAction::Nothing
        } else if is_c {
            self.manual_scroll_offset = None;
            KeyAction::Nothing
        } else if key.code == KeyCode::Char('r') {
            if self.player.metadata.title.as_str().is_empty() {
                return KeyAction::Nothing;
            }
            KeyAction::Refetch(self.fetch_lyrics_for_current_song())
        } else {
            KeyAction::Nothing
        }
    }
}

// ---------------------------------------------------------------------------
// Laws
// ---------------------------------------------------------------------------

/// Scrolling up and then down (or down and then up) returns the user's
/// scroll offset to where it was.
pub proof fn law_scroll_round_trip(m: AppModel, up: KeyPress, down: KeyPress, x: isize)
    requires
        m.manual_scroll_offset == Some(x),
        key_effect(up) is ScrollUp,
        key_effect(down) is ScrollDown,
    ensures
        x > isize::MIN ==> after_key(after_key(m, up), down) == m,
        x < isize::MAX ==> after_key(after_key(m, down), up) == m,
{
}

/// Lyrics are requested once per track: a second tick that sees the same
/// player state requests nothing.
pub proof fn law_tick_requests_once(m: AppModel, s: PlayerModel)
    ensures
        tick(tick(m, Some(s)).0, Some(s)).1 is None,
{
}

/// Re-centring drops the user's scroll offset, whatever it was.
pub proof fn law_recenter(m: AppModel, k: KeyPress)
    requires
        key_effect(k) is Recenter,
    ensures
        after_key(m, k).manual_scroll_offset is None,
        key_request(m, k) is None,
{
}

/// A title loses its last bracketed part exactly when that part, lower-cased,
/// contains one of the words official, video, lyric, audio, hd, remaster,
/// live or acoustic: the title is then trimmed and cut before the bracket
/// (and trimmed again), and otherwise only trimmed. Here the part opens at
/// `s` with the last `(` or `[` of the trimmed title and closes at `e` with
/// the first matching bracket after it.
pub proof fn law_clean_title_noise(title: Seq<char>, s: int, e: int)
    requires
        0 <= s < e < trim(title).len(),
        (trim(title)[s] == '(' && trim(title)[e] == ')') || (trim(title)[s] == '[' && trim(title)[e]
            == ']'),
        forall|j: int| s < j < trim(title).len() ==> trim(title)[j] != '(' && trim(title)[j] != '[',
        forall|j: int| s < j < e ==> trim(title)[j] != trim(title)[e],
    ensures
        ({
            let lower = lowercase(trim(title).subrange(s + 1, e));
            let noisy = contains_seq(lower, "official"@) || contains_seq(lower, "video"@)
                || contains_seq(lower, "lyric"@) || contains_seq(lower, "audio"@) || contains_seq(
                lower,
                "hd"@,
            ) || contains_seq(lower, "remaster"@) || contains_seq(lower, "live"@) || contains_seq(
                lower,
                "acoustic"@,
            );
            clean_title_spec(title) == if noisy {
                trim_end(trim(title).subrange(0, s))
            } else {
                trim(title)
            }
        }),
{
    let t = trim(title);
    lemma_rfind(t, '(');
    lemma_rfind(t, '[');
    assert(bracket_start(t) == Some(s));
    let close = t[e];
    lemma_find_from(t, close, s);
    assert(find_from(t, close, s) == Some(e));
    let lower = lowercase(t.subrange(s + 1, e));
    let w = noise_words();
    assert(w[0] == "official"@ && w[1] == "video"@ && w[2] == "lyric"@ && w[3] == "audio"@ && w[4]
        == "hd"@ && w[5] == "remaster"@ && w[6] == "live"@ && w[7] == "acoustic"@);
    if has_noise(lower) {
        let i = choose|i: int| 0 <= i < w.len() && contains_seq(lower, #[trigger] w[i]);
        assert(0 <= i < 8);
    }
}

/// A tick asks for lyrics exactly when the player (as just seen, or as last
/// seen when nothing was) has a track with a non-empty title whose artist or
/// title differs from the last fetched pair. The request then names that
/// artist, the cleaned title, the album when known and the duration when
/// known, and that pair becomes the last fetched one;
/// otherwise the last fetched pair stays.
pub proof fn law_tick_requests_new_tracks(m: AppModel, state: Option<PlayerModel>)
    ensures
        ({
            let p = match state {
                Some(s) => s,
                None => m.player,
            };
            let (m2, req) = tick(m, state);
            let new_track = p.metadata.title.len() > 0 && (p.metadata.artist != m.last_fetched_song.0
                || p.metadata.title != m.last_fetched_song.1);
            &&& (req is Some <==> new_track)
            &&& new_track ==> req->0.artist == p.metadata.artist && req->0.title == clean_title_spec(
                p.metadata.title,
            ) && m2.last_fetched_song == (p.metadata.artist, p.metadata.title)
            &&& new_track ==> (req->0.album is None <==> p.metadata.album.len() == 0) && (
            p.metadata.album.len() > 0 ==> req->0.album == Some(p.metadata.album))
            &&& new_track ==> (req->0.duration_sec is None <==> p.metadata.duration_sec == 0) && (
            p.metadata.duration_sec > 0 ==> req->0.duration_sec == Some(p.metadata.duration_sec))
            &&& !new_track ==> m2.last_fetched_song == m.last_fetched_song
            &&& m2.player == p
        }),
{
}

/// A tick drops the user's scroll offset exactly when the newly seen
/// position is more than 1.5 s away from the last one; otherwise it keeps it.
pub proof fn law_tick_jump_drops_offset(m: AppModel, s: PlayerModel)
    ensures
        (s.position_us > m.player.position_us + 1_500_000 || m.player.position_us > s.position_us
            + 1_500_000) ==> tick(m, Some(s)).0.manual_scroll_offset is None,
        (s.position_us <= m.player.position_us + 1_500_000 && m.player.position_us <= s.position_us
            + 1_500_000) ==> tick(m, Some(s)).0.manual_scroll_offset == m.manual_scroll_offset,
        tick(m, None).0.manual_scroll_offset == m.manual_scroll_offset,
{
}

} // verus!
