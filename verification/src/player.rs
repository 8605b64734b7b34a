//! What is known of the media player: its playback status, the current
//! track, and the playback position.
use vstd::prelude::*;

verus! {

/// Whether the player plays.
#[derive(Debug, Clone, Copy, PartialEq, Eq, Structural)]
pub enum PlaybackStatus {
    Playing,
    Paused,
    Stopped,
}

/// The status that an MPRIS `PlaybackStatus` property names.
pub open spec fn status_of(s: Option<Seq<char>>) -> PlaybackStatus {
    match s {
        Some(x) => if x == "Playing"@ {
            PlaybackStatus::Playing
        } else if x == "Paused"@ {
            PlaybackStatus::Paused
        } else {
            PlaybackStatus::Stopped
        },
        None => PlaybackStatus::Stopped,
    }
}

impl PlaybackStatus {
    /// The status named by an MPRIS `PlaybackStatus` value: `"Playing"`,
    /// `"Paused"`, and anything else (or nothing) is stopped.
    pub fn from_mpris(s: Option<&str>) -> (r: PlaybackStatus)
        ensures
            r == status_of(
                match s {
                    Some(x) => Some(x@),
                    None => None,
                },
            ),
    {
        match s {
            Some(x) => {
                if crate::lrc::str_equal(x, "Playing") {
                    PlaybackStatus::Playing
                } else if crate::lrc::str_equal(x, "Paused") {
                    PlaybackStatus::Paused
                } else {
                    PlaybackStatus::Stopped
                }
            },
            None => PlaybackStatus::Stopped,
        }
    }
}

/// The content of a `TrackMetadata`.
pub struct TrackModel {
    pub title: Seq<char>,
    pub artist: Seq<char>,
    pub album: Seq<char>,
    pub duration_sec: u64,
}

impl TrackModel {
    /// No track: empty texts, no duration.
    pub open spec fn blank() -> TrackModel {
        TrackModel { title: seq![], artist: seq![], album: seq![], duration_sec: 0 }
    }
}

/// The current track: title, artist, album, and its duration in seconds
/// (0 when unknown).
#[derive(Debug)]
pub struct TrackMetadata {
    pub title: String,
    pub artist: String,
    pub album: String,
    pub duration_sec: u64,
}

impl View for TrackMetadata {
    type V = TrackModel;

    open spec fn view(&self) -> TrackModel {
        TrackModel {
            title: self.title@,
            artist: self.artist@,
            album: self.album@,
            duration_sec: self.duration_sec,
        }
    }
}

impl Clone for TrackMetadata {
    fn clone(&self) -> (r: Self)
        ensures
            r@ == self@,
    {
        TrackMetadata {
            title: self.title.clone(),
            artist: self.artist.clone(),
            album: self.album.clone(),
            duration_sec: self.duration_sec,
        }
    }
}

impl Default for TrackMetadata {
    fn default() -> (r: Self)
        ensures
            r@ == TrackModel::blank(),
    {
        TrackMetadata {
            title: String::new(),
            artist: String::new(),
            album: String::new(),
            duration_sec: 0,
        }
    }
}

/// The content of a `PlayerState`.
pub struct PlayerModel {
    pub metadata: TrackModel,
    pub position_us: u64,
}

/// The current track and the playback position in it (microseconds).
#[derive(Debug)]
pub struct PlayerState {
    pub metadata: TrackMetadata,
    pub position_us: u64,
}

impl View for PlayerState {
    type V = PlayerModel;

    open spec fn view(&self) -> PlayerModel {
        PlayerModel { metadata: self.metadata@, position_us: self.position_us }
    }
}

impl Clone for PlayerState {
    fn clone(&self) -> (r: Self)
        ensures
            r@ == self@,
    {
        PlayerState { metadata: self.metadata.clone(), position_us: self.position_us }
    }
}

impl Default for PlayerState {
    fn default() -> (r: Self)
        ensures
            r@ == (PlayerModel { metadata: TrackModel::blank(), position_us: 0 }),
    {
        PlayerState { metadata: TrackMetadata::default(), position_us: 0 }
    }
}

} // verus!
