//! What the lyrics pane shows: which line is current, how far the pane is
//! scrolled, and when the "Not Synced" badge appears.
use vstd::prelude::*;
use crate::lrc::{LyricsData, LyricsModel};

verus! {

/// What the lyrics pane shows.
#[derive(Debug, Clone, Copy, PartialEq, Eq, Structural)]
pub enum LyricsPlan {
    /// The centred message "No lyrics found".
    NoLyrics,
    /// The centred instrumental-track message.
    Instrumental,
    /// Timed lines, `current` highlighted, scrolled down by `scroll` lines.
    Synced { current: usize, scroll: u16 },
    /// Plain lines, scrolled down by `scroll` lines.
    Plain { scroll: u16 },
}

/// The last index whose line starts at or before `pos`.
pub open spec fn last_started(lines: Seq<(i64, Seq<char>)>, pos: u64) -> Option<int>
    decreases lines.len(),
{
    if lines.len() == 0 {
        None
    } else if lines.last().0 <= pos {
        Some(lines.len() - 1)
    } else {
        last_started(lines.drop_last(), pos)
    }
}

/// The current line: the last one that has started, or the first.
pub open spec fn current_line(lines: Seq<(i64, Seq<char>)>, pos: u64) -> int {
    match last_started(lines, pos) {
        Some(i) => i,
        None => 0,
    }
}

/// The scroll that keeps the current line in the middle of a pane of
/// `height` rows (one row kept free).
pub open spec fn auto_scroll(current: int, height: u16) -> int {
    let rows = if height >= 1 {
        height - 1
    } else {
        0
    };
    if current >= rows / 2 {
        current - rows / 2
    } else {
        0
    }
}

/// The furthest scroll for `len` lines.
pub open spec fn max_scroll(len: nat) -> int {
    if len == 0 {
        0
    } else {
        len - 1
    }
}

/// `v` held to `[lo, hi]`.
pub open spec fn clamp(v: int, lo: int, hi: int) -> int {
    if v < lo {
        lo
    } else if v > hi {
        hi
    } else {
        v
    }
}

/// What the pane shows for `l` at position `pos`, with the user's scroll
/// offset and `height` rows: nothing-found for empty lyrics; for synced
/// lyrics the current line, scrolled to keep it centred and then moved by the
/// user's offset within the lines; for plain lyrics the instrumental message,
/// or the lines scrolled by the user's offset within them.
pub open spec fn plan_of(l: LyricsModel, pos: u64, offset: Option<isize>, height: u16) -> LyricsPlan {
    if l.is_empty() {
        LyricsPlan::NoLyrics
    } else if l.synced {
        let current = current_line(l.lines, pos);
        let auto = auto_scroll(current, height);
        let scroll = match offset {
            Some(o) => clamp(auto + o, 0, max_scroll(l.lines.len())),
            None => auto,
        };
        LyricsPlan::Synced { current: current as usize, scroll: scroll as u16 }
    } else if l.is_instrumental() {
        LyricsPlan::Instrumental
    } else {
        let o = match offset {
            Some(o) => o as int,
            None => 0,
        };
        LyricsPlan::Plain { scroll: clamp(o, 0, max_scroll(l.plain_lines.len())) as u16 }
    }
}

/// Whether the user's offset, added to the centring scroll of synced lyrics,
/// stays within `isize` (the sum is computed in `isize`).
pub open spec fn offset_in_range(l: LyricsModel, pos: u64, offset: Option<isize>, height: u16) -> bool {
    l.synced && !l.is_empty() ==> (offset matches Some(o) ==> auto_scroll(
        current_line(l.lines, pos),
        height,
    ) + o <= isize::MAX)
}

fn current_index(lyrics: &LyricsData, position_us: u64) -> (r: usize)
    ensures
        r as int == current_line(lyrics@.lines, position_us),
{
    let ghost lv = lyrics@.lines;
    let mut i = lyrics.lines.len();
    assert(lv.subrange(0, i as int) =~= lv);
    while i > 0 && (lyrics.lines[i - 1].time_us as i128) > (position_us as i128)
        invariant
            i <= lv.len() == lyrics.lines@.len(),
            lv == crate::lrc::lines_view(lyrics.lines@),
            last_started(lv, position_us) == last_started(lv.subrange(0, i as int), position_us),
        decreases i,
    {
        assert(lv.subrange(0, i as int).drop_last() =~= lv.subrange(0, i - 1));
        i = i - 1;
    }
    let current: usize = if i == 0 {
        0
    } else {
        i - 1
    };
    assert(current as int == current_line(lv, position_us)) by {
        if i == 0 {
            assert(lv.subrange(0, 0) =~= Seq::<(i64, Seq<char>)>::empty());
        } else {
            assert(lv.subrange(0, i as int).last() == lv[i - 1]);
        }
    }
    current
}

fn auto_scroll_of(current: usize, height: u16) -> (r: usize)
    ensures
        r as int == auto_scroll(current as int, height),
{
    let rows: u16 = if height >= 1 {
        height - 1
    } else {
        0
    };
    let half = (rows / 2) as usize;
    if current >= half {
        current - half
    } else {
        0
    }
}

/// Whether `plan_lyrics` can be asked for these arguments.
pub fn scroll_offset_in_range(lyrics: &LyricsData, position_us: u64, manual_scroll_offset: Option<isize>, height: u16) -> (r: bool)
    ensures
        r == offset_in_range(lyrics@, position_us, manual_scroll_offset, height),
{
    if !lyrics.synced || lyrics.is_empty() {
        return true;
    }
    match manual_scroll_offset {
        Some(o) => {
            let auto = auto_scroll_of(current_index(lyrics, position_us), height);
            (auto as i128) + (o as i128) <= isize::MAX as i128
        },
        None => true,
    }
}

/// Plans the lyrics pane.
pub fn plan_lyrics(lyrics: &LyricsData, position_us: u64, manual_scroll_offset: Option<isize>, height: u16) -> (r:
    LyricsPlan)
    requires
        offset_in_range(lyrics@, position_us, manual_scroll_offset, height),
    ensures
        r == plan_of(lyrics@, position_us, manual_scroll_offset, height),
{
    if lyrics.is_empty() {
        return LyricsPlan::NoLyrics;
    }
    if lyrics.synced {
        let current = current_index(lyrics, position_us);
        let auto = auto_scroll_of(current, height);
        let len = lyrics.lines.len();
        let max: usize = if len == 0 {
            0
        } else {
            len - 1
        };
        let scroll: usize = match manual_scroll_offset {
            Some(o) => {
                let moved: i128 = auto as i128 + o as i128;
                if moved < 0 {
                    0
                } else if moved > max as i128 {
                    max
                } else {
                    moved as usize
                }
            },
            None => auto,
        };
        LyricsPlan::Synced { current, scroll: #[verifier::truncate] (scroll as u16) }
    } else if lyrics.is_instrumental() {
        LyricsPlan::Instrumental
    } else {
        let len = lyrics.plain_lines.len();
        let max: usize = if len == 0 {
            0
        } else {
            len - 1
        };
        let o: isize = match manual_scroll_offset {
            Some(o) => o,
            None => 0,
        };
        let scroll: usize = if o < 0 {
            0
        } else if o as usize > max {
            max
        } else {
            o as usize
        };
        LyricsPlan::Plain { scroll: #[verifier::truncate] (scroll as u16) }
    }
}

/// Whether the "Not Synced" badge shows: for lyrics that are not synced but
/// show words (neither empty nor instrumental), while a track with a title
/// plays.
pub fn show_not_synced_badge(lyrics: &LyricsData, title: &str) -> (r: bool)
    ensures
        r == (!lyrics@.synced && !lyrics@.is_empty() && !lyrics@.is_instrumental() && title@.len() > 0),
{
    let has_lyrics = !lyrics.is_empty() && !lyrics.is_instrumental();
    !lyrics.synced && has_lyrics && !title.is_empty()
}

/// The pane never scrolls past the lyrics: with a user's offset, synced
/// lyrics scroll to at most their last line, and plain lyrics likewise.
pub proof fn law_scroll_within_lines(l: LyricsModel, pos: u64, o: isize, height: u16)
    ensures
        l.synced ==> clamp(
            auto_scroll(current_line(l.lines, pos), height) + o,
            0,
            max_scroll(l.lines.len()),
        ) <= max_scroll(l.lines.len()),
        clamp(o as int, 0, max_scroll(l.plain_lines.len())) <= max_scroll(l.plain_lines.len()),
        0 <= clamp(o as int, 0, max_scroll(l.plain_lines.len())),
{
}

/// Without a user's offset, synced lyrics keep the current line in the
/// middle of the pane: with `rows` the pane's rows less one (none for an
/// empty pane), the scroll is the current line less half the rows, or 0 when
/// the current line is nearer the top than that; the current line is the
/// last one that has started (the first when none has).
pub proof fn law_synced_scroll_centres_current(l: LyricsModel, pos: u64, height: u16)
    requires
        l.synced,
        !l.is_empty(),
    ensures
        ({
            let c = current_line(l.lines, pos);
            let rows: int = if height >= 1 {
                height - 1
            } else {
                0
            };
            let centred: int = if c >= rows / 2 {
                c - rows / 2
            } else {
                0
            };
            &&& plan_of(l, pos, None, height) == (LyricsPlan::Synced {
                current: c as usize,
                scroll: centred as u16,
            })
            &&& c >= rows / 2 ==> centred + rows / 2 == c
            &&& match last_started(l.lines, pos) {
                Some(i) => c == i && l.lines[i].0 <= pos && forall|j: int|
                    i < j < l.lines.len() ==> l.lines[j].0 > pos,
                None => c == 0 && forall|j: int| 0 <= j < l.lines.len() ==> l.lines[j].0 > pos,
            }
        }),
{
    lemma_last_started(l.lines, pos);
}

/// What `last_started` gives is the last line that has started.
pub proof fn lemma_last_started(lines: Seq<(i64, Seq<char>)>, pos: u64)
    ensures
        match last_started(lines, pos) {
            Some(i) => 0 <= i < lines.len() && lines[i].0 <= pos && forall|j: int|
                i < j < lines.len() ==> lines[j].0 > pos,
            None => forall|j: int| 0 <= j < lines.len() ==> lines[j].0 > pos,
        },
    decreases lines.len(),
{
    if lines.len() > 0 && !(lines.last().0 <= pos) {
        lemma_last_started(lines.drop_last(), pos);
        assert(forall|j: int| 0 <= j < lines.len() - 1 ==> lines.drop_last()[j] == lines[j]);
    }
}

} // verus!
