//! The MPRIS side: reading D-Bus property values, choosing the player, and
//! tracking the playback position between the player's reports.
use vstd::prelude::*;
use crate::lrc::str_equal;
use crate::player::{PlaybackStatus, PlayerModel, PlayerState, TrackMetadata, TrackModel, status_of};
use crate::text::{
    chars_eq_ignore_ascii_case, chars_of, copy_range, eq_ignore_ascii_case, find_char, find_from,
    lemma_find_from, string_of, strings_view,
};

verus! {

broadcast use vstd::seq_lib::group_seq_properties;

/// A D-Bus value as MPRIS properties carry it: the kinds that are read
/// here, and `Other` for the rest.
#[derive(Debug)]
pub enum MprisValue {
    Str(String),
    U64(u64),
    I64(i64),
    U32(u32),
    I32(i32),
    Array(Vec<MprisValue>),
    Dict(Vec<(MprisValue, MprisValue)>),
    Variant(Box<MprisValue>),
    Other,
}

/// The text a value holds, looking through variants.
pub open spec fn str_of(v: MprisValue) -> Option<Seq<char>>
    decreases v,
{
    match v {
        MprisValue::Str(s) => Some(s@),
        MprisValue::Variant(inner) => str_of(*inner),
        _ => None,
    }
}

/// The unsigned number a value holds, looking through variants; negative
/// signed numbers count as 0.
pub open spec fn u64_of(v: MprisValue) -> Option<u64>
    decreases v,
{
    match v {
        MprisValue::U64(u) => Some(u),
        MprisValue::I64(i) => Some(
            if i < 0 {
                0u64
            } else {
                i as u64
            },
        ),
        MprisValue::U32(u) => Some(u as u64),
        MprisValue::I32(i) => Some(
            if i < 0 {
                0u64
            } else {
                i as u64
            },
        ),
        MprisValue::Variant(inner) => u64_of(*inner),
        _ => None,
    }
}

/// The text a value holds.
pub fn extract_str(val: &MprisValue) -> (r: Option<String>)
    ensures
        match r {
            Some(s) => str_of(*val) == Some(s@),
            None => str_of(*val) is None,
        },
    decreases val,
{
    match val {
        MprisValue::Str(s) => Some(s.clone()),
        MprisValue::Variant(inner) => extract_str(inner),
        _ => None,
    }
}

/// The unsigned number a value holds.
pub fn extract_u64(val: &MprisValue) -> (r: Option<u64>)
    ensures
        r == u64_of(*val),
    decreases val,
{
    match val {
        MprisValue::U64(u) => Some(*u),
        MprisValue::I64(i) => Some(
            if *i < 0 {
                0u64
            } else {
                *i as u64
            },
        ),
        MprisValue::U32(u) => Some(*u as u64),
        MprisValue::I32(i) => Some(
            if *i < 0 {
                0u64
            } else {
                *i as u64
            },
        ),
        MprisValue::Variant(inner) => extract_u64(inner),
        _ => None,
    }
}

/// The value of the first entry whose key is the text `key` (entries whose
/// key is not text are passed over).
pub open spec fn entries_lookup(entries: Seq<(MprisValue, MprisValue)>, key: Seq<char>) -> Option<
    MprisValue,
>
    decreases entries.len(),
{
    if entries.len() == 0 {
        None
    } else {
        match entries[0].0 {
            MprisValue::Str(k) => if k@ == key {
                Some(entries[0].1)
            } else {
                entries_lookup(entries.drop_first(), key)
            },
            _ => entries_lookup(entries.drop_first(), key),
        }
    }
}

/// The value that a dictionary (looking through variants) holds under
/// `key`.
pub open spec fn dict_lookup(v: MprisValue, key: Seq<char>) -> Option<MprisValue>
    decreases v,
{
    match v {
        MprisValue::Dict(entries) => entries_lookup(entries@, key),
        MprisValue::Variant(inner) => dict_lookup(*inner, key),
        _ => None,
    }
}

/// The value that a dictionary holds under `key`.
pub fn dict_get<'a>(val: &'a MprisValue, key: &str) -> (r: Option<&'a MprisValue>)
    ensures
        match r {
            Some(x) => dict_lookup(*val, key@) == Some(*x),
            None => dict_lookup(*val, key@) is None,
        },
    decreases val,
{
    match val {
        MprisValue::Dict(dict) => {
            let mut i: usize = 0;
            assert(dict@.subrange(0, dict@.len() as int) =~= dict@);
            while i < dict.len()
                invariant
                    i <= dict@.len(),
                    dict_lookup(*val, key@) == entries_lookup(dict@, key@),
                    entries_lookup(dict@, key@) == entries_lookup(dict@.subrange(i as int, dict@.len() as int), key@),
                decreases dict@.len() - i,
            {
                let ghost rest = dict@.subrange(i as int, dict@.len() as int);
                assert(rest.drop_first() =~= dict@.subrange(i + 1, dict@.len() as int));
                match &dict[i].0 {
                    MprisValue::Str(k) => {
                        if str_equal(k.as_str(), key) {
                            return Some(&dict[i].1);
                        }
                    },
                    _ => {},
                }
                i = i + 1;
            }
            None
        },
        MprisValue::Variant(inner) => dict_get(inner, key),
        _ => None,
    }
}

/// The text held under `key` in a dictionary.
pub fn dict_str(val: &MprisValue, key: &str) -> (r: Option<String>)
    ensures
        match r {
            Some(s) => dict_lookup(*val, key@) matches Some(e) && str_of(e) == Some(s@),
            None => dict_lookup(*val, key@) matches Some(e) ==> str_of(e) is None,
        },
{
    match dict_get(val, key) {
        Some(entry) => extract_str(entry),
        None => None,
    }
}

/// The unsigned number held under `key` in a dictionary.
pub fn dict_u64(val: &MprisValue, key: &str) -> (r: Option<u64>)
    ensures
        r == match dict_lookup(*val, key@) {
            Some(e) => u64_of(e),
            None => None,
        },
{
    match dict_get(val, key) {
        Some(entry) => extract_u64(entry),
        None => None,
    }
}

/// The texts among the values of an array, in order.
pub open spec fn strs_in(arr: Seq<MprisValue>) -> Seq<Seq<char>>
    decreases arr.len(),
{
    if arr.len() == 0 {
        seq![]
    } else {
        let rest = strs_in(arr.drop_last());
        match str_of(arr.last()) {
            Some(s) => rest.push(s),
            None => rest,
        }
    }
}

/// The texts `names` joined by `sep`.
pub open spec fn join(names: Seq<Seq<char>>, sep: Seq<char>) -> Seq<char>
    decreases names.len(),
{
    if names.len() == 0 {
        seq![]
    } else if names.len() == 1 {
        names[0]
    } else {
        join(names.drop_last(), sep) + sep + names.last()
    }
}

/// The artist a value names: for an array, its texts joined by `", "`
/// (none when it holds no text); otherwise the text it holds.
pub open spec fn artist_of(v: MprisValue) -> Option<Seq<char>>
    decreases v,
{
    match v {
        MprisValue::Array(arr) => {
            let names = strs_in(arr@);
            if names.len() == 0 {
                None
            } else {
                Some(join(names, ", "@))
            }
        },
        MprisValue::Variant(inner) => artist_of(*inner),
        _ => str_of(v),
    }
}

/// Joins texts with a separator.
pub fn join_strings(names: &Vec<String>, sep: &str) -> (r: String)
    ensures
        r@ == join(strings_view(names@), sep@),
{
    let mut r = String::new();
    let mut i: usize = 0;
    while i < names.len()
        invariant
            i <= names@.len(),
            r@ == join(strings_view(names@).subrange(0, i as int), sep@),
        decreases names@.len() - i,
    {
        let ghost prev = strings_view(names@).subrange(0, i as int);
        let ghost next = strings_view(names@).subrange(0, i + 1);
        assert(next.drop_last() =~= prev);
        if i > 0 {
            r.append(sep);
        }
        r.append(names[i].as_str());
        assert(r@ =~= join(next, sep@)) by {
            if i == 0 {
                assert(prev.len() == 0);
            }
        }
        i = i + 1;
    }
    assert(strings_view(names@).subrange(0, names@.len() as int) =~= strings_view(names@));
    r
}

/// The artist a value names.
pub fn extract_artist(val: &MprisValue) -> (r: Option<String>)
    ensures
        match r {
            Some(s) => artist_of(*val) == Some(s@),
            None => artist_of(*val) is None,
        },
    decreases val,
{
    match val {
        MprisValue::Array(arr) => {
            let mut names: Vec<String> = Vec::new();
            let mut i: usize = 0;
            while i < arr.len()
                invariant
                    i <= arr@.len(),
                    strings_view(names@) == strs_in(arr@.subrange(0, i as int)),
                decreases arr@.len() - i,
            {
                assert(arr@.subrange(0, i + 1).drop_last() =~= arr@.subrange(0, i as int));
                let ghost old_n = names@;
                match extract_str(&arr[i]) {
                    Some(s) => {
                        names.push(s);
                        assert(strings_view(names@) =~= strings_view(old_n).push(names@.last()@));
                    },
                    None => {},
                }
                i = i + 1;
            }
            assert(arr@.subrange(0, arr@.len() as int) =~= arr@);
            if names.len() == 0 {
                None
            } else {
                Some(join_strings(&names, ", "))
            }
        },
        MprisValue::Variant(inner) => extract_artist(inner),
        _ => extract_str(val),
    }
}

/// The artist held under `key` in a dictionary.
pub fn dict_artist(val: &MprisValue, key: &str) -> (r: Option<String>)
    ensures
        match r {
            Some(s) => dict_lookup(*val, key@) matches Some(e) && artist_of(e) == Some(s@),
            None => dict_lookup(*val, key@) matches Some(e) ==> artist_of(e) is None,
        },
{
    match dict_get(val, key) {
        Some(entry) => extract_artist(entry),
        None => None,
    }
}

// ---------------------------------------------------------------------------
// Choosing the player
// ---------------------------------------------------------------------------

/// The bus-name prefix of MPRIS players.
pub open spec fn mpris_prefix() -> Seq<char> {
    "org.mpris.MediaPlayer2."@
}

/// Whether `s` starts with `p`.
pub open spec fn has_prefix(s: Seq<char>, p: Seq<char>) -> bool {
    p.len() <= s.len() && s.subrange(0, p.len() as int) == p
}

/// `s` with every leading repetition of the non-empty `p` removed
/// (`str::trim_start_matches`).
pub open spec fn strip_prefixes(s: Seq<char>, p: Seq<char>) -> Seq<char>
    decreases s.len(),
{
    if p.len() > 0 && has_prefix(s, p) {
        strip_prefixes(s.subrange(p.len() as int, s.len() as int), p)
    } else {
        s
    }
}

/// The player's name in its bus name: the bus name without the MPRIS
/// prefixes, up to the first `.`.
pub open spec fn player_name(bus: Seq<char>) -> Seq<char> {
    let rest = strip_prefixes(bus, mpris_prefix());
    match find_from(rest, '.', 0) {
        Some(i) => rest.subrange(0, i),
        None => rest,
    }
}

fn starts_with_chars(s: &[char], p: &[char]) -> (r: bool)
    ensures
        r == has_prefix(s@, p@),
{
    if p.len() > s.len() {
        return false;
    }
    let mut i: usize = 0;
    while i < p.len()
        invariant
            i <= p@.len() <= s@.len(),
            forall|k: int| 0 <= k < i ==> s@[k] == p@[k],
        decreases p@.len() - i,
    {
        if s[i] != p[i] {
            assert(s@.subrange(0, p@.len() as int)[i as int] != p@[i as int]);
            return false;
        }
        i = i + 1;
    }
    assert(s@.subrange(0, p@.len() as int) =~= p@);
    true
}

/// The player's name in a bus name such as `org.mpris.MediaPlayer2.spotify`.
pub fn clean_player_name(bus_name: &str) -> (r: String)
    ensures
        r@ == player_name(bus_name@),
{
    let prefix = chars_of("org.mpris.MediaPlayer2.");
    proof {
        reveal_strlit("org.mpris.MediaPlayer2.");
    }
    let mut cur = chars_of(bus_name);
    while starts_with_chars(&cur, &prefix)
        invariant
            prefix@ == mpris_prefix(),
            prefix@.len() > 0,
            strip_prefixes(bus_name@, mpris_prefix()) == strip_prefixes(cur@, mpris_prefix()),
        decreases cur@.len(),
    {
        let n = cur.len();
        cur = copy_range(&cur, prefix.len(), n);
    }
    proof {
        lemma_find_from(cur@, '.', 0);
    }
    match find_char(&cur, '.', 0) {
        Some(i) => {
            let name = copy_range(&cur, 0, i);
            string_of(&name)
        },
        None => string_of(&cur),
    }
}

/// Whether a bus name is listed as a player: an MPRIS name whose player is
/// not `playerctld` (a proxy that forwards another player), whatever the
/// ASCII case.
pub open spec fn is_listed_player(name: Seq<char>) -> bool {
    has_prefix(name, mpris_prefix()) && !eq_ignore_ascii_case(player_name(name), "playerctld"@)
}

/// The predicate `is_listed_player`.
pub open spec fn listed() -> spec_fn(Seq<char>) -> bool {
    |n: Seq<char>| is_listed_player(n)
}

/// Lexicographic order of texts by code point (the order in which `sort`
/// puts strings, since UTF-8 keeps code point order).
pub open spec fn lex_le(a: Seq<char>, b: Seq<char>) -> bool
    decreases a.len(),
{
    if a.len() == 0 {
        true
    } else if b.len() == 0 {
        false
    } else if a[0] != b[0] {
        a[0] < b[0]
    } else {
        lex_le(a.drop_first(), b.drop_first())
    }
}

/// Any two texts are ordered one way or the other.
pub proof fn lemma_lex_total(a: Seq<char>, b: Seq<char>)
    ensures
        lex_le(a, b) || lex_le(b, a),
    decreases a.len(),
{
    if a.len() > 0 && b.len() > 0 && a[0] == b[0] {
        lemma_lex_total(a.drop_first(), b.drop_first());
    }
}

/// The order is transitive.
pub proof fn lemma_lex_trans(a: Seq<char>, b: Seq<char>, c: Seq<char>)
    requires
        lex_le(a, b),
        lex_le(b, c),
    ensures
        lex_le(a, c),
    decreases a.len(),
{
    if a.len() > 0 && b.len() > 0 && c.len() > 0 && a[0] == b[0] && b[0] == c[0] {
        lemma_lex_trans(a.drop_first(), b.drop_first(), c.drop_first());
    }
}

/// Texts in lexicographic order.
pub open spec fn sorted_lex(s: Seq<Seq<char>>) -> bool {
    forall|i: int, j: int| 0 <= i <= j < s.len() ==> lex_le(#[trigger] s[i], #[trigger] s[j])
}

fn lex_le_chars(a: &[char], b: &[char]) -> (r: bool)
    ensures
        r == lex_le(a@, b@),
{
    let mut i: usize = 0;
    assert(a@.subrange(0, a@.len() as int) =~= a@);
    assert(b@.subrange(0, b@.len() as int) =~= b@);
    loop
        invariant
            i <= a@.len(),
            i <= b@.len(),
            lex_le(a@, b@) == lex_le(
                a@.subrange(i as int, a@.len() as int),
                b@.subrange(i as int, b@.len() as int),
            ),
        decreases a@.len() - i,
    {
        if i == a.len() {
            return true;
        }
        if i == b.len() {
            return false;
        }
        if a[i] != b[i] {
            return a[i] < b[i];
        }
        assert(a@.subrange(i as int, a@.len() as int).drop_first() =~= a@.subrange(
            i + 1,
            a@.len() as int,
        ));
        assert(b@.subrange(i as int, b@.len() as int).drop_first() =~= b@.subrange(
            i + 1,
            b@.len() as int,
        ));
        i = i + 1;
    }
}

proof fn lemma_insert_sorted(s: Seq<Seq<char>>, p: int, x: Seq<char>)
    requires
        sorted_lex(s),
        0 <= p <= s.len(),
        forall|i: int| 0 <= i < p ==> !lex_le(x, #[trigger] s[i]),
        p < s.len() ==> lex_le(x, s[p]),
    ensures
        sorted_lex(s.insert(p, x)),
{
    let r = s.insert(p, x);
    assert forall|i: int, j: int| 0 <= i <= j < r.len() implies lex_le(#[trigger] r[i], #[trigger] r[j]) by {
        if i < p {
            lemma_lex_total(x, s[i]);
            if j < p {
            } else if j == p {
            } else {
                assert(r[j] == s[j - 1]);
                lemma_lex_trans(s[i], x, s[p]);
                lemma_lex_trans(s[i], s[p], s[j - 1]);
            }
        } else if i == p {
            if j == p {
                lemma_lex_total(x, x);
            } else {
                assert(r[j] == s[j - 1]);
                lemma_lex_trans(x, s[p], s[j - 1]);
            }
        } else {
            assert(r[i] == s[i - 1]);
            assert(r[j] == s[j - 1]);
        }
    }
}

/// The MPRIS players among the bus names `names`, in lexicographic order.
pub fn select_players(names: Vec<String>) -> (r: Vec<String>)
    ensures
        sorted_lex(strings_view(r@)),
        strings_view(r@).to_multiset() == strings_view(names@).filter(listed()).to_multiset(),
{
    let prefix = chars_of("org.mpris.MediaPlayer2.");
    let player_ctl = chars_of("playerctld");
    proof {
        reveal_strlit("org.mpris.MediaPlayer2.");
        reveal_strlit("playerctld");
    }
    let ghost all = strings_view(names@);
    let mut res: Vec<String> = Vec::new();
    let mut i: usize = 0;
    assert(all.subrange(0, 0).filter(listed()) =~= Seq::<Seq<char>>::empty()) by {
        reveal(Seq::filter);
    }
    while i < names.len()
        invariant
            i <= names@.len(),
            all == strings_view(names@),
            prefix@ == mpris_prefix(),
            player_ctl@ == "playerctld"@,
            sorted_lex(strings_view(res@)),
            strings_view(res@).to_multiset() == all.subrange(0, i as int).filter(
                listed(),
            ).to_multiset(),
        decreases names@.len() - i,
    {
        let ghost prev = all.subrange(0, i as int);
        assert(all.subrange(0, i + 1) =~= prev.push(all[i as int]));
        proof {
            prev.lemma_filter_push(all[i as int], listed());
        }
        let name = chars_of(names[i].as_str());
        let pname_s = clean_player_name(names[i].as_str());
        let pname = chars_of(pname_s.as_str());
        if starts_with_chars(&name, &prefix) && !chars_eq_ignore_ascii_case(&pname, &player_ctl) {
            let ghost rv = strings_view(res@);
            let mut p: usize = 0;
            while p < res.len() && !lex_le_chars(&name, &chars_of(res[p].as_str()))
                invariant
                    p <= res@.len(),
                    rv == strings_view(res@),
                    forall|k: int| 0 <= k < p ==> !lex_le(name@, #[trigger] rv[k]),
                decreases res@.len() - p,
            {
                p = p + 1;
            }
            proof {
                lemma_insert_sorted(rv, p as int, name@);
            }
            res.insert(p, names[i].clone());
            assert(strings_view(res@) =~= rv.insert(p as int, name@));
            proof {
                assert(rv.insert(p as int, name@) =~= rv.subrange(0, p as int) + (seq![name@]
                    + rv.subrange(p as int, rv.len() as int)));
                assert(rv =~= rv.subrange(0, p as int) + rv.subrange(p as int, rv.len() as int));
                vstd::seq_lib::lemma_multiset_commutative(
                    rv.subrange(0, p as int),
                    seq![name@] + rv.subrange(p as int, rv.len() as int),
                );
                vstd::seq_lib::lemma_multiset_commutative(
                    seq![name@],
                    rv.subrange(p as int, rv.len() as int),
                );
                vstd::seq_lib::lemma_multiset_commutative(
                    rv.subrange(0, p as int),
                    rv.subrange(p as int, rv.len() as int),
                );
                vstd::seq_lib::lemma_multiset_commutative(prev.filter(listed()), seq![name@]);
                assert(prev.filter(listed()).push(name@) =~= prev.filter(listed()) + seq![name@]);
                assert(strings_view(res@).to_multiset() =~= prev.filter(listed()).push(
                    name@,
                ).to_multiset());
            }
        }
        i = i + 1;
    }
    assert(all.subrange(0, names@.len() as int) =~= all);
    res
}

// ---------------------------------------------------------------------------
// What the player reports, and the position between reports
// ---------------------------------------------------------------------------

/// What the player's properties report.
pub struct PlayerProps {
    pub status: PlaybackStatus,
    pub title: Option<String>,
    pub artist: Option<String>,
    pub album: Option<String>,
    pub length_us: Option<u64>,
    pub position_us: Option<u64>,
}

/// The content of a `PlayerProps`.
pub struct PropsModel {
    pub status: PlaybackStatus,
    pub title: Option<Seq<char>>,
    pub artist: Option<Seq<char>>,
    pub album: Option<Seq<char>>,
    pub length_us: Option<u64>,
    pub position_us: Option<u64>,
}

/// The view of an optional string.
pub open spec fn opt_string_view(s: Option<String>) -> Option<Seq<char>> {
    match s {
        Some(x) => Some(x@),
        None => None,
    }
}

impl View for PlayerProps {
    type V = PropsModel;

    open spec fn view(&self) -> PropsModel {
        PropsModel {
            status: self.status,
            title: opt_string_view(self.title),
            artist: opt_string_view(self.artist),
            album: opt_string_view(self.album),
            length_us: self.length_us,
            position_us: self.position_us,
        }
    }
}

/// The text under `key` in an optional dictionary.
pub open spec fn field_str(m: Option<MprisValue>, key: Seq<char>) -> Option<Seq<char>> {
    match m {
        Some(v) => match dict_lookup(v, key) {
            Some(e) => str_of(e),
            None => None,
        },
        None => None,
    }
}

/// What the properties of a player (the dictionary that `GetAll` returns)
/// report: the status, the track's title, artist, album and length from the
/// `Metadata` dictionary, and the position.
pub open spec fn props_of(props: MprisValue) -> PropsModel {
    let meta = dict_lookup(props, "Metadata"@);
    PropsModel {
        status: status_of(field_str(Some(props), "PlaybackStatus"@)),
        title: field_str(meta, "xesam:title"@),
        artist: match meta {
            Some(m) => match dict_lookup(m, "xesam:artist"@) {
                Some(e) => artist_of(e),
                None => None,
            },
            None => None,
        },
        album: field_str(meta, "xesam:album"@),
        length_us: match meta {
            Some(m) => match dict_lookup(m, "mpris:length"@) {
                Some(e) => u64_of(e),
                None => None,
            },
            None => None,
        },
        position_us: match dict_lookup(props, "Position"@) {
            Some(e) => u64_of(e),
            None => None,
        },
    }
}

/// Reads what a player's properties report.
pub fn read_player_props(props: &MprisValue) -> (r: PlayerProps)
    ensures
        r@ == props_of(*props),
{
    let status_text = dict_str(props, "PlaybackStatus");
    let status = match &status_text {
        Some(s) => PlaybackStatus::from_mpris(Some(s.as_str())),
        None => PlaybackStatus::from_mpris(None),
    };
    let position_us = dict_u64(props, "Position");
    match dict_get(props, "Metadata") {
        Some(meta) => {
            let r = PlayerProps {
                status,
                title: dict_str(meta, "xesam:title"),
                artist: dict_artist(meta, "xesam:artist"),
                album: dict_str(meta, "xesam:album"),
                length_us: dict_u64(meta, "mpris:length"),
                position_us,
            };
            r
        },
        None => PlayerProps {
            status,
            title: None,
            artist: None,
            album: None,
            length_us: None,
            position_us,
        },
    }
}

/// The content of an `MprisClient`.
pub struct TrackerModel {
    pub last_position_us: u64,
    pub last_update_us: u64,
    pub metadata: TrackModel,
}

/// Follows the active player: the last position it reported, when (on the
/// caller's microsecond clock), and what is known of the track.
pub struct MprisClient {
    pub last_position_us: u64,
    pub last_update_us: u64,
    pub last_metadata: TrackMetadata,
}

impl View for MprisClient {
    type V = TrackerModel;

    open spec fn view(&self) -> TrackerModel {
        TrackerModel {
            last_position_us: self.last_position_us,
            last_update_us: self.last_update_us,
            metadata: self.last_metadata@,
        }
    }
}

/// Learns the track from a report: a new, non-empty title different from a
/// known one starts over (position 0 at `now`, no artist, album or
/// duration); then each non-empty text reported replaces the known one, and
/// a positive length gives the duration in whole seconds.
pub open spec fn apply_metadata(s: TrackerModel, p: PropsModel, now: u64) -> TrackerModel {
    let s1 = match p.title {
        Some(t) => if t.len() > 0 {
            let base = if t != s.metadata.title && s.metadata.title.len() > 0 {
                TrackerModel { last_position_us: 0, last_update_us: now, metadata: TrackModel::blank() }
            } else {
                s
            };
            TrackerModel {
                last_position_us: base.last_position_us,
                last_update_us: base.last_update_us,
                metadata: TrackModel {
                    title: t,
                    artist: base.metadata.artist,
                    album: base.metadata.album,
                    duration_sec: base.metadata.duration_sec,
                },
            }
        } else {
            s
        },
        None => s,
    };
    let artist = match p.artist {
        Some(a) => if a.len() > 0 {
            a
        } else {
            s1.metadata.artist
        },
        None => s1.metadata.artist,
    };
    let album = match p.album {
        Some(a) => if a.len() > 0 {
            a
        } else {
            s1.metadata.album
        },
        None => s1.metadata.album,
    };
    let duration_sec = match p.length_us {
        Some(l) => if l > 0 {
            (l / 1_000_000) as u64
        } else {
            s1.metadata.duration_sec
        },
        None => s1.metadata.duration_sec,
    };
    TrackerModel {
        last_position_us: s1.last_position_us,
        last_update_us: s1.last_update_us,
        metadata: TrackModel { title: s1.metadata.title, artist, album, duration_sec },
    }
}

/// The time since the last report (none when `now` is earlier).
pub open spec fn elapsed_us(s: TrackerModel, now: u64) -> nat {
    if now >= s.last_update_us {
        (now - s.last_update_us) as nat
    } else {
        0
    }
}

/// The last reported position moved on by the time since (saturating).
pub open spec fn extrapolated_us(s: TrackerModel, now: u64) -> u64 {
    if s.last_position_us + elapsed_us(s, now) <= u64::MAX {
        (s.last_position_us + elapsed_us(s, now)) as u64
    } else {
        u64::MAX
    }
}

/// The position from a report: while playing, a reported position behind
/// the last one (a seek) or at least 10 ms from it is taken and remembered
/// with the time `now`, and a nearer one is ignored in favour of the
/// extrapolated position; when not playing, a reported position is taken
/// and remembered. Without a reported position, a playing player is
/// extrapolated and another one stays where it was.
pub open spec fn apply_position(s: TrackerModel, p: PropsModel, now: u64) -> (TrackerModel, u64) {
    match p.position_us {
        Some(pu) => if p.status == PlaybackStatus::Playing {
            if pu < s.last_position_us || pu - s.last_position_us >= 10_000 {
                (TrackerModel { last_position_us: pu, last_update_us: now, metadata: s.metadata }, pu)
            } else {
                (s, extrapolated_us(s, now))
            }
        } else {
            (TrackerModel { last_position_us: pu, last_update_us: now, metadata: s.metadata }, pu)
        },
        None => if p.status == PlaybackStatus::Playing {
            (s, extrapolated_us(s, now))
        } else {
            (s, s.last_position_us)
        },
    }
}

/// A position held to a known duration (in whole seconds).
pub open spec fn capped_us(pos: u64, duration_sec: u64) -> u64 {
    if duration_sec > 0 && pos > duration_sec * 1_000_000 {
        (duration_sec * 1_000_000) as u64
    } else {
        pos
    }
}

impl MprisClient {
    /// A client that knows no track, with position 0 as of `now_us`.
    pub fn new(now_us: u64) -> (r: MprisClient)
        ensures
            r@ == (TrackerModel { last_position_us: 0, last_update_us: now_us, metadata: TrackModel::blank() }),
    {
        MprisClient { last_position_us: 0, last_update_us: now_us, last_metadata: TrackMetadata::default() }
    }

    /// Takes in a report of the player's properties at time `now_us` and
    /// gives the player's state: the known track, and the position, held to
    /// the track's duration when that is known.
    pub fn fetch_current_state(&mut self, props: &MprisValue, now_us: u64) -> (r: PlayerState)
        ensures
            ({
                let s1 = apply_metadata(old(self)@, props_of(*props), now_us);
                let (s2, pos) = apply_position(s1, props_of(*props), now_us);
                &&& final(self)@ == s2
                &&& r@ == (PlayerModel {
                    metadata: s2.metadata,
                    position_us: capped_us(pos, s2.metadata.duration_sec),
                })
            }),
            r.metadata.duration_sec > 0 ==> r.position_us <= r.metadata.duration_sec * 1_000_000,
    {
        let p = read_player_props(props);
        let ghost pm = p@;
        let ghost s0 = self@;
        match &p.title {
            Some(title) => {
                if !title.as_str().is_empty() {
                    let changed = !crate::lrc::str_equal(title.as_str(), self.last_metadata.title.as_str());
                    if changed && !self.last_metadata.title.as_str().is_empty() {
                        self.last_position_us = 0;
                        self.last_update_us = now_us;
                        self.last_metadata = TrackMetadata::default();
                    }
                    self.last_metadata.title = title.clone();
                }
            },
            None => {},
        }
        match &p.artist {
            Some(artist) => {
                if !artist.as_str().is_empty() {
                    self.last_metadata.artist = artist.clone();
                }
            },
            None => {},
        }
        match &p.album {
            Some(album) => {
                if !album.as_str().is_empty() {
                    self.last_metadata.album = album.clone();
                }
            },
            None => {},
        }
        match p.length_us {
            Some(length_us) => {
                if length_us > 0 {
                    self.last_metadata.duration_sec = length_us / 1_000_000;
                }
            },
            None => {},
        }
        assert(self@ == apply_metadata(s0, pm, now_us));
        let ghost s1 = self@;
        let elapsed: u64 = if now_us >= self.last_update_us {
            now_us - self.last_update_us
        } else {
            0
        };
        let mut position_us = self.last_position_us;
        match p.position_us {
            Some(pos_us) => {
                if p.status == PlaybackStatus::Playing {
                    if pos_us < self.last_position_us || pos_us - self.last_position_us >= 10_000 {
                        position_us = pos_us;
                        self.last_position_us = pos_us;
                        self.last_update_us = now_us;
                    } else {
                        position_us = self.last_position_us.saturating_add(elapsed);
                    }
                } else {
                    position_us = pos_us;
                    self.last_position_us = pos_us;
                    self.last_update_us = now_us;
                }
            },
            None => {
                if p.status == PlaybackStatus::Playing {
                    position_us = self.last_position_us.saturating_add(elapsed);
                }
            },
        }
        assert((self@, position_us) == apply_position(s1, pm, now_us));
        let duration_sec = self.last_metadata.duration_sec;
        if duration_sec > 0 {
            match duration_sec.checked_mul(1_000_000) {
                Some(cap) => {
                    if position_us > cap {
                        position_us = cap;
                    }
                },
                None => {},
            }
        }
        PlayerState { metadata: self.last_metadata.clone(), position_us }
    }
}

/// While a player plays and reports nothing new, the position only moves
/// forward with time: for the same state and report, a later time never
/// gives an earlier position.
pub proof fn law_position_monotone_in_time(s: TrackerModel, p: PropsModel, t1: u64, t2: u64)
    requires
        t1 <= t2,
        p.status == PlaybackStatus::Playing,
        p.position_us is None,
        p.title is None,
    ensures
        ({
            let (a1, x1) = apply_position(apply_metadata(s, p, t1), p, t1);
            let (a2, x2) = apply_position(apply_metadata(s, p, t2), p, t2);
            capped_us(x1, a1.metadata.duration_sec) <= capped_us(x2, a2.metadata.duration_sec)
        }),
{
}

/// While a player plays, a reported position at least 10 ms away from the
/// last reported one, or behind it (a seek, such as a jump forward of more
/// than 0.8 s), is the position given and becomes the remembered one, as of
/// `now`; a report less than 10 ms ahead of the last one is taken as the
/// same report, and the position given moves on from the last one by the
/// time since it (saturating), the remembered one staying. This holds for a
/// report that keeps the known track (no title, an empty one, the same one,
/// or none known yet); a shown position is held to a known duration.
pub proof fn law_reported_position(s: TrackerModel, p: PropsModel, now: u64, pu: u64)
    requires
        p.status == PlaybackStatus::Playing,
        p.position_us == Some(pu),
        match p.title {
            Some(t) => t.len() == 0 || t == s.metadata.title || s.metadata.title.len() == 0,
            None => true,
        },
    ensures
        ({
            let s1 = apply_metadata(s, p, now);
            let (s2, pos) = apply_position(s1, p, now);
            &&& (pu < s.last_position_us || pu >= s.last_position_us + 10_000) ==> pos == pu
                && s2.last_position_us == pu && s2.last_update_us == now
            &&& (s.last_position_us <= pu < s.last_position_us + 10_000) ==> {
                let since = if now >= s.last_update_us {
                    now - s.last_update_us
                } else {
                    0
                };
                &&& pos == (if s.last_position_us + since <= u64::MAX {
                    s.last_position_us + since
                } else {
                    u64::MAX as int
                })
                &&& s2.last_position_us == s.last_position_us
                &&& s2.last_update_us == s.last_update_us
            }
            &&& (s2.metadata.duration_sec == 0 || pos <= s2.metadata.duration_sec * 1_000_000)
                ==> capped_us(pos, s2.metadata.duration_sec) == pos
        }),
{
}

} // verus!
