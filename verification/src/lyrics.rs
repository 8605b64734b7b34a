//! The lyrics service's memory: lyrics fetched for a track are kept under a
//! key made of its artist and title, and served again from there.
use vstd::prelude::*;
use crate::lrc::{str_equal, LyricsData, LyricsModel};
use crate::text::{
    ascii_lowercase, chars_of, is_ascii_text, lemma_trim_idempotent, lowercase, string_of, to_lowercase,
    trim, trim_chars,
};

verus! {

/// The key under which a track's lyrics are kept: artist and title, each
/// trimmed and lower-cased, joined by `" - "`.
pub open spec fn cache_key_spec(artist: Seq<char>, title: Seq<char>) -> Seq<char> {
    lowercase(trim(artist)) + " - "@ + lowercase(trim(title))
}

fn trimmed_lowercase(s: &str) -> (r: String)
    ensures
        r@ == lowercase(trim(s@)),
        is_ascii_text(trim(s@)) ==> r@ == ascii_lowercase(trim(s@)),
{
    let c = chars_of(s);
    let t = trim_chars(&c);
    let ts = string_of(&t);
    to_lowercase(ts.as_str())
}

/// Joins the already normalized artist and title into a key.
pub fn join_key(artist_norm: &str, title_norm: &str) -> (r: String)
    ensures
        r@ == artist_norm@ + " - "@ + title_norm@,
{
    let mut key = artist_norm.to_string();
    key.append(" - ");
    key.append(title_norm);
    key
}

/// The key under which the lyrics of `artist` - `title` are kept.
pub fn cache_key(artist: &str, title: &str) -> (r: String)
    ensures
        r@ == cache_key_spec(artist@, title@),
        is_ascii_text(trim(artist@)) && is_ascii_text(trim(title@)) ==> r@ == ascii_lowercase(
            trim(artist@),
        ) + " - "@ + ascii_lowercase(trim(title@)),
{
    let a = trimmed_lowercase(artist);
    let t = trimmed_lowercase(title);
    join_key(a.as_str(), t.as_str())
}

/// Whitespace around the artist or the title does not change the key.
pub proof fn law_cache_key_ignores_surrounding_space(artist: Seq<char>, title: Seq<char>)
    ensures
        cache_key_spec(trim(artist), trim(title)) == cache_key_spec(artist, title),
{
    lemma_trim_idempotent(artist);
    lemma_trim_idempotent(title);
}

/// Lyrics kept by key; each key is held at most once.
pub struct LyricsCache {
    entries: Vec<(String, LyricsData)>,
}

impl LyricsCache {
    #[verifier::type_invariant]
    spec fn keys_distinct(self) -> bool {
        forall|i: int, j: int|
            0 <= i < j < self.entries@.len() ==> #[trigger] self.entries@[i].0@
                != #[trigger] self.entries@[j].0@
    }

    spec fn key_at(self, k: Seq<char>, i: int) -> bool {
        0 <= i < self.entries@.len() && self.entries@[i].0@ == k
    }
}

impl View for LyricsCache {
    type V = Map<Seq<char>, LyricsModel>;

    closed spec fn view(&self) -> Map<Seq<char>, LyricsModel> {
        Map::new(
            |k: Seq<char>| exists|i: int| self.key_at(k, i),
            |k: Seq<char>| self.entries@[choose|i: int| self.key_at(k, i)].1@,
        )
    }
}

impl LyricsCache {
    /// A cache holding nothing.
    pub fn new() -> (r: LyricsCache)
        ensures
            r@ == Map::<Seq<char>, LyricsModel>::empty(),
    {
        let r = LyricsCache { entries: Vec::new() };
        assert(r@ =~= Map::<Seq<char>, LyricsModel>::empty());
        r
    }

    fn position(&self, key: &str) -> (r: Option<usize>)
        ensures
            match r {
                Some(i) => self.key_at(key@, i as int),
                None => forall|i: int| !self.key_at(key@, i),
            },
    {
        let mut i: usize = 0;
        while i < self.entries.len()
            invariant
                i <= self.entries@.len(),
                forall|j: int| 0 <= j < i ==> !self.key_at(key@, j),
            decreases self.entries@.len() - i,
        {
            if str_equal(self.entries[i].0.as_str(), key) {
                return Some(i);
            }
            i = i + 1;
        }
        None
    }

    /// The lyrics kept under `key`, if any.
    pub fn get(&self, key: &str) -> (r: Option<LyricsData>)
        ensures
            match r {
                Some(d) => self@.contains_key(key@) && d@ == self@[key@],
                None => !self@.contains_key(key@),
            },
    {
        proof {
            use_type_invariant(self);
        }
        match self.position(key) {
            Some(i) => {
                proof {
                    assert(self.key_at(key@, i as int));
                    let j = choose|j: int| self.key_at(key@, j);
                    assert(j == i);
                }
                Some(self.entries[i].1.clone())
            },
            None => None,
        }
    }

    /// Forgets the lyrics kept under `key`.
    pub fn remove(&mut self, key: &str)
        ensures
            final(self)@ == old(self)@.remove(key@),
    {
        proof {
            use_type_invariant(&*self);
        }
        match self.position(key) {
            Some(i) => {
                let ghost old_e = self.entries@;
                let mut e: Vec<(String, LyricsData)> = Vec::new();
                std::mem::swap(&mut e, &mut self.entries);
                e.remove(i);
                assert forall|a: int, b: int|
                    0 <= a < b < e@.len() implies #[trigger] e@[a].0@ != #[trigger] e@[b].0@ by {
                    let oa = if a < i { a } else { a + 1 };
                    let ob = if b < i { b } else { b + 1 };
                    assert(old_e[oa] == e@[a]);
                    assert(old_e[ob] == e@[b]);
                }
                self.entries = e;
                proof {
                    use_type_invariant(&*self);
                }
                assert forall|k: Seq<char>| #[trigger] self@.contains_key(k) == old(self)@.remove(
                    key@,
                ).contains_key(k) by {
                    if exists|j: int| self.key_at(k, j) {
                        let j = choose|j: int| self.key_at(k, j);
                        if j < i {
                            assert(old(self).key_at(k, j));
                        } else {
                            assert(old(self).key_at(k, j + 1));
                        }
                    }
                    if k != key@ && exists|j: int| old(self).key_at(k, j) {
                        let j = choose|j: int| old(self).key_at(k, j);
                        if j < i {
                            assert(self.key_at(k, j));
                        } else {
                            assert(j != i);
                            assert(self.key_at(k, j - 1));
                        }
                    }
                }
                assert forall|k: Seq<char>| #[trigger] self@.contains_key(k) implies self@[k]
                    == old(self)@[k] by {
                    let j = choose|j: int| self.key_at(k, j);
                    let oj = if j < i {
                        j
                    } else {
                        j + 1
                    };
                    assert(old(self).key_at(k, oj));
                    let oc = choose|j: int| old(self).key_at(k, j);
                    assert(oc == oj);
                }
                assert(self@ =~= old(self)@.remove(key@));
            },
            None => {
                assert(self@ =~= old(self)@.remove(key@));
            },
        }
    }

    /// Keeps `data` under `key`, replacing what was kept there.
    pub fn insert(&mut self, key: String, data: LyricsData)
        ensures
            final(self)@ == old(self)@.insert(key@, data@),
    {
        self.remove(key.as_str());
        let ghost mid = self@;
        let ghost mid_self = *self;
        let ghost kv = key@;
        let ghost dv = data@;
        proof {
            use_type_invariant(&*self);
            assert forall|j: int| 0 <= j < self.entries@.len() implies self.entries@[j].0@ != kv by {
                if self.entries@[j].0@ == kv {
                    assert(self.key_at(kv, j));
                    assert(self@.contains_key(kv));
                }
            }
        }
        let ghost n = self.entries@.len();
        let mut e: Vec<(String, LyricsData)> = Vec::new();
        std::mem::swap(&mut e, &mut self.entries);
        let ghost before = e@;
        e.push((key, data));
        assert forall|a: int, b: int|
            0 <= a < b < e@.len() implies #[trigger] e@[a].0@ != #[trigger] e@[b].0@ by {
            if b == n {
                assert(e@[a] == before[a]);
            } else {
                assert(e@[a] == before[a]);
                assert(e@[b] == before[b]);
            }
        }
        self.entries = e;
        proof {
            use_type_invariant(&*self);
        }
        assert forall|k: Seq<char>| #[trigger] self@.contains_key(k) == mid.insert(
            kv,
            dv,
        ).contains_key(k) by {
            if k == kv {
                assert(self.key_at(k, n as int));
            } else {
                if exists|j: int| self.key_at(k, j) {
                    let j = choose|j: int| self.key_at(k, j);
                    assert(j < n);
                    assert(self.entries@[j] == before[j]);
                    assert(mid_self.key_at(k, j));
                    assert(mid.contains_key(k));
                }
                if mid.contains_key(k) {
                    let j = choose|j: int| 0 <= j < before.len() && before[j].0@ == k;
                    assert(self.entries@[j] == before[j]);
                    assert(self.key_at(k, j));
                }
            }
        }
        assert forall|k: Seq<char>| #[trigger] self@.contains_key(k) implies self@[k] == mid.insert(
            kv,
            dv,
        )[k] by {
            let j = choose|j: int| self.key_at(k, j);
            if k == kv {
                assert(self.key_at(k, n as int));
                assert(j == n);
            } else {
                assert(j < n);
            }
        }
        assert(self@ =~= mid.insert(kv, dv));
        assert(mid =~= old(self)@.remove(kv));
        assert(old(self)@.remove(kv).insert(kv, dv) =~= old(self)@.insert(kv, dv));
    }
}

/// The service's memory of lyrics, keyed by `cache_key`. Fetching is done
/// by its caller: `get_lyrics` answers from memory, `accept_fetched` decides
/// what a fetch gives and keeps it.
pub struct LyricsService {
    pub cache: LyricsCache,
}

impl LyricsService {
    /// A service that remembers nothing yet.
    pub fn new() -> (r: LyricsService)
        ensures
            r.cache@ == Map::<Seq<char>, LyricsModel>::empty(),
    {
        LyricsService { cache: LyricsCache::new() }
    }

    /// Forgets the lyrics of `artist` - `title`.
    pub fn invalidate(&mut self, artist: &str, title: &str)
        ensures
            final(self).cache@ == old(self).cache@.remove(cache_key_spec(artist@, title@)),
    {
        let key = cache_key(artist, title);
        self.cache.remove(key.as_str());
    }

    /// The lyrics remembered for `artist` - `title`, if any; when there are
    /// none, the caller fetches them and hands the result to `accept_fetched`.
    pub fn get_lyrics(&self, artist: &str, title: &str) -> (r: Option<LyricsData>)
        ensures
            match r {
                Some(d) => self.cache@.contains_key(cache_key_spec(artist@, title@)) && d@
                    == self.cache@[cache_key_spec(artist@, title@)],
                None => !self.cache@.contains_key(cache_key_spec(artist@, title@)),
            },
    {
        let key = cache_key(artist, title);
        self.cache.get(key.as_str())
    }

    /// What a fetch of the lyrics of `artist` - `title` gives: lyrics that
    /// show something are remembered and returned; a failed fetch, or one
    /// that found nothing to show, gives the placeholder and is not
    /// remembered.
    pub fn accept_fetched(&mut self, artist: &str, title: &str, fetched: Option<LyricsData>) -> (r:
        LyricsData)
        ensures
            match fetched {
                Some(d) => if !d@.is_empty() {
                    r@ == d@ && final(self).cache@ == old(self).cache@.insert(
                        cache_key_spec(artist@, title@),
                        d@,
                    )
                } else {
                    r@ == LyricsModel::empty() && final(self).cache@ == old(self).cache@
                },
                None => r@ == LyricsModel::empty() && final(self).cache@ == old(self).cache@,
            },
    {
        match fetched {
            Some(d) => {
                if !d.is_empty() {
                    let key = cache_key(artist, title);
                    let kept = d.clone();
                    self.cache.insert(key, kept);
                    d
                } else {
                    LyricsData::empty()
                }
            },
            None => LyricsData::empty(),
        }
    }
}

/// Lyrics that a fetch found are served from memory afterwards: after
/// `accept_fetched` keeps `d` for a key, `get_lyrics` for that key gives `d`,
/// and keys of other tracks keep what they had.
pub proof fn law_read_after_accept(
    cache: Map<Seq<char>, LyricsModel>,
    key: Seq<char>,
    other: Seq<char>,
    d: LyricsModel,
)
    requires
        other != key,
    ensures
        cache.insert(key, d).contains_key(key),
        cache.insert(key, d)[key] == d,
        cache.insert(key, d).contains_key(other) == cache.contains_key(other),
        cache.contains_key(other) ==> cache.insert(key, d)[other] == cache[other],
{
}

/// After `invalidate` a track's lyrics are no longer served from memory, and
/// other tracks keep what they had.
pub proof fn law_invalidate_forgets(
    cache: Map<Seq<char>, LyricsModel>,
    key: Seq<char>,
    other: Seq<char>,
)
    requires
        other != key,
    ensures
        !cache.remove(key).contains_key(key),
        cache.remove(key).contains_key(other) == cache.contains_key(other),
        cache.contains_key(other) ==> cache.remove(key)[other] == cache[other],
{
}

} // verus!
