//! The cache of loaded scripts: which are in memory, and when a script's file
//! has to be looked at again.

use crate::paths::PathKey;
use crate::text::texts;
use vstd::prelude::*;

verus! {

/// How many scripts are kept in memory at once. When there are more, the one
/// that was not used for the longest time goes.
pub const SCRIPT_CACHE_CAP: usize = 128;

/// The least time between two looks at the same file, in nanoseconds. A script
/// that is not loaded is looked at every time.
pub const STAT_COOLDOWN: i64 = 100_000_000;

/// One millisecond.
pub const MILLISECOND: i64 = 1_000_000;

/// What is known of a script.
#[derive(Clone, Copy, Debug, PartialEq, Eq, Structural)]
pub struct ScriptEntry {
    /// When the file was last looked at, in nanoseconds of a steady clock.
    pub last_stat: i64,
    /// When the file was modified, as of then, in nanoseconds since the epoch.
    pub last_mtime: Option<i128>,
    /// The number of the loaded `on_update`, by which the host knows it.
    pub on_update: Option<u64>,
}

/// What came of loading a script.
#[derive(Clone, Copy, Debug, PartialEq, Eq, Structural)]
pub enum LoadOutcome {
    /// The file could not be read.
    Unreadable,
    /// The script failed, or it has no `on_update`.
    Broken,
    /// The number of its `on_update`.
    Loaded(u64),
}

impl ScriptEntry {
    /// The entry of a script that was never looked at.
    pub open spec fn fresh(now: i64) -> ScriptEntry {
        ScriptEntry {
            last_stat: (now - STAT_COOLDOWN - MILLISECOND) as i64,
            last_mtime: None,
            on_update: None,
        }
    }

    /// An entry whose file is looked at as soon as possible.
    pub fn new(now: i64) -> (entry: ScriptEntry)
        requires
            now - STAT_COOLDOWN - MILLISECOND >= i64::MIN,
        ensures
            entry == Self::fresh(now),
    {
        ScriptEntry {
            last_stat: now - STAT_COOLDOWN - MILLISECOND,
            last_mtime: None,
            on_update: None,
        }
    }

    /// Whether it is time to look at the file. A clock that went back counts as
    /// one that stood still.
    pub open spec fn due(self, now: i64) -> bool {
        !(self.on_update is Some && now - self.last_stat < STAT_COOLDOWN)
    }

    pub open spec fn looked_at(self, now: i64) -> ScriptEntry {
        if self.due(now) {
            ScriptEntry { last_stat: now, ..self }
        } else {
            self
        }
    }

    /// Decide whether to look at the file.
    pub fn begin_look(&mut self, now: i64) -> (due: bool)
        ensures
            due == old(self).due(now),
            *final(self) == old(self).looked_at(now),
    {
        if self.on_update.is_some() && (now as i128 - self.last_stat as i128)
            < STAT_COOLDOWN as i128 {
            return false;
        }
        self.last_stat = now;
        true
    }

    /// Whether the file has to be loaded, given when it was modified.
    pub open spec fn outdated(self, mtime: Option<i128>) -> bool {
        !(mtime == self.last_mtime && self.on_update is Some)
    }

    pub open spec fn dated(self, mtime: Option<i128>) -> ScriptEntry {
        if self.outdated(mtime) {
            ScriptEntry { last_mtime: mtime, ..self }
        } else {
            self
        }
    }

    /// Decide whether to load the file.
    pub fn begin_load(&mut self, mtime: Option<i128>) -> (outdated: bool)
        ensures
            outdated == old(self).outdated(mtime),
            *final(self) == old(self).dated(mtime),
    {
        let same = match (mtime, self.last_mtime) {
            (Some(a), Some(b)) => a == b,
            (None, None) => true,
            _ => false,
        };
        if same && self.on_update.is_some() {
            return false;
        }
        self.last_mtime = mtime;
        true
    }

    /// The entry after loading. A script that cannot be read stays as it was
    /// loaded before.
    pub open spec fn loaded(self, outcome: LoadOutcome) -> ScriptEntry {
        match outcome {
            LoadOutcome::Unreadable => self,
            LoadOutcome::Broken => ScriptEntry { on_update: None, ..self },
            LoadOutcome::Loaded(f) => ScriptEntry { on_update: Some(f), ..self },
        }
    }

    /// Take note of what came of loading.
    pub fn finish_load(&mut self, outcome: LoadOutcome)
        ensures
            *final(self) == old(self).loaded(outcome),
    {
        match outcome {
            LoadOutcome::Unreadable => {},
            LoadOutcome::Broken => {
                self.on_update = None;
            },
            LoadOutcome::Loaded(f) => {
                self.on_update = Some(f);
            },
        }
    }
}

/// A script that has just been loaded is left alone until the cooldown is over,
/// and then it is loaded again only if its file has changed.
pub proof fn loaded_scripts_are_left_alone(
    entry: ScriptEntry,
    now: i64,
    mtime: Option<i128>,
    f: u64,
    later: i64,
)
    requires
        entry.due(now),
    ensures
        ({
            let e = entry.looked_at(now).dated(mtime).loaded(LoadOutcome::Loaded(f));
            &&& e.due(later) <==> later - now >= STAT_COOLDOWN
            &&& !e.looked_at(later).outdated(mtime)
            &&& forall|other: Option<i128>|
                other != mtime ==> #[trigger] e.looked_at(later).outdated(other)
        }),
{
    let e = entry.looked_at(now).dated(mtime);
    assert(e.last_mtime == mtime);
}

/// A script that is not loaded is looked at and loaded every time, whatever its
/// file's date: a new or failing script never waits.
pub proof fn failing_scripts_are_retried(entry: ScriptEntry, now: i64, mtime: Option<i128>)
    requires
        entry.on_update is None,
    ensures
        entry.due(now),
        entry.looked_at(now).outdated(mtime),
        ScriptEntry::fresh(now).on_update is None,
{
}

/// What a cache holds, the most recently used first: the components of paths, and
/// their entries.
pub type Entries = Seq<(PathKey, ScriptEntry)>;

/// Whether a path has an entry.
pub open spec fn holds(s: Entries, path: PathKey) -> bool {
    exists|i: int| 0 <= i < s.len() && (#[trigger] s[i]).0 == path
}

/// Where the entry of a path is.
pub open spec fn place_of(s: Entries, path: PathKey) -> int {
    choose|i: int| 0 <= i < s.len() && (#[trigger] s[i]).0 == path
}

/// The entry of a path.
pub open spec fn entry_of(s: Entries, path: PathKey) -> ScriptEntry {
    s[place_of(s, path)].1
}

/// No path has two entries.
pub open spec fn distinct_paths(s: Entries) -> bool {
    forall|i: int, j: int|
        0 <= i < j < s.len() ==> (#[trigger] s[i]).0 != (#[trigger] s[j]).0
}

/// The cache after a path was used.
pub open spec fn used(s: Entries, path: PathKey) -> Entries {
    if holds(s, path) {
        seq![s[place_of(s, path)]] + s.remove(place_of(s, path))
    } else {
        s
    }
}

/// The cache after a path got an entry: in place of its old one, or, where the
/// cache is full, in place of the one that was not used for the longest time.
pub open spec fn pushed(s: Entries, path: PathKey, entry: ScriptEntry, cap: nat) -> Entries {
    if holds(s, path) {
        seq![(path, entry)] + s.remove(place_of(s, path))
    } else if s.len() == cap {
        seq![(path, entry)] + s.drop_last()
    } else {
        seq![(path, entry)] + s
    }
}

/// What leaves the cache when a path gets an entry.
pub open spec fn push_returns(s: Entries, path: PathKey, cap: nat) -> Option<(
    PathKey,
    ScriptEntry,
)> {
    if holds(s, path) {
        Some((path, entry_of(s, path)))
    } else if s.len() == cap {
        Some(s.last())
    } else {
        None
    }
}

/// An `lru` cache, seen from outside.
#[verifier::external_type_specification]
#[verifier::external_body]
#[verifier::reject_recursive_types(K)]
#[verifier::reject_recursive_types(V)]
#[verifier::reject_recursive_types(S)]
pub struct ExLruCache<K, V, S>(lru::LruCache<K, V, S>);

/// The hasher of an `lru` cache.
#[verifier::external_type_specification]
#[verifier::external_body]
pub struct ExDefaultHasher(lru::DefaultHasher);

/// The entries of a cache, the most recently used first.
pub uninterp spec fn cached_in(c: lru::LruCache<Vec<String>, ScriptEntry>) -> Entries;

/// The most entries that a cache holds.
pub uninterp spec fn cap_of(c: lru::LruCache<Vec<String>, ScriptEntry>) -> nat;

/// Calls `lru::LruCache::new`. The contract claims that the cache is empty and
/// holds at most `cap` entries.
#[verifier::external_body]
fn cache_new(cap: usize) -> (c: lru::LruCache<Vec<String>, ScriptEntry>)
    requires
        cap >= 1,
    ensures
        cached_in(c).len() == 0,
        cap_of(c) == cap,
{
    lru::LruCache::new(std::num::NonZeroUsize::new(cap).unwrap())
}

/// Calls `lru::LruCache::peek`. The contract claims that it finds the entry of
/// the path if there is one.
#[verifier::external_body]
fn cache_peek(c: &lru::LruCache<Vec<String>, ScriptEntry>, path: &Vec<String>) -> (entry: Option<
    ScriptEntry,
>)
    ensures
        entry is Some <==> holds(cached_in(*c), texts(path@)),
        entry matches Some(e) ==> e == entry_of(cached_in(*c), texts(path@)),
{
    c.peek(path).copied()
}

/// Calls `lru::LruCache::get`. The contract claims that it finds the entry of
/// the path if there is one, and that this entry is then the most recently used.
#[verifier::external_body]
fn cache_get(c: &mut lru::LruCache<Vec<String>, ScriptEntry>, path: &Vec<String>) -> (entry: Option<
    ScriptEntry,
>)
    ensures
        entry is Some <==> holds(cached_in(*old(c)), texts(path@)),
        entry matches Some(e) ==> e == entry_of(cached_in(*old(c)), texts(path@)),
        cached_in(*final(c)) == used(cached_in(*old(c)), texts(path@)),
        cap_of(*final(c)) == cap_of(*old(c)),
{
    c.get(path).copied()
}

/// Calls `lru::LruCache::push`. The contract claims that the path has the entry
/// afterwards, as the most recently used, and that its old entry, or else the
/// least recently used entry of a full cache, is taken out and returned.
#[verifier::external_body]
fn cache_push(
    c: &mut lru::LruCache<Vec<String>, ScriptEntry>,
    path: &Vec<String>,
    entry: ScriptEntry,
) -> (out: Option<(Vec<String>, ScriptEntry)>)
    ensures
        cached_in(*final(c)) == pushed(cached_in(*old(c)), texts(path@), entry, cap_of(*old(c))),
        cap_of(*final(c)) == cap_of(*old(c)),
        (match out {
            Some(pair) => Some((texts(pair.0@), pair.1)),
            None => None,
        }) == push_returns(cached_in(*old(c)), texts(path@), cap_of(*old(c))),
{
    c.push(path.clone(), entry)
}

/// A path that got an entry comes first, and the cache stays in order.
pub proof fn lemma_pushed(s: Entries, path: PathKey, entry: ScriptEntry, cap: nat)
    requires
        distinct_paths(s),
        s.len() <= cap,
        cap >= 1,
    ensures
        distinct_paths(pushed(s, path, entry, cap)),
        1 <= pushed(s, path, entry, cap).len() <= cap,
        pushed(s, path, entry, cap)[0] == (path, entry),
{
    let t = pushed(s, path, entry, cap);
    if holds(s, path) {
        let k = place_of(s, path);
        assert(s[k].0 == path);
        assert forall|i: int, j: int| 0 <= i < j < t.len() implies (#[trigger] t[i]).0 != (
        #[trigger] t[j]).0 by {
            let j1 = if j - 1 < k {
                j - 1
            } else {
                j
            };
            assert(t[j] == s[j1]);
            if i > 0 {
                let i1 = if i - 1 < k {
                    i - 1
                } else {
                    i
                };
                assert(t[i] == s[i1]);
            }
        }
    }
}

/// A path that was used comes first, and the cache stays in order.
pub proof fn lemma_used(s: Entries, path: PathKey)
    requires
        distinct_paths(s),
        holds(s, path),
    ensures
        distinct_paths(used(s, path)),
        used(s, path).len() == s.len(),
        used(s, path)[0] == (path, entry_of(s, path)),
{
    lemma_pushed(s, path, entry_of(s, path), s.len());
    let k = place_of(s, path);
    assert(s[k].0 == path);
    assert(used(s, path) =~= pushed(s, path, entry_of(s, path), s.len()));
}

/// The first entry can be replaced in place.
proof fn lemma_push_first(s: Entries, path: PathKey, entry: ScriptEntry, cap: nat)
    requires
        distinct_paths(s),
        s.len() >= 1,
        s[0].0 == path,
    ensures
        holds(s, path),
        entry_of(s, path) == s[0].1,
        pushed(s, path, entry, cap) == s.update(0, (path, entry)),
        used(s, path) == s,
{
    assert(holds(s, path));
    let k = place_of(s, path);
    assert(s[k].0 == path);
    assert(k == 0);
    assert(pushed(s, path, entry, cap) =~= s.update(0, (path, entry)));
    assert(used(s, path) =~= s);
}

/// The scripts in memory, by the components of their paths. A path finds its
/// script however it is spelled.
pub struct ScriptCache {
    cache: lru::LruCache<Vec<String>, ScriptEntry>,
}

impl View for ScriptCache {
    type V = Entries;

    closed spec fn view(&self) -> Entries {
        cached_in(self.cache)
    }
}

impl ScriptCache {
    /// There are not too many entries, and one for each path.
    pub closed spec fn wf(self) -> bool {
        &&& cap_of(self.cache) == SCRIPT_CACHE_CAP
        &&& self@.len() <= SCRIPT_CACHE_CAP
        &&& distinct_paths(self@)
    }

    /// Nothing is loaded.
    pub fn new() -> (cache: ScriptCache)
        ensures
            cache.wf(),
            cache@.len() == 0,
    {
        ScriptCache { cache: cache_new(SCRIPT_CACHE_CAP) }
    }

    /// However it was used, the cache never holds more than its limit, and a
    /// path only once.
    pub proof fn bounded(self)
        requires
            self.wf(),
        ensures
            self@.len() <= SCRIPT_CACHE_CAP,
            distinct_paths(self@),
    {
    }

    /// The script that was used last is found first.
    pub proof fn first_is_found(self, path: PathKey)
        requires
            self.wf(),
            self@.len() >= 1,
            self@[0].0 == path,
        ensures
            holds(self@, path),
            entry_of(self@, path) == self@[0].1,
    {
        lemma_push_first(self@, path, self@[0].1, SCRIPT_CACHE_CAP as nat);
    }

    /// The cache once the entry of a path is at hand: the path has one, and it is
    /// the most recently used.
    pub open spec fn at_hand(s: Entries, path: PathKey, now: i64) -> Entries {
        if holds(s, path) {
            used(s, path)
        } else {
            pushed(s, path, ScriptEntry::fresh(now), SCRIPT_CACHE_CAP as nat)
        }
    }

    /// The number of the `on_update` that leaves the cache to make room.
    pub open spec fn displaced(s: Entries, path: PathKey) -> Option<u64> {
        if !holds(s, path) && s.len() == SCRIPT_CACHE_CAP {
            s.last().1.on_update
        } else {
            None
        }
    }

    /// Use the script at `path`: decide whether its file has to be looked at.
    /// Returns that, and the number of an `on_update` that has left the cache.
    pub fn begin(&mut self, path: &Vec<String>, now: i64) -> (result: (bool, Option<u64>))
        requires
            old(self).wf(),
            now - STAT_COOLDOWN - MILLISECOND >= i64::MIN,
        ensures
            final(self).wf(),
            ({
                let s = Self::at_hand(old(self)@, texts(path@), now);
                &&& s.len() >= 1
                &&& s[0].0 == texts(path@)
                &&& result.0 == s[0].1.due(now)
                &&& final(self)@ == s.update(0, (texts(path@), s[0].1.looked_at(now)))
            }),
            result.1 == Self::displaced(old(self)@, texts(path@)),
    {
        let ghost s0 = self@;
        let mut displaced: Option<u64> = None;
        if cache_peek(&self.cache, path).is_none() {
            let out = cache_push(&mut self.cache, path, ScriptEntry::new(now));
            displaced = match out {
                Some(pair) => pair.1.on_update,
                None => None,
            };
            proof {
                lemma_pushed(s0, texts(path@), ScriptEntry::fresh(now), SCRIPT_CACHE_CAP as nat);
                lemma_push_first(
                    self@,
                    texts(path@),
                    ScriptEntry::fresh(now),
                    SCRIPT_CACHE_CAP as nat,
                );
            }
        } else {
            proof {
                lemma_used(s0, texts(path@));
            }
        }
        let mut entry = match cache_get(&mut self.cache, path) {
            Some(entry) => entry,
            None => ScriptEntry::new(now),
        };
        assert(self@ == Self::at_hand(s0, texts(path@), now));
        let ghost s = self@;
        assert(entry == s[0].1);
        let due = entry.begin_look(now);
        proof {
            lemma_push_first(s, texts(path@), entry, SCRIPT_CACHE_CAP as nat);
        }
        cache_push(&mut self.cache, path, entry);
        proof {
            lemma_pushed(s, texts(path@), entry, SCRIPT_CACHE_CAP as nat);
        }
        (due, displaced)
    }

    /// The file of the script in use has been looked at: decide whether it has
    /// to be loaded.
    pub fn look(&mut self, path: &Vec<String>, mtime: Option<i128>) -> (load: bool)
        requires
            old(self).wf(),
            old(self)@.len() >= 1,
            old(self)@[0].0 == texts(path@),
        ensures
            final(self).wf(),
            load == old(self)@[0].1.outdated(mtime),
            final(self)@ == old(self)@.update(0, (texts(path@), old(self)@[0].1.dated(mtime))),
    {
        let ghost s = self@;
        proof {
            lemma_push_first(s, texts(path@), s[0].1.dated(mtime), SCRIPT_CACHE_CAP as nat);
        }
        let mut load = false;
        if let Some(entry) = cache_peek(&self.cache, path) {
            let mut entry = entry;
            load = entry.begin_load(mtime);
            cache_push(&mut self.cache, path, entry);
            proof {
                lemma_pushed(s, texts(path@), entry, SCRIPT_CACHE_CAP as nat);
            }
        }
        load
    }

    /// The script in use has been loaded, or it could not be. Returns the number
    /// of the `on_update` that is not in use any more.
    pub fn finish(&mut self, path: &Vec<String>, outcome: LoadOutcome) -> (replaced: Option<u64>)
        requires
            old(self).wf(),
            old(self)@.len() >= 1,
            old(self)@[0].0 == texts(path@),
        ensures
            final(self).wf(),
            replaced == (if outcome is Unreadable {
                None
            } else {
                old(self)@[0].1.on_update
            }),
            final(self)@ == old(self)@.update(0, (texts(path@), old(self)@[0].1.loaded(outcome))),
    {
        let ghost s = self@;
        proof {
            lemma_push_first(s, texts(path@), s[0].1.loaded(outcome), SCRIPT_CACHE_CAP as nat);
        }
        let mut replaced: Option<u64> = None;
        if let Some(entry) = cache_peek(&self.cache, path) {
            let mut entry = entry;
            match outcome {
                LoadOutcome::Unreadable => {},
                _ => {
                    replaced = entry.on_update;
                },
            }
            entry.finish_load(outcome);
            cache_push(&mut self.cache, path, entry);
            proof {
                lemma_pushed(s, texts(path@), entry, SCRIPT_CACHE_CAP as nat);
            }
        }
        replaced
    }

    /// The number of the script's `on_update`, if it is loaded.
    pub fn on_update(&self, path: &Vec<String>) -> (f: Option<u64>)
        ensures
            f == (if holds(self@, texts(path@)) {
                entry_of(self@, texts(path@)).on_update
            } else {
                None
            }),
    {
        match cache_peek(&self.cache, path) {
            Some(entry) => entry.on_update,
            None => None,
        }
    }
}

/// A script that is not yet in a full cache displaces the one that was not used
/// for the longest time, and no other.
pub proof fn only_the_least_recent_goes(s: Entries, path: PathKey, now: i64, other: PathKey)
    requires
        distinct_paths(s),
        1 <= s.len() <= SCRIPT_CACHE_CAP,
        holds(s, other),
        other != s.last().0 || holds(s, path) || s.len() < SCRIPT_CACHE_CAP,
    ensures
        holds(ScriptCache::at_hand(s, path, now), other),
        holds(ScriptCache::at_hand(s, path, now), path),
{
    let t = ScriptCache::at_hand(s, path, now);
    let i = place_of(s, other);
    assert(s[i].0 == other);
    if holds(s, path) {
        lemma_used(s, path);
        let k = place_of(s, path);
        assert(s[k].0 == path);
        if i < k {
            assert(t[i + 1] == s[i]);
        } else if i > k {
            assert(t[i] == s[i]);
        }
    } else {
        lemma_pushed(s, path, ScriptEntry::fresh(now), SCRIPT_CACHE_CAP as nat);
        assert(t[i + 1] == s[i]);
    }
    assert(t[0].0 == path);
}

} // verus!
