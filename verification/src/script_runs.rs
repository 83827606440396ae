//! The scripts over any number of ticks.

use crate::paths::PathKey;
use crate::script_cache::{
    distinct_paths, entry_of, holds, lemma_pushed, lemma_used, place_of, Entries, LoadOutcome,
    ScriptCache, ScriptEntry, SCRIPT_CACHE_CAP,
};
use crate::script_pass::{PassEvent, PassState, Waiting};
use crate::scripting::Scripted;
use vstd::prelude::*;

verus! {

/// What the host has at hand: the cache, and the pass over the scripted entities
/// of the current tick.
pub struct HostState {
    pub cache: Entries,
    pub scripted: Seq<Scripted>,
    pub pass: PassState,
}

/// What can happen next.
pub enum HostStep {
    /// A tick begins.
    Tick { scripted: Seq<Scripted> },
    /// The pass is told what it waits for.
    Event { event: PassEvent },
}

impl HostState {
    /// Nothing is loaded, and no tick has begun.
    pub open spec fn start() -> HostState {
        HostState { cache: Seq::empty(), scripted: Seq::empty(), pass: PassState::fresh() }
    }

    /// The script of the entity that the pass is at.
    pub open spec fn current(self) -> Option<PathKey> {
        if self.pass.at < self.scripted.len() {
            Some(self.scripted[self.pass.at].key())
        } else {
            None
        }
    }

    /// A tick begins when the pass of the one before is over.
    pub open spec fn takes(self, step: HostStep) -> bool {
        match step {
            HostStep::Tick { scripted } => self.pass.at >= self.scripted.len(),
            HostStep::Event { event } => self.pass.awaits(event),
        }
    }

    /// What the step makes of it.
    #[verifier::opaque]
    pub open spec fn after(self, step: HostStep) -> HostState {
        match step {
            HostStep::Tick { scripted } => HostState {
                cache: self.cache,
                scripted,
                pass: PassState::fresh(),
            },
            HostStep::Event { event } => {
                let (cache, pass, _) = self.pass.next(self.scripted, self.cache, event);
                HostState { cache, scripted: self.scripted, pass }
            },
        }
    }
}

/// What the host has at hand after the steps.
pub open spec fn state_after(steps: Seq<HostStep>) -> HostState
    decreases steps.len(),
{
    if steps.len() == 0 {
        HostState::start()
    } else {
        state_after(steps.drop_last()).after(steps.last())
    }
}

/// Whether each step is one that can happen.
pub open spec fn is_run(steps: Seq<HostStep>) -> bool {
    forall|k: int|
        0 <= k < steps.len() ==> state_after(steps.take(k)).takes(#[trigger] steps[k])
}

/// What came of loading a script, each time that it was loaded.
pub open spec fn outcomes(steps: Seq<HostStep>, path: PathKey) -> Seq<LoadOutcome>
    decreases steps.len(),
{
    if steps.len() == 0 {
        Seq::empty()
    } else {
        let before = outcomes(steps.drop_last(), path);
        match steps.last() {
            HostStep::Event { event: PassEvent::Outcome(outcome) } => if state_after(
                steps.drop_last(),
            ).current() == Some(path) {
                before.push(outcome)
            } else {
                before
            },
            _ => before,
        }
    }
}

/// Whether all scripts that are in use are among the given ones.
pub open spec fn only_uses(steps: Seq<HostStep>, paths: Set<PathKey>) -> bool {
    forall|k: int|
        0 <= k < steps.len() ==> match #[trigger] steps[k] {
            HostStep::Tick { scripted } => forall|i: int|
                0 <= i < scripted.len() ==> paths.contains((#[trigger] scripted[i]).key()),
            _ => true,
        }
}

/// Whether a script's file stays as it is, and can be loaded.
pub open spec fn stays_loadable(
    steps: Seq<HostStep>,
    path: PathKey,
    mtime: Option<i128>,
) -> bool {
    forall|k: int|
        0 <= k < steps.len() && state_after(steps.take(k)).current() == Some(path)
            ==> match #[trigger] steps[k] {
            HostStep::Event { event: PassEvent::Modified(modified) } => modified == mtime,
            HostStep::Event { event: PassEvent::Outcome(outcome) } => outcome is Loaded,
            _ => true,
        }
}

/// An entry is where its path is.
proof fn lemma_lookup(s: Entries, i: int)
    requires
        distinct_paths(s),
        0 <= i < s.len(),
    ensures
        holds(s, s[i].0),
        entry_of(s, s[i].0) == s[i].1,
{
    let k = place_of(s, s[i].0);
    assert(s[k].0 == s[i].0);
    if k < i {
        assert(s[k].0 != s[i].0);
    }
    if i < k {
        assert(s[i].0 != s[k].0);
    }
}

/// The first entry is replaced, and the others stay.
proof fn lemma_first_replaced(s: Entries, entry: ScriptEntry, other: PathKey)
    requires
        distinct_paths(s),
        s.len() >= 1,
    ensures
        ({
            let t = s.update(0, (s[0].0, entry));
            &&& distinct_paths(t)
            &&& holds(t, other) == holds(s, other)
            &&& holds(s, other) ==> entry_of(t, other) == if other == s[0].0 {
                entry
            } else {
                entry_of(s, other)
            }
        }),
{
    let t = s.update(0, (s[0].0, entry));
    assert forall|i: int, j: int| 0 <= i < j < t.len() implies (#[trigger] t[i]).0 != (
    #[trigger] t[j]).0 by {
        assert(s[i].0 != s[j].0);
        assert(t[i].0 == s[i].0);
        assert(t[j].0 == s[j].0);
    }
    if holds(s, other) {
        let k = place_of(s, other);
        assert(s[k].0 == other);
        assert(t[k].0 == other);
        lemma_lookup(t, k);
        lemma_lookup(s, k);
        lemma_lookup(s, 0);
    }
    if holds(t, other) {
        let k = place_of(t, other);
        assert(t[k].0 == other);
        assert(s[k].0 == other);
    }
}

/// A script comes to the front, and nothing goes while there is room.
proof fn lemma_at_hand(s: Entries, path: PathKey, now: i64, other: PathKey)
    requires
        distinct_paths(s),
        s.len() <= SCRIPT_CACHE_CAP,
        holds(s, path) || s.len() < SCRIPT_CACHE_CAP,
    ensures
        ({
            let t = ScriptCache::at_hand(s, path, now);
            &&& distinct_paths(t)
            &&& t.len() >= 1
            &&& t[0].0 == path
            &&& t[0].1 == if holds(s, path) {
                entry_of(s, path)
            } else {
                ScriptEntry::fresh(now)
            }
            &&& other != path ==> holds(t, other) == holds(s, other)
            &&& other != path && holds(s, other) ==> entry_of(t, other) == entry_of(s, other)
        }),
{
    let t = ScriptCache::at_hand(s, path, now);
    if holds(s, path) {
        lemma_used(s, path);
        let k = place_of(s, path);
        assert(s[k].0 == path);
        if other != path && holds(s, other) {
            let i = place_of(s, other);
            assert(s[i].0 == other);
            let j = if i < k {
                i + 1
            } else {
                i
            };
            assert(t[j] == s[i]);
            lemma_lookup(t, j);
        }
        if other != path && holds(t, other) {
            let j = place_of(t, other);
            assert(t[j].0 == other);
            let i = if j - 1 < k {
                j - 1
            } else {
                j
            };
            assert(t[j] == s[i]);
        }
    } else {
        lemma_pushed(s, path, ScriptEntry::fresh(now), SCRIPT_CACHE_CAP as nat);
        assert(t =~= seq![(path, ScriptEntry::fresh(now))] + s);
        if other != path && holds(s, other) {
            let i = place_of(s, other);
            assert(s[i].0 == other);
            assert(t[i + 1] == s[i]);
            lemma_lookup(t, i + 1);
        }
        if other != path && holds(t, other) {
            let j = place_of(t, other);
            assert(t[j].0 == other);
            assert(t[j] == s[j - 1]);
        }
    }
}

/// The paths of the entries.
pub open spec fn keys(s: Entries) -> Seq<PathKey> {
    s.map_values(|e: (PathKey, ScriptEntry)| e.0)
}

/// Whether the entries are those of some of the paths.
spec fn within(s: Entries, paths: Set<PathKey>) -> bool {
    forall|i: int| 0 <= i < s.len() ==> paths.contains((#[trigger] s[i]).0)
}

/// There are no more entries than paths, and fewer as long as one is missing.
proof fn lemma_within(s: Entries, paths: Set<PathKey>, path: PathKey)
    requires
        distinct_paths(s),
        within(s, paths),
        paths.finite(),
        paths.contains(path),
    ensures
        s.len() <= paths.len(),
        !holds(s, path) ==> s.len() < paths.len(),
{
    let ks = keys(s);
    assert(ks.no_duplicates()) by {
        assert forall|i: int, j: int| 0 <= i < ks.len() && 0 <= j < ks.len() && i != j implies ks[i]
            != ks[j] by {
            if i < j {
                assert(s[i].0 != s[j].0);
            } else {
                assert(s[j].0 != s[i].0);
            }
        }
    }
    ks.unique_seq_to_set();
    assert(ks.to_set().subset_of(paths)) by {
        assert forall|p: PathKey| ks.to_set().contains(p) implies paths.contains(p) by {
            let i = ks.index_of(p);
            assert(s[i].0 == p);
        }
    }
    vstd::set_lib::lemma_len_subset(ks.to_set(), paths);
    if !holds(s, path) {
        assert(!ks.to_set().contains(path)) by {
            if ks.to_set().contains(path) {
                let i = ks.index_of(path);
                assert(s[i].0 == path);
            }
        }
        assert(ks.to_set().subset_of(paths.remove(path)));
        vstd::set_lib::lemma_len_subset(ks.to_set(), paths.remove(path));
    }
}

/// What holds of a script in every state: it is being loaded for the first time,
/// or it was loaded once and its entry says so.
spec fn loaded_at_most_once(
    s: HostState,
    outs: Seq<LoadOutcome>,
    path: PathKey,
    mtime: Option<i128>,
) -> bool {
    &&& outs.len() <= 1
    &&& !holds(s.cache, path) ==> outs.len() == 0
    &&& holds(s.cache, path) && outs.len() == 0 ==> {
        let e = entry_of(s.cache, path);
        &&& e.on_update is None
        &&& s.pass.waiting != Waiting::Time
        &&& s.current() == Some(path)
        &&& s.pass.waiting == Waiting::Load ==> e.last_mtime == mtime
    }
    &&& outs.len() == 1 ==> {
        let e = entry_of(s.cache, path);
        &&& outs[0] is Loaded
        &&& e.on_update == Some(outs[0]->Loaded_0)
        &&& e.last_mtime == mtime
        &&& s.pass.waiting == Waiting::Load ==> s.current() != Some(path)
    }
}

/// What holds of the answers in every state.
spec fn answered_alike(s: HostState, outs: Seq<LoadOutcome>, path: PathKey) -> bool {
    forall|i: int|
        0 <= i < s.pass.callables.len() && s.scripted[i].key() == path ==> {
            &&& outs.len() == 1
            &&& outs[0] is Loaded
            &&& #[trigger] s.pass.callables[i] == Some(outs[0]->Loaded_0)
        }
}

/// What holds of the cache and the pass in every state.
spec fn in_order(s: HostState, paths: Set<PathKey>) -> bool {
    &&& s.pass.wf(s.scripted, s.cache)
    &&& distinct_paths(s.cache)
    &&& within(s.cache, paths)
    &&& forall|i: int|
        0 <= i < s.scripted.len() ==> paths.contains((#[trigger] s.scripted[i]).key())
}

proof fn lemma_event(
    s: HostState,
    event: PassEvent,
    outs: Seq<LoadOutcome>,
    path: PathKey,
    mtime: Option<i128>,
    paths: Set<PathKey>,
)
    requires
        in_order(s, paths),
        loaded_at_most_once(s, outs, path, mtime),
        answered_alike(s, outs, path),
        paths.finite(),
        paths.len() <= SCRIPT_CACHE_CAP,
        s.pass.awaits(event),
        s.pass.at < s.scripted.len(),
        s.current() == Some(path) ==> match event {
            PassEvent::Modified(modified) => modified == mtime,
            PassEvent::Outcome(outcome) => outcome is Loaded,
            _ => true,
        },
    ensures
        ({
            let t = s.after(HostStep::Event { event });
            let outs1 = match event {
                PassEvent::Outcome(outcome) => if s.current() == Some(path) {
                    outs.push(outcome)
                } else {
                    outs
                },
                _ => outs,
            };
            &&& in_order(t, paths)
            &&& loaded_at_most_once(t, outs1, path, mtime)
            &&& answered_alike(t, outs1, path)
        }),
{
    reveal(HostState::after);
    let t = s.after(HostStep::Event { event });
    let q = s.scripted[s.pass.at].key();
    let cache = s.cache;
    assert(paths.contains(q));
    match event {
        PassEvent::Now(now) => {
            lemma_within(cache, paths, q);
            lemma_at_hand(cache, q, now, path);
            let u = ScriptCache::at_hand(cache, q, now);
            lemma_lookup(u, 0);
            lemma_first_replaced(u, u[0].1.looked_at(now), path);
            lemma_within_at_hand(cache, paths, q, now);
            assert(t.cache == u.update(0, (q, u[0].1.looked_at(now))));
        },
        PassEvent::Modified(modified) => {
            lemma_lookup(cache, 0);
            lemma_first_replaced(cache, cache[0].1.dated(modified), path);
            assert(t.cache == cache.update(0, (q, cache[0].1.dated(modified))));
        },
        PassEvent::Outcome(outcome) => {
            lemma_lookup(cache, 0);
            lemma_first_replaced(cache, cache[0].1.loaded(outcome), path);
            assert(t.cache == cache.update(0, (q, cache[0].1.loaded(outcome))));
        },
    }
    lemma_lookup(t.cache, 0);
}

proof fn lemma_within_at_hand(s: Entries, paths: Set<PathKey>, path: PathKey, now: i64)
    requires
        distinct_paths(s),
        within(s, paths),
        paths.contains(path),
        s.len() <= SCRIPT_CACHE_CAP,
        holds(s, path) || s.len() < SCRIPT_CACHE_CAP,
    ensures
        within(ScriptCache::at_hand(s, path, now), paths),
{
    let t = ScriptCache::at_hand(s, path, now);
    assert forall|j: int| 0 <= j < t.len() implies paths.contains((#[trigger] t[j]).0) by {
        if holds(s, path) {
            let k = place_of(s, path);
            assert(s[k].0 == path);
            if j > 0 {
                let i = if j - 1 < k {
                    j - 1
                } else {
                    j
                };
                assert(t[j] == s[i]);
            }
        } else if j > 0 {
            assert(t[j] == s[j - 1]);
        }
    }
}

/// A run without its last step.
proof fn lemma_shorter(steps: Seq<HostStep>)
    requires
        is_run(steps),
        steps.len() > 0,
    ensures
        is_run(steps.drop_last()),
        state_after(steps.drop_last()).takes(steps.last()),
{
    let n = steps.len() - 1;
    let before = steps.drop_last();
    assert(before =~= steps.take(n));
    assert forall|k: int| 0 <= k < before.len() implies state_after(before.take(k)).takes(
        #[trigger] before[k],
    ) by {
        assert(before.take(k) =~= steps.take(k));
        assert(before[k] == steps[k]);
    }
    assert(state_after(steps.take(n)).takes(steps[n]));
}

/// All of it holds.
#[verifier::opaque]
spec fn fine(
    s: HostState,
    outs: Seq<LoadOutcome>,
    path: PathKey,
    mtime: Option<i128>,
    paths: Set<PathKey>,
) -> bool {
    &&& in_order(s, paths)
    &&& loaded_at_most_once(s, outs, path, mtime)
    &&& answered_alike(s, outs, path)
}

/// What a step adds to what came of loading a script.
spec fn added(s: HostState, step: HostStep, path: PathKey) -> Seq<LoadOutcome> {
    match step {
        HostStep::Event { event: PassEvent::Outcome(outcome) } => if s.current() == Some(path) {
            seq![outcome]
        } else {
            Seq::empty()
        },
        _ => Seq::empty(),
    }
}

proof fn lemma_step(
    s: HostState,
    step: HostStep,
    outs: Seq<LoadOutcome>,
    path: PathKey,
    mtime: Option<i128>,
    paths: Set<PathKey>,
)
    requires
        fine(s, outs, path, mtime, paths),
        paths.finite(),
        paths.len() <= SCRIPT_CACHE_CAP,
        s.takes(step),
        match step {
            HostStep::Tick { scripted } => forall|i: int|
                0 <= i < scripted.len() ==> paths.contains((#[trigger] scripted[i]).key()),
            _ => true,
        },
        s.current() == Some(path) ==> match step {
            HostStep::Event { event: PassEvent::Modified(modified) } => modified == mtime,
            HostStep::Event { event: PassEvent::Outcome(outcome) } => outcome is Loaded,
            _ => true,
        },
    ensures
        fine(s.after(step), outs + added(s, step, path), path, mtime, paths),
{
    reveal(fine);
    assert(outs + Seq::empty() =~= outs);
    match step {
        HostStep::Tick { scripted } => {
            reveal(HostState::after);
            assert(s.pass.waiting == Waiting::Time);
        },
        HostStep::Event { event } => {
            if s.pass.at < s.scripted.len() {
                lemma_event(s, event, outs, path, mtime, paths);
                if let PassEvent::Outcome(outcome) = event {
                    assert(outs + seq![outcome] =~= outs.push(outcome));
                }
            } else {
                reveal(HostState::after);
            }
        },
    }
}

proof fn lemma_run(
    steps: Seq<HostStep>,
    path: PathKey,
    mtime: Option<i128>,
    paths: Set<PathKey>,
)
    requires
        is_run(steps),
        only_uses(steps, paths),
        stays_loadable(steps, path, mtime),
        paths.finite(),
        paths.len() <= SCRIPT_CACHE_CAP,
    ensures
        fine(state_after(steps), outcomes(steps, path), path, mtime, paths),
    decreases steps.len(),
{
    if steps.len() > 0 {
        let n = steps.len() - 1;
        let before = steps.drop_last();
        assert(before =~= steps.take(n));
        lemma_prefix(steps, n, path, mtime, paths);
        lemma_run(before, path, mtime, paths);
        let s = state_after(before);
        let outs = outcomes(before, path);
        assert(s.takes(steps[n]));
        lemma_step(s, steps[n], outs, path, mtime, paths);
        assert(outs + Seq::empty() =~= outs);
        assert(outcomes(steps, path) =~= outs + added(s, steps[n], path));
    } else {
        reveal(fine);
    }
}

proof fn lemma_answer(
    steps: Seq<HostStep>,
    k: int,
    i: int,
    path: PathKey,
    mtime: Option<i128>,
    paths: Set<PathKey>,
)
    requires
        is_run(steps),
        only_uses(steps, paths),
        stays_loadable(steps, path, mtime),
        paths.finite(),
        paths.len() <= SCRIPT_CACHE_CAP,
        0 <= k <= steps.len(),
        0 <= i < state_after(steps.take(k)).pass.callables.len(),
        state_after(steps.take(k)).scripted[i].key() == path,
    ensures
        outcomes(steps, path).len() == 1,
        outcomes(steps, path)[0] is Loaded,
        state_after(steps.take(k)).pass.callables[i] == Some(outcomes(steps, path)[0]->Loaded_0),
{
    lemma_prefix(steps, k, path, mtime, paths);
    lemma_run(steps.take(k), path, mtime, paths);
    lemma_run(steps, path, mtime, paths);
    lemma_outcomes_grow(steps, k, path);
    reveal(fine);
    assert(outcomes(steps, path).len() <= 1);
    let s = state_after(steps.take(k));
    let outs = outcomes(steps.take(k), path);
    assert(s.pass.callables[i] == Some(outs[0]->Loaded_0));
    assert(outs[0] == outcomes(steps, path)[0]);
}

proof fn lemma_outcomes_grow(steps: Seq<HostStep>, k: int, path: PathKey)
    requires
        0 <= k <= steps.len(),
    ensures
        outcomes(steps.take(k), path).is_prefix_of(outcomes(steps, path)),
    decreases steps.len(),
{
    if k < steps.len() {
        lemma_outcomes_grow(steps.drop_last(), k, path);
        assert(steps.drop_last().take(k) =~= steps.take(k));
    } else {
        assert(steps.take(k) =~= steps);
    }
}

proof fn lemma_prefix(
    steps: Seq<HostStep>,
    k: int,
    path: PathKey,
    mtime: Option<i128>,
    paths: Set<PathKey>,
)
    requires
        is_run(steps),
        only_uses(steps, paths),
        stays_loadable(steps, path, mtime),
        0 <= k <= steps.len(),
    ensures
        is_run(steps.take(k)),
        only_uses(steps.take(k), paths),
        stays_loadable(steps.take(k), path, mtime),
{
    let some = steps.take(k);
    assert forall|j: int| 0 <= j < some.len() implies state_after(some.take(j)).takes(
        #[trigger] some[j],
    ) by {
        assert(some.take(j) =~= steps.take(j));
        assert(some[j] == steps[j]);
    }
    assert forall|j: int| 0 <= j < some.len() implies match #[trigger] some[j] {
        HostStep::Tick { scripted } => forall|i: int|
            0 <= i < scripted.len() ==> paths.contains((#[trigger] scripted[i]).key()),
        _ => true,
    } by {
        assert(some[j] == steps[j]);
    }
    assert forall|j: int|
        0 <= j < some.len() && state_after(some.take(j)).current() == Some(
            path,
        ) implies match #[trigger] some[j] {
        HostStep::Event { event: PassEvent::Modified(modified) } => modified == mtime,
        HostStep::Event { event: PassEvent::Outcome(outcome) } => outcome is Loaded,
        _ => true,
    } by {
        assert(some.take(j) =~= steps.take(j));
        assert(some[j] == steps[j]);
    }
}

/// As long as no more scripts are in use than the cache holds, a script whose
/// file stays as it is is loaded once, however many ticks there are and however
/// many entities have it: whenever one of them has its answer, after any of the
/// steps, the script has been loaded, and the answer is what came of that one
/// time.
pub proof fn unchanged_scripts_load_once(
    steps: Seq<HostStep>,
    path: PathKey,
    mtime: Option<i128>,
    paths: Set<PathKey>,
    k: int,
    i: int,
)
    requires
        is_run(steps),
        only_uses(steps, paths),
        paths.finite(),
        paths.len() <= SCRIPT_CACHE_CAP,
        stays_loadable(steps, path, mtime),
        0 <= k <= steps.len(),
    ensures
        outcomes(steps, path).len() <= 1,
        ({
            let s = state_after(steps.take(k));
            0 <= i < s.pass.callables.len() && s.scripted[i].key() == path ==> {
                &&& outcomes(steps, path).len() == 1
                &&& outcomes(steps, path)[0] is Loaded
                &&& s.pass.callables[i] == Some(outcomes(steps, path)[0]->Loaded_0)
            }
        }),
{
    assert(outcomes(steps, path).len() <= 1) by {
        lemma_run(steps, path, mtime, paths);
        reveal(fine);
    }
    let s = state_after(steps.take(k));
    if 0 <= i < s.pass.callables.len() && s.scripted[i].key() == path {
        lemma_answer(steps, k, i, path, mtime, paths);
    }
}

/// The scripts that were used, one after another.
pub open spec fn uses(steps: Seq<HostStep>) -> Seq<PathKey>
    decreases steps.len(),
{
    if steps.len() == 0 {
        Seq::empty()
    } else {
        let before = uses(steps.drop_last());
        match (steps.last(), state_after(steps.drop_last()).current()) {
            (HostStep::Event { event: PassEvent::Now(_) }, Some(path)) => before.push(path),
            _ => before,
        }
    }
}

/// `all` without `path`.
pub open spec fn without(all: Seq<PathKey>, path: PathKey) -> Seq<PathKey> {
    if all.contains(path) {
        all.remove(all.index_of(path))
    } else {
        all
    }
}

/// Each of the scripts once, the one that was used last first.
pub open spec fn by_last_use(used: Seq<PathKey>) -> Seq<PathKey>
    decreases used.len(),
{
    if used.len() == 0 {
        Seq::empty()
    } else {
        seq![used.last()] + without(by_last_use(used.drop_last()), used.last())
    }
}

/// The first of them, as many as the cache holds.
pub open spec fn first_few(all: Seq<PathKey>) -> Seq<PathKey> {
    if all.len() <= SCRIPT_CACHE_CAP {
        all
    } else {
        all.take(SCRIPT_CACHE_CAP as int)
    }
}

proof fn lemma_by_last_use(used: Seq<PathKey>)
    ensures
        by_last_use(used).no_duplicates(),
    decreases used.len(),
{
    if used.len() > 0 {
        let before = by_last_use(used.drop_last());
        let path = used.last();
        lemma_by_last_use(used.drop_last());
        let rest = without(before, path);
        assert(rest.no_duplicates() && !rest.contains(path)) by {
            if before.contains(path) {
                let k = before.index_of(path);
                assert forall|i: int| 0 <= i < rest.len() implies #[trigger] rest[i] == if i < k {
                    before[i]
                } else {
                    before[i + 1]
                } by {}
            }
        }
        assert(by_last_use(used) =~= seq![path] + rest);
        assert forall|j: int| 0 <= j < rest.len() implies rest[j] != path by {
            assert(rest.contains(rest[j]));
        }
    }
}

/// Where the key of a path stands, its entry is.
proof fn lemma_keys(s: Entries, path: PathKey)
    requires
        distinct_paths(s),
    ensures
        keys(s).contains(path) == holds(s, path),
        holds(s, path) ==> keys(s).index_of(path) == place_of(s, path),
        keys(s).no_duplicates(),
{
    let ks = keys(s);
    assert forall|i: int, j: int| 0 <= i < ks.len() && 0 <= j < ks.len() && i != j implies ks[i]
        != ks[j] by {
        if i < j {
            assert(s[i].0 != s[j].0);
        } else {
            assert(s[j].0 != s[i].0);
        }
    }
    if holds(s, path) {
        let k = place_of(s, path);
        assert(s[k].0 == path);
        assert(ks[k] == path);
        let i = ks.index_of(path);
        assert(ks[i] == path);
    }
    if ks.contains(path) {
        let i = ks.index_of(path);
        assert(s[i].0 == path);
    }
}

proof fn lemma_keys_at_hand(s: Entries, all: Seq<PathKey>, path: PathKey, now: i64)
    requires
        distinct_paths(s),
        all.no_duplicates(),
        keys(s) == first_few(all),
    ensures
        keys(ScriptCache::at_hand(s, path, now)) == first_few(seq![path] + without(all, path)),
        distinct_paths(ScriptCache::at_hand(s, path, now)),
        ScriptCache::at_hand(s, path, now).len() >= 1,
        ScriptCache::at_hand(s, path, now)[0].0 == path,
{
    let cap = SCRIPT_CACHE_CAP as int;
    let t = ScriptCache::at_hand(s, path, now);
    let ks = keys(s);
    let wanted = first_few(seq![path] + without(all, path));
    assert(ks.len() == s.len());
    assert(s.len() <= cap);
    lemma_keys(s, path);
    if holds(s, path) {
        lemma_used(s, path);
        let k = place_of(s, path);
        assert(s[k].0 == path);
        assert(ks[k] == path);
        assert(all[k] == path);
        assert(all.contains(path));
        assert(all.index_of(path) == k);
        assert(keys(t) =~= wanted) by {
            assert(keys(t).len() == wanted.len());
            assert forall|j: int| 0 <= j < t.len() implies keys(t)[j] == wanted[j] by {
                if j > 0 {
                    let i = if j - 1 < k {
                        j - 1
                    } else {
                        j
                    };
                    assert(t[j] == s[i]);
                    assert(ks[i] == all[i]);
                }
            }
        }
    } else {
        lemma_pushed(s, path, ScriptEntry::fresh(now), SCRIPT_CACHE_CAP as nat);
        if all.contains(path) {
            let i = all.index_of(path);
            if i < ks.len() {
                assert(ks[i] == path);
            }
            assert(i >= cap);
        }
        assert(keys(t) =~= wanted) by {
            assert(keys(t).len() == wanted.len());
            assert forall|j: int| 0 <= j < t.len() implies keys(t)[j] == wanted[j] by {
                if j > 0 {
                    assert(t[j] == s[j - 1]);
                    assert(ks[j - 1] == all[j - 1]);
                }
            }
        }
    }
}

/// What holds of the keys in every state.
#[verifier::opaque]
spec fn recent_first(s: HostState, all: Seq<PathKey>) -> bool {
    &&& s.pass.wf(s.scripted, s.cache)
    &&& distinct_paths(s.cache)
    &&& keys(s.cache) == first_few(all)
}

proof fn lemma_keys_event(s: HostState, event: PassEvent, all: Seq<PathKey>)
    requires
        recent_first(s, all),
        all.no_duplicates(),
        s.pass.awaits(event),
    ensures
        recent_first(
            s.after(HostStep::Event { event }),
            match (event, s.current()) {
                (PassEvent::Now(_), Some(path)) => seq![path] + without(all, path),
                _ => all,
            },
        ),
{
    reveal(recent_first);
    reveal(HostState::after);
    let t = s.after(HostStep::Event { event });
    if s.pass.at < s.scripted.len() {
        let q = s.scripted[s.pass.at].key();
        match event {
            PassEvent::Now(now) => {
                lemma_keys_at_hand(s.cache, all, q, now);
                let u = ScriptCache::at_hand(s.cache, q, now);
                lemma_first_replaced(u, u[0].1.looked_at(now), q);
                assert(keys(t.cache) =~= keys(u));
            },
            PassEvent::Modified(modified) => {
                lemma_first_replaced(s.cache, s.cache[0].1.dated(modified), q);
                assert(keys(t.cache) =~= keys(s.cache));
            },
            PassEvent::Outcome(outcome) => {
                lemma_first_replaced(s.cache, s.cache[0].1.loaded(outcome), q);
                assert(keys(t.cache) =~= keys(s.cache));
            },
        }
    }
}

proof fn lemma_keys_tick(s: HostState, scripted: Seq<Scripted>, all: Seq<PathKey>)
    requires
        recent_first(s, all),
    ensures
        recent_first(s.after(HostStep::Tick { scripted }), all),
{
    reveal(recent_first);
    reveal(HostState::after);
}

proof fn lemma_keys_run(steps: Seq<HostStep>)
    requires
        is_run(steps),
    ensures
        recent_first(state_after(steps), by_last_use(uses(steps))),
    decreases steps.len(),
{
    if steps.len() > 0 {
        let before = steps.drop_last();
        lemma_shorter(steps);
        lemma_keys_run(before);
        let s = state_after(before);
        let all = by_last_use(uses(before));
        match steps.last() {
            HostStep::Tick { scripted } => {
                lemma_keys_tick(s, scripted, all);
            },
            HostStep::Event { event } => {
                lemma_by_last_use(uses(before));
                lemma_keys_event(s, event, all);
                match (event, s.current()) {
                    (PassEvent::Now(_), Some(path)) => {
                        assert(uses(steps) == uses(before).push(path));
                        assert(uses(steps).drop_last() =~= uses(before));
                        assert(uses(steps).last() == path);
                    },
                    _ => {
                        assert(uses(steps) == uses(before));
                    },
                }
            },
        }
    } else {
        reveal(recent_first);
        assert(keys(state_after(steps).cache) =~= first_few(by_last_use(uses(steps))));
    }
}

/// After any number of ticks, with any number of scripts, the cache holds the
/// scripts that were used most recently, and no more of them than its limit: the
/// one that was not used for the longest time goes first.
pub proof fn the_most_recent_scripts_stay(steps: Seq<HostStep>)
    requires
        is_run(steps),
    ensures
        keys(state_after(steps).cache) == first_few(by_last_use(uses(steps))),
        by_last_use(uses(steps)).no_duplicates(),
        state_after(steps).cache.len() <= SCRIPT_CACHE_CAP,
{
    lemma_keys_run(steps);
    reveal(recent_first);
    lemma_by_last_use(uses(steps));
    assert(keys(state_after(steps).cache).len() == state_after(steps).cache.len());
}

} // verus!
