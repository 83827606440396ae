//! The pass over the scripted entities at the start of a tick: one after
//! another, the `on_update` of each entity's script is found, and its file is
//! looked at and loaded where that has to be.
//!
//! The pass says what to do next, the host does it and says what came of it.

use crate::script_cache::{Entries, LoadOutcome, ScriptCache, MILLISECOND, STAT_COOLDOWN};
use crate::scripting::Scripted;
use crate::text::texts;
use vstd::prelude::*;

verus! {

/// What the pass is waiting for.
#[derive(Clone, Copy, Debug, PartialEq, Eq, Structural)]
pub enum Waiting {
    /// The time, to go on with the next entity.
    Time,
    /// When the script's file was modified.
    Look,
    /// What came of loading the script.
    Load,
}

/// What the host tells the pass.
#[derive(Clone, Copy, Debug, PartialEq, Eq, Structural)]
pub enum PassEvent {
    /// The time, in nanoseconds of a steady clock.
    Now(i64),
    /// When the script's file was modified, if that can be told.
    Modified(Option<i128>),
    /// What came of loading the script.
    Outcome(LoadOutcome),
}

/// What the host has to do next.
#[derive(Clone, Copy, Debug, PartialEq, Eq, Structural)]
pub enum PassAction {
    /// Tell the time.
    Tell,
    /// Look at the file of the current script.
    Look,
    /// Load the current script.
    Load,
    /// Nothing: the pass is over.
    Finish,
}

/// A pass over the scripted entities.
pub struct CachePass {
    /// The current entity.
    pub at: usize,
    pub waiting: Waiting,
    /// The `on_update` of each entity's script so far, if it is loaded.
    pub callables: Vec<Option<u64>>,
    /// Each `on_update` that has left the cache, and can go after the tick.
    pub released: Vec<u64>,
}

/// What a [`CachePass`] holds.
#[verifier::ext_equal]
pub struct PassState {
    pub at: int,
    pub waiting: Waiting,
    pub callables: Seq<Option<u64>>,
    pub released: Seq<u64>,
}

impl View for CachePass {
    type V = PassState;

    open spec fn view(&self) -> PassState {
        PassState {
            at: self.at as int,
            waiting: self.waiting,
            callables: self.callables@,
            released: self.released@,
        }
    }
}

pub open spec fn push_some(s: Seq<u64>, x: Option<u64>) -> Seq<u64> {
    match x {
        Some(x) => s.push(x),
        None => s,
    }
}

impl PassState {
    /// A pass that has not begun.
    pub open spec fn fresh() -> PassState {
        PassState {
            at: 0,
            waiting: Waiting::Time,
            callables: Seq::empty(),
            released: Seq::empty(),
        }
    }

    /// The pass has an answer for every entity before the current one, and what
    /// it waits for is about the script that was used last.
    pub open spec fn wf(self, scripted: Seq<Scripted>, cache: Entries) -> bool {
        &&& 0 <= self.at <= scripted.len()
        &&& self.callables.len() == self.at
        &&& self.waiting != Waiting::Time ==> {
            &&& self.at < scripted.len()
            &&& cache.len() >= 1
            &&& cache[0].0 == scripted[self.at].key()
        }
    }

    /// Whether the event is what the pass waits for.
    pub open spec fn awaits(self, event: PassEvent) -> bool {
        match event {
            PassEvent::Now(now) => self.waiting == Waiting::Time && now - STAT_COOLDOWN
                - MILLISECOND >= i64::MIN,
            PassEvent::Modified(_) => self.waiting == Waiting::Look,
            PassEvent::Outcome(_) => self.waiting == Waiting::Load,
        }
    }

    /// The pass once the current entity has its answer.
    pub open spec fn answered(self, on_update: Option<u64>) -> PassState {
        PassState {
            at: self.at + 1,
            waiting: Waiting::Time,
            callables: self.callables.push(on_update),
            ..self
        }
    }

    /// What follows an event: the cache, the pass and what to do.
    pub open spec fn next(self, scripted: Seq<Scripted>, cache: Entries, event: PassEvent) -> (
        Entries,
        PassState,
        PassAction,
    ) {
        if self.at >= scripted.len() {
            (cache, self, PassAction::Finish)
        } else {
            let path = scripted[self.at].key();
            match event {
                PassEvent::Now(now) => {
                    let s = ScriptCache::at_hand(cache, path, now);
                    let after = s.update(0, (path, s[0].1.looked_at(now)));
                    let pass = PassState {
                        released: push_some(self.released, ScriptCache::displaced(cache, path)),
                        ..self
                    };
                    if s[0].1.due(now) {
                        (after, PassState { waiting: Waiting::Look, ..pass }, PassAction::Look)
                    } else {
                        (after, pass.answered(after[0].1.on_update), PassAction::Tell)
                    }
                },
                PassEvent::Modified(mtime) => {
                    let after = cache.update(0, (path, cache[0].1.dated(mtime)));
                    if cache[0].1.outdated(mtime) {
                        (after, PassState { waiting: Waiting::Load, ..self }, PassAction::Load)
                    } else {
                        (after, self.answered(after[0].1.on_update), PassAction::Tell)
                    }
                },
                PassEvent::Outcome(outcome) => {
                    let after = cache.update(0, (path, cache[0].1.loaded(outcome)));
                    let pass = PassState {
                        released: if outcome is Unreadable {
                            self.released
                        } else {
                            push_some(self.released, cache[0].1.on_update)
                        },
                        ..self
                    };
                    (after, pass.answered(after[0].1.on_update), PassAction::Tell)
                },
            }
        }
    }
}

impl CachePass {
    /// A pass that has not begun.
    pub fn new() -> (pass: CachePass)
        ensures
            pass@ == PassState::fresh(),
    {
        let pass = CachePass {
            at: 0,
            waiting: Waiting::Time,
            callables: Vec::new(),
            released: Vec::new(),
        };
        assert(pass@.callables =~= Seq::empty());
        assert(pass@.released =~= Seq::empty());
        pass
    }

    fn answer(&mut self, on_update: Option<u64>)
        requires
            old(self).at < usize::MAX,
        ensures
            final(self)@ == old(self)@.answered(on_update),
    {
        self.callables.push(on_update);
        self.at = self.at + 1;
        self.waiting = Waiting::Time;
    }

    fn release(&mut self, on_update: Option<u64>)
        ensures
            final(self)@ == (PassState {
                released: push_some(old(self)@.released, on_update),
                ..old(self)@
            }),
    {
        if let Some(f) = on_update {
            self.released.push(f);
        }
    }

    /// Take an event and say what to do next.
    pub fn step(
        &mut self,
        cache: &mut ScriptCache,
        scripted: &Vec<Scripted>,
        event: PassEvent,
    ) -> (action: PassAction)
        requires
            old(cache).wf(),
            old(self)@.wf(scripted@, old(cache)@),
            old(self)@.awaits(event),
        ensures
            final(cache).wf(),
            final(self)@.wf(scripted@, final(cache)@),
            (final(cache)@, final(self)@, action) == old(self)@.next(
                scripted@,
                old(cache)@,
                event,
            ),
            action == PassAction::Finish <==> final(self)@.callables.len() == scripted@.len()
                && old(self)@.at == scripted@.len(),
    {
        if self.at >= scripted.len() {
            return PassAction::Finish;
        }
        let path = &scripted[self.at].parts;
        match event {
            PassEvent::Now(now) => {
                let (due, displaced) = cache.begin(path, now);
                self.release(displaced);
                if due {
                    self.waiting = Waiting::Look;
                    PassAction::Look
                } else {
                    self.answer_from(cache, path);
                    PassAction::Tell
                }
            },
            PassEvent::Modified(mtime) => {
                if cache.look(path, mtime) {
                    self.waiting = Waiting::Load;
                    PassAction::Load
                } else {
                    self.answer_from(cache, path);
                    PassAction::Tell
                }
            },
            PassEvent::Outcome(outcome) => {
                let replaced = cache.finish(path, outcome);
                self.release(replaced);
                self.answer_from(cache, path);
                PassAction::Tell
            },
        }
    }

    /// Answer with the `on_update` of the script that was used last.
    fn answer_from(&mut self, cache: &ScriptCache, path: &Vec<String>)
        requires
            old(self).at < usize::MAX,
            cache.wf(),
            cache@.len() >= 1,
            cache@[0].0 == texts(path@),
        ensures
            final(self)@ == old(self)@.answered(cache@[0].1.on_update),
    {
        proof {
            cache.first_is_found(texts(path@));
        }
        let on_update = cache.on_update(path);
        self.answer(on_update);
    }
}

/// How much is left to do, at most.
pub open spec fn steps_left(pass: PassState, scripted: int) -> int {
    3 * (scripted - pass.at) - (match pass.waiting {
        Waiting::Time => 0int,
        Waiting::Look => 1int,
        Waiting::Load => 2int,
    })
}

/// A pass comes to an end: every event brings it nearer, and when it is over
/// every scripted entity has its answer.
pub proof fn passes_end(
    pass: PassState,
    scripted: Seq<Scripted>,
    cache: Entries,
    event: PassEvent,
)
    requires
        pass.wf(scripted, cache),
        pass.awaits(event),
    ensures
        ({
            let (after, next, action) = pass.next(scripted, cache, event);
            &&& action != PassAction::Finish ==> 0 <= steps_left(
                next,
                scripted.len() as int,
            ) < steps_left(pass, scripted.len() as int)
            &&& action == PassAction::Finish ==> next.callables.len() == scripted.len()
        }),
{
}

/// An answer is that of the entity's own script, as the cache then has it; the
/// answers that were there before stay.
pub proof fn answers_are_of_their_scripts(
    pass: PassState,
    scripted: Seq<Scripted>,
    cache: Entries,
    event: PassEvent,
)
    requires
        pass.wf(scripted, cache),
        pass.awaits(event),
        pass.at < scripted.len(),
    ensures
        ({
            let (after, next, action) = pass.next(scripted, cache, event);
            &&& pass.callables.is_prefix_of(next.callables)
            &&& next.at > pass.at ==> {
                &&& next.callables[pass.at] == after[0].1.on_update
                &&& after.len() >= 1 ==> after[0].0 == scripted[pass.at].key()
            }
        }),
{
}

} // verus!
