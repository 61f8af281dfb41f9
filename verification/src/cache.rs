//! The compile cache: one tracked entry per artifact id, moving from
//! untracked, to in flight, to exactly one immutable terminal outcome.
//!
//! The cache itself launches nothing; it decides. A caller that is handed
//! `Launch` is the one caller that must stage and compile; everyone else is
//! told to wait or is served the recorded outcome. The step relation and the
//! lemmas at the bottom state the two guarantees that callers lean on: a
//! given id is launched at most once over any run of operations, and a
//! terminal outcome never changes once recorded.

use vstd::prelude::*;
use crate::text::str_eq;

verus! {

/// The terminal result of one compilation.
#[derive(Debug, PartialEq, Eq)]
pub enum CompileOutcome {
    /// The compile command exited with status 0; the artifact is runnable.
    Compiled,
    /// The compile command exited with a non-zero status; the captured
    /// diagnostics are served to every caller of the same artifact.
    Failed(String),
}

impl CompileOutcome {
    /// A copy equal to `self`.
    pub fn duplicate(&self) -> (r: CompileOutcome)
        ensures
            r == *self,
    {
        match self {
            CompileOutcome::Compiled => CompileOutcome::Compiled,
            CompileOutcome::Failed(e) => CompileOutcome::Failed(e.clone()),
        }
    }
}

/// What the cache knows about one artifact id.
#[derive(Debug, PartialEq, Eq)]
pub enum EntryState {
    /// A compile was launched and has not yet been recorded as finished.
    InFlight,
    /// The compile finished; the outcome is final.
    Done(CompileOutcome),
}

/// The terminal state recorded for a compile that exited with
/// `exit_status`, with `diagnostics` the captured compiler output.
pub open spec fn outcome_of(exit_status: i32, diagnostics: String) -> CompileOutcome {
    if exit_status == 0 {
        CompileOutcome::Compiled
    } else {
        CompileOutcome::Failed(diagnostics)
    }
}

/// What the cache tells a caller that asks for an artifact.
#[derive(Debug, PartialEq, Eq)]
pub enum BeginAction {
    /// The id was untracked; this caller, and no other, must compile it.
    Launch,
    /// Another caller's compile is in flight; poll until it finishes.
    Wait,
    /// The terminal outcome, served without recompiling.
    Ready(CompileOutcome),
}

/// Finds the state tracked under `id`, scanning front to back.
pub open spec fn state_in(s: Seq<(String, EntryState)>, id: Seq<char>) -> Option<EntryState>
    decreases s.len(),
{
    if s.len() == 0 {
        None
    } else if s[0].0@ == id {
        Some(s[0].1)
    } else {
        state_in(s.drop_first(), id)
    }
}

/// The compile cache, keyed by artifact id.
pub struct CompileCache {
    entries: Vec<(String, EntryState)>,
}

/// One caller was told to launch `id`: it was untracked before, is in
/// flight after, and nothing else moved.
pub open spec fn launch_step(pre: CompileCache, post: CompileCache, id: Seq<char>) -> bool {
    &&& pre.spec_state(id) is None
    &&& post.spec_state(id) == Some(EntryState::InFlight)
    &&& forall|k: Seq<char>| k != id ==> post.spec_state(k) == pre.spec_state(k)
}

/// The launcher recorded `id`'s terminal outcome, and nothing else moved.
pub open spec fn finish_step(
    pre: CompileCache,
    post: CompileCache,
    id: Seq<char>,
    outcome: CompileOutcome,
) -> bool {
    &&& pre.spec_state(id) == Some(EntryState::InFlight)
    &&& post.spec_state(id) == Some(EntryState::Done(outcome))
    &&& forall|k: Seq<char>| k != id ==> post.spec_state(k) == pre.spec_state(k)
}

/// Everything one cache operation can do: leave the cache alone, take one
/// id in flight, or record one terminal outcome.
pub open spec fn cache_step(pre: CompileCache, post: CompileCache) -> bool {
    ||| post == pre
    ||| exists|id: Seq<char>| launch_step(pre, post, id)
    ||| exists|id: Seq<char>, outcome: CompileOutcome| finish_step(pre, post, id, outcome)
}

impl CompileCache {
    /// The tracked (id, state) pairs, newest first.
    pub closed spec fn entries_seq(self) -> Seq<(String, EntryState)> {
        self.entries@
    }

    /// Well-formed: no id is tracked twice.
    pub open spec fn wf(self) -> bool {
        forall|i: int, j: int|
            0 <= i < j < self.entries_seq().len() ==> self.entries_seq()[i].0@
                != self.entries_seq()[j].0@
    }

    /// The state tracked under `id`, if any.
    pub open spec fn spec_state(self, id: Seq<char>) -> Option<EntryState> {
        state_in(self.entries_seq(), id)
    }

    /// An empty cache: nothing compiled yet.
    pub fn new() -> (r: CompileCache)
        ensures
            r.wf(),
            forall|id: Seq<char>| r.spec_state(id) is None,
    {
        CompileCache { entries: Vec::new() }
    }

    /// The index holding `id`, if it is tracked.
    fn find_index(&self, id: &str) -> (r: Option<usize>)
        requires
            self.wf(),
        ensures
            match r {
                Some(i) => i < self.entries_seq().len() && self.entries_seq()[i as int].0@ == id@
                    && self.spec_state(id@) == Some(self.entries_seq()[i as int].1),
                None => self.spec_state(id@) is None,
            },
    {
        let n = self.entries.len();
        let mut i: usize = 0;
        proof {
            assert(self.entries_seq().skip(0) =~= self.entries_seq());
        }
        while i < n
            invariant
                self.wf(),
                n == self.entries_seq().len(),
                i <= n,
                state_in(self.entries_seq(), id@) == state_in(
                    self.entries_seq().skip(i as int),
                    id@,
                ),
            decreases n - i,
        {
            let entry = &self.entries[i];
            proof {
                assert(self.entries_seq().skip(i as int)[0] == self.entries_seq()[i as int]);
                assert(self.entries_seq().skip(i as int).drop_first() =~= self.entries_seq().skip(
                    i as int + 1,
                ));
            }
            if str_eq(entry.0.as_str(), id) {
                return Some(i);
            }
            i += 1;
        }
        None
    }

    /// Asks for an artifact. An untracked id becomes in flight and the
    /// caller is told to launch its compile; an in-flight id tells the
    /// caller to wait; a terminal outcome is served as recorded, without
    /// recompiling. In particular a failure recorded once is handed back
    /// verbatim to every later caller of the same id.
    pub fn begin(&mut self, id: &str) -> (r: BeginAction)
        requires
            old(self).wf(),
        ensures
            final(self).wf(),
            cache_step(*old(self), *final(self)),
            match r {
                BeginAction::Launch => launch_step(*old(self), *final(self), id@),
                BeginAction::Wait => old(self).spec_state(id@) == Some(EntryState::InFlight)
                    && *final(self) == *old(self),
                BeginAction::Ready(outcome) => old(self).spec_state(id@) == Some(
                    EntryState::Done(outcome),
                ) && *final(self) == *old(self),
            },
    {
        match self.find_index(id) {
            Some(i) => {
                match &self.entries[i].1 {
                    EntryState::InFlight => BeginAction::Wait,
                    EntryState::Done(outcome) => BeginAction::Ready(outcome.duplicate()),
                }
            },
            None => {
                proof {
                    lemma_state_iff_present(self.entries_seq(), id@);
                }
                self.entries.insert(0, (id.to_owned(), EntryState::InFlight));
                proof {
                    assert(self.entries_seq().drop_first() =~= old(self).entries_seq());
                    assert forall|k: Seq<char>| k != id@ implies self.spec_state(k) == old(
                        self,
                    ).spec_state(k) by {
                        assert(self.spec_state(k) == state_in(
                            self.entries_seq().drop_first(),
                            k,
                        ));
                    }
                    assert(launch_step(*old(self), *self, id@));
                }
                BeginAction::Launch
            },
        }
    }

    /// Records the terminal outcome of the one launched compile for `id`:
    /// `Compiled` on exit status 0, otherwise `Failed` carrying the
    /// captured diagnostics. Only an in-flight id can be recorded, exactly
    /// once; anything else leaves the cache unchanged, and the result says
    /// whether the outcome was recorded.
    pub fn finish(&mut self, id: &str, exit_status: i32, diagnostics: String) -> (recorded: bool)
        requires
            old(self).wf(),
        ensures
            final(self).wf(),
            cache_step(*old(self), *final(self)),
            recorded == (old(self).spec_state(id@) == Some(EntryState::InFlight)),
            recorded ==> finish_step(
                *old(self),
                *final(self),
                id@,
                outcome_of(exit_status, diagnostics),
            ),
            !recorded ==> *final(self) == *old(self),
    {
        match self.find_index(id) {
            Some(i) => {
                match &self.entries[i].1 {
                    EntryState::Done(_) => false,
                    EntryState::InFlight => {
                        let outcome = if exit_status == 0 {
                            CompileOutcome::Compiled
                        } else {
                            CompileOutcome::Failed(diagnostics)
                        };
                        let key = id.to_owned();
                        let ghost pre_entries = self.entries_seq();
                        self.entries.set(i, (key, EntryState::Done(outcome)));
                        proof {
                            assert forall|k: Seq<char>| true implies {
                                &&& (k == id@ ==> self.spec_state(k) == Some(
                                    EntryState::Done(outcome_of(exit_status, diagnostics)),
                                ))
                                &&& (k != id@ ==> self.spec_state(k) == old(self).spec_state(k))
                            } by {
                                lemma_state_update(
                                    pre_entries,
                                    i as int,
                                    self.entries_seq()[i as int],
                                    k,
                                );
                            }
                            assert(finish_step(
                                *old(self),
                                *self,
                                id@,
                                outcome_of(exit_status, diagnostics),
                            ));
                        }
                        true
                    },
                }
            },
            None => false,
        }
    }

    /// Reads the recorded outcome for `id`: `Some` exactly when its compile
    /// has finished.
    pub fn poll(&self, id: &str) -> (r: Option<CompileOutcome>)
        requires
            self.wf(),
        ensures
            match r {
                Some(outcome) => self.spec_state(id@) == Some(EntryState::Done(outcome)),
                None => self.spec_state(id@) is None || self.spec_state(id@) == Some(
                    EntryState::InFlight,
                ),
            },
    {
        match self.find_index(id) {
            Some(i) => match &self.entries[i].1 {
                EntryState::InFlight => None,
                EntryState::Done(outcome) => Some(outcome.duplicate()),
            },
            None => None,
        }
    }
}

/// The scan finds `id` exactly when some entry carries it.
proof fn lemma_state_iff_present(s: Seq<(String, EntryState)>, id: Seq<char>)
    ensures
        (state_in(s, id) is Some) <==> exists|i: int| 0 <= i < s.len() && s[i].0@ == id,
    decreases s.len(),
{
    if s.len() > 0 && s[0].0@ != id {
        lemma_state_iff_present(s.drop_first(), id);
        if state_in(s, id) is Some {
            let i = choose|i: int| 0 <= i < s.drop_first().len() && s.drop_first()[i].0@ == id;
            assert(s[i + 1].0@ == id);
        }
        if exists|i: int| 0 <= i < s.len() && s[i].0@ == id {
            let i = choose|i: int| 0 <= i < s.len() && s[i].0@ == id;
            assert(s.drop_first()[i - 1].0@ == id);
        }
    }
}

/// Updating the entry that holds a key, with the key kept, changes that
/// key's state and no other.
proof fn lemma_state_update(
    s: Seq<(String, EntryState)>,
    i: int,
    e: (String, EntryState),
    k: Seq<char>,
)
    requires
        0 <= i < s.len(),
        e.0@ == s[i].0@,
        forall|a: int, b: int| 0 <= a < b < s.len() ==> s[a].0@ != s[b].0@,
    ensures
        k == e.0@ ==> state_in(s.update(i, e), k) == Some(e.1),
        k != e.0@ ==> state_in(s.update(i, e), k) == state_in(s, k),
    decreases s.len(),
{
    let t = s.update(i, e);
    if i == 0 {
        assert(t[0] == e);
        if k != e.0@ {
            assert(t.drop_first() =~= s.drop_first());
        }
    } else {
        assert(t[0] == s[0]);
        assert(t.drop_first() =~= s.drop_first().update(i - 1, e));
        assert forall|a: int, b: int|
            0 <= a < b < s.drop_first().len() implies s.drop_first()[a].0@
            != s.drop_first()[b].0@ by {
            assert(s.drop_first()[a] == s[a + 1]);
            assert(s.drop_first()[b] == s[b + 1]);
        }
        assert(s.drop_first()[i - 1] == s[i]);
        lemma_state_update(s.drop_first(), i - 1, e, k);
        assert(s[0].0@ != s[i].0@);
    }
}

/// An id the cache tracks stays tracked across any one operation.
pub proof fn lemma_tracked_persists(pre: CompileCache, post: CompileCache, id: Seq<char>)
    requires
        cache_step(pre, post),
        pre.spec_state(id) is Some,
    ensures
        post.spec_state(id) is Some,
{
    if post == pre {
    } else if exists|x: Seq<char>| launch_step(pre, post, x) {
        let x = choose|x: Seq<char>| launch_step(pre, post, x);
        if x != id {
            assert(post.spec_state(id) == pre.spec_state(id));
        }
    } else {
        let (x, outcome) = choose|x: Seq<char>, outcome: CompileOutcome|
            finish_step(pre, post, x, outcome);
        if x != id {
            assert(post.spec_state(id) == pre.spec_state(id));
        }
    }
}

/// A terminal outcome, once recorded, survives any one operation unchanged.
pub proof fn lemma_terminal_stable(
    pre: CompileCache,
    post: CompileCache,
    id: Seq<char>,
    outcome: CompileOutcome,
)
    requires
        cache_step(pre, post),
        pre.spec_state(id) == Some(EntryState::Done(outcome)),
    ensures
        post.spec_state(id) == Some(EntryState::Done(outcome)),
{
    if post == pre {
    } else if exists|x: Seq<char>| launch_step(pre, post, x) {
        let x = choose|x: Seq<char>| launch_step(pre, post, x);
        if x != id {
            assert(post.spec_state(id) == pre.spec_state(id));
        }
    } else {
        let (x, o2) = choose|x: Seq<char>, o2: CompileOutcome| finish_step(pre, post, x, o2);
        if x != id {
            assert(post.spec_state(id) == pre.spec_state(id));
        }
    }
}

/// Idempotence over a whole run: once an id's terminal outcome is recorded,
/// every later state of the cache serves exactly that outcome, so identical
/// requests converge on one compile result.
pub proof fn lemma_terminal_stable_run(
    states: Seq<CompileCache>,
    id: Seq<char>,
    outcome: CompileOutcome,
)
    requires
        states.len() > 0,
        forall|i: int| 0 <= i < states.len() - 1 ==> cache_step(#[trigger] states[i], states[i + 1]),
        states[0].spec_state(id) == Some(EntryState::Done(outcome)),
    ensures
        states.last().spec_state(id) == Some(EntryState::Done(outcome)),
    decreases states.len(),
{
    if states.len() > 1 {
        lemma_terminal_stable(states[0], states[1], id, outcome);
        assert forall|i: int|
            0 <= i < states.drop_first().len() - 1 implies cache_step(
            #[trigger] states.drop_first()[i],
            states.drop_first()[i + 1],
        ) by {
            assert(states.drop_first()[i] == states[i + 1]);
            assert(states.drop_first()[i + 1] == states[i + 2]);
        }
        lemma_terminal_stable_run(states.drop_first(), id, outcome);
        assert(states.drop_first().last() == states.last());
    }
}

/// An id tracked at one point of a run is still tracked at every later
/// point.
pub proof fn lemma_tracked_persists_run(states: Seq<CompileCache>, from: int, to: int, id: Seq<char>)
    requires
        forall|i: int| 0 <= i < states.len() - 1 ==> cache_step(#[trigger] states[i], states[i + 1]),
        0 <= from <= to < states.len(),
        states[from].spec_state(id) is Some,
    ensures
        states[to].spec_state(id) is Some,
    decreases to - from,
{
    if from < to {
        lemma_tracked_persists(states[from], states[from + 1], id);
        lemma_tracked_persists_run(states, from + 1, to, id);
    }
}

/// At most one launch per artifact id: once some step of a run launches
/// `id`, no later step can launch it again, so no artifact is ever compiled
/// by two processes.
pub proof fn lemma_at_most_one_launch(states: Seq<CompileCache>, i: int, j: int, id: Seq<char>)
    requires
        forall|k: int| 0 <= k < states.len() - 1 ==> cache_step(#[trigger] states[k], states[k + 1]),
        0 <= i < j,
        j + 1 < states.len(),
        launch_step(states[i], states[i + 1], id),
    ensures
        !launch_step(states[j], states[j + 1], id),
{
    lemma_tracked_persists_run(states, i + 1, j, id);
}

} // verus!
