//! The live-reload supervisor's decision logic.
//!
//! Watcher events and the shutdown signal become `BuildRequest`s on one
//! shared queue; a single sequential consumer takes them strictly in
//! arrival order and decides, through `handle_request`, whether to run
//! a build or to stop. Because one consumer performs one action at a
//! time, two requests can never rebuild the output concurrently. A
//! `Debouncer` coalesces bursts of change events before they become
//! requests.

use vstd::prelude::*;

verus! {

/// Requests sent to the serving loop from the watcher and the shutdown
/// signal handler.
#[derive(Debug, PartialEq, Eq, Structural, Clone, Copy)]
pub enum BuildRequest {
    /// Trigger a rebuild.
    Build,
    /// Terminate the server.
    Terminate,
}

/// Where the supervisor stands in its life cycle.
#[derive(Debug, PartialEq, Eq, Structural, Clone, Copy)]
pub enum SupervisorState {
    /// The watcher, server and signal handler are not yet running.
    Starting,
    /// Requests are being consumed in arrival order.
    Watching,
    /// A terminate request arrived; no further work happens.
    Terminated,
}

/// What the consuming loop does with one request.
#[derive(Debug, PartialEq, Eq, Structural, Clone, Copy)]
pub enum LoopAction {
    /// Run one build, to completion, before the next request is read.
    RunBuild,
    /// Leave the loop and let the process shut down.
    Shutdown,
}

/// The supervisor's transition function: a build request while watching
/// runs one build; a terminate request ends the loop; anything arriving
/// before or after the watching phase is ignored.
pub open spec fn spec_step(state: SupervisorState, req: BuildRequest) -> (
    SupervisorState,
    Option<LoopAction>,
) {
    match state {
        SupervisorState::Watching => match req {
            BuildRequest::Build => (SupervisorState::Watching, Some(LoopAction::RunBuild)),
            BuildRequest::Terminate => (SupervisorState::Terminated, Some(LoopAction::Shutdown)),
        },
        SupervisorState::Starting => (SupervisorState::Starting, None),
        SupervisorState::Terminated => (SupervisorState::Terminated, None),
    }
}

/// Decides what to do with one request.
pub fn handle_request(state: SupervisorState, req: BuildRequest) -> (r: (
    SupervisorState,
    Option<LoopAction>,
))
    ensures
        r == spec_step(state, req),
{
    match state {
        SupervisorState::Watching => match req {
            BuildRequest::Build => (SupervisorState::Watching, Some(LoopAction::RunBuild)),
            BuildRequest::Terminate => (
                SupervisorState::Terminated,
                Some(LoopAction::Shutdown),
            ),
        },
        SupervisorState::Starting => (SupervisorState::Starting, None),
        SupervisorState::Terminated => (SupervisorState::Terminated, None),
    }
}

/// Moves the supervisor into its watching phase, once the watcher, the
/// file server and the signal handler are running.
pub fn begin_watching(state: SupervisorState) -> (r: SupervisorState)
    ensures
        state == SupervisorState::Starting ==> r == SupervisorState::Watching,
        state != SupervisorState::Starting ==> r == state,
{
    match state {
        SupervisorState::Starting => SupervisorState::Watching,
        SupervisorState::Watching => SupervisorState::Watching,
        SupervisorState::Terminated => SupervisorState::Terminated,
    }
}

/// The actions a sequential consumer takes for a run of requests, in
/// order: one request is decided at a time, so the actions form a
/// sequence and no two builds overlap.
pub open spec fn spec_actions(state: SupervisorState, reqs: Seq<BuildRequest>) -> Seq<LoopAction>
    decreases reqs.len(),
{
    if reqs.len() == 0 {
        Seq::empty()
    } else {
        let (s2, a) = spec_step(state, reqs[0]);
        (match a {
            Some(x) => seq![x],
            None => Seq::empty(),
        }) + spec_actions(s2, reqs.drop_first())
    }
}

/// How many builds a run of requests asks for before its first
/// terminate request.
pub open spec fn spec_builds_before_terminate(reqs: Seq<BuildRequest>) -> nat
    decreases reqs.len(),
{
    if reqs.len() == 0 {
        0
    } else {
        match reqs[0] {
            BuildRequest::Build => 1 + spec_builds_before_terminate(reqs.drop_first()),
            BuildRequest::Terminate => 0,
        }
    }
}

/// How many build actions a run of actions holds.
pub open spec fn spec_count_builds(actions: Seq<LoopAction>) -> nat
    decreases actions.len(),
{
    if actions.len() == 0 {
        0
    } else {
        (match actions[0] {
            LoopAction::RunBuild => 1nat,
            LoopAction::Shutdown => 0nat,
        }) + spec_count_builds(actions.drop_first())
    }
}

/// A terminated supervisor takes no further action at all.
pub proof fn lemma_terminated_inert(reqs: Seq<BuildRequest>)
    ensures
        spec_actions(SupervisorState::Terminated, reqs) == Seq::<LoopAction>::empty(),
    decreases reqs.len(),
{
    if reqs.len() > 0 {
        lemma_terminated_inert(reqs.drop_first());
        assert(spec_actions(SupervisorState::Terminated, reqs) =~= Seq::<LoopAction>::empty());
    }
}

/// Live-reload sequencing: a watching consumer runs exactly one build
/// per build request that arrives before the first terminate request,
/// and none after it. The actions are one sequence consumed in arrival
/// order, so no two of those builds ever run concurrently.
pub proof fn lemma_sequencing(reqs: Seq<BuildRequest>)
    ensures
        spec_count_builds(spec_actions(SupervisorState::Watching, reqs))
            == spec_builds_before_terminate(reqs),
    decreases reqs.len(),
{
    if reqs.len() > 0 {
        let rest = reqs.drop_first();
        match reqs[0] {
            BuildRequest::Build => {
                lemma_sequencing(rest);
                let acts = spec_actions(SupervisorState::Watching, reqs);
                assert(acts == seq![LoopAction::RunBuild] + spec_actions(
                    SupervisorState::Watching,
                    rest,
                ));
                assert(acts[0] == LoopAction::RunBuild);
                assert(acts.drop_first() =~= spec_actions(SupervisorState::Watching, rest));
                assert(spec_count_builds(acts) == 1 + spec_count_builds(acts.drop_first()));
            },
            BuildRequest::Terminate => {
                lemma_terminated_inert(rest);
                let acts = spec_actions(SupervisorState::Watching, reqs);
                assert(acts =~= seq![LoopAction::Shutdown]);
                assert(acts[0] == LoopAction::Shutdown);
                assert(acts.drop_first() =~= Seq::<LoopAction>::empty());
                assert(spec_count_builds(acts) == spec_count_builds(acts.drop_first()));
            },
        }
    }
}

/// Coalesces bursts of change notifications: an event fires only when
/// no fired event preceded it within the window.
#[derive(Debug, Clone, Copy)]
pub struct Debouncer {
    /// When the last fired event happened, if any has.
    pub last: Option<u64>,
    /// How long after a fired event further events are swallowed.
    pub window: u64,
}

/// Whether an event at `now` fires: always for the first, and otherwise
/// only when the window since the last fired event has fully passed.
pub open spec fn spec_fires(d: Debouncer, now: u64) -> bool {
    match d.last {
        None => true,
        Some(t) => now - t >= d.window,
    }
}

impl Debouncer {
    /// A fresh debouncer with the given window.
    pub fn new(window: u64) -> (d: Debouncer)
        ensures
            d.last is None,
            d.window == window,
    {
        Debouncer { last: None, window }
    }

    /// Offers one event; a fired event becomes a build request, a
    /// swallowed one is dropped.
    pub fn offer(&mut self, now: u64) -> (fire: bool)
        ensures
            fire == spec_fires(*old(self), now),
            final(self).window == old(self).window,
            final(self).last == if fire {
                Some(now)
            } else {
                old(self).last
            },
    {
        let fire = match self.last {
            None => true,
            Some(t) => now >= t && now - t >= self.window,
        };
        proof {
            match self.last {
                None => {},
                Some(t) => {
                    if now < t {
                        assert(now - t < 0);
                        assert(!spec_fires(*self, now));
                    }
                },
            }
        }
        if fire {
            self.last = Some(now);
        }
        fire
    }
}

/// Two rapid change events produce exactly one or two build requests,
/// never more: the first always fires, the second only when the window
/// between them has passed, and each fired request is consumed by the
/// one sequential loop.
pub proof fn lemma_debounce_pair(window: u64, t1: u64, t2: u64)
    requires
        t1 <= t2,
    ensures
        spec_fires((Debouncer { last: None, window }), t1),
        spec_fires((Debouncer { last: Some(t1), window }), t2) <==> t2 - t1 >= window,
        ({
            let n = 1 + (if spec_fires((Debouncer { last: Some(t1), window }), t2) {
                1int
            } else {
                0int
            });
            1 <= n <= 2
        }),
{
}

} // verus!
