//! The dispatch queue's decisions: jobs in arrival order, at most one on the
//! wire, at most one reconnection under way, and an answer for every job.
use vstd::prelude::*;

verus! {

/// What the queue believes of the link.
#[derive(Debug, Clone, Copy, PartialEq, Eq, Structural)]
pub enum LinkHealth {
    Healthy,
    Faulted,
    Reconnecting,
}

/// What the consumer is to do next.
#[derive(Debug, Clone, Copy, PartialEq, Eq, Structural)]
pub enum Action {
    /// Nothing, until the next event.
    Idle,
    /// Send the job to the printer, then report the outcome with `write_done`.
    Transmit(u64),
    /// Answer the job with a rejection.
    Reject(u64),
    /// Answer the job with a rejection and start the one reconnection; report
    /// its outcome with `open_done`.
    RejectAndReopen(u64),
}

/// The queue's state as a value.
pub struct DispatchState {
    /// The first session attempt has finished.
    pub started: bool,
    pub health: LinkHealth,
    /// Jobs not yet taken, in arrival order.
    pub pending: Seq<u64>,
    /// The job on the wire.
    pub in_flight: Option<u64>,
}

/// The state before the first session attempt has finished.
pub open spec fn initial_state() -> DispatchState {
    DispatchState {
        started: false,
        health: LinkHealth::Reconnecting,
        pending: Seq::empty(),
        in_flight: None,
    }
}

/// A job is on the wire only over a healthy link, and nothing is taken before
/// the first session attempt has finished.
pub open spec fn state_wf(s: DispatchState) -> bool {
    &&& s.in_flight is Some ==> s.health == LinkHealth::Healthy
    &&& !s.started ==> s.health == LinkHealth::Reconnecting && s.in_flight is None
}

/// A job arrives.
pub open spec fn after_submit(s: DispatchState, job: u64) -> DispatchState {
    DispatchState { pending: s.pending.push(job), ..s }
}

/// The queue takes its next decision.
pub open spec fn after_next(s: DispatchState) -> (DispatchState, Action) {
    if !s.started || s.in_flight is Some || s.pending.len() == 0 {
        (s, Action::Idle)
    } else {
        let job = s.pending[0];
        let rest = s.pending.drop_first();
        match s.health {
            LinkHealth::Healthy => (
                DispatchState { pending: rest, in_flight: Some(job), ..s },
                Action::Transmit(job),
            ),
            LinkHealth::Faulted => (
                DispatchState { pending: rest, health: LinkHealth::Reconnecting, ..s },
                Action::RejectAndReopen(job),
            ),
            LinkHealth::Reconnecting => (DispatchState { pending: rest, ..s }, Action::Reject(job)),
        }
    }
}

/// The job on the wire has been sent (`ok`) or has failed.
pub open spec fn after_write(s: DispatchState, ok: bool) -> DispatchState {
    match s.in_flight {
        Some(_) => DispatchState {
            in_flight: None,
            health: if ok { LinkHealth::Healthy } else { LinkHealth::Faulted },
            ..s
        },
        None => s,
    }
}

/// A session attempt has succeeded (`ok`) or failed.
pub open spec fn after_open(s: DispatchState, ok: bool) -> DispatchState {
    if s.health == LinkHealth::Reconnecting {
        DispatchState {
            started: true,
            health: if ok { LinkHealth::Healthy } else { LinkHealth::Faulted },
            ..s
        }
    } else {
        s
    }
}

/// Every step keeps the queue well formed.
pub proof fn lemma_steps_keep_wf(s: DispatchState, job: u64, ok: bool)
    requires
        state_wf(s),
    ensures
        state_wf(after_submit(s, job)),
        state_wf(after_next(s).0),
        state_wf(after_write(s, ok)),
        state_wf(after_open(s, ok)),
{
}

/// Jobs leave the queue in arrival order, one at a time, and only a healthy
/// link gets one on the wire; a job taken over a link that is not healthy is
/// rejected at once, and only the first such job starts a reconnection.
pub proof fn lemma_next_decision(s: DispatchState)
    requires
        state_wf(s),
    ensures
        ({
            let (t, a) = after_next(s);
            &&& a is Transmit ==> s.health == LinkHealth::Healthy && s.in_flight is None
                && a->Transmit_0 == s.pending[0] && t.pending == s.pending.drop_first()
                && t.in_flight == Some(s.pending[0])
            &&& a is RejectAndReopen ==> s.health == LinkHealth::Faulted
                && a->RejectAndReopen_0 == s.pending[0] && t.health == LinkHealth::Reconnecting
            &&& a is Reject ==> s.health == LinkHealth::Reconnecting && a->Reject_0 == s.pending[0]
                && t.health == LinkHealth::Reconnecting
            &&& a is Idle ==> t == s
            &&& s.in_flight is Some ==> a is Idle
            &&& s.started && s.in_flight is None && s.pending.len() > 0 ==> !(a is Idle)
        }),
{
}

/// The dispatch queue of one printer.
pub struct Dispatcher {
    started: bool,
    health: LinkHealth,
    pending: Vec<u64>,
    in_flight: Option<u64>,
}

impl View for Dispatcher {
    type V = DispatchState;

    closed spec fn view(&self) -> DispatchState {
        DispatchState {
            started: self.started,
            health: self.health,
            pending: self.pending@,
            in_flight: self.in_flight,
        }
    }
}

impl Dispatcher {
    /// The queue while the first session attempt is under way.
    pub fn new() -> (r: Self)
        ensures
            r@ == initial_state(),
    {
        let r = Dispatcher {
            started: false,
            health: LinkHealth::Reconnecting,
            pending: Vec::new(),
            in_flight: None,
        };
        assert(r@.pending =~= Seq::<u64>::empty());
        r
    }

    /// A job arrives; it waits behind those that came before it.
    pub fn submit(&mut self, job: u64)
        ensures
            final(self)@ == after_submit(old(self)@, job),
    {
        self.pending.push(job);
    }

    /// The next thing to do.
    pub fn next_action(&mut self) -> (r: Action)
        ensures
            (final(self)@, r) == after_next(old(self)@),
    {
        if !self.started || self.in_flight.is_some() || self.pending.len() == 0 {
            return Action::Idle;
        }
        let job = self.pending.remove(0);
        assert(self.pending@ =~= old(self)@.pending.drop_first());
        match self.health {
            LinkHealth::Healthy => {
                self.in_flight = Some(job);
                Action::Transmit(job)
            },
            LinkHealth::Faulted => {
                self.health = LinkHealth::Reconnecting;
                Action::RejectAndReopen(job)
            },
            LinkHealth::Reconnecting => Action::Reject(job),
        }
    }

    /// The job on the wire has been sent (`ok`) or has failed; gives the job
    /// and the answer it gets, or `None` when no job was on the wire.
    pub fn write_done(&mut self, ok: bool) -> (r: Option<(u64, bool)>)
        ensures
            final(self)@ == after_write(old(self)@, ok),
            r == (match old(self)@.in_flight {
                Some(job) => Some((job, ok)),
                None => None,
            }),
    {
        match self.in_flight {
            Some(job) => {
                self.in_flight = None;
                self.health = if ok { LinkHealth::Healthy } else { LinkHealth::Faulted };
                Some((job, ok))
            },
            None => None,
        }
    }

    /// A session attempt has succeeded (`ok`) or failed.
    pub fn open_done(&mut self, ok: bool)
        ensures
            final(self)@ == after_open(old(self)@, ok),
    {
        if self.health == LinkHealth::Reconnecting {
            self.started = true;
            self.health = if ok { LinkHealth::Healthy } else { LinkHealth::Faulted };
        }
    }

    pub fn health(&self) -> (r: LinkHealth)
        ensures
            r == self@.health,
    {
        self.health
    }

    /// The job on the wire, if any.
    pub fn in_flight(&self) -> (r: Option<u64>)
        ensures
            r == self@.in_flight,
    {
        self.in_flight
    }

    /// How many jobs wait.
    pub fn pending_len(&self) -> (r: usize)
        ensures
            r == self@.pending.len(),
    {
        self.pending.len()
    }
}

} // verus!
