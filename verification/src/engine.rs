//! The event-driven simulation kernel: a queue of timed wake events, a
//! monotone virtual clock, and wake-on-message fan-out.
//!
//! Dispatch order is deterministic: the pending event with the earliest
//! virtual time runs next, ties broken by the order the events were
//! queued. Modules the engine cannot run itself — participants whose
//! work happens outside it — are registered as external: when such a
//! module's turn comes, `step` hands control back to the caller, who
//! performs the work against the fabric and reports back with
//! `finish_external`.

use vstd::prelude::*;

use crate::comms::CommsState;
use crate::comms::ModuleId;
use crate::comms::ReadTopicHandle;
use crate::comms::WriteTopicHandle;
use crate::market_agent::MarketAgent;
use crate::market_agent::MarketAgentBuilder;
use crate::module::Module;
use crate::replay::BinanceRepublisher;
use crate::replay::BinanceRepublisherBuilder;
use crate::time::SimulationTime;

verus! {

#[derive(Debug, Clone, Copy, PartialEq, Eq, Structural)]
pub enum EngineEvent {
    Run(ModuleId),
}

/// A wake event: run a module at a virtual time. `seq` records the
/// order events were queued, breaking time ties deterministically.
#[derive(Debug, Clone, Copy, PartialEq, Eq, Structural)]
pub struct TimedEvent {
    pub time: u64,
    pub seq: u64,
    pub event: EngineEvent,
}

/// `a` runs strictly before `b`.
pub open spec fn lex_lt(a: TimedEvent, b: TimedEvent) -> bool {
    a.time < b.time || (a.time == b.time && a.seq < b.seq)
}

/// `q[i]` is the event dispatched next: nothing runs strictly before
/// it, and it strictly precedes every earlier-queued candidate.
pub open spec fn is_first_min(q: Seq<TimedEvent>, i: int) -> bool {
    &&& 0 <= i < q.len()
    &&& forall|j: int| 0 <= j < q.len() ==> !lex_lt(#[trigger] q[j], q[i])
    &&& forall|j: int| 0 <= j < i ==> lex_lt(q[i], #[trigger] q[j])
}

/// The dispatch choice is a function of the queue: at most one event is
/// first-minimal, so equal schedulers make equal decisions.
pub proof fn lemma_first_min_unique(q: Seq<TimedEvent>, i: int, j: int)
    requires
        is_first_min(q, i),
        is_first_min(q, j),
    ensures
        i == j,
{
    if i < j {
        assert(lex_lt(q[j], q[i]));
        assert(!lex_lt(q[j], q[i]));
    }
    if j < i {
        assert(lex_lt(q[i], q[j]));
        assert(!lex_lt(q[i], q[j]));
    }
}

/// A participant whose `sync` and `one_iteration` run outside the
/// engine. The engine only schedules it; the caller does its work.
#[derive(Debug)]
pub struct ExternalModule {
    pub wake_on_message: bool,
    pub next_at: Option<u64>,
}

/// Every participant the engine can own.
#[derive(Debug)]
pub enum AnyModule {
    Republisher(BinanceRepublisher),
    Agent(MarketAgent),
    External(ExternalModule),
}

impl Module for AnyModule {
    open spec fn inv(&self) -> bool {
        match self {
            AnyModule::Republisher(m) => <BinanceRepublisher as Module>::inv(m),
            AnyModule::Agent(m) => <MarketAgent as Module>::inv(m),
            AnyModule::External(_) => true,
        }
    }

    open spec fn handles_ok(&self, comms: &CommsState) -> bool {
        match self {
            AnyModule::Republisher(m) => <BinanceRepublisher as Module>::handles_ok(m, comms),
            AnyModule::Agent(m) => <MarketAgent as Module>::handles_ok(m, comms),
            AnyModule::External(_) => true,
        }
    }

    open spec fn spec_next_at(&self) -> Option<u64> {
        match self {
            AnyModule::Republisher(m) => <BinanceRepublisher as Module>::spec_next_at(m),
            AnyModule::Agent(m) => <MarketAgent as Module>::spec_next_at(m),
            AnyModule::External(m) => m.next_at,
        }
    }

    open spec fn spec_wake_on_message(&self) -> bool {
        match self {
            AnyModule::Republisher(m) => <BinanceRepublisher as Module>::spec_wake_on_message(m),
            AnyModule::Agent(m) => <MarketAgent as Module>::spec_wake_on_message(m),
            AnyModule::External(m) => m.wake_on_message,
        }
    }

    open spec fn started_from(&self, pre: &Self) -> bool {
        match (self, pre) {
            (AnyModule::Republisher(m), AnyModule::Republisher(p)) => <BinanceRepublisher as Module>::started_from(m, p),
            (AnyModule::Agent(m), AnyModule::Agent(p)) => <MarketAgent as Module>::started_from(m, p),
            (AnyModule::External(m), AnyModule::External(p)) => m == p,
            _ => false,
        }
    }

    open spec fn terminated_from(&self, pre: &Self) -> bool {
        match (self, pre) {
            (AnyModule::Republisher(m), AnyModule::Republisher(p)) => <BinanceRepublisher as Module>::terminated_from(m, p),
            (AnyModule::Agent(m), AnyModule::Agent(p)) => <MarketAgent as Module>::terminated_from(m, p),
            (AnyModule::External(m), AnyModule::External(p)) => m == p,
            _ => false,
        }
    }

    open spec fn sync_rel(&self, pre: &Self, pre_comms: &CommsState, post_comms: &CommsState, r: bool) -> bool {
        match (self, pre) {
            (AnyModule::Republisher(m), AnyModule::Republisher(p)) => <BinanceRepublisher as Module>::sync_rel(m, p, pre_comms, post_comms, r),
            (AnyModule::Agent(m), AnyModule::Agent(p)) => <MarketAgent as Module>::sync_rel(m, p, pre_comms, post_comms, r),
            (AnyModule::External(m), AnyModule::External(p)) => m == p && post_comms == pre_comms
                && !r,
            _ => false,
        }
    }

    open spec fn iter_rel(&self, pre: &Self, pre_comms: &CommsState, post_comms: &CommsState) -> bool {
        match (self, pre) {
            (AnyModule::Republisher(m), AnyModule::Republisher(p)) => <BinanceRepublisher as Module>::iter_rel(m, p, pre_comms, post_comms),
            (AnyModule::Agent(m), AnyModule::Agent(p)) => <MarketAgent as Module>::iter_rel(m, p, pre_comms, post_comms),
            (AnyModule::External(m), AnyModule::External(p)) => m == p && post_comms == pre_comms,
            _ => false,
        }
    }

    fn start(&mut self) {
        match self {
            AnyModule::Republisher(m) => m.start(),
            AnyModule::Agent(m) => m.start(),
            AnyModule::External(_) => {},
        }
    }

    fn sync(&mut self, comms: &mut CommsState) -> (r: bool) {
        match self {
            AnyModule::Republisher(m) => m.sync(comms),
            AnyModule::Agent(m) => m.sync(comms),
            AnyModule::External(_) => false,
        }
    }

    fn one_iteration(&mut self, comms: &mut CommsState) {
        match self {
            AnyModule::Republisher(m) => m.one_iteration(comms),
            AnyModule::Agent(m) => m.one_iteration(comms),
            AnyModule::External(_) => {},
        }
    }

    fn next_iteration_start_at(&self) -> Option<u64> {
        match self {
            AnyModule::Republisher(m) => m.next_iteration_start_at(),
            AnyModule::Agent(m) => m.next_iteration_start_at(),
            AnyModule::External(m) => m.next_at,
        }
    }

    fn wake_on_message(&self) -> bool {
        match self {
            AnyModule::Republisher(m) => m.wake_on_message(),
            AnyModule::Agent(m) => m.wake_on_message(),
            AnyModule::External(m) => m.wake_on_message,
        }
    }

    fn terminate(&mut self) {
        match self {
            AnyModule::Republisher(m) => m.terminate(),
            AnyModule::Agent(m) => m.terminate(),
            AnyModule::External(_) => {},
        }
    }
}

/// A module's handle validity depends only on the frozen topology.
proof fn lemma_handles_ok_same_topology(m: &AnyModule, c1: &CommsState, c2: &CommsState)
    requires
        m.handles_ok(c1),
        c1.same_topology(*c2),
    ensures
        m.handles_ok(c2),
{
}

/// Whether any topic module `m` subscribes to advanced past `last`.
pub open spec fn has_topic_update(comms: CommsState, m: int, last: u64) -> bool {
    exists|k: int|
        0 <= k < comms.modules@[m].read_topics@.len() && comms.topics@[(
        #[trigger] comms.modules@[m].read_topics@[k]).slot as int].last_updated_at > last
}

/// The wake events the startup pass queues from module `i` on: one per
/// self-scheduling module, in registration order, with consecutive
/// queueing numbers. Returns the events and the next queueing number.
pub open spec fn startup_events(modules: Seq<AnyModule>, i: int, seq: u64) -> (
    Seq<TimedEvent>,
    u64,
)
    decreases modules.len() - i,
    when 0 <= i <= modules.len()
{
    if i >= modules.len() {
        (Seq::empty(), seq)
    } else {
        match modules[i].spec_next_at() {
            Some(t) => {
                let rec = startup_events(modules, i + 1, crate::stats::sat_add(seq, 1));
                (
                    seq![TimedEvent { time: t, seq, event: EngineEvent::Run(ModuleId { slot: i as usize }) }]
                        + rec.0,
                    rec.1,
                )
            },
            None => startup_events(modules, i + 1, seq),
        }
    }
}

/// The queue and queueing number after re-queueing a dispatched module
/// at its requested next time, if it gave one.
pub open spec fn requeue_of(m: AnyModule, id: ModuleId, queue: Seq<TimedEvent>, next_seq: u64) -> (
    Seq<TimedEvent>,
    u64,
) {
    match m.spec_next_at() {
        Some(t) => (
            queue.push(TimedEvent { time: t, seq: next_seq, event: EngineEvent::Run(id) }),
            crate::stats::sat_add(next_seq, 1),
        ),
        None => (queue, next_seq),
    }
}

/// One wake-on-message pass from module `m` on: every module that wakes
/// on messages and whose subscribed topics advanced past its last sync
/// is queued at the current virtual instant and its sync time moves up
/// to now. Returns the queue, the sync times, and the next queueing
/// number.
pub open spec fn fanout_from(
    comms: CommsState,
    modules: Seq<AnyModule>,
    last_sync: Seq<u64>,
    queue: Seq<TimedEvent>,
    next_seq: u64,
    m: int,
) -> (Seq<TimedEvent>, Seq<u64>, u64)
    decreases modules.len() - m,
    when 0 <= m <= modules.len() && last_sync.len() == modules.len()
{
    if m >= modules.len() {
        (queue, last_sync, next_seq)
    } else if modules[m].spec_wake_on_message() && has_topic_update(comms, m, last_sync[m]) {
        fanout_from(
            comms,
            modules,
            last_sync.update(m, comms.clock),
            queue.push(
                TimedEvent {
                    time: comms.clock,
                    seq: next_seq,
                    event: EngineEvent::Run(ModuleId { slot: m as usize }),
                },
            ),
            crate::stats::sat_add(next_seq, 1),
            m + 1,
        )
    } else {
        fanout_from(comms, modules, last_sync, queue, next_seq, m + 1)
    }
}

/// What one call to `step` reported.
#[derive(Debug, Clone, Copy, PartialEq, Eq, Structural)]
pub enum StepOutcome {
    /// Termination was requested or no events are pending.
    Finished,
    /// This module was dispatched.
    Ran(ModuleId),
    /// This external module's turn has come; the caller does its work
    /// and then calls `finish_external`.
    ExternalReady(ModuleId),
}

/// What the startup pass does: every module is started, in registration
/// order, and every self-scheduling module's first wake event is
/// queued, before anything is dispatched.
pub open spec fn startup_post(pre: SimulationEngine, post: SimulationEngine) -> bool {
    &&& post.wf()
    &&& post.comms == pre.comms
    &&& post.module_last_sync_time == pre.module_last_sync_time
    &&& post.sim_time == pre.sim_time
    &&& post.started
    &&& post.modules@.len() == pre.modules@.len()
    &&& forall|k: int|
        0 <= k < pre.modules@.len() ==> (#[trigger] post.modules@[k]).started_from(
            &pre.modules@[k],
        )
    &&& ({
        let se = startup_events(post.modules@, 0, pre.next_seq);
        post.queue@ == pre.queue@ + se.0 && post.next_seq == se.1
    })
}

/// What dispatching the first-minimal event at index `idx` does. The
/// clock advances to the event's time, never backward. An external
/// module is only reported; an internal one runs (its own effects given
/// by its `Module` contract), is re-queued at its requested time, and
/// the wake-on-message pass follows.
pub open spec fn dispatch_at(
    pre: SimulationEngine,
    post: SimulationEngine,
    r: StepOutcome,
    idx: int,
) -> bool {
    let ev = pre.queue@[idx];
    let id = (ev.event)->Run_0;
    let now = if ev.time >= pre.comms.clock {
        ev.time
    } else {
        pre.comms.clock
    };
    match r {
        StepOutcome::Finished => false,
        StepOutcome::ExternalReady(rid) => {
            &&& rid == id
            &&& pre.modules@[id.slot as int] is External
            &&& post == (SimulationEngine {
                comms: CommsState { clock: now, ..pre.comms },
                queue: post.queue,
                ..pre
            })
            &&& post.queue@ == pre.queue@.remove(idx)
        },
        StepOutcome::Ran(rid) => {
            &&& rid == id
            &&& !(pre.modules@[id.slot as int] is External)
            &&& post.comms.wf()
            &&& post.comms.clock == now
            &&& pre.comms.same_topology(post.comms)
            &&& post.modules@.len() == pre.modules@.len()
            &&& forall|k: int|
                0 <= k < pre.modules@.len() && k != id.slot as int ==> #[trigger] post.modules@[k]
                    == pre.modules@[k]
            &&& post.started == pre.started
            &&& post.sim_time == pre.sim_time
            &&& ran_protocol(pre, post, id, now)
            &&& ({
                let re = requeue_of(
                    post.modules@[id.slot as int],
                    id,
                    pre.queue@.remove(idx),
                    pre.next_seq,
                );
                let f = fanout_from(
                    post.comms,
                    post.modules@,
                    pre.module_last_sync_time@,
                    re.0,
                    re.1,
                    0,
                );
                post.queue@ == f.0 && post.module_last_sync_time@ == f.1 && post.next_seq == f.2
            })
        },
    }
}

/// The dispatch protocol for an internal module: its `sync` ran first,
/// against the clock-advanced fabric, and its `one_iteration` ran
/// exactly when `sync` said go.
pub open spec fn ran_protocol(
    pre: SimulationEngine,
    post: SimulationEngine,
    id: ModuleId,
    now: u64,
) -> bool {
    let c1 = CommsState { clock: now, ..pre.comms };
    exists|mid_m: AnyModule, mid_c: CommsState, go: bool|
        {
            &&& #[trigger] mid_m.sync_rel(&pre.modules@[id.slot as int], &c1, &mid_c, go)
            &&& (go ==> post.modules@[id.slot as int].iter_rel(&mid_m, &mid_c, &post.comms))
            &&& (!go ==> post.modules@[id.slot as int] == mid_m && post.comms == mid_c)
        }
}

/// What one scheduling decision does: nothing when the termination flag
/// is set or no event is pending; otherwise the first-minimal pending
/// event — earliest time, earliest queued on ties — is dispatched.
pub open spec fn dispatch_post(pre: SimulationEngine, post: SimulationEngine, r: StepOutcome) -> bool {
    if pre.comms.terminated || pre.queue@.len() == 0 {
        r == StepOutcome::Finished && post == pre
    } else {
        exists|idx: int| #[trigger] is_first_min(pre.queue@, idx) && dispatch_at(pre, post, r, idx)
    }
}

/// The scheduler: the fabric, the modules, the pending wake events, and
/// each module's last wake-on-message sync time.
pub struct SimulationEngine {
    pub comms: CommsState,
    pub modules: Vec<AnyModule>,
    pub queue: Vec<TimedEvent>,
    pub module_last_sync_time: Vec<u64>,
    pub next_seq: u64,
    pub started: bool,
    pub sim_time: SimulationTime,
}

impl SimulationEngine {
    pub open spec fn wf(self) -> bool {
        &&& self.comms.wf()
        &&& self.modules@.len() == self.comms.modules@.len()
        &&& self.module_last_sync_time@.len() == self.modules@.len()
        &&& forall|i: int|
            0 <= i < self.queue@.len() ==> ((#[trigger] self.queue@[i]).event)->Run_0.slot
                < self.modules@.len()
        &&& forall|i: int| 0 <= i < self.modules@.len() ==> (#[trigger] self.modules@[i]).inv()
        &&& forall|i: int|
            0 <= i < self.modules@.len() ==> (#[trigger] self.modules@[i]).handles_ok(&self.comms)
    }

    /// A clone of the virtual clock handle, for observers outside the
    /// engine.
    pub fn time_handle(&self) -> SimulationTime {
        self.sim_time.clone()
    }

    /// Queues a wake event, stamped with the next queueing number.
    fn push_event(&mut self, time: u64, module: ModuleId)
        requires
            old(self).wf(),
            module.slot < old(self).modules@.len(),
        ensures
            final(self).wf(),
            *final(self) == (SimulationEngine {
                queue: final(self).queue,
                next_seq: final(self).next_seq,
                ..*old(self)
            }),
            final(self).queue@ == old(self).queue@.push(
                TimedEvent { time, seq: old(self).next_seq, event: EngineEvent::Run(module) },
            ),
            final(self).next_seq == crate::stats::sat_add(old(self).next_seq, 1),
    {
        let seq = self.next_seq;
        self.next_seq = crate::stats::sat_add_exec(self.next_seq, 1);
        self.queue.push(TimedEvent { time, seq, event: EngineEvent::Run(module) });
    }

    /// Index of the next event to dispatch: earliest time, earliest
    /// queued on ties.
    fn find_min_idx(&self) -> (r: usize)
        requires
            self.queue@.len() > 0,
        ensures
            is_first_min(self.queue@, r as int),
    {
        let mut best: usize = 0;
        let mut j: usize = 1;
        while j < self.queue.len()
            invariant
                best < j <= self.queue@.len(),
                forall|k: int| 0 <= k < j ==> !lex_lt(#[trigger] self.queue@[k], self.queue@[best as int]),
                forall|k: int| 0 <= k < best ==> lex_lt(self.queue@[best as int], #[trigger] self.queue@[k]),
            decreases self.queue@.len() - j,
        {
            let cand = self.queue[j];
            let cur = self.queue[best];
            if cand.time < cur.time || (cand.time == cur.time && cand.seq < cur.seq) {
                best = j;
            }
            j = j + 1;
        }
        best
    }

    /// Calls `start` on every module in registration order, then queues
    /// every module's first self-scheduled wake event, also in
    /// registration order.
    fn start_modules(&mut self)
        requires
            old(self).wf(),
        ensures
            final(self).wf(),
            final(self).comms == old(self).comms,
            final(self).module_last_sync_time == old(self).module_last_sync_time,
            final(self).started == old(self).started,
            final(self).sim_time == old(self).sim_time,
            final(self).modules@.len() == old(self).modules@.len(),
            forall|k: int|
                0 <= k < old(self).modules@.len()
                    ==> (#[trigger] final(self).modules@[k]).started_from(&old(self).modules@[k]),
            ({
                let se = startup_events(final(self).modules@, 0, old(self).next_seq);
                final(self).queue@ == old(self).queue@ + se.0 && final(self).next_seq == se.1
            }),
    {
        let ghost mods0 = self.modules@;
        let mut i: usize = 0;
        while i < self.modules.len()
            invariant
                i <= mods0.len(),
                self.wf(),
                self.modules@.len() == mods0.len(),
                self.comms == old(self).comms,
                self.module_last_sync_time == old(self).module_last_sync_time,
                self.started == old(self).started,
                self.sim_time == old(self).sim_time,
                self.queue == old(self).queue,
                self.next_seq == old(self).next_seq,
                forall|k: int|
                    0 <= k < i ==> (#[trigger] self.modules@[k]).started_from(&mods0[k]),
                forall|k: int| i <= k < mods0.len() ==> #[trigger] self.modules@[k] == mods0[k],
            decreases self.modules@.len() - i,
        {
            let ghost mods_pre = self.modules@;
            self.modules[i].start();
            proof {
                assert forall|k: int|
                    0 <= k < self.modules@.len() implies (#[trigger] self.modules@[k]).inv() && (
                self.modules@[k]).handles_ok(&self.comms) by {
                    if k != i as int {
                        assert(self.modules@[k] == mods_pre[k]);
                    }
                }
            }
            i = i + 1;
        }
        let ghost mods1 = self.modules@;
        let ghost q0 = self.queue@;
        let ghost ns0 = self.next_seq;
        proof {
            assert(q0 + startup_events(mods1, 0, ns0).0 =~= self.queue@ + startup_events(
                mods1,
                0,
                self.next_seq,
            ).0);
        }
        let mut i: usize = 0;
        while i < self.modules.len()
            invariant
                i <= mods1.len(),
                self.wf(),
                self.modules@ == mods1,
                self.comms == old(self).comms,
                self.module_last_sync_time == old(self).module_last_sync_time,
                self.started == old(self).started,
                self.sim_time == old(self).sim_time,
                q0 + startup_events(mods1, 0, ns0).0 =~= self.queue@ + startup_events(
                    mods1,
                    i as int,
                    self.next_seq,
                ).0,
                startup_events(mods1, 0, ns0).1 == startup_events(mods1, i as int, self.next_seq).1,
            decreases self.modules@.len() - i,
        {
            let ghost q_pre = self.queue@;
            let ghost ns_pre = self.next_seq;
            match self.modules[i].next_iteration_start_at() {
                Option::Some(t) => {
                    self.push_event(t, ModuleId { slot: i });
                    proof {
                        let ev = TimedEvent {
                            time: t,
                            seq: ns_pre,
                            event: EngineEvent::Run(ModuleId { slot: i }),
                        };
                        assert(startup_events(mods1, i as int, ns_pre).0 == seq![ev]
                            + startup_events(mods1, i as int + 1, self.next_seq).0);
                        assert(q_pre + (seq![ev] + startup_events(mods1, i as int + 1, self.next_seq).0)
                            =~= self.queue@ + startup_events(mods1, i as int + 1, self.next_seq).0);
                    }
                },
                Option::None => {},
            }
            i = i + 1;
        }
        proof {
            assert(startup_events(mods1, mods1.len() as int, self.next_seq).0
                =~= Seq::<TimedEvent>::empty());
            assert(self.queue@ + Seq::<TimedEvent>::empty() =~= self.queue@);
            assert(old(self).queue@ + startup_events(mods1, 0, ns0).0 =~= self.queue@);
        }
    }

    /// Re-queues the dispatched module if it self-schedules, then wakes
    /// every module whose subscribed topics advanced past its last
    /// sync, exactly as `fanout_from` describes.
    fn post_dispatch(&mut self, id: ModuleId)
        requires
            old(self).wf(),
            id.slot < old(self).modules@.len(),
        ensures
            final(self).wf(),
            final(self).comms == old(self).comms,
            final(self).modules == old(self).modules,
            final(self).started == old(self).started,
            final(self).sim_time == old(self).sim_time,
            ({
                let re = requeue_of(
                    old(self).modules@[id.slot as int],
                    id,
                    old(self).queue@,
                    old(self).next_seq,
                );
                let f = fanout_from(
                    old(self).comms,
                    old(self).modules@,
                    old(self).module_last_sync_time@,
                    re.0,
                    re.1,
                    0,
                );
                final(self).queue@ == f.0 && final(self).module_last_sync_time@ == f.1
                    && final(self).next_seq == f.2
            }),
    {
        match self.modules[id.slot].next_iteration_start_at() {
            Option::Some(t) => {
                self.push_event(t, id);
            },
            Option::None => {},
        }
        let ghost q1 = self.queue@;
        let ghost ns1 = self.next_seq;
        let ghost ls0 = self.module_last_sync_time@;
        let now = self.comms.clock;
        let mut m_slot: usize = 0;
        while m_slot < self.modules.len()
            invariant
                m_slot <= self.modules@.len(),
                self.wf(),
                self.modules == old(self).modules,
                self.comms == old(self).comms,
                self.started == old(self).started,
                self.sim_time == old(self).sim_time,
                self.module_last_sync_time@.len() == ls0.len(),
                now == self.comms.clock,
                forall|k: int|
                    m_slot <= k < ls0.len() ==> #[trigger] self.module_last_sync_time@[k]
                        == ls0[k],
                fanout_from(self.comms, self.modules@, ls0, q1, ns1, 0) == fanout_from(
                    self.comms,
                    self.modules@,
                    self.module_last_sync_time@,
                    self.queue@,
                    self.next_seq,
                    m_slot as int,
                ),
            decreases self.modules@.len() - m_slot,
        {
            let ghost ls_pre = self.module_last_sync_time@;
            let ghost q_pre = self.queue@;
            let ghost ns_pre = self.next_seq;
            let mut has_update = false;
            let mut k: usize = 0;
            while k < self.comms.modules[m_slot].read_topics.len()
                invariant
                    self.wf(),
                    m_slot < self.comms.modules@.len(),
                    k <= self.comms.modules@[m_slot as int].read_topics@.len(),
                    m_slot < self.module_last_sync_time@.len(),
                    has_update == (exists|k2: int|
                        0 <= k2 < k && self.comms.topics@[(#[trigger] self.comms.modules@[m_slot
                            as int].read_topics@[k2]).slot as int].last_updated_at
                            > self.module_last_sync_time@[m_slot as int]),
                decreases self.comms.modules@[m_slot as int].read_topics@.len() - k,
            {
                let tid = self.comms.modules[m_slot].read_topics[k];
                if self.comms.topics[tid.slot].last_updated_at
                    > self.module_last_sync_time[m_slot] {
                    has_update = true;
                }
                k = k + 1;
            }
            proof {
                assert(has_update == has_topic_update(
                    self.comms,
                    m_slot as int,
                    self.module_last_sync_time@[m_slot as int],
                ));
            }
            if self.modules[m_slot].wake_on_message() && has_update {
                self.push_event(now, ModuleId { slot: m_slot });
                self.module_last_sync_time[m_slot] = now;
                proof {
                    assert(fanout_from(self.comms, self.modules@, ls_pre, q_pre, ns_pre, m_slot as int)
                        == fanout_from(
                        self.comms,
                        self.modules@,
                        ls_pre.update(m_slot as int, now),
                        q_pre.push(
                            TimedEvent {
                                time: now,
                                seq: ns_pre,
                                event: EngineEvent::Run(ModuleId { slot: m_slot }),
                            },
                        ),
                        crate::stats::sat_add(ns_pre, 1),
                        m_slot as int + 1,
                    ));
                    assert(self.module_last_sync_time@ == ls_pre.update(m_slot as int, now));
                }
            } else {
                proof {
                    assert(fanout_from(self.comms, self.modules@, ls_pre, q_pre, ns_pre, m_slot as int)
                        == fanout_from(self.comms, self.modules@, ls_pre, q_pre, ns_pre, m_slot as int + 1));
                }
            }
            m_slot = m_slot + 1;
        }
        proof {
            assert(fanout_from(
                self.comms,
                self.modules@,
                self.module_last_sync_time@,
                self.queue@,
                self.next_seq,
                self.modules@.len() as int,
            ) == (self.queue@, self.module_last_sync_time@, self.next_seq));
        }
    }

    /// One scheduling decision. On the first call the modules are
    /// started (`startup_post`). The first-minimal pending event is
    /// then dispatched (`dispatch_post`): the virtual clock advances to
    /// its time and never backward, the module runs unless it is
    /// external, and subscribers with fresh input are woken.
    #[verifier::rlimit(100)]
    pub fn step(&mut self) -> (r: StepOutcome)
        requires
            old(self).wf(),
        ensures
            final(self).wf(),
            final(self).started,
            final(self).comms.clock >= old(self).comms.clock,
            old(self).comms.terminated ==> r == StepOutcome::Finished,
            match r {
                StepOutcome::Finished => true,
                StepOutcome::Ran(id) => id.slot < final(self).modules@.len(),
                StepOutcome::ExternalReady(id) => id.slot < final(self).modules@.len(),
            },
            old(self).started ==> dispatch_post(*old(self), *final(self), r),
            !old(self).started ==> exists|mid: SimulationEngine|
                #[trigger] startup_post(*old(self), mid) && dispatch_post(mid, *final(self), r),
    {
        if !self.started {
            self.started = true;
            self.start_modules();
        }
        let ghost base = *self;
        proof {
            if !old(self).started {
                assert(startup_post(*old(self), base));
            }
        }
        if self.comms.terminated {
            proof {
                assert(dispatch_post(base, *self, StepOutcome::Finished));
            }
            return StepOutcome::Finished;
        }
        if self.queue.len() == 0 {
            proof {
                assert(dispatch_post(base, *self, StepOutcome::Finished));
            }
            return StepOutcome::Finished;
        }
        let idx = self.find_min_idx();
        let ev = self.queue[idx];
        let ghost q_pre = self.queue@;
        self.queue.remove(idx);
        proof {
            assert forall|i: int|
                0 <= i < self.queue@.len() implies ((#[trigger] self.queue@[i]).event)->Run_0.slot
                < self.modules@.len() by {
                if i < idx {
                    assert(self.queue@[i] == q_pre[i]);
                } else {
                    assert(self.queue@[i] == q_pre[i + 1]);
                }
            }
        }
        let t = ev.time;
        let now = if t >= self.comms.clock {
            t
        } else {
            self.comms.clock
        };
        self.comms.set_clock(now);
        self.sim_time.set_time(now);
        let EngineEvent::Run(id) = ev.event;
        let is_external = match &self.modules[id.slot] {
            AnyModule::External(_) => true,
            _ => false,
        };
        if is_external {
            proof {
                assert(dispatch_at(base, *self, StepOutcome::ExternalReady(id), idx as int));
            }
            return StepOutcome::ExternalReady(id);
        }
        let ghost c_pre = self.comms;
        let ghost mods_pre = self.modules@;
        let run_iteration = self.modules[id.slot].sync(&mut self.comms);
        let ghost m_mid = self.modules@[id.slot as int];
        let ghost c_mid = self.comms;
        proof {
            assert forall|k: int|
                0 <= k < self.modules@.len() implies (#[trigger] self.modules@[k]).inv() && (
            self.modules@[k]).handles_ok(&self.comms) by {
                if k != id.slot as int {
                    assert(self.modules@[k] == mods_pre[k]);
                }
                lemma_handles_ok_same_topology(&mods_pre[k], &c_pre, &self.comms);
            }
        }
        if run_iteration {
            let ghost mods_mid = self.modules@;
            self.modules[id.slot].one_iteration(&mut self.comms);
            proof {
                assert forall|k: int|
                    0 <= k < self.modules@.len() implies (#[trigger] self.modules@[k]).inv() && (
                self.modules@[k]).handles_ok(&self.comms) by {
                    if k != id.slot as int {
                        assert(self.modules@[k] == mods_mid[k]);
                    }
                    lemma_handles_ok_same_topology(&mods_mid[k], &c_mid, &self.comms);
                }
                crate::comms::lemma_same_topology_trans(c_pre, c_mid, self.comms);
            }
        }
        self.post_dispatch(id);
        proof {
            assert(base.comms.same_topology(self.comms));
            let c1x = CommsState { clock: now, ..base.comms };
            assert(c_pre == c1x);
            assert(m_mid.sync_rel(&base.modules@[id.slot as int], &c1x, &c_mid, run_iteration));
            if run_iteration {
                assert(self.modules@[id.slot as int].iter_rel(&m_mid, &c_mid, &self.comms));
            } else {
                assert(self.modules@[id.slot as int] == m_mid && self.comms == c_mid);
            }
            assert(ran_protocol(base, *self, id, now));
            assert(dispatch_at(base, *self, StepOutcome::Ran(id), idx as int));
        }
        StepOutcome::Ran(id)
    }

    /// The caller reports an external module's dispatch as done, giving
    /// the module's next self-scheduled wake time; the usual re-queue
    /// and wake-on-message fan-out then run, exactly as after an
    /// internal dispatch.
    pub fn finish_external(&mut self, id: ModuleId, next_at: Option<u64>)
        requires
            old(self).wf(),
            id.slot < old(self).modules@.len(),
        ensures
            final(self).wf(),
            final(self).comms == old(self).comms,
            final(self).started == old(self).started,
            final(self).sim_time == old(self).sim_time,
            ({
                let m1 = match old(self).modules@[id.slot as int] {
                    AnyModule::External(e) => AnyModule::External(
                        ExternalModule { wake_on_message: e.wake_on_message, next_at },
                    ),
                    other => other,
                };
                let re = requeue_of(m1, id, old(self).queue@, old(self).next_seq);
                let f = fanout_from(
                    old(self).comms,
                    final(self).modules@,
                    old(self).module_last_sync_time@,
                    re.0,
                    re.1,
                    0,
                );
                &&& final(self).modules@ == old(self).modules@.update(id.slot as int, m1)
                &&& final(self).queue@ == f.0
                &&& final(self).module_last_sync_time@ == f.1
                &&& final(self).next_seq == f.2
            }),
    {
        match &mut self.modules[id.slot] {
            AnyModule::External(m) => {
                m.next_at = next_at;
            },
            _ => {},
        }
        proof {
            assert(self.modules@ =~= old(self).modules@.update(
                id.slot as int,
                self.modules@[id.slot as int],
            ));
            assert forall|k: int|
                0 <= k < self.modules@.len() implies (#[trigger] self.modules@[k]).inv() && (
            self.modules@[k]).handles_ok(&self.comms) by {
                if k != id.slot as int {
                    assert(self.modules@[k] == old(self).modules@[k]);
                }
            }
        }
        self.post_dispatch(id);
    }

    /// Calls `terminate` on every module in registration order; nothing
    /// else moves.
    pub fn terminate_all(&mut self)
        requires
            old(self).wf(),
        ensures
            final(self).wf(),
            *final(self) == (SimulationEngine { modules: final(self).modules, ..*old(self) }),
            final(self).modules@.len() == old(self).modules@.len(),
            forall|k: int|
                0 <= k < old(self).modules@.len()
                    ==> (#[trigger] final(self).modules@[k]).terminated_from(
                    &old(self).modules@[k],
                ),
    {
        let ghost mods0 = self.modules@;
        let mut i: usize = 0;
        while i < self.modules.len()
            invariant
                i <= mods0.len(),
                self.wf(),
                self.modules@.len() == mods0.len(),
                *self == (SimulationEngine { modules: self.modules, ..*old(self) }),
                forall|k: int|
                    0 <= k < i ==> (#[trigger] self.modules@[k]).terminated_from(&mods0[k]),
                forall|k: int| i <= k < mods0.len() ==> #[trigger] self.modules@[k] == mods0[k],
            decreases self.modules@.len() - i,
        {
            let ghost mods_pre = self.modules@;
            self.modules[i].terminate();
            proof {
                assert forall|k: int|
                    0 <= k < self.modules@.len() implies (#[trigger] self.modules@[k]).inv() && (
                self.modules@[k]).handles_ok(&self.comms) by {
                    if k != i as int {
                        assert(self.modules@[k] == mods_pre[k]);
                    }
                }
            }
            i = i + 1;
        }
    }

    /// Runs dispatches until termination is requested or the queue
    /// drains, then calls `terminate` on every module in registration
    /// order and reports completion. An external module that is never
    /// driven is treated as having no further work of its own. The
    /// virtual clock never moves backward and the topology never
    /// changes. Completion is not reported in the one theoretical case
    /// of the step budget running out first.
    pub fn run(&mut self) -> (done: bool)
        requires
            old(self).wf(),
        ensures
            final(self).wf(),
            final(self).comms.clock >= old(self).comms.clock,
            old(self).comms.same_topology(final(self).comms),
            done ==> final(self).comms.terminated || final(self).queue@.len() == 0,
    {
        let mut fuel: u64 = u64::MAX;
        loop
            invariant
                self.wf(),
                self.comms.clock >= old(self).comms.clock,
                old(self).comms.same_topology(self.comms),
            ensures
                self.wf(),
                self.comms.clock >= old(self).comms.clock,
                old(self).comms.same_topology(self.comms),
            decreases fuel,
        {
            let ghost pre_step = *self;
            let r = self.step();
            proof {
                if pre_step.started {
                    lemma_dispatch_keeps_topology(pre_step, *self, r);
                } else {
                    let mid = choose|mid: SimulationEngine|
                        #[trigger] startup_post(pre_step, mid) && dispatch_post(mid, *self, r);
                    lemma_dispatch_keeps_topology(mid, *self, r);
                }
                crate::comms::lemma_same_topology_trans(
                    old(self).comms,
                    pre_step.comms,
                    self.comms,
                );
            }
            match r {
                StepOutcome::Finished => {
                    proof {
                        if pre_step.started {
                            assert(self.comms.terminated || self.queue@.len() == 0);
                        } else {
                            let mid = choose|mid: SimulationEngine|
                                #[trigger] startup_post(pre_step, mid) && dispatch_post(
                                    mid,
                                    *self,
                                    StepOutcome::Finished,
                                );
                            assert(self.comms.terminated || self.queue@.len() == 0);
                        }
                    }
                    self.terminate_all();
                    return true;
                },
                StepOutcome::ExternalReady(id) => {
                    self.finish_external(id, Option::None);
                },
                StepOutcome::Ran(_) => {},
            }
            if fuel == 0 {
                return false;
            }
            fuel = fuel - 1;
        }
    }
}

/// Registers modules and freezes the topology, then builds the engine.
pub struct SimulationEngineBuilder {
    pub comms: CommsState,
    pub modules: Vec<AnyModule>,
}

impl SimulationEngineBuilder {
    /// Every registered module is sound and its handles point into the
    /// fabric being built.
    pub open spec fn wf(self) -> bool {
        &&& self.comms.wf()
        &&& self.modules@.len() == self.comms.modules@.len()
        &&& forall|i: int| 0 <= i < self.modules@.len() ==> (#[trigger] self.modules@[i]).inv()
        &&& forall|i: int|
            0 <= i < self.modules@.len() ==> (#[trigger] self.modules@[i]).handles_ok(&self.comms)
    }

    pub fn new() -> (b: SimulationEngineBuilder)
        ensures
            b.wf(),
            b.modules@.len() == 0,
    {
        SimulationEngineBuilder { comms: CommsState::new(), modules: Vec::new() }
    }

    /// Registers a replay source under the name `binance_republisher`.
    /// Fails (changing nothing observable) on a duplicate name, a
    /// builder with no streams bound, or a timestamp out of clock range.
    pub fn add_republisher(&mut self, builder: BinanceRepublisherBuilder) -> (r: Option<ModuleId>)
        requires
            old(self).wf(),
        ensures
            final(self).wf(),
    {
        let name: String = crate::replay::topic_name_replay_module();
        let id = match self.comms.create_module(&name) {
            Option::None => {
                return Option::None;
            },
            Option::Some(id) => id,
        };
        let mut builder = builder;
        let ghost c1 = self.comms;
        builder.init_comm(&mut self.comms, &id);
        proof {
            assert forall|k: int|
                0 <= k < self.modules@.len() implies (#[trigger] self.modules@[k]).handles_ok(
                &self.comms,
            ) by {
                lemma_handles_ok_extends(&self.modules@[k], &c1, &self.comms);
            }
        }
        match builder.build() {
            Option::None => {
                // keep module slots aligned with the fabric: a failed
                // registration leaves an inert slot behind
                self.modules.push(
                    AnyModule::External(
                        ExternalModule { wake_on_message: false, next_at: Option::None },
                    ),
                );
                Option::None
            },
            Option::Some(m) => {
                self.modules.push(AnyModule::Republisher(m));
                Option::Some(id)
            },
        }
    }

    /// Registers a matching engine under the name `market_agent`. Fails
    /// (leaving an inert slot) on a duplicate name or an incomplete
    /// builder.
    pub fn add_market_agent(&mut self, builder: MarketAgentBuilder) -> (r: Option<ModuleId>)
        requires
            old(self).wf(),
            builder.symbol_info_manager is Some ==> (builder.symbol_info_manager->Some_0).wf(),
        ensures
            final(self).wf(),
    {
        let name: String = crate::market_agent::topic_name_market_agent_module();
        let id = match self.comms.create_module(&name) {
            Option::None => {
                return Option::None;
            },
            Option::Some(id) => id,
        };
        let mut builder = builder;
        let ghost c1 = self.comms;
        builder.init_comm(&mut self.comms, &id);
        proof {
            assert forall|k: int|
                0 <= k < self.modules@.len() implies (#[trigger] self.modules@[k]).handles_ok(
                &self.comms,
            ) by {
                lemma_handles_ok_extends(&self.modules@[k], &c1, &self.comms);
            }
        }
        match builder.build() {
            Option::None => {
                self.modules.push(
                    AnyModule::External(
                        ExternalModule { wake_on_message: false, next_at: Option::None },
                    ),
                );
                Option::None
            },
            Option::Some(m) => {
                self.modules.push(AnyModule::Agent(m));
                Option::Some(id)
            },
        }
    }

    /// Registers an externally driven participant: its subscriptions
    /// and publications are frozen here, and the caller later performs
    /// its work between `step` and `finish_external`. Fails on a
    /// duplicate name.
    pub fn add_external_module(
        &mut self,
        name: &String,
        wake_on_message: bool,
        subscribe: &Vec<String>,
        publish: &Vec<String>,
    ) -> (r: Option<(ModuleId, Vec<ReadTopicHandle>, Vec<WriteTopicHandle>)>)
        requires
            old(self).wf(),
        ensures
            final(self).wf(),
    {
        let id = match self.comms.create_module(name) {
            Option::None => {
                return Option::None;
            },
            Option::Some(id) => id,
        };
        let mut reads: Vec<ReadTopicHandle> = Vec::new();
        let mut i: usize = 0;
        while i < subscribe.len()
            invariant
                self.comms.wf(),
                id.slot < self.comms.modules@.len(),
                self.modules@ == old(self).modules@,
                old(self).comms.topics@.len() <= self.comms.topics@.len(),
                old(self).comms.mailboxes@.len() <= self.comms.mailboxes@.len(),
                forall|k: int|
                    0 <= k < old(self).comms.mailboxes@.len() ==> (#[trigger] self.comms.mailboxes@[
                    k]).topic == old(self).comms.mailboxes@[k].topic,
                self.comms.modules@.len() == old(self).comms.modules@.len() + 1,
            decreases subscribe@.len() - i,
        {
            let topic = self.comms.get_or_create_topic(&subscribe[i]);
            let ghost cp = self.comms;
            let h = self.comms.subscribe_topic(&id, &topic);
            proof {
                assert forall|k: int|
                    0 <= k < old(self).comms.mailboxes@.len() implies (
                #[trigger] self.comms.mailboxes@[k]).topic == old(self).comms.mailboxes@[k].topic by {
                    assert(self.comms.mailboxes@[k] == self.comms.mailboxes@.subrange(
                        0,
                        cp.mailboxes@.len() as int,
                    )[k]);
                    assert(self.comms.mailboxes@[k] == cp.mailboxes@[k]);
                }
            }
            reads.push(h);
            i = i + 1;
        }
        let mut writes: Vec<WriteTopicHandle> = Vec::new();
        let mut i: usize = 0;
        while i < publish.len()
            invariant
                self.comms.wf(),
                id.slot < self.comms.modules@.len(),
                self.modules@ == old(self).modules@,
                old(self).comms.topics@.len() <= self.comms.topics@.len(),
                old(self).comms.mailboxes@.len() <= self.comms.mailboxes@.len(),
                forall|k: int|
                    0 <= k < old(self).comms.mailboxes@.len() ==> (#[trigger] self.comms.mailboxes@[
                    k]).topic == old(self).comms.mailboxes@[k].topic,
                self.comms.modules@.len() == old(self).comms.modules@.len() + 1,
            decreases publish@.len() - i,
        {
            let topic = self.comms.get_or_create_topic(&publish[i]);
            let h = self.comms.publish_topic(&id, &topic);
            writes.push(h);
            i = i + 1;
        }
        self.modules.push(
            AnyModule::External(ExternalModule { wake_on_message, next_at: Option::None }),
        );
        proof {
            assert forall|k: int|
                0 <= k < self.modules@.len() implies (#[trigger] self.modules@[k]).inv() && (
            self.modules@[k]).handles_ok(&self.comms) by {
                if k < old(self).modules@.len() {
                    assert(self.modules@[k] == old(self).modules@[k]);
                    lemma_handles_ok_extends(&self.modules@[k], &old(self).comms, &self.comms);
                }
            }
        }
        Option::Some((id, reads, writes))
    }

    /// Freezes the topology and hands over the engine.
    pub fn build(self) -> (e: SimulationEngine)
        requires
            self.wf(),
        ensures
            e.wf(),
            e.comms == self.comms,
            e.modules == self.modules,
            !e.started,
            e.queue@.len() == 0,
    {
        let n = self.modules.len();
        let mut last_sync: Vec<u64> = Vec::new();
        let mut i: usize = 0;
        while i < n
            invariant
                last_sync@.len() == i,
                i <= n,
            decreases n - i,
        {
            last_sync.push(0);
            i = i + 1;
        }
        SimulationEngine {
            comms: self.comms,
            modules: self.modules,
            queue: Vec::new(),
            module_last_sync_time: last_sync,
            next_seq: 0,
            started: false,
            sim_time: SimulationTime::new(),
        }
    }
}

/// A dispatch never changes the frozen topology.
proof fn lemma_dispatch_keeps_topology(
    pre: SimulationEngine,
    post: SimulationEngine,
    r: StepOutcome,
)
    requires
        dispatch_post(pre, post, r),
    ensures
        pre.comms.same_topology(post.comms),
{
    if !(pre.comms.terminated || pre.queue@.len() == 0) {
        let idx = choose|idx: int|
            #[trigger] is_first_min(pre.queue@, idx) && dispatch_at(pre, post, r, idx);
        match r {
            StepOutcome::Finished => {},
            StepOutcome::ExternalReady(_) => {},
            StepOutcome::Ran(_) => {},
        }
    }
}

/// Handle validity survives growth of the fabric: more topics, more
/// mailboxes, existing mailboxes keeping their topic.
proof fn lemma_handles_ok_extends(m: &AnyModule, c1: &CommsState, c2: &CommsState)
    requires
        m.handles_ok(c1),
        c1.topics@.len() <= c2.topics@.len(),
        c1.mailboxes@.len() <= c2.mailboxes@.len(),
        forall|i: int|
            0 <= i < c1.mailboxes@.len() ==> (#[trigger] c2.mailboxes@[i]).topic
                == c1.mailboxes@[i].topic,
    ensures
        m.handles_ok(c2),
{
}

} // verus!
