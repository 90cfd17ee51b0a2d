//! The contract every simulation participant implements.
//!
//! The scheduler drives a module through `start`, then repeated
//! `sync`/`one_iteration` dispatches, and finally `terminate`. A module
//! never touches the virtual clock, never breaks the fabric's invariants
//! or its frozen topology, and never clears the termination flag. Its
//! scheduling answers — when it wants to run again and whether messages
//! wake it — are specification values, so the scheduler's own contract
//! can speak about them.

use vstd::prelude::*;

use crate::comms::CommsState;

verus! {

pub trait Module {
    /// The module's own invariant, established by its builder.
    spec fn inv(&self) -> bool;

    /// The module's topic handles point into this fabric.
    spec fn handles_ok(&self, comms: &CommsState) -> bool;

    /// What `next_iteration_start_at` answers.
    spec fn spec_next_at(&self) -> Option<u64>;

    /// What `wake_on_message` answers.
    spec fn spec_wake_on_message(&self) -> bool;

    /// What `start` does to the module.
    spec fn started_from(&self, pre: &Self) -> bool;

    /// What `terminate` does to the module.
    spec fn terminated_from(&self, pre: &Self) -> bool;

    /// What `sync` does, module by module, beyond the common clauses:
    /// `self` and the fabric after, against the module and fabric
    /// before, and the returned go-ahead.
    spec fn sync_rel(&self, pre: &Self, pre_comms: &CommsState, post_comms: &CommsState, r: bool) -> bool;

    /// What `one_iteration` does, module by module, beyond the common
    /// clauses.
    spec fn iter_rel(&self, pre: &Self, pre_comms: &CommsState, post_comms: &CommsState) -> bool;

    /// One-time setup after the topology is frozen, before the first
    /// dispatch. A module never re-wires its topic handles here.
    fn start(&mut self)
        requires
            old(self).inv(),
        ensures
            final(self).inv(),
            final(self).started_from(old(self)),
            forall|c: CommsState|
                old(self).handles_ok(&c) ==> #[trigger] final(self).handles_ok(&c),
    ;

    /// Drains the module's mailboxes; reports whether `one_iteration`
    /// should run this tick.
    fn sync(&mut self, comms: &mut CommsState) -> (r: bool)
        requires
            old(self).inv(),
            old(comms).wf(),
            old(self).handles_ok(old(comms)),
        ensures
            final(self).inv(),
            final(comms).wf(),
            final(self).handles_ok(final(comms)),
            old(comms).same_topology(*final(comms)),
            final(comms).clock == old(comms).clock,
            old(comms).terminated ==> final(comms).terminated,
            final(self).sync_rel(old(self), old(comms), final(comms), r),
    ;

    /// One unit of work; may publish and may request termination.
    fn one_iteration(&mut self, comms: &mut CommsState)
        requires
            old(self).inv(),
            old(comms).wf(),
            old(self).handles_ok(old(comms)),
        ensures
            final(self).inv(),
            final(comms).wf(),
            final(self).handles_ok(final(comms)),
            old(comms).same_topology(*final(comms)),
            final(comms).clock == old(comms).clock,
            old(comms).terminated ==> final(comms).terminated,
            final(self).iter_rel(old(self), old(comms), final(comms)),
    ;

    /// The earliest virtual time the module wants to run again, or `None`
    /// to wake only on messages.
    fn next_iteration_start_at(&self) -> (r: Option<u64>)
        ensures
            r == self.spec_next_at(),
    ;

    /// Whether the scheduler re-queues the module when a subscribed topic
    /// advances past the module's last sync.
    fn wake_on_message(&self) -> (r: bool)
        ensures
            r == self.spec_wake_on_message(),
    ;

    /// Called once after the main loop exits, in registration order.
    fn terminate(&mut self)
        requires
            old(self).inv(),
        ensures
            final(self).inv(),
            final(self).terminated_from(old(self)),
            forall|c: CommsState|
                old(self).handles_ok(&c) ==> #[trigger] final(self).handles_ok(&c),
    ;
}

} // verus!
