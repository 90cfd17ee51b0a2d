//! The publish/subscribe fabric: a topic directory, one mailbox per
//! subscription, per-topic last-update times, the termination flag and
//! the virtual clock.
//!
//! A builder phase creates topics, modules and subscriptions; the
//! scheduler then drives the runtime operations. Publishing appends a
//! copy of the message to every mailbox subscribed to the topic, so each
//! subscriber sees messages in publish order; nothing is reordered by
//! commit time.

use vstd::prelude::*;

use crate::message::message_equiv;
use crate::message::Message;

verus! {

/// Dense handle of a topic.
#[derive(Debug, Clone, Copy, PartialEq, Eq, Structural)]
pub struct TopicId {
    pub slot: usize,
}

/// Dense handle of a module.
#[derive(Debug, Clone, Copy, PartialEq, Eq, Structural)]
pub struct ModuleId {
    pub slot: usize,
}

/// Permission to publish on a topic; `slot` is the topic slot.
#[derive(Debug, Clone, Copy, PartialEq, Eq, Structural)]
pub struct WriteTopicHandle {
    pub slot: usize,
}

/// One subscription's read end; `slot` indexes the fabric's mailboxes.
#[derive(Debug, Clone, Copy, PartialEq, Eq, Structural)]
pub struct ReadTopicHandle {
    pub slot: usize,
}

/// One subscriber's queue on one topic. Messages are appended at the
/// back and received from the front.
#[derive(Debug)]
pub struct Mailbox {
    pub module: usize,
    pub topic: usize,
    pub queue: Vec<Message>,
}

/// A topic: its name and the commit time of the last message published
/// on it.
#[derive(Debug)]
pub struct TopicInfo {
    pub name: String,
    pub last_updated_at: u64,
}

/// A registered module: its name and the topics it reads and writes.
#[derive(Debug)]
pub struct ModuleInfo {
    pub name: String,
    pub read_topics: Vec<TopicId>,
    pub write_topics: Vec<TopicId>,
}

/// The whole fabric plus the virtual clock and termination flag.
#[derive(Debug)]
pub struct CommsState {
    pub clock: u64,
    pub terminated: bool,
    pub topics: Vec<TopicInfo>,
    pub mailboxes: Vec<Mailbox>,
    pub modules: Vec<ModuleInfo>,
}

impl CommsState {
    /// Every mailbox and every recorded subscription points at a real
    /// topic and module, and names are unique.
    pub open spec fn wf(self) -> bool {
        &&& forall|i: int|
            0 <= i < self.mailboxes@.len() ==> (#[trigger] self.mailboxes@[i]).topic
                < self.topics@.len() && self.mailboxes@[i].module < self.modules@.len()
        &&& forall|i: int, j: int|
            0 <= i < j < self.topics@.len() ==> self.topics@[i].name@ != self.topics@[j].name@
        &&& forall|i: int, j: int|
            0 <= i < j < self.modules@.len() ==> self.modules@[i].name@ != self.modules@[j].name@
        &&& forall|m: int, k: int|
            0 <= m < self.modules@.len() && 0 <= k < self.modules@[m].read_topics@.len() ==> (
            #[trigger] self.modules@[m].read_topics@[k]).slot < self.topics@.len()
        &&& forall|m: int, k: int|
            0 <= m < self.modules@.len() && 0 <= k < self.modules@[m].write_topics@.len() ==> (
            #[trigger] self.modules@[m].write_topics@[k]).slot < self.topics@.len()
    }

    /// The parts the builder fixes and the runtime never changes: the
    /// directory of topics and modules, and which mailbox belongs to
    /// which module and topic.
    pub open spec fn same_topology(self, other: CommsState) -> bool {
        &&& self.topics@.len() == other.topics@.len()
        &&& forall|i: int|
            0 <= i < self.topics@.len() ==> (#[trigger] other.topics@[i]).name
                == self.topics@[i].name
        &&& self.mailboxes@.len() == other.mailboxes@.len()
        &&& forall|i: int|
            0 <= i < self.mailboxes@.len() ==> (#[trigger] other.mailboxes@[i]).module
                == self.mailboxes@[i].module && other.mailboxes@[i].topic
                == self.mailboxes@[i].topic
        &&& self.modules@ == other.modules@
    }

    pub fn new() -> (c: CommsState)
        ensures
            c.wf(),
            c.clock == 0,
            !c.terminated,
            c.topics@.len() == 0,
            c.mailboxes@.len() == 0,
            c.modules@.len() == 0,
    {
        CommsState {
            clock: 0,
            terminated: false,
            topics: Vec::new(),
            mailboxes: Vec::new(),
            modules: Vec::new(),
        }
    }

    /// The slot of the topic named `name`, creating the topic on first
    /// use.
    #[verifier::loop_isolation(false)]
    pub fn get_or_create_topic(&mut self, name: &String) -> (t: TopicId)
        requires
            old(self).wf(),
        ensures
            final(self).wf(),
            t.slot < final(self).topics@.len(),
            final(self).topics@[t.slot as int].name@ == name@,
            final(self).clock == old(self).clock,
            final(self).terminated == old(self).terminated,
            final(self).mailboxes@ == old(self).mailboxes@,
            final(self).modules@ == old(self).modules@,
            if exists|i: int|
                0 <= i < old(self).topics@.len() && (#[trigger] old(self).topics@[i]).name@
                    == name@ {
                final(self).topics@ == old(self).topics@
            } else {
                final(self).topics@.len() == old(self).topics@.len() + 1
                    && final(self).topics@.subrange(0, old(self).topics@.len() as int)
                    == old(self).topics@ && final(self).topics@.last().last_updated_at == 0
            },
    {
        let mut i: usize = 0;
        while i < self.topics.len()
            invariant
                i <= self.topics@.len(),
                forall|k: int| 0 <= k < i ==> (#[trigger] self.topics@[k]).name@ != name@,
            decreases self.topics@.len() - i,
        {
            if self.topics[i].name == *name {
                return TopicId { slot: i };
            }
            i = i + 1;
        }
        let slot = self.topics.len();
        self.topics.push(TopicInfo { name: name.clone(), last_updated_at: 0 });
        proof {
            assert(self.topics@.subrange(0, old(self).topics@.len() as int) =~= old(self).topics@);
        }
        TopicId { slot }
    }

    /// Registers a module under a name not used before; reports `None`
    /// (and changes nothing) if the name is taken.
    #[verifier::loop_isolation(false)]
    pub fn create_module(&mut self, name: &String) -> (r: Option<ModuleId>)
        requires
            old(self).wf(),
        ensures
            final(self).wf(),
            final(self).clock == old(self).clock,
            final(self).terminated == old(self).terminated,
            final(self).mailboxes@ == old(self).mailboxes@,
            final(self).topics@ == old(self).topics@,
            match r {
                Some(id) => id.slot == old(self).modules@.len() && final(self).modules@.len()
                    == old(self).modules@.len() + 1 && final(self).modules@.subrange(
                    0,
                    old(self).modules@.len() as int,
                ) == old(self).modules@ && final(self).modules@.last().name@ == name@
                    && final(self).modules@.last().read_topics@.len() == 0
                    && final(self).modules@.last().write_topics@.len() == 0,
                None => final(self).modules@ == old(self).modules@ && exists|i: int|
                    0 <= i < old(self).modules@.len() && (#[trigger] old(self).modules@[i]).name@
                        == name@,
            },
    {
        let mut i: usize = 0;
        while i < self.modules.len()
            invariant
                i <= self.modules@.len(),
                forall|k: int| 0 <= k < i ==> (#[trigger] self.modules@[k]).name@ != name@,
            decreases self.modules@.len() - i,
        {
            if self.modules[i].name == *name {
                return None;
            }
            i = i + 1;
        }
        let slot = self.modules.len();
        self.modules.push(
            ModuleInfo { name: name.clone(), read_topics: Vec::new(), write_topics: Vec::new() },
        );
        proof {
            assert(self.modules@.subrange(0, old(self).modules@.len() as int) =~= old(
                self,
            ).modules@);
        }
        Some(ModuleId { slot })
    }

    /// Creates a fresh mailbox for `module` on `topic` and hands back its
    /// read end.
    pub fn subscribe_topic(&mut self, module: &ModuleId, topic: &TopicId) -> (h: ReadTopicHandle)
        requires
            old(self).wf(),
            module.slot < old(self).modules@.len(),
            topic.slot < old(self).topics@.len(),
        ensures
            final(self).wf(),
            final(self).clock == old(self).clock,
            final(self).terminated == old(self).terminated,
            final(self).topics@ == old(self).topics@,
            h.slot == old(self).mailboxes@.len(),
            final(self).mailboxes@.len() == old(self).mailboxes@.len() + 1,
            final(self).mailboxes@.subrange(0, old(self).mailboxes@.len() as int)
                == old(self).mailboxes@,
            final(self).mailboxes@.last().module == module.slot,
            final(self).mailboxes@.last().topic == topic.slot,
            final(self).mailboxes@.last().queue@.len() == 0,
            final(self).modules@.len() == old(self).modules@.len(),
            forall|m: int|
                0 <= m < old(self).modules@.len() && m != module.slot ==> final(self).modules@[m]
                    == old(self).modules@[m],
            final(self).modules@[module.slot as int].name == old(self).modules@[module.slot
                as int].name,
            final(self).modules@[module.slot as int].write_topics == old(self).modules@[module.slot
                as int].write_topics,
            final(self).modules@[module.slot as int].read_topics@ == old(self).modules@[module.slot
                as int].read_topics@.push(*topic),
    {
        let h = ReadTopicHandle { slot: self.mailboxes.len() };
        self.mailboxes.push(Mailbox { module: module.slot, topic: topic.slot, queue: Vec::new() });
        self.modules[module.slot].read_topics.push(*topic);
        proof {
            assert(self.mailboxes@.subrange(0, old(self).mailboxes@.len() as int) =~= old(
                self,
            ).mailboxes@);
        }
        h
    }

    /// Records `module` as a publisher of `topic` and hands back the
    /// write end.
    pub fn publish_topic(&mut self, module: &ModuleId, topic: &TopicId) -> (h: WriteTopicHandle)
        requires
            old(self).wf(),
            module.slot < old(self).modules@.len(),
            topic.slot < old(self).topics@.len(),
        ensures
            final(self).wf(),
            final(self).clock == old(self).clock,
            final(self).terminated == old(self).terminated,
            final(self).topics@ == old(self).topics@,
            final(self).mailboxes@ == old(self).mailboxes@,
            h.slot == topic.slot,
            final(self).modules@.len() == old(self).modules@.len(),
            forall|m: int|
                0 <= m < old(self).modules@.len() && m != module.slot ==> final(self).modules@[m]
                    == old(self).modules@[m],
            final(self).modules@[module.slot as int].name == old(self).modules@[module.slot
                as int].name,
            final(self).modules@[module.slot as int].read_topics == old(self).modules@[module.slot
                as int].read_topics,
            final(self).modules@[module.slot as int].write_topics@ == old(self).modules@[
                module.slot as int].write_topics@.push(*topic),
    {
        self.modules[module.slot].write_topics.push(*topic);
        WriteTopicHandle { slot: topic.slot }
    }

    /// The virtual time now.
    pub fn time(&self) -> (t: u64)
        ensures
            t == self.clock,
    {
        self.clock
    }

    /// Advances the virtual clock; the scheduler never moves it back.
    pub fn set_clock(&mut self, t: u64)
        requires
            t >= old(self).clock,
        ensures
            *final(self) == (CommsState { clock: t, ..*old(self) }),
    {
        self.clock = t;
    }

    /// Asks the scheduler to stop after the current dispatch.
    pub fn request_terminate(&mut self)
        ensures
            *final(self) == (CommsState { terminated: true, ..*old(self) }),
    {
        self.terminated = true;
    }

    /// Non-blocking receive: the oldest message in this subscription's
    /// mailbox, if any.
    pub fn receive(&mut self, handle: &ReadTopicHandle) -> (r: Option<Message>)
        requires
            old(self).wf(),
            handle.slot < old(self).mailboxes@.len(),
        ensures
            final(self).wf(),
            final(self).clock == old(self).clock,
            final(self).terminated == old(self).terminated,
            final(self).topics@ == old(self).topics@,
            final(self).modules@ == old(self).modules@,
            final(self).same_topology(*old(self)),
            forall|i: int|
                0 <= i < old(self).mailboxes@.len() && i != handle.slot ==> final(self).mailboxes@[i]
                    == old(self).mailboxes@[i],
            ({
                let q = old(self).mailboxes@[handle.slot as int].queue@;
                match r {
                    Some(m) => q.len() > 0 && m == q[0] && final(self).mailboxes@[handle.slot
                        as int].queue@ == q.drop_first(),
                    None => q.len() == 0 && final(self).mailboxes@ == old(self).mailboxes@,
                }
            }),
    {
        let mb = &self.mailboxes[handle.slot];
        if mb.queue.len() == 0 {
            return None;
        }
        let ghost mbs0 = self.mailboxes@;
        let m = self.mailboxes[handle.slot].queue.remove(0);
        proof {
            assert(self.mailboxes@ =~= mbs0.update(
                handle.slot as int,
                self.mailboxes@[handle.slot as int],
            ));
            assert(self.mailboxes@[handle.slot as int].queue@ =~= mbs0[handle.slot
                as int].queue@.drop_first());
        }
        Some(m)
    }

    /// Publishes `message`: a copy is appended to every mailbox on the
    /// topic, and the topic's last-update time becomes the message's
    /// commit time. Other mailboxes and topics are untouched.
    #[verifier::loop_isolation(false)]
    pub fn publish(&mut self, handle: &WriteTopicHandle, message: Message)
        requires
            old(self).wf(),
            handle.slot < old(self).topics@.len(),
        ensures
            published_one(*old(self), *final(self), handle.slot as int, message),
    {
        let ghost mbs0 = self.mailboxes@;
        let mut i: usize = 0;
        while i < self.mailboxes.len()
            invariant
                i <= mbs0.len(),
                self.mailboxes@.len() == mbs0.len(),
                self.topics@ == old(self).topics@,
                self.clock == old(self).clock,
                self.terminated == old(self).terminated,
                self.modules@ == old(self).modules@,
                forall|k: int|
                    0 <= k < mbs0.len() ==> (#[trigger] self.mailboxes@[k]).topic == mbs0[k].topic
                        && self.mailboxes@[k].module == mbs0[k].module,
                forall|k: int|
                    i <= k < mbs0.len() ==> #[trigger] self.mailboxes@[k] == mbs0[k],
                forall|k: int|
                    0 <= k < i && (#[trigger] mbs0[k]).topic != handle.slot ==> self.mailboxes@[k]
                        == mbs0[k],
                forall|k: int|
                    0 <= k < i && (#[trigger] mbs0[k]).topic == handle.slot ==> ({
                        let q0 = mbs0[k].queue@;
                        let q1 = self.mailboxes@[k].queue@;
                        q1.len() == q0.len() + 1 && q1.subrange(0, q0.len() as int) == q0
                            && message_equiv(q1.last(), message)
                    }),
            decreases mbs0.len() - i,
        {
            if self.mailboxes[i].topic == handle.slot {
                let ghost q0 = self.mailboxes@[i as int].queue@;
                let copy = message.clone();
                self.mailboxes[i].queue.push(copy);
                proof {
                    assert(self.mailboxes@[i as int].queue@.subrange(0, q0.len() as int) =~= q0);
                }
            }
            i = i + 1;
        }
        self.topics[handle.slot].last_updated_at = message.header.commit_at;
        proof {
            assert(self.topics@ =~= old(self).topics@.update(
                handle.slot as int,
                TopicInfo {
                    name: old(self).topics@[handle.slot as int].name,
                    last_updated_at: message.header.commit_at,
                },
            ));
        }
    }
}

/// Exactly what one publish of `m` on `topic` does to the fabric: every
/// mailbox on the topic gains a copy of `m` at the back, the topic's
/// last-update time becomes `m`'s commit time, and nothing else moves.
pub open spec fn published_one(a: CommsState, b: CommsState, topic: int, m: Message) -> bool {
    &&& b.wf()
    &&& b.clock == a.clock
    &&& b.terminated == a.terminated
    &&& b.modules@ == a.modules@
    &&& a.same_topology(b)
    &&& b.topics@ == a.topics@.update(
        topic,
        TopicInfo { name: a.topics@[topic].name, last_updated_at: m.header.commit_at },
    )
    &&& forall|i: int|
        0 <= i < a.mailboxes@.len() && (#[trigger] a.mailboxes@[i]).topic != topic
            ==> b.mailboxes@[i] == a.mailboxes@[i]
    &&& forall|i: int|
        0 <= i < a.mailboxes@.len() && (#[trigger] a.mailboxes@[i]).topic == topic ==> ({
            let q0 = a.mailboxes@[i].queue@;
            let q1 = b.mailboxes@[i].queue@;
            q1.len() == q0.len() + 1 && q1.subrange(0, q0.len() as int) == q0 && message_equiv(
                q1.last(),
                m,
            )
        })
}

/// What a run of publishes of `msgs`, in order, on `topic` does to the
/// fabric: every mailbox on the topic gains the whole run at the back
/// (each entry carrying the same information as the message published),
/// the topic's last-update time becomes the last commit time, and
/// nothing else moves. The termination flag is not constrained.
pub open spec fn published_seq(a: CommsState, b: CommsState, topic: int, msgs: Seq<Message>) -> bool {
    &&& b.wf()
    &&& b.clock == a.clock
    &&& b.modules@ == a.modules@
    &&& a.same_topology(b)
    &&& forall|j: int| 0 <= j < a.topics@.len() && j != topic ==> b.topics@[j] == a.topics@[j]
    &&& 0 <= topic < a.topics@.len() ==> ({
        if msgs.len() == 0 {
            b.topics@[topic] == a.topics@[topic]
        } else {
            b.topics@[topic].name == a.topics@[topic].name && b.topics@[topic].last_updated_at
                == msgs.last().header.commit_at
        }
    })
    &&& forall|i: int|
        0 <= i < a.mailboxes@.len() && (#[trigger] a.mailboxes@[i]).topic != topic
            ==> b.mailboxes@[i] == a.mailboxes@[i]
    &&& forall|i: int|
        0 <= i < a.mailboxes@.len() && (#[trigger] a.mailboxes@[i]).topic == topic ==> ({
            let q0 = a.mailboxes@[i].queue@;
            let q1 = b.mailboxes@[i].queue@;
            q1.len() == q0.len() + msgs.len() && q1.subrange(0, q0.len() as int) == q0 && forall|
                k: int,
            |
                0 <= k < msgs.len() ==> message_equiv(#[trigger] q1[q0.len() + k], msgs[k])
        })
}

/// Topology preservation composes.
pub proof fn lemma_same_topology_trans(a: CommsState, b: CommsState, c: CommsState)
    requires
        a.same_topology(b),
        b.same_topology(c),
    ensures
        a.same_topology(c),
{
}

/// Publishing nothing changes nothing.
pub proof fn lemma_published_seq_empty(a: CommsState, topic: int)
    requires
        a.wf(),
    ensures
        published_seq(a, a, topic, Seq::empty()),
{
    assert forall|i: int|
        0 <= i < a.mailboxes@.len() && (#[trigger] a.mailboxes@[i]).topic == topic implies ({
        let q0 = a.mailboxes@[i].queue@;
        let q1 = a.mailboxes@[i].queue@;
        q1.len() == q0.len() + 0 && q1.subrange(0, q0.len() as int) == q0 && forall|k: int|
            0 <= k < 0 ==> message_equiv(#[trigger] q1[q0.len() + k], Seq::<Message>::empty()[k])
    }) by {
        assert(a.mailboxes@[i].queue@.subrange(0, a.mailboxes@[i].queue@.len() as int)
            =~= a.mailboxes@[i].queue@);
    }
}

/// What a run of publishes of `msgs` on `topic` does to that topic
/// alone: its mailboxes gain the run at the back and its last-update
/// time follows the run. Unlike `published_seq`, other topics are left
/// unconstrained, so publishes elsewhere may be interleaved.
pub open spec fn topic_carried(a: CommsState, b: CommsState, topic: int, msgs: Seq<Message>) -> bool {
    &&& b.wf()
    &&& b.clock == a.clock
    &&& b.modules@ == a.modules@
    &&& a.same_topology(b)
    &&& 0 <= topic < a.topics@.len() ==> ({
        &&& b.topics@[topic].name == a.topics@[topic].name
        &&& if msgs.len() == 0 {
            b.topics@[topic].last_updated_at == a.topics@[topic].last_updated_at
        } else {
            b.topics@[topic].last_updated_at == msgs.last().header.commit_at
        }
    })
    &&& forall|i: int|
        0 <= i < a.mailboxes@.len() && (#[trigger] a.mailboxes@[i]).topic == topic ==> ({
            let q0 = a.mailboxes@[i].queue@;
            let q1 = b.mailboxes@[i].queue@;
            q1.len() == q0.len() + msgs.len() && q1.subrange(0, q0.len() as int) == q0 && forall|
                k: int,
            |
                0 <= k < msgs.len() ==> message_equiv(#[trigger] q1[q0.len() + k], msgs[k])
        })
}

/// Carrying nothing changes nothing on the topic.
pub proof fn lemma_topic_carried_empty(a: CommsState, topic: int)
    requires
        a.wf(),
    ensures
        topic_carried(a, a, topic, Seq::empty()),
{
    assert forall|i: int|
        0 <= i < a.mailboxes@.len() && (#[trigger] a.mailboxes@[i]).topic == topic implies ({
        let q0 = a.mailboxes@[i].queue@;
        let q1 = a.mailboxes@[i].queue@;
        q1.len() == q0.len() + 0 && q1.subrange(0, q0.len() as int) == q0 && forall|k: int|
            0 <= k < 0 ==> message_equiv(#[trigger] q1[q0.len() + k], Seq::<Message>::empty()[k])
    }) by {
        assert(a.mailboxes@[i].queue@.subrange(0, a.mailboxes@[i].queue@.len() as int)
            =~= a.mailboxes@[i].queue@);
    }
}

/// A carried run followed by one more publish on the topic is the
/// longer run.
pub proof fn lemma_topic_carried_snoc(
    a: CommsState,
    b: CommsState,
    c: CommsState,
    topic: int,
    msgs: Seq<Message>,
    m: Message,
)
    requires
        topic_carried(a, b, topic, msgs),
        published_one(b, c, topic, m),
        0 <= topic < a.topics@.len(),
    ensures
        topic_carried(a, c, topic, msgs.push(m)),
{
    assert forall|i: int|
        0 <= i < a.mailboxes@.len() && (#[trigger] a.mailboxes@[i]).topic == topic implies ({
        let q0 = a.mailboxes@[i].queue@;
        let q2 = c.mailboxes@[i].queue@;
        q2.len() == q0.len() + msgs.push(m).len() && q2.subrange(0, q0.len() as int) == q0
            && forall|k: int|
            0 <= k < msgs.push(m).len() ==> message_equiv(#[trigger] q2[q0.len() + k], msgs.push(m)[k])
    }) by {
        let q0 = a.mailboxes@[i].queue@;
        let q1 = b.mailboxes@[i].queue@;
        let q2 = c.mailboxes@[i].queue@;
        assert(b.mailboxes@[i].topic == topic);
        assert(q2.subrange(0, q1.len() as int) == q1);
        assert(q2.subrange(0, q0.len() as int) =~= q1.subrange(0, q0.len() as int));
        assert forall|k: int|
            0 <= k < msgs.push(m).len() implies message_equiv(
            #[trigger] q2[q0.len() + k],
            msgs.push(m)[k],
        ) by {
            if k < msgs.len() {
                assert(q2[q0.len() + k] == q2.subrange(0, q1.len() as int)[q0.len() + k]);
                assert(q2[q0.len() + k] == q1[q0.len() + k]);
            } else {
                assert(q2[q0.len() + k] == q2.last());
            }
        }
    }
    assert(c.topics@[topic].name == a.topics@[topic].name);
}

/// A step that leaves a topic's mailboxes and directory entry alone
/// leaves its carried run intact.
pub proof fn lemma_topic_carried_frame(
    a: CommsState,
    b: CommsState,
    c: CommsState,
    topic: int,
    msgs: Seq<Message>,
)
    requires
        topic_carried(a, b, topic, msgs),
        c.wf(),
        c.clock == b.clock,
        c.modules@ == b.modules@,
        b.same_topology(c),
        0 <= topic < a.topics@.len(),
        c.topics@[topic] == b.topics@[topic],
        forall|i: int|
            0 <= i < a.mailboxes@.len() && (#[trigger] a.mailboxes@[i]).topic == topic
                ==> c.mailboxes@[i] == b.mailboxes@[i],
    ensures
        topic_carried(a, c, topic, msgs),
{
    lemma_same_topology_trans(a, b, c);
}

/// A publish on a different topic leaves the carried run intact.
pub proof fn lemma_topic_carried_other(
    a: CommsState,
    b: CommsState,
    c: CommsState,
    topic: int,
    msgs: Seq<Message>,
    other: int,
    m: Message,
)
    requires
        topic_carried(a, b, topic, msgs),
        published_one(b, c, other, m),
        other != topic,
        0 <= topic < a.topics@.len(),
        0 <= other < a.topics@.len(),
    ensures
        topic_carried(a, c, topic, msgs),
{
    assert forall|i: int|
        0 <= i < a.mailboxes@.len() && (#[trigger] a.mailboxes@[i]).topic == topic implies ({
        let q0 = a.mailboxes@[i].queue@;
        let q1 = c.mailboxes@[i].queue@;
        q1.len() == q0.len() + msgs.len() && q1.subrange(0, q0.len() as int) == q0 && forall|
            k: int,
        |
            0 <= k < msgs.len() ==> message_equiv(#[trigger] q1[q0.len() + k], msgs[k])
    }) by {
        assert(b.mailboxes@[i].topic == topic);
        assert(c.mailboxes@[i] == b.mailboxes@[i]);
    }
    assert(c.topics@[topic] == b.topics@[topic]);
}

/// A run of publishes followed by one more is the longer run.
pub proof fn lemma_published_seq_snoc(
    a: CommsState,
    b: CommsState,
    c: CommsState,
    topic: int,
    msgs: Seq<Message>,
    m: Message,
)
    requires
        published_seq(a, b, topic, msgs),
        published_one(b, c, topic, m),
        0 <= topic < a.topics@.len(),
    ensures
        published_seq(a, c, topic, msgs.push(m)),
{
    assert forall|i: int|
        0 <= i < a.mailboxes@.len() && (#[trigger] a.mailboxes@[i]).topic == topic implies ({
        let q0 = a.mailboxes@[i].queue@;
        let q2 = c.mailboxes@[i].queue@;
        q2.len() == q0.len() + msgs.push(m).len() && q2.subrange(0, q0.len() as int) == q0
            && forall|k: int|
            0 <= k < msgs.push(m).len() ==> message_equiv(#[trigger] q2[q0.len() + k], msgs.push(m)[k])
    }) by {
        let q0 = a.mailboxes@[i].queue@;
        let q1 = b.mailboxes@[i].queue@;
        let q2 = c.mailboxes@[i].queue@;
        assert(b.mailboxes@[i].topic == topic);
        assert(q2.subrange(0, q1.len() as int) == q1);
        assert(q2.subrange(0, q0.len() as int) =~= q1.subrange(0, q0.len() as int));
        assert forall|k: int|
            0 <= k < msgs.push(m).len() implies message_equiv(
            #[trigger] q2[q0.len() + k],
            msgs.push(m)[k],
        ) by {
            if k < msgs.len() {
                assert(q2[q0.len() + k] == q2.subrange(0, q1.len() as int)[q0.len() + k]);
                assert(q2[q0.len() + k] == q1[q0.len() + k]);
            } else {
                assert(q2[q0.len() + k] == q2.last());
            }
        }
    }
    assert(c.topics@[topic].name == a.topics@[topic].name);
}

} // verus!
