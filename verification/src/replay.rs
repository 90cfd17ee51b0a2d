//! Deterministic market replay: a merging cursor over two time-ordered
//! event streams — recorded trades and top-of-book quotes — republished
//! as one timeline on the `market_data` topic.
//!
//! The next event is always the stream head with the smaller millisecond
//! timestamp; a tie goes to the trade. Events whose virtual time has not
//! come yet are held back; the module schedules itself for the pending
//! event's time and never wakes on messages. When both streams are
//! exhausted it requests termination.

use vstd::prelude::*;

use vstd::string::StringExecFns;

use crate::comms::CommsState;
use crate::comms::published_seq;
use crate::comms::lemma_published_seq_empty;
use crate::comms::lemma_published_seq_snoc;
use crate::comms::ModuleId;
use crate::comms::WriteTopicHandle;
use crate::market_data::BinanceBookTicker;
use crate::market_data::BinanceTradeTick;
use crate::message::Message;
use crate::message::MessageHeader;
use crate::message::Payload;
use crate::module::Module;
use crate::time::MAX_TIME_MS;
use crate::time::NANOS_PER_MILLI;

verus! {

/// The one event held out of the streams, not yet published.
#[derive(Debug)]
pub enum PeekingTick {
    Empty,
    TradeTick(BinanceTradeTick),
    BookTicker(BinanceBookTicker),
}

/// The replay module. `trades` and `tickers` are the recorded inputs;
/// the positions mark how far each stream has been consumed.
#[derive(Debug)]
pub struct BinanceRepublisher {
    pub write_market_data_handle: WriteTopicHandle,
    pub trades: Vec<BinanceTradeTick>,
    pub trade_pos: usize,
    pub tickers: Vec<BinanceBookTicker>,
    pub ticker_pos: usize,
    pub peeking_tick: PeekingTick,
    pub peeking_tick_time: u64,
}

/// The message a recorded trade is republished as: its millisecond
/// timestamp becomes the virtual commit time.
pub open spec fn trade_message(t: BinanceTradeTick) -> Message {
    Message {
        header: MessageHeader { commit_at: (t.time * NANOS_PER_MILLI) as u64 },
        payload: Payload::BinanceTradeTick(t),
    }
}

/// The message a book ticker is republished as.
pub open spec fn ticker_message(b: BinanceBookTicker) -> Message {
    Message {
        header: MessageHeader { commit_at: (b.event_time * NANOS_PER_MILLI) as u64 },
        payload: Payload::BinanceBookTicker(b),
    }
}

/// The single timeline the replay publishes: the merge of the two
/// streams by timestamp, a trade winning ties.
pub open spec fn spec_merged(
    trades: Seq<BinanceTradeTick>,
    tickers: Seq<BinanceBookTicker>,
) -> Seq<Message>
    decreases trades.len() + tickers.len(),
{
    if trades.len() == 0 && tickers.len() == 0 {
        Seq::empty()
    } else if tickers.len() == 0 || (trades.len() > 0 && trades[0].time <= tickers[0].event_time) {
        seq![trade_message(trades[0])] + spec_merged(trades.drop_first(), tickers)
    } else {
        seq![ticker_message(tickers[0])] + spec_merged(trades, tickers.drop_first())
    }
}

/// The merge of two fixed input streams is one fixed timeline: replaying
/// the same tapes always publishes the same message sequence.
pub proof fn lemma_merge_deterministic(
    trades1: Seq<BinanceTradeTick>,
    tickers1: Seq<BinanceBookTicker>,
    trades2: Seq<BinanceTradeTick>,
    tickers2: Seq<BinanceBookTicker>,
)
    requires
        trades1 == trades2,
        tickers1 == tickers2,
    ensures
        spec_merged(trades1, tickers1) == spec_merged(trades2, tickers2),
{
}

impl BinanceRepublisher {
    /// The trades not yet taken out of the trade stream.
    pub open spec fn rem_trades(self) -> Seq<BinanceTradeTick> {
        self.trades@.subrange(self.trade_pos as int, self.trades@.len() as int)
    }

    /// The tickers not yet taken out of the ticker stream.
    pub open spec fn rem_tickers(self) -> Seq<BinanceBookTicker> {
        self.tickers@.subrange(self.ticker_pos as int, self.tickers@.len() as int)
    }

    /// The held-out event as a message, if one is held.
    pub open spec fn peek_seq(self) -> Seq<Message> {
        match self.peeking_tick {
            PeekingTick::Empty => Seq::empty(),
            PeekingTick::TradeTick(t) => seq![trade_message(t)],
            PeekingTick::BookTicker(b) => seq![ticker_message(b)],
        }
    }

    pub open spec fn has_peek(self) -> bool {
        !(self.peeking_tick is Empty)
    }

    /// Everything the module will still publish, in order: the held-out
    /// event, then the merge of the stream remainders.
    pub open spec fn pending(self) -> Seq<Message> {
        self.peek_seq() + spec_merged(self.rem_trades(), self.rem_tickers())
    }

    /// Positions in bounds and remaining timestamps fitting the
    /// nanosecond clock.
    pub open spec fn streams_ok(self) -> bool {
        &&& self.trade_pos <= self.trades@.len()
        &&& self.ticker_pos <= self.tickers@.len()
        &&& forall|i: int|
            self.trade_pos <= i < self.trades@.len() ==> (#[trigger] self.trades@[i]).time
                <= MAX_TIME_MS
        &&& forall|i: int|
            self.ticker_pos <= i < self.tickers@.len() ==> (#[trigger] self.tickers@[i]).event_time
                <= MAX_TIME_MS
    }

    /// `streams_ok`, the held-out event's cached time is its own
    /// timestamp, and once nothing is held out, the streams are
    /// exhausted too.
    pub open spec fn wf(self) -> bool {
        &&& self.streams_ok()
        &&& match self.peeking_tick {
            PeekingTick::Empty => self.rem_trades().len() == 0 && self.rem_tickers().len() == 0,
            PeekingTick::TradeTick(t) => t.time <= MAX_TIME_MS && self.peeking_tick_time == t.time
                * NANOS_PER_MILLI,
            PeekingTick::BookTicker(b) => b.event_time <= MAX_TIME_MS && self.peeking_tick_time
                == b.event_time * NANOS_PER_MILLI,
        }
    }

    /// Replaces the held-out event with the merge head of the stream
    /// remainders, consuming it from its stream; reports whether
    /// anything is left to publish.
    pub fn next_tick(&mut self) -> (r: bool)
        requires
            old(self).streams_ok(),
        ensures
            final(self).wf(),
            final(self).write_market_data_handle == old(self).write_market_data_handle,
            final(self).pending() == spec_merged(old(self).rem_trades(), old(self).rem_tickers()),
            r == final(self).has_peek(),
            r == (final(self).pending().len() > 0),
            !r ==> final(self).pending().len() == 0,
    {
        let ghost t0 = self.rem_trades();
        let ghost k0 = self.rem_tickers();
        let has_trade = self.trade_pos < self.trades.len();
        let has_ticker = self.ticker_pos < self.tickers.len();
        if !has_trade && !has_ticker {
            self.peeking_tick = PeekingTick::Empty;
            proof {
                assert(self.pending() =~= spec_merged(t0, k0));
            }
            false
        } else if has_trade && (!has_ticker || self.trades[self.trade_pos].time
            <= self.tickers[self.ticker_pos].event_time) {
            let t = self.trades[self.trade_pos].clone();
            proof {
                assert(t0[0] == self.trades@[self.trade_pos as int]);
            }
            self.peeking_tick_time = t.time * NANOS_PER_MILLI;
            self.peeking_tick = PeekingTick::TradeTick(t);
            self.trade_pos = self.trade_pos + 1;
            proof {
                assert(self.rem_trades() =~= t0.drop_first());
                assert(self.rem_tickers() =~= k0);
                assert(spec_merged(t0, k0) == seq![trade_message(t0[0])] + spec_merged(
                    t0.drop_first(),
                    k0,
                ));
                assert(self.pending() =~= spec_merged(t0, k0));
            }
            true
        } else {
            let b = self.tickers[self.ticker_pos].clone();
            proof {
                assert(k0[0] == self.tickers@[self.ticker_pos as int]);
            }
            self.peeking_tick_time = b.event_time * NANOS_PER_MILLI;
            self.peeking_tick = PeekingTick::BookTicker(b);
            self.ticker_pos = self.ticker_pos + 1;
            proof {
                assert(self.rem_tickers() =~= k0.drop_first());
                assert(self.rem_trades() =~= t0);
                assert(spec_merged(t0, k0) == seq![ticker_message(k0[0])] + spec_merged(
                    t0,
                    k0.drop_first(),
                ));
                assert(self.pending() =~= spec_merged(t0, k0));
            }
            true
        }
    }

    /// The held-out event as a publishable message.
    fn peek_message(&self) -> (m: Message)
        requires
            self.wf(),
            self.has_peek(),
        ensures
            m == self.pending()[0],
            m.header.commit_at == self.peeking_tick_time,
    {
        match &self.peeking_tick {
            PeekingTick::TradeTick(t) => Message {
                header: MessageHeader { commit_at: self.peeking_tick_time },
                payload: Payload::BinanceTradeTick(t.clone()),
            },
            PeekingTick::BookTicker(b) => Message {
                header: MessageHeader { commit_at: self.peeking_tick_time },
                payload: Payload::BinanceBookTicker(b.clone()),
            },
            PeekingTick::Empty => vstd::pervasive::unreached(),
        }
    }

    /// Whether the held-out event is due at or before `now`.
    fn peek_ready(&self, now: u64) -> (r: bool)
        requires
            self.wf(),
        ensures
            r == (self.has_peek() && self.peeking_tick_time <= now),
            r ==> self.pending().len() > 0 && self.pending()[0].header.commit_at <= now,
    {
        match &self.peeking_tick {
            PeekingTick::Empty => false,
            _ => self.peeking_tick_time <= now,
        }
    }

    /// Publishes every pending event whose virtual time has come, in
    /// order, on the `market_data` topic; when that exhausts the
    /// streams, requests termination.
    #[verifier::loop_isolation(false)]
    pub fn advance(&mut self, comms: &mut CommsState)
        requires
            old(self).wf(),
            old(comms).wf(),
            old(self).write_market_data_handle.slot < old(comms).topics@.len(),
        ensures
            final(self).wf(),
            final(self).write_market_data_handle == old(self).write_market_data_handle,
            old(comms).same_topology(*final(comms)),
            final(comms).clock == old(comms).clock,
            ({
                let k = ready_len(old(self).pending(), old(comms).clock);
                &&& final(self).pending() == old(self).pending().skip(k)
                &&& published_seq(
                    *old(comms),
                    *final(comms),
                    old(self).write_market_data_handle.slot as int,
                    old(self).pending().take(k),
                )
                &&& final(comms).terminated == (old(comms).terminated || (k > 0 && k == old(
                    self,
                ).pending().len()))
            }),
    {
        let now = comms.time();
        let ghost pend0 = self.pending();
        let ghost topic = self.write_market_data_handle.slot as int;
        let ghost mut j: int = 0;
        proof {
            lemma_ready_len_bounds(pend0, now);
            lemma_published_seq_empty(*old(comms), topic);
            assert(pend0.skip(0) =~= pend0);
            assert(pend0.take(0) =~= Seq::<Message>::empty());
        }
        while self.peek_ready(now)
            invariant
                self.wf(),
                self.write_market_data_handle == old(self).write_market_data_handle,
                comms.wf(),
                old(comms).same_topology(*comms),
                comms.clock == old(comms).clock,
                now == old(comms).clock,
                0 <= j <= pend0.len(),
                self.pending() == pend0.skip(j),
                j + ready_len(self.pending(), now) == ready_len(pend0, now),
                published_seq(*old(comms), *comms, topic, pend0.take(j)),
                comms.terminated == (old(comms).terminated || (j > 0 && self.pending().len()
                    == 0)),
            decreases self.pending().len(),
        {
            let msg = self.peek_message();
            let ghost c_pre = *comms;
            let ghost pend_pre = self.pending();
            comms.publish(&self.write_market_data_handle, msg);
            proof {
                lemma_published_seq_snoc(*old(comms), c_pre, *comms, topic, pend0.take(j), msg);
                assert(pend_pre[0] == pend0[j]);
                assert(pend0.take(j).push(msg) =~= pend0.take(j + 1));
            }
            let more = self.next_tick();
            proof {
                assert(self.pending() =~= pend_pre.drop_first());
                assert(pend_pre.drop_first() =~= pend0.skip(j + 1));
                assert(ready_len(pend_pre, now) == 1 + ready_len(self.pending(), now));
                j = j + 1;
            }
            if !more {
                comms.request_terminate();
            }
        }
        proof {
            if self.has_peek() {
                assert(self.pending()[0].header.commit_at == self.peeking_tick_time);
                assert(ready_len(self.pending(), now) == 0);
            } else {
                assert(self.pending().len() == 0);
            }
            assert(j == ready_len(pend0, now));
        }
    }
}

/// How many leading pending events are due at or before `now`: the walk
/// stops at the first event whose commit time is still in the future.
pub open spec fn ready_len(msgs: Seq<Message>, now: u64) -> int
    decreases msgs.len(),
{
    if msgs.len() == 0 {
        0
    } else if msgs[0].header.commit_at > now {
        0
    } else {
        1 + ready_len(msgs.drop_first(), now)
    }
}

pub proof fn lemma_ready_len_bounds(msgs: Seq<Message>, now: u64)
    ensures
        0 <= ready_len(msgs, now) <= msgs.len(),
    decreases msgs.len(),
{
    if msgs.len() > 0 && msgs[0].header.commit_at <= now {
        lemma_ready_len_bounds(msgs.drop_first(), now);
    }
}

impl Module for BinanceRepublisher {
    open spec fn inv(&self) -> bool {
        self.wf()
    }

    open spec fn handles_ok(&self, comms: &CommsState) -> bool {
        self.write_market_data_handle.slot < comms.topics@.len()
    }

    /// The pending event's time; `None` once the streams are exhausted.
    open spec fn spec_next_at(&self) -> Option<u64> {
        match self.peeking_tick {
            PeekingTick::Empty => None,
            _ => Some(self.peeking_tick_time),
        }
    }

    open spec fn spec_wake_on_message(&self) -> bool {
        false
    }

    /// The first event is already held out when the module is built, so
    /// starting changes nothing.
    open spec fn started_from(&self, pre: &Self) -> bool {
        self == pre
    }

    /// The replay flushes nothing at the end.
    open spec fn terminated_from(&self, pre: &Self) -> bool {
        self == pre
    }

    /// The replay reads no topics: its sync is a no-op go-ahead.
    open spec fn sync_rel(
        &self,
        pre: &Self,
        pre_comms: &CommsState,
        post_comms: &CommsState,
        r: bool,
    ) -> bool {
        self == pre && post_comms == pre_comms && r
    }

    /// One iteration publishes exactly the due prefix of the pending
    /// timeline and requests termination iff that empties it.
    open spec fn iter_rel(
        &self,
        pre: &Self,
        pre_comms: &CommsState,
        post_comms: &CommsState,
    ) -> bool {
        let k = ready_len(pre.pending(), pre_comms.clock);
        &&& self.pending() == pre.pending().skip(k)
        &&& self.write_market_data_handle == pre.write_market_data_handle
        &&& published_seq(
            *pre_comms,
            *post_comms,
            pre.write_market_data_handle.slot as int,
            pre.pending().take(k),
        )
        &&& post_comms.terminated == (pre_comms.terminated || (k > 0 && k == pre.pending().len()))
    }

    fn start(&mut self) {
    }

    fn sync(&mut self, comms: &mut CommsState) -> (r: bool) {
        true
    }

    fn one_iteration(&mut self, comms: &mut CommsState) {
        self.advance(comms);
    }

    /// The pending event's virtual time, or `None` once the streams are
    /// exhausted: the replay only wakes itself.
    fn next_iteration_start_at(&self) -> Option<u64> {
        match &self.peeking_tick {
            PeekingTick::Empty => None,
            _ => Some(self.peeking_tick_time),
        }
    }

    fn wake_on_message(&self) -> bool {
        false
    }

    fn terminate(&mut self) {
    }
}

/// Assembles a replay module: the input streams are handed over as
/// already-decoded records, and the module publishes on `market_data`.
#[derive(Debug)]
pub struct BinanceRepublisherBuilder {
    pub symbol: String,
    pub write_target_topic_handle: Option<WriteTopicHandle>,
    pub trades: Vec<BinanceTradeTick>,
    pub tickers: Vec<BinanceBookTicker>,
}

impl BinanceRepublisherBuilder {
    pub fn new(symbol: String) -> (b: BinanceRepublisherBuilder)
        ensures
            b.symbol == symbol,
            b.write_target_topic_handle is None,
            b.trades@.len() == 0,
            b.tickers@.len() == 0,
    {
        BinanceRepublisherBuilder {
            symbol,
            write_target_topic_handle: None,
            trades: Vec::new(),
            tickers: Vec::new(),
        }
    }

    /// Hands over the decoded trade tape.
    pub fn with_trades(self, trades: Vec<BinanceTradeTick>) -> (b: BinanceRepublisherBuilder)
        ensures
            b == (BinanceRepublisherBuilder { trades, ..self }),
    {
        BinanceRepublisherBuilder { trades, ..self }
    }

    /// Hands over the decoded book-ticker tape.
    pub fn with_tickers(self, tickers: Vec<BinanceBookTicker>) -> (b: BinanceRepublisherBuilder)
        ensures
            b == (BinanceRepublisherBuilder { tickers, ..self }),
    {
        BinanceRepublisherBuilder { tickers, ..self }
    }

    /// Registers the module's publication on the `market_data` topic.
    pub fn init_comm(&mut self, comms: &mut CommsState, module: &ModuleId)
        requires
            old(comms).wf(),
            module.slot < old(comms).modules@.len(),
        ensures
            final(comms).wf(),
            final(comms).clock == old(comms).clock,
            final(comms).terminated == old(comms).terminated,
            final(comms).mailboxes@ == old(comms).mailboxes@,
            final(comms).modules@.len() == old(comms).modules@.len(),
            old(comms).topics@.len() <= final(comms).topics@.len(),
            final(self).symbol == old(self).symbol,
            final(self).trades == old(self).trades,
            final(self).tickers == old(self).tickers,
            match final(self).write_target_topic_handle {
                Some(h) => h.slot < final(comms).topics@.len(),
                None => false,
            },
    {
        let name = topic_name_market_data();
        let topic = comms.get_or_create_topic(&name);
        let h = comms.publish_topic(module, &topic);
        self.write_target_topic_handle = Some(h);
    }

    /// Builds the module, holding out the first merged event. Fails if
    /// `init_comm` was never called or a timestamp does not fit the
    /// nanosecond clock.
    pub fn build(self) -> (r: Option<BinanceRepublisher>)
        ensures
            match r {
                Some(m) => m.wf() && m.pending() == spec_merged(self.trades@, self.tickers@)
                    && Some(m.write_market_data_handle) == self.write_target_topic_handle,
                None => self.write_target_topic_handle is None || (exists|i: int|
                    0 <= i < self.trades@.len() && (#[trigger] self.trades@[i]).time > MAX_TIME_MS)
                    || (exists|i: int|
                    0 <= i < self.tickers@.len() && (#[trigger] self.tickers@[i]).event_time
                        > MAX_TIME_MS),
            },
    {
        let handle = match self.write_target_topic_handle {
            Some(h) => h,
            None => {
                return None;
            },
        };
        let mut i: usize = 0;
        while i < self.trades.len()
            invariant
                i <= self.trades@.len(),
                forall|k: int| 0 <= k < i ==> (#[trigger] self.trades@[k]).time <= MAX_TIME_MS,
            decreases self.trades@.len() - i,
        {
            if self.trades[i].time > MAX_TIME_MS {
                return None;
            }
            i = i + 1;
        }
        let mut i: usize = 0;
        while i < self.tickers.len()
            invariant
                i <= self.tickers@.len(),
                forall|k: int|
                    0 <= k < i ==> (#[trigger] self.tickers@[k]).event_time <= MAX_TIME_MS,
            decreases self.tickers@.len() - i,
        {
            if self.tickers[i].event_time > MAX_TIME_MS {
                return None;
            }
            i = i + 1;
        }
        let mut m = BinanceRepublisher {
            write_market_data_handle: handle,
            trades: self.trades,
            trade_pos: 0,
            tickers: self.tickers,
            ticker_pos: 0,
            peeking_tick: PeekingTick::Empty,
            peeking_tick_time: 0,
        };
        proof {
            assert(m.rem_trades() =~= m.trades@);
            assert(m.rem_tickers() =~= m.tickers@);
        }
        m.next_tick();
        Some(m)
    }
}

/// The replay module's registration name.
pub fn topic_name_replay_module() -> (s: String)
    ensures
        s@ == "binance_republisher"@,
{
    String::from_str("binance_republisher")
}

/// The name of the topic the replay publishes on.
pub fn topic_name_market_data() -> (s: String)
    ensures
        s@ == "market_data"@,
{
    String::from_str("market_data")
}

} // verus!
