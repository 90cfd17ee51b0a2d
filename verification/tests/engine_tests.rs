use upstair_sim::engine::AnyModule;
use upstair_sim::engine::SimulationEngine;
use upstair_sim::engine::SimulationEngineBuilder;
use upstair_sim::engine::StepOutcome;
use upstair_sim::comms::ModuleId;
use upstair_sim::comms::ReadTopicHandle;
use upstair_sim::comms::WriteTopicHandle;
use upstair_sim::market_agent::MarketAgentBuilder;
use upstair_sim::market_data::BinanceBookTicker;
use upstair_sim::market_data::BinanceTradeTick;
use upstair_sim::message::Message;
use upstair_sim::message::MessageHeader;
use upstair_sim::message::Payload;
use upstair_sim::order::OrderRequest;
use upstair_sim::order::OrderResult;
use upstair_sim::order::OrderStatus;
use upstair_sim::order::TimeInForce;
use upstair_sim::order::TradeSide;
use upstair_sim::order::TradeType;
use upstair_sim::replay::BinanceRepublisherBuilder;
use upstair_sim::symbol::SymbolInfoManager;

fn btc_usdt_manager() -> SymbolInfoManager {
    SymbolInfoManager::new().with_symbol_config(
        "BTCUSDT".to_string(),
        "BTC".to_string(),
        "USDT".to_string(),
        0,
    )
}

fn trade_tick(id: u64, price: u64, qty: u64, time: u64, is_buyer_maker: bool) -> BinanceTradeTick {
    BinanceTradeTick {
        id,
        price,
        qty,
        base_qty: price * qty,
        time,
        is_buyer_maker,
        symbol: "BTCUSDT".to_string(),
    }
}

fn book_tick(update_id: u64, event_time: u64) -> BinanceBookTicker {
    BinanceBookTicker {
        update_id,
        best_bid_price: 99,
        best_bid_qty: 1,
        best_ask_price: 101,
        best_ask_qty: 1,
        transaction_time: event_time,
        event_time,
        symbol: "BTCUSDT".to_string(),
    }
}

struct Driver {
    id: ModuleId,
    order_results: ReadTopicHandle,
    order_topic: WriteTopicHandle,
    market_data: WriteTopicHandle,
}

/// An engine with the matching agent and an externally driven
/// participant that submits orders and market data.
fn agent_engine(usdt: u64, btc: u64) -> (SimulationEngine, ModuleId, Driver) {
    let mut builder = SimulationEngineBuilder::new();
    let agent_id = builder
        .add_market_agent(
            MarketAgentBuilder::new()
                .with_symbol_info_manager(btc_usdt_manager())
                .with_initial_balance("USDT".to_string(), usdt)
                .with_initial_balance("BTC".to_string(), btc),
        )
        .unwrap();
    let subs = vec!["order_result".to_string(), "account".to_string()];
    let pubs = vec!["order".to_string(), "market_data".to_string()];
    let (driver_id, reads, writes) =
        builder.add_external_module(&"driver".to_string(), true, &subs, &pubs).unwrap();
    let engine = builder.build();
    let driver = Driver {
        id: driver_id,
        order_results: reads[0],
        order_topic: writes[0],
        market_data: writes[1],
    };
    (engine, agent_id, driver)
}

fn buy_order(id: &str, price: u64, quantity: u64, at: u64) -> Message {
    Message {
        header: MessageHeader { commit_at: at },
        payload: Payload::OrderRequest(OrderRequest {
            symbol: "BTCUSDT".to_string(),
            side: TradeSide::Buy,
            price,
            quantity,
            trade_type: TradeType::Limit,
            time_in_force: TimeInForce::GoodTilCancelled,
            client_order_id: id.to_string(),
            cancel_order_id: None,
        }),
    }
}

fn sell_order(id: &str, price: u64, quantity: u64, at: u64) -> Message {
    Message {
        header: MessageHeader { commit_at: at },
        payload: Payload::OrderRequest(OrderRequest {
            symbol: "BTCUSDT".to_string(),
            side: TradeSide::Sell,
            price,
            quantity,
            trade_type: TradeType::Limit,
            time_in_force: TimeInForce::GoodTilCancelled,
            client_order_id: id.to_string(),
            cancel_order_id: None,
        }),
    }
}

fn trade_message(tick: BinanceTradeTick, at: u64) -> Message {
    Message { header: MessageHeader { commit_at: at }, payload: Payload::BinanceTradeTick(tick) }
}

fn next_order_result(engine: &mut SimulationEngine, driver: &Driver) -> Option<OrderResult> {
    while let Some(m) = engine.comms.receive(&driver.order_results) {
        if let Payload::OrderResult(r) = m.payload {
            return Some(r);
        }
    }
    None
}

/// Lets the engine run every pending internal dispatch, handing the
/// driver's own turns straight back.
fn settle(engine: &mut SimulationEngine) {
    loop {
        match engine.step() {
            StepOutcome::Finished => break,
            StepOutcome::ExternalReady(id) => engine.finish_external(id, None),
            StepOutcome::Ran(_) => {},
        }
    }
}

fn agent_balance(engine: &SimulationEngine, agent_id: ModuleId, asset: &str) -> (u64, u64) {
    match &engine.modules[agent_id.slot] {
        AnyModule::Agent(a) => {
            let b = a.account.get(&asset.to_string());
            (b.balance, b.locked)
        },
        _ => panic!("not the agent"),
    }
}

// Seed 10000 quote units and no base, fee zero; a buy at 100 for 1 is
// filled by one aggressive-sell trade at 100: the order result reports
// a full fill and the account moves 100 quote for 1 base, no fee.
#[test]
fn test_single_fill_buy() {
    let (mut engine, agent_id, driver) = agent_engine(10000, 0);
    assert!(matches!(engine.step(), StepOutcome::Finished));

    engine.comms.set_clock(1_000_000);
    engine.comms.publish(&driver.order_topic, buy_order("A1", 100, 1, 1_000_000));
    engine.finish_external(driver.id, None);
    settle(&mut engine);
    let new_result = next_order_result(&mut engine, &driver).unwrap();
    assert_eq!(new_result.status, OrderStatus::New);
    assert_eq!(new_result.filled_quantity, 0);
    let (_, locked) = agent_balance(&engine, agent_id, "USDT");
    assert_eq!(locked, 100);

    engine.comms.set_clock(2_000_000);
    engine.comms.publish(
        &driver.market_data,
        trade_message(trade_tick(1, 100, 1, 2, true), 2_000_000),
    );
    engine.finish_external(driver.id, None);
    settle(&mut engine);

    let fill = next_order_result(&mut engine, &driver).unwrap();
    assert_eq!(fill.status, OrderStatus::Filled);
    assert_eq!(fill.filled_quantity, 1);
    assert_eq!(fill.price, 100);
    assert!(fill.is_buy);

    assert_eq!(agent_balance(&engine, agent_id, "USDT"), (9900, 0));
    assert_eq!(agent_balance(&engine, agent_id, "BTC"), (1, 0));
}

// A sell for 2 against two aggressive-buy trades of 1 each: first a
// partial fill with 1 remaining, then a full fill.
#[test]
fn test_partial_fill_across_two_ticks() {
    let (mut engine, agent_id, driver) = agent_engine(0, 10);
    assert!(matches!(engine.step(), StepOutcome::Finished));

    engine.comms.set_clock(1_000_000);
    engine.comms.publish(&driver.order_topic, sell_order("S1", 100, 2, 1_000_000));
    engine.finish_external(driver.id, None);
    settle(&mut engine);
    let new_result = next_order_result(&mut engine, &driver).unwrap();
    assert_eq!(new_result.status, OrderStatus::New);

    engine.comms.set_clock(2_000_000);
    engine.comms.publish(
        &driver.market_data,
        trade_message(trade_tick(1, 100, 1, 2, false), 2_000_000),
    );
    engine.finish_external(driver.id, None);
    settle(&mut engine);
    let first = next_order_result(&mut engine, &driver).unwrap();
    assert_eq!(first.status, OrderStatus::PartiallyFilled);
    assert_eq!(first.filled_quantity, 1);

    engine.comms.set_clock(3_000_000);
    engine.comms.publish(
        &driver.market_data,
        trade_message(trade_tick(2, 100, 1, 3, false), 3_000_000),
    );
    engine.finish_external(driver.id, None);
    settle(&mut engine);
    let second = next_order_result(&mut engine, &driver).unwrap();
    assert_eq!(second.status, OrderStatus::Filled);
    assert_eq!(second.filled_quantity, 1);

    assert_eq!(agent_balance(&engine, agent_id, "BTC"), (8, 0));
    assert_eq!(agent_balance(&engine, agent_id, "USDT"), (200, 0));
}

/// A compact fingerprint of a market-data message for comparing runs.
fn fingerprint(m: &Message) -> (u64, u8, u64) {
    match &m.payload {
        Payload::BinanceTradeTick(t) => (m.header.commit_at, 0, t.time),
        Payload::BinanceBookTicker(b) => (m.header.commit_at, 1, b.event_time),
        _ => (m.header.commit_at, 9, 0),
    }
}

fn replay_run(trade_times: &[u64], ticker_times: &[u64]) -> (Vec<(u64, u8, u64)>, bool) {
    let trades: Vec<BinanceTradeTick> =
        trade_times.iter().enumerate().map(|(i, t)| trade_tick(i as u64, 100, 1, *t, true)).collect();
    let tickers: Vec<BinanceBookTicker> =
        ticker_times.iter().enumerate().map(|(i, t)| book_tick(i as u64, *t)).collect();
    let mut builder = SimulationEngineBuilder::new();
    builder
        .add_republisher(
            BinanceRepublisherBuilder::new("BTCUSDT".to_string())
                .with_trades(trades)
                .with_tickers(tickers),
        )
        .unwrap();
    let (_, reads, _) = builder
        .add_external_module(&"observer".to_string(), true, &vec!["market_data".to_string()], &vec![])
        .unwrap();
    let mut engine = builder.build();
    assert!(engine.run());
    let mut seen = Vec::new();
    while let Some(m) = engine.comms.receive(&reads[0]) {
        seen.push(fingerprint(&m));
    }
    (seen, engine.comms.terminated)
}

// Trades at 10 and 30 ms merged with a ticker at 20 ms arrive as
// trade, ticker, trade, at their own virtual times.
#[test]
fn test_replay_ordering() {
    let (seen, terminated) = replay_run(&[10, 30], &[20]);
    assert_eq!(
        seen,
        vec![(10_000_000, 0, 10), (20_000_000, 1, 20), (30_000_000, 0, 30)],
    );
    assert!(terminated);
}

// A trade and a ticker at the same millisecond: the trade goes first.
#[test]
fn test_replay_tie_goes_to_trade() {
    let (seen, _) = replay_run(&[20], &[20]);
    assert_eq!(seen, vec![(20_000_000, 0, 20), (20_000_000, 1, 20)]);
}

// Replaying the same tape twice produces identical message sequences.
#[test]
fn test_replay_deterministic() {
    let a = replay_run(&[10, 25, 30, 30], &[5, 20, 30]);
    let b = replay_run(&[10, 25, 30, 30], &[5, 20, 30]);
    assert_eq!(a.0, b.0);
    assert_eq!(a.1, b.1);
}

// Once the streams are exhausted the replay requests termination and
// the engine exits.
#[test]
fn test_replay_requests_terminate() {
    let (seen, terminated) = replay_run(&[1], &[]);
    assert_eq!(seen.len(), 1);
    assert!(terminated);
}
