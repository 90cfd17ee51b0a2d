use upstair_sim::comms::CommsState;
use upstair_sim::market_agent::CancelOutcome;
use upstair_sim::market_agent::MarketAgent;
use upstair_sim::market_agent::MarketAgentBuilder;
use upstair_sim::market_agent::OrderOutcome;
use upstair_sim::module::Module;
use upstair_sim::order::CancelOrderRequest;
use upstair_sim::order::OrderRequest;
use upstair_sim::order::TimeInForce;
use upstair_sim::order::TradeSide;
use upstair_sim::order::TradeType;
use upstair_sim::symbol::calc_trade_result;
use upstair_sim::symbol::SymbolInfo;
use upstair_sim::symbol::SymbolInfoManager;

fn btc_usdt_manager(fee_ppm: u64) -> SymbolInfoManager {
    SymbolInfoManager::new().with_symbol_config(
        "BTCUSDT".to_string(),
        "BTC".to_string(),
        "USDT".to_string(),
        fee_ppm,
    )
}

fn fresh_agent(usdt: u64, btc: u64) -> MarketAgent {
    let mut comms = CommsState::new();
    let module = comms.create_module(&"market_agent".to_string()).unwrap();
    let mut builder = MarketAgentBuilder::new()
        .with_symbol_info_manager(btc_usdt_manager(0))
        .with_initial_balance("USDT".to_string(), usdt)
        .with_initial_balance("BTC".to_string(), btc);
    builder.init_comm(&mut comms, &module);
    let mut agent = builder.build().unwrap();
    agent.start();
    agent
}

fn buy(id: &str, price: u64, quantity: u64) -> OrderRequest {
    OrderRequest {
        symbol: "BTCUSDT".to_string(),
        side: TradeSide::Buy,
        price,
        quantity,
        trade_type: TradeType::Limit,
        time_in_force: TimeInForce::GoodTilCancelled,
        client_order_id: id.to_string(),
        cancel_order_id: None,
    }
}

// Submitting then canceling before any trade restores free and locked.
#[test]
fn test_cancel_restores_locked() {
    let mut agent = fresh_agent(10000, 0);
    let usdt = "USDT".to_string();
    let free_before = agent.account.get(&usdt).balance;

    let outcome = agent.process_order_request(buy("A1", 50, 2), 0);
    assert_eq!(outcome, OrderOutcome::Accepted);
    assert_eq!(agent.account.get(&usdt).locked, 100);
    assert_eq!(agent.account.get(&usdt).balance, free_before);

    let cancel = agent.process_cancel_order_request(CancelOrderRequest {
        symbol: "BTCUSDT".to_string(),
        client_order_id: "A1".to_string(),
    });
    assert_eq!(cancel, CancelOutcome::Canceled);
    assert_eq!(agent.account.get(&usdt).locked, 0);
    assert_eq!(agent.account.get(&usdt).balance, free_before);
}

// An order for zero quantity is rejected and no book is touched.
#[test]
fn test_zero_quantity_rejected() {
    let mut agent = fresh_agent(10000, 0);
    let outcome = agent.process_order_request(buy("A1", 100, 0), 0);
    assert_eq!(outcome, OrderOutcome::RejectedZeroQuantity);
    assert_eq!(agent.market_by_symbol.len(), 0);
    assert_eq!(agent.account.get(&"USDT".to_string()).locked, 0);
}

#[test]
fn test_zero_price_rejected() {
    let mut agent = fresh_agent(10000, 0);
    let outcome = agent.process_order_request(buy("A1", 0, 1), 0);
    assert_eq!(outcome, OrderOutcome::RejectedZeroPrice);
}

#[test]
fn test_unknown_symbol_rejected() {
    let mut agent = fresh_agent(10000, 0);
    let mut req = buy("A1", 100, 1);
    req.symbol = "ETHUSDT".to_string();
    let outcome = agent.process_order_request(req, 0);
    assert_eq!(outcome, OrderOutcome::RejectedUnknownSymbol);
}

#[test]
fn test_insufficient_balance_rejected() {
    let mut agent = fresh_agent(100, 0);
    let outcome = agent.process_order_request(buy("A1", 100, 2), 0);
    assert_eq!(outcome, OrderOutcome::RejectedInsufficientBalance);
    assert_eq!(agent.account.get(&"USDT".to_string()).locked, 0);
}

#[test]
fn test_amount_overflow_rejected() {
    let mut agent = fresh_agent(10000, 0);
    let outcome = agent.process_order_request(buy("A1", u64::MAX, 2), 0);
    assert_eq!(outcome, OrderOutcome::RejectedAmountOverflow);
}

// A duplicate id is ignored silently: no second lock is taken.
#[test]
fn test_duplicate_order_ignored() {
    let mut agent = fresh_agent(10000, 0);
    assert_eq!(agent.process_order_request(buy("A1", 50, 2), 0), OrderOutcome::Accepted);
    assert_eq!(agent.process_order_request(buy("A1", 50, 2), 1), OrderOutcome::DuplicateIgnored);
    assert_eq!(agent.account.get(&"USDT".to_string()).locked, 100);
}

#[test]
fn test_cancel_unknown_order() {
    let mut agent = fresh_agent(10000, 0);
    let cancel = agent.process_cancel_order_request(CancelOrderRequest {
        symbol: "BTCUSDT".to_string(),
        client_order_id: "missing".to_string(),
    });
    assert_eq!(cancel, CancelOutcome::NotFound);
    let cancel = agent.process_cancel_order_request(CancelOrderRequest {
        symbol: "ETHUSDT".to_string(),
        client_order_id: "missing".to_string(),
    });
    assert_eq!(cancel, CancelOutcome::UnknownSymbol);
}

// The fee comes out of the received amount: one part per thousand of
// 1000 received units is exactly 1 unit.
#[test]
fn test_fee_exact_value() {
    let info = SymbolInfo {
        base_asset: "BTC".to_string(),
        quote_asset: "USDT".to_string(),
        fee_ppm: 1000,
    };
    let r = calc_trade_result(&info, 100, 1000, true);
    assert_eq!(r.pay_asset.as_str(), "USDT");
    assert_eq!(r.pay_qty, 100000);
    assert_eq!(r.recv_asset.as_str(), "BTC");
    assert_eq!(r.fee_asset.as_str(), "BTC");
    assert_eq!(r.fee_qty, 1);
    assert_eq!(r.recv_qty, 999);

    let r = calc_trade_result(&info, 100, 1000, false);
    assert_eq!(r.pay_asset.as_str(), "BTC");
    assert_eq!(r.pay_qty, 1000);
    assert_eq!(r.recv_asset.as_str(), "USDT");
    assert_eq!(r.fee_qty, 100);
    assert_eq!(r.recv_qty, 99900);
}

// A full account summary goes out only once the configured interval of
// virtual time has passed since the last one.
#[test]
fn test_summary_interval() {
    let mut comms = CommsState::new();
    let module = comms.create_module(&"market_agent".to_string()).unwrap();
    let mut builder = MarketAgentBuilder::new()
        .with_symbol_info_manager(btc_usdt_manager(0))
        .with_initial_balance("USDT".to_string(), 1000)
        .with_summary_interval(1_000_000);
    builder.init_comm(&mut comms, &module);
    let mut agent = builder.build().unwrap();
    agent.start();

    comms.set_clock(500_000);
    agent.maybe_send_summary(&mut comms);
    assert_eq!(agent.last_account_summary_send_time, 0);

    comms.set_clock(2_000_000);
    agent.maybe_send_summary(&mut comms);
    assert_eq!(agent.last_account_summary_send_time, 2_000_000);

    comms.set_clock(2_500_000);
    agent.maybe_send_summary(&mut comms);
    assert_eq!(agent.last_account_summary_send_time, 2_000_000);
}

// For every asset the locked part never exceeds the balance, across a
// mix of operations.
#[test]
fn test_locked_within_balance() {
    let mut agent = fresh_agent(1000, 5);
    agent.process_order_request(buy("A1", 100, 2), 0);
    agent.process_order_request(buy("A2", 100, 8), 1);
    agent.process_order_request(buy("A3", 300, 3), 2);
    for (_, b) in agent.account.asset_to_balance.iter() {
        assert!(b.locked <= b.balance);
    }
}
