use upstair_sim::book::LimitOrder;
use upstair_sim::book::MarketTrade;
use upstair_sim::book::SimpleMarket;
use upstair_sim::order::TradeSide;

fn order(id: &str, price: u64, quantity: u64, submit_at: u64, side: TradeSide) -> LimitOrder {
    LimitOrder {
        price,
        quantity,
        filled: 0,
        submit_at,
        side,
        order_id: id.to_string(),
    }
}

#[test]
fn test_order_sorted_by_price_then_time() {
    let mut market = SimpleMarket::new();
    market.add_order(order("A", 100, 10, 1, TradeSide::Buy));
    market.add_order(order("B", 101, 10, 2, TradeSide::Buy));
    assert_eq!(market.open_orders.len(), 2);
    assert_eq!(market.open_orders[0].price, 100);
    assert_eq!(market.open_orders[1].price, 101);
}

#[test]
fn test_dup_order_id() {
    let mut market = SimpleMarket::new();
    market.add_order(order("A", 100, 10, 1, TradeSide::Buy));
    market.add_order(order("A", 100, 10, 2, TradeSide::Buy));
    assert_eq!(market.open_orders.len(), 1);
}

#[test]
fn test_remove_order() {
    let mut market = SimpleMarket::new();
    market.add_order(order("A", 100, 10, 1, TradeSide::Buy));
    market.cancel_order(&"A".to_string());
    assert_eq!(market.open_orders.len(), 0);
}

#[test]
fn test_add_market_trade() {
    let mut market = SimpleMarket::new();
    let trade = MarketTrade { price: 100, quantity: 10, trade_at: 1, is_buyer_maker: true };
    market.add_market_trade(trade);
    assert_eq!(market.market_trade_buf.len(), 1);
}

#[test]
fn test_try_match_market() {
    let mut market = SimpleMarket::new();
    market.add_order(order("A", 100, 10, 1, TradeSide::Buy));
    let trade = MarketTrade { price: 100, quantity: 5, trade_at: 2, is_buyer_maker: true };
    market.add_market_trade(trade);
    let events = market.try_match_market();
    assert_eq!(events.len(), 1);
    assert_eq!(market.open_orders.len(), 1);
    assert_eq!(market.open_orders[0].filled, 5);
}

#[test]
fn test_try_match_market_fill_more_than_one_order() {
    let mut market = SimpleMarket::new();
    market.add_order(order("A", 100, 10, 1, TradeSide::Buy));
    market.add_order(order("B", 101, 10, 2, TradeSide::Buy));
    market.add_order(order("C", 105, 10, 3, TradeSide::Sell));
    let trade = MarketTrade { price: 100, quantity: 15, trade_at: 4, is_buyer_maker: true };
    market.add_market_trade(trade);
    let events = market.try_match_market();
    assert_eq!(events.len(), 2);
    assert_eq!(market.open_orders.len(), 2);
    assert_eq!(events[0].price, 101);
    assert_eq!(events[0].quantity, 10);
    assert_eq!(events[1].price, 100);
    assert_eq!(events[1].quantity, 5);
}

#[test]
fn test_push_zero_quantity_order() {
    let mut market = SimpleMarket::new();
    market.add_order(order("A", 100, 0, 1, TradeSide::Buy));
    assert_eq!(market.open_orders.len(), 0);
}

#[test]
fn test_sort_order_by_price() {
    let mut market = SimpleMarket::new();
    market.add_order(order("A", 100, 10, 1, TradeSide::Buy));
    market.add_order(order("B", 100, 10, 2, TradeSide::Buy));
    market.add_order(order("C", 99, 10, 3, TradeSide::Buy));
    assert_eq!(market.open_orders.len(), 3);
    assert_eq!(market.open_orders[0].price, 99);
    assert_eq!(market.open_orders[1].price, 100);
    assert_eq!(market.open_orders[2].price, 100);
    assert_eq!(market.open_orders[2].order_id.as_str(), "B");
}

// Two resting buys at equal price match in submit-time order when an
// aggressive sell sweeps them.
#[test]
fn test_equal_price_buys_fill_in_submit_order() {
    let mut market = SimpleMarket::new();
    market.add_order(order("B1", 100, 4, 1, TradeSide::Buy));
    market.add_order(order("B2", 100, 4, 2, TradeSide::Buy));
    let trade = MarketTrade { price: 100, quantity: 5, trade_at: 3, is_buyer_maker: true };
    market.add_market_trade(trade);
    let events = market.try_match_market();
    assert_eq!(events.len(), 2);
    assert_eq!(events[0].order_id.as_str(), "B1");
    assert_eq!(events[0].quantity, 4);
    assert_eq!(events[1].order_id.as_str(), "B2");
    assert_eq!(events[1].quantity, 1);
    assert_eq!(market.open_orders.len(), 1);
    assert_eq!(market.open_orders[0].order_id.as_str(), "B2");
}

// Price priority still wins across levels: the higher-priced buy fills
// before the lower-priced one, each level in submit order.
#[test]
fn test_price_priority_across_levels() {
    let mut market = SimpleMarket::new();
    market.add_order(order("A", 100, 10, 1, TradeSide::Buy));
    market.add_order(order("B", 101, 10, 2, TradeSide::Buy));
    let trade = MarketTrade { price: 100, quantity: 15, trade_at: 3, is_buyer_maker: true };
    market.add_market_trade(trade);
    let events = market.try_match_market();
    assert_eq!(events.len(), 2);
    assert_eq!(events[0].order_id.as_str(), "B");
    assert_eq!(events[0].quantity, 10);
    assert_eq!(events[1].order_id.as_str(), "A");
    assert_eq!(events[1].quantity, 5);
}

// An aggressive buy reaches equal-priced resting sells oldest-first.
#[test]
fn test_equal_price_sells_fill_in_submit_order() {
    let mut market = SimpleMarket::new();
    market.add_order(order("S1", 100, 4, 1, TradeSide::Sell));
    market.add_order(order("S2", 100, 4, 2, TradeSide::Sell));
    let trade = MarketTrade { price: 100, quantity: 5, trade_at: 3, is_buyer_maker: false };
    market.add_market_trade(trade);
    let events = market.try_match_market();
    assert_eq!(events.len(), 2);
    assert_eq!(events[0].order_id.as_str(), "S1");
    assert_eq!(events[0].quantity, 4);
    assert_eq!(events[1].order_id.as_str(), "S2");
    assert_eq!(events[1].quantity, 1);
    assert_eq!(market.open_orders.len(), 1);
    assert_eq!(market.open_orders[0].order_id.as_str(), "S2");
}

// Every fill in a match is for a positive quantity, and a trade stops
// filling once used up.
#[test]
fn test_fills_positive_and_trade_bounded() {
    let mut market = SimpleMarket::new();
    market.add_order(order("A", 100, 3, 1, TradeSide::Buy));
    market.add_order(order("B", 99, 3, 2, TradeSide::Buy));
    let trade = MarketTrade { price: 99, quantity: 3, trade_at: 3, is_buyer_maker: true };
    market.add_market_trade(trade);
    let events = market.try_match_market();
    assert_eq!(events.len(), 1);
    assert!(events.iter().all(|e| e.quantity > 0));
    let total: u64 = events.iter().map(|e| e.quantity).sum();
    assert_eq!(total, 3);
    assert_eq!(market.open_orders.len(), 1);
    assert_eq!(market.open_orders[0].order_id.as_str(), "B");
}
