use upstair_sim::order::TradeSide;
use upstair_sim::tracker::Order;
use upstair_sim::tracker::OrderStatus;
use upstair_sim::tracker::OrderTracker;

fn make_order(id: &str, quantity: u64) -> Order {
    Order {
        order_id: id.to_string(),
        price: 0,
        side: TradeSide::Buy,
        quantity,
        filled: 0,
        status: OrderStatus::Open,
        created_at: 0,
    }
}

#[test]
fn upsert_new_order() {
    let mut order_tracker = OrderTracker::new();
    let order = make_order("test", 0);
    assert!(order_tracker.upsert_order(order));
}

#[test]
fn upsert_existing_order() {
    let mut order_tracker = OrderTracker::new();
    let order = make_order("test", 2);
    order_tracker.upsert_order(order);
    let order = Order { side: TradeSide::Sell, quantity: 1, ..make_order("test", 1) };
    assert!(!order_tracker.upsert_order(order));
    // the newly upserted order should be the new one
    let got = order_tracker.get_order(&"test".to_string()).unwrap();
    assert_eq!(got.side, TradeSide::Sell);
    assert_eq!(got.quantity, 1);
}

#[test]
fn fill_order() {
    let mut order_tracker = OrderTracker::new();
    // quantities scaled to tenths: an order for 1.5 units
    let order = make_order("test", 15);
    order_tracker.upsert_order(order);
    let report1 = "report1".to_string();
    let report2 = "report2".to_string();
    order_tracker.fill_order(&"test".to_string(), 5, Some(&report1));
    order_tracker.fill_order(&"test".to_string(), 5, Some(&report1));
    order_tracker.fill_order(&"test".to_string(), 10, Some(&report2));
    assert_eq!(order_tracker.get_order(&"test".to_string()).unwrap().filled, 15);
}

#[test]
fn test_cancel_order() {
    let mut order_tracker = OrderTracker::new();
    let order = make_order("test", 15);
    order_tracker.upsert_order(order);
    order_tracker.cancel_order(&"test".to_string());
    assert_eq!(order_tracker.size(), 0);
}

#[test]
fn test_remove_terminated_orders() {
    let mut order_tracker = OrderTracker::new();
    order_tracker.upsert_order(make_order("a", 1));
    order_tracker.upsert_order(make_order("b", 1));
    order_tracker.upsert_order(make_order("c", 1));
    order_tracker.update_status(&"a".to_string(), OrderStatus::Filled);
    order_tracker.update_status(&"b".to_string(), OrderStatus::Canceled);
    order_tracker.remove_terminated_orders();
    assert_eq!(order_tracker.size(), 1);
    assert!(order_tracker.get_order(&"c".to_string()).is_some());
}
