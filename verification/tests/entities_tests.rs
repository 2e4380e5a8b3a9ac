use conditional_orderbook::decimal::FixedDecimal;
use conditional_orderbook::entities::order::{Order, OrderSide, OrderStatus};
use conditional_orderbook::entities::orderbook::OrderBook;
use rust_decimal::Decimal;

fn dec(text: &str) -> FixedDecimal {
    let d = Decimal::from_str_exact(text).unwrap();
    FixedDecimal::new(d.mantissa(), d.scale()).unwrap()
}

fn is_plausible_ms(ts: i64) -> bool {
    (1_000_000_000_000..=4_000_000_000_000).contains(&ts)
}

#[test]
fn order_new_populates_fields() {
    let o = Order::new("BTC/USDT".into(), OrderSide::Buy, dec("100.5"), dec("2.0"));
    assert_eq!(o.pair, "BTC/USDT");
    assert_eq!(o.side, OrderSide::Buy);
    assert_eq!(o.price, dec("100.5"));
    assert_eq!(o.quantity, dec("2.0"));
    assert_eq!(o.status, OrderStatus::New);
    assert!(!o.id.is_empty());
    assert!(is_plausible_ms(o.created), "created not plausible ms: {}", o.created);
    assert!(is_plausible_ms(o.updated), "updated not plausible ms: {}", o.updated);
    assert!(o.updated >= o.created);
}

#[test]
fn order_new_draws_a_fresh_hyphenated_id() {
    let a = Order::new("BTC/USDT".into(), OrderSide::Buy, dec("1"), dec("1"));
    let b = Order::new("BTC/USDT".into(), OrderSide::Buy, dec("1"), dec("1"));
    assert_eq!(a.id.len(), 36);
    assert_eq!(b.id.len(), 36);
    assert_ne!(a.id, b.id);
    assert_eq!(a.id.matches('-').count(), 4);
    assert_eq!(a.created, a.updated);
}

#[test]
fn with_identity_is_exact() {
    let o = Order::with_identity(
        "abc".into(),
        "ETH/USDT".into(),
        OrderSide::Sell,
        dec("3100"),
        dec("0.25"),
        1_700_000_000_000,
    );
    assert_eq!(o.id, "abc");
    assert_eq!(o.pair, "ETH/USDT");
    assert_eq!(o.side, OrderSide::Sell);
    assert_eq!(o.price, dec("3100"));
    assert_eq!(o.quantity, dec("0.25"));
    assert_eq!(o.status, OrderStatus::New);
    assert_eq!(o.created, 1_700_000_000_000);
    assert_eq!(o.updated, 1_700_000_000_000);
    let copy = o.clone();
    assert_eq!(copy.id, "abc");
    assert_eq!(copy.updated, 1_700_000_000_000);
}

#[test]
fn terminal_and_active_statuses() {
    assert!(OrderStatus::Filled.is_terminal());
    assert!(OrderStatus::Cancelled.is_terminal());
    assert!(!OrderStatus::New.is_terminal());
    assert!(!OrderStatus::Open.is_terminal());
    assert!(!OrderStatus::PartiallyFilled.is_terminal());
    assert!(OrderStatus::New.is_active());
    assert!(OrderStatus::Open.is_active());
    assert!(OrderStatus::PartiallyFilled.is_active());
    assert!(!OrderStatus::Filled.is_active());
    assert!(!OrderStatus::Cancelled.is_active());
}

#[test]
fn default_is_empty_pair() {
    let ob = OrderBook::default();
    assert_eq!(ob.pair, "");
}

#[test]
fn order_book_clone_keeps_the_pair() {
    let ob = OrderBook { pair: "BTC/USDT".into() };
    assert_eq!(ob.clone().pair, "BTC/USDT");
}
