use conditional_orderbook::decimal::FixedDecimal;
use conditional_orderbook::entities::order::{NewOrder, Order, OrderSide, OrderStatus};
use conditional_orderbook::errors::ApiError;
use conditional_orderbook::handlers::health::ping;
use conditional_orderbook::handlers::orders::{
    create_order, delete_order, get_order, list_orders, update_status, CreateOrderPayload,
    ListQuery, UpdateStatusPayload,
};
use conditional_orderbook::repositories::in_memory::InMemoryOrderRepository;
use conditional_orderbook::repositories::{ListOrdersQuery, OrderRepository};
use rust_decimal::Decimal;

fn dec(text: &str) -> FixedDecimal {
    let d = Decimal::from_str_exact(text).unwrap();
    FixedDecimal::new(d.mantissa(), d.scale()).unwrap()
}

fn payload(pair: &str, side: OrderSide, price: &str, quantity: &str) -> CreateOrderPayload {
    CreateOrderPayload { pair: pair.into(), side, price: dec(price), quantity: dec(quantity) }
}

fn everything() -> ListQuery {
    ListQuery { pair: None, status: None, limit: None, offset: None }
}

/// A store that refuses everything.
struct DownRepo;

impl OrderRepository for DownRepo {
    fn create(&mut self, _new: NewOrder) -> Result<Order, String> {
        Err("down".into())
    }

    fn get_by_id(&self, _id: &str) -> Result<Order, String> {
        Err("down".into())
    }

    fn list(&self, _q: ListOrdersQuery) -> Result<Vec<Order>, String> {
        Err("down".into())
    }

    fn set_status(&mut self, _id: &str, _status: OrderStatus) -> Result<Order, String> {
        Err("down".into())
    }

    fn delete(&mut self, _id: &str) -> Result<(), String> {
        Err("down".into())
    }
}

#[test]
fn health_ok() {
    assert!(!ping().is_empty());
}

#[test]
fn ping_returns_pong() {
    assert_eq!(ping(), "pong");
    assert_eq!(ping().as_bytes(), b"pong");
}

#[test]
fn orders_create_and_get() {
    let mut repo = InMemoryOrderRepository::default();

    let created =
        create_order(&mut repo, &payload("BTC/USDT", OrderSide::Buy, "25000.5", "0.1")).unwrap();
    assert_eq!(created.pair, "BTC/USDT");
    assert_eq!(created.price, dec("25000.5"));
    assert_eq!(created.quantity, dec("0.1"));
    assert_eq!(created.status, OrderStatus::New);
    assert!(!created.id.is_empty());

    let fetched = get_order(&repo, &created.id).unwrap();
    assert_eq!(fetched.id, created.id);
    assert_eq!(fetched.pair, "BTC/USDT");
}

#[test]
fn orders_list_then_update_status_then_delete() {
    let mut repo = InMemoryOrderRepository::default();

    let created =
        create_order(&mut repo, &payload("ETH/USDT", OrderSide::Sell, "3100.0", "2.0")).unwrap();

    let list = list_orders(&repo, &everything()).unwrap();
    assert_eq!(list.len(), 1);

    let updated =
        update_status(&mut repo, &created.id, &UpdateStatusPayload { status: OrderStatus::Open })
            .unwrap();
    assert_eq!(updated.status, OrderStatus::Open);

    delete_order(&mut repo, &created.id).unwrap();

    let gone = get_order(&repo, &created.id).unwrap_err();
    assert!(matches!(gone, ApiError::NotFound));
    assert_eq!(gone.status_code(), 404);
}

#[test]
fn missing_orders_are_not_found() {
    let mut repo = InMemoryOrderRepository::default();
    assert!(matches!(get_order(&repo, "nope").unwrap_err(), ApiError::NotFound));
    assert!(matches!(
        update_status(&mut repo, "nope", &UpdateStatusPayload { status: OrderStatus::Cancelled })
            .unwrap_err(),
        ApiError::NotFound
    ));
    assert!(matches!(delete_order(&mut repo, "nope").unwrap_err(), ApiError::NotFound));
}

#[test]
fn store_failures_map_to_the_shown_error() {
    let mut repo = DownRepo;
    let e = create_order(&mut repo, &payload("BTC/USDT", OrderSide::Buy, "1", "1")).unwrap_err();
    assert!(matches!(e, ApiError::Internal));
    assert_eq!(e.status_code(), 500);
    assert!(matches!(list_orders(&repo, &everything()).unwrap_err(), ApiError::Internal));
    assert!(matches!(get_order(&repo, "a").unwrap_err(), ApiError::NotFound));
    assert!(matches!(
        update_status(&mut repo, "a", &UpdateStatusPayload { status: OrderStatus::Open })
            .unwrap_err(),
        ApiError::NotFound
    ));
    assert!(matches!(delete_order(&mut repo, "a").unwrap_err(), ApiError::NotFound));
}

#[test]
fn list_orders_passes_the_query_on() {
    let mut repo = InMemoryOrderRepository::default();
    for (pair, side) in [
        ("BTC/USDT", OrderSide::Buy),
        ("ETH/USDT", OrderSide::Buy),
        ("BTC/USDT", OrderSide::Sell),
    ] {
        create_order(&mut repo, &payload(pair, side, "10", "1")).unwrap();
    }
    let q = ListQuery {
        pair: Some("BTC/USDT".into()),
        status: Some(OrderStatus::New),
        limit: Some(1),
        offset: Some(1),
    };
    let found = list_orders(&repo, &q).unwrap();
    assert_eq!(found.len(), 1);
    assert_eq!(found[0].pair, "BTC/USDT");
    assert_eq!(found[0].side, OrderSide::Sell);
    let open = ListQuery { pair: None, status: Some(OrderStatus::Open), limit: None, offset: None };
    assert!(list_orders(&repo, &open).unwrap().is_empty());
}
