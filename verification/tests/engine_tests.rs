use std::collections::{HashMap, HashSet};

use conditional_orderbook::decimal::FixedDecimal;
use conditional_orderbook::engine::worker::query_for;
use conditional_orderbook::engine::{
    collect_active_orders, crosses, decide, log_exec, process_active_orders, start_matchers,
    ActiveOrders, Decision, TickSummary,
};
use conditional_orderbook::entities::order::{NewOrder, Order, OrderSide, OrderStatus};
use conditional_orderbook::repositories::{ListOrdersQuery, OrderRepository};
use conditional_orderbook::utils::now_ms;
use rust_decimal::Decimal;

fn dec(text: &str) -> FixedDecimal {
    let d = Decimal::from_str_exact(text).unwrap();
    FixedDecimal::new(d.mantissa(), d.scale()).unwrap()
}

#[derive(Default)]
struct FakeRepo {
    inner: HashMap<String, Order>,
    fail_list_on_status: Option<OrderStatus>,
    fail_set_for_ids: HashSet<String>,
}

impl FakeRepo {
    fn set_fail_list_on(&mut self, s: Option<OrderStatus>) {
        self.fail_list_on_status = s;
    }

    fn fail_set_for(&mut self, id: &str) {
        self.fail_set_for_ids.insert(id.to_string());
    }
}

impl OrderRepository for FakeRepo {
    fn list(&self, q: ListOrdersQuery) -> Result<Vec<Order>, String> {
        if let Some(status) = &q.status {
            if Some(*status) == self.fail_list_on_status {
                return Err(format!("boom listing {:?}", status));
            }
        }
        let mut v: Vec<Order> = self
            .inner
            .values()
            .cloned()
            .filter(|o| {
                q.pair.as_ref().map_or(true, |p| &o.pair == p)
                    && q.status.as_ref().map_or(true, |s| &o.status == s)
            })
            .collect();
        if let Some(off) = q.offset {
            if off < v.len() as i64 {
                v.drain(0..off as usize);
            } else {
                v.clear();
            }
        }
        if let Some(lim) = q.limit {
            if v.len() > lim as usize {
                v.truncate(lim as usize);
            }
        }
        Ok(v)
    }

    fn set_status(&mut self, id: &str, to: OrderStatus) -> Result<Order, String> {
        if self.fail_set_for_ids.contains(id) {
            return Err("boom set_status".into());
        }
        let o = self.inner.get_mut(id).ok_or_else(|| "not found".to_string())?;
        o.status = to;
        o.updated = now_ms();
        Ok(o.clone())
    }

    fn create(&mut self, n: NewOrder) -> Result<Order, String> {
        let o = Order::new(n.pair, n.side, n.price, n.quantity);
        self.inner.insert(o.id.clone(), o.clone());
        Ok(o)
    }

    fn get_by_id(&self, id: &str) -> Result<Order, String> {
        self.inner.get(id).cloned().ok_or_else(|| "not found".to_string())
    }

    fn delete(&mut self, id: &str) -> Result<(), String> {
        match self.inner.remove(id) {
            Some(_) => Ok(()),
            None => Err("not found".to_string()),
        }
    }
}

fn mk_order(
    id: &str,
    pair: &str,
    side: OrderSide,
    price: &str,
    qty: &str,
    status: OrderStatus,
) -> Order {
    Order {
        id: id.to_string(),
        pair: pair.to_string(),
        side,
        price: dec(price),
        quantity: dec(qty),
        status,
        created: now_ms(),
        updated: now_ms(),
    }
}

fn seed(repo: &mut FakeRepo, orders: Vec<Order>) {
    for o in orders {
        repo.inner.insert(o.id.clone(), o);
    }
}

#[test]
fn crosses_buy_triggers_when_oracle_at_or_below_limit() {
    let o = mk_order("1", "BTC/USDT", OrderSide::Buy, "100.0", "1", OrderStatus::New);
    assert!(crosses(&o, dec("100.0")));
    assert!(crosses(&o, dec("99.99")));
    assert!(!crosses(&o, dec("100.01")));
}

#[test]
fn crosses_sell_triggers_when_oracle_at_or_above_limit() {
    let o = mk_order("1", "BTC/USDT", OrderSide::Sell, "100.0", "1", OrderStatus::New);
    assert!(crosses(&o, dec("100.0")));
    assert!(crosses(&o, dec("100.01")));
    assert!(!crosses(&o, dec("99.99")));
}

#[test]
fn collect_active_gathers_new_open_partial_for_asset() {
    let mut repo = FakeRepo::default();
    seed(
        &mut repo,
        vec![
            mk_order("n1", "BTC/USDT", OrderSide::Buy, "100", "1", OrderStatus::New),
            mk_order("o1", "BTC/USDT", OrderSide::Buy, "100", "1", OrderStatus::Open),
            mk_order("p1", "BTC/USDT", OrderSide::Buy, "100", "1", OrderStatus::PartiallyFilled),
            mk_order("x1", "BTC/USDT", OrderSide::Buy, "100", "1", OrderStatus::Filled),
            mk_order("e1", "ETH/USDT", OrderSide::Buy, "100", "1", OrderStatus::New),
        ],
    );
    let v = collect_active_orders("BTC/USDT", &repo);
    assert!(v.failures.is_empty());
    let ids: HashSet<_> = v.orders.into_iter().map(|o| o.id).collect();
    assert_eq!(
        ids,
        HashSet::from(["n1".to_string(), "o1".to_string(), "p1".to_string(),])
    );
}

#[test]
fn collect_active_skips_on_list_error_but_keeps_others() {
    let mut repo = FakeRepo::default();
    seed(
        &mut repo,
        vec![
            mk_order("n1", "BTC/USDT", OrderSide::Buy, "100", "1", OrderStatus::New),
            mk_order("o1", "BTC/USDT", OrderSide::Buy, "100", "1", OrderStatus::Open),
            mk_order("p1", "BTC/USDT", OrderSide::Buy, "100", "1", OrderStatus::PartiallyFilled),
        ],
    );
    repo.set_fail_list_on(Some(OrderStatus::Open));
    let v = collect_active_orders("BTC/USDT", &repo);
    assert_eq!(v.failures.len(), 1);
    assert_eq!(v.failures[0].status, OrderStatus::Open);
    assert_eq!(v.failures[0].error, "boom listing Open");
    let ids: HashSet<_> = v.orders.into_iter().map(|o| o.id).collect();
    assert_eq!(ids, HashSet::from(["n1".to_string(), "p1".to_string()]));
}

#[test]
fn promotes_new_to_open_when_not_crossing() {
    let mut repo = FakeRepo::default();
    seed(
        &mut repo,
        vec![mk_order("o1", "BTC/USDT", OrderSide::Buy, "100.0", "1", OrderStatus::New)],
    );
    let orders = vec![repo.get_by_id("o1").unwrap()];
    let summary = process_active_orders(&mut repo, orders, dec("101.0"), 1_700_000_000_000);
    assert_eq!(summary.matched, 0);
    assert_eq!(summary.promoted, 1);
    assert_eq!(repo.get_by_id("o1").unwrap().status, OrderStatus::Open);
}

#[test]
fn executes_when_crossing_buy_for_all_statuses() {
    let mut repo = FakeRepo::default();
    seed(
        &mut repo,
        vec![
            mk_order("n", "BTC/USDT", OrderSide::Buy, "100", "1", OrderStatus::New),
            mk_order("o", "BTC/USDT", OrderSide::Buy, "100", "1", OrderStatus::Open),
            mk_order("p", "BTC/USDT", OrderSide::Buy, "100", "1", OrderStatus::PartiallyFilled),
        ],
    );
    let orders = vec![
        repo.get_by_id("n").unwrap(),
        repo.get_by_id("o").unwrap(),
        repo.get_by_id("p").unwrap(),
    ];
    let summary = process_active_orders(&mut repo, orders, dec("100.0"), 1_700_000_000_000);
    assert_eq!(summary.matched, 3);
    assert_eq!(summary.promoted, 0);
    for id in ["n", "o", "p"] {
        assert_eq!(repo.get_by_id(id).unwrap().status, OrderStatus::Filled);
    }
}

#[test]
fn leaves_open_unchanged_when_not_crossing() {
    let mut repo = FakeRepo::default();
    seed(
        &mut repo,
        vec![mk_order("o1", "BTC/USDT", OrderSide::Buy, "100", "1", OrderStatus::Open)],
    );
    let orders = vec![repo.get_by_id("o1").unwrap()];
    let summary = process_active_orders(&mut repo, orders, dec("101.0"), 1_700_000_000_000);
    assert_eq!(summary.matched, 0);
    assert_eq!(summary.promoted, 0);
    assert_eq!(repo.get_by_id("o1").unwrap().status, OrderStatus::Open);
}

#[test]
fn respects_sell_crossing_direction() {
    let mut repo = FakeRepo::default();
    seed(
        &mut repo,
        vec![
            mk_order("s1", "BTC/USDT", OrderSide::Sell, "100", "1", OrderStatus::New),
            mk_order("s2", "BTC/USDT", OrderSide::Sell, "100", "1", OrderStatus::Open),
        ],
    );
    let orders = vec![repo.get_by_id("s1").unwrap(), repo.get_by_id("s2").unwrap()];
    let summary = process_active_orders(&mut repo, orders, dec("100.5"), 1_700_000_000_000);
    assert_eq!(summary.matched, 2);
    assert_eq!(summary.promoted, 0);
    for id in ["s1", "s2"] {
        assert_eq!(repo.get_by_id(id).unwrap().status, OrderStatus::Filled);
    }
}

#[test]
fn set_status_error_does_not_increment_counters() {
    let mut repo = FakeRepo::default();
    seed(
        &mut repo,
        vec![
            mk_order("ok", "BTC/USDT", OrderSide::Buy, "100", "1", OrderStatus::Open),
            mk_order("bad", "BTC/USDT", OrderSide::Buy, "100", "1", OrderStatus::Open),
        ],
    );
    repo.fail_set_for("bad");
    let orders = vec![repo.get_by_id("ok").unwrap(), repo.get_by_id("bad").unwrap()];
    let summary = process_active_orders(&mut repo, orders, dec("100.0"), 1_700_000_000_000);
    assert_eq!(summary.matched, 1);
    assert_eq!(summary.promoted, 0);
    assert_eq!(repo.get_by_id("ok").unwrap().status, OrderStatus::Filled);
    assert_eq!(repo.get_by_id("bad").unwrap().status, OrderStatus::Open);
}

#[test]
fn promotion_error_does_not_increment_promoted() {
    let mut repo = FakeRepo::default();
    seed(
        &mut repo,
        vec![mk_order("n", "BTC/USDT", OrderSide::Buy, "100", "1", OrderStatus::New)],
    );
    repo.fail_set_for("n");
    let orders = vec![repo.get_by_id("n").unwrap()];
    let summary = process_active_orders(&mut repo, orders, dec("101.0"), 1_700_000_000_000);
    assert_eq!(summary.matched, 0);
    assert_eq!(summary.promoted, 0);
    assert_eq!(repo.get_by_id("n").unwrap().status, OrderStatus::New);
}

#[test]
fn failures_are_reported_with_id_status_and_error() {
    let mut repo = FakeRepo::default();
    seed(
        &mut repo,
        vec![
            mk_order("bad", "BTC/USDT", OrderSide::Buy, "100", "1", OrderStatus::Open),
            mk_order("n", "BTC/USDT", OrderSide::Buy, "90", "1", OrderStatus::New),
        ],
    );
    repo.fail_set_for("bad");
    repo.fail_set_for("n");
    let orders = vec![repo.get_by_id("bad").unwrap(), repo.get_by_id("n").unwrap()];
    let summary = process_active_orders(&mut repo, orders, dec("100"), 5);
    assert_eq!(summary.matched, 0);
    assert_eq!(summary.promoted, 0);
    assert!(summary.executions.is_empty());
    assert_eq!(summary.failures.len(), 2);
    assert_eq!(summary.failures[0].order_id, "bad");
    assert_eq!(summary.failures[0].status, OrderStatus::Filled);
    assert_eq!(summary.failures[0].error, "boom set_status");
    assert_eq!(summary.failures[1].order_id, "n");
    assert_eq!(summary.failures[1].status, OrderStatus::Open);
}

#[test]
fn executions_record_the_decision_price() {
    let mut repo = FakeRepo::default();
    seed(
        &mut repo,
        vec![mk_order("s", "ETH/USDT", OrderSide::Sell, "3100.5", "2", OrderStatus::Open)],
    );
    let orders = vec![repo.get_by_id("s").unwrap()];
    let summary = process_active_orders(&mut repo, orders, dec("3200"), 1_700_000_000_123);
    assert_eq!(summary.matched, 1);
    assert_eq!(summary.executions.len(), 1);
    let e = &summary.executions[0];
    assert_eq!(e.pair, "ETH/USDT");
    assert_eq!(e.side, OrderSide::Sell);
    assert_eq!(e.order_id, "s");
    assert_eq!(e.quantity, dec("2"));
    assert_eq!(e.limit_px, dec("3100.5"));
    assert_eq!(e.exec_px, dec("3200"));
    assert_eq!(e.oracle_ts, 1_700_000_000_123);
}

#[test]
fn log_exec_copies_the_order_and_the_price() {
    let o = mk_order("id-7", "SOL/USDT", OrderSide::Buy, "200.25", "0.5", OrderStatus::Filled);
    let e = log_exec(&o, dec("199.75"), 42);
    assert_eq!(e.pair, "SOL/USDT");
    assert_eq!(e.side, OrderSide::Buy);
    assert_eq!(e.order_id, "id-7");
    assert_eq!(e.quantity, dec("0.5"));
    assert_eq!(e.limit_px, dec("200.25"));
    assert_eq!(e.exec_px, dec("199.75"));
    assert_eq!(e.oracle_ts, 42);
}

#[test]
fn decide_follows_the_state_machine() {
    let px = dec("100");
    let crossing_new = mk_order("a", "X/Y", OrderSide::Buy, "100", "1", OrderStatus::New);
    let resting_new = mk_order("b", "X/Y", OrderSide::Buy, "99", "1", OrderStatus::New);
    let resting_open = mk_order("c", "X/Y", OrderSide::Buy, "99", "1", OrderStatus::Open);
    let resting_partial =
        mk_order("d", "X/Y", OrderSide::Sell, "101", "1", OrderStatus::PartiallyFilled);
    let crossing_partial =
        mk_order("e", "X/Y", OrderSide::Sell, "100", "1", OrderStatus::PartiallyFilled);
    assert_eq!(decide(&crossing_new, px), Decision::Fill);
    assert_eq!(decide(&resting_new, px), Decision::Promote);
    assert_eq!(decide(&resting_open, px), Decision::Leave);
    assert_eq!(decide(&resting_partial, px), Decision::Leave);
    assert_eq!(decide(&crossing_partial, px), Decision::Fill);
    assert_eq!(Decision::Fill.status(), Some(OrderStatus::Filled));
    assert_eq!(Decision::Promote.status(), Some(OrderStatus::Open));
    assert_eq!(Decision::Leave.status(), None);
}

#[test]
fn crossing_is_exact_across_scales() {
    let o = mk_order("1", "BTC/USDT", OrderSide::Buy, "100.10", "1", OrderStatus::New);
    assert!(crosses(&o, dec("100.1")));
    assert!(crosses(&o, dec("100.0999999999999999999999999")));
    assert!(!crosses(&o, dec("100.1000000000000000000000001")));
    let s = mk_order("2", "BTC/USDT", OrderSide::Sell, "100.10", "1", OrderStatus::New);
    assert!(crosses(&s, dec("100.1")));
    assert!(!crosses(&s, dec("100.0999999999999999999999999")));
    assert!(crosses(&s, dec("100.1000000000000000000000001")));
}

#[test]
fn start_matchers_makes_one_worker_per_asset() {
    let workers = start_matchers(vec![
        "BTC/USDT".to_string(),
        "ETH/USDT".to_string(),
        "SOL/USDT".to_string(),
    ]);
    assert_eq!(workers.len(), 3);
    assert_eq!(workers[0].asset(), "BTC/USDT");
    assert_eq!(workers[1].asset(), "ETH/USDT");
    assert_eq!(workers[2].asset(), "SOL/USDT");
    for w in &workers {
        assert_eq!(w.ticks(), 0);
    }
    assert!(start_matchers(vec![]).is_empty());
}

#[test]
fn settle_counts_what_the_store_carried_out() {
    let order = mk_order("a", "BTC/USDT", OrderSide::Buy, "100", "2", OrderStatus::New);
    let mut filled = order.clone();
    filled.status = OrderStatus::Filled;
    let mut summary = TickSummary::new();
    assert_eq!((summary.matched, summary.promoted), (0, 0));

    summary.settle(&order, Decision::Fill, Ok(filled.clone()), dec("99"), 11);
    assert_eq!((summary.matched, summary.promoted), (1, 0));
    assert_eq!(summary.executions.len(), 1);
    assert_eq!(summary.executions[0].order_id, "a");
    assert_eq!(summary.executions[0].exec_px, dec("99"));
    assert_eq!(summary.executions[0].oracle_ts, 11);

    summary.settle(&order, Decision::Promote, Ok(order.clone()), dec("101"), 12);
    assert_eq!((summary.matched, summary.promoted), (1, 1));
    assert_eq!(summary.executions.len(), 1);

    summary.settle(&order, Decision::Fill, Err("boom".into()), dec("99"), 13);
    summary.settle(&order, Decision::Promote, Err("bang".into()), dec("101"), 14);
    assert_eq!((summary.matched, summary.promoted), (1, 1));
    assert_eq!(summary.failures.len(), 2);
    assert_eq!(summary.failures[0].status, OrderStatus::Filled);
    assert_eq!(summary.failures[0].error, "boom");
    assert_eq!(summary.failures[1].status, OrderStatus::Open);
    assert_eq!(summary.failures[1].error, "bang");

    summary.settle(&order, Decision::Leave, Ok(filled), dec("101"), 15);
    summary.settle(&order, Decision::Leave, Err("late".into()), dec("101"), 16);
    assert_eq!((summary.matched, summary.promoted), (1, 1));
    assert_eq!(summary.executions.len(), 1);
    assert_eq!(summary.failures.len(), 2);
}

#[test]
fn absorb_appends_answers_and_notes_failures() {
    let mut active = ActiveOrders::new();
    assert!(active.orders.is_empty() && active.failures.is_empty());
    active.absorb(
        OrderStatus::New,
        Ok(vec![
            mk_order("1", "X/Y", OrderSide::Buy, "1", "1", OrderStatus::New),
            mk_order("2", "X/Y", OrderSide::Buy, "1", "1", OrderStatus::New),
        ]),
    );
    active.absorb(OrderStatus::Open, Err("down".into()));
    active.absorb(
        OrderStatus::PartiallyFilled,
        Ok(vec![mk_order("3", "X/Y", OrderSide::Buy, "1", "1", OrderStatus::PartiallyFilled)]),
    );
    let ids: Vec<&str> = active.orders.iter().map(|o| o.id.as_str()).collect();
    assert_eq!(ids, vec!["1", "2", "3"]);
    assert_eq!(active.failures.len(), 1);
    assert_eq!(active.failures[0].status, OrderStatus::Open);
    assert_eq!(active.failures[0].error, "down");
}

#[test]
fn query_for_filters_by_pair_and_status_only() {
    let q = query_for("BTC/USDT", OrderStatus::PartiallyFilled);
    assert_eq!(q.pair, Some("BTC/USDT".to_string()));
    assert_eq!(q.status, Some(OrderStatus::PartiallyFilled));
    assert_eq!(q.limit, None);
    assert_eq!(q.offset, None);
}
