//! Limit orders and their state machine.
//!
//! An order starts as `New`. The matcher moves it to `Open` when it has seen
//! it and the limit does not cross, and to `Filled` when the limit crosses.
//! A user may cancel any order that is not yet `Filled` or `Cancelled`; those
//! two states are final.

use crate::decimal::{DecimalView, FixedDecimal};
use crate::utils::now_ms;
use vstd::prelude::*;

verus! {

/// The side of the market an order stands on.
#[derive(Debug, Clone, Copy, PartialEq, Eq, Hash, Structural)]
pub enum OrderSide {
    Buy,
    Sell,
}

/// Where an order stands in its life.
#[derive(Debug, Clone, Copy, PartialEq, Eq, Hash, Structural)]
pub enum OrderStatus {
    New,
    Open,
    PartiallyFilled,
    Filled,
    Cancelled,
}

impl OrderStatus {
    /// `Filled` and `Cancelled`: no transition leaves them.
    pub open spec fn terminal(self) -> bool {
        self == OrderStatus::Filled || self == OrderStatus::Cancelled
    }

    /// `New`, `Open` and `PartiallyFilled`: the matcher looks at these.
    pub open spec fn active(self) -> bool {
        !self.terminal()
    }

    /// The moves that the matcher makes: a new order is opened or filled,
    /// an open or partially filled order is filled.
    pub open spec fn matcher_moves_to(self, to: OrderStatus) -> bool {
        ||| self == OrderStatus::New && to == OrderStatus::Open
        ||| self == OrderStatus::New && to == OrderStatus::Filled
        ||| self == OrderStatus::Open && to == OrderStatus::Filled
        ||| self == OrderStatus::PartiallyFilled && to == OrderStatus::Filled
    }

    /// Whether the status is `Filled` or `Cancelled`.
    pub fn is_terminal(&self) -> (r: bool)
        ensures
            r == self.terminal(),
    {
        match self {
            OrderStatus::Filled | OrderStatus::Cancelled => true,
            _ => false,
        }
    }

    /// Whether the status is `New`, `Open` or `PartiallyFilled`.
    pub fn is_active(&self) -> (r: bool)
        ensures
            r == self.active(),
    {
        !self.is_terminal()
    }
}

/// What an order is, with its strings as sequences of characters and its
/// decimals as numbers.
pub struct OrderView {
    pub id: Seq<char>,
    pub pair: Seq<char>,
    pub side: OrderSide,
    pub price: DecimalView,
    pub quantity: DecimalView,
    pub status: OrderStatus,
    pub created: i64,
    pub updated: i64,
}

impl OrderView {
    /// The order as it is created: `New`, and last updated when created.
    pub open spec fn fresh(
        id: Seq<char>,
        pair: Seq<char>,
        side: OrderSide,
        price: DecimalView,
        quantity: DecimalView,
        now: i64,
    ) -> OrderView {
        OrderView {
            id,
            pair,
            side,
            price,
            quantity,
            status: OrderStatus::New,
            created: now,
            updated: now,
        }
    }

    /// This order after a status change at time `now`: only `status` and
    /// `updated` differ.
    pub open spec fn with_status(self, status: OrderStatus, now: i64) -> OrderView {
        OrderView { status, updated: now, ..self }
    }

    /// Whether `other` is this order at another moment of its life: all that
    /// never changes (id, pair, side, price, quantity, created) agrees.
    pub open spec fn same_identity(self, other: OrderView) -> bool {
        &&& self.id == other.id
        &&& self.pair == other.pair
        &&& self.side == other.side
        &&& self.price == other.price
        &&& self.quantity == other.quantity
        &&& self.created == other.created
    }
}

/// A limit order.
#[derive(Debug)]
pub struct Order {
    pub id: String,
    pub pair: String,
    pub side: OrderSide,
    pub price: FixedDecimal,
    pub quantity: FixedDecimal,
    pub status: OrderStatus,
    pub created: i64,
    pub updated: i64,
}

impl View for Order {
    type V = OrderView;

    open spec fn view(&self) -> OrderView {
        OrderView {
            id: self.id@,
            pair: self.pair@,
            side: self.side,
            price: self.price@,
            quantity: self.quantity@,
            status: self.status,
            created: self.created,
            updated: self.updated,
        }
    }
}

impl Clone for Order {
    fn clone(&self) -> (r: Order)
        ensures
            r == *self,
    {
        Order {
            id: self.id.clone(),
            pair: self.pair.clone(),
            side: self.side,
            price: self.price,
            quantity: self.quantity,
            status: self.status,
            created: self.created,
            updated: self.updated,
        }
    }
}

/// What a caller supplies to have an order created.
#[derive(Debug)]
pub struct NewOrder {
    pub pair: String,
    pub side: OrderSide,
    pub price: FixedDecimal,
    pub quantity: FixedDecimal,
}

/// A `NewOrder` with its strings as sequences and its decimals as numbers.
pub struct NewOrderView {
    pub pair: Seq<char>,
    pub side: OrderSide,
    pub price: DecimalView,
    pub quantity: DecimalView,
}

impl View for NewOrder {
    type V = NewOrderView;

    open spec fn view(&self) -> NewOrderView {
        NewOrderView {
            pair: self.pair@,
            side: self.side,
            price: self.price@,
            quantity: self.quantity@,
        }
    }
}

impl Clone for NewOrder {
    fn clone(&self) -> (r: NewOrder)
        ensures
            r == *self,
    {
        NewOrder {
            pair: self.pair.clone(),
            side: self.side,
            price: self.price,
            quantity: self.quantity,
        }
    }
}

/// `uuid::Uuid::new_v4` and the `to_string` of its result: a random version-4
/// identifier in its hyphenated form, which is always 36 characters long.
/// Two calls may return anything, so nothing else is claimed. The call
/// panics where the operating system hands out no random bytes.
#[verifier::external_body]
fn fresh_id() -> (id: String)
    ensures
        id@.len() == 36,
{
    uuid::Uuid::new_v4().to_string()
}

impl Order {
    /// The order that `id` names from the moment `now` on: `New`, created
    /// and last updated at `now`.
    pub fn with_identity(
        id: String,
        pair: String,
        side: OrderSide,
        price: FixedDecimal,
        quantity: FixedDecimal,
        now: i64,
    ) -> (o: Order)
        ensures
            o@ == OrderView::fresh(id@, pair@, side, price@, quantity@, now),
    {
        Order { id, pair, side, price, quantity, status: OrderStatus::New, created: now, updated: now }
    }

    /// A new order under a random identifier, stamped with the system clock.
    pub fn new(pair: String, side: OrderSide, price: FixedDecimal, quantity: FixedDecimal) -> (o:
        Order)
        ensures
            o@ == OrderView::fresh(o@.id, pair@, side, price@, quantity@, o@.created),
            o@.id.len() == 36,
    {
        let now = now_ms();
        Order::with_identity(fresh_id(), pair, side, price, quantity, now)
    }
}

} // verus!
