//! The order repository: what the matcher and the request handlers ask of
//! any store of orders.
//!
//! A store is described by the orders it holds, in the order in which it
//! lists them. Every operation says how that sequence changes. An operation
//! may fail for reasons of the store's own; it then changes nothing.

pub mod in_memory;

use crate::entities::order::{NewOrder, Order, OrderStatus, OrderView};
use vstd::prelude::*;

verus! {

/// A filter over the orders of a store, and the part of the result wanted.
#[derive(Debug)]
pub struct ListOrdersQuery {
    /// Only orders of this pair.
    pub pair: Option<String>,
    /// Only orders in this status.
    pub status: Option<OrderStatus>,
    /// At most this many orders; no limit where absent, zero or negative.
    pub limit: Option<i64>,
    /// Skip this many orders first; none where absent or negative.
    pub offset: Option<i64>,
}

/// A query with its symbol as a sequence of characters.
pub struct QueryView {
    pub pair: Option<Seq<char>>,
    pub status: Option<OrderStatus>,
    pub limit: Option<i64>,
    pub offset: Option<i64>,
}

impl View for ListOrdersQuery {
    type V = QueryView;

    open spec fn view(&self) -> QueryView {
        QueryView {
            pair: match self.pair {
                Some(pair) => Some(pair@),
                None => None,
            },
            status: self.status,
            limit: self.limit,
            offset: self.offset,
        }
    }
}

impl Default for ListOrdersQuery {
    /// The query that asks for every order.
    fn default() -> (q: ListOrdersQuery)
        ensures
            q@ == (QueryView { pair: None, status: None, limit: None, offset: None }),
    {
        ListOrdersQuery { pair: None, status: None, limit: None, offset: None }
    }
}

impl Clone for ListOrdersQuery {
    fn clone(&self) -> (q: ListOrdersQuery)
        ensures
            q@ == self@,
    {
        ListOrdersQuery {
            pair: match &self.pair {
                Some(pair) => Some(pair.clone()),
                None => None,
            },
            status: self.status,
            limit: self.limit,
            offset: self.offset,
        }
    }
}

impl QueryView {
    /// Whether the filters let `order` through. Both must agree.
    pub open spec fn admits(self, order: OrderView) -> bool {
        &&& self.pair matches Some(pair) ==> order.pair == pair
        &&& self.status matches Some(status) ==> order.status == status
    }

    /// How many orders to skip: the offset, or 0 where it is absent or
    /// negative.
    pub open spec fn skip(self) -> int {
        match self.offset {
            Some(offset) => if offset > 0 {
                offset as int
            } else {
                0
            },
            None => 0,
        }
    }

    /// Where the result ends among `hits` orders that passed the filters:
    /// `limit` orders after the skipped ones, or at the last order where
    /// there is no limit or fewer orders are left.
    pub open spec fn end(self, hits: int) -> int {
        match self.limit {
            Some(limit) => if limit > 0 && self.skip() + limit < hits {
                self.skip() + limit
            } else {
                hits
            },
            None => hits,
        }
    }
}

impl ListOrdersQuery {
    /// Whether the filters let `order` through.
    pub fn admits(&self, order: &Order) -> (r: bool)
        ensures
            r == self@.admits(order@),
    {
        let pair_agrees = match &self.pair {
            Some(pair) => order.pair == *pair,
            None => true,
        };
        let status_agrees = match self.status {
            Some(status) => order.status == status,
            None => true,
        };
        pair_agrees && status_agrees
    }

    /// The part of `hits` orders that the offset and the limit leave: the
    /// indices from the first of the pair up to, not including, the second.
    pub fn window(&self, hits: usize) -> (r: (usize, usize))
        ensures
            r.0 <= r.1 <= hits,
            self@.skip() >= hits ==> r.0 == r.1,
            self@.skip() < hits ==> r.0 == self@.skip() && r.1 == self@.end(hits as int),
    {
        let start: usize = match self.offset {
            Some(offset) => if offset <= 0 {
                0
            } else if offset as u64 >= hits as u64 {
                hits
            } else {
                offset as usize
            },
            None => 0,
        };
        let end: usize = match self.limit {
            Some(limit) => if limit > 0 && (limit as u64) < (hits - start) as u64 {
                start + limit as usize
            } else {
                hits
            },
            None => hits,
        };
        (start, end)
    }
}

/// The views of a sequence of orders.
pub open spec fn views(orders: Seq<Order>) -> Seq<OrderView> {
    orders.map_values(|order: Order| order@)
}

/// The answer to a query: the orders that pass the filters, in the order of
/// the store, without the first `skip` of them and cut off at the limit.
/// Nothing where as many or more are skipped than passed.
pub open spec fn listing(orders: Seq<OrderView>, query: QueryView) -> Seq<OrderView> {
    let hits = orders.filter(|order: OrderView| query.admits(order));
    if query.skip() >= hits.len() {
        Seq::empty()
    } else {
        hits.subrange(query.skip(), query.end(hits.len() as int))
    }
}

/// Whether the order at index `i` has the identifier `id`.
pub open spec fn stored_at(orders: Seq<OrderView>, id: Seq<char>, i: int) -> bool {
    0 <= i < orders.len() && orders[i].id == id
}

/// Whether some order has the identifier `id`.
pub open spec fn contains_id(orders: Seq<OrderView>, id: Seq<char>) -> bool {
    exists|i: int| stored_at(orders, id, i)
}

/// No two orders share an identifier.
pub open spec fn unique_ids(orders: Seq<OrderView>) -> bool {
    forall|i: int, j: int|
        0 <= i < j < orders.len() ==> (#[trigger] orders[i]).id != (#[trigger] orders[j]).id
}

/// `after` is `before` with `order` stored under its identifier: in the
/// place of the order that had it, or at the end if none had.
pub open spec fn put(before: Seq<OrderView>, after: Seq<OrderView>, order: OrderView) -> bool {
    ||| exists|i: int| stored_at(before, order.id, i) && after == before.update(i, order)
    ||| !contains_id(before, order.id) && after == before.push(order)
}

/// `after` is `before` with the status of the order `id` set to `status`:
/// `result` is that order with its new status and a new `updated`, and
/// stands in its place.
pub open spec fn status_set(
    before: Seq<OrderView>,
    after: Seq<OrderView>,
    id: Seq<char>,
    status: OrderStatus,
    result: OrderView,
) -> bool {
    exists|i: int|
        stored_at(before, id, i) && result == before[i].with_status(status, result.updated)
            && after == before.update(i, result)
}

/// Time moves forward with a status change: where the store's clock has not
/// been set back behind the last update of an order, and the order was
/// last updated no earlier than it was created, the order is afterwards
/// updated no earlier than before and no earlier than it was created, and
/// its creation time is what it was.
pub proof fn lemma_status_change_keeps_time_order(
    before: Seq<OrderView>,
    after: Seq<OrderView>,
    id: Seq<char>,
    status: OrderStatus,
    result: OrderView,
    i: int,
)
    requires
        unique_ids(before),
        status_set(before, after, id, status, result),
        stored_at(before, id, i),
        before[i].created <= before[i].updated,
        before[i].updated <= result.updated,
    ensures
        after[i] == result,
        result.created == before[i].created,
        result.created <= result.updated,
        before[i].updated <= result.updated,
{
    let j = choose|j: int|
        stored_at(before, id, j) && result == before[j].with_status(status, result.updated)
            && after == before.update(j, result);
    assert(before[j].id == before[i].id);
    assert(j == i);
}

/// Every order has a price and a quantity above zero.
pub open spec fn positive_amounts(orders: Seq<OrderView>) -> bool {
    forall|i: int|
        0 <= i < orders.len() ==> (#[trigger] orders[i]).price.positive()
            && orders[i].quantity.positive()
}

/// A store whose orders all have a price and a quantity above zero stays
/// such a store: a status change touches neither, a removal leaves the
/// other orders as they are, and so does storing an order that itself has
/// both above zero.
pub proof fn lemma_amounts_stay_positive(
    before: Seq<OrderView>,
    after: Seq<OrderView>,
    id: Seq<char>,
    status: OrderStatus,
    order: OrderView,
)
    requires
        positive_amounts(before),
        status_set(before, after, id, status, order) || removed(before, after, id) || (put(
            before,
            after,
            order,
        ) && order.price.positive() && order.quantity.positive()),
    ensures
        positive_amounts(after),
{
    assert forall|i: int| 0 <= i < after.len() implies (#[trigger] after[i]).price.positive()
        && after[i].quantity.positive() by {
        if status_set(before, after, id, status, order) {
            assert(before[i].price.positive());
        } else if removed(before, after, id) {
            let at = choose|at: int| stored_at(before, id, at) && after == before.remove(at);
            before.remove_ensures(at);
            if i < at {
                assert(before[i].price.positive());
            } else {
                assert(before[i + 1].price.positive());
            }
        } else {
            if i < before.len() {
                assert(before[i].price.positive());
            }
        }
    }
}

/// `after` is `before` without the order `id`.
pub open spec fn removed(before: Seq<OrderView>, after: Seq<OrderView>, id: Seq<char>) -> bool {
    exists|i: int| stored_at(before, id, i) && after == before.remove(i)
}

/// A store of orders.
///
/// `orders` is what the store holds. The contracts say what each operation
/// returns and how it changes `orders` when it succeeds, and that it changes
/// nothing when it fails. Looking for an identifier that no order has is an
/// error with every store. A store may have errors of its own besides; one
/// that has none says so with `dependable`, and its operations then succeed
/// wherever the identifier they are given names an order.
pub trait OrderRepository {
    /// The orders of the store, in the order in which `list` walks them.
    /// A store that is written without proofs need not say what it holds;
    /// nothing is then known of it.
    open spec fn orders(&self) -> Seq<OrderView> {
        arbitrary()
    }

    /// Whether the store never fails for reasons of its own. A store keeps
    /// this for life.
    open spec fn dependable(&self) -> bool {
        false
    }

    /// Stores a new order: `New`, created and last updated at the same
    /// moment, under an identifier of the store's choice.
    fn create(&mut self, new: NewOrder) -> (r: Result<Order, String>)
        requires
            unique_ids(old(self).orders()),
        ensures
            unique_ids(final(self).orders()),
            final(self).dependable() == old(self).dependable(),
            old(self).dependable() ==> r is Ok,
            match r {
                Ok(order) => order@ == OrderView::fresh(
                    order@.id,
                    new@.pair,
                    new@.side,
                    new@.price,
                    new@.quantity,
                    order@.created,
                ) && put(old(self).orders(), final(self).orders(), order@),
                Err(_) => final(self).orders() == old(self).orders(),
            },
    ;

    /// The order `id`.
    fn get_by_id(&self, id: &str) -> (r: Result<Order, String>)
        ensures
            self.dependable() && contains_id(self.orders(), id@) ==> r is Ok,
            match r {
                Ok(order) => exists|i: int|
                    stored_at(self.orders(), id@, i) && self.orders()[i] == order@,
                Err(_) => true,
            },
    ;

    /// The answer to `q`: see `listing`.
    fn list(&self, q: ListOrdersQuery) -> (r: Result<Vec<Order>, String>)
        ensures
            self.dependable() ==> r is Ok,
            match r {
                Ok(found) => views(found@) == listing(self.orders(), q@),
                Err(_) => true,
            },
    ;

    /// Sets the status of the order `id` and refreshes its `updated`.
    fn set_status(&mut self, id: &str, status: OrderStatus) -> (r: Result<Order, String>)
        requires
            unique_ids(old(self).orders()),
        ensures
            unique_ids(final(self).orders()),
            final(self).dependable() == old(self).dependable(),
            old(self).dependable() && contains_id(old(self).orders(), id@) ==> r is Ok,
            match r {
                Ok(order) => status_set(
                    old(self).orders(),
                    final(self).orders(),
                    id@,
                    status,
                    order@,
                ),
                Err(_) => final(self).orders() == old(self).orders(),
            },
    ;

    /// Removes the order `id`.
    fn delete(&mut self, id: &str) -> (r: Result<(), String>)
        requires
            unique_ids(old(self).orders()),
        ensures
            unique_ids(final(self).orders()),
            final(self).dependable() == old(self).dependable(),
            old(self).dependable() && contains_id(old(self).orders(), id@) ==> r is Ok,
            match r {
                Ok(_) => removed(old(self).orders(), final(self).orders(), id@),
                Err(_) => final(self).orders() == old(self).orders(),
            },
    ;
}

} // verus!
