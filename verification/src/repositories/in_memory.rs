//! A store of orders in memory. It keeps the orders in the order in which
//! their identifiers were first stored, and fails only where an identifier
//! names no order.

use crate::entities::order::{NewOrder, Order, OrderStatus, OrderView};
use crate::errors::RepoErr;
use crate::repositories::{
    contains_id, listing, put, removed, status_set, stored_at, unique_ids, views,
    ListOrdersQuery, OrderRepository,
};
use crate::utils::{now_ms, str_eq};
use vstd::prelude::*;

verus! {

/// The index of the order `id` among `items`, or their number if there is
/// none.
fn position(items: &Vec<Order>, id: &str) -> (i: usize)
    ensures
        i <= items.len(),
        i < items.len() ==> stored_at(views(items@), id@, i as int),
        i == items.len() ==> !contains_id(views(items@), id@),
{
    let mut i: usize = 0;
    while i < items.len()
        invariant
            i <= items.len(),
            forall|j: int| 0 <= j < i ==> !stored_at(views(items@), id@, j),
        decreases items.len() - i,
    {
        if str_eq(items[i].id.as_str(), id) {
            return i;
        }
        i += 1;
    }
    i
}

/// Puts `order` in the place of the order with its identifier, or behind
/// all others if there is none.
fn store(items: &mut Vec<Order>, order: Order)
    requires
        unique_ids(views(old(items)@)),
    ensures
        unique_ids(views(final(items)@)),
        put(views(old(items)@), views(final(items)@), order@),
{
    let ghost before = views(items@);
    let i = position(items, order.id.as_str());
    if i < items.len() {
        items.set(i, order);
        assert(views(items@) =~= before.update(i as int, order@));
        assert(stored_at(before, order@.id, i as int));
    } else {
        items.push(order);
        assert(views(items@) =~= before.push(order@));
    }
    assert(unique_ids(views(items@))) by {
        let after = views(items@);
        assert forall|a: int, b: int| 0 <= a < b < after.len() implies (#[trigger] after[a]).id
            != (#[trigger] after[b]).id by {
            if i < before.len() {
                assert(before[a].id != before[b].id);
            } else if b < before.len() {
                assert(before[a].id != before[b].id);
            } else {
                assert(!stored_at(before, order@.id, a));
            }
        }
    }
}

/// Gives the order `id` the status `status` and the update time `now`.
fn restamp(items: &mut Vec<Order>, id: &str, status: OrderStatus, now: i64) -> (r: Option<Order>)
    requires
        unique_ids(views(old(items)@)),
    ensures
        unique_ids(views(final(items)@)),
        match r {
            Some(order) => status_set(
                views(old(items)@),
                views(final(items)@),
                id@,
                status,
                order@,
            ) && order@.updated == now,
            None => !contains_id(views(old(items)@), id@) && final(items)@ == old(items)@,
        },
{
    let ghost before = views(items@);
    let i = position(items, id);
    if i < items.len() {
        let mut order = items[i].clone();
        order.status = status;
        order.updated = now;
        let result = order.clone();
        items.set(i, order);
        proof {
            let after = views(items@);
            assert(after =~= before.update(i as int, result@));
            assert(stored_at(before, id@, i as int));
            assert(result@ == before[i as int].with_status(status, result@.updated));
            assert forall|a: int, b: int| 0 <= a < b < after.len() implies (#[trigger] after[a]).id
                != (#[trigger] after[b]).id by {
                assert(before[a].id != before[b].id);
            }
        }
        Some(result)
    } else {
        None
    }
}

/// Takes the order `id` out.
fn take_out(items: &mut Vec<Order>, id: &str) -> (found: bool)
    requires
        unique_ids(views(old(items)@)),
    ensures
        unique_ids(views(final(items)@)),
        found ==> removed(views(old(items)@), views(final(items)@), id@),
        !found ==> !contains_id(views(old(items)@), id@) && final(items)@ == old(items)@,
{
    let ghost before = views(items@);
    let i = position(items, id);
    if i < items.len() {
        let _gone = items.remove(i);
        proof {
            let after = views(items@);
            before.remove_ensures(i as int);
            assert(after =~= before.remove(i as int)) by {
                old(items)@.remove_ensures(i as int);
            }
            assert(stored_at(before, id@, i as int));
            assert forall|a: int, b: int| 0 <= a < b < after.len() implies (#[trigger] after[a]).id
                != (#[trigger] after[b]).id by {
                let a0 = if a < i {
                    a
                } else {
                    a + 1
                };
                let b0 = if b < i {
                    b
                } else {
                    b + 1
                };
                assert(after[a] == before[a0]);
                assert(after[b] == before[b0]);
                assert(before[a0].id != before[b0].id);
            }
        }
        true
    } else {
        false
    }
}

/// A store of orders in memory. No two of its orders share an identifier.
#[derive(Debug)]
pub struct InMemoryOrderRepository {
    items: Vec<Order>,
}

impl InMemoryOrderRepository {
    #[verifier::type_invariant]
    spec fn well_formed(self) -> bool {
        unique_ids(views(self.items@))
    }

    /// The empty store.
    pub fn new() -> (repo: InMemoryOrderRepository)
        ensures
            repo.orders() == Seq::<OrderView>::empty(),
    {
        let items: Vec<Order> = Vec::new();
        assert(views(items@) =~= Seq::<OrderView>::empty());
        InMemoryOrderRepository { items }
    }

    /// How many orders the store holds.
    pub fn len(&self) -> (n: usize)
        ensures
            n == self.orders().len(),
    {
        self.items.len()
    }

    /// Tells a proof what every store in memory keeps: no two orders share
    /// an identifier. It does nothing when it runs.
    pub fn ids_are_unique(&self)
        ensures
            unique_ids(self.orders()),
    {
        proof {
            use_type_invariant(self);
        }
    }

    /// Stores `order` under its identifier: in the place of the order that
    /// had it, or after all others if none had.
    pub fn insert(&mut self, order: Order)
        ensures
            unique_ids(final(self).orders()),
            put(old(self).orders(), final(self).orders(), order@),
    {
        proof {
            use_type_invariant(&*self);
        }
        let mut items: Vec<Order> = Vec::new();
        std::mem::swap(&mut items, &mut self.items);
        store(&mut items, order);
        self.items = items;
    }

    /// Sets the status of the order `id` and makes `now` its `updated`.
    /// Fails, changing nothing, exactly where no order has that identifier.
    pub fn set_status_at(&mut self, id: &str, status: OrderStatus, now: i64) -> (r: Result<
        Order,
        String,
    >)
        ensures
            unique_ids(final(self).orders()),
            match r {
                Ok(order) => status_set(
                    old(self).orders(),
                    final(self).orders(),
                    id@,
                    status,
                    order@,
                ) && order@.updated == now,
                Err(e) => !contains_id(old(self).orders(), id@) && final(self).orders() == old(
                    self,
                ).orders() && e@ == RepoErr::NotFound.text(),
            },
    {
        proof {
            use_type_invariant(&*self);
        }
        let mut items: Vec<Order> = Vec::new();
        std::mem::swap(&mut items, &mut self.items);
        let changed = restamp(&mut items, id, status, now);
        self.items = items;
        match changed {
            Some(order) => Ok(order),
            None => Err(RepoErr::NotFound.message()),
        }
    }

    /// Takes the order `id` out of the store. Fails, changing nothing,
    /// exactly where no order has that identifier.
    pub fn remove(&mut self, id: &str) -> (r: Result<(), String>)
        ensures
            unique_ids(final(self).orders()),
            match r {
                Ok(_) => removed(old(self).orders(), final(self).orders(), id@),
                Err(e) => !contains_id(old(self).orders(), id@) && final(self).orders() == old(
                    self,
                ).orders() && e@ == RepoErr::NotFound.text(),
            },
    {
        proof {
            use_type_invariant(&*self);
        }
        let mut items: Vec<Order> = Vec::new();
        std::mem::swap(&mut items, &mut self.items);
        let found = take_out(&mut items, id);
        self.items = items;
        if found {
            Ok(())
        } else {
            Err(RepoErr::NotFound.message())
        }
    }
}

impl OrderRepository for InMemoryOrderRepository {
    closed spec fn orders(&self) -> Seq<OrderView> {
        views(self.items@)
    }

    /// The store in memory has no errors of its own.
    open spec fn dependable(&self) -> bool {
        true
    }

    fn create(&mut self, new: NewOrder) -> (r: Result<Order, String>) {
        let order = Order::new(new.pair, new.side, new.price, new.quantity);
        self.insert(order.clone());
        Ok(order)
    }

    /// Fails, with `RepoErr::NotFound` in words, exactly where no order has
    /// the identifier.
    fn get_by_id(&self, id: &str) -> (r: Result<Order, String>)
        ensures
            r matches Err(e) ==> !contains_id(self.orders(), id@) && e@
                == RepoErr::NotFound.text(),
    {
        let i = position(&self.items, id);
        if i < self.items.len() {
            let order = self.items[i].clone();
            assert(stored_at(self.orders(), id@, i as int) && self.orders()[i as int] == order@);
            Ok(order)
        } else {
            Err(RepoErr::NotFound.message())
        }
    }

    fn list(&self, q: ListOrdersQuery) -> (r: Result<Vec<Order>, String>) {
        let ghost admits = |order: OrderView| q@.admits(order);
        let mut hits: Vec<Order> = Vec::new();
        let mut i: usize = 0;
        while i < self.items.len()
            invariant
                i <= self.items.len(),
                admits == |order: OrderView| q@.admits(order),
                views(hits@) == views(self.items@.take(i as int)).filter(admits),
            decreases self.items.len() - i,
        {
            proof {
                let seen = views(self.items@.take(i as int));
                assert(views(self.items@.take(i as int + 1)) =~= seen.push(self.items[i as int]@));
                seen.lemma_filter_push(self.items[i as int]@, admits);
            }
            if q.admits(&self.items[i]) {
                let ghost earlier = views(hits@);
                hits.push(self.items[i].clone());
                assert(views(hits@) =~= earlier.push(self.items[i as int]@));
            }
            i += 1;
        }
        proof {
            assert(self.items@.take(i as int) =~= self.items@);
        }
        let (start, end) = q.window(hits.len());
        let ghost all_hits = views(hits@);
        hits.truncate(end);
        let page = hits.split_off(start);
        proof {
            assert(views(page@) =~= all_hits.subrange(start as int, end as int));
            if q@.skip() >= all_hits.len() {
                assert(views(page@) =~= Seq::<OrderView>::empty());
            }
        }
        Ok(page)
    }

    /// Stamps the order with the system clock. Fails, with
    /// `RepoErr::NotFound` in words, exactly where no order has the
    /// identifier.
    fn set_status(&mut self, id: &str, status: OrderStatus) -> (r: Result<Order, String>)
        ensures
            r matches Err(e) ==> !contains_id(old(self).orders(), id@) && e@
                == RepoErr::NotFound.text(),
    {
        let now = now_ms();
        self.set_status_at(id, status, now)
    }

    /// Fails, with `RepoErr::NotFound` in words, exactly where no order has
    /// the identifier.
    fn delete(&mut self, id: &str) -> (r: Result<(), String>)
        ensures
            r matches Err(e) ==> !contains_id(old(self).orders(), id@) && e@
                == RepoErr::NotFound.text(),
    {
        self.remove(id)
    }
}

impl Default for InMemoryOrderRepository {
    fn default() -> (repo: InMemoryOrderRepository)
        ensures
            repo.orders() == Seq::<OrderView>::empty(),
    {
        InMemoryOrderRepository::new()
    }
}

} // verus!
