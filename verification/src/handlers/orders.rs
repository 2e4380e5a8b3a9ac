//! The order requests: create, list, get, change the status, delete. Each
//! handler passes the request to the store and turns a failure of the store
//! into the error that the caller is shown.

use crate::decimal::FixedDecimal;
use crate::entities::order::{NewOrder, Order, OrderSide, OrderStatus, OrderView};
use crate::errors::ApiError;
use crate::repositories::{
    contains_id, listing, put, removed, status_set, stored_at, unique_ids, views,
    ListOrdersQuery, OrderRepository, QueryView,
};
use vstd::prelude::*;

verus! {

/// The body of a request to create an order.
#[derive(Debug)]
pub struct CreateOrderPayload {
    pub pair: String,
    pub side: OrderSide,
    pub price: FixedDecimal,
    pub quantity: FixedDecimal,
}

/// The parameters of a request to list orders.
#[derive(Debug)]
pub struct ListQuery {
    pub pair: Option<String>,
    pub status: Option<OrderStatus>,
    pub limit: Option<i64>,
    pub offset: Option<i64>,
}

impl View for ListQuery {
    type V = QueryView;

    open spec fn view(&self) -> QueryView {
        QueryView {
            pair: match self.pair {
                Some(pair) => Some(pair@),
                None => None,
            },
            status: self.status,
            limit: self.limit,
            offset: self.offset,
        }
    }
}

/// The body of a request to change the status of an order.
#[derive(Debug)]
pub struct UpdateStatusPayload {
    pub status: OrderStatus,
}

/// Creates the order that `payload` describes. A failure of the store is
/// shown as `Internal`; a dependable store does not fail.
pub fn create_order<R: OrderRepository>(repo: &mut R, payload: &CreateOrderPayload) -> (r: Result<
    Order,
    ApiError,
>)
    requires
        unique_ids(old(repo).orders()),
    ensures
        unique_ids(final(repo).orders()),
        final(repo).dependable() == old(repo).dependable(),
        old(repo).dependable() ==> r is Ok,
        match r {
            Ok(order) => order@ == OrderView::fresh(
                order@.id,
                payload.pair@,
                payload.side,
                payload.price@,
                payload.quantity@,
                order@.created,
            ) && put(old(repo).orders(), final(repo).orders(), order@),
            Err(e) => e is Internal && final(repo).orders() == old(repo).orders(),
        },
{
    let new = NewOrder {
        pair: payload.pair.clone(),
        side: payload.side,
        price: payload.price,
        quantity: payload.quantity,
    };
    match repo.create(new) {
        Ok(order) => Ok(order),
        Err(_) => Err(ApiError::Internal),
    }
}

/// Lists the orders that `q` asks for. A failure of the store is shown as
/// `Internal`; a dependable store does not fail.
pub fn list_orders<R: OrderRepository>(repo: &R, q: &ListQuery) -> (r: Result<Vec<Order>, ApiError>)
    ensures
        repo.dependable() ==> r is Ok,
        match r {
            Ok(found) => views(found@) == listing(repo.orders(), q@),
            Err(e) => e is Internal,
        },
{
    let query = ListOrdersQuery {
        pair: match &q.pair {
            Some(pair) => Some(pair.clone()),
            None => None,
        },
        status: q.status,
        limit: q.limit,
        offset: q.offset,
    };
    match repo.list(query) {
        Ok(found) => Ok(found),
        Err(_) => Err(ApiError::Internal),
    }
}

/// The order `id`. A failure of the store is shown as `NotFound`; a
/// dependable store fails only where no order has the identifier.
pub fn get_order<R: OrderRepository>(repo: &R, id: &str) -> (r: Result<Order, ApiError>)
    ensures
        repo.dependable() && contains_id(repo.orders(), id@) ==> r is Ok,
        match r {
            Ok(order) => exists|i: int|
                stored_at(repo.orders(), id@, i) && repo.orders()[i] == order@,
            Err(e) => e is NotFound,
        },
{
    match repo.get_by_id(id) {
        Ok(order) => Ok(order),
        Err(_) => Err(ApiError::NotFound),
    }
}

/// Sets the status of the order `id` to the one that `payload` names. A
/// failure of the store is shown as `NotFound`; a dependable store fails
/// only where no order has the identifier.
pub fn update_status<R: OrderRepository>(
    repo: &mut R,
    id: &str,
    payload: &UpdateStatusPayload,
) -> (r: Result<Order, ApiError>)
    requires
        unique_ids(old(repo).orders()),
    ensures
        unique_ids(final(repo).orders()),
        final(repo).dependable() == old(repo).dependable(),
        old(repo).dependable() && contains_id(old(repo).orders(), id@) ==> r is Ok,
        match r {
            Ok(order) => status_set(
                old(repo).orders(),
                final(repo).orders(),
                id@,
                payload.status,
                order@,
            ),
            Err(e) => e is NotFound && final(repo).orders() == old(repo).orders(),
        },
{
    match repo.set_status(id, payload.status) {
        Ok(order) => Ok(order),
        Err(_) => Err(ApiError::NotFound),
    }
}

/// Removes the order `id`. A failure of the store is shown as `NotFound`;
/// a dependable store fails only where no order has the identifier.
pub fn delete_order<R: OrderRepository>(repo: &mut R, id: &str) -> (r: Result<(), ApiError>)
    requires
        unique_ids(old(repo).orders()),
    ensures
        unique_ids(final(repo).orders()),
        final(repo).dependable() == old(repo).dependable(),
        old(repo).dependable() && contains_id(old(repo).orders(), id@) ==> r is Ok,
        match r {
            Ok(_) => removed(old(repo).orders(), final(repo).orders(), id@),
            Err(e) => e is NotFound && final(repo).orders() == old(repo).orders(),
        },
{
    match repo.delete(id) {
        Ok(_) => Ok(()),
        Err(_) => Err(ApiError::NotFound),
    }
}

} // verus!
