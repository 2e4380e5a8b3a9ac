//! The worker of one asset: what it does on each tick of its timer.

use crate::decimal::{DecimalView, FixedDecimal};
use crate::engine::matching::{
    asks, crossing, decided_status, decision, fails_only_where_absent, handled_before,
    lemma_dependable_pass_settles, lemma_dependable_pass_tally, lemma_pass_keeps_identities,
    outcome,
    process_active_orders, replayed, taken_from, tally, Reply, SummaryView, TickSummary,
};
use crate::entities::order::{Order, OrderStatus, OrderView};
use crate::oracle_service::cache::OracleCache;
use crate::repositories::{
    listing, unique_ids, views, ListOrdersQuery, OrderRepository, QueryView,
};
use vstd::prelude::*;

verus! {

/// The query for the orders of `asset` in one status: no limit, no offset.
pub open spec fn active_query(asset: Seq<char>, status: OrderStatus) -> QueryView {
    QueryView { pair: Some(asset), status: Some(status), limit: None, offset: None }
}

/// What one of the three list calls contributes: its result where the store
/// answered, nothing where it failed.
pub open spec fn bucket(
    orders: Seq<OrderView>,
    asset: Seq<char>,
    status: OrderStatus,
    answered: bool,
) -> Seq<OrderView> {
    if answered {
        listing(orders, active_query(asset, status))
    } else {
        Seq::empty()
    }
}

/// The active orders of `asset`: the new, the open and the partially filled
/// ones, as far as the store answered for each of the three.
pub open spec fn gathered(
    orders: Seq<OrderView>,
    asset: Seq<char>,
    new_answered: bool,
    open_answered: bool,
    partial_answered: bool,
) -> Seq<OrderView> {
    bucket(orders, asset, OrderStatus::New, new_answered) + bucket(
        orders,
        asset,
        OrderStatus::Open,
        open_answered,
    ) + bucket(orders, asset, OrderStatus::PartiallyFilled, partial_answered)
}

/// The statuses for which the store did not answer, in the order in which
/// it was asked.
pub open spec fn unanswered(
    new_answered: bool,
    open_answered: bool,
    partial_answered: bool,
) -> Seq<OrderStatus> {
    (if new_answered {
        Seq::<OrderStatus>::empty()
    } else {
        seq![OrderStatus::New]
    }) + (if open_answered {
        Seq::<OrderStatus>::empty()
    } else {
        seq![OrderStatus::Open]
    }) + (if partial_answered {
        Seq::<OrderStatus>::empty()
    } else {
        seq![OrderStatus::PartiallyFilled]
    })
}

/// A list call that the store refused.
#[derive(Debug)]
pub struct ListFailure {
    /// The status that was asked for.
    pub status: OrderStatus,
    /// What the store said.
    pub error: String,
}

/// The statuses of a sequence of refused list calls.
pub open spec fn failed_statuses(failures: Seq<ListFailure>) -> Seq<OrderStatus> {
    failures.map_values(|failure: ListFailure| failure.status)
}

/// The active orders of an asset, with the list calls that failed on the
/// way.
#[derive(Debug)]
pub struct ActiveOrders {
    pub orders: Vec<Order>,
    pub failures: Vec<ListFailure>,
}

impl ActiveOrders {
    /// No order, no failure.
    pub fn new() -> (active: ActiveOrders)
        ensures
            views(active.orders@) == Seq::<OrderView>::empty(),
            failed_statuses(active.failures@) == Seq::<OrderStatus>::empty(),
    {
        let active = ActiveOrders { orders: Vec::new(), failures: Vec::new() };
        assert(views(active.orders@) =~= Seq::<OrderView>::empty());
        assert(failed_statuses(active.failures@) =~= Seq::<OrderStatus>::empty());
        active
    }

    /// Takes in the answer to the list call for `status`: its orders go
    /// behind the ones already there; a failure is noted and contributes no
    /// order.
    pub fn absorb(&mut self, status: OrderStatus, answer: Result<Vec<Order>, String>)
        ensures
            views(final(self).orders@) == views(old(self).orders@) + (match answer {
                Ok(found) => views(found@),
                Err(_) => Seq::<OrderView>::empty(),
            }),
            failed_statuses(final(self).failures@) == failed_statuses(old(self).failures@) + (
            match answer {
                Ok(_) => Seq::<OrderStatus>::empty(),
                Err(_) => seq![status],
            }),
            answer matches Err(error) ==> final(self).failures@.last().error == error,
    {
        let ghost orders_before = self.orders@;
        let ghost failures_before = self.failures@;
        match answer {
            Ok(found) => {
                let mut found = found;
                let ghost added = found@;
                self.orders.append(&mut found);
                assert(views(self.orders@) =~= views(orders_before) + views(added));
                assert(failed_statuses(self.failures@) =~= failed_statuses(failures_before)
                    + Seq::<OrderStatus>::empty());
            },
            Err(error) => {
                self.failures.push(ListFailure { status, error });
                assert(views(self.orders@) =~= views(orders_before) + Seq::<OrderView>::empty());
                assert(failed_statuses(self.failures@) =~= failed_statuses(failures_before)
                    + seq![status]);
            },
        }
    }
}

/// The query for the orders of `asset` in one status.
pub fn query_for(asset: &str, status: OrderStatus) -> (q: ListOrdersQuery)
    ensures
        q@ == active_query(asset@, status),
{
    ListOrdersQuery { pair: Some(asset.to_owned()), status: Some(status), limit: None, offset: None }
}

/// The active orders of `asset`: the store is asked three times, for the
/// new, the open and the partially filled orders of the pair. A call that
/// fails is noted and contributes nothing; the others still count.
pub fn collect_active_orders<R: OrderRepository>(asset: &str, repo: &R) -> (active: ActiveOrders)
    ensures
        exists|new_answered: bool, open_answered: bool, partial_answered: bool|
            views(active.orders@) == #[trigger] gathered(
                repo.orders(),
                asset@,
                new_answered,
                open_answered,
                partial_answered,
            ) && failed_statuses(active.failures@) == unanswered(
                new_answered,
                open_answered,
                partial_answered,
            ),
        repo.dependable() ==> views(active.orders@) == gathered(
            repo.orders(),
            asset@,
            true,
            true,
            true,
        ) && active.failures@.len() == 0,
{
    let mut active = ActiveOrders::new();
    let new = repo.list(query_for(asset, OrderStatus::New));
    let ghost new_answered = new is Ok;
    active.absorb(OrderStatus::New, new);
    let open = repo.list(query_for(asset, OrderStatus::Open));
    let ghost open_answered = open is Ok;
    active.absorb(OrderStatus::Open, open);
    let partial = repo.list(query_for(asset, OrderStatus::PartiallyFilled));
    let ghost partial_answered = partial is Ok;
    active.absorb(OrderStatus::PartiallyFilled, partial);
    proof {
        let all = repo.orders();
        assert(views(active.orders@) =~= gathered(
            all,
            asset@,
            new_answered,
            open_answered,
            partial_answered,
        ));
        assert(failed_statuses(active.failures@) =~= unanswered(
            new_answered,
            open_answered,
            partial_answered,
        ));
        if repo.dependable() {
            assert(failed_statuses(active.failures@).len() == 0);
        }
    }
    active
}

/// Where the list call for the open orders fails and the other two are
/// answered, the active orders are the new ones followed by the partially
/// filled ones: one failed call costs the others nothing.
pub proof fn lemma_failed_call_keeps_the_others(orders: Seq<OrderView>, asset: Seq<char>)
    ensures
        gathered(orders, asset, true, false, true) == listing(
            orders,
            active_query(asset, OrderStatus::New),
        ) + listing(orders, active_query(asset, OrderStatus::PartiallyFilled)),
        unanswered(true, false, true) == seq![OrderStatus::Open],
{
    assert(gathered(orders, asset, true, false, true) =~= listing(
        orders,
        active_query(asset, OrderStatus::New),
    ) + listing(orders, active_query(asset, OrderStatus::PartiallyFilled)));
    assert(unanswered(true, false, true) =~= seq![OrderStatus::Open]);
}

/// Every order of a listing is an order of the store that passes the
/// filters of the query.
pub proof fn lemma_listing_members(orders: Seq<OrderView>, query: QueryView, k: int)
    requires
        0 <= k < listing(orders, query).len(),
    ensures
        query.admits(listing(orders, query)[k]),
        exists|i: int| 0 <= i < orders.len() && #[trigger] orders[i] == listing(orders, query)[k],
{
    let admits = |order: OrderView| query.admits(order);
    let hits = orders.filter(admits);
    let found = listing(orders, query)[k];
    let at = query.skip() + k;
    assert(found == hits[at]);
    orders.lemma_filter_pred(admits, at);
    assert(hits.contains(found));
    orders.lemma_filter_contains_rev(admits, found);
    let i = choose|i: int| 0 <= i < orders.len() && orders[i] == found;
    assert(orders[i] == listing(orders, query)[k]);
}

/// Every gathered order is an active order of the asset that the store
/// holds.
pub proof fn lemma_gathered_members(
    orders: Seq<OrderView>,
    asset: Seq<char>,
    new_answered: bool,
    open_answered: bool,
    partial_answered: bool,
    k: int,
)
    requires
        0 <= k < gathered(orders, asset, new_answered, open_answered, partial_answered).len(),
    ensures
        ({
            let found = gathered(orders, asset, new_answered, open_answered, partial_answered)[k];
            &&& found.pair == asset
            &&& found.status.active()
            &&& exists|i: int| 0 <= i < orders.len() && #[trigger] orders[i] == found
        }),
{
    let new = bucket(orders, asset, OrderStatus::New, new_answered);
    let open = bucket(orders, asset, OrderStatus::Open, open_answered);
    let partial = bucket(orders, asset, OrderStatus::PartiallyFilled, partial_answered);
    if k < new.len() {
        lemma_listing_members(orders, active_query(asset, OrderStatus::New), k);
    } else if k < new.len() + open.len() {
        lemma_listing_members(orders, active_query(asset, OrderStatus::Open), k - new.len());
    } else {
        lemma_listing_members(
            orders,
            active_query(asset, OrderStatus::PartiallyFilled),
            k - new.len() - open.len(),
        );
    }
}

/// Every active order of the asset that the store holds is gathered, where
/// the store answers all three calls.
pub proof fn lemma_gathered_complete(orders: Seq<OrderView>, asset: Seq<char>, i: int)
    requires
        0 <= i < orders.len(),
        orders[i].pair == asset,
        orders[i].status.active(),
    ensures
        gathered(orders, asset, true, true, true).contains(orders[i]),
{
    let order = orders[i];
    let query = active_query(asset, order.status);
    let admits = |o: OrderView| query.admits(o);
    let hits = orders.filter(admits);
    orders.lemma_filter_contains(admits, i);
    let at = choose|at: int| 0 <= at < hits.len() && hits[at] == order;
    assert(listing(orders, query) =~= hits);
    let new = bucket(orders, asset, OrderStatus::New, true);
    let open = bucket(orders, asset, OrderStatus::Open, true);
    let partial = bucket(orders, asset, OrderStatus::PartiallyFilled, true);
    let all = gathered(orders, asset, true, true, true);
    if order.status == OrderStatus::New {
        assert(all[at] == order);
    } else if order.status == OrderStatus::Open {
        assert(all[new.len() + at] == order);
    } else {
        assert(all[new.len() + open.len() + at] == order);
    }
}

/// The status of an order after a tick at the price `px` on a dependable
/// store: what the decision calls for, for an active order of the asset;
/// the status it had, for every other order.
pub open spec fn settled_status(order: OrderView, asset: Seq<char>, px: DecimalView) -> OrderStatus {
    if order.pair == asset && order.status.active() {
        decided_status(order, px)
    } else {
        order.status
    }
}

/// What a pass over the gathered orders of an asset makes of a dependable
/// store: its summary is the `outcome` of the gathered orders, and every
/// order has its `settled_status`.
proof fn lemma_dependable_tick(
    before: Seq<OrderView>,
    after: Seq<OrderView>,
    asset: Seq<char>,
    px: DecimalView,
    ts: i64,
    states: Seq<Seq<OrderView>>,
    replies: Seq<Reply>,
)
    requires
        unique_ids(before),
        replayed(
            before,
            after,
            states,
            gathered(before, asset, true, true, true),
            replies,
            px,
        ),
        fails_only_where_absent(before, gathered(before, asset, true, true, true), replies),
    ensures
        tally(gathered(before, asset, true, true, true), replies, px, ts) == outcome(
            gathered(before, asset, true, true, true),
            px,
            ts,
        ),
        after.len() == before.len(),
        forall|i: int|
            0 <= i < before.len() ==> (#[trigger] after[i]).status == settled_status(
                before[i],
                asset,
                px,
            ),
{
    let found = gathered(before, asset, true, true, true);
    let n = found.len() as int;
    assert(taken_from(before, found)) by {
        assert forall|k: int| 0 <= k < found.len() implies before.contains(
            #[trigger] found[k],
        ) by {
            lemma_gathered_members(before, asset, true, true, true, k);
        }
    }
    lemma_dependable_pass_tally(before, after, states, found, replies, px, ts, n);
    lemma_pass_keeps_identities(before, after, states, found, replies, px, n);
    assert(states[n] == after);
    assert(found.take(n) =~= found);
    assert(replies.take(n) =~= replies);
    assert forall|i: int| 0 <= i < before.len() implies (#[trigger] after[i]).status
        == settled_status(before[i], asset, px) by {
        lemma_dependable_pass_settles(before, after, states, found, replies, px, i, n);
        if before[i].pair == asset && before[i].status.active() {
            lemma_gathered_complete(before, asset, i);
            let k = choose|k: int| 0 <= k < found.len() && found[k] == before[i];
            assert(0 <= k < n && found[k].id == before[i].id);
            assert(handled_before(found, before[i].id, n));
        } else {
            if handled_before(found, before[i].id, n) {
                let k = choose|k: int| 0 <= k < n && (#[trigger] found[k]).id == before[i].id;
                lemma_gathered_members(before, asset, true, true, true, k);
                let j = choose|j: int| 0 <= j < before.len() && #[trigger] before[j] == found[k];
                assert(j == i);
            }
        }
    }
}

/// Where a pass over the gathered orders of an asset changed an order of
/// the store only if an order of the pass with its identifier asked for the
/// new status, every order changed as the decision for it calls for.
proof fn lemma_changes_are_decided(
    before: Seq<OrderView>,
    after: Seq<OrderView>,
    asset: Seq<char>,
    px: DecimalView,
    new_answered: bool,
    open_answered: bool,
    partial_answered: bool,
)
    requires
        unique_ids(before),
        after.len() == before.len(),
        forall|i: int|
            0 <= i < before.len() && after[i] != #[trigger] before[i] ==> exists|k: int|
                asks(
                    gathered(before, asset, new_answered, open_answered, partial_answered),
                    px,
                    before[i].id,
                    after[i].status,
                    k,
                ),
    ensures
        forall|i: int|
            0 <= i < before.len() ==> changed_as_decided(#[trigger] before[i], after[i], asset, px),
{
    let found = gathered(before, asset, new_answered, open_answered, partial_answered);
    assert forall|i: int| 0 <= i < before.len() implies changed_as_decided(
        #[trigger] before[i],
        after[i],
        asset,
        px,
    ) by {
        if after[i] != before[i] {
            let k = choose|k: int| asks(found, px, before[i].id, after[i].status, k);
            lemma_gathered_members(
                before,
                asset,
                new_answered,
                open_answered,
                partial_answered,
                k,
            );
            let j = choose|j: int| 0 <= j < before.len() && #[trigger] before[j] == found[k];
            assert(before[j].id == before[i].id);
            assert(j == i);
        }
    }
}

/// The tick after tick number `ticks`. The count stops at the largest
/// number it can hold.
pub open spec fn next_tick(ticks: u64) -> u64 {
    if ticks < u64::MAX {
        (ticks + 1) as u64
    } else {
        ticks
    }
}

/// The worker of one asset.
#[derive(Debug)]
pub struct MatcherWorker {
    asset: String,
    ticks: u64,
}

pub struct WorkerView {
    pub asset: Seq<char>,
    /// How many ticks the worker has seen.
    pub ticks: u64,
}

impl View for MatcherWorker {
    type V = WorkerView;

    closed spec fn view(&self) -> WorkerView {
        WorkerView { asset: self.asset@, ticks: self.ticks }
    }
}

/// What a worker did on one tick.
#[derive(Debug)]
pub struct TickReport {
    /// The number of the tick, counted from 1.
    pub tick: u64,
    /// The oracle price and its timestamp; `None` where the oracle has not
    /// yet published a price for the asset, and the tick was skipped.
    pub price: Option<(FixedDecimal, i64)>,
    /// How many active orders the store listed.
    pub active: usize,
    /// The list calls that the store refused.
    pub list_failures: Vec<ListFailure>,
    /// What the pass over the active orders did.
    pub summary: TickSummary,
}

/// Whether a tick was entitled to turn `before` into `after`: if the order
/// changed at all, it was an active order of the asset, and its new status
/// is the one that the decision for it at the price `px` calls for.
pub open spec fn changed_as_decided(
    before: OrderView,
    after: OrderView,
    asset: Seq<char>,
    px: DecimalView,
) -> bool {
    after != before ==> before.pair == asset && before.status.active() && decision(
        before,
        px,
    ).target() == Some(after.status)
}

/// A tick moves an order along the state machine and nowhere else: an order
/// that it changed was active, is now filled if it crossed, and is now open
/// if it was new and did not cross. No tick leaves an order new, partially
/// filled or cancelled that was not so before.
pub proof fn lemma_tick_follows_the_state_machine(
    before: OrderView,
    after: OrderView,
    asset: Seq<char>,
    px: DecimalView,
)
    requires
        changed_as_decided(before, after, asset, px),
        after != before,
    ensures
        before.status.matcher_moves_to(after.status),
        crossing(before, px) ==> after.status == OrderStatus::Filled,
        !crossing(before, px) ==> before.status == OrderStatus::New && after.status
            == OrderStatus::Open,
{
}

/// Whether `new_answered`, `open_answered`, `partial_answered`, `states`
/// and `replies` tell how a tick at the price `px` of the moment `ts` took
/// the store from `before` to `after`: the active orders were gathered from
/// `before`, a pass over them ran as `replayed` tells, and the report
/// counts the active orders, names the list calls that failed and carries
/// the tally of the pass.
pub open spec fn ticked(
    before: Seq<OrderView>,
    after: Seq<OrderView>,
    asset: Seq<char>,
    px: DecimalView,
    ts: i64,
    new_answered: bool,
    open_answered: bool,
    partial_answered: bool,
    states: Seq<Seq<OrderView>>,
    replies: Seq<Reply>,
    report: TickReport,
) -> bool {
    let active = gathered(before, asset, new_answered, open_answered, partial_answered);
    &&& report.active == active.len()
    &&& failed_statuses(report.list_failures@) == unanswered(
        new_answered,
        open_answered,
        partial_answered,
    )
    &&& replayed(before, after, states, active, replies, px)
    &&& report.summary@ == tally(active, replies, px, ts)
}

/// An open or partially filled order that does not cross at `px` is the
/// same in `after` as in `before`.
pub open spec fn known_uncrossed_kept(
    before: Seq<OrderView>,
    after: Seq<OrderView>,
    px: DecimalView,
) -> bool {
    forall|i: int|
        0 <= i < before.len() && ((#[trigger] before[i]).status == OrderStatus::Open
            || before[i].status == OrderStatus::PartiallyFilled) && !crossing(before[i], px)
            ==> after[i] == before[i]
}

/// What a tick at the price `px` of the moment `ts` makes of a dependable
/// store: all active orders of the asset are gathered, no call fails, the
/// summary is the `outcome` of the gathered orders, and every order has
/// its `settled_status`.
pub open spec fn settled_tick(
    before: Seq<OrderView>,
    after: Seq<OrderView>,
    asset: Seq<char>,
    px: DecimalView,
    ts: i64,
    report: TickReport,
) -> bool {
    let active = gathered(before, asset, true, true, true);
    &&& report.active == active.len()
    &&& report.list_failures@.len() == 0
    &&& report.summary@ == outcome(active, px, ts)
    &&& forall|i: int|
        0 <= i < before.len() ==> (#[trigger] after[i]).status == settled_status(
            before[i],
            asset,
            px,
        )
}

/// What holds of a tick that found the price `px` of the moment `ts`:
/// it ran as `ticked` tells for some answers of the store, and every order
/// changed, if at all, as the decision for it calls for.
pub open spec fn priced_tick(
    before: Seq<OrderView>,
    after: Seq<OrderView>,
    asset: Seq<char>,
    px: DecimalView,
    ts: i64,
    report: TickReport,
) -> bool {
    &&& exists|
        new_answered: bool,
        open_answered: bool,
        partial_answered: bool,
        states: Seq<Seq<OrderView>>,
        replies: Seq<Reply>,
    | #[trigger]
        ticked(
            before,
            after,
            asset,
            px,
            ts,
            new_answered,
            open_answered,
            partial_answered,
            states,
            replies,
            report,
        )
    &&& forall|i: int|
        0 <= i < before.len() ==> changed_as_decided(#[trigger] before[i], after[i], asset, px)
}

impl MatcherWorker {
    /// The worker of `asset`, before its first tick.
    pub fn new(asset: String) -> (worker: MatcherWorker)
        ensures
            worker@ == (WorkerView { asset: asset@, ticks: 0 }),
    {
        MatcherWorker { asset, ticks: 0 }
    }

    /// The asset that the worker serves.
    pub fn asset(&self) -> (asset: &str)
        ensures
            asset@ == self@.asset,
    {
        self.asset.as_str()
    }

    /// How many ticks the worker has seen.
    pub fn ticks(&self) -> (ticks: u64)
        ensures
            ticks == self@.ticks,
    {
        self.ticks
    }

    /// One tick. Without an oracle price for the asset the tick is skipped
    /// and the store is not touched. With a price, the active orders of the
    /// asset are gathered and a pass is made over them.
    ///
    /// Whatever the store answers: no order enters or leaves it, none
    /// changes in what makes it that order, and an order changes only as
    /// the decision for it calls for. So an order that is filled or
    /// cancelled stays as it is, an open or partially filled order that
    /// does not cross stays as it is, and so does every order of another
    /// asset. On a dependable store the tick does all that the decisions
    /// call for: see `settled_tick`.
    pub fn on_tick<R: OrderRepository>(&mut self, repo: &mut R, oracle: &OracleCache) -> (report:
        TickReport)
        requires
            unique_ids(old(repo).orders()),
        ensures
            final(self)@ == (WorkerView {
                asset: old(self)@.asset,
                ticks: next_tick(old(self)@.ticks),
            }),
            report.tick == final(self)@.ticks,
            unique_ids(final(repo).orders()),
            final(repo).dependable() == old(repo).dependable(),
            final(repo).orders().len() == old(repo).orders().len(),
            forall|i: int|
                0 <= i < old(repo).orders().len() ==> (#[trigger] old(
                    repo,
                ).orders()[i]).same_identity(final(repo).orders()[i]),
            forall|i: int|
                0 <= i < old(repo).orders().len() && (#[trigger] old(
                    repo,
                ).orders()[i]).status.terminal() ==> final(repo).orders()[i] == old(
                    repo,
                ).orders()[i],
            forall|i: int|
                0 <= i < old(repo).orders().len() && (#[trigger] old(repo).orders()[i]).pair
                    != old(self)@.asset ==> final(repo).orders()[i] == old(repo).orders()[i],
            match report.price {
                None => {
                    &&& !oracle@.contains_key(old(self)@.asset)
                    &&& final(repo).orders() == old(repo).orders()
                    &&& report.active == 0
                    &&& report.list_failures@.len() == 0
                    &&& report.summary@ == SummaryView::empty()
                },
                Some((px, ts)) => {
                    &&& oracle@.contains_key(old(self)@.asset)
                    &&& px@ == oracle@[old(self)@.asset].price
                    &&& ts == oracle@[old(self)@.asset].ts_ms
                    &&& priced_tick(
                        old(repo).orders(),
                        final(repo).orders(),
                        old(self)@.asset,
                        px@,
                        ts,
                        report,
                    )
                    &&& known_uncrossed_kept(old(repo).orders(), final(repo).orders(), px@)
                    &&& old(repo).dependable() ==> settled_tick(
                        old(repo).orders(),
                        final(repo).orders(),
                        old(self)@.asset,
                        px@,
                        ts,
                        report,
                    )
                },
            },
    {
        if self.ticks < u64::MAX {
            self.ticks = self.ticks + 1;
        }
        let ghost before = repo.orders();
        let ghost dependable = repo.dependable();
        match oracle.get_price(self.asset.as_str()) {
            None => TickReport {
                tick: self.ticks,
                price: None,
                active: 0,
                list_failures: Vec::new(),
                summary: TickSummary::new(),
            },
            Some((px, ts)) => {
                let active = collect_active_orders(self.asset.as_str(), &*repo);
                let ghost (new_answered, open_answered, partial_answered) = if dependable {
                    (true, true, true)
                } else {
                    choose|new_answered: bool, open_answered: bool, partial_answered: bool|
                        views(active.orders@) == #[trigger] gathered(
                            before,
                            self.asset@,
                            new_answered,
                            open_answered,
                            partial_answered,
                        ) && failed_statuses(active.failures@) == unanswered(
                            new_answered,
                            open_answered,
                            partial_answered,
                        )
                };
                proof {
                    if dependable {
                        assert(failed_statuses(active.failures@) =~= unanswered(
                            true,
                            true,
                            true,
                        ));
                    }
                }
                let ghost found = views(active.orders@);
                let count = active.orders.len();
                if count == 0 {
                    let report = TickReport {
                        tick: self.ticks,
                        price: Some((px, ts)),
                        active: 0,
                        list_failures: active.failures,
                        summary: TickSummary::new(),
                    };
                    proof {
                        let states = seq![before];
                        let replies = Seq::<Reply>::empty();
                        assert(replayed(before, before, states, found, replies, px@));
                        assert(ticked(
                            before,
                            before,
                            self.asset@,
                            px@,
                            ts,
                            new_answered,
                            open_answered,
                            partial_answered,
                            states,
                            replies,
                            report,
                        ));
                        assert(priced_tick(before, before, self.asset@, px@, ts, report));
                        if dependable {
                            assert(fails_only_where_absent(before, found, replies));
                            lemma_dependable_tick(
                                before,
                                before,
                                self.asset@,
                                px@,
                                ts,
                                states,
                                replies,
                            );
                            assert(settled_tick(before, before, self.asset@, px@, ts, report));
                        }
                    }
                    report
                } else {
                    let summary = process_active_orders(repo, active.orders, px, ts);
                    let report = TickReport {
                        tick: self.ticks,
                        price: Some((px, ts)),
                        active: count,
                        list_failures: active.failures,
                        summary,
                    };
                    proof {
                        let after = repo.orders();
                        let (states, replies) = choose|
                            states: Seq<Seq<OrderView>>,
                            replies: Seq<Reply>,
                        | #[trigger]
                            replayed(before, after, states, found, replies, px@) && report.summary@
                                == tally(found, replies, px@, ts) && (dependable
                                ==> fails_only_where_absent(before, found, replies));
                        assert(ticked(
                            before,
                            after,
                            self.asset@,
                            px@,
                            ts,
                            new_answered,
                            open_answered,
                            partial_answered,
                            states,
                            replies,
                            report,
                        ));
                        lemma_changes_are_decided(
                            before,
                            after,
                            self.asset@,
                            px@,
                            new_answered,
                            open_answered,
                            partial_answered,
                        );
                        assert(priced_tick(before, after, self.asset@, px@, ts, report));
                        if dependable {
                            lemma_dependable_tick(
                                before,
                                after,
                                self.asset@,
                                px@,
                                ts,
                                states,
                                replies,
                            );
                            assert(settled_tick(before, after, self.asset@, px@, ts, report));
                        }
                    }
                    report
                }
            },
        }
    }
}

/// One worker for each asset, in the order of the assets, none of which has
/// seen a tick yet.
pub fn start_matchers(assets: Vec<String>) -> (workers: Vec<MatcherWorker>)
    ensures
        workers.len() == assets.len(),
        forall|i: int|
            0 <= i < assets.len() ==> (#[trigger] workers[i])@ == (WorkerView {
                asset: assets[i]@,
                ticks: 0,
            }),
{
    let mut workers: Vec<MatcherWorker> = Vec::new();
    let mut i: usize = 0;
    while i < assets.len()
        invariant
            i <= assets.len(),
            workers.len() == i,
            forall|j: int|
                0 <= j < i ==> (#[trigger] workers[j])@ == (WorkerView {
                    asset: assets[j]@,
                    ticks: 0,
                }),
        decreases assets.len() - i,
    {
        workers.push(MatcherWorker::new(assets[i].clone()));
        i += 1;
    }
    workers
}

} // verus!
