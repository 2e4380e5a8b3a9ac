//! The crossing rule, the decision it leads to for one order, and the pass
//! over the orders of one tick.

use crate::decimal::{DecimalView, FixedDecimal};
use crate::entities::order::{Order, OrderSide, OrderStatus, OrderView};
use crate::repositories::{
    contains_id, status_set, stored_at, unique_ids, views, OrderRepository,
};
use vstd::prelude::*;

verus! {

/// The crossing rule: a buy crosses when its limit is at or above the
/// price, a sell when its limit is at or below it. Equal counts on both
/// sides.
pub open spec fn crossing(order: OrderView, px: DecimalView) -> bool {
    match order.side {
        OrderSide::Buy => order.price.ge(px),
        OrderSide::Sell => order.price.le(px),
    }
}

/// Whether the limit of `o` crosses the oracle price.
pub fn crosses(o: &Order, oracle_px: FixedDecimal) -> (r: bool)
    ensures
        r == crossing(o@, oracle_px@),
        o.side == OrderSide::Buy ==> (r <==> o@.price.ge(oracle_px@)),
        o.side == OrderSide::Sell ==> (r <==> o@.price.le(oracle_px@)),
{
    match o.side {
        OrderSide::Buy => o.price.ge(&oracle_px),
        OrderSide::Sell => o.price.le(&oracle_px),
    }
}

/// A limit equal in value to the price crosses on either side.
pub proof fn lemma_equal_price_crosses(order: OrderView, px: DecimalView)
    requires
        order.price.same_value(px),
    ensures
        crossing(order, px),
{
}

/// What the matcher does with one order.
#[derive(Debug, Clone, Copy, PartialEq, Eq, Structural)]
pub enum Decision {
    /// The limit crosses: the order is executed.
    Fill,
    /// The order is new and does not cross: it is opened.
    Promote,
    /// The order is already known and does not cross: nothing happens.
    Leave,
}

impl Decision {
    /// The status that the decision asks the store to set.
    pub open spec fn target(self) -> Option<OrderStatus> {
        match self {
            Decision::Fill => Some(OrderStatus::Filled),
            Decision::Promote => Some(OrderStatus::Open),
            Decision::Leave => None,
        }
    }

    /// The status that the decision asks the store to set.
    pub fn status(&self) -> (r: Option<OrderStatus>)
        ensures
            r == self.target(),
    {
        match self {
            Decision::Fill => Some(OrderStatus::Filled),
            Decision::Promote => Some(OrderStatus::Open),
            Decision::Leave => None,
        }
    }
}

/// The decision for one order at one price.
pub open spec fn decision(order: OrderView, px: DecimalView) -> Decision {
    if crossing(order, px) {
        Decision::Fill
    } else if order.status == OrderStatus::New {
        Decision::Promote
    } else {
        Decision::Leave
    }
}

/// The decision for one order at one price.
pub fn decide(o: &Order, px: FixedDecimal) -> (d: Decision)
    ensures
        d == decision(o@, px@),
{
    if crosses(o, px) {
        Decision::Fill
    } else if o.status == OrderStatus::New {
        Decision::Promote
    } else {
        Decision::Leave
    }
}

/// The record of one execution.
#[derive(Debug)]
pub struct Execution {
    pub pair: String,
    pub side: OrderSide,
    pub order_id: String,
    pub quantity: FixedDecimal,
    /// The limit of the order.
    pub limit_px: FixedDecimal,
    /// The oracle price at which the matcher decided.
    pub exec_px: FixedDecimal,
    /// The timestamp that the oracle gave with that price.
    pub oracle_ts: i64,
}

pub struct ExecutionView {
    pub pair: Seq<char>,
    pub side: OrderSide,
    pub order_id: Seq<char>,
    pub quantity: DecimalView,
    pub limit_px: DecimalView,
    pub exec_px: DecimalView,
    pub oracle_ts: i64,
}

impl View for Execution {
    type V = ExecutionView;

    open spec fn view(&self) -> ExecutionView {
        ExecutionView {
            pair: self.pair@,
            side: self.side,
            order_id: self.order_id@,
            quantity: self.quantity@,
            limit_px: self.limit_px@,
            exec_px: self.exec_px@,
            oracle_ts: self.oracle_ts,
        }
    }
}

/// The record of the execution of `order` at the price `px` that the oracle
/// gave at `ts`.
pub open spec fn execution_of(order: OrderView, px: DecimalView, ts: i64) -> ExecutionView {
    ExecutionView {
        pair: order.pair,
        side: order.side,
        order_id: order.id,
        quantity: order.quantity,
        limit_px: order.price,
        exec_px: px,
        oracle_ts: ts,
    }
}

/// The record of the execution of `o` at the oracle price `px` of the
/// moment `ts_ms`.
pub fn log_exec(o: &Order, px: FixedDecimal, ts_ms: i64) -> (e: Execution)
    ensures
        e@ == execution_of(o@, px@, ts_ms),
{
    Execution {
        pair: o.pair.clone(),
        side: o.side,
        order_id: o.id.clone(),
        quantity: o.quantity,
        limit_px: o.price,
        exec_px: px,
        oracle_ts: ts_ms,
    }
}

/// A status change that the store refused.
#[derive(Debug)]
pub struct StatusFailure {
    pub order_id: String,
    /// The status that was to be set.
    pub status: OrderStatus,
    /// What the store said.
    pub error: String,
}

pub struct StatusFailureView {
    pub order_id: Seq<char>,
    pub status: OrderStatus,
    pub error: Seq<char>,
}

impl View for StatusFailure {
    type V = StatusFailureView;

    open spec fn view(&self) -> StatusFailureView {
        StatusFailureView { order_id: self.order_id@, status: self.status, error: self.error@ }
    }
}

/// What the store answered for one order.
pub enum Reply {
    /// The decision was to leave the order alone; the store was not asked.
    NotAsked,
    /// The store set the status and returned the order as it now is.
    Done(OrderView),
    /// The store failed, with this error.
    Failed(Seq<char>),
}

/// The answer of `set_status` as a reply.
pub open spec fn reply_of(answer: Result<Order, String>) -> Reply {
    match answer {
        Ok(order) => Reply::Done(order@),
        Err(error) => Reply::Failed(error@),
    }
}

/// What one pass over the orders of a tick did.
#[derive(Debug)]
pub struct TickSummary {
    /// How many orders were filled.
    pub matched: usize,
    /// How many orders were opened.
    pub promoted: usize,
    /// One record for each order that was filled, in the order of the pass.
    pub executions: Vec<Execution>,
    /// One record for each status change that the store refused, in the
    /// order of the pass.
    pub failures: Vec<StatusFailure>,
}

pub struct SummaryView {
    pub matched: nat,
    pub promoted: nat,
    pub executions: Seq<ExecutionView>,
    pub failures: Seq<StatusFailureView>,
}

impl View for TickSummary {
    type V = SummaryView;

    open spec fn view(&self) -> SummaryView {
        SummaryView {
            matched: self.matched as nat,
            promoted: self.promoted as nat,
            executions: self.executions@.map_values(|e: Execution| e@),
            failures: self.failures@.map_values(|f: StatusFailure| f@),
        }
    }
}

impl SummaryView {
    /// The summary of a pass over no orders.
    pub open spec fn empty() -> SummaryView {
        SummaryView { matched: 0, promoted: 0, executions: Seq::empty(), failures: Seq::empty() }
    }

    /// The summary after one more order: a fill that the store carried out
    /// counts as a match and leaves a record of the order as the store
    /// returned it; a promotion that it carried out counts as a promotion;
    /// a status change that it refused leaves a failure and counts as
    /// neither; an order left alone changes nothing.
    pub open spec fn settled(
        self,
        order: OrderView,
        decision: Decision,
        reply: Reply,
        px: DecimalView,
        ts: i64,
    ) -> SummaryView {
        match decision.target() {
            None => self,
            Some(status) => match reply {
                Reply::NotAsked => self,
                Reply::Done(updated) => if decision == Decision::Fill {
                    SummaryView {
                        matched: self.matched + 1,
                        executions: self.executions.push(execution_of(updated, px, ts)),
                        ..self
                    }
                } else {
                    SummaryView { promoted: self.promoted + 1, ..self }
                },
                Reply::Failed(error) => SummaryView {
                    failures: self.failures.push(
                        StatusFailureView { order_id: order.id, status, error },
                    ),
                    ..self
                },
            },
        }
    }
}

/// The summary of a pass over `orders` to which the store answered
/// `replies`, one reply for each order.
pub open spec fn tally(
    orders: Seq<OrderView>,
    replies: Seq<Reply>,
    px: DecimalView,
    ts: i64,
) -> SummaryView
    decreases orders.len(),
{
    if orders.len() == 0 || replies.len() != orders.len() {
        SummaryView::empty()
    } else {
        tally(orders.drop_last(), replies.drop_last(), px, ts).settled(
            orders.last(),
            decision(orders.last(), px),
            replies.last(),
            px,
            ts,
        )
    }
}

impl TickSummary {
    /// The summary of a pass over no orders.
    pub fn new() -> (s: TickSummary)
        ensures
            s@ == SummaryView::empty(),
    {
        let s = TickSummary {
            matched: 0,
            promoted: 0,
            executions: Vec::new(),
            failures: Vec::new(),
        };
        assert(s@.executions =~= Seq::empty());
        assert(s@.failures =~= Seq::empty());
        s
    }

    /// Takes in what the store answered when it was asked to set the status
    /// that `decision` calls for on `order`.
    pub fn settle(
        &mut self,
        order: &Order,
        decision: Decision,
        answer: Result<Order, String>,
        px: FixedDecimal,
        ts_ms: i64,
    )
        requires
            old(self).matched < usize::MAX,
            old(self).promoted < usize::MAX,
        ensures
            final(self)@ == old(self)@.settled(order@, decision, reply_of(answer), px@, ts_ms),
    {
        let ghost before = self@;
        match decision.status() {
            None => {},
            Some(status) => match answer {
                Ok(updated) => {
                    if decision == Decision::Fill {
                        self.matched = self.matched + 1;
                        self.executions.push(log_exec(&updated, px, ts_ms));
                        assert(self@.executions =~= before.executions.push(
                            execution_of(updated@, px@, ts_ms),
                        ));
                    } else {
                        self.promoted = self.promoted + 1;
                    }
                },
                Err(error) => {
                    let failure = StatusFailure { order_id: order.id.clone(), status, error };
                    self.failures.push(failure);
                    assert(self@.failures =~= before.failures.push(failure@));
                },
            },
        }
    }
}

/// Whether the store went from `before` to `after` in handling `order`: by
/// setting the status that the decision calls for where it answered with
/// the updated order, and not at all where it failed or was not asked. It
/// is asked exactly where the decision calls for a status.
pub open spec fn handled(
    before: Seq<OrderView>,
    after: Seq<OrderView>,
    order: OrderView,
    px: DecimalView,
    reply: Reply,
) -> bool {
    match decision(order, px).target() {
        None => reply == Reply::NotAsked && after == before,
        Some(status) => match reply {
            Reply::NotAsked => false,
            Reply::Done(updated) => status_set(before, after, order.id, status, updated),
            Reply::Failed(_) => after == before,
        },
    }
}

/// Whether step `k` of a pass is in order: `states[k]` is the store before
/// the order `k` is handled and `states[k + 1]` the store after.
pub open spec fn step_at(
    states: Seq<Seq<OrderView>>,
    orders: Seq<OrderView>,
    replies: Seq<Reply>,
    px: DecimalView,
    k: int,
) -> bool {
    handled(states[k], states[k + 1], orders[k], px, replies[k])
}

/// Whether `states` and `replies` tell a pass over `orders` that takes the
/// store from `start` to `end`: the orders are handled one after the other,
/// each on the store that the one before left.
pub open spec fn replayed(
    start: Seq<OrderView>,
    end: Seq<OrderView>,
    states: Seq<Seq<OrderView>>,
    orders: Seq<OrderView>,
    replies: Seq<Reply>,
    px: DecimalView,
) -> bool {
    &&& states.len() == orders.len() + 1
    &&& replies.len() == orders.len()
    &&& states[0] == start
    &&& states[orders.len() as int] == end
    &&& forall|k: int| 0 <= k < orders.len() ==> #[trigger] step_at(states, orders, replies, px, k)
}

/// Whether every refusal among `replies` is one for an identifier that no
/// order of `start` has. This is how a dependable store answers.
pub open spec fn fails_only_where_absent(
    start: Seq<OrderView>,
    orders: Seq<OrderView>,
    replies: Seq<Reply>,
) -> bool {
    forall|k: int|
        0 <= k < orders.len() && #[trigger] replies[k] is Failed ==> !contains_id(
            start,
            orders[k].id,
        )
}

/// Whether the order `k` of the pass has the identifier `id` and a decision
/// that calls for `status`.
pub open spec fn asks(
    orders: Seq<OrderView>,
    px: DecimalView,
    id: Seq<char>,
    status: OrderStatus,
    k: int,
) -> bool {
    0 <= k < orders.len() && orders[k].id == id && decision(orders[k], px).target() == Some(
        status,
    )
}

/// One pass over `orders` at the oracle price `px` of the moment `ts_ms`.
/// Each order is judged as it is given; the store is asked to fill the ones
/// that cross and to open the new ones that do not. A failure of the store
/// is noted and the pass goes on.
///
/// The store answers as it will, so the contract speaks of some sequence of
/// replies: the pass ran as `replayed` tells, and the summary is the `tally`
/// of these replies. Whatever the replies, no order enters or leaves the
/// store, none changes in what makes it that order, and one changes at all
/// only where an order of the pass with its identifier called for the
/// status it now has. A dependable store refuses only what names no order.
pub fn process_active_orders<R: OrderRepository>(
    repo: &mut R,
    orders: Vec<Order>,
    px: FixedDecimal,
    ts_ms: i64,
) -> (summary: TickSummary)
    requires
        unique_ids(old(repo).orders()),
    ensures
        unique_ids(final(repo).orders()),
        exists|states: Seq<Seq<OrderView>>, replies: Seq<Reply>|
            #[trigger] replayed(
                old(repo).orders(),
                final(repo).orders(),
                states,
                views(orders@),
                replies,
                px@,
            ) && summary@ == tally(views(orders@), replies, px@, ts_ms) && (old(
                repo,
            ).dependable() ==> fails_only_where_absent(
                old(repo).orders(),
                views(orders@),
                replies,
            )),
        final(repo).dependable() == old(repo).dependable(),
        final(repo).orders().len() == old(repo).orders().len(),
        forall|i: int|
            0 <= i < old(repo).orders().len() ==> (#[trigger] old(repo).orders()[i]).same_identity(
                final(repo).orders()[i],
            ),
        forall|i: int|
            0 <= i < old(repo).orders().len() && final(repo).orders()[i] != #[trigger] old(
                repo,
            ).orders()[i] ==> exists|k: int|
                asks(
                    views(orders@),
                    px@,
                    old(repo).orders()[i].id,
                    final(repo).orders()[i].status,
                    k,
                ),
        summary@.matched + summary@.promoted + summary@.failures.len() <= orders.len(),
        summary@.executions.len() == summary@.matched,
{
    let ghost start = repo.orders();
    let ghost dependable = repo.dependable();
    let ghost all = views(orders@);
    let ghost mut states: Seq<Seq<OrderView>> = seq![start];
    let ghost mut replies: Seq<Reply> = Seq::empty();
    let mut summary = TickSummary::new();
    let mut k: usize = 0;
    while k < orders.len()
        invariant
            k <= orders.len(),
            all == views(orders@),
            unique_ids(repo.orders()),
            states.len() == k + 1,
            replies.len() == k,
            states[0] == start,
            states[k as int] == repo.orders(),
            forall|j: int| 0 <= j < k ==> #[trigger] step_at(states, all, replies, px@, j),
            summary@ == tally(all.take(k as int), replies, px@, ts_ms),
            repo.orders().len() == start.len(),
            forall|i: int|
                0 <= i < start.len() ==> (#[trigger] start[i]).same_identity(repo.orders()[i]),
            forall|i: int|
                0 <= i < start.len() && repo.orders()[i] != #[trigger] start[i] ==> exists|
                    j: int,
                |
                    asks(all.take(k as int), px@, start[i].id, repo.orders()[i].status, j),
            summary@.matched + summary@.promoted + summary@.failures.len() <= k,
            summary@.executions.len() == summary@.matched,
            repo.dependable() == dependable,
            dependable ==> fails_only_where_absent(start, all.take(k as int), replies),
        decreases orders.len() - k,
    {
        let order = &orders[k];
        let ghost before = repo.orders();
        let ghost earlier = summary@;
        let ghost old_states = states;
        let ghost old_replies = replies;
        let decision = decide(order, px);
        assert(all[k as int] == order@);
        let ghost reply;
        match decision.status() {
            None => {
                proof {
                    reply = Reply::NotAsked;
                }
            },
            Some(status) => {
                let answer = repo.set_status(order.id.as_str(), status);
                proof {
                    reply = reply_of(answer);
                }
                summary.settle(order, decision, answer, px, ts_ms);
            },
        }
        proof {
            let after = repo.orders();
            replies = old_replies.push(reply);
            states = old_states.push(after);
            let prefix = all.take(k as int);
            let longer = all.take(k as int + 1);
            assert(longer.drop_last() =~= prefix);
            assert(replies.drop_last() =~= old_replies);
            assert(longer.last() == order@);
            assert(summary@ == tally(longer, replies, px@, ts_ms));
            assert(handled(before, after, order@, px@, reply));
            if dependable {
                assert forall|j: int| 0 <= j < longer.len() && #[trigger] replies[j]
                    is Failed implies !contains_id(start, longer[j].id) by {
                    if j < k {
                        assert(old_replies[j] is Failed);
                        assert(prefix[j] == longer[j]);
                    } else {
                        assert(!contains_id(before, order@.id));
                        if contains_id(start, order@.id) {
                            let i = choose|i: int| stored_at(start, order@.id, i);
                            assert(start[i].same_identity(before[i]));
                            assert(stored_at(before, order@.id, i));
                        }
                    }
                }
            }
            assert forall|j: int| 0 <= j < k + 1 implies #[trigger] step_at(
                states,
                all,
                replies,
                px@,
                j,
            ) by {
                if j < k {
                    assert(step_at(old_states, all, old_replies, px@, j));
                }
            }
            assert forall|i: int| 0 <= i < start.len() implies (#[trigger] start[i]).same_identity(
                after[i],
            ) by {
                assert(start[i].same_identity(before[i]));
            }
            assert forall|i: int|
                0 <= i < start.len() && after[i] != #[trigger] start[i] implies exists|j: int|
                asks(longer, px@, start[i].id, after[i].status, j) by {
                if after[i] == before[i] {
                    let j = choose|j: int| asks(prefix, px@, start[i].id, before[i].status, j);
                    assert(longer[j] == prefix[j]);
                    assert(asks(longer, px@, start[i].id, after[i].status, j));
                } else {
                    assert(start[i].same_identity(before[i]));
                    assert(asks(longer, px@, start[i].id, after[i].status, k as int));
                }
            }
        }
        k += 1;
    }
    proof {
        assert(all.take(k as int) =~= all);
        assert(replayed(start, repo.orders(), states, all, replies, px@));
    }
    summary
}

/// The summary of a pass in which the store carries out every status
/// change: one match and one record for each order that crosses, one
/// promotion for each new order that does not, no failure.
pub open spec fn outcome(orders: Seq<OrderView>, px: DecimalView, ts: i64) -> SummaryView
    decreases orders.len(),
{
    if orders.len() == 0 {
        SummaryView::empty()
    } else {
        let earlier = outcome(orders.drop_last(), px, ts);
        match decision(orders.last(), px) {
            Decision::Fill => SummaryView {
                matched: earlier.matched + 1,
                executions: earlier.executions.push(execution_of(orders.last(), px, ts)),
                ..earlier
            },
            Decision::Promote => SummaryView { promoted: earlier.promoted + 1, ..earlier },
            Decision::Leave => earlier,
        }
    }
}

/// Whether every order of the pass is an order of the store as it stands.
pub open spec fn taken_from(start: Seq<OrderView>, orders: Seq<OrderView>) -> bool {
    forall|k: int| 0 <= k < orders.len() ==> start.contains(#[trigger] orders[k])
}

/// Whether one of the first `m` orders of the pass has the identifier `id`.
pub open spec fn handled_before(orders: Seq<OrderView>, id: Seq<char>, m: int) -> bool {
    exists|k: int| 0 <= k < m && (#[trigger] orders[k]).id == id
}

/// The status that a pass at the price `px` leaves an order with, once the
/// store has carried out what the decision for it calls for.
pub open spec fn decided_status(order: OrderView, px: DecimalView) -> OrderStatus {
    match decision(order, px).target() {
        Some(status) => status,
        None => order.status,
    }
}

/// All through a pass the store holds the same orders at the same places:
/// only their status and their `updated` may differ from the start.
pub proof fn lemma_pass_keeps_identities(
    start: Seq<OrderView>,
    end: Seq<OrderView>,
    states: Seq<Seq<OrderView>>,
    orders: Seq<OrderView>,
    replies: Seq<Reply>,
    px: DecimalView,
    m: int,
)
    requires
        replayed(start, end, states, orders, replies, px),
        0 <= m <= orders.len(),
    ensures
        states[m].len() == start.len(),
        forall|i: int| 0 <= i < start.len() ==> (#[trigger] start[i]).same_identity(states[m][i]),
    decreases m,
{
    if m > 0 {
        lemma_pass_keeps_identities(start, end, states, orders, replies, px, m - 1);
        assert(step_at(states, orders, replies, px, m - 1));
        let before = states[m - 1];
        let after = states[m];
        assert(handled(before, after, orders[m - 1], px, replies[m - 1]));
        assert forall|i: int| 0 <= i < start.len() implies (#[trigger] start[i]).same_identity(
            after[i],
        ) by {
            assert(start[i].same_identity(before[i]));
        }
    }
}

/// What a pass over orders taken from a dependable store leaves of one
/// order of the store after its first `m` steps: the order as it was, where
/// none of these steps was for it; else the order with the status that the
/// decision for it calls for.
pub proof fn lemma_dependable_pass_settles(
    start: Seq<OrderView>,
    end: Seq<OrderView>,
    states: Seq<Seq<OrderView>>,
    orders: Seq<OrderView>,
    replies: Seq<Reply>,
    px: DecimalView,
    i: int,
    m: int,
)
    requires
        replayed(start, end, states, orders, replies, px),
        unique_ids(start),
        taken_from(start, orders),
        fails_only_where_absent(start, orders, replies),
        0 <= i < start.len(),
        0 <= m <= orders.len(),
    ensures
        start[i].same_identity(states[m][i]),
        !handled_before(orders, start[i].id, m) ==> states[m][i] == start[i],
        handled_before(orders, start[i].id, m) ==> states[m][i].status == decided_status(
            start[i],
            px,
        ),
        decision(start[i], px) == Decision::Leave ==> states[m][i] == start[i],
    decreases m,
{
    lemma_pass_keeps_identities(start, end, states, orders, replies, px, m);
    if m > 0 {
        let k = m - 1;
        lemma_dependable_pass_settles(start, end, states, orders, replies, px, i, k);
        lemma_pass_keeps_identities(start, end, states, orders, replies, px, k);
        assert(step_at(states, orders, replies, px, k));
        let before = states[k];
        let after = states[m];
        let order = orders[k];
        assert(handled(before, after, order, px, replies[k]));
        assert(start[i].same_identity(before[i]));
        if order.id == start[i].id {
            assert(handled_before(orders, start[i].id, m));
            assert(start.contains(order));
            let j = choose|j: int| 0 <= j < start.len() && start[j] == order;
            assert(j == i);
            assert(order == start[i]);
            match decision(order, px).target() {
                None => {
                    assert(after == before);
                },
                Some(status) => {
                    assert(stored_at(start, order.id, i));
                    assert(contains_id(start, order.id));
                    assert(!(replies[k] is Failed));
                    let updated = replies[k]->Done_0;
                    assert(status_set(before, after, order.id, status, updated));
                    let at = choose|at: int|
                        stored_at(before, order.id, at) && updated == before[at].with_status(
                            status,
                            updated.updated,
                        ) && after == before.update(at, updated);
                    assert(start[at].same_identity(before[at]));
                    assert(at == i);
                },
            }
        } else {
            assert(handled_before(orders, start[i].id, m) == handled_before(
                orders,
                start[i].id,
                k,
            )) by {
                if handled_before(orders, start[i].id, m) {
                    let w = choose|w: int| 0 <= w < m && (#[trigger] orders[w]).id == start[i].id;
                    assert(w < k);
                }
                if handled_before(orders, start[i].id, k) {
                    let w = choose|w: int| 0 <= w < k && (#[trigger] orders[w]).id == start[i].id;
                    assert(0 <= w < m && orders[w].id == start[i].id);
                }
            }
            assert(after[i] == before[i]) by {
                if after != before {
                    let status = decision(order, px).target()->Some_0;
                    let updated = replies[k]->Done_0;
                    let at = choose|at: int|
                        stored_at(before, order.id, at) && updated == before[at].with_status(
                            status,
                            updated.updated,
                        ) && after == before.update(at, updated);
                    assert(at != i);
                }
            }
        }
    } else {
        assert(!handled_before(orders, start[i].id, 0));
    }
}

/// The summary of a pass over orders taken from a dependable store is the
/// `outcome` of these orders: the store carries out every status change,
/// and each record of an execution is that of the order as it was listed.
pub proof fn lemma_dependable_pass_tally(
    start: Seq<OrderView>,
    end: Seq<OrderView>,
    states: Seq<Seq<OrderView>>,
    orders: Seq<OrderView>,
    replies: Seq<Reply>,
    px: DecimalView,
    ts: i64,
    m: int,
)
    requires
        replayed(start, end, states, orders, replies, px),
        unique_ids(start),
        taken_from(start, orders),
        fails_only_where_absent(start, orders, replies),
        0 <= m <= orders.len(),
    ensures
        tally(orders.take(m), replies.take(m), px, ts) == outcome(orders.take(m), px, ts),
    decreases m,
{
    if m > 0 {
        let k = m - 1;
        lemma_dependable_pass_tally(start, end, states, orders, replies, px, ts, k);
        lemma_pass_keeps_identities(start, end, states, orders, replies, px, k);
        assert(orders.take(m).drop_last() =~= orders.take(k));
        assert(replies.take(m).drop_last() =~= replies.take(k));
        assert(orders.take(m).last() == orders[k]);
        assert(replies.take(m).last() == replies[k]);
        assert(step_at(states, orders, replies, px, k));
        let before = states[k];
        let after = states[m];
        let order = orders[k];
        assert(handled(before, after, order, px, replies[k]));
        match decision(order, px).target() {
            None => {},
            Some(status) => {
                assert(start.contains(order));
                let i = choose|i: int| 0 <= i < start.len() && start[i] == order;
                assert(stored_at(start, order.id, i));
                assert(contains_id(start, order.id));
                assert(!(replies[k] is Failed));
                let updated = replies[k]->Done_0;
                let at = choose|at: int|
                    stored_at(before, order.id, at) && updated == before[at].with_status(
                        status,
                        updated.updated,
                    ) && after == before.update(at, updated);
                assert(start[at].same_identity(before[at]));
                assert(start[i].same_identity(before[i]));
                assert(at == i);
                assert(execution_of(updated, px, ts) == execution_of(order, px, ts));
            },
        }
    } else {
        assert(orders.take(0).len() == 0);
    }
}

} // verus!
