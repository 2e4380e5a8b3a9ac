//! The matcher: on every tick, the live orders of an asset are held against
//! the latest oracle price. An order whose limit crosses the price is
//! filled; a new order that does not cross is opened; every other order is
//! left alone.

pub mod matching;
pub mod worker;

pub use matching::{
    crosses, decide, log_exec, process_active_orders, Decision, Execution, ExecutionView,
    Reply, StatusFailure, StatusFailureView, SummaryView, TickSummary,
};
pub use worker::{
    collect_active_orders, start_matchers, ActiveOrders, ListFailure, MatcherWorker,
    TickReport, WorkerView,
};
