//! The oracle feed: the per-pair price cache and the client that fills it.

pub mod cache;
pub mod client;

pub use cache::{OracleCache, Tick, TickView};
pub use client::{
    build_url, Action, ActionView, Event, EventView, Frame, FrameView, OracleSession,
    OracleWsClient, Phase, SessionView,
};
