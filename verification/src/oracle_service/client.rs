//! The oracle client: a session with the streaming endpoint that survives
//! failures.
//!
//! The session is a state machine. Whoever owns the socket performs the
//! action the session asks for (connect, read a frame, answer a ping, sleep),
//! reports what happened as an event, and gets the next action back. Ticks
//! that arrive go into the price cache; every way out of a connection leads
//! through a wait that doubles from failure to failure up to a cap, and a
//! successful connect brings the wait back to where it started.

use crate::oracle_service::cache::{OracleCache, Tick, TickView};
use vstd::prelude::*;
use vstd::utf8::encode_utf8;

verus! {

/// The longest endpoint, and the longest symbol, that `build_url` takes, in
/// bytes.
pub const MAX_URL_PART_BYTES: usize = 0x0100_0000;

/// What `url::Url::parse` on `base`, `query_pairs_mut().append_pair(name,
/// value)` on the parsed URL, and its serialization give: the normalized URL
/// with the pair added to its query, or `None` where `base` is no URL.
pub uninterp spec fn url_with_query_pair(
    base: Seq<char>,
    name: Seq<char>,
    value: Seq<char>,
) -> Option<Seq<char>>;

/// `url::Url::parse`, then `query_pairs_mut().append_pair` on the parsed URL,
/// then its serialization as a `String`. The result depends on the three
/// strings alone. The crate keeps its offsets into the serialization in 32
/// bits and panics, in `query_pairs_mut` and when the fragment is put back,
/// where the serialization has outgrown them. Parsing and encoding lengthen
/// a string by a small factor at most (three bytes for one in
/// percent-encoding), so strings of at most 16 MiB stay far below 4 GiB; the
/// precondition admits no others.
#[verifier::external_body]
fn append_query_pair(base: &str, name: &str, value: &str) -> (r: Option<String>)
    requires
        encode_utf8(base@).len() <= MAX_URL_PART_BYTES,
        encode_utf8(name@).len() <= MAX_URL_PART_BYTES,
        encode_utf8(value@).len() <= MAX_URL_PART_BYTES,
    ensures
        match r {
            Some(url) => url_with_query_pair(base@, name@, value@) == Some(url@),
            None => url_with_query_pair(base@, name@, value@) is None,
        },
{
    let mut url = url::Url::parse(base).ok()?;
    url.query_pairs_mut().append_pair(name, value);
    Some(url.into())
}

/// The address to connect to: `base` itself without a filter; with a filter,
/// `base` as a URL with `pair=<symbol>` added to its query. `None` where a
/// filter is wanted and `base` is no URL, or either string is longer than
/// `MAX_URL_PART_BYTES`.
pub open spec fn built_url(base: Seq<char>, pair: Option<Seq<char>>) -> Option<Seq<char>> {
    match pair {
        None => Some(base),
        Some(symbol) => if encode_utf8(base).len() <= MAX_URL_PART_BYTES && encode_utf8(
            symbol,
        ).len() <= MAX_URL_PART_BYTES {
            url_with_query_pair(base, "pair"@, symbol)
        } else {
            None
        },
    }
}

/// The address of the stream: see `built_url`.
pub fn build_url(base: &str, pair: Option<&str>) -> (r: Option<String>)
    ensures
        match r {
            Some(url) => built_url(base@, view_of(pair)) == Some(url@),
            None => built_url(base@, view_of(pair)) is None,
        },
{
    match pair {
        None => Some(base.to_owned()),
        Some(symbol) => {
            if base.as_bytes().len() <= MAX_URL_PART_BYTES && symbol.as_bytes().len()
                <= MAX_URL_PART_BYTES {
                proof {
                    reveal_strlit("pair");
                    assert(encode_utf8("pair"@).len() <= MAX_URL_PART_BYTES) by {
                        lemma_short_text("pair"@);
                    }
                }
                append_query_pair(base, "pair", symbol)
            } else {
                None
            }
        },
    }
}

/// The characters of an optional string slice.
pub open spec fn view_of(s: Option<&str>) -> Option<Seq<char>> {
    match s {
        Some(t) => Some(t@),
        None => None,
    }
}

/// A text encodes to at most four bytes for each of its characters.
proof fn lemma_short_text(text: Seq<char>)
    ensures
        encode_utf8(text).len() <= 4 * text.len(),
    decreases text.len(),
{
    reveal_with_fuel(encode_utf8, 2);
    if text.len() > 0 {
        lemma_short_text(text.drop_first());
    }
}

/// How to reach the oracle.
#[derive(Debug)]
pub struct OracleWsClient {
    /// The address of the streaming endpoint.
    pub endpoint: String,
    /// The one pair to subscribe to; all pairs where `None`.
    pub pair: Option<String>,
    /// The wait before the first reconnect, in milliseconds.
    pub reconnect_backoff: u64,
    /// The longest wait between two attempts, in milliseconds.
    pub max_backoff: u64,
}

impl Default for OracleWsClient {
    /// The local oracle, all pairs, waits from 2 s up to 30 s.
    fn default() -> (r: OracleWsClient)
        ensures
            r.endpoint@ == "ws://127.0.0.1:9001/ws"@,
            r.pair is None,
            r.reconnect_backoff == 2_000,
            r.max_backoff == 30_000,
    {
        OracleWsClient {
            endpoint: "ws://127.0.0.1:9001/ws".to_owned(),
            pair: None,
            reconnect_backoff: 2_000,
            max_backoff: 30_000,
        }
    }
}

/// Where a session stands.
#[derive(Debug, Clone, Copy, PartialEq, Eq, Structural)]
pub enum Phase {
    /// No connection; the next thing to do is to connect.
    Disconnected,
    /// Connected; the next thing to do is to read a frame.
    Connected,
    /// A connection was lost or refused; the next thing to do is to wait.
    WaitingBackoff,
}

/// A frame of the stream.
#[derive(Debug)]
pub enum Frame {
    /// A text frame, with the tick it decodes to, if it decodes to one.
    Text(Option<Tick>),
    /// A binary frame.
    Binary,
    /// A ping, with its payload.
    Ping(Vec<u8>),
    /// The server closes the stream.
    Close,
    /// Any other frame.
    Other,
}

/// What the owner of the socket reports.
#[derive(Debug)]
pub enum Event {
    /// The connection stands.
    ConnectOk,
    /// The connection could not be made.
    ConnectFailed,
    /// A frame was read.
    Frame(Frame),
    /// Reading failed.
    ReadFailed,
    /// The stream ended without a close frame.
    StreamEnded,
    /// The wait is over.
    BackoffElapsed,
}

/// What the owner of the socket is to do next.
#[derive(Debug)]
pub enum Action {
    /// Connect to this address.
    Connect(String),
    /// Read the next frame.
    Read,
    /// Answer a ping with a pong of the same payload, then read on.
    Pong(Vec<u8>),
    /// Wait this many milliseconds.
    Sleep(u64),
}

pub enum FrameView {
    Text(Option<TickView>),
    Binary,
    Ping(Seq<u8>),
    Close,
    Other,
}

pub enum EventView {
    ConnectOk,
    ConnectFailed,
    Frame(FrameView),
    ReadFailed,
    StreamEnded,
    BackoffElapsed,
}

pub enum ActionView {
    Connect(Seq<char>),
    Read,
    Pong(Seq<u8>),
    Sleep(u64),
}

impl View for Frame {
    type V = FrameView;

    open spec fn view(&self) -> FrameView {
        match self {
            Frame::Text(Some(tick)) => FrameView::Text(Some(tick@)),
            Frame::Text(None) => FrameView::Text(None),
            Frame::Binary => FrameView::Binary,
            Frame::Ping(payload) => FrameView::Ping(payload@),
            Frame::Close => FrameView::Close,
            Frame::Other => FrameView::Other,
        }
    }
}

impl View for Event {
    type V = EventView;

    open spec fn view(&self) -> EventView {
        match self {
            Event::ConnectOk => EventView::ConnectOk,
            Event::ConnectFailed => EventView::ConnectFailed,
            Event::Frame(frame) => EventView::Frame(frame@),
            Event::ReadFailed => EventView::ReadFailed,
            Event::StreamEnded => EventView::StreamEnded,
            Event::BackoffElapsed => EventView::BackoffElapsed,
        }
    }
}

impl View for Action {
    type V = ActionView;

    open spec fn view(&self) -> ActionView {
        match self {
            Action::Connect(url) => ActionView::Connect(url@),
            Action::Read => ActionView::Read,
            Action::Pong(payload) => ActionView::Pong(payload@),
            Action::Sleep(ms) => ActionView::Sleep(*ms),
        }
    }
}

/// The wait that follows a wait of `backoff`: twice as long, but no longer
/// than `max`.
pub open spec fn next_backoff(backoff: u64, max: u64) -> u64 {
    if 2 * backoff <= max {
        (2 * backoff) as u64
    } else {
        max
    }
}

/// The state of a session.
pub struct SessionView {
    /// The address every attempt connects to.
    pub url: Seq<char>,
    /// The wait after the first failure that follows a successful connect.
    pub initial_backoff: u64,
    /// The longest wait.
    pub max_backoff: u64,
    /// The wait after the next failure.
    pub backoff: u64,
    pub phase: Phase,
}

impl SessionView {
    /// The action that the phase calls for.
    pub open spec fn pending(self) -> ActionView {
        match self.phase {
            Phase::Disconnected => ActionView::Connect(self.url),
            Phase::Connected => ActionView::Read,
            Phase::WaitingBackoff => ActionView::Sleep(self.backoff),
        }
    }

    /// Whether `event` ends the connection: the server closes, reading
    /// fails, or the stream ends.
    pub open spec fn drops(event: EventView) -> bool {
        event == EventView::Frame(FrameView::Close) || event == EventView::ReadFailed || event
            == EventView::StreamEnded
    }

    /// The state after `event`. A successful connect resets the wait; a
    /// failed connect and every end of a connection lead into the wait; the
    /// end of the wait doubles the next one, up to the cap. Frames other
    /// than a close leave the state as it is, and so does an event that the
    /// phase does not expect.
    pub open spec fn step(self, event: EventView) -> SessionView {
        match self.phase {
            Phase::Disconnected => if event == EventView::ConnectOk {
                SessionView { phase: Phase::Connected, backoff: self.initial_backoff, ..self }
            } else if event == EventView::ConnectFailed {
                SessionView { phase: Phase::WaitingBackoff, ..self }
            } else {
                self
            },
            Phase::Connected => if Self::drops(event) {
                SessionView { phase: Phase::WaitingBackoff, ..self }
            } else {
                self
            },
            Phase::WaitingBackoff => if event == EventView::BackoffElapsed {
                SessionView {
                    phase: Phase::Disconnected,
                    backoff: next_backoff(self.backoff, self.max_backoff),
                    ..self
                }
            } else {
                self
            },
        }
    }

    /// The tick that `event` puts into the cache: the one a text frame
    /// decodes to, while connected.
    pub open spec fn publishes(self, event: EventView) -> Option<TickView> {
        match event {
            EventView::Frame(FrameView::Text(Some(tick))) => if self.phase == Phase::Connected {
                Some(tick)
            } else {
                None
            },
            _ => None,
        }
    }

    /// The action that answers `event`: a pong for a ping while connected,
    /// else what the new phase calls for.
    pub open spec fn reply(self, event: EventView) -> ActionView {
        match event {
            EventView::Frame(FrameView::Ping(payload)) => if self.phase == Phase::Connected {
                ActionView::Pong(payload)
            } else {
                self.step(event).pending()
            },
            _ => self.step(event).pending(),
        }
    }

    /// The cache after `event`.
    pub open spec fn cache_after(self, event: EventView, cache: Map<Seq<char>, TickView>) -> Map<
        Seq<char>,
        TickView,
    > {
        match self.publishes(event) {
            Some(tick) => cache.insert(tick.pair, tick),
            None => cache,
        }
    }
}

/// A session with the oracle.
#[derive(Debug)]
pub struct OracleSession {
    url: String,
    initial_backoff: u64,
    max_backoff: u64,
    backoff: u64,
    phase: Phase,
}

impl View for OracleSession {
    type V = SessionView;

    closed spec fn view(&self) -> SessionView {
        SessionView {
            url: self.url@,
            initial_backoff: self.initial_backoff,
            max_backoff: self.max_backoff,
            backoff: self.backoff,
            phase: self.phase,
        }
    }
}

impl OracleWsClient {
    /// The characters of the pair filter.
    pub open spec fn pair_view(self) -> Option<Seq<char>> {
        match self.pair {
            Some(symbol) => Some(symbol@),
            None => None,
        }
    }

    /// Opens a session: disconnected, about to connect to the address that
    /// `build_url` gives, with the first wait at `reconnect_backoff`. `None`
    /// where `build_url` gives no address.
    pub fn spawn(self) -> (r: Option<OracleSession>)
        ensures
            match r {
                Some(session) => built_url(self.endpoint@, self.pair_view()) == Some(
                    session@.url,
                ) && session@ == (SessionView {
                    url: session@.url,
                    initial_backoff: self.reconnect_backoff,
                    max_backoff: self.max_backoff,
                    backoff: self.reconnect_backoff,
                    phase: Phase::Disconnected,
                }),
                None => built_url(self.endpoint@, self.pair_view()) is None,
            },
    {
        let built = match &self.pair {
            Some(symbol) => build_url(self.endpoint.as_str(), Some(symbol.as_str())),
            None => build_url(self.endpoint.as_str(), None),
        };
        match built {
            Some(url) => Some(
                OracleSession {
                    url,
                    initial_backoff: self.reconnect_backoff,
                    max_backoff: self.max_backoff,
                    backoff: self.reconnect_backoff,
                    phase: Phase::Disconnected,
                },
            ),
            None => None,
        }
    }
}

impl OracleSession {
    /// Where the session stands.
    pub fn phase(&self) -> (p: Phase)
        ensures
            p == self@.phase,
    {
        self.phase
    }

    /// The wait after the next failure, in milliseconds.
    pub fn backoff(&self) -> (ms: u64)
        ensures
            ms == self@.backoff,
    {
        self.backoff
    }

    /// The address every attempt connects to.
    pub fn url(&self) -> (u: &str)
        ensures
            u@ == self@.url,
    {
        self.url.as_str()
    }

    /// The action that the phase calls for. A session starts with it.
    pub fn pending(&self) -> (action: Action)
        ensures
            action@ == self@.pending(),
    {
        match self.phase {
            Phase::Disconnected => Action::Connect(self.url.clone()),
            Phase::Connected => Action::Read,
            Phase::WaitingBackoff => Action::Sleep(self.backoff),
        }
    }

    /// Takes in what happened and says what to do next. A tick that a text
    /// frame decoded to goes into the cache; a text frame that decoded to
    /// nothing, like every other event, leaves the cache as it is.
    pub fn on_event(&mut self, event: Event, cache: &mut OracleCache) -> (action: Action)
        ensures
            final(self)@ == old(self)@.step(event@),
            action@ == old(self)@.reply(event@),
            final(cache)@ == old(self)@.cache_after(event@, old(cache)@),
    {
        match self.phase {
            Phase::Disconnected => match event {
                Event::ConnectOk => {
                    self.phase = Phase::Connected;
                    self.backoff = self.initial_backoff;
                },
                Event::ConnectFailed => {
                    self.phase = Phase::WaitingBackoff;
                },
                _ => {},
            },
            Phase::Connected => match event {
                Event::Frame(Frame::Text(Some(tick))) => {
                    cache.set(tick);
                },
                Event::Frame(Frame::Ping(payload)) => {
                    return Action::Pong(payload);
                },
                Event::Frame(Frame::Close) | Event::ReadFailed | Event::StreamEnded => {
                    self.phase = Phase::WaitingBackoff;
                },
                _ => {},
            },
            Phase::WaitingBackoff => match event {
                Event::BackoffElapsed => {
                    self.phase = Phase::Disconnected;
                    self.backoff = double_capped(self.backoff, self.max_backoff);
                },
                _ => {},
            },
        }
        self.pending()
    }
}

/// Twice `backoff`, capped at `max`.
pub fn double_capped(backoff: u64, max: u64) -> (r: u64)
    ensures
        r == next_backoff(backoff, max),
{
    if backoff <= max / 2 {
        backoff * 2
    } else {
        max
    }
}

/// The state after a sequence of events.
pub open spec fn run(start: SessionView, events: Seq<EventView>) -> SessionView
    decreases events.len(),
{
    if events.len() == 0 {
        start
    } else {
        run(start, events.drop_last()).step(events.last())
    }
}

/// The waits that a sequence of events is answered with, in order: the
/// length of each `Sleep` among the replies.
pub open spec fn waits(start: SessionView, events: Seq<EventView>) -> Seq<u64>
    decreases events.len(),
{
    if events.len() == 0 {
        Seq::empty()
    } else {
        let earlier = waits(start, events.drop_last());
        match run(start, events.drop_last()).reply(events.last()) {
            ActionView::Sleep(ms) => earlier.push(ms),
            _ => earlier,
        }
    }
}

/// No event changes the address or the two limits of a session.
pub proof fn lemma_configuration_is_kept(start: SessionView, events: Seq<EventView>)
    ensures
        run(start, events).url == start.url,
        run(start, events).initial_backoff == start.initial_backoff,
        run(start, events).max_backoff == start.max_backoff,
    decreases events.len(),
{
    if events.len() > 0 {
        lemma_configuration_is_kept(start, events.drop_last());
    }
}

/// Where the first wait is no longer than the cap, no wait ever is:
/// whatever happens, the session never asks for a wait above `max_backoff`,
/// and the wait it keeps for the next failure stays within the cap too.
pub proof fn lemma_waits_never_exceed_cap(start: SessionView, events: Seq<EventView>)
    requires
        start.initial_backoff <= start.max_backoff,
        start.backoff <= start.max_backoff,
    ensures
        run(start, events).backoff <= start.max_backoff,
        forall|i: int|
            0 <= i < waits(start, events).len() ==> #[trigger] waits(start, events)[i]
                <= start.max_backoff,
    decreases events.len(),
{
    if events.len() > 0 {
        let earlier = events.drop_last();
        lemma_waits_never_exceed_cap(start, earlier);
        lemma_configuration_is_kept(start, earlier);
        let before = waits(start, earlier);
        let after = waits(start, events);
        assert forall|i: int| 0 <= i < after.len() implies #[trigger] after[i]
            <= start.max_backoff by {
            if i < before.len() {
                assert(after[i] == before[i]);
            }
        }
    }
}

/// From failure to failure the wait never shrinks: as long as no connect
/// succeeds, each wait is at least as long as the one before it, none is
/// shorter than the wait the session started with, and none is longer than
/// the cap.
pub proof fn lemma_waits_grow_between_failures(start: SessionView, events: Seq<EventView>)
    requires
        start.backoff <= start.max_backoff,
        forall|k: int| 0 <= k < events.len() ==> events[k] != EventView::ConnectOk,
    ensures
        start.backoff <= run(start, events).backoff <= start.max_backoff,
        forall|i: int|
            0 <= i < waits(start, events).len() ==> start.backoff <= #[trigger] waits(
                start,
                events,
            )[i] <= run(start, events).backoff,
        forall|i: int, j: int|
            0 <= i <= j < waits(start, events).len() ==> waits(start, events)[i] <= waits(
                start,
                events,
            )[j],
    decreases events.len(),
{
    if events.len() > 0 {
        let earlier = events.drop_last();
        assert forall|k: int| 0 <= k < earlier.len() implies earlier[k]
            != EventView::ConnectOk by {
            assert(earlier[k] == events[k]);
        }
        lemma_waits_grow_between_failures(start, earlier);
        lemma_configuration_is_kept(start, earlier);
        assert(events.last() == events[events.len() - 1]);
        let before = waits(start, earlier);
        let after = waits(start, events);
        let end = run(start, events);
        assert forall|i: int| 0 <= i < after.len() implies start.backoff <= #[trigger] after[i]
            <= end.backoff by {
            if i < before.len() {
                assert(after[i] == before[i]);
            }
        }
        assert forall|i: int, j: int| 0 <= i <= j < after.len() implies after[i] <= after[j] by {
            if j < before.len() {
                assert(after[i] == before[i]);
                assert(after[j] == before[j]);
            } else if i < before.len() {
                assert(after[i] == before[i]);
            }
        }
    }
}

/// A successful connect brings the wait back: the session then keeps
/// `initial_backoff` for the next failure, and the first wait after the
/// connect, if the connection is lost before another connect succeeds, is
/// exactly that long.
pub proof fn lemma_connect_resets_wait(before: SessionView, events: Seq<EventView>)
    requires
        before.phase == Phase::Disconnected,
        forall|k: int| 0 <= k < events.len() ==> events[k] != EventView::ConnectOk,
    ensures
        before.step(EventView::ConnectOk).phase == Phase::Connected,
        before.step(EventView::ConnectOk).backoff == before.initial_backoff,
        waits(before.step(EventView::ConnectOk), events).len() > 0 ==> waits(
            before.step(EventView::ConnectOk),
            events,
        )[0] == before.initial_backoff,
        waits(before.step(EventView::ConnectOk), events).len() == 0 ==> run(
            before.step(EventView::ConnectOk),
            events,
        ) == before.step(EventView::ConnectOk),
    decreases events.len(),
{
    if events.len() > 0 {
        let earlier = events.drop_last();
        assert forall|k: int| 0 <= k < earlier.len() implies earlier[k]
            != EventView::ConnectOk by {
            assert(earlier[k] == events[k]);
        }
        lemma_connect_resets_wait(before, earlier);
        assert(events.last() == events[events.len() - 1]);
    }
}

} // verus!
