use vstd::prelude::*;
use vstd::string::*;

verus! {

/// Default wait before reconnecting, in milliseconds.
pub const RECONNECT_DELAY_MS: u64 = 5_000;

/// Address of the exchange's combined stream endpoint, without the streams.
pub const STREAM_BASE: &'static str = "wss://stream.binance.com:9443/stream?streams=";

/// Stream suffix that selects one-minute klines.
pub const KLINE_SUFFIX: &'static str = "@kline_1m";

/// Phase of the live feed's connection.
#[derive(Clone, Copy, Debug, PartialEq, Eq, Structural)]
pub enum FeedState {
    Idle,
    Connecting,
    Streaming,
    Reconnecting,
}

/// What happened to the live feed.
#[derive(Clone, Copy, Debug, PartialEq, Eq, Structural)]
pub enum FeedEvent {
    /// A configuration arrived while none was known.
    ConfigReceived,
    /// The connection is open.
    Connected,
    /// The exchange closed the stream.
    StreamClosed,
    /// Connecting, reading or writing failed.
    TransportError,
    /// A new configuration arrived while connected or connecting.
    ConfigChanged,
    /// The reconnect delay is over.
    DelayElapsed,
    /// The feed's input channel closed.
    ChannelClosed,
}

/// Why the feed asks the engine to reboot.
#[derive(Clone, Copy, Debug, PartialEq, Eq, Structural)]
pub enum RebootReason {
    Starting,
    Closed,
    Error,
}

impl RebootReason {
    pub fn label(&self) -> (r: &'static str)
        ensures
            *self == RebootReason::Starting ==> r@ == "ws starting"@,
            *self == RebootReason::Closed ==> r@ == "ws closed"@,
            *self == RebootReason::Error ==> r@ == "ws error"@,
    {
        match self {
            RebootReason::Starting => "ws starting",
            RebootReason::Closed => "ws closed",
            RebootReason::Error => "ws error",
        }
    }
}

/// What the driver of the feed must do, in this order: send the reboot,
/// sleep, connect, or stop.
#[derive(Clone, Copy, Debug, PartialEq, Eq, Structural)]
pub struct FeedStep {
    pub reboot: Option<RebootReason>,
    pub sleep_ms: Option<u64>,
    pub connect: bool,
    pub exit: bool,
}

/// The live feed's decisions: a state machine from events to steps.
#[derive(Clone, Copy, Debug)]
pub struct LiveFeed {
    state: FeedState,
    sent_start_reboot: bool,
    reconnect_delay_ms: u64,
}

pub open spec fn step_none() -> FeedStep {
    FeedStep { reboot: None, sleep_ms: None, connect: false, exit: false }
}

impl LiveFeed {
    pub closed spec fn spec_state(&self) -> FeedState {
        self.state
    }

    pub closed spec fn spec_started(&self) -> bool {
        self.sent_start_reboot
    }

    pub closed spec fn spec_delay(&self) -> u64 {
        self.reconnect_delay_ms
    }

    /// Idle, with the default reconnect delay.
    pub fn new() -> (r: Self)
        ensures
            r.spec_state() == FeedState::Idle,
            !r.spec_started(),
            r.spec_delay() == RECONNECT_DELAY_MS,
    {
        LiveFeed { state: FeedState::Idle, sent_start_reboot: false, reconnect_delay_ms: RECONNECT_DELAY_MS }
    }

    pub fn with_reconnect_delay(self, delay_ms: u64) -> (r: Self)
        ensures
            r.spec_state() == self.spec_state(),
            r.spec_started() == self.spec_started(),
            r.spec_delay() == delay_ms,
    {
        LiveFeed { reconnect_delay_ms: delay_ms, ..self }
    }

    pub fn state(&self) -> (r: FeedState)
        ensures
            r == self.spec_state(),
    {
        self.state
    }

    /// Decides what to do on `event`. The first configuration starts the feed
    /// with a reboot; a closed stream or a transport error asks for a reboot and
    /// a delayed reconnect; a configuration change only reconnects, without a
    /// reboot (the engine re-warms on its own configuration message); a closed
    /// channel stops the feed. Events that do not fit the state change nothing.
    pub fn on_event(&mut self, event: FeedEvent) -> (r: FeedStep)
        ensures
            final(self).spec_delay() == old(self).spec_delay(),
            event == FeedEvent::ChannelClosed ==> r == (FeedStep { exit: true, ..step_none() })
                && final(self).spec_state() == FeedState::Idle,
            event == FeedEvent::ConfigReceived && old(self).spec_state() == FeedState::Idle ==> {
                &&& final(self).spec_state() == FeedState::Connecting
                &&& final(self).spec_started()
                &&& r == (FeedStep {
                    reboot: if old(self).spec_started() { None } else { Some(RebootReason::Starting) },
                    connect: true,
                    ..step_none()
                })
            },
            event == FeedEvent::Connected && old(self).spec_state() == FeedState::Connecting ==> r
                == step_none() && final(self).spec_state() == FeedState::Streaming,
            (event == FeedEvent::StreamClosed || event == FeedEvent::TransportError) && (old(
                self,
            ).spec_state() == FeedState::Streaming || old(self).spec_state() == FeedState::Connecting)
                ==> {
                &&& final(self).spec_state() == FeedState::Reconnecting
                &&& r == (FeedStep {
                    reboot: Some(
                        if event == FeedEvent::StreamClosed {
                            RebootReason::Closed
                        } else {
                            RebootReason::Error
                        },
                    ),
                    sleep_ms: Some(old(self).spec_delay()),
                    ..step_none()
                })
            },
            event == FeedEvent::ConfigChanged && (old(self).spec_state() == FeedState::Streaming
                || old(self).spec_state() == FeedState::Connecting) ==> {
                &&& final(self).spec_state() == FeedState::Reconnecting
                &&& r == (FeedStep { sleep_ms: Some(old(self).spec_delay()), ..step_none() })
            },
            event == FeedEvent::DelayElapsed && old(self).spec_state() == FeedState::Reconnecting
                ==> r == (FeedStep { connect: true, ..step_none() }) && final(self).spec_state()
                == FeedState::Connecting,
            event == FeedEvent::ConfigChanged ==> r.reboot is None,
    {
        let none = FeedStep { reboot: None, sleep_ms: None, connect: false, exit: false };
        match (self.state, event) {
            (_, FeedEvent::ChannelClosed) => {
                self.state = FeedState::Idle;
                FeedStep { exit: true, ..none }
            },
            (FeedState::Idle, FeedEvent::ConfigReceived) => {
                let reboot = if self.sent_start_reboot { None } else { Some(RebootReason::Starting) };
                self.sent_start_reboot = true;
                self.state = FeedState::Connecting;
                FeedStep { reboot, connect: true, ..none }
            },
            (FeedState::Connecting, FeedEvent::Connected) => {
                self.state = FeedState::Streaming;
                none
            },
            (FeedState::Streaming, FeedEvent::StreamClosed)
            | (FeedState::Connecting, FeedEvent::StreamClosed) => {
                self.state = FeedState::Reconnecting;
                FeedStep { reboot: Some(RebootReason::Closed), sleep_ms: Some(self.reconnect_delay_ms), ..none }
            },
            (FeedState::Streaming, FeedEvent::TransportError)
            | (FeedState::Connecting, FeedEvent::TransportError) => {
                self.state = FeedState::Reconnecting;
                FeedStep { reboot: Some(RebootReason::Error), sleep_ms: Some(self.reconnect_delay_ms), ..none }
            },
            (FeedState::Streaming, FeedEvent::ConfigChanged)
            | (FeedState::Connecting, FeedEvent::ConfigChanged) => {
                self.state = FeedState::Reconnecting;
                FeedStep { sleep_ms: Some(self.reconnect_delay_ms), ..none }
            },
            (FeedState::Reconnecting, FeedEvent::DelayElapsed) => {
                self.state = FeedState::Connecting;
                FeedStep { connect: true, ..none }
            },
            _ => none,
        }
    }
}

/// What `str::to_lowercase` makes of a text.
pub uninterp spec fn lower_of(s: Seq<char>) -> Seq<char>;

/// Relies on str::to_lowercase: the lowercase form depends on the characters alone.
#[verifier::external_body]
fn lowercase(s: &str) -> (r: String)
    ensures
        r@ == lower_of(s@),
{
    s.to_lowercase()
}

/// The stream names of `lowered` pairs joined by `/`, after the base address.
pub open spec fn joined_streams(lowered: Seq<Seq<char>>) -> Seq<char>
    decreases lowered.len(),
{
    if lowered.len() == 0 {
        Seq::empty()
    } else if lowered.len() == 1 {
        lowered[0] + KLINE_SUFFIX@
    } else {
        joined_streams(lowered.drop_last()) + seq!['/'] + lowered.last() + KLINE_SUFFIX@
    }
}

/// Why no stream address could be built.
#[derive(Debug, Clone, Copy, PartialEq, Eq, Structural)]
pub enum WsError {
    /// The configuration lists no pair.
    EmptyPairs,
}

/// The combined-stream address for pairs already in lowercase.
pub fn stream_url_from_lowered(lowered: &Vec<String>) -> (r: Result<String, WsError>)
    ensures
        lowered@.len() == 0 ==> r == Err::<String, WsError>(WsError::EmptyPairs),
        lowered@.len() > 0 ==> (r matches Ok(u) && u@ == STREAM_BASE@ + joined_streams(
            crate::config::views(lowered@),
        )),
{
    if lowered.len() == 0 {
        return Err(WsError::EmptyPairs);
    }
    let mut url = String::from_str(STREAM_BASE);
    let mut i: usize = 0;
    while i < lowered.len()
        invariant
            i <= lowered@.len(),
            lowered@.len() > 0,
            url@ == STREAM_BASE@ + joined_streams(crate::config::views(lowered@.subrange(0, i as int))),
        decreases lowered@.len() - i,
    {
        let ghost before = url@;
        if i > 0 {
            url.append("/");
        }
        url.append(lowered[i].as_str());
        url.append(KLINE_SUFFIX);
        proof {
            reveal_strlit("/");
            let vs = crate::config::views(lowered@.subrange(0, i + 1));
            assert(vs.drop_last() =~= crate::config::views(lowered@.subrange(0, i as int)));
            assert(vs.last() == lowered@[i as int]@);
            if i == 0 {
                assert(crate::config::views(lowered@.subrange(0, 0)).len() == 0);
                assert(url@ =~= STREAM_BASE@ + joined_streams(vs));
            } else {
                assert(url@ =~= STREAM_BASE@ + joined_streams(vs));
            }
        }
        i = i + 1;
    }
    proof {
        assert(lowered@.subrange(0, lowered@.len() as int) =~= lowered@);
    }
    Ok(url)
}

/// The combined-stream address of the configured pairs, each in lowercase.
pub fn build_stream_url(pairs: &[String]) -> (r: Result<String, WsError>)
    ensures
        pairs@.len() == 0 ==> r == Err::<String, WsError>(WsError::EmptyPairs),
        pairs@.len() > 0 ==> (r matches Ok(u) && u@ == STREAM_BASE@ + joined_streams(
            crate::config::views(pairs@).map_values(|p: Seq<char>| lower_of(p)),
        )),
{
    let mut lowered: Vec<String> = Vec::new();
    let mut i: usize = 0;
    while i < pairs.len()
        invariant
            i <= pairs@.len(),
            crate::config::views(lowered@) == crate::config::views(pairs@.subrange(0, i as int)).map_values(
                |p: Seq<char>| lower_of(p),
            ),
        decreases pairs@.len() - i,
    {
        let l = lowercase(pairs[i].as_str());
        let ghost before = lowered@;
        lowered.push(l);
        proof {
            let target = crate::config::views(pairs@.subrange(0, i + 1)).map_values(
                |p: Seq<char>| lower_of(p),
            );
            let got = crate::config::views(lowered@);
            assert(crate::config::views(before).len() == before.len());
            assert(crate::config::views(pairs@.subrange(0, i as int)).len() == i);
            assert(before.len() == i);
            assert(got.len() == target.len());
            assert forall|k: int| 0 <= k < got.len() implies got[k] == target[k] by {
                if k < i {
                    assert(lowered@[k] == before[k]);
                    assert(crate::config::views(before)[k] == crate::config::views(pairs@.subrange(0, i as int)).map_values(
                        |p: Seq<char>| lower_of(p),
                    )[k]);
                } else {
                    assert(lowered@[k] == l);
                }
            }
            assert(crate::config::views(lowered@) =~= crate::config::views(pairs@.subrange(0, i + 1)).map_values(
                |p: Seq<char>| lower_of(p),
            ));
        }
        i = i + 1;
    }
    proof {
        assert(pairs@.subrange(0, pairs@.len() as int) =~= pairs@);
    }
    stream_url_from_lowered(&lowered)
}

} // verus!
