//! The streaming-connection policy: the reconnect state machine with its
//! backoff and give-up rule, and the routing of inbound messages.
//!
//! The machine counts consecutive failed connection attempts; each failure
//! schedules a retry after `failures * 5 + 1` seconds, and the fifth
//! consecutive failure gives up for good. The transport work itself (the
//! socket, the timers) lives with the caller, which feeds events in and
//! performs the returned actions.
use vstd::prelude::*;

verus! {

/// Number of consecutive failed connection attempts after which the
/// connection gives up for good.
pub const MAX_ATTEMPTS: u8 = 5;

/// The phase of the streaming connection.
#[derive(Clone, Copy, Debug, PartialEq, Eq, Structural)]
pub enum ConnPhase {
    Disconnected,
    Connecting,
    Connected,
    GivenUp,
}

/// The connection manager's state: the phase and the count of consecutive
/// failed connection attempts.
#[derive(Clone, Copy, Debug, PartialEq, Eq, Structural)]
pub struct StreamConnection {
    pub phase: ConnPhase,
    pub failures: u8,
}

/// What happened to the transport.
#[derive(Clone, Copy, Debug, PartialEq, Eq, Structural)]
pub enum ConnEvent {
    BeginConnect,
    EndpointConnected,
    EndpointsExhausted,
    ConnectionFailed,
}

/// What the owner of the connection must do next.
#[derive(Clone, Copy, Debug, PartialEq, Eq, Structural)]
pub enum ConnAction {
    Idle,
    Subscribe,
    RetryAfter(u64),
    Shutdown,
}

/// The state after one more failed attempt, and the action it demands: a
/// retry after the backoff delay, or the fatal shutdown once `MAX_ATTEMPTS`
/// consecutive attempts have failed.
pub open spec fn spec_conn_fail(s: StreamConnection) -> (StreamConnection, ConnAction) {
    let f = if s.failures < 255 {
        (s.failures + 1) as u8
    } else {
        255u8
    };
    if f >= MAX_ATTEMPTS {
        (StreamConnection { phase: ConnPhase::GivenUp, failures: f }, ConnAction::Shutdown)
    } else {
        (
            StreamConnection { phase: ConnPhase::Disconnected, failures: f },
            ConnAction::RetryAfter((f * 5 + 1) as u64),
        )
    }
}

/// The step relation of the connection machine. A given-up connection
/// ignores every event: there is no further attempt. A successful endpoint
/// connection resets the failure count and demands the subscription message.
/// Exhausting all endpoints counts as one failed attempt, as does any
/// failure while connected.
pub open spec fn spec_conn_step(s: StreamConnection, ev: ConnEvent) -> (StreamConnection,
    ConnAction) {
    if s.phase is GivenUp {
        (s, ConnAction::Idle)
    } else {
        match ev {
            ConnEvent::BeginConnect => {
                if s.phase is Disconnected {
                    (
                        StreamConnection { phase: ConnPhase::Connecting, failures: s.failures },
                        ConnAction::Idle,
                    )
                } else {
                    (s, ConnAction::Idle)
                }
            },
            ConnEvent::EndpointConnected => {
                if s.phase is Connecting {
                    (
                        StreamConnection { phase: ConnPhase::Connected, failures: 0 },
                        ConnAction::Subscribe,
                    )
                } else {
                    (s, ConnAction::Idle)
                }
            },
            ConnEvent::EndpointsExhausted => {
                if s.phase is Connecting {
                    spec_conn_fail(s)
                } else {
                    (s, ConnAction::Idle)
                }
            },
            ConnEvent::ConnectionFailed => {
                if s.phase is Connected {
                    spec_conn_fail(s)
                } else {
                    (s, ConnAction::Idle)
                }
            },
        }
    }
}

impl StreamConnection {
    /// A fresh connection manager: disconnected, no failed attempts yet.
    pub fn new() -> (r: Self)
        ensures
            r.phase is Disconnected,
            r.failures == 0,
    {
        StreamConnection { phase: ConnPhase::Disconnected, failures: 0 }
    }

    /// Feeds one transport event in and returns the action to perform.
    pub fn step(&mut self, event: ConnEvent) -> (action: ConnAction)
        ensures
            (*final(self), action) == spec_conn_step(*old(self), event),
    {
        if matches!(self.phase, ConnPhase::GivenUp) {
            return ConnAction::Idle;
        }
        match event {
            ConnEvent::BeginConnect => {
                if matches!(self.phase, ConnPhase::Disconnected) {
                    self.phase = ConnPhase::Connecting;
                }
                ConnAction::Idle
            },
            ConnEvent::EndpointConnected => {
                if matches!(self.phase, ConnPhase::Connecting) {
                    self.phase = ConnPhase::Connected;
                    self.failures = 0;
                    ConnAction::Subscribe
                } else {
                    ConnAction::Idle
                }
            },
            ConnEvent::EndpointsExhausted => {
                if matches!(self.phase, ConnPhase::Connecting) {
                    self.fail()
                } else {
                    ConnAction::Idle
                }
            },
            ConnEvent::ConnectionFailed => {
                if matches!(self.phase, ConnPhase::Connected) {
                    self.fail()
                } else {
                    ConnAction::Idle
                }
            },
        }
    }

    /// Records one failed attempt.
    fn fail(&mut self) -> (action: ConnAction)
        ensures
            (*final(self), action) == spec_conn_fail(*old(self)),
            final(self).phase == spec_conn_fail(*old(self)).0.phase,
    {
        let f: u8 = if self.failures < 255 {
            self.failures + 1
        } else {
            255
        };
        self.failures = f;
        if f >= MAX_ATTEMPTS {
            self.phase = ConnPhase::GivenUp;
            ConnAction::Shutdown
        } else {
            self.phase = ConnPhase::Disconnected;
            ConnAction::RetryAfter((f * 5 + 1) as u64)
        }
    }
}

/// The failure that takes the count to `MAX_ATTEMPTS` gives up for good and
/// demands the fatal shutdown, never another retry.
pub proof fn lemma_final_failure_gives_up(s: StreamConnection, ev: ConnEvent)
    requires
        s.failures >= MAX_ATTEMPTS - 1,
        (s.phase is Connecting && ev is EndpointsExhausted) || (s.phase is Connected
            && ev is ConnectionFailed),
    ensures
        spec_conn_step(s, ev).0.phase is GivenUp,
        spec_conn_step(s, ev).1 == ConnAction::Shutdown,
{
}

/// A given-up connection never attempts anything again: every further event
/// leaves it given up and demands nothing.
pub proof fn lemma_given_up_is_terminal(s: StreamConnection, ev: ConnEvent)
    requires
        s.phase is GivenUp,
    ensures
        spec_conn_step(s, ev).0 == s,
        spec_conn_step(s, ev).1 == ConnAction::Idle,
{
}

/// The routing fields of one inbound text message: whether it is a data
/// envelope and which event type it carries, or the shape of a
/// subscription acknowledgment.
#[derive(Clone, Debug)]
pub struct MessageEnvelope {
    pub has_data: bool,
    pub data_event: Option<String>,
    pub key_count: usize,
    pub has_result: bool,
    pub result_is_null: bool,
}

/// Where one inbound message is routed.
#[derive(Clone, Copy, Debug, PartialEq, Eq, Structural)]
pub enum InboundRoute {
    DepthUpdate,
    TradeUpdate,
    BookTickerUpdate,
    SubscriptionAck,
    Unrecognized,
    Malformed,
}

/// The routing rule: a data envelope is routed by its event type; an
/// envelope of exactly two keys whose `result` is null acknowledges the
/// subscription; everything else is unrecognized.
pub open spec fn spec_route(env: MessageEnvelope) -> InboundRoute {
    if env.has_data {
        match env.data_event {
            Some(e) => if e@ == "depthUpdate"@ {
                InboundRoute::DepthUpdate
            } else if e@ == "trade"@ {
                InboundRoute::TradeUpdate
            } else if e@ == "bookTicker"@ {
                InboundRoute::BookTickerUpdate
            } else {
                InboundRoute::Unrecognized
            },
            None => InboundRoute::Unrecognized,
        }
    } else if env.key_count == 2 && env.has_result && env.result_is_null {
        InboundRoute::SubscriptionAck
    } else {
        InboundRoute::Unrecognized
    }
}

/// Routes one parsed envelope.
pub fn route(env: &MessageEnvelope) -> (r: InboundRoute)
    ensures
        r == spec_route(*env),
{
    if env.has_data {
        match &env.data_event {
            Some(e) => {
                let depth: String = "depthUpdate".to_owned();
                let trade: String = "trade".to_owned();
                let ticker: String = "bookTicker".to_owned();
                if e.eq(&depth) {
                    InboundRoute::DepthUpdate
                } else if e.eq(&trade) {
                    InboundRoute::TradeUpdate
                } else if e.eq(&ticker) {
                    InboundRoute::BookTickerUpdate
                } else {
                    InboundRoute::Unrecognized
                }
            },
            None => InboundRoute::Unrecognized,
        }
    } else if env.key_count == 2 && env.has_result && env.result_is_null {
        InboundRoute::SubscriptionAck
    } else {
        InboundRoute::Unrecognized
    }
}

/// The routing fields that parsing one message text yields, when it is a
/// JSON object at all. A function of the text alone.
pub uninterp spec fn envelope_of(text: Seq<char>) -> Option<MessageEnvelope>;

/// Relies on serde_json::from_str and the serde_json::Map accessors: parses
/// the message into a JSON object and reads the routing fields out of it.
#[verifier::external_body]
fn parse_envelope(text: &str) -> (r: Option<MessageEnvelope>)
    ensures
        r == envelope_of(text@),
{
    let m: serde_json::Map<String, serde_json::Value> = serde_json::from_str(text).ok()?;
    let data_event: Option<String> =
        m.get("data").and_then(|d| d.get("e")).and_then(|e| e.as_str()).map(|s| s.to_string());
    Some(MessageEnvelope {
        has_data: m.contains_key("data"),
        data_event,
        key_count: m.len(),
        has_result: m.contains_key("result"),
        result_is_null: m.get("result").map(|v| v.is_null()).unwrap_or(false),
    })
}

/// Parses and routes one inbound text message: the routing rule applied to
/// whatever the parse yields, and `Malformed` when it is not a JSON object.
pub fn route_message(text: &str) -> (r: InboundRoute)
    ensures
        r == match envelope_of(text@) {
            Some(env) => spec_route(env),
            None => InboundRoute::Malformed,
        },
{
    match parse_envelope(text) {
        Some(env) => route(&env),
        None => InboundRoute::Malformed,
    }
}

/// The kind of one transport frame.
#[derive(Clone, Copy, Debug, PartialEq, Eq, Structural)]
pub enum FrameKind {
    Text,
    Binary,
    Ping,
    Pong,
    Close,
    Other,
}

/// What the read loop does with one frame.
#[derive(Clone, Copy, Debug, PartialEq, Eq, Structural)]
pub enum FrameAction {
    RouteText,
    SignalPong,
    EndConnection,
    Ignore,
}

/// The frame rule: text is routed, a protocol ping obliges one deferred
/// pong, a close frame ends the connected state, everything else is ignored.
pub open spec fn spec_frame_action(k: FrameKind) -> FrameAction {
    match k {
        FrameKind::Text => FrameAction::RouteText,
        FrameKind::Ping => FrameAction::SignalPong,
        FrameKind::Close => FrameAction::EndConnection,
        FrameKind::Binary => FrameAction::Ignore,
        FrameKind::Pong => FrameAction::Ignore,
        FrameKind::Other => FrameAction::Ignore,
    }
}

/// Decides what to do with one transport frame.
pub fn frame_action(k: FrameKind) -> (r: FrameAction)
    ensures
        r == spec_frame_action(k),
{
    match k {
        FrameKind::Text => FrameAction::RouteText,
        FrameKind::Ping => FrameAction::SignalPong,
        FrameKind::Close => FrameAction::EndConnection,
        FrameKind::Binary => FrameAction::Ignore,
        FrameKind::Pong => FrameAction::Ignore,
        FrameKind::Other => FrameAction::Ignore,
    }
}

} // verus!
