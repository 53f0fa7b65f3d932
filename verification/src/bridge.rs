use vstd::prelude::*;

use crate::store::TimeSeriesStore;
use crate::table_entree::TableEntree;

verus! {

/// Upstream timestamps arrive in finer units than the store keeps; every
/// observation is rescaled by this fixed divisor before it is forwarded.
pub const TIMESTAMP_DIVISOR: u32 = 1000;

/// Where the upstream connection stands.
#[derive(Debug, Clone, Copy, PartialEq, Eq, Structural)]
pub enum BridgeState {
    Disconnected,
    Connecting,
    Subscribed,
    Streaming,
}

/// The outcome of the upstream operation the bridge is waiting on.
pub enum BridgeEvent {
    ConnectSucceeded,
    ConnectFailed,
    SubscribeSucceeded,
    SubscribeFailed,
    /// One observation arrived, its timestamp still in upstream units.
    MessageReceived(TableEntree),
    StreamEnded,
}

/// What the ingestion loop must do next.
pub enum BridgeAction {
    /// Request every key, with empty-prefix match and all future updates.
    Subscribe,
    /// Wait for the next observation on the open subscription.
    Receive,
    /// Forward this rescaled observation to the store and to the viewers.
    Deliver(TableEntree),
    /// Go back to `Disconnected` and start a new attempt.
    Reconnect,
}

/// The state an event moves the bridge to: any failure, and the end of the
/// stream, fall back to `Disconnected`; the happy path walks
/// `Connecting -> Subscribed -> Streaming` and then stays in `Streaming`.
pub open spec fn next_state(event: BridgeEvent) -> BridgeState {
    match event {
        BridgeEvent::ConnectSucceeded => BridgeState::Subscribed,
        BridgeEvent::ConnectFailed => BridgeState::Disconnected,
        BridgeEvent::SubscribeSucceeded => BridgeState::Streaming,
        BridgeEvent::SubscribeFailed => BridgeState::Disconnected,
        BridgeEvent::MessageReceived(_) => BridgeState::Streaming,
        BridgeEvent::StreamEnded => BridgeState::Disconnected,
    }
}

/// The action an event demands. A received observation is delivered with its
/// timestamp rescaled from upstream units to store units.
pub open spec fn action_for(event: BridgeEvent) -> BridgeAction {
    match event {
        BridgeEvent::ConnectSucceeded => BridgeAction::Subscribe,
        BridgeEvent::ConnectFailed => BridgeAction::Reconnect,
        BridgeEvent::SubscribeSucceeded => BridgeAction::Receive,
        BridgeEvent::SubscribeFailed => BridgeAction::Reconnect,
        BridgeEvent::MessageReceived(raw) => BridgeAction::Deliver(
            TableEntree {
                topic: raw.topic,
                value: raw.value,
                timestamp: raw.timestamp / TIMESTAMP_DIVISOR,
            },
        ),
        BridgeEvent::StreamEnded => BridgeAction::Reconnect,
    }
}

/// The connection lifecycle of the single upstream source, kept as an
/// explicit state machine so the reconnect policy can be driven and checked
/// without sockets or timers. The loop around it performs the I/O: it asks
/// `begin_attempt` how long to back off, connects, and feeds every outcome
/// through `on_event`, forever.
pub struct UpstreamBridge {
    state: BridgeState,
    time_between_reconnects: u64,
    first_attempt: bool,
}

impl UpstreamBridge {
    pub closed spec fn spec_state(&self) -> BridgeState {
        self.state
    }

    /// The configured backoff between reconnect attempts, in milliseconds.
    pub closed spec fn spec_reconnect_delay(&self) -> u64 {
        self.time_between_reconnects
    }

    /// Whether no connect attempt has started yet.
    pub closed spec fn spec_first_attempt(&self) -> bool {
        self.first_attempt
    }

    /// Which events the current state can answer: exactly the outcomes of
    /// the operation this state is waiting on.
    pub open spec fn accepts(&self, event: BridgeEvent) -> bool {
        match event {
            BridgeEvent::ConnectSucceeded => self.spec_state() == BridgeState::Connecting,
            BridgeEvent::ConnectFailed => self.spec_state() == BridgeState::Connecting,
            BridgeEvent::SubscribeSucceeded => self.spec_state() == BridgeState::Subscribed,
            BridgeEvent::SubscribeFailed => self.spec_state() == BridgeState::Subscribed,
            BridgeEvent::MessageReceived(_) => self.spec_state() == BridgeState::Streaming,
            BridgeEvent::StreamEnded => self.spec_state() == BridgeState::Streaming,
        }
    }

    /// Where the connection stands right now.
    pub fn state(&self) -> (r: BridgeState)
        ensures
            r == self.spec_state(),
    {
        self.state
    }

    pub fn new(time_between_reconnects: u64) -> (r: Self)
        ensures
            r.spec_state() == BridgeState::Disconnected,
            r.spec_reconnect_delay() == time_between_reconnects,
            r.spec_first_attempt(),
    {
        UpstreamBridge {
            state: BridgeState::Disconnected,
            time_between_reconnects,
            first_attempt: true,
        }
    }

    /// Start a connect attempt: the bridge moves to `Connecting` and returns
    /// how long the loop must wait first — nothing before the very first
    /// attempt, the configured delay before every later one.
    pub fn begin_attempt(&mut self) -> (delay: u64)
        requires
            old(self).spec_state() == BridgeState::Disconnected,
        ensures
            final(self).spec_state() == BridgeState::Connecting,
            !final(self).spec_first_attempt(),
            final(self).spec_reconnect_delay() == old(self).spec_reconnect_delay(),
            delay == (if old(self).spec_first_attempt() {
                0u64
            } else {
                old(self).spec_reconnect_delay()
            }),
    {
        let delay = if self.first_attempt {
            0
        } else {
            self.time_between_reconnects
        };
        self.first_attempt = false;
        self.state = BridgeState::Connecting;
        delay
    }

    /// Answer the outcome of the pending upstream operation with the next
    /// state and the next action.
    pub fn on_event(&mut self, event: BridgeEvent) -> (a: BridgeAction)
        requires
            old(self).accepts(event),
        ensures
            final(self).spec_state() == next_state(event),
            final(self).spec_reconnect_delay() == old(self).spec_reconnect_delay(),
            final(self).spec_first_attempt() == old(self).spec_first_attempt(),
            a == action_for(event),
    {
        match event {
            BridgeEvent::ConnectSucceeded => {
                self.state = BridgeState::Subscribed;
                BridgeAction::Subscribe
            },
            BridgeEvent::ConnectFailed => {
                self.state = BridgeState::Disconnected;
                BridgeAction::Reconnect
            },
            BridgeEvent::SubscribeSucceeded => {
                self.state = BridgeState::Streaming;
                BridgeAction::Receive
            },
            BridgeEvent::SubscribeFailed => {
                self.state = BridgeState::Disconnected;
                BridgeAction::Reconnect
            },
            BridgeEvent::MessageReceived(raw) => {
                self.state = BridgeState::Streaming;
                let ts = raw.timestamp / TIMESTAMP_DIVISOR;
                BridgeAction::Deliver(TableEntree { topic: raw.topic, value: raw.value, timestamp: ts })
            },
            BridgeEvent::StreamEnded => {
                self.state = BridgeState::Disconnected;
                BridgeAction::Reconnect
            },
        }
    }
}

/// Rescale one observation from upstream units to store units and append it:
/// what the ingestion loop does with every delivered message.
pub fn write_all(database: &mut TimeSeriesStore, message: TableEntree)
    requires
        message.topic@.len() > 0,
    ensures
        final(database).rows_model() == old(database).rows_model().push(
            TableEntree {
                topic: message.topic,
                value: message.value,
                timestamp: message.timestamp / TIMESTAMP_DIVISOR,
            },
        ),
        final(database).spec_last_update() == message.timestamp / TIMESTAMP_DIVISOR,
        final(database).spec_min_window() == old(database).spec_min_window(),
{
    let ts = message.timestamp / TIMESTAMP_DIVISOR;
    database.add_value(TableEntree::new(message.topic, message.value, ts));
}

} // verus!
