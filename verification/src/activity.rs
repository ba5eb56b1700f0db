//! What the server knows of the browsers that show its page.

use vstd::prelude::*;

verus! {

/// The browser activity that keeps the server running.
#[derive(Clone, Copy, Debug, Eq, PartialEq, Structural)]
pub struct BrowserActivity {
    /// The number of open WebSocket connections.
    pub connections: usize,
    /// Changes with every heartbeat.
    pub heartbeat: u64,
}

impl Default for BrowserActivity {
    /// No connections and no heartbeats.
    fn default() -> (activity: BrowserActivity)
        ensures
            activity == (BrowserActivity { connections: 0, heartbeat: 0 }),
    {
        BrowserActivity { connections: 0, heartbeat: 0 }
    }
}

impl BrowserActivity {
    /// The activity after a heartbeat.
    pub open spec fn after_heartbeat(self) -> BrowserActivity {
        BrowserActivity {
            connections: self.connections,
            heartbeat: if self.heartbeat == u64::MAX {
                0
            } else {
                (self.heartbeat + 1) as u64
            },
        }
    }

    /// The activity after one more browser has connected.
    pub open spec fn after_connect(self) -> BrowserActivity {
        BrowserActivity {
            connections: (self.connections + 1) as usize,
            heartbeat: self.heartbeat,
        }
    }

    /// The activity after a browser has disconnected.
    pub open spec fn after_disconnect(self) -> BrowserActivity {
        BrowserActivity {
            connections: (self.connections - 1) as usize,
            heartbeat: self.heartbeat,
        }
    }

    /// Records a heartbeat; the counter starts again at 0 after its largest value.
    pub fn record_heartbeat(&mut self)
        ensures
            *final(self) == old(self).after_heartbeat(),
    {
        self.heartbeat = self.heartbeat.wrapping_add(1);
    }

    /// Counts a browser that has connected.
    pub fn connect(&mut self)
        requires
            old(self).connections < usize::MAX,
        ensures
            *final(self) == old(self).after_connect(),
    {
        self.connections = self.connections + 1;
    }

    /// Stops counting a browser that has disconnected.
    pub fn disconnect(&mut self)
        requires
            old(self).connections > 0,
        ensures
            *final(self) == old(self).after_disconnect(),
    {
        self.connections = self.connections - 1;
    }
}

/// A disconnect undoes the connect of the same browser.
pub proof fn lemma_disconnect_undoes_connect(activity: BrowserActivity)
    requires
        activity.connections < usize::MAX,
    ensures
        activity.after_connect().after_disconnect() == activity,
{
}

/// A heartbeat is always seen as a change, and changes no connection.
pub proof fn lemma_heartbeat_is_a_change(activity: BrowserActivity)
    ensures
        activity.after_heartbeat() != activity,
        activity.after_heartbeat().connections == activity.connections,
{
}

/// Something that changes the activity.
pub enum ActivityEvent {
    Heartbeat,
    Connected,
    Disconnected,
}

/// The activity after some events.
pub open spec fn after_events(
    activity: BrowserActivity,
    events: Seq<ActivityEvent>,
) -> BrowserActivity
    decreases events.len(),
{
    if events.len() == 0 {
        activity
    } else {
        let before = after_events(activity, events.drop_last());
        match events.last() {
            ActivityEvent::Heartbeat => before.after_heartbeat(),
            ActivityEvent::Connected => before.after_connect(),
            ActivityEvent::Disconnected => before.after_disconnect(),
        }
    }
}

/// The number of browsers that have connected and not disconnected again.
pub open spec fn open_connections(events: Seq<ActivityEvent>) -> int
    decreases events.len(),
{
    if events.len() == 0 {
        0
    } else {
        open_connections(events.drop_last()) + match events.last() {
            ActivityEvent::Heartbeat => 0int,
            ActivityEvent::Connected => 1,
            ActivityEvent::Disconnected => -1,
        }
    }
}

/// The number of heartbeats among some events.
pub open spec fn heartbeats(events: Seq<ActivityEvent>) -> nat
    decreases events.len(),
{
    if events.len() == 0 {
        0
    } else {
        heartbeats(events.drop_last()) + if events.last() is Heartbeat {
            1nat
        } else {
            0
        }
    }
}

/// Whether the count stays in its range through some events.
pub open spec fn stays_in_range(activity: BrowserActivity, events: Seq<ActivityEvent>) -> bool {
    forall|n: int|
        0 <= n <= events.len() ==> 0 <= activity.connections + #[trigger] open_connections(
            events.take(n),
        ) <= usize::MAX
}

/// The count follows the open connections and the counter follows the heartbeats,
/// however connects, disconnects and heartbeats of different browsers are
/// interleaved, and whatever the activity was before.
pub proof fn lemma_connections_are_counted(activity: BrowserActivity, events: Seq<ActivityEvent>)
    requires
        stays_in_range(activity, events),
    ensures
        after_events(activity, events).connections == activity.connections + open_connections(
            events,
        ),
        after_events(activity, events).heartbeat == (activity.heartbeat + heartbeats(events)) % (
        u64::MAX + 1),
    decreases events.len(),
{
    if events.len() > 0 {
        let before = events.drop_last();
        assert forall|n: int| 0 <= n <= before.len() implies 0 <= activity.connections
            + #[trigger] open_connections(before.take(n)) <= usize::MAX by {
            assert(before.take(n) =~= events.take(n));
        }
        lemma_connections_are_counted(activity, before);
        assert(events.take(events.len() as int) =~= events);
        assert(0 <= activity.connections + open_connections(events.take(events.len() as int))
            <= usize::MAX);
    }
}

/// Without a heartbeat the counter keeps its value.
pub proof fn lemma_only_heartbeats_are_counted(
    activity: BrowserActivity,
    events: Seq<ActivityEvent>,
)
    requires
        forall|i: int| 0 <= i < events.len() ==> !(#[trigger] events[i] is Heartbeat),
    ensures
        after_events(activity, events).heartbeat == activity.heartbeat,
    decreases events.len(),
{
    if events.len() > 0 {
        lemma_only_heartbeats_are_counted(activity, events.drop_last());
    }
}

/// What came out of waiting for the next message on a browser's WebSocket.
#[derive(Clone, Copy, Debug, Eq, PartialEq, Structural)]
pub enum SocketEvent {
    /// A message.
    Message,
    /// An error.
    Failed,
    /// The end of the connection.
    Closed,
}

/// Whether the browser is still connected after `event`: messages are ignored,
/// and an error ends the connection as closing it does.
pub fn stays_connected(event: SocketEvent) -> (stays: bool)
    ensures
        stays == (event == SocketEvent::Message),
{
    event == SocketEvent::Message
}

} // verus!
