//! When the server stops.

use vstd::prelude::*;

use crate::activity::BrowserActivity;
use crate::lifecycle::interval_for;

verus! {

/// How long the server waits for activity before it stops, in seconds: the
/// grace period while no browser is connected, and without end otherwise.
pub open spec fn grace_for(activity: BrowserActivity, timeout_seconds: u64) -> Option<u64> {
    if activity.connections == 0 {
        Some(timeout_seconds)
    } else {
        None
    }
}

/// How long to wait for a change of `activity` before the server stops.
pub fn grace_period(activity: &BrowserActivity, timeout_seconds: u64) -> (grace: Option<u64>)
    ensures
        grace == grace_for(*activity, timeout_seconds),
{
    if activity.connections == 0 {
        Some(timeout_seconds)
    } else {
        None
    }
}

/// What came out of waiting.
#[derive(Clone, Copy, Debug, Eq, PartialEq, Structural)]
pub enum WaitOutcome {
    /// The grace period is over.
    TimedOut,
    /// The activity has changed.
    Changed,
    /// The activity will never change again.
    Abandoned,
    /// The user has asked the server to stop.
    Interrupted,
}

/// Whether the server stops after waiting. It goes on only when the activity has
/// changed, and then waits anew.
pub open spec fn stops_after(outcome: WaitOutcome) -> bool {
    outcome != WaitOutcome::Changed
}

/// Whether the server stops after waiting.
pub fn stops_server(outcome: WaitOutcome) -> (stops: bool)
    ensures
        stops == stops_after(outcome),
{
    !(outcome == WaitOutcome::Changed)
}

/// A change of the activity, at a time in milliseconds.
pub struct Change {
    pub at: nat,
    pub activity: BrowserActivity,
}

/// The time of the last of the first `n` changes, or the start.
pub open spec fn time_after(start: nat, changes: Seq<Change>, n: int) -> nat {
    if n == 0 {
        start
    } else {
        changes[n - 1].at
    }
}

/// The activity after the first `n` changes.
pub open spec fn activity_after(
    activity: BrowserActivity,
    changes: Seq<Change>,
    n: int,
) -> BrowserActivity {
    if n == 0 {
        activity
    } else {
        changes[n - 1].activity
    }
}

/// Whether changes come one after the other, none before `start`.
pub open spec fn in_order(start: nat, changes: Seq<Change>) -> bool {
    forall|i: int|
        0 <= i < changes.len() ==> time_after(start, changes, i) <= (#[trigger] changes[i]).at
}

/// When a server stops that nobody interrupts: it waits as [`grace_for`] says,
/// from `start` on, and acts on each outcome as [`stops_after`] says.
pub open spec fn stop_time(
    start: nat,
    activity: BrowserActivity,
    changes: Seq<Change>,
    timeout_seconds: u64,
) -> Option<nat>
    decreases changes.len(),
{
    let grace = grace_for(activity, timeout_seconds);
    let in_time = changes.len() > 0 && (grace matches Some(seconds) ==> changes[0].at < start
        + seconds * 1000);
    if in_time {
        if stops_after(WaitOutcome::Changed) {
            Some(changes[0].at)
        } else {
            stop_time(changes[0].at, changes[0].activity, changes.skip(1), timeout_seconds)
        }
    } else {
        match grace {
            Some(seconds) => if stops_after(WaitOutcome::TimedOut) {
                Some(start + seconds as nat * 1000)
            } else {
                None
            },
            None => None,
        }
    }
}

/// Whether a server that stops at `time` does so a whole grace period after the
/// `n`-th change, with no browser connected and no change in between.
pub open spec fn stops_after_change(
    start: nat,
    activity: BrowserActivity,
    changes: Seq<Change>,
    timeout_seconds: u64,
    n: int,
    time: nat,
) -> bool {
    &&& 0 <= n <= changes.len()
    &&& activity_after(activity, changes, n).connections == 0
    &&& time == time_after(start, changes, n) + timeout_seconds * 1000
    &&& n < changes.len() ==> time <= changes[n].at
}

/// The server stops only when, for a whole grace period, no browser was
/// connected and there was neither a heartbeat nor any other activity; and it
/// does stop unless a browser is connected in the end.
pub proof fn lemma_stops_only_after_grace_period(
    start: nat,
    activity: BrowserActivity,
    changes: Seq<Change>,
    timeout_seconds: u64,
)
    ensures
        stop_time(start, activity, changes, timeout_seconds) matches Some(time) ==> exists|n: int|
            #[trigger]
            stops_after_change(start, activity, changes, timeout_seconds, n, time),
        stop_time(start, activity, changes, timeout_seconds) is None ==> activity_after(
            activity,
            changes,
            changes.len() as int,
        ).connections > 0,
    decreases changes.len(),
{
    let grace = grace_for(activity, timeout_seconds);
    let in_time = changes.len() > 0 && (grace matches Some(seconds) ==> changes[0].at < start
        + seconds * 1000);
    if in_time {
        let rest = changes.skip(1);
        lemma_stops_only_after_grace_period(
            changes[0].at,
            changes[0].activity,
            rest,
            timeout_seconds,
        );
        match stop_time(changes[0].at, changes[0].activity, rest, timeout_seconds) {
            Some(time) => {
                let n = choose|n: int| #[trigger]
                    stops_after_change(
                        changes[0].at,
                        changes[0].activity,
                        rest,
                        timeout_seconds,
                        n,
                        time,
                    );
                assert(stops_after_change(start, activity, changes, timeout_seconds, n + 1, time));
            },
            None => {
                assert(activity_after(changes[0].activity, rest, rest.len() as int)
                    == activity_after(activity, changes, changes.len() as int));
            },
        }
    } else if grace is Some {
        let time = stop_time(start, activity, changes, timeout_seconds)->0;
        assert(stops_after_change(start, activity, changes, timeout_seconds, 0, time));
    }
}

/// Times grow along the changes.
proof fn lemma_times_grow(start: nat, changes: Seq<Change>, a: int, b: int)
    requires
        in_order(start, changes),
        0 <= a <= b <= changes.len(),
    ensures
        time_after(start, changes, a) <= time_after(start, changes, b),
    decreases b - a,
{
    if a < b {
        lemma_times_grow(start, changes, a, b - 1);
        assert(time_after(start, changes, b - 1) <= changes[b - 1].at);
    }
}

/// The server remains available while a browser is connected: it does not stop
/// between the `n`-th change and the next one where a browser is connected after
/// the `n`-th.
pub proof fn lemma_available_while_connected(
    start: nat,
    activity: BrowserActivity,
    changes: Seq<Change>,
    timeout_seconds: u64,
    n: int,
)
    requires
        in_order(start, changes),
        0 <= n <= changes.len(),
        activity_after(activity, changes, n).connections > 0,
    ensures
        stop_time(start, activity, changes, timeout_seconds) matches Some(time) ==> time
            <= time_after(start, changes, n) || (n < changes.len() && changes[n].at <= time),
{
    lemma_stops_only_after_grace_period(start, activity, changes, timeout_seconds);
    if let Some(time) = stop_time(start, activity, changes, timeout_seconds) {
        let k = choose|k: int| #[trigger]
            stops_after_change(start, activity, changes, timeout_seconds, k, time);
        if k < n {
            lemma_times_grow(start, changes, k + 1, n);
        } else if n < k {
            lemma_times_grow(start, changes, n + 1, k);
        }
    }
}

/// Whether the server is still waiting when the `i`-th change comes: a browser
/// is connected, or the grace period is not over.
pub open spec fn is_awaited(
    start: nat,
    activity: BrowserActivity,
    changes: Seq<Change>,
    timeout_seconds: u64,
    i: int,
) -> bool {
    activity_after(activity, changes, i).connections > 0 || changes[i].at < time_after(
        start,
        changes,
        i,
    ) + timeout_seconds * 1000
}

/// After the last browser has disconnected, the server stops when the grace
/// period is over: not before, and without further activity not later.
pub proof fn lemma_stops_after_last_disconnect(
    start: nat,
    activity: BrowserActivity,
    changes: Seq<Change>,
    timeout_seconds: u64,
)
    requires
        forall|i: int|
            0 <= i < changes.len() ==> #[trigger] is_awaited(
                start,
                activity,
                changes,
                timeout_seconds,
                i,
            ),
        activity_after(activity, changes, changes.len() as int).connections == 0,
    ensures
        stop_time(start, activity, changes, timeout_seconds) == Some(
            (time_after(start, changes, changes.len() as int) + timeout_seconds * 1000) as nat,
        ),
    decreases changes.len(),
{
    if changes.len() > 0 {
        assert(is_awaited(start, activity, changes, timeout_seconds, 0));
        let rest = changes.skip(1);
        assert forall|i: int| 0 <= i < rest.len() implies #[trigger] is_awaited(
            changes[0].at,
            changes[0].activity,
            rest,
            timeout_seconds,
            i,
        ) by {
            assert(is_awaited(start, activity, changes, timeout_seconds, i + 1));
        }
        lemma_stops_after_last_disconnect(
            changes[0].at,
            changes[0].activity,
            rest,
            timeout_seconds,
        );
    }
}

/// Heartbeats alone keep the server running: where the activity changes at least
/// once in every heartbeat interval, the server stops no earlier than a grace
/// period after the last change, provided that the grace period is at least a
/// second.
pub proof fn lemma_heartbeats_keep_server_running(
    start: nat,
    activity: BrowserActivity,
    changes: Seq<Change>,
    timeout_seconds: u64,
)
    requires
        timeout_seconds >= 1,
        forall|i: int|
            0 <= i < changes.len() ==> (#[trigger] changes[i]).at <= time_after(start, changes, i)
                + interval_for(timeout_seconds as nat),
    ensures
        stop_time(start, activity, changes, timeout_seconds) matches Some(time) ==> time
            == time_after(start, changes, changes.len() as int) + timeout_seconds * 1000,
    decreases changes.len(),
{
    if changes.len() > 0 {
        assert(changes[0].at <= time_after(start, changes, 0) + interval_for(
            timeout_seconds as nat,
        ));
        let rest = changes.skip(1);
        assert forall|i: int| 0 <= i < rest.len() implies (#[trigger] rest[i]).at <= time_after(
            changes[0].at,
            rest,
            i,
        ) + interval_for(timeout_seconds as nat) by {
            assert(rest[i] == changes[i + 1]);
        }
        lemma_heartbeats_keep_server_running(
            changes[0].at,
            changes[0].activity,
            rest,
            timeout_seconds,
        );
    }
}

/// The server waits without end while a browser is connected, and for the whole grace
/// period while none is.
pub proof fn lemma_grace_period_is_whole(activity: BrowserActivity, timeout_seconds: u64)
    ensures
        activity.connections > 0 <==> grace_for(activity, timeout_seconds) is None,
        grace_for(activity, timeout_seconds) matches Some(seconds) ==> seconds == timeout_seconds,
{
}

/// The server stops when the grace period is over, when nothing can end its wait any
/// more and when the user asks; it goes on when the activity has changed.
pub proof fn lemma_only_activity_prolongs_wait()
    ensures
        stops_after(WaitOutcome::TimedOut),
        stops_after(WaitOutcome::Abandoned),
        stops_after(WaitOutcome::Interrupted),
        !stops_after(WaitOutcome::Changed),
{
}

} // verus!
