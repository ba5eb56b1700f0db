use compare_svg::activity::{stays_connected, BrowserActivity, SocketEvent};
use compare_svg::lifecycle::{heartbeat_interval_millis, lifecycle_script, server_url};
use compare_svg::shutdown::{grace_period, stops_server, WaitOutcome};

#[test]
fn counts_connections() {
    let mut activity = BrowserActivity::default();
    assert_eq!(activity, BrowserActivity { connections: 0, heartbeat: 0 });

    activity.connect();
    activity.connect();
    activity.record_heartbeat();
    assert_eq!(activity, BrowserActivity { connections: 2, heartbeat: 1 });

    activity.disconnect();
    assert_eq!(activity.connections, 1);
    activity.disconnect();
    assert_eq!(activity, BrowserActivity { connections: 0, heartbeat: 1 });
}

#[test]
fn heartbeats_wrap_around() {
    let mut activity = BrowserActivity { connections: 3, heartbeat: u64::MAX };
    activity.record_heartbeat();
    assert_eq!(activity, BrowserActivity { connections: 3, heartbeat: 0 });
}

#[test]
fn messages_keep_a_connection() {
    assert!(stays_connected(SocketEvent::Message));
    assert!(!stays_connected(SocketEvent::Failed));
    assert!(!stays_connected(SocketEvent::Closed));
}

#[test]
fn waits_without_end_while_connected() {
    let idle = BrowserActivity { connections: 0, heartbeat: 9 };
    let connected = BrowserActivity { connections: 1, heartbeat: 9 };
    assert_eq!(grace_period(&idle, 30), Some(30));
    assert_eq!(grace_period(&idle, 0), Some(0));
    assert_eq!(grace_period(&connected, 30), None);
}

#[test]
fn goes_on_only_after_a_change() {
    assert!(!stops_server(WaitOutcome::Changed));
    assert!(stops_server(WaitOutcome::TimedOut));
    assert!(stops_server(WaitOutcome::Abandoned));
    assert!(stops_server(WaitOutcome::Interrupted));
}

#[test]
fn heartbeats_come_three_times_in_a_grace_period() {
    assert_eq!(heartbeat_interval_millis(0), 250);
    assert_eq!(heartbeat_interval_millis(1), 333);
    assert_eq!(heartbeat_interval_millis(3), 1000);
    assert_eq!(heartbeat_interval_millis(14), 4666);
    assert_eq!(heartbeat_interval_millis(15), 5000);
    assert_eq!(heartbeat_interval_millis(16), 5000);
    assert_eq!(heartbeat_interval_millis(30), 5000);
    assert_eq!(heartbeat_interval_millis(u64::MAX), 5000);
    for timeout in 1..100 {
        assert!(3 * heartbeat_interval_millis(timeout) <= timeout * 1000);
    }
}

#[test]
fn writes_the_lifecycle_script() {
    let script = r#"(() => {
  "use strict";

  const heartbeat = () => {
    fetch("/heartbeat", { method: "POST", cache: "no-store" }).catch(() => {});
  };
  heartbeat();
  window.setInterval(heartbeat, 3000);

  const connect = () => {
    const protocol = window.location.protocol === "https:" ? "wss:" : "ws:";
    const socket = new WebSocket(`${protocol}//${window.location.host}/ws`);
    socket.addEventListener("close", () => window.setTimeout(connect, 1_000));
  };
  connect();
})();
"#;
    assert_eq!(lifecycle_script(9), script);
    assert!(lifecycle_script(30).contains("window.setInterval(heartbeat, 5000);"));
}

#[test]
fn writes_the_address_of_the_page() {
    assert_eq!(server_url("127.0.0.1:4321"), "http://127.0.0.1:4321/");
}

/// When a server stops whose activity changes at the given times.
fn stop_time(changes: &[(u64, BrowserActivity)], timeout: u64) -> Option<u64> {
    let (mut now, mut activity) = (0, BrowserActivity::default());
    let mut changes = changes.iter();
    loop {
        let deadline = grace_period(&activity, timeout).map(|seconds| now + seconds * 1000);
        let outcome = match (changes.clone().next(), deadline) {
            (Some((at, _)), Some(deadline)) if *at < deadline => WaitOutcome::Changed,
            (Some(_), None) => WaitOutcome::Changed,
            (None, None) => return None,
            _ => WaitOutcome::TimedOut,
        };
        if stops_server(outcome) {
            return deadline;
        }
        (now, activity) = *changes.next().unwrap();
    }
}

#[test]
fn outlives_the_last_browser_by_the_grace_period() {
    let connected = BrowserActivity { connections: 1, heartbeat: 1 };
    let idle = BrowserActivity { connections: 0, heartbeat: 1 };

    assert_eq!(stop_time(&[], 30), Some(30_000));
    assert_eq!(stop_time(&[(1_000, connected)], 30), None);
    assert_eq!(stop_time(&[(1_000, connected), (900_000, idle)], 30), Some(930_000));
    assert_eq!(stop_time(&[(31_000, connected)], 30), Some(30_000));
}

#[test]
fn heartbeats_keep_the_server_running() {
    let interval = heartbeat_interval_millis(2);
    let changes: Vec<(u64, BrowserActivity)> = (1..=100)
        .map(|i| (i * interval, BrowserActivity { connections: 0, heartbeat: i }))
        .collect();
    assert_eq!(stop_time(&changes, 2), Some(100 * interval + 2_000));
}

#[test]
fn counts_from_any_activity() {
    let mut activity = BrowserActivity { connections: 3, heartbeat: u64::MAX };
    activity.connect();
    activity.disconnect();
    activity.disconnect();
    assert_eq!(activity, BrowserActivity { connections: 2, heartbeat: u64::MAX });
    activity.record_heartbeat();
    activity.record_heartbeat();
    assert_eq!(activity, BrowserActivity { connections: 2, heartbeat: 1 });
}
