//! How a page and the server tell each other that they are there.

use vstd::prelude::*;

use crate::routes::{COMPARISON_ROUTE, HEARTBEAT_ROUTE, WEBSOCKET_ROUTE};
use crate::text::{are_digits, decimal, lemma_decimal_is_read_back, push_decimal, read_decimal};

verus! {

/// The shortest time between heartbeats, in milliseconds.
pub const SHORTEST_INTERVAL: u64 = 250;

/// The longest time between heartbeats, in milliseconds.
pub const LONGEST_INTERVAL: u64 = 5000;

/// The time between heartbeats in milliseconds: a third of the grace period,
/// but not below the shortest nor above the longest interval.
pub open spec fn interval_for(timeout_seconds: nat) -> nat {
    let third = timeout_seconds * 1000 / 3;
    if third < SHORTEST_INTERVAL {
        SHORTEST_INTERVAL as nat
    } else if third > LONGEST_INTERVAL {
        LONGEST_INTERVAL as nat
    } else {
        third
    }
}

/// The time between heartbeats for a grace period of `timeout_seconds`, in
/// milliseconds.
pub fn heartbeat_interval_millis(timeout_seconds: u64) -> (interval: u64)
    ensures
        interval == interval_for(timeout_seconds as nat),
{
    let third = timeout_seconds as u128 * 1000 / 3;
    if third < SHORTEST_INTERVAL as u128 {
        SHORTEST_INTERVAL
    } else if third > LONGEST_INTERVAL as u128 {
        LONGEST_INTERVAL
    } else {
        third as u64
    }
}

/// A grace period of at least a second has room for three heartbeats.
pub proof fn lemma_three_heartbeats_fit(timeout_seconds: nat)
    requires
        timeout_seconds >= 1,
    ensures
        3 * interval_for(timeout_seconds) <= timeout_seconds * 1000,
{
}

/// A longer grace period never makes heartbeats more frequent.
pub proof fn lemma_interval_is_monotone(a: nat, b: nat)
    requires
        a <= b,
    ensures
        interval_for(a) <= interval_for(b),
{
}

/// Whether heartbeats every `interval` milliseconds suit a grace period: as rare as
/// can be, but three in a grace period, never less than a quarter of a second apart
/// nor more than five seconds.
pub open spec fn suits(interval: nat, timeout_seconds: nat) -> bool {
    &&& 250 <= interval <= 5000
    &&& interval > 250 ==> 3 * interval <= 1000 * timeout_seconds
    &&& interval < 5000 ==> 3 * (interval + 1) > 1000 * timeout_seconds
}

/// The interval suits the grace period, and no other does.
pub proof fn lemma_interval_suits(timeout_seconds: nat, other: nat)
    ensures
        suits(interval_for(timeout_seconds), timeout_seconds),
        suits(other, timeout_seconds) ==> other == interval_for(timeout_seconds),
{
}

/// The content type of the lifecycle script.
pub const SCRIPT_CONTENT_TYPE: &'static str = "text/javascript; charset=utf-8";

/// The script up to the address that receives heartbeats.
pub const SCRIPT_START: &'static str = r#"(() => {
  "use strict";

  const heartbeat = () => {
    fetch(""#;

/// From the address that receives heartbeats to the interval.
pub const SCRIPT_INTERVAL: &'static str = r#"", { method: "POST", cache: "no-store" }).catch(() => {});
  };
  heartbeat();
  window.setInterval(heartbeat, "#;

/// From the interval to the address that accepts WebSockets.
pub const SCRIPT_SOCKET: &'static str = r#");

  const connect = () => {
    const protocol = window.location.protocol === "https:" ? "wss:" : "ws:";
    const socket = new WebSocket(`${protocol}//${window.location.host}"#;

/// From the address that accepts WebSockets to the end.
pub const SCRIPT_END: &'static str = r#"`);
    socket.addEventListener("close", () => window.setTimeout(connect, 1_000));
  };
  connect();
})();
"#;

/// The script that keeps the server running while its page is open: it sends a
/// heartbeat at once and then at every interval, and keeps a WebSocket open.
pub open spec fn lifecycle_script_text(timeout_seconds: nat) -> Seq<char> {
    SCRIPT_START@ + HEARTBEAT_ROUTE@ + SCRIPT_INTERVAL@ + decimal(interval_for(timeout_seconds))
        + SCRIPT_SOCKET@ + WEBSOCKET_ROUTE@ + SCRIPT_END@
}

/// The script for a grace period of `timeout_seconds`.
pub fn lifecycle_script(timeout_seconds: u64) -> (script: String)
    ensures
        script@ == lifecycle_script_text(timeout_seconds as nat),
{
    let mut script = SCRIPT_START.to_owned();
    script.append(HEARTBEAT_ROUTE);
    script.append(SCRIPT_INTERVAL);
    push_decimal(&mut script, heartbeat_interval_millis(timeout_seconds));
    script.append(SCRIPT_SOCKET);
    script.append(WEBSOCKET_ROUTE);
    script.append(SCRIPT_END);
    script
}

/// The address of the page on a server that listens at `address`.
pub open spec fn server_url_text(address: Seq<char>) -> Seq<char> {
    "http://"@ + address + COMPARISON_ROUTE@
}

/// The address of the page on a server that listens at `address`, a host and a
/// port.
pub fn server_url(address: &str) -> (url: String)
    ensures
        url@ == server_url_text(address@),
{
    let mut url = "http://".to_owned();
    url.append(address);
    url.append(COMPARISON_ROUTE);
    url
}

/// Three heartbeats at an interval that suits a grace period of at least a second fit
/// into the grace period.
pub proof fn lemma_suiting_heartbeats_fit(interval: nat, timeout_seconds: nat)
    requires
        suits(interval, timeout_seconds),
        timeout_seconds >= 1,
    ensures
        3 * interval <= 1000 * timeout_seconds,
{
}

/// Whether `script` has heartbeats sent at an interval that suits the grace period,
/// between these two texts.
pub open spec fn beats_between(
    script: Seq<char>,
    before: Seq<char>,
    after: Seq<char>,
    timeout_seconds: nat,
) -> bool {
    exists|interval: Seq<char>|
        {
            &&& script == before + "window.setInterval(heartbeat, "@ + interval + ");"@ + after
            &&& #[trigger] are_digits(interval)
            &&& interval.len() > 0
            &&& interval.len() > 1 ==> interval[0] != '0'
            &&& suits(read_decimal(interval), timeout_seconds)
        }
}

/// What the script has before the call that repeats heartbeats: the first of them is
/// sent at once, where the server receives them.
pub open spec fn script_before_interval() -> Seq<char> {
    r#"(() => {
  "use strict";

  const heartbeat = () => {
    fetch(""#@ + "/heartbeat"@ + r#"", { method: "POST", cache: "no-store" }).catch(() => {});
  };
  heartbeat();
  "#@
}

/// What the script has after the call that repeats heartbeats: a WebSocket is opened,
/// again whenever it is closed, where the server accepts it.
pub open spec fn script_after_interval() -> Seq<char> {
    r#"

  const connect = () => {
    const protocol = window.location.protocol === "https:" ? "wss:" : "ws:";
    const socket = new WebSocket(`${protocol}//${window.location.host}"#@ + "/ws"@ + r#"`);
    socket.addEventListener("close", () => window.setTimeout(connect, 1_000));
  };
  connect();
})();
"#@
}

/// The script has the browser send heartbeats at an interval that suits the grace
/// period, so that, for a grace period of at least a second, three of them fit; and
/// nothing else in it depends on the grace period.
pub proof fn lemma_script_beats(timeout_seconds: nat)
    ensures
        beats_between(
            lifecycle_script_text(timeout_seconds),
            script_before_interval(),
            script_after_interval(),
            timeout_seconds,
        ),
{
    let interval = decimal(interval_for(timeout_seconds));
    lemma_decimal_is_read_back(interval_for(timeout_seconds));
    lemma_interval_suits(timeout_seconds, 0);
    lemma_script_texts();
    let script = lifecycle_script_text(timeout_seconds);
    assert(script =~= script_before_interval() + "window.setInterval(heartbeat, "@ + interval
        + ");"@ + script_after_interval());
}

proof fn lemma_script_texts()
    ensures
        SCRIPT_INTERVAL@ == r#"", { method: "POST", cache: "no-store" }).catch(() => {});
  };
  heartbeat();
  "#@ + "window.setInterval(heartbeat, "@,
        SCRIPT_SOCKET@ == ");"@ + r#"

  const connect = () => {
    const protocol = window.location.protocol === "https:" ? "wss:" : "ws:";
    const socket = new WebSocket(`${protocol}//${window.location.host}"#@,
{
    reveal_strlit(
        r#"", { method: "POST", cache: "no-store" }).catch(() => {});
  };
  heartbeat();
  window.setInterval(heartbeat, "#,
    );
    reveal_strlit(
        r#"", { method: "POST", cache: "no-store" }).catch(() => {});
  };
  heartbeat();
  "#,
    );
    reveal_strlit("window.setInterval(heartbeat, ");
    assert(SCRIPT_INTERVAL@ =~= r#"", { method: "POST", cache: "no-store" }).catch(() => {});
  };
  heartbeat();
  "#@ + "window.setInterval(heartbeat, "@);
    reveal_strlit(
        r#");

  const connect = () => {
    const protocol = window.location.protocol === "https:" ? "wss:" : "ws:";
    const socket = new WebSocket(`${protocol}//${window.location.host}"#,
    );
    reveal_strlit(
        r#"

  const connect = () => {
    const protocol = window.location.protocol === "https:" ? "wss:" : "ws:";
    const socket = new WebSocket(`${protocol}//${window.location.host}"#,
    );
    reveal_strlit(");");
    assert(SCRIPT_SOCKET@ =~= ");"@ + r#"

  const connect = () => {
    const protocol = window.location.protocol === "https:" ? "wss:" : "ws:";
    const socket = new WebSocket(`${protocol}//${window.location.host}"#@);
}

/// The address of the page is the address that the server listens at, whole, after
/// `http://` and before `/`.
pub proof fn lemma_url_holds_address(address: Seq<char>)
    ensures
        server_url_text(address).len() == address.len() + 8,
        server_url_text(address).take(7) == seq!['h', 't', 't', 'p', ':', '/', '/'],
        server_url_text(address).subrange(7, 7 + address.len() as int) == address,
        server_url_text(address).last() == '/',
{
    reveal_strlit("http://");
    reveal_strlit("/");
    let url = server_url_text(address);
    assert(COMPARISON_ROUTE@.len() == 1);
    assert(url.take(7) =~= seq!['h', 't', 't', 'p', ':', '/', '/']);
    assert(url.subrange(7, 7 + address.len() as int) =~= address);
}

/// Servers that listen at different addresses have different pages.
pub proof fn lemma_url_is_injective(a: Seq<char>, b: Seq<char>)
    requires
        server_url_text(a) == server_url_text(b),
    ensures
        a == b,
{
    lemma_url_holds_address(a);
    lemma_url_holds_address(b);
}

} // verus!
