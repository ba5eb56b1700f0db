use compare_svg::launch::{after_exit, after_open, after_stop, after_url_line, LaunchStep};
use compare_svg::lifecycle::server_url;

fn failure(step: LaunchStep) -> String {
    match step {
        LaunchStep::Failed { message } => message,
        other => panic!("expected a failure, got {other:?}"),
    }
}

#[test]
fn opens_the_address_that_the_server_writes() {
    let url = server_url("127.0.0.1:4321");
    match after_url_line(&format!("{url}\n")) {
        LaunchStep::OpenBrowser { url: opened } => assert_eq!(opened, url),
        other => panic!("expected an address, got {other:?}"),
    }
    match after_url_line("\u{a0}\t http://[::1]:1/ x\r\n") {
        LaunchStep::OpenBrowser { url } => assert_eq!(url, "http://[::1]:1/ x"),
        other => panic!("expected an address, got {other:?}"),
    }
}

#[test]
fn waits_for_a_server_without_an_address() {
    assert!(matches!(after_url_line(""), LaunchStep::AwaitExit));
    assert!(matches!(after_url_line(" \r\n"), LaunchStep::AwaitExit));
    assert!(matches!(
        after_url_line("\u{9}\u{b}\u{c}\u{85}\u{1680}\u{2000}\u{200a}\u{2028}\u{2029}\u{202f}\u{205f}\u{3000}"),
        LaunchStep::AwaitExit
    ));
    assert!(!matches!(after_url_line("\u{200b}"), LaunchStep::AwaitExit));
}

#[test]
fn reports_why_a_server_has_exited() {
    assert_eq!(
        failure(after_exit("exit status: 1", " \n")),
        "comparison server exited before starting (exit status: 1)"
    );
    assert_eq!(
        failure(after_exit("exit status: 1", "\nerror: no such file\n")),
        "comparison server exited before starting (exit status: 1): error: no such file"
    );
}

#[test]
fn stops_a_server_that_no_browser_shows() {
    assert!(matches!(after_open("http://x/", true), LaunchStep::Launched));
    match after_open("http://x/", false) {
        LaunchStep::StopServer { message } => {
            assert_eq!(message, "failed to open 'http://x/' in the default browser");
            assert_eq!(
                failure(after_stop(message)),
                "failed to open 'http://x/' in the default browser"
            );
        }
        other => panic!("expected a stop, got {other:?}"),
    }
}
