//! Starting a server in the background and opening its page.

use std::path::PathBuf;

use vstd::prelude::*;
use vstd::utf8::encode_utf8;

use crate::cli::{asks_for, serve_values, DEFAULT_SHUTDOWN_TIMEOUT_SECONDS};
use crate::lifecycle::server_url_text;
use crate::os_path::{all_path_bytes, copy_path, path_bytes, path_from_text};
use crate::routes::COMPARISON_ROUTE;
use crate::text::{is_white_space, lemma_trimmed_between, trimmed, trimmed_end, trimmed_start};

verus! {

/// The arguments of a program that serves the comparison of `paths`, after its
/// name.
pub open spec fn server_argument_bytes(paths: Seq<Seq<u8>>) -> Seq<Seq<u8>> {
    seq![encode_utf8("serve"@), encode_utf8("--"@)] + paths
}

/// A program that is run with these arguments is asked to serve the same files,
/// with the default grace period.
pub proof fn lemma_server_compares_same_files(program: Seq<u8>, paths: Seq<Seq<u8>>)
    requires
        paths.len() > 0,
        forall|i: int| 0 <= i < paths.len() ==> (#[trigger] paths[i]).len() > 0,
    ensures
        asks_for(
            seq![program] + server_argument_bytes(paths),
            serve_values(Seq::empty(), DEFAULT_SHUTDOWN_TIMEOUT_SECONDS, paths),
        ),
{
    let arguments = seq![program] + server_argument_bytes(paths);
    assert forall|i: int| 3 <= i < arguments.len() implies (#[trigger] arguments[i]).len() > 0 by {
        assert(arguments[i] == paths[i - 3]);
    }
    assert(arguments.skip(3) =~= paths);
}

/// The arguments of a program that serves the comparison of `paths`, after its
/// name. No path is taken for an option.
pub fn server_arguments(paths: &Vec<PathBuf>) -> (arguments: Vec<PathBuf>)
    ensures
        all_path_bytes(arguments@) == server_argument_bytes(all_path_bytes(paths@)),
{
    let mut arguments: Vec<PathBuf> = Vec::new();
    arguments.push(path_from_text("serve"));
    arguments.push(path_from_text("--"));
    let ghost head = seq![encode_utf8("serve"@), encode_utf8("--"@)];
    proof {
        assert(all_path_bytes(arguments@) =~= head + all_path_bytes(paths@.take(0)));
    }
    for i in 0..paths.len()
        invariant
            all_path_bytes(arguments@) == head + all_path_bytes(paths@.take(i as int)),
    {
        let ghost before = arguments@;
        let path = copy_path(&paths[i]);
        arguments.push(path);
        proof {
            assert(all_path_bytes(arguments@) =~= all_path_bytes(before).push(
                path_bytes(paths@[i as int]),
            ));
            assert(all_path_bytes(paths@.take(i + 1)) =~= all_path_bytes(
                paths@.take(i as int),
            ).push(path_bytes(paths@[i as int])));
            assert(all_path_bytes(arguments@) =~= head + all_path_bytes(paths@.take(i + 1)));
        }
    }
    assert(paths@.take(paths@.len() as int) =~= paths@);
    arguments
}

/// What to do with a server that was started, or what came out.
#[derive(Debug)]
pub enum LaunchStep {
    /// Open this address in the browser.
    OpenBrowser { url: String },
    /// Wait until the server has exited, for it has not said its address.
    AwaitExit,
    /// Stop the server, then fail with this message.
    StopServer { message: String },
    /// Leave the server running.
    Launched,
    /// Fail with this message.
    Failed { message: String },
}

/// What a [`LaunchStep`] is.
pub enum LaunchView {
    OpenBrowser { url: Seq<char> },
    AwaitExit,
    StopServer { message: Seq<char> },
    Launched,
    Failed { message: Seq<char> },
}

impl View for LaunchStep {
    type V = LaunchView;

    open spec fn view(&self) -> LaunchView {
        match self {
            LaunchStep::OpenBrowser { url } => LaunchView::OpenBrowser { url: url@ },
            LaunchStep::AwaitExit => LaunchView::AwaitExit,
            LaunchStep::StopServer { message } => LaunchView::StopServer { message: message@ },
            LaunchStep::Launched => LaunchView::Launched,
            LaunchStep::Failed { message } => LaunchView::Failed { message: message@ },
        }
    }
}

/// The step after the first line of a server's output.
pub open spec fn after_url_line_spec(line: Seq<char>) -> LaunchView {
    let url = trimmed(line);
    if url.len() == 0 {
        LaunchView::AwaitExit
    } else {
        LaunchView::OpenBrowser { url }
    }
}

/// The step after the first line of a server's output, which is the address of
/// its page. The line is empty where the server has closed its output.
pub fn after_url_line(line: &str) -> (step: LaunchStep)
    ensures
        step@ == after_url_line_spec(line@),
{
    let url = line.trim();
    if url.is_empty() {
        LaunchStep::AwaitExit
    } else {
        LaunchStep::OpenBrowser { url: url.to_owned() }
    }
}

/// What is said about a server that has exited with `status` without a page.
pub open spec fn exit_text(status: Seq<char>, errors: Seq<char>) -> Seq<char> {
    let complaint = trimmed(errors);
    if complaint.len() == 0 {
        "comparison server exited before starting ("@ + status + ")"@
    } else {
        "comparison server exited before starting ("@ + status + "): "@ + complaint
    }
}

/// The step after a server has exited without a page; `errors` is what it has
/// said on standard error.
pub fn after_exit(status: &str, errors: &str) -> (step: LaunchStep)
    ensures
        step@ == (LaunchView::Failed { message: exit_text(status@, errors@) }),
{
    let complaint = errors.trim();
    let mut message = "comparison server exited before starting (".to_owned();
    message.append(status);
    if complaint.is_empty() {
        message.append(")");
    } else {
        message.append("): ");
        message.append(complaint);
    }
    LaunchStep::Failed { message }
}

/// What is said about an address that the browser cannot be opened at.
pub open spec fn open_failure_text(url: Seq<char>) -> Seq<char> {
    "failed to open '"@ + url + "' in the default browser"@
}

/// The step after the attempt to open `url` in the browser.
pub open spec fn after_open_spec(url: Seq<char>, opened: bool) -> LaunchView {
    if opened {
        LaunchView::Launched
    } else {
        LaunchView::StopServer { message: open_failure_text(url) }
    }
}

/// The step after the attempt to open `url` in the browser.
pub fn after_open(url: &str, opened: bool) -> (step: LaunchStep)
    ensures
        step@ == after_open_spec(url@, opened),
{
    if opened {
        LaunchStep::Launched
    } else {
        let mut message = "failed to open '".to_owned();
        message.append(url);
        message.append("' in the default browser");
        LaunchStep::StopServer { message }
    }
}

/// The step after a server was stopped because its page could not be opened.
pub open spec fn after_stop_spec(message: Seq<char>) -> LaunchView {
    LaunchView::Failed { message }
}

/// The step after a server was stopped because its page could not be opened.
pub fn after_stop(message: String) -> (step: LaunchStep)
    ensures
        step@ == after_stop_spec(message@),
{
    LaunchStep::Failed { message }
}

/// The browser is opened at the very address that the server has written on a
/// line of its own.
pub proof fn lemma_written_url_is_opened(address: Seq<char>)
    ensures
        after_url_line_spec(server_url_text(address).push('\n')) == (LaunchView::OpenBrowser {
            url: server_url_text(address),
        }),
{
    let url = server_url_text(address);
    let line = url.push('\n');
    reveal_strlit("http://");
    reveal_strlit("/");
    assert(COMPARISON_ROUTE@.len() == 1);
    assert(url[0] == 'h');
    assert(url.last() == '/');
    assert(!is_white_space(line[0]));
    assert(trimmed_start(line) == line);
    assert(line.drop_last() =~= url);
    assert(is_white_space(line.last()));
    assert(trimmed_end(line) == trimmed_end(url));
    assert(!is_white_space(url.last()));
    assert(trimmed_end(url) == url);
}

/// White space around the address that a server has written is left out, and the
/// browser is opened at all the rest.
pub proof fn lemma_padded_url_is_opened(before: Seq<char>, url: Seq<char>, after: Seq<char>)
    requires
        forall|i: int| 0 <= i < before.len() ==> is_white_space(#[trigger] before[i]),
        forall|i: int| 0 <= i < after.len() ==> is_white_space(#[trigger] after[i]),
        url.len() > 0,
        !is_white_space(url[0]),
        !is_white_space(url.last()),
    ensures
        after_url_line_spec(before + url + after) == (LaunchView::OpenBrowser { url }),
{
    lemma_trimmed_between(before, url, after);
}

/// The exit of a server is awaited that has written nothing but white space.
pub proof fn lemma_blank_line_is_no_url(line: Seq<char>)
    requires
        forall|i: int| 0 <= i < line.len() ==> is_white_space(#[trigger] line[i]),
    ensures
        after_url_line_spec(line) is AwaitExit,
{
    let none = Seq::<char>::empty();
    lemma_trimmed_between(line, none, none);
    assert(line + none + none =~= line);
}

/// The message about a server that has exited tells its status, and all that it has
/// complained about but for white space around it.
pub proof fn lemma_exit_is_explained(
    status: Seq<char>,
    before: Seq<char>,
    complaint: Seq<char>,
    after: Seq<char>,
)
    requires
        forall|i: int| 0 <= i < before.len() ==> is_white_space(#[trigger] before[i]),
        forall|i: int| 0 <= i < after.len() ==> is_white_space(#[trigger] after[i]),
        complaint.len() > 0 ==> !is_white_space(complaint[0]) && !is_white_space(complaint.last()),
    ensures
        ({
            let start = "comparison server exited before starting ("@;
            let text = exit_text(status, before + complaint + after);
            &&& text.take((start.len() + status.len()) as int) == start + status
            &&& complaint.len() == 0 ==> text.skip((start.len() + status.len()) as int) == seq![')']
            &&& complaint.len() > 0 ==> text.skip((start.len() + status.len()) as int) == seq![
                ')',
                ':',
                ' ',
            ] + complaint
        }),
{
    lemma_trimmed_between(before, complaint, after);
    reveal_strlit(")");
    reveal_strlit("): ");
    let start = "comparison server exited before starting ("@;
    let text = exit_text(status, before + complaint + after);
    let n = (start.len() + status.len()) as int;
    assert(text.take(n) =~= start + status);
    if complaint.len() == 0 {
        assert(text.skip(n) =~= seq![')']);
    } else {
        assert(text.skip(n) =~= seq![')', ':', ' '] + complaint);
    }
}

/// The message about an address that cannot be opened quotes the address, whole.
pub proof fn lemma_unopened_url_is_quoted(url: Seq<char>)
    ensures
        ({
            let start = "failed to open '"@;
            let end = "' in the default browser"@;
            let text = open_failure_text(url);
            &&& text.len() == start.len() + url.len() + end.len()
            &&& text.take(start.len() as int) == start
            &&& text.subrange(start.len() as int, (start.len() + url.len()) as int) == url
            &&& text.skip((start.len() + url.len()) as int) == end
        }),
{
    let start = "failed to open '"@;
    let end = "' in the default browser"@;
    let text = open_failure_text(url);
    assert(text.take(start.len() as int) =~= start);
    assert(text.subrange(start.len() as int, (start.len() + url.len()) as int) =~= url);
    assert(text.skip((start.len() + url.len()) as int) =~= end);
}

/// A server whose page was opened is left running, and is stopped only otherwise; then
/// the launch fails with a message that quotes the address, whole.
pub proof fn lemma_unopened_server_is_stopped(url: Seq<char>, opened: bool)
    ensures
        opened <==> after_open_spec(url, opened) is Launched,
        !opened ==> {
            let start = "failed to open '"@;
            let end = "' in the default browser"@;
            let message = after_open_spec(url, opened)->StopServer_message;
            let said = after_stop_spec(message)->Failed_message;
            &&& after_open_spec(url, opened) is StopServer
            &&& after_stop_spec(message) is Failed
            &&& said.len() == start.len() + url.len() + end.len()
            &&& said.take(start.len() as int) == start
            &&& said.subrange(start.len() as int, (start.len() + url.len()) as int) == url
            &&& said.skip((start.len() + url.len()) as int) == end
        },
{
    lemma_unopened_url_is_quoted(url);
}

} // verus!
