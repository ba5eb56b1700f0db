use compare_svg::squash::{first_commit, squash_file, PendingStatus, SquashError, SquashStep};

fn pending(index: usize, count: usize) -> PendingStatus {
    match squash_file(index, count) {
        SquashStep::ShowStatus(pending) => pending,
        other => panic!("expected a question, got {other:?}"),
    }
}

fn error(step: SquashStep) -> SquashError {
    match step {
        SquashStep::Failed(error) => error,
        other => panic!("expected a failure, got {other:?}"),
    }
}

fn next(index: usize, count: usize) -> usize {
    let SquashStep::Squash(pending) = pending(index, count).answer(Some("● 0123abc first".as_bytes())) else {
        panic!("expected a commit");
    };
    assert_eq!(pending.index(), index);
    assert_eq!(pending.commit(), "0123abc");
    match pending.answer(true) {
        SquashStep::Squashed { next } => next,
        other => panic!("expected success, got {other:?}"),
    }
}

#[test]
fn finds_the_first_commit() {
    let status = "╭┄00 [Unassigned Changes]\n┊   g0 M icons/a.svg\n┊\n┊╭┄h0 [abcdef0]\n┊●   9d1a2b3 Add icons\n┊●   1111111 Before\n├╯\n";
    assert_eq!(first_commit(status), Some("9d1a2b3".to_string()));
    assert_eq!(first_commit("0123456789abcdef"), Some("0123456789abcdef".to_string()));
    assert_eq!(first_commit("012345 0123456\t"), Some("0123456".to_string()));
    assert_eq!(first_commit("012345g 012345A x0123456"), None);
    assert_eq!(first_commit(""), None);
}

#[test]
fn advances_to_the_next_file() {
    assert_eq!(next(0, 3), 1);
    assert_eq!(next(1, 3), 2);
    assert_eq!(next(2, 3), 2);
    assert_eq!(next(0, 1), 0);
}

#[test]
fn says_what_was_not_done() {
    assert_eq!(error(squash_file(3, 3)), SquashError::UnknownFile);
    assert_eq!(error(squash_file(0, 0)), SquashError::UnknownFile);
    assert_eq!(error(pending(0, 1).answer(None)), SquashError::NoStatus);
    assert_eq!(error(pending(0, 1).answer(Some(b"nothing here"))), SquashError::NoCommit);
    let SquashStep::Squash(pending) = pending(0, 2).answer(Some(b"0123abc")) else {
        panic!("expected a commit");
    };
    assert_eq!(error(pending.answer(false)), SquashError::NotSquashed);
}

#[test]
fn reads_a_status_that_is_no_text() {
    let SquashStep::Squash(pending) = pending(0, 1).answer(Some(b"\xff 9d1a2b3 \xfe")) else {
        panic!("expected a commit");
    };
    assert_eq!(pending.commit(), "9d1a2b3");
}

#[test]
fn tells_the_page_of_errors() {
    assert_eq!(SquashError::UnknownFile.status_code(), 404);
    assert_eq!(SquashError::NoStatus.status_code(), 500);
    assert_eq!(SquashError::NoCommit.status_code(), 500);
    assert_eq!(SquashError::NotSquashed.status_code(), 500);
}
