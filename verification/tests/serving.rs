use std::sync::Arc;

use contain::abi::{EINVAL, EPERM, O_CREAT, O_RDONLY, O_WRONLY};
use contain::filterscheme::{Canonical, FilterScheme};
use contain::request::{Action, Event, Operation, Request, Stage};
use contain::ContainConfig;

fn policy() -> ContainConfig {
    let mut c = ContainConfig::default();
    c.sandbox_schemes = vec!["file".to_string()];
    c.dirs = vec!["file:/home/user".to_string()];
    c.rofiles = vec!["file:/etc/passwd".to_string()];
    c
}

fn filter() -> FilterScheme {
    FilterScheme::new("file", Arc::new(policy()))
}

fn request(operation: Operation, path: &str, flags: usize, uid: u32, gid: u32) -> Request {
    Request { operation, path: path.to_string(), flags, uid, gid }
}

fn failure(errno: i32) -> syscall::Error {
    syscall::Error::new(errno)
}

/// Runs a request against answers given in order, and returns the actions.
fn run(f: &FilterScheme, r: &Request, answers: Vec<Event>) -> (Stage, Vec<Action>) {
    let mut actions = Vec::new();
    let (mut stage, action) = f.step(r, Stage::Start, Event::Arrived);
    actions.push(action);
    for answer in answers {
        let (next, action) = f.step(r, stage, answer);
        stage = next;
        actions.push(action);
    }
    (stage, actions)
}

#[test]
fn open_is_served_in_the_name_of_the_caller() {
    let f = filter();
    let r = request(Operation::Open, "/etc/passwd", O_RDONLY | 0o644, 1000, 100);
    let (stage, actions) = run(
        &f,
        &r,
        vec![
            Event::Switched(Ok(())),
            Event::Switched(Ok(())),
            Event::Canonical(Canonical::Uri("file:/etc/passwd".to_string())),
            Event::Served(Ok(7)),
            Event::Switched(Ok(())),
            Event::Switched(Ok(())),
        ],
    );
    assert_eq!(stage, Stage::Done);
    assert_eq!(
        actions,
        vec![
            Action::SetGroup(100),
            Action::SetUser(1000),
            Action::Canonicalize("file:/etc/passwd".to_string()),
            Action::Open { uri: "file:/etc/passwd".to_string(), flags: O_RDONLY, mode: 0o644 },
            Action::SetUser(0),
            Action::SetGroup(0),
            Action::Reply(Ok(7)),
        ]
    );
}

#[test]
fn root_is_served_without_any_switch() {
    let f = filter();
    let r = request(Operation::Open, "/etc/passwd", O_RDONLY, 0, 0);
    let (stage, actions) = run(
        &f,
        &r,
        vec![
            Event::Canonical(Canonical::Uri("file:/etc/passwd".to_string())),
            Event::Served(Ok(3)),
        ],
    );
    assert_eq!(stage, Stage::Done);
    assert_eq!(
        actions,
        vec![
            Action::Canonicalize("file:/etc/passwd".to_string()),
            Action::Open { uri: "file:/etc/passwd".to_string(), flags: O_RDONLY, mode: 0 },
            Action::Reply(Ok(3)),
        ]
    );
}

#[test]
fn only_the_user_is_switched_for_the_root_group() {
    let f = filter();
    let r = request(Operation::Unlink, "/home/user/old", 0, 1000, 0);
    let (stage, actions) = run(
        &f,
        &r,
        vec![
            Event::Switched(Ok(())),
            Event::Canonical(Canonical::Uri("file:/home/user/old".to_string())),
            Event::Served(Ok(0)),
            Event::Switched(Ok(())),
        ],
    );
    assert_eq!(stage, Stage::Done);
    assert_eq!(
        actions,
        vec![
            Action::SetUser(1000),
            Action::Canonicalize("file:/home/user/old".to_string()),
            Action::Unlink("file:/home/user/old".to_string()),
            Action::SetUser(0),
            Action::Reply(Ok(0)),
        ]
    );
}

#[test]
fn only_the_group_is_switched_for_the_root_user() {
    let f = filter();
    let r = request(Operation::Rmdir, "/home/user/dir", 0, 0, 100);
    let (stage, actions) = run(
        &f,
        &r,
        vec![
            Event::Switched(Ok(())),
            Event::Canonical(Canonical::Uri("file:/home/user/dir".to_string())),
            Event::Served(Ok(0)),
            Event::Switched(Ok(())),
        ],
    );
    assert_eq!(stage, Stage::Done);
    assert_eq!(
        actions,
        vec![
            Action::SetGroup(100),
            Action::Canonicalize("file:/home/user/dir".to_string()),
            Action::Rmdir("file:/home/user/dir".to_string()),
            Action::SetGroup(0),
            Action::Reply(Ok(0)),
        ]
    );
}

#[test]
fn a_denial_is_answered_after_the_identity_is_restored() {
    let f = filter();
    let r = request(Operation::Open, "/etc/../shadow", O_RDONLY, 1000, 100);
    let (stage, actions) = run(
        &f,
        &r,
        vec![
            Event::Switched(Ok(())),
            Event::Switched(Ok(())),
            Event::Switched(Ok(())),
            Event::Switched(Ok(())),
        ],
    );
    assert_eq!(stage, Stage::Done);
    assert_eq!(
        actions,
        vec![
            Action::SetGroup(100),
            Action::SetUser(1000),
            Action::SetUser(0),
            Action::SetGroup(0),
            Action::Reply(Err(failure(EINVAL))),
        ]
    );
}

#[test]
fn a_denial_after_the_host_has_answered_is_passed_on() {
    let f = filter();
    let r = request(Operation::Open, "/etc/passwd", O_WRONLY, 1000, 0);
    let (stage, actions) = run(
        &f,
        &r,
        vec![
            Event::Switched(Ok(())),
            Event::Canonical(Canonical::Uri("file:/etc/passwd".to_string())),
            Event::Switched(Ok(())),
        ],
    );
    assert_eq!(stage, Stage::Done);
    assert_eq!(actions[2], Action::SetUser(0));
    assert_eq!(actions[3], Action::Reply(Err(failure(EPERM))));
}

#[test]
fn the_error_of_the_host_is_passed_on() {
    let f = filter();
    let r = request(Operation::Open, "/home/user/x", O_CREAT | O_WRONLY | 0o600, 1000, 100);
    let (stage, actions) = run(
        &f,
        &r,
        vec![
            Event::Switched(Ok(())),
            Event::Switched(Ok(())),
            Event::Canonical(Canonical::Uri("file:/home/user".to_string())),
            Event::Served(Err(failure(28))),
            Event::Switched(Ok(())),
            Event::Switched(Ok(())),
        ],
    );
    assert_eq!(stage, Stage::Done);
    assert_eq!(actions[2], Action::Canonicalize("file:/home/user".to_string()));
    assert_eq!(
        actions[3],
        Action::Open {
            uri: "file:/home/user/x".to_string(),
            flags: O_CREAT | O_WRONLY,
            mode: 0o600
        }
    );
    assert_eq!(actions[6], Action::Reply(Err(failure(28))));
}

#[test]
fn a_group_that_cannot_be_taken_ends_the_request() {
    let f = filter();
    let r = request(Operation::Open, "/etc/passwd", O_RDONLY, 1000, 100);
    let (stage, actions) = run(&f, &r, vec![Event::Switched(Err(failure(EPERM)))]);
    assert_eq!(stage, Stage::Done);
    assert_eq!(actions, vec![Action::SetGroup(100), Action::Reply(Err(failure(EPERM)))]);
}

#[test]
fn a_user_that_cannot_be_taken_gives_the_group_back() {
    let f = filter();
    let r = request(Operation::Open, "/etc/passwd", O_RDONLY, 1000, 100);
    let (stage, actions) = run(
        &f,
        &r,
        vec![
            Event::Switched(Ok(())),
            Event::Switched(Err(failure(EPERM))),
            Event::Switched(Ok(())),
        ],
    );
    assert_eq!(stage, Stage::Done);
    assert_eq!(
        actions,
        vec![
            Action::SetGroup(100),
            Action::SetUser(1000),
            Action::SetGroup(0),
            Action::Reply(Err(failure(EPERM))),
        ]
    );
    let lone = request(Operation::Open, "/etc/passwd", O_RDONLY, 1000, 0);
    let (stage, actions) = run(&f, &lone, vec![Event::Switched(Err(failure(EPERM)))]);
    assert_eq!(stage, Stage::Done);
    assert_eq!(actions, vec![Action::SetUser(1000), Action::Reply(Err(failure(EPERM)))]);
}

#[test]
fn an_identity_that_cannot_be_restored_aborts() {
    let f = filter();
    let r = request(Operation::Open, "/etc/passwd", O_RDONLY, 1000, 100);
    let canonical = || Event::Canonical(Canonical::Uri("file:/etc/passwd".to_string()));
    // the user cannot be given back
    let (stage, actions) = run(
        &f,
        &r,
        vec![
            Event::Switched(Ok(())),
            Event::Switched(Ok(())),
            canonical(),
            Event::Served(Ok(5)),
            Event::Switched(Err(failure(EPERM))),
        ],
    );
    assert_eq!(stage, Stage::Aborted);
    assert_eq!(actions.last(), Some(&Action::Abort));
    // the group cannot be given back
    let (stage, actions) = run(
        &f,
        &r,
        vec![
            Event::Switched(Ok(())),
            Event::Switched(Ok(())),
            canonical(),
            Event::Served(Ok(5)),
            Event::Switched(Ok(())),
            Event::Switched(Err(failure(EPERM))),
        ],
    );
    assert_eq!(stage, Stage::Aborted);
    assert_eq!(actions.last(), Some(&Action::Abort));
    // the group cannot be given back after the user could not be taken
    let (stage, actions) = run(
        &f,
        &r,
        vec![
            Event::Switched(Ok(())),
            Event::Switched(Err(failure(EPERM))),
            Event::Switched(Err(failure(EPERM))),
        ],
    );
    assert_eq!(stage, Stage::Aborted);
    assert_eq!(actions.last(), Some(&Action::Abort));
}

#[test]
fn an_answer_out_of_turn_aborts() {
    let f = filter();
    let r = request(Operation::Open, "/etc/passwd", O_RDONLY, 1000, 100);
    assert_eq!(f.step(&r, Stage::Start, Event::Served(Ok(1))), (Stage::Aborted, Action::Abort));
    assert_eq!(
        f.step(&r, Stage::Canonicalizing, Event::Switched(Ok(()))),
        (Stage::Aborted, Action::Abort)
    );
    assert_eq!(f.step(&r, Stage::Forwarding, Event::Arrived), (Stage::Aborted, Action::Abort));
    assert_eq!(f.step(&r, Stage::Done, Event::Arrived), (Stage::Aborted, Action::Abort));
    assert_eq!(f.step(&r, Stage::Aborted, Event::Arrived), (Stage::Aborted, Action::Abort));
}

#[test]
fn removals_are_resolved_without_flags() {
    let f = filter();
    // the flags of a removal play no part: the read-only rule admits it
    let r = request(Operation::Unlink, "/etc/passwd", O_WRONLY | O_CREAT, 0, 0);
    let (stage, actions) = run(
        &f,
        &r,
        vec![
            Event::Canonical(Canonical::Uri("file:/etc/passwd".to_string())),
            Event::Served(Ok(0)),
        ],
    );
    assert_eq!(stage, Stage::Done);
    assert_eq!(
        actions,
        vec![
            Action::Canonicalize("file:/etc/passwd".to_string()),
            Action::Unlink("file:/etc/passwd".to_string()),
            Action::Reply(Ok(0)),
        ]
    );
}
