//! Running a command inside a sandbox.
//!
//! The host forks, executes and waits. What is decided here is which
//! schemes the host is found to offer, which step of the launch follows
//! which, and what the caller gets back.

use vstd::prelude::*;
use vstd::string::*;
use vstd::utf8::{decode_utf8, valid_utf8};
use crate::abi::EIO;
use crate::contain_config::names;
use crate::error::ContainError;
use crate::filterscheme::denial;
use crate::text::to_chars;

verus! {

/// The exit code of a contained process whose command could not be
/// executed.
pub const CONTAIN_EXEC_FAIL_EXIT: i32 = 13;

/// The white space of ASCII: space, tab, line feed, form feed and carriage
/// return.
pub open spec fn is_space(c: char) -> bool {
    c == ' ' || c == '\t' || c == '\n' || c == '\x0C' || c == '\r'
}

/// The length of the word that `s` begins with: the number of characters
/// before its first white space.
pub open spec fn word_len(s: Seq<char>) -> nat
    decreases s.len(),
{
    if s.len() == 0 || is_space(s[0]) {
        0
    } else {
        1 + word_len(s.drop_first())
    }
}

/// The words of `s`: its longest runs of characters without white space, in
/// order.
pub open spec fn words(s: Seq<char>) -> Seq<Seq<char>>
    decreases s.len(),
{
    if s.len() == 0 {
        seq![]
    } else if is_space(s[0]) {
        words(s.drop_first())
    } else {
        let n = word_len(s) as int;
        proof {
            lemma_word_len_bounds(s);
        }
        seq![s.take(n)] + words(s.skip(n))
    }
}

/// A word is no longer than the text it begins, and not empty unless the
/// text is empty or begins with white space.
pub proof fn lemma_word_len_bounds(s: Seq<char>)
    ensures
        word_len(s) <= s.len(),
        s.len() > 0 && !is_space(s[0]) ==> word_len(s) > 0,
    decreases s.len(),
{
    if s.len() > 0 && !is_space(s[0]) {
        lemma_word_len_bounds(s.drop_first());
    }
}

/// The word that `s` begins with ends at `n` if no white space stands
/// before `n`, and `s` ends there or white space follows.
pub proof fn lemma_word_len_is(s: Seq<char>, n: int)
    requires
        0 <= n <= s.len(),
        forall|i: int| 0 <= i < n ==> !is_space(s[i]),
        n == s.len() || is_space(s[n]),
    ensures
        word_len(s) == n,
    decreases n,
{
    if n > 0 {
        lemma_word_len_is(s.drop_first(), n - 1);
    }
}

/// The text that the bytes encode in UTF-8, if they encode one.
///
/// Trusted: this is `core::str::from_utf8`. It returns a string exactly if
/// the bytes are valid UTF-8, and the string then consists of these bytes.
#[verifier::external_body]
fn utf8_text(bytes: &[u8]) -> (r: Option<&str>)
    ensures
        r is Some <==> valid_utf8(bytes@),
        r matches Some(text) ==> text.spec_bytes() == bytes@,
{
    core::str::from_utf8(bytes).ok()
}

/// Whether `c` is white space of ASCII.
pub fn is_ascii_space(c: char) -> (r: bool)
    ensures
        r == is_space(c),
{
    c == ' ' || c == '\t' || c == '\n' || c == '\x0C' || c == '\r'
}

/// The names in a listing of schemes: its words.
pub fn scheme_names(listing: &str) -> (r: Vec<String>)
    ensures
        names(r@) == words(listing@),
{
    let chars = to_chars(listing);
    let n = chars.len();
    let mut out: Vec<String> = Vec::new();
    let mut i: usize = 0;
    assert(chars@.skip(0) =~= chars@);
    assert(names(out@) =~= Seq::<Seq<char>>::empty());
    while i < n
        invariant
            i <= n,
            n == chars.len(),
            chars@ == listing@,
            names(out@) + words(chars@.skip(i as int)) == words(chars@),
        decreases n - i,
    {
        let ghost rest = chars@.skip(i as int);
        if is_ascii_space(chars[i]) {
            assert(rest.drop_first() =~= chars@.skip(i + 1));
            i += 1;
        } else {
            let start = i;
            let mut end: usize = i + 1;
            while end < n && !is_ascii_space(chars[end])
                invariant
                    start < end <= n,
                    n == chars.len(),
                    forall|k: int| start <= k < end ==> !is_space(chars@[k]),
                decreases n - end,
            {
                end += 1;
            }
            let word = String::from_str(listing.substring_char(start, end));
            proof {
                lemma_word_len_is(rest, end - start);
                assert(rest.take(end - start) =~= word@);
                assert(rest.skip(end - start) =~= chars@.skip(end as int));
                assert(names(out@.push(word)) =~= names(out@) + seq![word@]);
            }
            out.push(word);
            i = end;
        }
    }
    assert(chars@.skip(n as int) =~= Seq::<char>::empty());
    assert(names(out@) + Seq::<Seq<char>>::empty() =~= names(out@));
    out
}

/// The schemes that the host offers, from what the host's root scheme
/// holds: the words of the listing. A listing that is not UTF-8 is refused
/// as an input error of the kernel.
pub fn list_schemes(listing: &[u8]) -> (r: Result<Vec<String>, ContainError>)
    ensures
        match r {
            Ok(schemes) => valid_utf8(listing@) && names(schemes@) == words(decode_utf8(listing@)),
            Err(e) => !valid_utf8(listing@) && e == ContainError::SyscallError(denial(EIO)),
        },
{
    broadcast use vstd::utf8::encode_utf8_decode_utf8;

    match utf8_text(listing) {
        Some(text) => Ok(scheme_names(text)),
        None => Err(ContainError::SyscallError(syscall::Error { errno: EIO })),
    }
}

/// The exit code of a command that ran outside a sandbox: the one it gave,
/// or 1 if it gave none.
pub fn exit_code(code: Option<i32>) -> (r: i32)
    ensures
        r == match code {
            Some(c) => c,
            None => 1,
        },
{
    match code {
        Some(c) => c,
        None => 1,
    }
}

/// The status word with which the host reports a process that has exited
/// with `code`: the code stands in the second lowest byte.
pub fn exit_status(code: u8) -> (r: i32)
    ensures
        r == code * 256,
{
    (code as i32) * 256
}

/// How far the launch of a command in a namespace has come.
#[derive(Clone, Copy, Debug, PartialEq, Eq)]
pub enum Launch {
    /// The host forks.
    Forking,
    /// The child enters the namespace.
    Entering,
    /// The child executes the command.
    Executing,
    /// The parent waits for the child.
    Waiting,
    /// The child has ended with `status`; the parent collects whatever else
    /// has ended.
    Reaping { status: i32 },
    /// The launch is over.
    Over,
}

/// What the host reports during a launch.
#[derive(Clone, Copy, Debug, PartialEq, Eq)]
pub enum Report {
    /// The fork has returned this: negative where it failed, 0 in the
    /// child, the child's number in the parent.
    Forked(i32),
    /// The answer to entering the namespace.
    Entered(Result<(), syscall::Error>),
    /// The command could not be executed.
    ExecFailed,
    /// The child has ended, with this status word; or waiting has failed.
    Waited(Result<i32, syscall::Error>),
    /// The number of another process that has ended, 0 if there is none; or
    /// the failure to ask.
    Reaped(Result<usize, syscall::Error>),
}

/// What is to be done next in a launch.
#[derive(Debug)]
pub enum Order {
    /// Enter the namespace, for the process and for what it starts.
    Enter { namespace: usize },
    /// Execute the command.
    Exec,
    /// End the process with this exit code.
    Exit(i32),
    /// Wait until the child with this number ends.
    Wait { child: usize },
    /// Collect one more process that has ended, without waiting.
    Reap,
    /// Return the status word of the child.
    Return(i32),
    /// Return the error of the host's last input or output.
    FailWithLastError,
    /// Return this error.
    Fail(ContainError),
}

/// The course of a launch in `namespace`: the state and the order that
/// follow the report `report` in `state`.
///
/// The child enters the namespace and executes the command; if it cannot
/// execute it, it exits with `CONTAIN_EXEC_FAIL_EXIT`. The parent waits for
/// the child, collects every other process that has ended, and returns the
/// child's status word as the host gave it. A failure to collect ends the
/// collecting and nothing else.
pub open spec fn launch_of(namespace: usize, state: Launch, report: Report) -> (Launch, Order) {
    match (state, report) {
        (Launch::Forking, Report::Forked(pid)) => if pid < 0 {
            (Launch::Over, Order::FailWithLastError)
        } else if pid == 0 {
            (Launch::Entering, Order::Enter { namespace })
        } else {
            (Launch::Waiting, Order::Wait { child: pid as usize })
        },
        (Launch::Entering, Report::Entered(Ok(_))) => (Launch::Executing, Order::Exec),
        (Launch::Entering, Report::Entered(Err(e))) => (
            Launch::Over,
            Order::Fail(ContainError::SyscallError(e)),
        ),
        (Launch::Executing, Report::ExecFailed) => (
            Launch::Over,
            Order::Exit(CONTAIN_EXEC_FAIL_EXIT),
        ),
        (Launch::Waiting, Report::Waited(Ok(status))) => (
            Launch::Reaping { status },
            Order::Reap,
        ),
        (Launch::Waiting, Report::Waited(Err(e))) => (
            Launch::Over,
            Order::Fail(ContainError::SyscallError(e)),
        ),
        (Launch::Reaping { status }, Report::Reaped(Ok(pid))) => if pid == 0 {
            (Launch::Over, Order::Return(status))
        } else {
            (Launch::Reaping { status }, Order::Reap)
        },
        (Launch::Reaping { status }, Report::Reaped(Err(_))) => (
            Launch::Over,
            Order::Return(status),
        ),
        _ => (Launch::Over, Order::Fail(ContainError::ThreadError)),
    }
}

/// Where a launch stands after the reports `reports`, given one after the
/// other to a launch in `state`: its state, and the last order, `last` if
/// there was no report.
pub open spec fn launch_course(
    namespace: usize,
    state: Launch,
    last: Order,
    reports: Seq<Report>,
) -> (Launch, Order)
    decreases reports.len(),
{
    if reports.len() == 0 {
        (state, last)
    } else {
        let (next, order) = launch_of(namespace, state, reports[0]);
        launch_course(namespace, next, order, reports.drop_first())
    }
}

/// The reports of the processes `others` that have ended, and of the end of
/// the collecting.
pub open spec fn collected(others: Seq<usize>) -> Seq<Report> {
    Seq::new(others.len(), |i: int| Report::Reaped(Ok(others[i]))) + seq![Report::Reaped(Ok(0))]
}

/// A parent that collects returns the status of its child once nothing is
/// left to collect, however many other processes have ended.
pub proof fn lemma_collecting_keeps_status(namespace: usize, status: i32, others: Seq<usize>)
    requires
        forall|i: int| 0 <= i < others.len() ==> others[i] != 0,
    ensures
        launch_course(namespace, Launch::Reaping { status }, Order::Reap, collected(others)) == (
            Launch::Over,
            Order::Return(status),
        ),
    decreases others.len(),
{
    let reports = collected(others);
    if others.len() == 0 {
        assert(reports.drop_first() =~= Seq::<Report>::empty());
        reveal_with_fuel(launch_course, 2);
    } else {
        assert(reports[0] == Report::Reaped(Ok(others[0])));
        assert(reports.drop_first() =~= collected(others.drop_first()));
        lemma_collecting_keeps_status(namespace, status, others.drop_first());
    }
}

/// The parent of a launch returns the status word of the child, as the host
/// gave it: the host forks and gives the parent the child `child`, the child
/// ends with `status`, and the processes `others` have ended besides.
pub proof fn lemma_parent_returns_status(
    namespace: usize,
    child: i32,
    status: i32,
    others: Seq<usize>,
)
    requires
        child > 0,
        forall|i: int| 0 <= i < others.len() ==> others[i] != 0,
    ensures
        launch_course(
            namespace,
            Launch::Forking,
            Order::Reap,
            seq![Report::Forked(child), Report::Waited(Ok(status))] + collected(others),
        ) == (Launch::Over, Order::Return(status)),
{
    let reports = seq![Report::Forked(child), Report::Waited(Ok(status))] + collected(others);
    let after_fork = reports.drop_first();
    assert(reports[0] == Report::Forked(child));
    assert(after_fork[0] == Report::Waited(Ok(status)));
    assert(after_fork.drop_first() =~= collected(others));
    lemma_collecting_keeps_status(namespace, status, others);
    reveal_with_fuel(launch_course, 3);
}

/// The child of a launch enters the namespace before it executes the
/// command, and exits with `CONTAIN_EXEC_FAIL_EXIT` if it cannot execute
/// it.
pub proof fn lemma_child_exits_if_it_cannot_execute(namespace: usize)
    ensures
        launch_course(
            namespace,
            Launch::Forking,
            Order::Reap,
            seq![Report::Forked(0), Report::Entered(Ok(()))],
        ) == (Launch::Executing, Order::Exec),
        launch_course(
            namespace,
            Launch::Forking,
            Order::Reap,
            seq![Report::Forked(0), Report::Entered(Ok(())), Report::ExecFailed],
        ) == (Launch::Over, Order::Exit(CONTAIN_EXEC_FAIL_EXIT)),
        launch_of(namespace, Launch::Forking, Report::Forked(0)) == (
            Launch::Entering,
            Order::Enter { namespace },
        ),
{
    reveal_with_fuel(launch_course, 4);
    let two = seq![Report::Forked(0), Report::Entered(Ok(()))];
    assert(two.drop_first().drop_first() =~= Seq::<Report>::empty());
    let three = seq![Report::Forked(0), Report::Entered(Ok(())), Report::ExecFailed];
    assert(three.drop_first().drop_first().drop_first() =~= Seq::<Report>::empty());
}

/// The state in which a launch starts. The host forks first.
pub fn launch_start() -> (r: Launch)
    ensures
        r == Launch::Forking,
{
    Launch::Forking
}

/// Take the launch of a command in `namespace` one step further: from the
/// state it is in and the host's report, to the next state and the next
/// order.
pub fn launch_step(namespace: usize, state: Launch, report: Report) -> (r: (Launch, Order))
    ensures
        r == launch_of(namespace, state, report),
{
    match (state, report) {
        (Launch::Forking, Report::Forked(pid)) => {
            if pid < 0 {
                (Launch::Over, Order::FailWithLastError)
            } else if pid == 0 {
                (Launch::Entering, Order::Enter { namespace })
            } else {
                (Launch::Waiting, Order::Wait { child: pid as usize })
            }
        },
        (Launch::Entering, Report::Entered(Ok(_))) => (Launch::Executing, Order::Exec),
        (Launch::Entering, Report::Entered(Err(e))) => (
            Launch::Over,
            Order::Fail(ContainError::SyscallError(e)),
        ),
        (Launch::Executing, Report::ExecFailed) => (
            Launch::Over,
            Order::Exit(CONTAIN_EXEC_FAIL_EXIT),
        ),
        (Launch::Waiting, Report::Waited(Ok(status))) => (Launch::Reaping { status }, Order::Reap),
        (Launch::Waiting, Report::Waited(Err(e))) => (
            Launch::Over,
            Order::Fail(ContainError::SyscallError(e)),
        ),
        (Launch::Reaping { status }, Report::Reaped(Ok(pid))) => {
            if pid == 0 {
                (Launch::Over, Order::Return(status))
            } else {
                (Launch::Reaping { status }, Order::Reap)
            }
        },
        (Launch::Reaping { status }, Report::Reaped(Err(_))) => (
            Launch::Over,
            Order::Return(status),
        ),
        _ => (Launch::Over, Order::Fail(ContainError::ThreadError)),
    }
}

} // verus!
