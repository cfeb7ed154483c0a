//! Serving one request of a contained process.
//!
//! A filtered scheme serves a request in the name of the caller: it takes
//! the caller's group and user, resolves the path, lets the host do the
//! work, and gives the identity back before it replies. All of this is work
//! of the host. What the filter decides is the order, and what follows from
//! each of the host's answers: `FilterScheme::step` takes the stage that the
//! request is in and the host's answer to the last action, and returns the
//! next stage with the next action.

use vstd::prelude::*;
use vstd::string::*;
use crate::abi::{open_flags_of, open_mode_of, split_open_flags};
use crate::contain_config::Policy;
use crate::filterscheme::{
    lookup_of, resolution, target_of, Canonical, CanonicalView, FilterScheme, Lookup,
};

verus! {

/// The operations that a filtered scheme serves.
#[derive(Clone, Copy, Debug, PartialEq, Eq, Structural)]
pub enum Operation {
    /// Open a resource.
    Open,
    /// Remove a directory.
    Rmdir,
    /// Remove a file.
    Unlink,
}

/// A request as the kernel hands it over: what to do, on which path, and for
/// whom.
#[derive(Debug, PartialEq, Eq)]
pub struct Request {
    pub operation: Operation,
    /// The path within the scheme.
    pub path: String,
    /// The flags of an open. They play no part in other operations.
    pub flags: usize,
    /// The user that the caller acts as.
    pub uid: u32,
    /// The group that the caller acts as.
    pub gid: u32,
}

/// What a `Request` says, as a mathematical value.
pub struct RequestView {
    pub operation: Operation,
    pub path: Seq<char>,
    pub flags: usize,
    pub uid: u32,
    pub gid: u32,
}

impl View for Request {
    type V = RequestView;

    open spec fn view(&self) -> RequestView {
        RequestView {
            operation: self.operation,
            path: self.path@,
            flags: self.flags,
            uid: self.uid,
            gid: self.gid,
        }
    }
}

/// How far a request has come. Each stage but the first and the last two
/// waits for the host's answer to one action.
#[derive(Clone, Copy, Debug, PartialEq, Eq)]
pub enum Stage {
    /// Nothing has been done yet.
    Start,
    /// The caller's group is being taken.
    EnteringGroup,
    /// The caller's user is being taken.
    EnteringUser,
    /// The caller's user could not be taken, with `error`; the group is
    /// being given back.
    RollingBack { error: syscall::Error },
    /// The host is making a name canonical.
    Canonicalizing,
    /// The host is doing the work.
    Forwarding,
    /// The work has ended with `outcome`; the user is being given back.
    LeavingUser { outcome: Result<usize, syscall::Error> },
    /// The work has ended with `outcome`; the group is being given back.
    LeavingGroup { outcome: Result<usize, syscall::Error> },
    /// The reply has been given.
    Done,
    /// The request was given up: the identity of the process could not be
    /// restored, or an answer came that the stage did not wait for.
    Aborted,
}

/// What the host reports.
#[derive(Debug, PartialEq, Eq)]
pub enum Event {
    /// The request has arrived.
    Arrived,
    /// The answer to a change of group or user.
    Switched(Result<(), syscall::Error>),
    /// The answer to the question for a canonical name.
    Canonical(Canonical),
    /// The answer to the forwarded operation: the descriptor of an open, or
    /// the status of a removal.
    Served(Result<usize, syscall::Error>),
}

/// What an `Event` says, as a mathematical value.
pub enum EventView {
    Arrived,
    Switched(Result<(), syscall::Error>),
    Canonical(CanonicalView),
    Served(Result<usize, syscall::Error>),
}

impl View for Event {
    type V = EventView;

    open spec fn view(&self) -> EventView {
        match self {
            Event::Arrived => EventView::Arrived,
            Event::Switched(r) => EventView::Switched(*r),
            Event::Canonical(c) => EventView::Canonical(c@),
            Event::Served(r) => EventView::Served(*r),
        }
    }
}

/// What the host is to do next.
#[derive(Debug, PartialEq, Eq)]
pub enum Action {
    /// Make `0` the real and the given group the effective group of the
    /// process.
    SetGroup(u32),
    /// Make `0` the real and the given user the effective user of the
    /// process.
    SetUser(u32),
    /// Make the name canonical.
    Canonicalize(String),
    /// Open the resource, and hand its descriptor to the caller.
    Open { uri: String, flags: usize, mode: u16 },
    /// Remove the directory.
    Rmdir(String),
    /// Remove the file.
    Unlink(String),
    /// Answer the caller.
    Reply(Result<usize, syscall::Error>),
    /// Stop serving: the process is in no state to go on.
    Abort,
}

/// What an `Action` says, as a mathematical value.
pub enum ActionView {
    SetGroup(u32),
    SetUser(u32),
    Canonicalize(Seq<char>),
    Open { uri: Seq<char>, flags: usize, mode: u16 },
    Rmdir(Seq<char>),
    Unlink(Seq<char>),
    Reply(Result<usize, syscall::Error>),
    Abort,
}

impl View for Action {
    type V = ActionView;

    open spec fn view(&self) -> ActionView {
        match self {
            Action::SetGroup(gid) => ActionView::SetGroup(*gid),
            Action::SetUser(uid) => ActionView::SetUser(*uid),
            Action::Canonicalize(uri) => ActionView::Canonicalize(uri@),
            Action::Open { uri, flags, mode } => ActionView::Open {
                uri: uri@,
                flags: *flags,
                mode: *mode,
            },
            Action::Rmdir(uri) => ActionView::Rmdir(uri@),
            Action::Unlink(uri) => ActionView::Unlink(uri@),
            Action::Reply(outcome) => ActionView::Reply(*outcome),
            Action::Abort => ActionView::Abort,
        }
    }
}

/// The flags under which the path of a request is resolved: those of an
/// open, and none for a removal.
pub open spec fn resolving_flags(request: RequestView) -> usize {
    match request.operation {
        Operation::Open => request.flags,
        _ => 0,
    }
}

/// The operation of the request on the resolved name `uri`.
pub open spec fn forwarded(request: RequestView, uri: Seq<char>) -> ActionView {
    match request.operation {
        Operation::Open => ActionView::Open {
            uri,
            flags: open_flags_of(request.flags),
            mode: open_mode_of(request.flags),
        },
        Operation::Rmdir => ActionView::Rmdir(uri),
        Operation::Unlink => ActionView::Unlink(uri),
    }
}

/// The way out with `outcome`: give back the user, if one was taken, then
/// the group, if one was taken, then reply.
pub open spec fn leave(request: RequestView, outcome: Result<usize, syscall::Error>) -> (
    Stage,
    ActionView,
) {
    if request.uid != 0 {
        (Stage::LeavingUser { outcome }, ActionView::SetUser(0))
    } else {
        leave_group(request, outcome)
    }
}

/// The way out with `outcome` once the user is given back.
pub open spec fn leave_group(request: RequestView, outcome: Result<usize, syscall::Error>) -> (
    Stage,
    ActionView,
) {
    if request.gid != 0 {
        (Stage::LeavingGroup { outcome }, ActionView::SetGroup(0))
    } else {
        (Stage::Done, ActionView::Reply(outcome))
    }
}

/// What is done once the process acts as the caller: the host is asked for
/// the canonical name that the resolver wants, unless the resolver denies
/// the request at once.
pub open spec fn begin(scheme: Seq<char>, policy: Policy, request: RequestView) -> (
    Stage,
    ActionView,
) {
    match lookup_of(scheme, policy, request.path, resolving_flags(request)) {
        Ok(lookup) => (Stage::Canonicalizing, ActionView::Canonicalize(target_of(lookup))),
        Err(e) => leave(request, Err(e)),
    }
}

/// What is done once the caller's group is taken.
pub open spec fn enter_user(scheme: Seq<char>, policy: Policy, request: RequestView) -> (
    Stage,
    ActionView,
) {
    if request.uid != 0 {
        (Stage::EnteringUser, ActionView::SetUser(request.uid))
    } else {
        begin(scheme, policy, request)
    }
}

/// The course of a request: the stage and the action that follow when the
/// host reports `event` to a request in `stage`.
///
/// The caller's group is taken before the user, and the user is given back
/// before the group; neither is touched where the caller's is `0`. A request
/// that cannot take the caller's identity is answered with the host's error.
/// A request whose identity cannot be given back is aborted.
pub open spec fn step_of(
    scheme: Seq<char>,
    policy: Policy,
    request: RequestView,
    stage: Stage,
    event: EventView,
) -> (Stage, ActionView) {
    match (stage, event) {
        (Stage::Start, EventView::Arrived) => if request.gid != 0 {
            (Stage::EnteringGroup, ActionView::SetGroup(request.gid))
        } else {
            enter_user(scheme, policy, request)
        },
        (Stage::EnteringGroup, EventView::Switched(Ok(_))) => enter_user(scheme, policy, request),
        (Stage::EnteringGroup, EventView::Switched(Err(e))) => (
            Stage::Done,
            ActionView::Reply(Err(e)),
        ),
        (Stage::EnteringUser, EventView::Switched(Ok(_))) => begin(scheme, policy, request),
        (Stage::EnteringUser, EventView::Switched(Err(e))) => if request.gid != 0 {
            (Stage::RollingBack { error: e }, ActionView::SetGroup(0))
        } else {
            (Stage::Done, ActionView::Reply(Err(e)))
        },
        (Stage::RollingBack { error }, EventView::Switched(Ok(_))) => (
            Stage::Done,
            ActionView::Reply(Err(error)),
        ),
        (Stage::Canonicalizing, EventView::Canonical(canonical)) => match resolution(
            scheme,
            policy,
            request.path,
            resolving_flags(request),
            canonical,
        ) {
            Ok(uri) => (Stage::Forwarding, forwarded(request, uri)),
            Err(e) => leave(request, Err(e)),
        },
        (Stage::Forwarding, EventView::Served(outcome)) => leave(request, outcome),
        (Stage::LeavingUser { outcome }, EventView::Switched(Ok(_))) => leave_group(
            request,
            outcome,
        ),
        (Stage::LeavingGroup { outcome }, EventView::Switched(Ok(_))) => (
            Stage::Done,
            ActionView::Reply(outcome),
        ),
        _ => (Stage::Aborted, ActionView::Abort),
    }
}

/// The group and the user that the serving process acts as.
pub struct Identity {
    pub egid: u32,
    pub euid: u32,
}

/// The identity of a process once the host has answered `event` to
/// `action`: a change of group or user that succeeded has taken place, and
/// nothing else changes the identity.
pub open spec fn identity_after(
    identity: Identity,
    action: ActionView,
    event: EventView,
) -> Identity {
    match (action, event) {
        (ActionView::SetGroup(gid), EventView::Switched(Ok(_))) => Identity {
            egid: gid,
            ..identity
        },
        (ActionView::SetUser(uid), EventView::Switched(Ok(_))) => Identity {
            euid: uid,
            ..identity
        },
        _ => identity,
    }
}

/// The identity that the process has while a request is in `stage`, if it
/// had group and user `0` when the request arrived. Of an aborted request
/// nothing is known.
pub open spec fn identity_in(request: RequestView, stage: Stage) -> Option<Identity> {
    match stage {
        Stage::Start | Stage::EnteringGroup | Stage::Done => Some(Identity { egid: 0, euid: 0 }),
        Stage::EnteringUser | Stage::RollingBack { .. } | Stage::LeavingGroup { .. } => Some(
            Identity { egid: request.gid, euid: 0 },
        ),
        Stage::Canonicalizing | Stage::Forwarding | Stage::LeavingUser { .. } => Some(
            Identity { egid: request.gid, euid: request.uid },
        ),
        Stage::Aborted => None,
    }
}

/// The host is busy with the resource of a request: it makes its name
/// canonical, or it does the work.
pub open spec fn touches_host(action: ActionView) -> bool {
    action is Canonicalize || action is Open || action is Rmdir || action is Unlink
}

/// `event` is the kind of answer that `action` gets.
pub open spec fn answers(action: ActionView, event: EventView) -> bool {
    match action {
        ActionView::SetGroup(_) | ActionView::SetUser(_) => event is Switched,
        ActionView::Canonicalize(_) => event is Canonical,
        ActionView::Open { .. } | ActionView::Rmdir(_) | ActionView::Unlink(_) => event is Served,
        ActionView::Reply(_) | ActionView::Abort => false,
    }
}

/// When a request arrives and the first action is chosen, nothing has been
/// asked of the host yet: the stage that the request enters is one of a
/// process with group and user `0`.
pub proof fn lemma_identity_at_arrival(scheme: Seq<char>, policy: Policy, request: RequestView)
    ensures
        identity_in(request, step_of(scheme, policy, request, Stage::Start, EventView::Arrived).0)
            == Some(Identity { egid: 0, euid: 0 }),
{
}

/// The identity follows the request. Let a request be in `stage`, awaiting
/// the answer to `action`, which the step before returned, and let the
/// process have the identity that belongs to the stage. Once the host has
/// answered, the process has the identity that belongs to the next stage,
/// unless the request is aborted.
pub proof fn lemma_identity_follows_stage(
    scheme: Seq<char>,
    policy: Policy,
    request: RequestView,
    before: Stage,
    earlier: EventView,
    event: EventView,
)
    requires
        answers(step_of(scheme, policy, request, before, earlier).1, event),
    ensures
        ({
            let (stage, action) = step_of(scheme, policy, request, before, earlier);
            let (next, _) = step_of(scheme, policy, request, stage, event);
            next != Stage::Aborted ==> identity_in(request, stage) is Some && identity_in(
                request,
                next,
            ) == Some(identity_after(identity_in(request, stage).unwrap(), action, event))
        }),
{
}

/// The host touches a resource only while the process acts as the caller,
/// with the caller's group and user; the caller is answered only once the
/// process has group and user `0` again.
pub proof fn lemma_identity_at_actions(
    scheme: Seq<char>,
    policy: Policy,
    request: RequestView,
    stage: Stage,
    event: EventView,
)
    ensures
        ({
            let (next, action) = step_of(scheme, policy, request, stage, event);
            &&& touches_host(action) ==> identity_in(request, next) == Some(
                Identity { egid: request.gid, euid: request.uid },
            )
            &&& action is Reply ==> next == Stage::Done && identity_in(request, next) == Some(
                Identity { egid: 0, euid: 0 },
            )
            &&& action is Abort <==> next == Stage::Aborted
        }),
{
}

/// A request is aborted only where the identity could not be restored, or
/// where the answer is none that the stage waits for. In particular no
/// request is aborted while the host answers each action in kind and every
/// change back to group or user `0` succeeds.
pub proof fn lemma_abort_needs_failed_restore(
    scheme: Seq<char>,
    policy: Policy,
    request: RequestView,
    before: Stage,
    earlier: EventView,
    event: EventView,
)
    requires
        ({
            let (stage, action) = step_of(scheme, policy, request, before, earlier);
            &&& answers(action, event)
            &&& step_of(scheme, policy, request, stage, event).0 == Stage::Aborted
        }),
    ensures
        ({
            let (_, action) = step_of(scheme, policy, request, before, earlier);
            &&& event matches EventView::Switched(Err(_))
            &&& action == ActionView::SetGroup(0) || action == ActionView::SetUser(0)
        }),
{
}

/// The answers of the host that a request in `stage` can still take, at
/// most, until it is over.
pub open spec fn answers_left(stage: Stage) -> nat {
    match stage {
        Stage::Start => 7,
        Stage::EnteringGroup => 6,
        Stage::EnteringUser => 5,
        Stage::Canonicalizing => 4,
        Stage::Forwarding => 3,
        Stage::LeavingUser { .. } => 2,
        Stage::LeavingGroup { .. } => 1,
        Stage::RollingBack { .. } => 1,
        Stage::Done | Stage::Aborted => 0,
    }
}

/// Every request comes to an end: each answer of the host brings a request
/// that is not over closer to its end, which it reaches after seven answers
/// at most.
pub proof fn lemma_request_ends(
    scheme: Seq<char>,
    policy: Policy,
    request: RequestView,
    stage: Stage,
    event: EventView,
)
    requires
        stage != Stage::Done,
        stage != Stage::Aborted,
    ensures
        answers_left(step_of(scheme, policy, request, stage, event).0) < answers_left(stage),
        answers_left(stage) <= 7,
{
}

/// Where a request stands after the host's answers `events`, given one
/// after the other to a request in `stage`: its stage, and the last action
/// that was asked for, `last` if there was no answer.
pub open spec fn course(
    scheme: Seq<char>,
    policy: Policy,
    request: RequestView,
    stage: Stage,
    last: ActionView,
    events: Seq<EventView>,
) -> (Stage, ActionView)
    decreases events.len(),
{
    if events.len() == 0 {
        (stage, last)
    } else {
        let (next, action) = step_of(scheme, policy, request, stage, events[0]);
        course(scheme, policy, request, next, action, events.drop_first())
    }
}

/// One answer that says that a change of group or user has succeeded, if
/// `needed`, and none otherwise.
pub open spec fn switched(needed: bool) -> Seq<EventView> {
    if needed {
        seq![EventView::Switched(Ok(()))]
    } else {
        seq![]
    }
}

/// The answers of a host that does all it is asked to: it changes group and
/// user wherever the caller's is not `0`, gives `canonical` as the canonical
/// name, and ends the forwarded operation with `served`. It is asked for a
/// canonical name only if the path of the request earns no denial, and to do
/// the work only if the resolver allows the request.
pub open spec fn willing_host(
    scheme: Seq<char>,
    policy: Policy,
    request: RequestView,
    canonical: CanonicalView,
    served: Result<usize, syscall::Error>,
) -> Seq<EventView> {
    let flags = resolving_flags(request);
    let work = if lookup_of(scheme, policy, request.path, flags) is Err {
        seq![]
    } else if resolution(scheme, policy, request.path, flags, canonical) is Err {
        seq![EventView::Canonical(canonical)]
    } else {
        seq![EventView::Canonical(canonical), EventView::Served(served)]
    };
    seq![EventView::Arrived] + switched(request.gid != 0) + switched(request.uid != 0) + work
        + switched(request.uid != 0) + switched(request.gid != 0)
}

/// What the caller of a request is answered when the host does all it is
/// asked to: the denial of the resolver, if it denies the request, and else
/// what the host's work has come to.
pub open spec fn reply_of(
    scheme: Seq<char>,
    policy: Policy,
    request: RequestView,
    canonical: CanonicalView,
    served: Result<usize, syscall::Error>,
) -> Result<usize, syscall::Error> {
    match resolution(scheme, policy, request.path, resolving_flags(request), canonical) {
        Ok(_) => served,
        Err(e) => Err(e),
    }
}

/// With a host that does all it is asked to, every request is answered:
/// with the denial of the resolver, unchanged, if the resolver denies it,
/// and else with the outcome of the host's work.
pub proof fn lemma_request_is_answered(
    scheme: Seq<char>,
    policy: Policy,
    request: RequestView,
    canonical: CanonicalView,
    served: Result<usize, syscall::Error>,
)
    ensures
        course(
            scheme,
            policy,
            request,
            Stage::Start,
            ActionView::Abort,
            willing_host(scheme, policy, request, canonical, served),
        ) == (Stage::Done, ActionView::Reply(reply_of(scheme, policy, request, canonical, served))),
{
    reveal_with_fuel(course, 8);
}

impl FilterScheme {
    /// The way out of a request with `outcome`.
    fn leave(request: &Request, outcome: Result<usize, syscall::Error>) -> (r: (Stage, Action))
        ensures
            (r.0, r.1@) == leave(request@, outcome),
    {
        if request.uid != 0 {
            (Stage::LeavingUser { outcome }, Action::SetUser(0))
        } else {
            Self::leave_group(request, outcome)
        }
    }

    /// The way out of a request with `outcome` once the user is given back.
    fn leave_group(request: &Request, outcome: Result<usize, syscall::Error>) -> (r: (
        Stage,
        Action,
    ))
        ensures
            (r.0, r.1@) == leave_group(request@, outcome),
    {
        if request.gid != 0 {
            (Stage::LeavingGroup { outcome }, Action::SetGroup(0))
        } else {
            (Stage::Done, Action::Reply(outcome))
        }
    }

    /// The flags under which the path of `request` is resolved.
    fn resolving_flags(request: &Request) -> (r: usize)
        ensures
            r == resolving_flags(request@),
    {
        match request.operation {
            Operation::Open => request.flags,
            _ => 0,
        }
    }

    /// What is done once the process acts as the caller.
    fn begin(&self, request: &Request) -> (r: (Stage, Action))
        ensures
            (r.0, r.1@) == begin(self.scheme@, self.policy(), request@),
    {
        match self.lookup(request.path.as_str(), Self::resolving_flags(request)) {
            Ok(lookup) => {
                let target = match lookup {
                    Lookup::Existing { uri } => uri,
                    Lookup::Creation { dir, .. } => dir,
                };
                (Stage::Canonicalizing, Action::Canonicalize(target))
            },
            Err(e) => Self::leave(request, Err(e)),
        }
    }

    /// What is done once the caller's group is taken.
    fn enter_user(&self, request: &Request) -> (r: (Stage, Action))
        ensures
            (r.0, r.1@) == enter_user(self.scheme@, self.policy(), request@),
    {
        if request.uid != 0 {
            (Stage::EnteringUser, Action::SetUser(request.uid))
        } else {
            self.begin(request)
        }
    }

    /// The operation of `request` on the resolved name `uri`.
    fn forward(request: &Request, uri: String) -> (r: Action)
        ensures
            r@ == forwarded(request@, uri@),
    {
        match request.operation {
            Operation::Open => {
                let (flags, mode) = split_open_flags(request.flags);
                Action::Open { uri, flags, mode }
            },
            Operation::Rmdir => Action::Rmdir(uri),
            Operation::Unlink => Action::Unlink(uri),
        }
    }

    /// Take `request` one step further: from the stage it is in and the
    /// host's answer to the last action, to the next stage and the next
    /// action. A request starts in `Stage::Start` with `Event::Arrived`, and
    /// is over once the action is `Reply` or `Abort`.
    pub fn step(&self, request: &Request, stage: Stage, event: Event) -> (r: (Stage, Action))
        ensures
            (r.0, r.1@) == step_of(self.scheme@, self.policy(), request@, stage, event@),
    {
        match (stage, event) {
            (Stage::Start, Event::Arrived) => {
                if request.gid != 0 {
                    (Stage::EnteringGroup, Action::SetGroup(request.gid))
                } else {
                    self.enter_user(request)
                }
            },
            (Stage::EnteringGroup, Event::Switched(Ok(_))) => self.enter_user(request),
            (Stage::EnteringGroup, Event::Switched(Err(e))) => (
                Stage::Done,
                Action::Reply(Err(e)),
            ),
            (Stage::EnteringUser, Event::Switched(Ok(_))) => self.begin(request),
            (Stage::EnteringUser, Event::Switched(Err(e))) => {
                if request.gid != 0 {
                    (Stage::RollingBack { error: e }, Action::SetGroup(0))
                } else {
                    (Stage::Done, Action::Reply(Err(e)))
                }
            },
            (Stage::RollingBack { error }, Event::Switched(Ok(_))) => (
                Stage::Done,
                Action::Reply(Err(error)),
            ),
            (Stage::Canonicalizing, Event::Canonical(canonical)) => {
                let resolved = self.resolve(
                    request.path.as_str(),
                    Self::resolving_flags(request),
                    &canonical,
                );
                match resolved {
                    Ok(uri) => (Stage::Forwarding, Self::forward(request, uri)),
                    Err(e) => Self::leave(request, Err(e)),
                }
            },
            (Stage::Forwarding, Event::Served(outcome)) => Self::leave(request, outcome),
            (Stage::LeavingUser { outcome }, Event::Switched(Ok(_))) => Self::leave_group(
                request,
                outcome,
            ),
            (Stage::LeavingGroup { outcome }, Event::Switched(Ok(_))) => (
                Stage::Done,
                Action::Reply(outcome),
            ),
            _ => (Stage::Aborted, Action::Abort),
        }
    }
}

} // verus!
