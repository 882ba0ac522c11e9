use vstd::prelude::*;

use crate::session::Phase;

verus! {

/// The stage a shell session has reached.
#[derive(Debug, PartialEq, Eq, Clone, Copy, Structural)]
pub enum Stage {
    /// Looking for a container of the configuration that is running.
    FindRunning,
    /// Looking for one that is stopped.
    FindStopped,
    /// Starting the stopped container.
    Starting,
    /// Fetching the features of the configuration.
    Fetching,
    /// Running `initializeCommand` on the host.
    Initializing,
    /// Creating the container.
    Creating,
    /// Running the lifecycle commands of a phase in the container.
    Lifecycle(Phase),
    /// Opening the interactive shell in the container.
    Attaching,
    /// Nothing is left to do.
    Done,
}

/// A shell session: its stage, the container it works on once one is known, and what
/// the configuration asks for before a container is created.
#[derive(Debug)]
pub struct ShellState {
    pub stage: Stage,
    pub container: Option<String>,
    pub has_features: bool,
    pub has_initialize: bool,
}

/// What came of the last action.
#[derive(Debug)]
pub enum ShellEvent {
    /// The search found this container, or none.
    Found(Option<String>),
    /// The container was created with this id.
    Created(String),
    /// The action succeeded.
    Succeeded,
    /// The action failed with this message.
    Failed(String),
}

/// What to do next; the container is the one the state names.
#[derive(Debug, PartialEq, Eq, Clone, Copy, Structural)]
pub enum ShellAction {
    /// List the containers of the configuration, the stopped ones too where `all`.
    FindContainer { all: bool },
    /// Start the stopped container.
    StartContainer,
    /// Fetch and unpack the features.
    FetchFeatures,
    /// Run `initializeCommand` on the host.
    RunInitialize,
    /// Build the image and create the container.
    CreateContainer,
    /// Run the lifecycle commands of `phase` in the container.
    RunLifecycle(Phase),
    /// Open the interactive shell in the container.
    OpenShell,
    /// Stop: the session is over.
    Finish,
    /// Stop: the last action failed, or came back with an event that does not fit.
    Fail,
}

/// The state and action that start a session.
pub open spec fn shell_begin(has_features: bool, has_initialize: bool) -> (ShellState, ShellAction) {
    (
        ShellState { stage: Stage::FindRunning, container: None, has_features, has_initialize },
        ShellAction::FindContainer { all: false },
    )
}

/// The first of the steps before a container is created that the configuration asks
/// for, starting from the features where `from_features`.
pub open spec fn creation_stage(from_features: bool, has_features: bool, has_initialize: bool) -> (Stage, ShellAction) {
    if from_features && has_features {
        (Stage::Fetching, ShellAction::FetchFeatures)
    } else if has_initialize {
        (Stage::Initializing, ShellAction::RunInitialize)
    } else {
        (Stage::Creating, ShellAction::CreateContainer)
    }
}

/// A state with another stage and container.
pub open spec fn moved(s: ShellState, stage: Stage, container: Option<String>) -> ShellState {
    ShellState { stage, container, has_features: s.has_features, has_initialize: s.has_initialize }
}

/// The next state and action of a session in state `s` on `event`: a running
/// container is attached to; a stopped one is started and then attached to; where
/// there is none, the features are fetched, `initializeCommand` runs and the container
/// is created, then its lifecycle commands run and the shell opens. A failure ends the
/// session, and so does an event the stage does not expect.
pub open spec fn shell_next(s: ShellState, event: ShellEvent) -> (ShellState, ShellAction) {
    let fail = (moved(s, Stage::Done, s.container), ShellAction::Fail);
    match (s.stage, event) {
        (_, ShellEvent::Failed(_)) => fail,
        (Stage::FindRunning, ShellEvent::Found(Some(id))) => (
            moved(s, Stage::Lifecycle(Phase::Attach), Some(id)),
            ShellAction::RunLifecycle(Phase::Attach),
        ),
        (Stage::FindRunning, ShellEvent::Found(None)) => (
            moved(s, Stage::FindStopped, None),
            ShellAction::FindContainer { all: true },
        ),
        (Stage::FindStopped, ShellEvent::Found(Some(id))) => (
            moved(s, Stage::Starting, Some(id)),
            ShellAction::StartContainer,
        ),
        (Stage::FindStopped, ShellEvent::Found(None)) => {
            let (stage, action) = creation_stage(true, s.has_features, s.has_initialize);
            (moved(s, stage, None), action)
        },
        (Stage::Starting, ShellEvent::Succeeded) => (
            moved(s, Stage::Lifecycle(Phase::Restart), s.container),
            ShellAction::RunLifecycle(Phase::Restart),
        ),
        (Stage::Fetching, ShellEvent::Succeeded) => {
            let (stage, action) = creation_stage(false, s.has_features, s.has_initialize);
            (moved(s, stage, None), action)
        },
        (Stage::Initializing, ShellEvent::Succeeded) => (
            moved(s, Stage::Creating, None),
            ShellAction::CreateContainer,
        ),
        (Stage::Creating, ShellEvent::Created(id)) => (
            moved(s, Stage::Lifecycle(Phase::Create), Some(id)),
            ShellAction::RunLifecycle(Phase::Create),
        ),
        (Stage::Lifecycle(_), ShellEvent::Succeeded) => (
            moved(s, Stage::Attaching, s.container),
            ShellAction::OpenShell,
        ),
        (Stage::Attaching, ShellEvent::Succeeded) => (
            moved(s, Stage::Done, s.container),
            ShellAction::Finish,
        ),
        _ => fail,
    }
}

/// The state and action that start a session whose configuration asks for features
/// where `has_features` and for `initializeCommand` where `has_initialize`.
pub fn shell_start(has_features: bool, has_initialize: bool) -> (r: (ShellState, ShellAction))
    ensures
        r == shell_begin(has_features, has_initialize),
{
    (
        ShellState { stage: Stage::FindRunning, container: None, has_features, has_initialize },
        ShellAction::FindContainer { all: false },
    )
}

fn creation_step(from_features: bool, has_features: bool, has_initialize: bool) -> (r: (Stage, ShellAction))
    ensures
        r == creation_stage(from_features, has_features, has_initialize),
{
    if from_features && has_features {
        (Stage::Fetching, ShellAction::FetchFeatures)
    } else if has_initialize {
        (Stage::Initializing, ShellAction::RunInitialize)
    } else {
        (Stage::Creating, ShellAction::CreateContainer)
    }
}

fn at(stage: Stage, container: Option<String>, has_features: bool, has_initialize: bool) -> (r: ShellState)
    ensures
        r == (ShellState { stage, container, has_features, has_initialize }),
{
    ShellState { stage, container, has_features, has_initialize }
}

/// One step of a shell session: the next state and action of state `s` on `event`
/// (see [`shell_next`]).
pub fn shell_step(s: ShellState, event: ShellEvent) -> (r: (ShellState, ShellAction))
    ensures
        r == shell_next(s, event),
{
    let has_features = s.has_features;
    let has_initialize = s.has_initialize;
    let stage = s.stage;
    let container = s.container;
    match event {
        ShellEvent::Failed(_) => (at(Stage::Done, container, has_features, has_initialize), ShellAction::Fail),
        ShellEvent::Found(found) => match stage {
            Stage::FindRunning => match found {
                Some(id) => (at(Stage::Lifecycle(Phase::Attach), Some(id), has_features, has_initialize), ShellAction::RunLifecycle(Phase::Attach)),
                None => (at(Stage::FindStopped, None, has_features, has_initialize), ShellAction::FindContainer { all: true }),
            },
            Stage::FindStopped => match found {
                Some(id) => (at(Stage::Starting, Some(id), has_features, has_initialize), ShellAction::StartContainer),
                None => {
                    let (st, action) = creation_step(true, has_features, has_initialize);
                    (at(st, None, has_features, has_initialize), action)
                },
            },
            _ => (at(Stage::Done, container, has_features, has_initialize), ShellAction::Fail),
        },
        ShellEvent::Created(id) => match stage {
            Stage::Creating => (at(Stage::Lifecycle(Phase::Create), Some(id), has_features, has_initialize), ShellAction::RunLifecycle(Phase::Create)),
            _ => (at(Stage::Done, container, has_features, has_initialize), ShellAction::Fail),
        },
        ShellEvent::Succeeded => match stage {
            Stage::Starting => (at(Stage::Lifecycle(Phase::Restart), container, has_features, has_initialize), ShellAction::RunLifecycle(Phase::Restart)),
            Stage::Fetching => {
                let (st, action) = creation_step(false, has_features, has_initialize);
                (at(st, None, has_features, has_initialize), action)
            },
            Stage::Initializing => (at(Stage::Creating, None, has_features, has_initialize), ShellAction::CreateContainer),
            Stage::Lifecycle(_) => (at(Stage::Attaching, container, has_features, has_initialize), ShellAction::OpenShell),
            Stage::Attaching => (at(Stage::Done, container, has_features, has_initialize), ShellAction::Finish),
            _ => (at(Stage::Done, container, has_features, has_initialize), ShellAction::Fail),
        },
    }
}

/// The actions a session in state `s` takes on `events`, one for each, and the state it
/// ends in.
pub open spec fn shell_run(s: ShellState, events: Seq<ShellEvent>) -> (ShellState, Seq<ShellAction>)
    decreases events.len(),
{
    if events.len() == 0 {
        (s, Seq::empty())
    } else {
        let (next, action) = shell_next(s, events[0]);
        let (end, rest) = shell_run(next, events.drop_first());
        (end, seq![action] + rest)
    }
}

/// A failure ends the session, whatever its stage.
pub proof fn law_failure_ends_session(s: ShellState, message: String)
    ensures
        shell_next(s, ShellEvent::Failed(message)).0.stage == Stage::Done,
        shell_next(s, ShellEvent::Failed(message)).1 == ShellAction::Fail,
{
}

/// A container that the search finds is used, never a new one created: a running one
/// is attached to, a stopped one started.
pub proof fn law_found_container_is_used(s: ShellState, id: String)
    requires
        s.stage == Stage::FindRunning || s.stage == Stage::FindStopped,
    ensures
        shell_next(s, ShellEvent::Found(Some(id))).0.container == Some(id),
        shell_next(s, ShellEvent::Found(Some(id))).1 == (if s.stage == Stage::FindRunning {
            ShellAction::RunLifecycle(Phase::Attach)
        } else {
            ShellAction::StartContainer
        }),
{
}

/// A session that finds its container running runs the attach commands in it and
/// opens the shell there.
pub proof fn law_running_container_session(has_features: bool, has_initialize: bool, id: String)
    ensures
        ({
            let (s, first) = shell_begin(has_features, has_initialize);
            let (end, actions) = shell_run(s, seq![ShellEvent::Found(Some(id)), ShellEvent::Succeeded, ShellEvent::Succeeded]);
            &&& first == ShellAction::FindContainer { all: false }
            &&& actions == seq![ShellAction::RunLifecycle(Phase::Attach), ShellAction::OpenShell, ShellAction::Finish]
            &&& end.stage == Stage::Done && end.container == Some(id)
        }),
{
    let (s, first) = shell_begin(has_features, has_initialize);
    let e = seq![ShellEvent::Found(Some(id)), ShellEvent::Succeeded, ShellEvent::Succeeded];
    reveal_with_fuel(shell_run, 4);
    assert(e.drop_first() =~= seq![ShellEvent::Succeeded, ShellEvent::Succeeded]);
    assert(e.drop_first().drop_first() =~= seq![ShellEvent::Succeeded]);
    assert(e.drop_first().drop_first().drop_first() =~= Seq::<ShellEvent>::empty());
    let (end, actions) = shell_run(s, e);
    assert(actions =~= seq![ShellAction::RunLifecycle(Phase::Attach), ShellAction::OpenShell, ShellAction::Finish]);
}

/// A session that finds its container stopped starts it, runs the restart commands
/// in it and opens the shell there.
pub proof fn law_stopped_container_session(has_features: bool, has_initialize: bool, id: String)
    ensures
        ({
            let (s, _) = shell_begin(has_features, has_initialize);
            let (end, actions) = shell_run(
                s,
                seq![ShellEvent::Found(None), ShellEvent::Found(Some(id)), ShellEvent::Succeeded, ShellEvent::Succeeded, ShellEvent::Succeeded],
            );
            &&& actions == seq![
                ShellAction::FindContainer { all: true },
                ShellAction::StartContainer,
                ShellAction::RunLifecycle(Phase::Restart),
                ShellAction::OpenShell,
                ShellAction::Finish,
            ]
            &&& end.stage == Stage::Done && end.container == Some(id)
        }),
{
    let (s, _) = shell_begin(has_features, has_initialize);
    let e = seq![ShellEvent::Found(None), ShellEvent::Found(Some(id)), ShellEvent::Succeeded, ShellEvent::Succeeded, ShellEvent::Succeeded];
    reveal_with_fuel(shell_run, 6);
    assert(e.drop_first() =~= seq![ShellEvent::Found(Some(id)), ShellEvent::Succeeded, ShellEvent::Succeeded, ShellEvent::Succeeded]);
    assert(e.drop_first().drop_first() =~= seq![ShellEvent::Succeeded, ShellEvent::Succeeded, ShellEvent::Succeeded]);
    assert(e.drop_first().drop_first().drop_first() =~= seq![ShellEvent::Succeeded, ShellEvent::Succeeded]);
    assert(e.drop_first().drop_first().drop_first().drop_first() =~= seq![ShellEvent::Succeeded]);
    assert(e.drop_first().drop_first().drop_first().drop_first().drop_first() =~= Seq::<ShellEvent>::empty());
    let (end, actions) = shell_run(s, e);
    assert(actions =~= seq![
        ShellAction::FindContainer { all: true },
        ShellAction::StartContainer,
        ShellAction::RunLifecycle(Phase::Restart),
        ShellAction::OpenShell,
        ShellAction::Finish,
    ]);
}

/// The events of a session that finds no container and in which every step succeeds.
pub open spec fn fresh_events(has_features: bool, has_initialize: bool, id: String) -> Seq<ShellEvent> {
    seq![ShellEvent::Found(None), ShellEvent::Found(None)]
        + (if has_features { seq![ShellEvent::Succeeded] } else { Seq::empty() })
        + (if has_initialize { seq![ShellEvent::Succeeded] } else { Seq::empty() })
        + seq![ShellEvent::Created(id), ShellEvent::Succeeded, ShellEvent::Succeeded]
}

/// The actions of such a session: the features are fetched where there are any, then
/// `initializeCommand` runs where there is one, then the container is created, its
/// create commands run and the shell opens in it.
pub open spec fn fresh_actions(has_features: bool, has_initialize: bool) -> Seq<ShellAction> {
    seq![ShellAction::FindContainer { all: true }]
        + (if has_features { seq![ShellAction::FetchFeatures] } else { Seq::empty() })
        + (if has_initialize { seq![ShellAction::RunInitialize] } else { Seq::empty() })
        + seq![ShellAction::CreateContainer, ShellAction::RunLifecycle(Phase::Create), ShellAction::OpenShell, ShellAction::Finish]
}

/// A session that finds no container fetches the features and runs
/// `initializeCommand` before it creates one, and runs the create commands in the new
/// container before the shell opens there.
pub proof fn law_new_container_session(has_features: bool, has_initialize: bool, id: String)
    ensures
        ({
            let (s, _) = shell_begin(has_features, has_initialize);
            let (end, actions) = shell_run(s, fresh_events(has_features, has_initialize, id));
            &&& actions == fresh_actions(has_features, has_initialize)
            &&& end.stage == Stage::Done && end.container == Some(id)
        }),
{
    let (s0, _) = shell_begin(has_features, has_initialize);
    let tail = seq![ShellEvent::Created(id), ShellEvent::Succeeded, ShellEvent::Succeeded];
    let s_create = moved(s0, Stage::Creating, None);
    // the common end: create, run the create commands, open the shell
    reveal_with_fuel(shell_run, 4);
    assert(tail.drop_first() =~= seq![ShellEvent::Succeeded, ShellEvent::Succeeded]);
    assert(tail.drop_first().drop_first() =~= seq![ShellEvent::Succeeded]);
    assert(tail.drop_first().drop_first().drop_first() =~= Seq::<ShellEvent>::empty());
    let (end_c, acts_c) = shell_run(s_create, tail);
    assert(acts_c =~= seq![ShellAction::CreateContainer, ShellAction::RunLifecycle(Phase::Create), ShellAction::OpenShell, ShellAction::Finish].drop_first());
    let e = fresh_events(has_features, has_initialize, id);
    let s_lookup = moved(s0, Stage::FindStopped, None);
    if has_features && has_initialize {
        let s_fetch = moved(s0, Stage::Fetching, None);
        let s_init = moved(s0, Stage::Initializing, None);
        assert(e =~= seq![ShellEvent::Found(None), ShellEvent::Found(None), ShellEvent::Succeeded, ShellEvent::Succeeded] + tail);
        assert(e.drop_first() =~= seq![ShellEvent::Found(None), ShellEvent::Succeeded, ShellEvent::Succeeded] + tail);
        assert(e.drop_first().drop_first() =~= seq![ShellEvent::Succeeded, ShellEvent::Succeeded] + tail);
        assert(e.drop_first().drop_first().drop_first() =~= seq![ShellEvent::Succeeded] + tail);
        assert(e.drop_first().drop_first().drop_first().drop_first() =~= tail);
        let (_, a3) = shell_run(s_init, seq![ShellEvent::Succeeded] + tail);
        assert(a3 =~= seq![ShellAction::CreateContainer] + acts_c);
        let (_, a2) = shell_run(s_fetch, seq![ShellEvent::Succeeded, ShellEvent::Succeeded] + tail);
        assert(a2 =~= seq![ShellAction::RunInitialize] + a3);
        let (_, a1) = shell_run(s_lookup, seq![ShellEvent::Found(None), ShellEvent::Succeeded, ShellEvent::Succeeded] + tail);
        assert(a1 =~= seq![ShellAction::FetchFeatures] + a2);
        let (_, a0) = shell_run(s0, e);
        assert(a0 =~= seq![ShellAction::FindContainer { all: true }] + a1);
        assert(a0 =~= fresh_actions(has_features, has_initialize));
    } else if has_features {
        let s_fetch = moved(s0, Stage::Fetching, None);
        assert(e =~= seq![ShellEvent::Found(None), ShellEvent::Found(None), ShellEvent::Succeeded] + tail);
        assert(e.drop_first() =~= seq![ShellEvent::Found(None), ShellEvent::Succeeded] + tail);
        assert(e.drop_first().drop_first() =~= seq![ShellEvent::Succeeded] + tail);
        assert(e.drop_first().drop_first().drop_first() =~= tail);
        let (_, a2) = shell_run(s_fetch, seq![ShellEvent::Succeeded] + tail);
        assert(a2 =~= seq![ShellAction::CreateContainer] + acts_c);
        let (_, a1) = shell_run(s_lookup, seq![ShellEvent::Found(None), ShellEvent::Succeeded] + tail);
        assert(a1 =~= seq![ShellAction::FetchFeatures] + a2);
        let (_, a0) = shell_run(s0, e);
        assert(a0 =~= seq![ShellAction::FindContainer { all: true }] + a1);
        assert(a0 =~= fresh_actions(has_features, has_initialize));
    } else if has_initialize {
        let s_init = moved(s0, Stage::Initializing, None);
        assert(e =~= seq![ShellEvent::Found(None), ShellEvent::Found(None), ShellEvent::Succeeded] + tail);
        assert(e.drop_first() =~= seq![ShellEvent::Found(None), ShellEvent::Succeeded] + tail);
        assert(e.drop_first().drop_first() =~= seq![ShellEvent::Succeeded] + tail);
        assert(e.drop_first().drop_first().drop_first() =~= tail);
        let (_, a2) = shell_run(s_init, seq![ShellEvent::Succeeded] + tail);
        assert(a2 =~= seq![ShellAction::CreateContainer] + acts_c);
        let (_, a1) = shell_run(s_lookup, seq![ShellEvent::Found(None), ShellEvent::Succeeded] + tail);
        assert(a1 =~= seq![ShellAction::RunInitialize] + a2);
        let (_, a0) = shell_run(s0, e);
        assert(a0 =~= seq![ShellAction::FindContainer { all: true }] + a1);
        assert(a0 =~= fresh_actions(has_features, has_initialize));
    } else {
        assert(e =~= seq![ShellEvent::Found(None), ShellEvent::Found(None)] + tail);
        assert(e.drop_first() =~= seq![ShellEvent::Found(None)] + tail);
        assert(e.drop_first().drop_first() =~= tail);
        let (_, a1) = shell_run(s_lookup, seq![ShellEvent::Found(None)] + tail);
        assert(a1 =~= seq![ShellAction::CreateContainer] + acts_c);
        let (_, a0) = shell_run(s0, e);
        assert(a0 =~= seq![ShellAction::FindContainer { all: true }] + a1);
        assert(a0 =~= fresh_actions(has_features, has_initialize));
    }
}

} // verus!
