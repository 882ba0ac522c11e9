use cashyyc::devcontainer::jsonc::model::Value;
use cashyyc::features::fetch::fetch_order;
use cashyyc::session::Phase;
use cashyyc::shell_flow::{shell_start, shell_step, ShellAction, ShellEvent, ShellState, Stage};

fn run(mut state: ShellState, events: Vec<ShellEvent>) -> (ShellState, Vec<ShellAction>) {
    let mut actions = Vec::new();
    for e in events {
        let (s, a) = shell_step(state, e);
        state = s;
        actions.push(a);
    }
    (state, actions)
}

#[test]
fn when_a_running_container_is_found_then_the_session_attaches_to_it() {
    let (s, first) = shell_start(true, true);
    assert_eq!(first, ShellAction::FindContainer { all: false });
    let (end, actions) = run(
        s,
        vec![ShellEvent::Found(Some("abc".to_string())), ShellEvent::Succeeded, ShellEvent::Succeeded],
    );
    assert_eq!(actions, vec![ShellAction::RunLifecycle(Phase::Attach), ShellAction::OpenShell, ShellAction::Finish]);
    assert_eq!(end.stage, Stage::Done);
    assert_eq!(end.container, Some("abc".to_string()));
}

#[test]
fn when_a_stopped_container_is_found_then_the_session_starts_it() {
    let (s, _) = shell_start(true, false);
    let (end, actions) = run(
        s,
        vec![
            ShellEvent::Found(None),
            ShellEvent::Found(Some("abc".to_string())),
            ShellEvent::Succeeded,
            ShellEvent::Succeeded,
            ShellEvent::Succeeded,
        ],
    );
    assert_eq!(
        actions,
        vec![
            ShellAction::FindContainer { all: true },
            ShellAction::StartContainer,
            ShellAction::RunLifecycle(Phase::Restart),
            ShellAction::OpenShell,
            ShellAction::Finish,
        ]
    );
    assert_eq!(end.container, Some("abc".to_string()));
}

#[test]
fn when_no_container_is_found_then_features_and_initialize_come_before_creation() {
    let (s, _) = shell_start(true, true);
    let (end, actions) = run(
        s,
        vec![
            ShellEvent::Found(None),
            ShellEvent::Found(None),
            ShellEvent::Succeeded,
            ShellEvent::Succeeded,
            ShellEvent::Created("new".to_string()),
            ShellEvent::Succeeded,
            ShellEvent::Succeeded,
        ],
    );
    assert_eq!(
        actions,
        vec![
            ShellAction::FindContainer { all: true },
            ShellAction::FetchFeatures,
            ShellAction::RunInitialize,
            ShellAction::CreateContainer,
            ShellAction::RunLifecycle(Phase::Create),
            ShellAction::OpenShell,
            ShellAction::Finish,
        ]
    );
    assert_eq!(end.container, Some("new".to_string()));
}

#[test]
fn when_nothing_is_asked_before_creation_then_the_container_is_created_at_once() {
    let (s, _) = shell_start(false, false);
    let (_, actions) = run(s, vec![ShellEvent::Found(None), ShellEvent::Found(None)]);
    assert_eq!(actions, vec![ShellAction::FindContainer { all: true }, ShellAction::CreateContainer]);
}

#[test]
fn when_a_step_fails_then_the_session_ends() {
    let (s, _) = shell_start(false, true);
    let (end, actions) = run(s, vec![ShellEvent::Found(None), ShellEvent::Found(None), ShellEvent::Failed("boom".to_string())]);
    assert_eq!(actions.last(), Some(&ShellAction::Fail));
    assert_eq!(end.stage, Stage::Done);
}

#[test]
fn when_an_event_does_not_fit_the_stage_then_the_session_ends() {
    let (s, _) = shell_start(false, false);
    let (end, action) = shell_step(s, ShellEvent::Created("x".to_string()));
    assert_eq!(action, ShellAction::Fail);
    assert_eq!(end.stage, Stage::Done);
}

#[test]
fn when_ordering_features_for_fetching_then_they_come_by_reference() {
    let features = vec![
        ("ghcr.io/devcontainers/features/node:1".to_string(), Value::Null),
        ("./local".to_string(), Value::Bool(true)),
        ("ghcr.io/devcontainers/features/git:1".to_string(), Value::Bool(false)),
    ];
    let sorted = fetch_order(&features);
    let ids: Vec<&str> = sorted.iter().map(|(k, _)| k.as_str()).collect();
    assert_eq!(ids, vec!["./local", "ghcr.io/devcontainers/features/git:1", "ghcr.io/devcontainers/features/node:1"]);
    assert_eq!(sorted[0].1, Value::Bool(true));
    assert_eq!(sorted[2].1, Value::Null);
}
