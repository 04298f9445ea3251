use std::cell::RefCell;

use local_stack_focus::container::{Config, Container, RawContainer};
use local_stack_focus::dictionary::TextMap;
use local_stack_focus::engine::Docker;
use local_stack_focus::error::{DockerError, PatchError, TickError};
use local_stack_focus::snapshot::Snapshot;
use local_stack_focus::stack::CurrentStack;

fn config() -> Config {
    Config {
        network: "front".to_string(),
        label_key: "focus".to_string(),
        target: "proxy".to_string(),
        dependencies: vec!["web".to_string(), "api".to_string()],
    }
}

fn pairs(items: &[(&str, &str)]) -> TextMap {
    TextMap::from_pairs(items.iter().map(|(k, v)| (k.to_string(), v.to_string())).collect())
}

fn raw(id: &str, networks: &[(&str, &str)], labels: &[(&str, &str)]) -> RawContainer {
    RawContainer {
        id: id.to_string(),
        name: Some(id.to_string()),
        networks: pairs(networks),
        labels: pairs(labels),
    }
}

fn dependent(id: &str, ip: &str) -> RawContainer {
    raw(id, &[("front", ip)], &[("focus", "yes")])
}

fn target(id: &str, ip: &str) -> RawContainer {
    raw(id, &[("front", ip)], &[("com.docker.compose.service", "proxy")])
}

struct Scripted {
    polls: Vec<Result<Vec<RawContainer>, String>>,
    refuse: Option<String>,
    calls: RefCell<Vec<String>>,
}

impl Scripted {
    fn new(polls: Vec<Result<Vec<RawContainer>, String>>) -> Scripted {
        let mut polls = polls;
        polls.reverse();
        Scripted { polls, refuse: None, calls: RefCell::new(Vec::new()) }
    }

    fn calls(&self) -> Vec<String> {
        self.calls.borrow().clone()
    }
}

impl Docker for Scripted {
    fn poll(&mut self) -> Result<Snapshot, String> {
        match self.polls.pop() {
            Some(Ok(raws)) => Ok(Snapshot::from_reports(raws)),
            Some(Err(reason)) => Err(reason),
            None => Ok(Snapshot::new()),
        }
    }

    fn update_hosts_for(
        &self,
        container: Container,
        dependencies: &[String],
        network: &str,
        target: &str,
        host: &str,
    ) -> Result<(), PatchError> {
        self.calls.borrow_mut().push(format!(
            "{} {} {} {} {}",
            container.id(),
            dependencies.join(","),
            network,
            target,
            host
        ));
        if self.refuse.as_deref() == Some(container.id().as_str()) {
            Err(PatchError::Docker(DockerError::NoName(container.id())))
        } else {
            Ok(())
        }
    }
}

#[test]
fn a_target_is_applied_to_every_participant_and_recorded() {
    let mut stack = CurrentStack::new(config());
    stack.actualize(Snapshot::from_reports(vec![dependent("a", "1"), dependent("b", "2")]));
    let events = stack.actualize(Snapshot::from_reports(vec![
        dependent("a", "1"),
        dependent("b", "2"),
        target("t", "10.0.0.5"),
    ]));
    let patches = stack.requests_for(&events[0]);
    assert_eq!(patches.len(), 2);
    assert_eq!(patches[0].container.id(), "a");
    assert_eq!(patches[1].container.id(), "b");
    for patch in &patches {
        assert_eq!(patch.dependencies, vec!["web".to_string(), "api".to_string()]);
        assert_eq!(patch.network, "front");
        assert_eq!(patch.target, "proxy");
        assert_eq!(patch.host, "10.0.0.5");
    }
    assert_eq!(stack.target_ip(), None);
    stack.settle(&events[0]);
    assert_eq!(stack.target_ip(), Some("10.0.0.5".to_string()));
}

#[test]
fn a_dependent_is_patched_only_once_a_target_is_on_record() {
    let mut stack = CurrentStack::new(config());
    let first = stack.actualize(Snapshot::from_reports(vec![dependent("a", "1")]));
    assert!(stack.requests_for(&first[0]).is_empty());
    stack.settle(&first[0]);
    assert_eq!(stack.target_ip(), None);

    let second = stack.actualize(Snapshot::from_reports(vec![
        dependent("a", "1"),
        target("t", "10.0.0.5"),
    ]));
    stack.settle(&second[0]);

    let third = stack.actualize(Snapshot::from_reports(vec![
        dependent("a", "1"),
        target("t", "10.0.0.5"),
        dependent("c", "3"),
    ]));
    let patches = stack.requests_for(&third[0]);
    assert_eq!(patches.len(), 1);
    assert_eq!(patches[0].container.id(), "c");
    assert_eq!(patches[0].host, "10.0.0.5");
    assert_eq!(patches[0].target, "proxy");
}

#[test]
fn other_events_call_for_nothing_and_leave_the_address() {
    let mut stack = CurrentStack::new(config());
    let first = stack.actualize(Snapshot::from_reports(vec![target("t", "10.0.0.5")]));
    stack.settle(&first[0]);
    let events = stack.actualize(Snapshot::from_reports(vec![
        raw("plain", &[("front", "7")], &[]),
        raw("away", &[], &[("focus", "yes")]),
    ]));
    assert_eq!(events.len(), 3);
    for event in &events {
        assert!(stack.requests_for(event).is_empty());
        stack.settle(event);
        assert_eq!(stack.target_ip(), Some("10.0.0.5".to_string()));
    }
}

#[test]
fn the_address_on_record_follows_the_latest_target() {
    let mut stack = CurrentStack::new(config());
    let first = stack.actualize(Snapshot::from_reports(vec![target("t", "10.0.0.5")]));
    stack.settle(&first[0]);
    let gone = stack.actualize(Snapshot::new());
    stack.settle(&gone[0]);
    assert_eq!(stack.target_ip(), Some("10.0.0.5".to_string()));
    let back = stack.actualize(Snapshot::from_reports(vec![target("t2", "10.0.0.8")]));
    stack.settle(&back[0]);
    assert_eq!(stack.target_ip(), Some("10.0.0.8".to_string()));
}

#[test]
fn a_cycle_polls_reconciles_and_dispatches() {
    let mut docker = Scripted::new(vec![
        Ok(vec![dependent("a", "1"), dependent("b", "2")]),
        Ok(vec![dependent("a", "1"), dependent("b", "2"), target("t", "10.0.0.5"), dependent("c", "3")]),
    ]);
    let mut stack = CurrentStack::new(config());
    let mut log = Vec::new();
    assert!(stack.loop_once(&mut docker, &mut log).is_ok());
    assert!(docker.calls().is_empty());
    assert_eq!(log.len(), 2);
    assert!(stack.loop_once(&mut docker, &mut log).is_ok());
    assert_eq!(
        docker.calls(),
        vec![
            "a web,api front proxy 10.0.0.5".to_string(),
            "b web,api front proxy 10.0.0.5".to_string(),
            "c web,api front proxy 10.0.0.5".to_string(),
        ]
    );
    assert_eq!(log.len(), 4);
    assert!(log[2].starts_with("event found target: container t "));
    assert!(log[3].starts_with("event container match: container c "));
    assert_eq!(stack.target_ip(), Some("10.0.0.5".to_string()));
}

#[test]
fn a_failed_patch_ends_the_cycle_before_the_address_is_recorded() {
    let mut docker = Scripted::new(vec![
        Ok(vec![dependent("a", "1"), dependent("b", "2"), dependent("c", "3")]),
        Ok(vec![
            dependent("a", "1"),
            dependent("b", "2"),
            dependent("c", "3"),
            target("t", "10.0.0.5"),
            dependent("d", "4"),
        ]),
    ]);
    docker.refuse = Some("b".to_string());
    let mut stack = CurrentStack::new(config());
    let mut log = Vec::new();
    stack.loop_once(&mut docker, &mut log).unwrap();
    let outcome = stack.loop_once(&mut docker, &mut log);
    match outcome {
        Err(TickError::Patch(PatchError::Docker(DockerError::NoName(id)))) => assert_eq!(id, "b"),
        other => panic!("unexpected outcome {:?}", other),
    }
    assert_eq!(
        docker.calls(),
        vec!["a web,api front proxy 10.0.0.5".to_string(), "b web,api front proxy 10.0.0.5".to_string()]
    );
    assert_eq!(stack.target_ip(), None);
    assert_eq!(stack.containers().len(), 5);
    assert_eq!(log.len(), 4);
}

#[test]
fn a_failed_poll_changes_nothing() {
    let mut docker = Scripted::new(vec![Ok(vec![target("t", "10.0.0.5")]), Err("down".to_string())]);
    let mut stack = CurrentStack::new(config());
    let mut log = Vec::new();
    stack.loop_once(&mut docker, &mut log).unwrap();
    let outcome = stack.loop_once(&mut docker, &mut log);
    match &outcome {
        Err(error) => {
            assert!(error.is_fatal());
            assert_eq!(error.to_string(), "down");
        }
        Ok(_) => panic!("the poll failed"),
    }
    assert_eq!(stack.containers().len(), 1);
    assert_eq!(stack.target_ip(), Some("10.0.0.5".to_string()));
    assert_eq!(log.len(), 1);
}

#[test]
fn tick_takes_the_outcome_of_a_poll() {
    let docker = Scripted::new(Vec::new());
    let mut stack = CurrentStack::new(config());
    let mut log = Vec::new();
    let failed = stack.tick(&docker, Err("no socket".to_string()), &mut log);
    assert!(matches!(failed, Err(TickError::Poll(reason)) if reason == "no socket"));
    let polled = Snapshot::from_reports(vec![target("t", "10.0.0.5"), dependent("a", "1")]);
    assert!(stack.tick(&docker, Ok(polled), &mut log).is_ok());
    assert_eq!(docker.calls(), vec!["a web,api front proxy 10.0.0.5".to_string()]);
    assert_eq!(stack.target_ip(), Some("10.0.0.5".to_string()));
}

#[test]
fn dispatch_runs_the_events_in_order() {
    let docker = Scripted::new(Vec::new());
    let mut stack = CurrentStack::new(config());
    let events = stack.actualize(Snapshot::from_reports(vec![
        dependent("early", "1"),
        target("t", "10.0.0.5"),
        dependent("late", "2"),
    ]));
    let mut log = Vec::new();
    assert!(stack.dispatch(&docker, &events, &mut log).is_ok());
    assert_eq!(docker.calls(), vec!["late web,api front proxy 10.0.0.5".to_string()]);
    assert_eq!(log.len(), 3);
}

#[test]
fn patch_errors_are_not_fatal() {
    let error = TickError::Patch(PatchError::Transport("broken pipe".to_string()));
    assert!(!error.is_fatal());
    assert_eq!(error.to_string(), "broken pipe");
    let missing = TickError::Patch(PatchError::Docker(DockerError::NoHost("abc".to_string())));
    assert_eq!(missing.to_string(), "container abc has no /etc/hosts file");
}
