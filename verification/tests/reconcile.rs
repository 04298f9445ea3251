use local_stack_focus::container::{Config, Container, RawContainer};
use local_stack_focus::dictionary::TextMap;
use local_stack_focus::event::StackEvents;
use local_stack_focus::snapshot::Snapshot;
use local_stack_focus::stack::CurrentStack;

fn config() -> Config {
    Config {
        network: "front".to_string(),
        label_key: "focus".to_string(),
        target: "proxy".to_string(),
        dependencies: vec!["web".to_string(), "api".to_string()],
    }
}

fn pairs(items: &[(&str, &str)]) -> TextMap {
    TextMap::from_pairs(items.iter().map(|(k, v)| (k.to_string(), v.to_string())).collect())
}

fn raw(id: &str, networks: &[(&str, &str)], labels: &[(&str, &str)]) -> RawContainer {
    RawContainer {
        id: id.to_string(),
        name: Some(format!("name-of-{}", id)),
        networks: pairs(networks),
        labels: pairs(labels),
    }
}

fn dependent(id: &str, ip: &str) -> RawContainer {
    raw(id, &[("front", ip)], &[("focus", "yes"), ("com.docker.compose.service", "web")])
}

fn target(id: &str, ip: &str) -> RawContainer {
    raw(id, &[("front", ip)], &[("com.docker.compose.service", "proxy")])
}

fn snapshot(raws: Vec<RawContainer>) -> Snapshot {
    Snapshot::from_reports(raws)
}

fn ids(containers: &[Container]) -> Vec<String> {
    containers.iter().map(|c| c.id()).collect()
}

fn kind(event: &StackEvents) -> (&'static str, String) {
    match event {
        StackEvents::New(c) => ("new", c.id()),
        StackEvents::Target(c, _, _) => ("target", c.id()),
        StackEvents::Gone(c) => ("gone", c.id()),
        StackEvents::NoFlag(c) => ("noflag", c.id()),
        StackEvents::OutsideNetwork(c) => ("outside", c.id()),
    }
}

fn kinds(events: &[StackEvents]) -> Vec<(&'static str, String)> {
    events.iter().map(kind).collect()
}

#[test]
fn a_new_stack_retains_nothing() {
    let stack = CurrentStack::new(config());
    assert!(stack.containers().is_empty());
    assert_eq!(stack.target_ip(), None);
    assert_eq!(stack.config().network, "front");
}

#[test]
fn target_seen_next_to_a_retained_dependent() {
    let mut stack = CurrentStack::new(config());
    stack.actualize(snapshot(vec![dependent("A", "10.0.0.2")]));
    let events = stack
        .actualize(snapshot(vec![dependent("A", "10.0.0.2"), target("B", "10.0.0.5")]));
    assert_eq!(events.len(), 1);
    match &events[0] {
        StackEvents::Target(container, active, ip) => {
            assert_eq!(container.id(), "B");
            assert_eq!(ids(active), vec!["A".to_string()]);
            assert_eq!(ip, "10.0.0.5");
        }
        other => panic!("unexpected event {:?}", other),
    }
    assert_eq!(ids(&stack.containers()), vec!["A".to_string(), "B".to_string()]);
}

#[test]
fn retained_container_that_is_not_reported_is_gone() {
    let mut stack = CurrentStack::new(config());
    stack.actualize(snapshot(vec![dependent("A", "10.0.0.2")]));
    let events = stack.actualize(Snapshot::new());
    assert_eq!(kinds(&events), vec![("gone", "A".to_string())]);
    match &events[0] {
        StackEvents::Gone(container) => {
            assert_eq!(container.ip(), Some("10.0.0.2".to_string()));
            assert_eq!(container.flag(), Some("yes".to_string()));
        }
        other => panic!("unexpected event {:?}", other),
    }
    assert!(stack.containers().is_empty());
}

#[test]
fn first_sightings_follow_the_table() {
    let mut stack = CurrentStack::new(config());
    let events = stack.actualize(snapshot(vec![
        target("t", "10.0.0.5"),
        dependent("d", "10.0.0.6"),
        raw("plain", &[("front", "10.0.0.7")], &[("com.docker.compose.service", "db")]),
        raw("away", &[("back", "10.1.0.7")], &[("focus", "yes")]),
        raw("bare", &[], &[]),
    ]));
    assert_eq!(
        kinds(&events),
        vec![
            ("target", "t".to_string()),
            ("new", "d".to_string()),
            ("noflag", "plain".to_string()),
            ("outside", "away".to_string()),
            ("outside", "bare".to_string()),
        ]
    );
    assert_eq!(ids(&stack.containers()), vec!["t", "d", "plain", "away", "bare"]);
}

#[test]
fn a_flagged_target_is_a_target() {
    let mut stack = CurrentStack::new(config());
    let events = stack.actualize(snapshot(vec![raw(
        "t",
        &[("front", "10.0.0.5")],
        &[("focus", "yes"), ("com.docker.compose.service", "proxy")],
    )]));
    assert_eq!(kinds(&events), vec![("target", "t".to_string())]);
}

#[test]
fn a_target_outside_the_network_is_outside() {
    let mut stack = CurrentStack::new(config());
    let events = stack.actualize(snapshot(vec![raw(
        "t",
        &[("back", "10.1.0.5")],
        &[("com.docker.compose.service", "proxy")],
    )]));
    assert_eq!(kinds(&events), vec![("outside", "t".to_string())]);
}

#[test]
fn a_container_that_stays_gives_no_event_and_is_not_derived_again() {
    let mut stack = CurrentStack::new(config());
    stack.actualize(snapshot(vec![dependent("A", "10.0.0.2")]));
    let events = stack.actualize(snapshot(vec![raw(
        "A",
        &[("front", "10.0.0.99")],
        &[("com.docker.compose.service", "proxy")],
    )]));
    assert!(events.is_empty());
    let retained = stack.containers();
    assert_eq!(retained.len(), 1);
    assert_eq!(retained[0].ip(), Some("10.0.0.2".to_string()));
    assert_eq!(retained[0].service(), Some("web".to_string()));
    assert_eq!(retained[0].flag(), Some("yes".to_string()));
}

#[test]
fn a_container_that_went_and_came_back_is_derived_again() {
    let mut stack = CurrentStack::new(config());
    stack.actualize(snapshot(vec![dependent("A", "10.0.0.2")]));
    stack.actualize(Snapshot::new());
    let events = stack.actualize(snapshot(vec![dependent("A", "10.0.0.3")]));
    assert_eq!(kinds(&events), vec![("new", "A".to_string())]);
    assert_eq!(stack.containers()[0].ip(), Some("10.0.0.3".to_string()));
}

#[test]
fn participants_are_the_retained_flagged_containers_with_an_address() {
    let mut stack = CurrentStack::new(config());
    stack.actualize(snapshot(vec![
        dependent("a", "10.0.0.2"),
        raw("noflag", &[("front", "10.0.0.3")], &[]),
        raw("noip", &[], &[("focus", "yes")]),
        dependent("leaving", "10.0.0.4"),
        dependent("b", "10.0.0.6"),
    ]));
    let events = stack.actualize(snapshot(vec![
        dependent("fresh", "10.0.0.9"),
        target("t", "10.0.0.5"),
        dependent("b", "10.0.0.6"),
        raw("noip", &[], &[("focus", "yes")]),
        raw("noflag", &[("front", "10.0.0.3")], &[]),
        dependent("a", "10.0.0.2"),
    ]));
    assert_eq!(
        kinds(&events),
        vec![
            ("gone", "leaving".to_string()),
            ("new", "fresh".to_string()),
            ("target", "t".to_string()),
        ]
    );
    match &events[2] {
        StackEvents::Target(_, active, ip) => {
            assert_eq!(ids(active), vec!["a".to_string(), "b".to_string()]);
            assert_eq!(ip, "10.0.0.5");
        }
        other => panic!("unexpected event {:?}", other),
    }
}

#[test]
fn the_retained_identities_are_those_of_the_snapshot() {
    let mut stack = CurrentStack::new(config());
    stack.actualize(snapshot(vec![dependent("a", "1"), dependent("b", "2"), dependent("c", "3")]));
    stack.actualize(snapshot(vec![dependent("d", "4"), dependent("b", "2")]));
    let mut retained = ids(&stack.containers());
    retained.sort();
    assert_eq!(retained, vec!["b".to_string(), "d".to_string()]);
}

#[test]
fn the_same_poll_on_the_same_state_gives_the_same_events() {
    let run = || {
        let mut stack = CurrentStack::new(config());
        stack.actualize(snapshot(vec![dependent("a", "1"), dependent("b", "2")]));
        let events = stack.actualize(snapshot(vec![target("t", "5"), dependent("b", "2")]));
        let lines: Vec<String> = events.iter().map(|e| e.to_string()).collect();
        (lines, ids(&stack.containers()))
    };
    assert_eq!(run(), run());
}

#[test]
fn every_departure_gives_one_gone() {
    let mut stack = CurrentStack::new(config());
    stack.actualize(snapshot(vec![dependent("a", "1"), dependent("b", "2"), dependent("c", "3")]));
    let events = stack.actualize(snapshot(vec![dependent("b", "2")]));
    assert_eq!(kinds(&events), vec![("gone", "a".to_string()), ("gone", "c".to_string())]);
    assert_eq!(ids(&stack.containers()), vec!["b".to_string()]);
}

#[test]
fn a_later_report_of_an_identity_replaces_the_earlier_one() {
    let mut polled = Snapshot::new();
    polled.insert(dependent("a", "1"));
    polled.insert(dependent("b", "2"));
    polled.insert(target("a", "9"));
    assert_eq!(polled.len(), 2);
    assert!(polled.contains_key("a"));
    assert!(!polled.contains_key("c"));
    assert_eq!(polled.get("a").unwrap().networks.get("front"), Some(&"9".to_string()));
    assert_eq!(polled.position("a"), Some(0));
    assert_eq!(polled.get("b").unwrap().id, "b");
    assert!(polled.get("zz").is_none());
    assert_eq!(polled.position("b"), Some(1));
    let listed = snapshot(vec![dependent("a", "1"), dependent("b", "2"), target("a", "9")]);
    assert_eq!(listed.len(), 2);
    assert_eq!(
        listed.get("a").unwrap().labels.get("com.docker.compose.service"),
        Some(&"proxy".to_string())
    );
}

#[test]
fn event_lines() {
    let mut stack = CurrentStack::new(config());
    let first = stack.actualize(snapshot(vec![
        dependent("0123456789abcdefXYZ", "10.0.0.2"),
        raw("short", &[], &[]),
    ]));
    assert_eq!(
        first[0].to_string(),
        "event container match: container 0123456789abcdef flagged service web named name-of-0123456789abcdefXYZ in network at ip 10.0.0.2"
    );
    assert_eq!(
        first[1].to_string(),
        "event container ignored (network): container short unflagged named name-of-short orphan"
    );
    let second = stack.actualize(snapshot(vec![
        dependent("0123456789abcdefXYZ", "10.0.0.2"),
        target("tgt", "10.0.0.5"),
        raw("plain", &[("front", "10.0.0.7")], &[]),
    ]));
    assert_eq!(
        second[0].to_string(),
        "event container gone: container short unflagged named name-of-short orphan"
    );
    assert_eq!(
        second[1].to_string(),
        "event found target: container tgt unflagged service proxy named name-of-tgt in network at ip 10.0.0.5 applying it to known 1 containers"
    );
    assert_eq!(
        second[2].to_string(),
        "event container ignored (label): container plain unflagged named name-of-plain in network at ip 10.0.0.7"
    );
}
