use publar::event_log::{EventLog, EventType};
use publar::player::{PlayerState, ScenarioPlayer, Step};
use publar::registry::{HomeserverInfo, NodeRegistry, RegistryError};
use publar::scenario::{Action, Operation, Scenario};

fn create(id: &str, at_millis: u64) -> Operation {
    Operation { at_millis, action: Action::CreateClient { id: id.to_string() } }
}

fn scenario(ops: Vec<Operation>) -> Scenario {
    Scenario { name: "s".to_string(), description: "d".to_string(), operations: ops }
}

/// Runs the player to the end on a simulated clock. `outcome` decides each
/// executed operation; probes never succeed. Returns the executed indices
/// with the time each was dispatched.
fn drive(
    player: &mut ScenarioPlayer,
    registry: &NodeRegistry<u32, u32>,
    log: &mut EventLog,
    outcome: impl Fn(usize) -> Result<(), RegistryError>,
) -> Vec<(usize, u64)> {
    let mut now: u64 = 0;
    let mut executed = Vec::new();
    player.start(now);
    for _ in 0..10_000 {
        match player.poll(registry, now, format!("t{}", now), log) {
            Step::Done => return executed,
            Step::SleepUntil(t) => now = now.max(t),
            Step::Execute(i) => {
                executed.push((i, now));
                assert!(player.report(outcome(i), format!("t{}", now), log));
            }
            Step::Probe(_) => match player.report_probe(false, now, format!("t{}", now), log) {
                Step::SleepUntil(t) => now = now.max(t),
                other => panic!("unexpected {:?}", other),
            },
            Step::Pending => panic!("nothing should be pending"),
        }
    }
    panic!("the run did not end");
}

fn types(log: &EventLog) -> Vec<EventType> {
    log.entries().iter().map(|e| e.event_type).collect()
}

#[test]
fn operations_dispatch_in_offset_order_with_ties_in_list_order() {
    let ops = vec![create("a", 0), create("b", 1000), create("c", 1000), create("d", 2000)];
    let mut p = ScenarioPlayer::new(scenario(ops));
    let reg: NodeRegistry<u32, u32> = NodeRegistry::new();
    let mut log = EventLog::new();
    let done = drive(&mut p, &reg, &mut log, |_| Ok(()));
    assert_eq!(done, vec![(0, 0), (1, 1000), (2, 1000), (3, 2000)]);
    let dispatches: Vec<String> = log
        .entries()
        .iter()
        .filter(|e| e.event_type == EventType::Info)
        .map(|e| e.message.clone())
        .collect();
    assert_eq!(
        dispatches,
        vec![
            "dispatch create_client a",
            "dispatch create_client b",
            "dispatch create_client c",
            "dispatch create_client d"
        ]
    );
    assert_eq!(p.state(), PlayerState::Completed);
}

#[test]
fn a_failing_operation_does_not_abort_the_run() {
    let ops = vec![create("a", 0), create("b", 0), create("c", 0), create("d", 0)];
    let mut p = ScenarioPlayer::new(scenario(ops));
    let reg: NodeRegistry<u32, u32> = NodeRegistry::new();
    let mut log = EventLog::new();
    let done = drive(&mut p, &reg, &mut log, |i| {
        if i == 1 {
            Err(RegistryError::RemoteFailure)
        } else {
            Ok(())
        }
    });
    assert_eq!(done.len(), 4);
    let t = types(&log);
    assert_eq!(t.iter().filter(|x| **x == EventType::Error).count(), 1);
    let at = t.iter().position(|x| *x == EventType::Error).unwrap();
    assert!(at > 0 && at + 1 < t.len());
    assert_ne!(t[at - 1], EventType::Error);
    assert_ne!(t[at + 1], EventType::Error);
    assert_eq!(log.entries()[at].message, "failed create_client b: RemoteFailure");
    let ids: Vec<usize> = log.entries().iter().map(|e| e.id).collect();
    assert_eq!(ids, (0..8).collect::<Vec<usize>>());
}

#[test]
fn a_wait_that_never_succeeds_times_out_once_at_the_deadline() {
    let mut reg: NodeRegistry<u32, u32> = NodeRegistry::new();
    reg.add_storage_node("hs".to_string(), "H".to_string(), 0, 0).unwrap();
    reg.storage_node_ready(
        "hs",
        HomeserverInfo { port: 1, public_key: "k".to_string(), http_url: "http://h/".to_string() },
    )
    .unwrap();
    let ops = vec![
        Operation {
            at_millis: 0,
            action: Action::WaitForHomeserver { homeserver_id: "hs".to_string(), timeout_millis: 1000 },
        },
        create("after", 0),
    ];
    let mut p = ScenarioPlayer::new(scenario(ops));
    let mut log = EventLog::new();
    let done = drive(&mut p, &reg, &mut log, |_| Ok(()));
    assert_eq!(done, vec![(1, 1000)]);
    let errors: Vec<_> = log.entries().iter().filter(|e| e.event_type == EventType::Error).collect();
    assert_eq!(errors.len(), 1);
    assert_eq!(errors[0].message, "failed wait_for_homeserver hs: Timeout");
    assert_eq!(errors[0].timestamp, "t1000");
}

#[test]
fn a_wait_for_an_unknown_node_fails_at_once() {
    let reg: NodeRegistry<u32, u32> = NodeRegistry::new();
    let ops = vec![Operation {
        at_millis: 0,
        action: Action::WaitForHomeserver { homeserver_id: "x".to_string(), timeout_millis: 500 },
    }];
    let mut p = ScenarioPlayer::new(scenario(ops));
    let mut log = EventLog::new();
    drive(&mut p, &reg, &mut log, |_| Ok(()));
    assert_eq!(types(&log), vec![EventType::Error]);
    assert_eq!(log.entries()[0].message, "failed wait_for_homeserver x: NotFound");
}

#[test]
fn a_ready_node_ends_the_wait_with_success() {
    let mut reg: NodeRegistry<u32, u32> = NodeRegistry::new();
    reg.add_storage_node("hs".to_string(), "H".to_string(), 0, 0).unwrap();
    reg.storage_node_ready(
        "hs",
        HomeserverInfo { port: 1, public_key: "k".to_string(), http_url: "http://h/".to_string() },
    )
    .unwrap();
    let ops = vec![Operation {
        at_millis: 0,
        action: Action::WaitForHomeserver { homeserver_id: "hs".to_string(), timeout_millis: 500 },
    }];
    let mut p = ScenarioPlayer::new(scenario(ops));
    let mut log = EventLog::new();
    p.start(0);
    match p.poll(&reg, 0, "t".to_string(), &mut log) {
        Step::Probe(url) => assert_eq!(url, "http://h/"),
        other => panic!("unexpected {:?}", other),
    }
    assert!(matches!(p.poll(&reg, 0, "t".to_string(), &mut log), Step::Pending));
    assert!(matches!(p.report_probe(true, 40, "t".to_string(), &mut log), Step::SleepUntil(40)));
    assert_eq!(types(&log), vec![EventType::Info, EventType::Success]);
    assert!(matches!(p.poll(&reg, 40, "t".to_string(), &mut log), Step::Done));
}

#[test]
fn probe_waits_one_interval_but_never_past_the_deadline() {
    let mut reg: NodeRegistry<u32, u32> = NodeRegistry::new();
    reg.add_storage_node("hs".to_string(), "H".to_string(), 0, 0).unwrap();
    reg.storage_node_ready(
        "hs",
        HomeserverInfo { port: 1, public_key: "k".to_string(), http_url: "u".to_string() },
    )
    .unwrap();
    let ops = vec![Operation {
        at_millis: 0,
        action: Action::WaitForHomeserver { homeserver_id: "hs".to_string(), timeout_millis: 150 },
    }];
    let mut p = ScenarioPlayer::new(scenario(ops));
    let mut log = EventLog::new();
    p.start(0);
    assert!(matches!(p.poll(&reg, 0, "t".to_string(), &mut log), Step::Probe(_)));
    assert!(matches!(p.report_probe(false, 0, "t".to_string(), &mut log), Step::SleepUntil(100)));
    assert!(matches!(p.poll(&reg, 100, "t".to_string(), &mut log), Step::Probe(_)));
    assert!(matches!(p.report_probe(false, 100, "t".to_string(), &mut log), Step::SleepUntil(150)));
    assert!(matches!(p.poll(&reg, 150, "t".to_string(), &mut log), Step::SleepUntil(150)));
    assert_eq!(types(&log), vec![EventType::Info, EventType::Error]);
}

#[test]
fn stop_ends_the_run() {
    let mut p = ScenarioPlayer::new(scenario(vec![create("a", 5000)]));
    let reg: NodeRegistry<u32, u32> = NodeRegistry::new();
    let mut log = EventLog::new();
    p.start(0);
    assert!(matches!(p.poll(&reg, 0, "t".to_string(), &mut log), Step::SleepUntil(5000)));
    p.stop();
    assert_eq!(p.state(), PlayerState::Completed);
    assert!(matches!(p.poll(&reg, 6000, "t".to_string(), &mut log), Step::Done));
    assert!(log.entries().is_empty());
}

#[test]
fn time_order_of_scenarios() {
    assert!(scenario(vec![create("a", 0), create("b", 0), create("c", 3)]).is_time_ordered());
    assert!(!scenario(vec![create("a", 5), create("b", 1)]).is_time_ordered());
    assert!(scenario(vec![]).is_time_ordered());
}

#[test]
fn event_log_ids_keep_growing_after_clear() {
    let mut log = EventLog::new();
    assert_eq!(log.push("a".to_string(), "m".to_string(), EventType::Info), 0);
    assert_eq!(log.push("b".to_string(), "n".to_string(), EventType::Success), 1);
    log.clear();
    assert!(log.entries().is_empty());
    assert_eq!(log.push("c".to_string(), "o".to_string(), EventType::Error), 2);
    assert_eq!(log.next_id(), 3);
}
