use zestors::backend::{DatagramError, NodeIncarnation};
use zestors::codec::{DecodeError, EncodeError};
use zestors::driver::{announces_to, on_departure, on_notification, Action, Notification};
use zestors::error::ClusterNodeError;
use zestors::member::{ClusterEvent, Member};
use zestors::names::{NodeAddr, NodeName};
use zestors::restart::{ExitStatus, RestartMode, ServerBlueprint};
use zestors::status::{next_status, NodeStatus};
use zestors::timings::{ClusterTimings, QuicTimings, MILLISECOND, SECOND};
use zestors::view::ClusterState;

fn member(name: &str, generation: u64) -> Member {
    Member::new(NodeName::new(name), NodeAddr::new("addr:1"), generation)
}

#[test]
fn restart_modes_decide_by_how_the_actor_exited() {
    let exits = [
        ExitStatus::Normal,
        ExitStatus::Panicked,
        ExitStatus::Aborted,
        ExitStatus::UnhandledError,
    ];
    for exit in exits {
        assert!(RestartMode::Always.should_restart(&exit));
        assert!(!RestartMode::Never.should_restart(&exit));
        assert_eq!(
            RestartMode::OnError.should_restart(&exit),
            exit != ExitStatus::Normal
        );
    }
    assert_eq!(RestartMode::default(), RestartMode::OnError);
    assert_eq!(ServerBlueprint {}, ServerBlueprint {});
}

#[test]
fn defunct_is_final_and_leaving_never_comes_back_up() {
    assert_eq!(next_status(NodeStatus::Starting, NodeStatus::Up), (NodeStatus::Up, true));
    assert_eq!(next_status(NodeStatus::Up, NodeStatus::Up), (NodeStatus::Up, false));
    assert_eq!(
        next_status(NodeStatus::Leaving, NodeStatus::Up),
        (NodeStatus::Leaving, false)
    );
    assert_eq!(
        next_status(NodeStatus::Leaving, NodeStatus::Defunct),
        (NodeStatus::Defunct, true)
    );
    for next in [
        NodeStatus::Starting,
        NodeStatus::Up,
        NodeStatus::Leaving,
        NodeStatus::Defunct,
    ] {
        assert_eq!(
            next_status(NodeStatus::Defunct, next),
            (NodeStatus::Defunct, false)
        );
    }
}

#[test]
fn codec_errors_keep_their_reason() {
    assert_eq!(EncodeError::new("too deep").reason(), "too deep");
    assert_eq!(DecodeError::new("unexpected end").reason(), "unexpected end");
}

#[test]
fn codec_errors_are_reported_with_what_failed() {
    assert_eq!(EncodeError::new("boom").message(), "Failed to encode: boom");
    assert_eq!(DecodeError::new("boom").message(), "Failed to decode: boom");
}

#[test]
fn only_lost_connections_stop_a_datagram_from_going_over_a_stream() {
    assert!(DatagramError::TooLarge.falls_back_to_stream());
    assert!(DatagramError::Unsupported.falls_back_to_stream());
    assert!(!DatagramError::Closed.falls_back_to_stream());
    let incarnation = NodeIncarnation::new(NodeName::new("node-a"), 7);
    assert_eq!(incarnation.name, NodeName::new("node-a"));
    assert_eq!(incarnation.generation, 7);
}

#[test]
fn exit_codes_come_from_the_node_or_are_one() {
    assert_eq!(ClusterNodeError::Node(3).exit_code(), 3);
    assert_eq!(ClusterNodeError::Backend("bind".to_string()).exit_code(), 1);
    assert_eq!(ClusterNodeError::Generation("store".to_string()).exit_code(), 1);
}

#[test]
fn default_timings_suit_real_networks() {
    let timings = ClusterTimings::default();
    assert_eq!(timings.connect_timeout, 5 * SECOND);
    assert_eq!(timings.idle_timeout, 30 * SECOND);
    assert_eq!(timings.reconnect_backoff_min, 250 * MILLISECOND);
    assert_eq!(timings.departure_grace, 300 * MILLISECOND);
    assert_eq!(timings.shutdown_grace, 2 * SECOND);
    let quic = QuicTimings::default();
    assert_eq!(quic.keep_alive, 5 * SECOND);
    assert_eq!(quic.idle_timeout, 30 * SECOND);
}

#[test]
fn names_are_ordered_by_their_bytes() {
    assert!(NodeName::new("node-a").precedes(&NodeName::new("node-b")));
    assert!(!NodeName::new("node-b").precedes(&NodeName::new("node-a")));
    assert!(NodeName::new("node").precedes(&NodeName::new("node-a")));
    assert!(!NodeName::new("x").precedes(&NodeName::new("x")));
    assert!(NodeName::new("Z").precedes(&NodeName::new("a")));
    assert_eq!(NodeName::new("ä").as_str(), "ä");
    assert_eq!(NodeAddr::new("10.0.0.1:7000").as_str(), "10.0.0.1:7000");
}

#[test]
fn the_protocol_task_acts_on_what_the_protocol_reports() {
    let mut cluster = ClusterState::new(member("node-a", 1));
    let actions = on_notification(&mut cluster, false, Notification::MemberUp(member("node-b", 1)));
    assert!(matches!(&actions[..], [Action::CancelPending(n), Action::Publish(ClusterEvent::Up(m))]
        if *n == NodeName::new("node-b") && *m == member("node-b", 1)));

    let actions = on_notification(&mut cluster, false, Notification::MemberDown(member("node-b", 1)));
    assert!(matches!(&actions[..], [Action::Forget(n, 1), Action::PendDown(m)]
        if *n == NodeName::new("node-b") && *m == member("node-b", 1)));
    let actions = on_notification(&mut cluster, false, Notification::MemberDown(member("node-c", 1)));
    assert!(matches!(&actions[..], [Action::Forget(_, 1)]));

    let actions = on_notification(&mut cluster, false, Notification::Defunct);
    assert!(matches!(&actions[..], [Action::SetStatus(NodeStatus::Defunct)]));
    assert!(on_notification(&mut cluster, true, Notification::Defunct).is_empty());
    assert!(on_notification(&mut cluster, false, Notification::Idle).is_empty());

    assert!(on_notification(&mut cluster, false, Notification::Rejoin(member("node-a", 2))).is_empty());
    assert_eq!(cluster.local(), member("node-a", 2));
}

#[test]
fn a_goodbye_is_taken_for_the_generation_that_says_it() {
    let mut cluster = ClusterState::new(member("node-a", 1));
    cluster.member_up(member("node-b", 4));
    assert!(on_departure(&mut cluster, &NodeName::new("node-b"), 3).is_empty());
    let actions = on_departure(&mut cluster, &NodeName::new("node-b"), 4);
    assert!(matches!(&actions[..], [Action::Publish(ClusterEvent::Left(_)), Action::CancelPending(_)]));
    assert!(cluster.members().is_empty());
    assert!(!announces_to(&member("node-a", 0), &member("node-a", 1)));
    assert!(announces_to(&member("node-b", 0), &member("node-a", 1)));
}

#[test]
fn a_goodbye_within_the_grace_is_a_departure_and_never_a_failure() {
    let mut cluster = ClusterState::new(member("node-a", 1));
    cluster.member_up(member("node-b", 2));
    // Declared down: the failure report waits out the grace period.
    let actions = on_notification(&mut cluster, false, Notification::MemberDown(member("node-b", 2)));
    assert!(matches!(&actions[..], [Action::Forget(_, 2), Action::PendDown(m)] if *m == member("node-b", 2)));
    assert_eq!(cluster.members(), vec![member("node-b", 2)]);
    // The goodbye arrives in time.
    let actions = on_departure(&mut cluster, &NodeName::new("node-b"), 2);
    assert!(matches!(&actions[..], [Action::Publish(ClusterEvent::Left(m)), Action::CancelPending(n)]
        if *m == member("node-b", 2) && *n == NodeName::new("node-b")));
    // A failure report that came due anyway publishes nothing.
    assert!(cluster.member_failed(&member("node-b", 2)).is_empty());
}

#[test]
fn without_a_goodbye_the_report_that_comes_due_is_a_failure() {
    let mut cluster = ClusterState::new(member("node-a", 1));
    cluster.member_up(member("node-b", 2));
    let events = cluster.member_failed(&member("node-b", 2));
    assert_eq!(events, vec![ClusterEvent::Failed(member("node-b", 2))]);
    assert!(cluster.members().is_empty());
}
