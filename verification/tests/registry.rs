use zestors::names::NodeName;
use zestors::registry::{prefer_new, Connections, Registered};

fn name(s: &str) -> NodeName {
    NodeName::new(s)
}

#[test]
fn the_first_connection_to_a_peer_is_kept() {
    let mut conns = Connections::new();
    let outcome = conns.register(&name("a"), &name("b"), 1, 10, &name("a"), false);
    assert!(outcome.kept);
    assert!(outcome.replaced.is_none());
    assert_eq!(conns.get(&name("b")).unwrap().conn, 10);
}

#[test]
fn nodes_dialing_each_other_at_once_keep_the_one_dialed_by_the_smaller_name() {
    // At node-a: first its own dial, then node-b's.
    let mut at_a = Connections::new();
    at_a.register(&name("node-a"), &name("node-b"), 5, 1, &name("node-a"), false);
    let outcome = at_a.register(&name("node-a"), &name("node-b"), 5, 2, &name("node-b"), true);
    assert!(!outcome.kept);
    assert_eq!(at_a.get(&name("node-b")).unwrap().dialer, name("node-a"));

    // At node-b: first its own dial, then node-a's.
    let mut at_b = Connections::new();
    at_b.register(&name("node-b"), &name("node-a"), 3, 7, &name("node-b"), false);
    let outcome = at_b.register(&name("node-b"), &name("node-a"), 3, 8, &name("node-a"), true);
    assert!(outcome.kept);
    assert_eq!(outcome.replaced.unwrap().conn, 7);
    assert_eq!(at_b.get(&name("node-a")).unwrap().dialer, name("node-a"));
}

#[test]
fn a_restarted_peer_replaces_its_old_connection_and_an_outdated_one_loses() {
    let mut conns = Connections::new();
    conns.register(&name("a"), &name("b"), 1, 10, &name("a"), false);
    let outcome = conns.register(&name("a"), &name("b"), 2, 11, &name("b"), true);
    assert!(outcome.kept);
    assert_eq!(outcome.replaced.unwrap().generation, 1);
    let outcome = conns.register(&name("a"), &name("b"), 1, 12, &name("a"), true);
    assert!(!outcome.kept);
    assert_eq!(conns.get(&name("b")).unwrap().conn, 11);
}

#[test]
fn a_closed_connection_is_simply_replaced() {
    let mut conns = Connections::new();
    conns.register(&name("a"), &name("b"), 9, 10, &name("a"), false);
    let outcome = conns.register(&name("a"), &name("b"), 1, 11, &name("b"), false);
    assert!(outcome.kept);
    assert!(outcome.replaced.is_none());
}

#[test]
fn only_the_current_connection_is_unregistered() {
    let mut conns = Connections::new();
    conns.register(&name("a"), &name("b"), 4, 10, &name("a"), false);
    assert_eq!(conns.unregister(&name("b"), 9), None);
    assert_eq!(conns.unregister(&name("b"), 10), Some(4));
    assert!(conns.get(&name("b")).is_none());
    assert_eq!(conns.unregister(&name("b"), 10), None);
}

#[test]
fn forgetting_closes_connections_of_that_generation_or_older() {
    let mut conns = Connections::new();
    conns.register(&name("a"), &name("b"), 4, 10, &name("a"), false);
    assert_eq!(conns.forget(&name("b"), 3), None);
    assert_eq!(conns.forget(&name("b"), 4), Some(10));
    assert_eq!(conns.forget(&name("b"), 4), None);
}

#[test]
fn reconnections_by_the_same_side_win() {
    let existing = Registered {
        conn: 1,
        generation: 3,
        dialer: name("node-b"),
    };
    assert!(prefer_new(&name("node-a"), &name("node-b"), 3, &name("node-b"), &existing));
    assert!(prefer_new(&name("node-a"), &name("node-b"), 3, &name("node-a"), &existing));
    assert!(!prefer_new(&name("node-c"), &name("node-b"), 3, &name("node-c"), &existing));
}
