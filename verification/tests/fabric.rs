use zestors::backend::DatagramError;
use zestors::fabric::{datagram_fate, release_at, Fabric, Fate, MAX_DATAGRAM};
use zestors::names::{NodeAddr, NodeName};
use zestors::timings::MILLISECOND;

fn name(s: &str) -> NodeName {
    NodeName::new(s)
}

#[test]
fn a_node_is_reached_at_its_address_by_those_who_mean_it() {
    let mut fabric = Fabric::new();
    let addr = NodeAddr::new("10.0.0.1:7000");
    let (instance, replaced) = fabric.bind("node-a", &addr);
    assert_eq!(replaced, None);
    assert_eq!(fabric.answering(&name("node-b"), &addr, &name("node-a")), Some(instance));
    // Whoever answers must be the node that was meant.
    assert_eq!(fabric.answering(&name("node-b"), &addr, &name("node-c")), None);
    assert_eq!(fabric.answering(&name("node-b"), &NodeAddr::new("elsewhere"), &name("node-a")), None);
}

#[test]
fn a_restarted_node_replaces_its_registration_and_the_old_one_leaving_changes_nothing() {
    let mut fabric = Fabric::new();
    let addr = NodeAddr::new("10.0.0.1:7000");
    let (first, _) = fabric.bind("node-a", &addr);
    let (second, replaced) = fabric.bind("node-a", &addr);
    assert_eq!(replaced, Some(first));
    assert!(second > first);
    fabric.unbind(&addr, first);
    assert_eq!(fabric.answering(&name("node-b"), &addr, &name("node-a")), Some(second));
    fabric.unbind(&addr, second);
    assert_eq!(fabric.answering(&name("node-b"), &addr, &name("node-a")), None);
}

#[test]
fn partitions_cut_both_ways_until_healed() {
    let mut fabric = Fabric::new();
    let addr = NodeAddr::new("10.0.0.2:7000");
    fabric.bind("node-b", &addr);
    fabric.partition(&["node-a"], &["node-b", "node-c"]);
    assert!(fabric.partitioned(&name("node-a"), &name("node-b")));
    assert!(fabric.partitioned(&name("node-b"), &name("node-a")));
    assert!(fabric.partitioned(&name("node-c"), &name("node-a")));
    assert!(!fabric.partitioned(&name("node-b"), &name("node-c")));
    assert_eq!(fabric.answering(&name("node-a"), &addr, &name("node-b")), None);
    assert!(fabric.answering(&name("node-c"), &addr, &name("node-b")).is_some());
    fabric.heal();
    assert!(!fabric.partitioned(&name("node-a"), &name("node-b")));
    assert!(fabric.answering(&name("node-a"), &addr, &name("node-b")).is_some());
}

#[test]
fn messages_take_a_millisecond_unless_told_otherwise() {
    let mut fabric = Fabric::new();
    assert_eq!((fabric.latency(), fabric.jitter()), (MILLISECOND, 0));
    fabric.set_latency(5 * MILLISECOND, 2 * MILLISECOND);
    assert_eq!((fabric.latency(), fabric.jitter()), (5 * MILLISECOND, 2 * MILLISECOND));
}

#[test]
fn datagrams_are_refused_lost_or_delivered() {
    assert_eq!(datagram_fate(true, 10, false), Err(DatagramError::Closed));
    assert_eq!(datagram_fate(false, MAX_DATAGRAM + 1, false), Err(DatagramError::TooLarge));
    assert_eq!(datagram_fate(false, MAX_DATAGRAM, true), Ok(Fate::Lost));
    assert_eq!(datagram_fate(false, MAX_DATAGRAM, false), Ok(Fate::Delivered));
}

#[test]
fn stream_bytes_never_come_out_before_earlier_ones() {
    assert_eq!(release_at(100, 150), 150);
    // A shorter delay this time does not let these bytes overtake.
    assert_eq!(release_at(200, 150), 200);
}
