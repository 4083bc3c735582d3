use zestors::member::{ClusterEvent, Member, Seed};
use zestors::names::{NodeAddr, NodeName};
use zestors::view::ClusterState;

fn member(name: &str, generation: u64) -> Member {
    Member::new(
        NodeName::new(name),
        NodeAddr::new(&format!("{name}:7000")),
        generation,
    )
}

fn state() -> ClusterState {
    ClusterState::new(member("node-a", 1))
}

#[test]
fn a_new_node_knows_only_itself() {
    let cluster = state();
    assert_eq!(cluster.local(), member("node-a", 1));
    assert!(cluster.members().is_empty());
    assert!(!cluster.is_reachable(&NodeName::new("node-b")));
}

#[test]
fn a_node_coming_up_is_published_once() {
    let mut cluster = state();
    assert_eq!(
        cluster.member_up(member("node-b", 1)),
        vec![ClusterEvent::Up(member("node-b", 1))]
    );
    assert_eq!(cluster.member_up(member("node-b", 1)), vec![]);
    assert_eq!(cluster.members(), vec![member("node-b", 1)]);
    assert_eq!(
        cluster.member(&NodeName::new("node-b")),
        Some(member("node-b", 1))
    );
    assert!(cluster.is_reachable(&NodeName::new("node-b")));
    assert!(cluster.contains(&member("node-b", 1)));
    assert!(!cluster.contains(&member("node-b", 2)));
}

#[test]
fn unreachable_is_reported_once_and_followed_by_reachable() {
    let mut cluster = state();
    let b = NodeName::new("node-b");
    assert_eq!(cluster.member_unreachable(&b), vec![]);
    cluster.member_up(member("node-b", 1));
    assert_eq!(
        cluster.member_unreachable(&b),
        vec![ClusterEvent::Unreachable(member("node-b", 1))]
    );
    assert_eq!(cluster.member_unreachable(&b), vec![]);
    assert!(!cluster.is_reachable(&b));
    assert_eq!(
        cluster.member_reachable(&b),
        vec![ClusterEvent::Reachable(member("node-b", 1))]
    );
    assert_eq!(cluster.member_reachable(&b), vec![]);
    assert!(cluster.is_reachable(&b));
}

#[test]
fn a_node_that_comes_back_up_is_reachable_again() {
    let mut cluster = state();
    let b = NodeName::new("node-b");
    cluster.member_up(member("node-b", 1));
    cluster.member_unreachable(&b);
    assert_eq!(
        cluster.member_up(member("node-b", 2)),
        vec![ClusterEvent::Up(member("node-b", 2))]
    );
    assert!(cluster.is_reachable(&b));
}

#[test]
fn a_departure_counts_only_for_the_generation_that_left() {
    let mut cluster = state();
    let b = NodeName::new("node-b");
    cluster.member_up(member("node-b", 2));
    assert_eq!(cluster.member_left(&b, 1), vec![]);
    assert_eq!(
        cluster.member_left(&b, 2),
        vec![ClusterEvent::Left(member("node-b", 2))]
    );
    assert!(cluster.members().is_empty());
    assert_eq!(cluster.member_left(&b, 2), vec![]);
}

#[test]
fn a_failure_counts_only_for_the_incarnation_that_failed() {
    let mut cluster = state();
    cluster.member_up(member("node-b", 2));
    cluster.member_unreachable(&NodeName::new("node-b"));
    assert_eq!(cluster.member_failed(&member("node-b", 1)), vec![]);
    assert_eq!(
        cluster.member_failed(&member("node-b", 2)),
        vec![ClusterEvent::Failed(member("node-b", 2))]
    );
    assert!(cluster.members().is_empty());
    let snapshot = cluster.snapshot();
    assert!(!snapshot.is_reachable(&NodeName::new("node-b")));
}

#[test]
fn a_restart_is_a_failure_then_an_up() {
    let mut cluster = state();
    cluster.member_up(member("node-b", 1));
    assert_eq!(
        cluster.member_renamed(&member("node-b", 1), member("node-b", 2)),
        vec![
            ClusterEvent::Failed(member("node-b", 1)),
            ClusterEvent::Up(member("node-b", 2)),
        ]
    );
    assert_eq!(cluster.members(), vec![member("node-b", 2)]);
    assert_eq!(
        cluster.member_renamed(&member("node-b", 1), member("node-b", 3)),
        vec![]
    );
}

#[test]
fn a_snapshot_and_the_events_after_it_give_the_current_members() {
    let mut cluster = state();
    cluster.member_up(member("node-b", 1));
    cluster.member_up(member("node-c", 1));
    let snapshot = cluster.snapshot();
    let mut members: Vec<Member> = snapshot.members().clone();
    let mut events = Vec::new();
    events.extend(cluster.member_left(&NodeName::new("node-b"), 1));
    events.extend(cluster.member_up(member("node-d", 4)));
    for event in events {
        match event {
            ClusterEvent::Up(m) => members.push(m),
            ClusterEvent::Left(m) | ClusterEvent::Failed(m) => members.retain(|x| *x != m),
            ClusterEvent::Unreachable(_) | ClusterEvent::Reachable(_) => {}
        }
    }
    let mut now = cluster.members();
    members.sort_by(|x, y| x.name.cmp(&y.name));
    now.sort_by(|x, y| x.name.cmp(&y.name));
    assert_eq!(members, now);
    assert!(snapshot.is_reachable(&NodeName::new("node-b")));
}

#[test]
fn events_name_their_member() {
    let m = member("node-b", 1);
    for event in [
        ClusterEvent::Up(m.clone()),
        ClusterEvent::Left(m.clone()),
        ClusterEvent::Failed(m.clone()),
        ClusterEvent::Unreachable(m.clone()),
        ClusterEvent::Reachable(m.clone()),
    ] {
        assert_eq!(event.member(), &m);
    }
}

#[test]
fn members_renew_into_the_next_generation_and_later_ones_win() {
    let m = member("node-b", 1);
    assert_eq!(m.renew(), Some(member("node-b", 2)));
    assert_eq!(member("node-b", u64::MAX).renew(), None);
    assert!(member("node-b", 2).win_addr_conflict(&m));
    assert!(!m.win_addr_conflict(&member("node-b", 2)));
    assert!(!m.win_addr_conflict(&m));
}

#[test]
fn seeds_start_out_in_generation_zero() {
    let seed = Seed::new(NodeName::new("node-b"), NodeAddr::new("10.0.0.2:7000"));
    assert_eq!(seed.as_member(), member_at("node-b", "10.0.0.2:7000", 0));
}

fn member_at(name: &str, addr: &str, generation: u64) -> Member {
    Member::new(NodeName::new(name), NodeAddr::new(addr), generation)
}

#[test]
fn a_member_stays_unreachable_until_reported_reachable_or_up() {
    let mut cluster = state();
    let b = NodeName::new("node-b");
    assert!(!cluster.is_reachable(&b));
    cluster.member_up(member("node-b", 1));
    assert!(cluster.is_reachable(&b));
    cluster.member_unreachable(&b);
    assert!(!cluster.is_reachable(&b));
    // An event about another node changes nothing for this one.
    cluster.member_up(member("node-c", 1));
    assert!(!cluster.is_reachable(&b));
    cluster.member_reachable(&b);
    assert!(cluster.is_reachable(&b));
    cluster.member_unreachable(&b);
    cluster.member_up(member("node-b", 2));
    assert!(cluster.is_reachable(&b));
}
