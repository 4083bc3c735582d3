//! The decisions of the task that runs the membership protocol: what to do
//! with what the protocol reports, and with goodbyes from other nodes. The
//! task itself waits for the protocol, timers and the network, and carries
//! out the actions decided here.
use crate::member::{ClusterEvent, ClusterEventView, Member, MemberView};
use crate::names::NodeName;
use crate::status::NodeStatus;
use crate::view::{event_views, failure_outcome, left_outcome, replay, ClusterState, Membership};
use vstd::prelude::*;

verus! {

/// What the membership protocol reports.
#[derive(Debug)]
pub enum Notification {
    /// A node is up: it joined, or was rediscovered.
    MemberUp(Member),
    /// A node was declared down.
    MemberDown(Member),
    /// A node restarted: the first incarnation was replaced by the second.
    Rename(Member, Member),
    /// This node was declared down and rejoined as the incarnation given.
    Rejoin(Member),
    /// This node joined the cluster.
    Active,
    /// No other active nodes in the cluster.
    Idle,
    /// This node was declared down and can't rejoin.
    Defunct,
}

/// Something the task running the protocol is to do.
#[derive(Debug)]
pub enum Action {
    /// Tell subscribers about a change.
    Publish(ClusterEvent),
    /// Close the connection to the node if it belongs to this generation or
    /// an older one, and stop sending to it.
    Forget(NodeName, u64),
    /// Report the member as failed once the departure grace has passed,
    /// unless it turns out to have said goodbye; replaces what was pending for
    /// its node.
    PendDown(Member),
    /// Forget what was pending for the node.
    CancelPending(NodeName),
    /// Change this node's status.
    SetStatus(NodeStatus),
}

/// An action, as a value.
pub enum ActionView {
    Publish(ClusterEventView),
    Forget(Seq<char>, u64),
    PendDown(MemberView),
    CancelPending(Seq<char>),
    SetStatus(NodeStatus),
}

impl View for Action {
    type V = ActionView;

    open spec fn view(&self) -> ActionView {
        match self {
            Action::Publish(e) => ActionView::Publish(e@),
            Action::Forget(n, g) => ActionView::Forget(n@, *g),
            Action::PendDown(m) => ActionView::PendDown(m@),
            Action::CancelPending(n) => ActionView::CancelPending(n@),
            Action::SetStatus(s) => ActionView::SetStatus(*s),
        }
    }
}

/// The views of a list of actions.
pub open spec fn action_views(actions: Seq<Action>) -> Seq<ActionView> {
    actions.map_values(|a: Action| a@)
}

/// The actions that publish `events`, in order.
pub open spec fn publishing(events: Seq<ClusterEventView>) -> Seq<ActionView> {
    events.map_values(|e: ClusterEventView| ActionView::Publish(e))
}

/// The events that `actions` publish, in order.
pub open spec fn published(actions: Seq<ActionView>) -> Seq<ClusterEventView>
    decreases actions.len(),
{
    if actions.len() == 0 {
        Seq::empty()
    } else {
        let earlier = published(actions.drop_last());
        match actions.last() {
            ActionView::Publish(e) => earlier.push(e),
            _ => earlier,
        }
    }
}

proof fn lemma_published_append(a: Seq<ActionView>, b: Seq<ActionView>)
    ensures
        published(a + b) == published(a) + published(b),
    decreases b.len(),
{
    if b.len() == 0 {
        assert(a + b =~= a);
        assert(published(a) + published(b) =~= published(a));
    } else {
        assert((a + b).drop_last() =~= a + b.drop_last());
        assert((a + b).last() == b.last());
        lemma_published_append(a, b.drop_last());
        match b.last() {
            ActionView::Publish(e) => {
                assert(published(a) + published(b.drop_last()).push(e) =~= (published(a) + published(
                    b.drop_last(),
                )).push(e));
            },
            _ => {},
        }
    }
}

proof fn lemma_published_publishing(events: Seq<ClusterEventView>)
    ensures
        published(publishing(events)) == events,
    decreases events.len(),
{
    if events.len() > 0 {
        assert(publishing(events).drop_last() =~= publishing(events.drop_last()));
        lemma_published_publishing(events.drop_last());
        assert(events.drop_last().push(events.last()) =~= events);
    } else {
        assert(publishing(events) =~= Seq::<ActionView>::empty());
        assert(events =~= Seq::<ClusterEventView>::empty());
    }
}

/// Actions that publish nothing.
proof fn lemma_published_quiet(a: ActionView, b: ActionView)
    requires
        !(a is Publish),
        !(b is Publish),
    ensures
        published(seq![a]) == Seq::<ClusterEventView>::empty(),
        published(seq![a, b]) == Seq::<ClusterEventView>::empty(),
{
    reveal_with_fuel(published, 3);
    assert(seq![a].drop_last() =~= Seq::<ActionView>::empty());
    assert(seq![a].last() == a);
    assert(seq![a, b].drop_last() =~= seq![a]);
    assert(seq![a, b].last() == b);
}

/// What the membership protocol declaring `m` down calls for, given what is
/// known, `before`: its connections are forgotten, and, if it is up in that
/// very incarnation, it is to be reported as failed once the departure grace
/// has passed, since it may yet turn out to have said goodbye.
pub open spec fn down_actions(before: Membership, m: MemberView) -> Seq<ActionView> {
    if before.members.contains_key(m.name) && before.members[m.name] == m {
        seq![ActionView::Forget(m.name, m.generation), ActionView::PendDown(m)]
    } else {
        seq![ActionView::Forget(m.name, m.generation)]
    }
}

/// What a goodbye from `from` in its incarnation `generation` calls for,
/// given what is known, `before`: if it was known in that generation, it is
/// published as having left, and its pending failure report is forgotten.
pub open spec fn departure_actions(before: Membership, from: Seq<char>, generation: u64) -> Seq<ActionView> {
    if before.members.contains_key(from) && before.members[from].generation == generation {
        seq![ActionView::Publish(ClusterEventView::Left(before.members[from])), ActionView::CancelPending(from)]
    } else {
        Seq::empty()
    }
}

/// Appends an action that publishes each of `events`.
fn publish_all(actions: &mut Vec<Action>, events: Vec<ClusterEvent>)
    ensures
        action_views(final(actions)@) == action_views(old(actions)@) + publishing(event_views(events@)),
{
    let ghost start = action_views(actions@);
    let ghost all = event_views(events@);
    let mut i: usize = 0;
    while i < events.len()
        invariant
            i <= events@.len(),
            all == event_views(events@),
            action_views(actions@) == start + publishing(all.take(i as int)),
        decreases events@.len() - i,
    {
        let e = events[i].clone();
        assert(e@ == all[i as int]);
        let ghost prior = actions@;
        actions.push(Action::Publish(e));
        assert(actions@ =~= prior.push(Action::Publish(e)));
        assert(action_views(actions@) =~= action_views(prior).push(ActionView::Publish(all[i as int])));
        assert(all.take(i + 1) =~= all.take(i as int).push(all[i as int]));
        assert(publishing(all.take(i + 1)) =~= publishing(all.take(i as int)).push(ActionView::Publish(all[i as int])));
        assert(action_views(actions@) =~= start + publishing(all.take(i + 1)));
        i = i + 1;
    }
    assert(all.take(i as int) =~= all);
}

/// Carries out what the membership protocol reports, on `cluster`, and says
/// what else is to be done. `leaving` tells whether this node has announced
/// its own departure, after which being declared down is expected.
pub fn on_notification(cluster: &mut ClusterState, leaving: bool, notification: Notification) -> (actions: Vec<Action>)
    requires
        old(cluster).wf(),
    ensures
        final(cluster).wf(),
        ({
            let before = old(cluster).membership();
            let after = final(cluster).membership();
            match notification {
                Notification::MemberUp(m) => {
                    let known = before.members.contains_key(m.name@) && before.members[m.name@] == m@;
                    &&& after.members == before.members.insert(m.name@, m@)
                    &&& final(cluster).local_view() == old(cluster).local_view()
                    &&& known ==> after == before && action_views(actions@) == seq![
                        ActionView::CancelPending(m.name@),
                    ]
                    &&& !known ==> after.unreachable == before.unreachable.remove(m.name@)
                        && action_views(actions@) == seq![
                        ActionView::CancelPending(m.name@),
                        ActionView::Publish(ClusterEventView::Up(m@)),
                    ]
                },
                Notification::MemberDown(m) => {
                    &&& after == before
                    &&& final(cluster).local_view() == old(cluster).local_view()
                    &&& action_views(actions@) == down_actions(before, m@)
                },
                Notification::Rename(b, a) => {
                    let known = before.members.contains_key(b.name@) && before.members[b.name@] == b@;
                    let prefix = seq![ActionView::CancelPending(b.name@), ActionView::Forget(b.name@, b.generation)];
                    &&& final(cluster).local_view() == old(cluster).local_view()
                    &&& known ==> after.members == before.members.insert(a.name@, a@)
                        && after.unreachable == before.unreachable.remove(a.name@)
                        && action_views(actions@) == prefix + seq![
                        ActionView::Publish(ClusterEventView::Failed(b@)),
                        ActionView::Publish(ClusterEventView::Up(a@)),
                    ]
                    &&& !known ==> after == before && action_views(actions@) == prefix
                },
                Notification::Rejoin(m) => {
                    &&& after == before
                    &&& final(cluster).local_view() == m@
                    &&& actions@.len() == 0
                },
                Notification::Defunct => {
                    &&& after == before
                    &&& final(cluster).local_view() == old(cluster).local_view()
                    &&& leaving ==> actions@.len() == 0
                    &&& !leaving ==> action_views(actions@) == seq![ActionView::SetStatus(NodeStatus::Defunct)]
                },
                _ => {
                    &&& after == before
                    &&& final(cluster).local_view() == old(cluster).local_view()
                    &&& actions@.len() == 0
                },
            }
        }),
        (notification matches Notification::Rename(b, a) ==> b.name@ == a.name@) ==> replay(
            old(cluster).membership(),
            published(action_views(actions@)),
        ) == final(cluster).membership(),
{
    let ghost before = cluster.membership();
    let mut actions: Vec<Action> = Vec::new();
    match notification {
        Notification::MemberUp(member) => {
            actions.push(Action::CancelPending(member.name.clone()));
            let ghost prefix = action_views(actions@);
            let events = cluster.member_up(member);
            let ghost evs = event_views(events@);
            publish_all(&mut actions, events);
            proof {
                lemma_published_append(prefix, publishing(evs));
                lemma_published_publishing(evs);
                assert(prefix =~= seq![prefix[0]]);
                lemma_published_quiet(prefix[0], prefix[0]);
                assert(Seq::<ClusterEventView>::empty() + evs =~= evs);
            }
        },
        Notification::MemberDown(member) => {
            actions.push(Action::Forget(member.name.clone(), member.generation));
            if cluster.contains(&member) {
                actions.push(Action::PendDown(member));
            }
            proof {
                let v = action_views(actions@);
                if v.len() == 1 {
                    assert(v =~= seq![v[0]]);
                    lemma_published_quiet(v[0], v[0]);
                } else {
                    assert(v =~= seq![v[0], v[1]]);
                    lemma_published_quiet(v[0], v[1]);
                }
                assert(replay(before, Seq::<ClusterEventView>::empty()) == before) by {
                    crate::view::lemma_replay_short(before, ClusterEventView::Left(member@), ClusterEventView::Left(member@));
                }
            }
        },
        Notification::Rename(before_id, after_id) => {
            actions.push(Action::CancelPending(before_id.name.clone()));
            actions.push(Action::Forget(before_id.name.clone(), before_id.generation));
            let ghost prefix = action_views(actions@);
            let events = cluster.member_renamed(&before_id, after_id);
            let ghost evs = event_views(events@);
            publish_all(&mut actions, events);
            proof {
                lemma_published_append(prefix, publishing(evs));
                lemma_published_publishing(evs);
                assert(prefix =~= seq![prefix[0], prefix[1]]);
                lemma_published_quiet(prefix[0], prefix[1]);
                assert(Seq::<ClusterEventView>::empty() + evs =~= evs);
            }
        },
        Notification::Rejoin(identity) => {
            cluster.set_local(identity);
        },
        Notification::Active => {},
        Notification::Idle => {},
        Notification::Defunct => {
            if !leaving {
                actions.push(Action::SetStatus(NodeStatus::Defunct));
            }
        },
    }
    proof {
        assert(action_views(actions@).len() == actions@.len());
        let v = action_views(actions@);
        if v.len() == 0 {
            assert(published(v) == Seq::<ClusterEventView>::empty());
        } else if v.len() == 1 && !(v[0] is Publish) {
            assert(v =~= seq![v[0]]);
            lemma_published_quiet(v[0], v[0]);
        }
        assert(replay(before, Seq::<ClusterEventView>::empty()) == before);
    }
    actions
}

/// The node `from` said goodbye in its incarnation `generation`: it leaves,
/// if it was known in that generation, and its pending failure report is
/// forgotten.
pub fn on_departure(cluster: &mut ClusterState, from: &NodeName, generation: u64) -> (actions: Vec<Action>)
    requires
        old(cluster).wf(),
    ensures
        final(cluster).wf(),
        final(cluster).local_view() == old(cluster).local_view(),
        final(cluster).membership() == left_outcome(old(cluster).membership(), from@, generation).0,
        action_views(actions@) == departure_actions(old(cluster).membership(), from@, generation),
        !(old(cluster).membership().members.contains_key(from@)
            && old(cluster).membership().members[from@].generation == generation) ==> actions@.len() == 0
            && final(cluster).membership() == old(cluster).membership(),
        replay(old(cluster).membership(), published(action_views(actions@))) == final(cluster).membership(),
{
    let ghost before = cluster.membership();
    let mut actions: Vec<Action> = Vec::new();
    let events = cluster.member_left(from, generation);
    let ghost evs = event_views(events@);
    let left = events.len() > 0;
    publish_all(&mut actions, events);
    assert(action_views(actions@) =~= publishing(evs));
    proof {
        lemma_published_publishing(evs);
    }
    if left {
        let ghost prior = actions@;
        actions.push(Action::CancelPending(from.clone()));
        assert(action_views(actions@) =~= action_views(prior).push(ActionView::CancelPending(from@)));
        assert(publishing(evs) =~= seq![ActionView::Publish(ClusterEventView::Left(before.members[from@]))]);
        assert(action_views(actions@) =~= seq![
            ActionView::Publish(ClusterEventView::Left(before.members[from@])),
            ActionView::CancelPending(from@),
        ]);
        proof {
            lemma_published_append(action_views(prior), seq![ActionView::CancelPending(from@)]);
            lemma_published_quiet(ActionView::CancelPending(from@), ActionView::CancelPending(from@));
            assert(action_views(prior) + seq![ActionView::CancelPending(from@)] =~= action_views(actions@));
            assert(published(action_views(prior)) + Seq::<ClusterEventView>::empty() =~= published(action_views(prior)));
        }
    }
    proof {
        assert(action_views(actions@).len() == actions@.len());
    }
    actions
}

/// Whether to ask `seed` to let this node, `local`, join: not if it is this
/// node itself.
pub fn announces_to(seed: &Member, local: &Member) -> (r: bool)
    ensures
        r == (seed.name@ != local.name@),
{
    !seed.name.same(&local.name)
}

/// A member declared down that says goodbye before the departure grace has
/// passed is published as having left, and its pending failure report is
/// forgotten; a failure report for it that came due anyway would publish
/// nothing, so it is never reported both ways. Without a goodbye, the report
/// that comes due publishes it as failed.
pub proof fn lemma_goodbye_within_grace_is_a_departure(before: Membership, m: MemberView)
    requires
        before.members.contains_key(m.name),
        before.members[m.name] == m,
    ensures
        down_actions(before, m) == seq![ActionView::Forget(m.name, m.generation), ActionView::PendDown(m)],
        departure_actions(before, m.name, m.generation) == seq![
            ActionView::Publish(ClusterEventView::Left(m)),
            ActionView::CancelPending(m.name),
        ],
        failure_outcome(left_outcome(before, m.name, m.generation).0, m).1 == Seq::<ClusterEventView>::empty(),
        failure_outcome(before, m).1 == seq![ClusterEventView::Failed(m)],
{
}

} // verus!
