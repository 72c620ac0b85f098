use friendships::edges::RelKind;
use friendships::graph::Decision;
use friendships::graph::FriendGraph;
use friendships::graph::InitiateOutcome;
use friendships::graph::RespondOutcome;

fn s(text: &str) -> String {
    text.to_string()
}

#[test]
fn initiate_creates_single_pending_edge() {
    let mut g = FriendGraph::new();
    let r = g.initiate(&s("alice"), &s("bob"), 1);
    assert_eq!(r, InitiateOutcome::Created);
    assert!(g.contains_edge(&s("alice"), &s("bob"), RelKind::Pending));
    assert!(!g.contains_edge(&s("bob"), &s("alice"), RelKind::Pending));
    assert_eq!(g.edge_count_between(&s("alice"), &s("bob")), 1);
}

#[test]
fn initiate_to_self_is_rejected_without_edge() {
    let mut g = FriendGraph::new();
    let r = g.initiate(&s("alice"), &s("alice"), 1);
    assert_eq!(r, InitiateOutcome::SelfRequest);
    assert_eq!(g.edge_count_between(&s("alice"), &s("alice")), 0);
    assert!(!g.contains_edge(&s("alice"), &s("alice"), RelKind::Pending));
}

#[test]
fn initiate_with_pending_request_is_rejected_both_ways() {
    let mut g = FriendGraph::new();
    assert_eq!(g.initiate(&s("alice"), &s("bob"), 1), InitiateOutcome::Created);
    assert_eq!(g.initiate(&s("alice"), &s("bob"), 2), InitiateOutcome::PendingSent);
    assert_eq!(g.initiate(&s("bob"), &s("alice"), 3), InitiateOutcome::PendingReceived);
    assert_eq!(g.edge_count_between(&s("alice"), &s("bob")), 1);
}

#[test]
fn initiate_between_friends_is_rejected_both_ways() {
    let mut g = FriendGraph::new();
    assert_eq!(g.initiate(&s("alice"), &s("bob"), 1), InitiateOutcome::Created);
    assert_eq!(
        g.respond(&s("alice"), &s("bob"), Decision::Accepted, 2),
        RespondOutcome::Applied(Decision::Accepted)
    );
    assert_eq!(g.initiate(&s("alice"), &s("bob"), 3), InitiateOutcome::AlreadyFriends);
    assert_eq!(g.initiate(&s("bob"), &s("alice"), 4), InitiateOutcome::AlreadyFriends);
    assert_eq!(g.edge_count_between(&s("alice"), &s("bob")), 1);
}

#[test]
fn initiate_after_blocking_names_the_direction() {
    let mut g = FriendGraph::new();
    assert_eq!(
        g.respond(&s("alice"), &s("bob"), Decision::Blocked, 1),
        RespondOutcome::Applied(Decision::Blocked)
    );
    assert_eq!(g.initiate(&s("alice"), &s("bob"), 2), InitiateOutcome::BlockedRecipient);
    assert_eq!(g.initiate(&s("bob"), &s("alice"), 3), InitiateOutcome::BlockedByRecipient);
    assert_eq!(g.edge_count_between(&s("alice"), &s("bob")), 1);
}

#[test]
fn accepting_replaces_the_pending_edge() {
    let mut g = FriendGraph::new();
    assert_eq!(g.initiate(&s("alice"), &s("bob"), 1), InitiateOutcome::Created);
    let r = g.respond(&s("alice"), &s("bob"), Decision::Accepted, 2);
    assert_eq!(r, RespondOutcome::Applied(Decision::Accepted));
    assert!(g.contains_edge(&s("alice"), &s("bob"), RelKind::Accepted));
    assert!(!g.contains_edge(&s("alice"), &s("bob"), RelKind::Pending));
    assert!(!g.contains_edge(&s("bob"), &s("alice"), RelKind::Pending));
    assert_eq!(g.edge_count_between(&s("alice"), &s("bob")), 1);
}

#[test]
fn declining_keeps_the_declined_edge_and_frees_the_pair() {
    let mut g = FriendGraph::new();
    assert_eq!(g.initiate(&s("alice"), &s("bob"), 1), InitiateOutcome::Created);
    let r = g.respond(&s("alice"), &s("bob"), Decision::Declined, 2);
    assert_eq!(r, RespondOutcome::Applied(Decision::Declined));
    assert!(g.contains_edge(&s("alice"), &s("bob"), RelKind::Declined));
    assert!(!g.contains_edge(&s("alice"), &s("bob"), RelKind::Pending));
    // a declined request does not stand in the way of a new one
    assert_eq!(g.initiate(&s("alice"), &s("bob"), 3), InitiateOutcome::Created);
    assert_eq!(g.edge_count_between(&s("alice"), &s("bob")), 2);
}

#[test]
fn responding_without_pending_request_is_not_found() {
    let mut g = FriendGraph::new();
    assert_eq!(
        g.respond(&s("alice"), &s("bob"), Decision::Accepted, 1),
        RespondOutcome::NotFound
    );
    assert_eq!(g.edge_count_between(&s("alice"), &s("bob")), 0);
    // a pending request in the other direction does not count
    assert_eq!(g.initiate(&s("bob"), &s("alice"), 2), InitiateOutcome::Created);
    assert_eq!(
        g.respond(&s("alice"), &s("bob"), Decision::Declined, 3),
        RespondOutcome::NotFound
    );
    assert!(g.contains_edge(&s("bob"), &s("alice"), RelKind::Pending));
    assert_eq!(g.edge_count_between(&s("alice"), &s("bob")), 1);
}

#[test]
fn blocking_replaces_whatever_stood_before() {
    let mut g = FriendGraph::new();
    assert_eq!(g.initiate(&s("alice"), &s("bob"), 1), InitiateOutcome::Created);
    assert_eq!(
        g.respond(&s("alice"), &s("bob"), Decision::Accepted, 2),
        RespondOutcome::Applied(Decision::Accepted)
    );
    let r = g.respond(&s("bob"), &s("alice"), Decision::Blocked, 3);
    assert_eq!(r, RespondOutcome::Applied(Decision::Blocked));
    assert!(g.contains_edge(&s("bob"), &s("alice"), RelKind::Blocked));
    assert!(!g.contains_edge(&s("alice"), &s("bob"), RelKind::Accepted));
    assert_eq!(g.edge_count_between(&s("alice"), &s("bob")), 1);
}

#[test]
fn blocking_succeeds_with_no_prior_relationship() {
    let mut g = FriendGraph::new();
    let r = g.respond(&s("alice"), &s("bob"), Decision::Blocked, 1);
    assert_eq!(r, RespondOutcome::Applied(Decision::Blocked));
    assert!(g.contains_edge(&s("alice"), &s("bob"), RelKind::Blocked));
    assert_eq!(g.edge_count_between(&s("alice"), &s("bob")), 1);
}

#[test]
fn blocking_oneself_is_rejected() {
    let mut g = FriendGraph::new();
    assert_eq!(
        g.respond(&s("alice"), &s("alice"), Decision::Blocked, 1),
        RespondOutcome::SelfRequest
    );
    assert_eq!(g.edge_count_between(&s("alice"), &s("alice")), 0);
}

#[test]
fn answering_oneself_is_not_found() {
    let mut g = FriendGraph::new();
    g.initiate(&s("alice"), &s("bob"), 1);
    assert_eq!(
        g.respond(&s("alice"), &s("alice"), Decision::Accepted, 2),
        RespondOutcome::NotFound
    );
    assert_eq!(
        g.respond(&s("alice"), &s("alice"), Decision::Declined, 3),
        RespondOutcome::NotFound
    );
    assert!(g.contains_edge(&s("alice"), &s("bob"), RelKind::Pending));
    assert_eq!(g.edges().len(), 1);
}

#[test]
fn friends_lists_accepted_edges_of_both_directions() {
    let mut g = FriendGraph::new();
    g.initiate(&s("alice"), &s("bob"), 1);
    g.respond(&s("alice"), &s("bob"), Decision::Accepted, 2);
    g.initiate(&s("carol"), &s("alice"), 3);
    g.respond(&s("carol"), &s("alice"), Decision::Accepted, 4);
    g.initiate(&s("alice"), &s("dave"), 5);

    let mut friends = g.friends_of(&s("alice"));
    friends.sort();
    assert_eq!(friends, vec![s("bob"), s("carol")]);

    assert_eq!(g.friends_of(&s("bob")), vec![s("alice")]);
    assert!(g.friends_of(&s("dave")).is_empty());
    assert!(g.friends_of(&s("nobody")).is_empty());
}

#[test]
fn friends_never_lists_the_user_itself() {
    let mut g = FriendGraph::new();
    g.initiate(&s("alice"), &s("bob"), 1);
    g.respond(&s("alice"), &s("bob"), Decision::Accepted, 2);
    let friends = g.friends_of(&s("alice"));
    assert!(!friends.contains(&s("alice")));
}

#[test]
fn edges_record_their_creation_timestamps() {
    let mut g = FriendGraph::new();
    g.initiate(&s("alice"), &s("bob"), 41);
    g.respond(&s("alice"), &s("bob"), Decision::Accepted, 42);
    let edges = g.edges();
    assert_eq!(edges.len(), 1);
    assert_eq!(edges[0].from, s("alice"));
    assert_eq!(edges[0].to, s("bob"));
    assert_eq!(edges[0].kind, RelKind::Accepted);
    assert_eq!(edges[0].created_at, 42);
}

#[test]
fn repeated_initiates_leave_one_edge() {
    let mut g = FriendGraph::new();
    let mut created: u32 = 0;
    for round in 0..6u64 {
        let r = if round % 2 == 0 {
            g.initiate(&s("alice"), &s("bob"), round)
        } else {
            g.initiate(&s("bob"), &s("alice"), round)
        };
        if r == InitiateOutcome::Created {
            created += 1;
        }
    }
    assert_eq!(created, 1);
    assert_eq!(g.edge_count_between(&s("alice"), &s("bob")), 1);
}
