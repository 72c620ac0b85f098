use friendships::edges::RelKind;
use friendships::graph::Decision;
use friendships::graph::FriendGraph;
use friendships::graph::InitiateOutcome;
use friendships::graph::RespondOutcome;
use friendships::service::Friendship;
use friendships::service::friends_http_status;
use friendships::service::friends_not_found_message;
use friendships::service::initiate_http_status;
use friendships::service::initiate_message;
use friendships::service::initiate_request;
use friendships::service::parse_decision;
use friendships::service::respond_http_status;
use friendships::service::respond_message;
use friendships::service::respond_request;

fn s(text: &str) -> String {
    text.to_string()
}

fn req(initiator: &str, recipient: &str, status: &str) -> Friendship {
    Friendship { initiator_id: s(initiator), recipient_id: s(recipient), status: s(status) }
}

#[test]
fn decision_strings_parse_case_insensitively() {
    assert_eq!(parse_decision(&s("accepted")), Some(Decision::Accepted));
    assert_eq!(parse_decision(&s("ACCEPTED")), Some(Decision::Accepted));
    assert_eq!(parse_decision(&s("Declined")), Some(Decision::Declined));
    assert_eq!(parse_decision(&s("bLoCkEd")), Some(Decision::Blocked));
    assert_eq!(parse_decision(&s("friend")), None);
    assert_eq!(parse_decision(&s("accepted ")), None);
    assert_eq!(parse_decision(&s("")), None);
}

#[test]
fn initiate_request_applies_to_the_graph() {
    let mut g = FriendGraph::new();
    let r = initiate_request(&mut g, &req("alice", "bob", ""), 1);
    assert_eq!(r, InitiateOutcome::Created);
    assert!(g.contains_edge(&s("alice"), &s("bob"), RelKind::Pending));
}

#[test]
fn respond_request_validates_before_touching_the_graph() {
    let mut g = FriendGraph::new();
    initiate_request(&mut g, &req("alice", "bob", ""), 1);
    let r = respond_request(&mut g, &req("alice", "bob", "maybe"), 2);
    assert_eq!(r, RespondOutcome::InvalidStatus);
    assert!(g.contains_edge(&s("alice"), &s("bob"), RelKind::Pending));
    assert_eq!(g.edge_count_between(&s("alice"), &s("bob")), 1);
}

#[test]
fn respond_request_applies_a_valid_decision() {
    let mut g = FriendGraph::new();
    initiate_request(&mut g, &req("alice", "bob", ""), 1);
    let r = respond_request(&mut g, &req("alice", "bob", "Accepted"), 2);
    assert_eq!(r, RespondOutcome::Applied(Decision::Accepted));
    assert!(g.contains_edge(&s("alice"), &s("bob"), RelKind::Accepted));
}

#[test]
fn initiate_messages_match_each_outcome() {
    assert_eq!(initiate_message(InitiateOutcome::Created), s("Follow request sent"));
    assert_eq!(
        initiate_message(InitiateOutcome::SelfRequest),
        s("You cannot send a follow request to yourself")
    );
    assert_eq!(
        initiate_message(InitiateOutcome::BlockedRecipient),
        s("You have blocked this user")
    );
    assert_eq!(
        initiate_message(InitiateOutcome::BlockedByRecipient),
        s("This user has blocked you")
    );
    assert_eq!(
        initiate_message(InitiateOutcome::PendingSent),
        s("You have already sent a follow request to this user")
    );
    assert_eq!(
        initiate_message(InitiateOutcome::PendingReceived),
        s("This user has already sent you a follow request")
    );
    assert_eq!(
        initiate_message(InitiateOutcome::AlreadyFriends),
        s("You are already friends with this user")
    );
}

#[test]
fn respond_messages_match_each_outcome() {
    assert_eq!(
        respond_message(RespondOutcome::Applied(Decision::Accepted)),
        s("Friendship accepted")
    );
    assert_eq!(
        respond_message(RespondOutcome::Applied(Decision::Declined)),
        s("Friendship declined")
    );
    assert_eq!(
        respond_message(RespondOutcome::Applied(Decision::Blocked)),
        s("Friendship blocked")
    );
    assert_eq!(respond_message(RespondOutcome::NotFound), s("Friendship request not found"));
    assert_eq!(respond_message(RespondOutcome::InvalidStatus), s("Invalid friendship status"));
    assert_eq!(
        respond_message(RespondOutcome::SelfRequest),
        s("You cannot respond to a friendship with yourself")
    );
    assert_eq!(friends_not_found_message(), s("No friendships found"));
}

#[test]
fn http_statuses_match_each_outcome() {
    assert_eq!(initiate_http_status(InitiateOutcome::Created), 200);
    assert_eq!(initiate_http_status(InitiateOutcome::SelfRequest), 400);
    assert_eq!(initiate_http_status(InitiateOutcome::AlreadyFriends), 400);
    assert_eq!(respond_http_status(RespondOutcome::Applied(Decision::Blocked)), 200);
    assert_eq!(respond_http_status(RespondOutcome::NotFound), 404);
    assert_eq!(respond_http_status(RespondOutcome::InvalidStatus), 400);
    assert_eq!(respond_http_status(RespondOutcome::SelfRequest), 400);
    assert_eq!(friends_http_status(&Vec::new()), 404);
    assert_eq!(friends_http_status(&vec![s("bob")]), 200);
}
