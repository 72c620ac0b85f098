//! The request-level service: decision-string validation, the entry points
//! that apply a request to the graph, and the texts and status codes a
//! handler answers with.

use vstd::prelude::*;

use crate::edges::EdgeModel;
use crate::edges::wf;
use crate::graph::Decision;
use crate::graph::FriendGraph;
use crate::graph::InitiateOutcome;
use crate::graph::RespondOutcome;
use crate::graph::initiate_outcome;
use crate::graph::initiate_post;
use crate::graph::respond_outcome;
use crate::graph::respond_post;

verus! {

/// A friendship request as a handler receives it: who initiates, who
/// receives, and (for a response) the decision string.
#[derive(Debug)]
pub struct Friendship {
    pub initiator_id: String,
    pub recipient_id: String,
    pub status: String,
}

/// The ASCII-lowercase code of a character: upper-case letters fold onto
/// their lower-case codes, everything else keeps its own.
pub open spec fn lower_code(c: char) -> u32 {
    if 65 <= c as u32 && c as u32 <= 90 {
        (c as u32 + 32) as u32
    } else {
        c as u32
    }
}

/// Are two characters equal up to ASCII case?
pub open spec fn char_eq_ci(x: char, y: char) -> bool {
    lower_code(x) == lower_code(y)
}

/// Are two strings equal up to ASCII case?
pub open spec fn str_eq_ci(a: Seq<char>, b: Seq<char>) -> bool {
    a.len() == b.len() && forall|i: int| 0 <= i < a.len() ==> char_eq_ci(#[trigger] a[i], b[i])
}

/// The decision a status string names, matched case-insensitively against
/// the fixed enumeration; anything else names none.
pub open spec fn decision_of(s: Seq<char>) -> Option<Decision> {
    if str_eq_ci(s, "accepted"@) {
        Some(Decision::Accepted)
    } else if str_eq_ci(s, "declined"@) {
        Some(Decision::Declined)
    } else if str_eq_ci(s, "blocked"@) {
        Some(Decision::Blocked)
    } else {
        None
    }
}

fn lower_code_exec(c: char) -> (u: u32)
    ensures
        u == lower_code(c),
{
    let v = c as u32;
    if 65 <= v && v <= 90 {
        v + 32
    } else {
        v
    }
}

/// Are `a` and `b` the same string up to ASCII case?
fn eq_ignore_ascii_case(a: &str, b: &str) -> (r: bool)
    ensures
        r == str_eq_ci(a@, b@),
{
    let la = a.unicode_len();
    let lb = b.unicode_len();
    if la != lb {
        return false;
    }
    let mut i: usize = 0;
    while i < la
        invariant
            la == a@.len(),
            lb == b@.len(),
            la == lb,
            i <= la,
            forall|j: int| 0 <= j < i ==> char_eq_ci(#[trigger] a@[j], b@[j]),
        decreases la - i,
    {
        let ca = a.get_char(i);
        let cb = b.get_char(i);
        if lower_code_exec(ca) != lower_code_exec(cb) {
            assert(!char_eq_ci(a@[i as int], b@[i as int]));
            return false;
        }
        i += 1;
    }
    true
}

/// Parse a decision string: `accepted`, `declined` or `blocked` in any
/// ASCII case; any other value is a validation failure.
pub fn parse_decision(status: &String) -> (r: Option<Decision>)
    ensures
        r == decision_of(status@),
{
    if eq_ignore_ascii_case(status.as_str(), "accepted") {
        Some(Decision::Accepted)
    } else if eq_ignore_ascii_case(status.as_str(), "declined") {
        Some(Decision::Declined)
    } else if eq_ignore_ascii_case(status.as_str(), "blocked") {
        Some(Decision::Blocked)
    } else {
        None
    }
}

/// Handle an initiate request against the graph.
pub fn initiate_request(g: &mut FriendGraph, req: &Friendship, created_at: u64) -> (r: InitiateOutcome)
    requires
        wf(old(g)@),
    ensures
        r == initiate_outcome(old(g)@, req.initiator_id@, req.recipient_id@),
        final(g)@ == initiate_post(old(g)@, req.initiator_id@, req.recipient_id@, created_at),
        wf(final(g)@),
{
    g.initiate(&req.initiator_id, &req.recipient_id, created_at)
}

/// The outcome of a respond request: an unparsable status is rejected
/// before the graph is touched.
pub open spec fn respond_request_outcome(
    s: Seq<EdgeModel>,
    a: Seq<char>,
    b: Seq<char>,
    status: Seq<char>,
) -> RespondOutcome {
    match decision_of(status) {
        None => RespondOutcome::InvalidStatus,
        Some(d) => respond_outcome(s, a, b, d),
    }
}

/// The edge set after a respond request: unchanged when the status string
/// is invalid.
pub open spec fn respond_request_post(
    s: Seq<EdgeModel>,
    a: Seq<char>,
    b: Seq<char>,
    status: Seq<char>,
    t: u64,
) -> Seq<EdgeModel> {
    match decision_of(status) {
        None => s,
        Some(d) => respond_post(s, a, b, d, t),
    }
}

/// Handle a respond request against the graph: validate the status string,
/// then apply the decision.
pub fn respond_request(g: &mut FriendGraph, req: &Friendship, created_at: u64) -> (r: RespondOutcome)
    requires
        wf(old(g)@),
    ensures
        r == respond_request_outcome(old(g)@, req.initiator_id@, req.recipient_id@, req.status@),
        final(g)@ == respond_request_post(
            old(g)@,
            req.initiator_id@,
            req.recipient_id@,
            req.status@,
            created_at,
        ),
        wf(final(g)@),
{
    match parse_decision(&req.status) {
        None => RespondOutcome::InvalidStatus,
        Some(d) => g.respond(&req.initiator_id, &req.recipient_id, d, created_at),
    }
}

/// The text answered for each initiate outcome.
pub open spec fn initiate_message_spec(o: InitiateOutcome) -> Seq<char> {
    match o {
        InitiateOutcome::Created => "Follow request sent"@,
        InitiateOutcome::SelfRequest => "You cannot send a follow request to yourself"@,
        InitiateOutcome::BlockedRecipient => "You have blocked this user"@,
        InitiateOutcome::BlockedByRecipient => "This user has blocked you"@,
        InitiateOutcome::PendingSent => "You have already sent a follow request to this user"@,
        InitiateOutcome::PendingReceived => "This user has already sent you a follow request"@,
        InitiateOutcome::AlreadyFriends => "You are already friends with this user"@,
    }
}

/// The text answered for each initiate outcome.
pub fn initiate_message(o: InitiateOutcome) -> (m: String)
    ensures
        m@ == initiate_message_spec(o),
{
    match o {
        InitiateOutcome::Created => String::from_str("Follow request sent"),
        InitiateOutcome::SelfRequest => String::from_str(
            "You cannot send a follow request to yourself",
        ),
        InitiateOutcome::BlockedRecipient => String::from_str("You have blocked this user"),
        InitiateOutcome::BlockedByRecipient => String::from_str("This user has blocked you"),
        InitiateOutcome::PendingSent => String::from_str(
            "You have already sent a follow request to this user",
        ),
        InitiateOutcome::PendingReceived => String::from_str(
            "This user has already sent you a follow request",
        ),
        InitiateOutcome::AlreadyFriends => String::from_str(
            "You are already friends with this user",
        ),
    }
}

/// The HTTP status answered for each initiate outcome.
pub open spec fn initiate_status_spec(o: InitiateOutcome) -> u16 {
    if o is Created {
        200
    } else {
        400
    }
}

/// The HTTP status answered for each initiate outcome.
pub fn initiate_http_status(o: InitiateOutcome) -> (c: u16)
    ensures
        c == initiate_status_spec(o),
{
    match o {
        InitiateOutcome::Created => 200,
        _ => 400,
    }
}

/// The text answered for each respond outcome.
pub open spec fn respond_message_spec(o: RespondOutcome) -> Seq<char> {
    match o {
        RespondOutcome::Applied(Decision::Accepted) => "Friendship accepted"@,
        RespondOutcome::Applied(Decision::Declined) => "Friendship declined"@,
        RespondOutcome::Applied(Decision::Blocked) => "Friendship blocked"@,
        RespondOutcome::NotFound => "Friendship request not found"@,
        RespondOutcome::SelfRequest => "You cannot respond to a friendship with yourself"@,
        RespondOutcome::InvalidStatus => "Invalid friendship status"@,
    }
}

/// The text answered for each respond outcome.
pub fn respond_message(o: RespondOutcome) -> (m: String)
    ensures
        m@ == respond_message_spec(o),
{
    match o {
        RespondOutcome::Applied(Decision::Accepted) => String::from_str("Friendship accepted"),
        RespondOutcome::Applied(Decision::Declined) => String::from_str("Friendship declined"),
        RespondOutcome::Applied(Decision::Blocked) => String::from_str("Friendship blocked"),
        RespondOutcome::NotFound => String::from_str("Friendship request not found"),
        RespondOutcome::SelfRequest => String::from_str(
            "You cannot respond to a friendship with yourself",
        ),
        RespondOutcome::InvalidStatus => String::from_str("Invalid friendship status"),
    }
}

/// The HTTP status answered for each respond outcome.
pub open spec fn respond_status_spec(o: RespondOutcome) -> u16 {
    match o {
        RespondOutcome::Applied(_) => 200,
        RespondOutcome::NotFound => 404,
        RespondOutcome::SelfRequest => 400,
        RespondOutcome::InvalidStatus => 400,
    }
}

/// The HTTP status answered for each respond outcome.
pub fn respond_http_status(o: RespondOutcome) -> (c: u16)
    ensures
        c == respond_status_spec(o),
{
    match o {
        RespondOutcome::Applied(_) => 200,
        RespondOutcome::NotFound => 404,
        RespondOutcome::SelfRequest => 400,
        RespondOutcome::InvalidStatus => 400,
    }
}

/// The text answered for a friends listing that found nothing.
pub fn friends_not_found_message() -> (m: String)
    ensures
        m@ == "No friendships found"@,
{
    String::from_str("No friendships found")
}

/// The HTTP status answered for a friends listing: an empty result is
/// reported as not found.
pub fn friends_http_status(friends: &Vec<String>) -> (c: u16)
    ensures
        c == if friends@.len() == 0 {
            404u16
        } else {
            200u16
        },
{
    if friends.len() == 0 {
        404
    } else {
        200
    }
}

} // verus!
