//! The laws of the friendship state machine, proved over the graph model:
//! what initiating and responding create, reject and leave untouched.

use vstd::prelude::*;

use crate::edges::EdgeModel;
use crate::edges::RelKind;
use crate::edges::count_dir;
use crate::edges::count_links;
use crate::edges::has_edge;
use crate::edges::lemma_count_active_decompose;
use crate::edges::lemma_count_dir_le_links;
use crate::edges::lemma_count_dir_zero;
use crate::edges::lemma_counts_push;
use crate::edges::lemma_counts_sym;
use crate::edges::lemma_remove_links_counts;
use crate::edges::lemma_remove_pending_counts;
use crate::edges::matches_dir;
use crate::edges::wf;
use crate::graph::Decision;
use crate::graph::InitiateOutcome;
use crate::graph::RespondOutcome;
use crate::graph::initiate_outcome;
use crate::graph::initiate_post;
use crate::graph::lemma_initiate_post_wf;
use crate::graph::pending_edge;
use crate::graph::respond_outcome;
use crate::graph::respond_post;

verus! {

/// Initiating between two distinct users with no edge between them
/// succeeds and creates exactly one edge: a pending one, from the
/// initiator to the recipient.
pub proof fn lemma_initiate_creates_pending(s: Seq<EdgeModel>, a: Seq<char>, b: Seq<char>, t: u64)
    requires
        wf(s),
        a != b,
        count_links(s, a, b) == 0,
    ensures
        initiate_outcome(s, a, b) is Created,
        count_dir(initiate_post(s, a, b, t), a, b, RelKind::Pending) == 1,
        count_links(initiate_post(s, a, b, t), a, b) == 1,
{
    lemma_count_dir_le_links(s, a, b, RelKind::Blocked);
    lemma_count_dir_le_links(s, a, b, RelKind::Pending);
    lemma_count_dir_le_links(s, a, b, RelKind::Accepted);
    lemma_count_dir_zero(s, a, b, RelKind::Blocked);
    lemma_count_dir_zero(s, b, a, RelKind::Blocked);
    lemma_count_dir_zero(s, a, b, RelKind::Pending);
    lemma_count_dir_zero(s, b, a, RelKind::Pending);
    lemma_count_dir_zero(s, a, b, RelKind::Accepted);
    lemma_count_dir_zero(s, b, a, RelKind::Accepted);
    lemma_counts_push(s, pending_edge(a, b, t), a, b, RelKind::Pending);
}

/// Initiating a request to oneself is always rejected as a self request
/// and creates nothing.
pub proof fn lemma_initiate_self_rejected(s: Seq<EdgeModel>, a: Seq<char>, t: u64)
    ensures
        initiate_outcome(s, a, a) == InitiateOutcome::SelfRequest,
        initiate_post(s, a, a, t) == s,
{
}

/// With a pending request from `a` to `b`, initiating again in either
/// direction is rejected with the matching pending reason and the edge set
/// is untouched.
pub proof fn lemma_initiate_pending_rejected(s: Seq<EdgeModel>, a: Seq<char>, b: Seq<char>, t: u64)
    requires
        wf(s),
        has_edge(s, a, b, RelKind::Pending),
    ensures
        initiate_outcome(s, a, b) == InitiateOutcome::PendingSent,
        initiate_outcome(s, b, a) == InitiateOutcome::PendingReceived,
        initiate_post(s, a, b, t) == s,
        initiate_post(s, b, a, t) == s,
        count_links(initiate_post(s, a, b, t), a, b) == count_links(s, a, b),
{
    let i = choose|i: int| 0 <= i < s.len() && matches_dir(#[trigger] s[i], a, b, RelKind::Pending);
    assert(a != b);
    lemma_count_dir_zero(s, a, b, RelKind::Pending);
    lemma_count_active_decompose(s, a, b);
    lemma_count_dir_zero(s, a, b, RelKind::Blocked);
    lemma_count_dir_zero(s, b, a, RelKind::Blocked);
    lemma_count_dir_zero(s, b, a, RelKind::Pending);
}

/// With an accepted relationship in either direction, initiating in either
/// direction is rejected as already friends and the edge set is untouched.
pub proof fn lemma_initiate_already_friends(s: Seq<EdgeModel>, a: Seq<char>, b: Seq<char>, t: u64)
    requires
        wf(s),
        has_edge(s, a, b, RelKind::Accepted) || has_edge(s, b, a, RelKind::Accepted),
    ensures
        initiate_outcome(s, a, b) == InitiateOutcome::AlreadyFriends,
        initiate_outcome(s, b, a) == InitiateOutcome::AlreadyFriends,
        initiate_post(s, a, b, t) == s,
        initiate_post(s, b, a, t) == s,
{
    if has_edge(s, a, b, RelKind::Accepted) {
        let i = choose|i: int|
            0 <= i < s.len() && matches_dir(#[trigger] s[i], a, b, RelKind::Accepted);
        assert(a != b);
    } else {
        let i = choose|i: int|
            0 <= i < s.len() && matches_dir(#[trigger] s[i], b, a, RelKind::Accepted);
        assert(a != b);
    }
    lemma_count_dir_zero(s, a, b, RelKind::Accepted);
    lemma_count_dir_zero(s, b, a, RelKind::Accepted);
    lemma_count_active_decompose(s, a, b);
    lemma_count_dir_zero(s, a, b, RelKind::Blocked);
    lemma_count_dir_zero(s, b, a, RelKind::Blocked);
    lemma_count_dir_zero(s, a, b, RelKind::Pending);
    lemma_count_dir_zero(s, b, a, RelKind::Pending);
}

/// Accepting a pending request from `a` to `b` succeeds and leaves exactly
/// one accepted edge from `a` to `b` and no pending edge between the pair.
pub proof fn lemma_respond_accept(s: Seq<EdgeModel>, a: Seq<char>, b: Seq<char>, t: u64)
    requires
        wf(s),
        has_edge(s, a, b, RelKind::Pending),
    ensures
        respond_outcome(s, a, b, Decision::Accepted) == RespondOutcome::Applied(Decision::Accepted),
        count_dir(respond_post(s, a, b, Decision::Accepted, t), a, b, RelKind::Accepted) == 1,
        count_dir(respond_post(s, a, b, Decision::Accepted, t), a, b, RelKind::Pending) == 0,
        count_dir(respond_post(s, a, b, Decision::Accepted, t), b, a, RelKind::Pending) == 0,
{
    let i = choose|i: int| 0 <= i < s.len() && matches_dir(#[trigger] s[i], a, b, RelKind::Pending);
    assert(a != b);
    lemma_count_dir_zero(s, a, b, RelKind::Pending);
    lemma_count_active_decompose(s, a, b);
    let cleared = crate::edges::remove_pending(s, a, b);
    let acc = EdgeModel { from: a, to: b, kind: RelKind::Accepted, created_at: t };
    lemma_remove_pending_counts(s, a, b, a, b, RelKind::Accepted);
    lemma_remove_pending_counts(s, a, b, a, b, RelKind::Pending);
    lemma_remove_pending_counts(s, a, b, b, a, RelKind::Pending);
    lemma_count_dir_zero(s, b, a, RelKind::Pending);
    lemma_counts_push(cleared, acc, a, b, RelKind::Accepted);
    lemma_counts_push(cleared, acc, a, b, RelKind::Pending);
    lemma_counts_push(cleared, acc, b, a, RelKind::Pending);
}

/// Accepting or declining without a pending request from `a` to `b` fails
/// as not found and leaves the edge set untouched; `a` and `b` being the
/// same user is one such case, since no pending request to oneself exists.
pub proof fn lemma_respond_without_pending(
    s: Seq<EdgeModel>,
    a: Seq<char>,
    b: Seq<char>,
    d: Decision,
    t: u64,
)
    requires
        !(d is Blocked),
        !has_edge(s, a, b, RelKind::Pending),
    ensures
        respond_outcome(s, a, b, d) == RespondOutcome::NotFound,
        respond_post(s, a, b, d, t) == s,
{
}

/// Blocking always succeeds, whatever stood between the pair before, and
/// leaves exactly one edge between them: a blocked one, from the blocker.
pub proof fn lemma_respond_blocked(s: Seq<EdgeModel>, a: Seq<char>, b: Seq<char>, t: u64)
    requires
        a != b,
    ensures
        respond_outcome(s, a, b, Decision::Blocked) == RespondOutcome::Applied(Decision::Blocked),
        count_links(respond_post(s, a, b, Decision::Blocked, t), a, b) == 1,
        count_dir(respond_post(s, a, b, Decision::Blocked, t), a, b, RelKind::Blocked) == 1,
{
    let cleared = crate::edges::remove_links(s, a, b);
    let blk = EdgeModel { from: a, to: b, kind: RelKind::Blocked, created_at: t };
    lemma_remove_links_counts(s, a, b, a, b, RelKind::Blocked);
    lemma_counts_push(cleared, blk, a, b, RelKind::Blocked);
}

/// The edge set after a sequence of initiate calls for the unordered pair
/// `{a, b}`: each call runs `a -> b` when its flag is set, `b -> a`
/// otherwise, with its own timestamp.
pub open spec fn run_initiates(
    s: Seq<EdgeModel>,
    a: Seq<char>,
    b: Seq<char>,
    calls: Seq<(bool, u64)>,
) -> Seq<EdgeModel>
    decreases calls.len(),
{
    if calls.len() == 0 {
        s
    } else {
        let prev = run_initiates(s, a, b, calls.drop_last());
        let c = calls.last();
        if c.0 {
            initiate_post(prev, a, b, c.1)
        } else {
            initiate_post(prev, b, a, c.1)
        }
    }
}

/// Any number of initiate calls for one unordered pair, from a state with
/// no edge between the pair, leave exactly one surviving edge between them:
/// the first call creates a pending edge and every later one is rejected.
pub proof fn lemma_repeated_initiates_one_edge(
    s: Seq<EdgeModel>,
    a: Seq<char>,
    b: Seq<char>,
    calls: Seq<(bool, u64)>,
)
    requires
        wf(s),
        a != b,
        count_links(s, a, b) == 0,
        calls.len() >= 1,
    ensures
        wf(run_initiates(s, a, b, calls)),
        count_links(run_initiates(s, a, b, calls), a, b) == 1,
        has_edge(run_initiates(s, a, b, calls), a, b, RelKind::Pending) || has_edge(
            run_initiates(s, a, b, calls),
            b,
            a,
            RelKind::Pending,
        ),
    decreases calls.len(),
{
    let c = calls.last();
    if calls.len() == 1 {
        assert(run_initiates(s, a, b, calls.drop_last()) == s);
        if c.0 {
            lemma_initiate_creates_pending(s, a, b, c.1);
            lemma_initiate_post_wf(s, a, b, c.1);
            lemma_count_dir_zero(initiate_post(s, a, b, c.1), a, b, RelKind::Pending);
        } else {
            lemma_counts_sym(s, a, b);
            lemma_initiate_creates_pending(s, b, a, c.1);
            lemma_initiate_post_wf(s, b, a, c.1);
            lemma_counts_sym(initiate_post(s, b, a, c.1), a, b);
            lemma_count_dir_zero(initiate_post(s, b, a, c.1), b, a, RelKind::Pending);
        }
    } else {
        lemma_repeated_initiates_one_edge(s, a, b, calls.drop_last());
        let prev = run_initiates(s, a, b, calls.drop_last());
        assert(!(initiate_outcome(prev, a, b) is Created));
        assert(!(initiate_outcome(prev, b, a) is Created));
    }
}

} // verus!
