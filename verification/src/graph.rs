//! The friendship graph and its state machine: initiating a friend request,
//! responding to one, and listing a user's accepted friends.

use vstd::prelude::*;

use crate::edges::Edge;
use crate::edges::EdgeModel;
use crate::edges::RelKind;
use crate::edges::count_active_links;
use crate::edges::count_links;
use crate::edges::has_edge;
use crate::edges::lemma_count_active_decompose;
use crate::edges::lemma_count_dir_le_links;
use crate::edges::lemma_count_dir_zero;
use crate::edges::lemma_counts_push;
use crate::edges::lemma_counts_sym;
use crate::edges::lemma_remove_links_counts;
use crate::edges::lemma_remove_links_no_self;
use crate::edges::lemma_remove_pending_counts;
use crate::edges::lemma_remove_pending_no_self;
use crate::edges::links;
use crate::edges::matches_dir;
use crate::edges::remove_links;
use crate::edges::remove_pending;
use crate::edges::wf;

verus! {

/// What initiating a friend request decides, in the priority order the
/// rules are checked in.
#[derive(Clone, Copy, Debug, PartialEq, Eq, Structural)]
pub enum InitiateOutcome {
    /// No conflicting relationship existed; a pending edge was created.
    Created,
    /// Initiator and recipient are the same user.
    SelfRequest,
    /// The initiator has blocked the recipient.
    BlockedRecipient,
    /// The recipient has blocked the initiator.
    BlockedByRecipient,
    /// The initiator already has a pending request to the recipient.
    PendingSent,
    /// The recipient already has a pending request to the initiator.
    PendingReceived,
    /// An accepted relationship already exists, in either direction.
    AlreadyFriends,
}

/// The decision carried by a response to a friend request.
#[derive(Clone, Copy, Debug, PartialEq, Eq, Structural)]
pub enum Decision {
    Accepted,
    Declined,
    Blocked,
}

/// What responding to a friend request decides.
#[derive(Clone, Copy, Debug, PartialEq, Eq, Structural)]
pub enum RespondOutcome {
    /// The decision was applied and the corresponding edge now exists.
    Applied(Decision),
    /// Accepting or declining found no pending request to answer.
    NotFound,
    /// Blocking oneself is rejected: no relationship may run from a user
    /// to itself. Nothing is changed.
    SelfRequest,
    /// The decision string named no known decision; nothing is changed.
    InvalidStatus,
}

/// The edge kind a decision resolves to.
pub open spec fn decision_kind(d: Decision) -> RelKind {
    match d {
        Decision::Accepted => RelKind::Accepted,
        Decision::Declined => RelKind::Declined,
        Decision::Blocked => RelKind::Blocked,
    }
}

/// The pending edge created by a successful initiate.
pub open spec fn pending_edge(a: Seq<char>, b: Seq<char>, t: u64) -> EdgeModel {
    EdgeModel { from: a, to: b, kind: RelKind::Pending, created_at: t }
}

/// The outcome of initiating `a -> b` against the edge set `s`: the blocking
/// conditions are evaluated in priority order, and only when none holds is
/// the request created.
pub open spec fn initiate_outcome(s: Seq<EdgeModel>, a: Seq<char>, b: Seq<char>) -> InitiateOutcome {
    if a == b {
        InitiateOutcome::SelfRequest
    } else if has_edge(s, a, b, RelKind::Blocked) {
        InitiateOutcome::BlockedRecipient
    } else if has_edge(s, b, a, RelKind::Blocked) {
        InitiateOutcome::BlockedByRecipient
    } else if has_edge(s, a, b, RelKind::Pending) {
        InitiateOutcome::PendingSent
    } else if has_edge(s, b, a, RelKind::Pending) {
        InitiateOutcome::PendingReceived
    } else if has_edge(s, a, b, RelKind::Accepted) || has_edge(s, b, a, RelKind::Accepted) {
        InitiateOutcome::AlreadyFriends
    } else {
        InitiateOutcome::Created
    }
}

/// The edge set after initiating `a -> b`: one new pending edge on success,
/// unchanged on any rejection.
pub open spec fn initiate_post(s: Seq<EdgeModel>, a: Seq<char>, b: Seq<char>, t: u64) -> Seq<
    EdgeModel,
> {
    if initiate_outcome(s, a, b) is Created {
        s.push(pending_edge(a, b, t))
    } else {
        s
    }
}

/// The outcome of responding to the pair `a -> b` with decision `d`:
/// blocking always succeeds between distinct users and is rejected towards
/// oneself; accepting or declining needs a pending request from `a` to `b`,
/// and no pending request to oneself can exist, so the self case falls to
/// not found there.
pub open spec fn respond_outcome(s: Seq<EdgeModel>, a: Seq<char>, b: Seq<char>, d: Decision) -> RespondOutcome {
    if d is Blocked {
        if a == b {
            RespondOutcome::SelfRequest
        } else {
            RespondOutcome::Applied(Decision::Blocked)
        }
    } else if has_edge(s, a, b, RelKind::Pending) {
        RespondOutcome::Applied(d)
    } else {
        RespondOutcome::NotFound
    }
}

/// The edge set after responding: blocking replaces every edge between the
/// pair with one blocked edge; accepting or declining replaces the pending
/// request with an edge of the decided kind; otherwise nothing changes.
pub open spec fn respond_post(
    s: Seq<EdgeModel>,
    a: Seq<char>,
    b: Seq<char>,
    d: Decision,
    t: u64,
) -> Seq<EdgeModel> {
    if d is Blocked {
        if a == b {
            s
        } else {
            remove_links(s, a, b).push(
                EdgeModel { from: a, to: b, kind: RelKind::Blocked, created_at: t },
            )
        }
    } else if has_edge(s, a, b, RelKind::Pending) {
        remove_pending(s, a, b).push(
            EdgeModel { from: a, to: b, kind: decision_kind(d), created_at: t },
        )
    } else {
        s
    }
}

/// Is `x` an accepted friend of `u` in `s`, in either direction?
pub open spec fn is_friend(s: Seq<EdgeModel>, u: Seq<char>, x: Seq<char>) -> bool {
    has_edge(s, u, x, RelKind::Accepted) || has_edge(s, x, u, RelKind::Accepted)
}

/// Does the list `v` hold the identifier `x`?
pub open spec fn contains_id(v: Seq<String>, x: Seq<char>) -> bool {
    exists|k: int| 0 <= k < v.len() && (#[trigger] v[k])@ == x
}

/// Extending the scanned prefix by one edge adds at most the friends that
/// edge itself witnesses.
proof fn lemma_is_friend_extend(s: Seq<EdgeModel>, i: int, u: Seq<char>)
    requires
        0 <= i < s.len(),
    ensures
        forall|x: Seq<char>| #[trigger]
            is_friend(s.subrange(0, i), u, x) ==> is_friend(s.subrange(0, i + 1), u, x),
        forall|x: Seq<char>| #[trigger]
            is_friend(s.subrange(0, i + 1), u, x) ==> is_friend(s.subrange(0, i), u, x)
                || matches_dir(s[i], u, x, RelKind::Accepted) || matches_dir(
                s[i],
                x,
                u,
                RelKind::Accepted,
            ),
{
    let sub = s.subrange(0, i);
    let sub1 = s.subrange(0, i + 1);
    assert forall|x: Seq<char>| #[trigger] is_friend(sub, u, x) implies is_friend(sub1, u, x) by {
        if has_edge(sub, u, x, RelKind::Accepted) {
            let j = choose|j: int|
                0 <= j < sub.len() && matches_dir(#[trigger] sub[j], u, x, RelKind::Accepted);
            assert(sub1[j] == sub[j]);
            assert(has_edge(sub1, u, x, RelKind::Accepted));
        }
        if has_edge(sub, x, u, RelKind::Accepted) {
            let j = choose|j: int|
                0 <= j < sub.len() && matches_dir(#[trigger] sub[j], x, u, RelKind::Accepted);
            assert(sub1[j] == sub[j]);
            assert(has_edge(sub1, x, u, RelKind::Accepted));
        }
    }
    assert forall|x: Seq<char>| #[trigger] is_friend(sub1, u, x) implies is_friend(sub, u, x)
        || matches_dir(s[i], u, x, RelKind::Accepted) || matches_dir(
        s[i],
        x,
        u,
        RelKind::Accepted,
    ) by {
        if has_edge(sub1, u, x, RelKind::Accepted) {
            let j = choose|j: int|
                0 <= j < sub1.len() && matches_dir(#[trigger] sub1[j], u, x, RelKind::Accepted);
            if j < i {
                assert(sub[j] == sub1[j]);
                assert(has_edge(sub, u, x, RelKind::Accepted));
            } else {
                assert(sub1[j] == s[i]);
            }
        }
        if has_edge(sub1, x, u, RelKind::Accepted) {
            let j = choose|j: int|
                0 <= j < sub1.len() && matches_dir(#[trigger] sub1[j], x, u, RelKind::Accepted);
            if j < i {
                assert(sub[j] == sub1[j]);
                assert(has_edge(sub, x, u, RelKind::Accepted));
            } else {
                assert(sub1[j] == s[i]);
            }
        }
    }
}

/// Pushing onto an identifier list keeps what it held and adds the new one.
proof fn lemma_contains_id_push(v: Seq<String>, s: String)
    ensures
        forall|x: Seq<char>| #[trigger] contains_id(v, x) ==> contains_id(v.push(s), x),
        contains_id(v.push(s), s@),
{
    assert forall|x: Seq<char>| #[trigger] contains_id(v, x) implies contains_id(v.push(s), x) by {
        let k = choose|k: int| 0 <= k < v.len() && (#[trigger] v[k])@ == x;
        assert(v.push(s)[k] == v[k]);
    }
    assert(v.push(s)[v.len() as int] == s);
}

/// A successful initiate preserves well-formedness: the new pending edge is
/// the only active edge between the pair.
pub proof fn lemma_initiate_post_wf(s: Seq<EdgeModel>, a: Seq<char>, b: Seq<char>, t: u64)
    requires
        wf(s),
    ensures
        wf(initiate_post(s, a, b, t)),
{
    if initiate_outcome(s, a, b) is Created {
        let p = pending_edge(a, b, t);
        let post = s.push(p);
        assert forall|i: int| 0 <= i < post.len() implies (#[trigger] post[i]).from
            != post[i].to by {
            if i < s.len() {
                assert(post[i] == s[i]);
            } else {
                assert(post[i] == p);
            }
        }
        assert forall|x: Seq<char>, y: Seq<char>| #[trigger] count_active_links(post, x, y)
            <= 1 by {
            lemma_counts_push(s, p, x, y, RelKind::Pending);
            if links(p, x, y) {
                lemma_count_dir_zero(s, a, b, RelKind::Pending);
                lemma_count_dir_zero(s, b, a, RelKind::Pending);
                lemma_count_dir_zero(s, a, b, RelKind::Accepted);
                lemma_count_dir_zero(s, b, a, RelKind::Accepted);
                lemma_count_dir_zero(s, a, b, RelKind::Blocked);
                lemma_count_dir_zero(s, b, a, RelKind::Blocked);
                lemma_count_active_decompose(s, a, b);
                lemma_counts_sym(s, a, b);
                assert(count_active_links(s, x, y) == 0);
            }
        }
    }
}

/// Every way of responding preserves well-formedness.
pub proof fn lemma_respond_post_wf(
    s: Seq<EdgeModel>,
    a: Seq<char>,
    b: Seq<char>,
    d: Decision,
    t: u64,
)
    requires
        wf(s),
    ensures
        wf(respond_post(s, a, b, d, t)),
{
    let post = respond_post(s, a, b, d, t);
    if d is Blocked && a == b {
    } else if d is Blocked {
        let blk = EdgeModel { from: a, to: b, kind: RelKind::Blocked, created_at: t };
        let cleared = remove_links(s, a, b);
        lemma_remove_links_no_self(s, a, b);
        assert forall|i: int| 0 <= i < post.len() implies (#[trigger] post[i]).from
            != post[i].to by {
            if i < cleared.len() {
                assert(post[i] == cleared[i]);
            } else {
                assert(post[i] == blk);
            }
        }
        assert forall|x: Seq<char>, y: Seq<char>| #[trigger] count_active_links(post, x, y)
            <= 1 by {
            lemma_remove_links_counts(s, a, b, x, y, RelKind::Blocked);
            lemma_counts_push(cleared, blk, x, y, RelKind::Blocked);
        }
    } else if has_edge(s, a, b, RelKind::Pending) {
        let w = choose|i: int|
            0 <= i < s.len() && matches_dir(#[trigger] s[i], a, b, RelKind::Pending);
        assert(a != b);
        let newe = EdgeModel { from: a, to: b, kind: decision_kind(d), created_at: t };
        let cleared = remove_pending(s, a, b);
        lemma_remove_pending_no_self(s, a, b);
        assert forall|i: int| 0 <= i < post.len() implies (#[trigger] post[i]).from
            != post[i].to by {
            if i < cleared.len() {
                assert(post[i] == cleared[i]);
            } else {
                assert(post[i] == newe);
            }
        }
        lemma_count_dir_zero(s, a, b, RelKind::Pending);
        assert forall|x: Seq<char>, y: Seq<char>| #[trigger] count_active_links(post, x, y)
            <= 1 by {
            lemma_remove_pending_counts(s, a, b, x, y, RelKind::Pending);
            lemma_counts_push(cleared, newe, x, y, RelKind::Pending);
            if links(newe, x, y) {
                lemma_counts_sym(s, a, b);
                lemma_count_dir_le_links(s, a, b, RelKind::Pending);
                assert(count_active_links(cleared, x, y) == 0);
            }
        }
    }
}

/// The friendship graph: the full set of relationship edges between users.
pub struct FriendGraph {
    edges: Vec<Edge>,
}

/// The model of a vector of edges.
pub closed spec fn edges_view(v: Vec<Edge>) -> Seq<EdgeModel> {
    Seq::new(v@.len(), |i: int| v@[i]@)
}

impl View for FriendGraph {
    type V = Seq<EdgeModel>;

    closed spec fn view(&self) -> Seq<EdgeModel> {
        edges_view(self.edges)
    }
}

impl FriendGraph {
    /// A graph with no users and no relationships.
    pub fn new() -> (g: FriendGraph)
        ensures
            g@ == Seq::<EdgeModel>::empty(),
            wf(g@),
    {
        let g = FriendGraph { edges: Vec::new() };
        proof {
            assert(g@ =~= Seq::<EdgeModel>::empty());
        }
        g
    }

    /// The edges the graph holds, in creation order.
    pub fn edges(&self) -> (r: &Vec<Edge>)
        ensures
            r@.len() == self@.len(),
            forall|i: int| 0 <= i < r@.len() ==> (#[trigger] r@[i])@ == self@[i],
    {
        &self.edges
    }

    /// Does an edge exist going exactly from `from` to `to` with kind `kind`?
    pub fn contains_edge(&self, from: &String, to: &String, kind: RelKind) -> (r: bool)
        ensures
            r == has_edge(self@, from@, to@, kind),
    {
        let n = self.edges.len();
        let mut i: usize = 0;
        while i < n
            invariant
                n == self.edges.len(),
                i <= n,
                self@.len() == n,
                forall|j: int| 0 <= j < i ==> !matches_dir(#[trigger] self@[j], from@, to@, kind),
            decreases n - i,
        {
            let e = &self.edges[i];
            if e.kind == kind && e.from == *from && e.to == *to {
                assert(matches_dir(self@[i as int], from@, to@, kind));
                return true;
            }
            assert(!matches_dir(self@[i as int], from@, to@, kind));
            i += 1;
        }
        false
    }

    /// How many edges run between `a` and `b`, in either direction, of any kind?
    pub fn edge_count_between(&self, a: &String, b: &String) -> (n: usize)
        ensures
            n == count_links(self@, a@, b@),
    {
        let len = self.edges.len();
        let mut i: usize = 0;
        let mut n: usize = 0;
        while i < len
            invariant
                len == self.edges.len(),
                i <= len,
                self@.len() == len,
                n <= i,
                n == count_links(self@.subrange(0, i as int), a@, b@),
            decreases len - i,
        {
            let e = &self.edges[i];
            proof {
                assert(self@.subrange(0, i + 1).drop_last() =~= self@.subrange(0, i as int));
                assert(self@.subrange(0, i + 1).last() == self@[i as int]);
            }
            if (e.from == *a && e.to == *b) || (e.from == *b && e.to == *a) {
                assert(links(self@[i as int], a@, b@));
                n += 1;
            } else {
                assert(!links(self@[i as int], a@, b@));
            }
            i += 1;
        }
        proof {
            assert(self@.subrange(0, len as int) =~= self@);
        }
        n
    }

    /// Initiate a friend request from `initiator` to `recipient` at time
    /// `created_at`: evaluate the blocking conditions in priority order and
    /// create a pending edge only when none holds.
    pub fn initiate(&mut self, initiator: &String, recipient: &String, created_at: u64) -> (r: InitiateOutcome)
        requires
            wf(old(self)@),
        ensures
            r == initiate_outcome(old(self)@, initiator@, recipient@),
            final(self)@ == initiate_post(old(self)@, initiator@, recipient@, created_at),
            wf(final(self)@),
    {
        if *initiator == *recipient {
            return InitiateOutcome::SelfRequest;
        }
        if self.contains_edge(initiator, recipient, RelKind::Blocked) {
            return InitiateOutcome::BlockedRecipient;
        }
        if self.contains_edge(recipient, initiator, RelKind::Blocked) {
            return InitiateOutcome::BlockedByRecipient;
        }
        if self.contains_edge(initiator, recipient, RelKind::Pending) {
            return InitiateOutcome::PendingSent;
        }
        if self.contains_edge(recipient, initiator, RelKind::Pending) {
            return InitiateOutcome::PendingReceived;
        }
        if self.contains_edge(initiator, recipient, RelKind::Accepted) {
            return InitiateOutcome::AlreadyFriends;
        }
        if self.contains_edge(recipient, initiator, RelKind::Accepted) {
            return InitiateOutcome::AlreadyFriends;
        }
        let e = Edge {
            from: initiator.clone(),
            to: recipient.clone(),
            kind: RelKind::Pending,
            created_at,
        };
        proof {
            lemma_initiate_post_wf(self@, initiator@, recipient@, created_at);
        }
        self.edges.push(e);
        proof {
            assert(self@ =~= initiate_post(old(self)@, initiator@, recipient@, created_at));
        }
        InitiateOutcome::Created
    }

    /// Remove every edge between `a` and `b`, in either direction.
    fn remove_links_exec(&mut self, a: &String, b: &String)
        ensures
            final(self)@ == remove_links(old(self)@, a@, b@),
    {
        let len = self.edges.len();
        let mut kept: Vec<Edge> = Vec::new();
        let mut i: usize = 0;
        while i < len
            invariant
                len == self.edges.len(),
                i <= len,
                self@ == old(self)@,
                self@.len() == len,
                edges_view(kept) == remove_links(self@.subrange(0, i as int), a@, b@),
            decreases len - i,
        {
            let e = &self.edges[i];
            proof {
                assert(self@.subrange(0, i + 1).drop_last() =~= self@.subrange(0, i as int));
                assert(self@.subrange(0, i + 1).last() == self@[i as int]);
            }
            if (e.from == *a && e.to == *b) || (e.from == *b && e.to == *a) {
                assert(links(self@[i as int], a@, b@));
            } else {
                assert(!links(self@[i as int], a@, b@));
                let ghost prev = edges_view(kept);
                kept.push(e.clone());
                proof {
                    assert(edges_view(kept) =~= prev.push(self@[i as int]));
                }
            }
            i += 1;
        }
        proof {
            assert(self@.subrange(0, len as int) =~= self@);
        }
        self.edges = kept;
    }

    /// Remove every pending edge going exactly from `a` to `b`.
    fn remove_pending_exec(&mut self, a: &String, b: &String)
        ensures
            final(self)@ == remove_pending(old(self)@, a@, b@),
    {
        let len = self.edges.len();
        let mut kept: Vec<Edge> = Vec::new();
        let mut i: usize = 0;
        while i < len
            invariant
                len == self.edges.len(),
                i <= len,
                self@ == old(self)@,
                self@.len() == len,
                edges_view(kept) == remove_pending(self@.subrange(0, i as int), a@, b@),
            decreases len - i,
        {
            let e = &self.edges[i];
            proof {
                assert(self@.subrange(0, i + 1).drop_last() =~= self@.subrange(0, i as int));
                assert(self@.subrange(0, i + 1).last() == self@[i as int]);
            }
            if e.from == *a && e.to == *b && e.kind == RelKind::Pending {
                assert(matches_dir(self@[i as int], a@, b@, RelKind::Pending));
            } else {
                assert(!matches_dir(self@[i as int], a@, b@, RelKind::Pending));
                let ghost prev = edges_view(kept);
                kept.push(e.clone());
                proof {
                    assert(edges_view(kept) =~= prev.push(self@[i as int]));
                }
            }
            i += 1;
        }
        proof {
            assert(self@.subrange(0, len as int) =~= self@);
        }
        self.edges = kept;
    }

    /// Respond to the friend request `initiator -> recipient` with `decision`
    /// at time `created_at`: blocking replaces whatever relationship existed,
    /// except towards oneself, where it is rejected; accepting or declining
    /// replaces the pending request, and fails with `NotFound` when there is
    /// none.
    pub fn respond(
        &mut self,
        initiator: &String,
        recipient: &String,
        decision: Decision,
        created_at: u64,
    ) -> (r: RespondOutcome)
        requires
            wf(old(self)@),
        ensures
            r == respond_outcome(old(self)@, initiator@, recipient@, decision),
            final(self)@ == respond_post(old(self)@, initiator@, recipient@, decision, created_at),
            wf(final(self)@),
    {
        proof {
            lemma_respond_post_wf(self@, initiator@, recipient@, decision, created_at);
        }
        match decision {
            Decision::Blocked => {
                if *initiator == *recipient {
                    return RespondOutcome::SelfRequest;
                }
                self.remove_links_exec(initiator, recipient);
                let e = Edge {
                    from: initiator.clone(),
                    to: recipient.clone(),
                    kind: RelKind::Blocked,
                    created_at,
                };
                let ghost prev = self@;
                self.edges.push(e);
                proof {
                    assert(self@ =~= prev.push(
                        EdgeModel {
                            from: initiator@,
                            to: recipient@,
                            kind: RelKind::Blocked,
                            created_at,
                        },
                    ));
                }
                RespondOutcome::Applied(Decision::Blocked)
            },
            _ => {
                if self.contains_edge(initiator, recipient, RelKind::Pending) {
                    self.remove_pending_exec(initiator, recipient);
                    let kind = match decision {
                        Decision::Accepted => RelKind::Accepted,
                        _ => RelKind::Declined,
                    };
                    let e = Edge {
                        from: initiator.clone(),
                        to: recipient.clone(),
                        kind,
                        created_at,
                    };
                    let ghost prev = self@;
                    self.edges.push(e);
                    proof {
                        assert(kind == decision_kind(decision));
                        assert(self@ =~= prev.push(
                            EdgeModel {
                                from: initiator@,
                                to: recipient@,
                                kind: decision_kind(decision),
                                created_at,
                            },
                        ));
                    }
                    RespondOutcome::Applied(decision)
                } else {
                    RespondOutcome::NotFound
                }
            },
        }
    }

    /// The identifiers accepted as friends of `user`: exactly those users
    /// connected to `user` by an accepted edge in either direction, each
    /// listed once, and never `user` itself.
    pub fn friends_of(&self, user: &String) -> (r: Vec<String>)
        requires
            wf(self@),
        ensures
            forall|k: int| 0 <= k < r@.len() ==> is_friend(self@, user@, (#[trigger] r@[k])@),
            forall|x: Seq<char>| #[trigger] is_friend(self@, user@, x) ==> contains_id(r@, x),
            forall|k1: int, k2: int|
                0 <= k1 < k2 < r@.len() ==> (#[trigger] r@[k1])@ != (#[trigger] r@[k2])@,
            forall|k: int| 0 <= k < r@.len() ==> (#[trigger] r@[k])@ != user@,
    {
        let len = self.edges.len();
        let mut out: Vec<String> = Vec::new();
        let mut i: usize = 0;
        while i < len
            invariant
                len == self.edges.len(),
                i <= len,
                self@.len() == len,
                wf(self@),
                forall|k: int|
                    0 <= k < out@.len() ==> is_friend(
                        self@.subrange(0, i as int),
                        user@,
                        (#[trigger] out@[k])@,
                    ),
                forall|x: Seq<char>| #[trigger]
                    is_friend(self@.subrange(0, i as int), user@, x) ==> contains_id(out@, x),
                forall|k1: int, k2: int|
                    0 <= k1 < k2 < out@.len() ==> (#[trigger] out@[k1])@ != (#[trigger] out@[k2])@,
                forall|k: int| 0 <= k < out@.len() ==> (#[trigger] out@[k])@ != user@,
            decreases len - i,
        {
            let ghost sub = self@.subrange(0, i as int);
            let ghost sub1 = self@.subrange(0, i + 1);
            proof {
                lemma_is_friend_extend(self@, i as int, user@);
                assert(sub1[i as int] == self@[i as int]);
            }
            let e = &self.edges[i];
            if e.kind == RelKind::Accepted && (e.from == *user || e.to == *user) {
                let cand: String = if e.from == *user {
                    e.to.clone()
                } else {
                    e.from.clone()
                };
                proof {
                    assert(matches_dir(self@[i as int], user@, cand@, RelKind::Accepted)
                        || matches_dir(self@[i as int], cand@, user@, RelKind::Accepted));
                    assert(is_friend(sub1, user@, cand@));
                    assert(cand@ != user@);
                }
                if !vec_contains_id(&out, &cand) {
                    let ghost prev = out@;
                    out.push(cand);
                    proof {
                        lemma_contains_id_push(prev, out@[prev.len() as int]);
                    }
                } else {
                    proof {
                        assert(contains_id(out@, cand@));
                    }
                }
                proof {
                    assert forall|x: Seq<char>| #[trigger]
                        is_friend(sub1, user@, x) implies contains_id(out@, x) by {
                        if !is_friend(sub, user@, x) {
                            assert(matches_dir(self@[i as int], user@, x, RelKind::Accepted)
                                || matches_dir(self@[i as int], x, user@, RelKind::Accepted));
                            assert(self@[i as int].from != self@[i as int].to);
                            assert(x == cand@);
                        }
                    }
                }
            } else {
                proof {
                    assert forall|x: Seq<char>| #[trigger]
                        is_friend(sub1, user@, x) implies is_friend(sub, user@, x) by {
                        assert(!matches_dir(self@[i as int], user@, x, RelKind::Accepted));
                        assert(!matches_dir(self@[i as int], x, user@, RelKind::Accepted));
                    }
                }
            }
            i += 1;
        }
        proof {
            assert(self@.subrange(0, len as int) =~= self@);
        }
        out
    }

}

/// Does `v` hold the identifier `s`?
fn vec_contains_id(v: &Vec<String>, s: &String) -> (r: bool)
    ensures
        r == contains_id(v@, s@),
{
    let n = v.len();
    let mut i: usize = 0;
    while i < n
        invariant
            n == v.len(),
            i <= n,
            forall|k: int| 0 <= k < i ==> (#[trigger] v@[k])@ != s@,
        decreases n - i,
    {
        if v[i] == *s {
            assert((v@[i as int])@ == s@);
            return true;
        }
        i += 1;
    }
    false
}

} // verus!
