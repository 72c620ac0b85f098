//! Relationship edges and the counting functions used to state how many
//! edges of a given shape a graph holds.

use vstd::prelude::*;

verus! {

/// The kind of a relationship edge held in the graph.
#[derive(Clone, Copy, Debug, PartialEq, Eq, Structural)]
pub enum RelKind {
    Pending,
    Accepted,
    Declined,
    Blocked,
}

/// A directed relationship edge between two user identifiers, carrying the
/// timestamp it was created with.
#[derive(Debug)]
pub struct Edge {
    pub from: String,
    pub to: String,
    pub kind: RelKind,
    pub created_at: u64,
}

/// The mathematical model of an edge: the identifiers as character sequences.
pub ghost struct EdgeModel {
    pub from: Seq<char>,
    pub to: Seq<char>,
    pub kind: RelKind,
    pub created_at: u64,
}

impl View for Edge {
    type V = EdgeModel;

    open spec fn view(&self) -> EdgeModel {
        EdgeModel { from: self.from@, to: self.to@, kind: self.kind, created_at: self.created_at }
    }
}

impl Clone for Edge {
    fn clone(&self) -> (res: Edge)
        ensures
            res@ == self@,
    {
        Edge {
            from: self.from.clone(),
            to: self.to.clone(),
            kind: self.kind,
            created_at: self.created_at,
        }
    }
}

/// Does `e` run between `a` and `b`, in either direction?
pub open spec fn links(e: EdgeModel, a: Seq<char>, b: Seq<char>) -> bool {
    (e.from == a && e.to == b) || (e.from == b && e.to == a)
}

/// An active kind precludes any other active relationship between the same
/// pair of users; a declined request does not.
pub open spec fn active(k: RelKind) -> bool {
    k != RelKind::Declined
}

/// Does `e` go exactly from `a` to `b` with kind `k`?
pub open spec fn matches_dir(e: EdgeModel, a: Seq<char>, b: Seq<char>, k: RelKind) -> bool {
    e.from == a && e.to == b && e.kind == k
}

/// Do `(a, b)` and `(x, y)` name the same unordered pair?
pub open spec fn same_pair(a: Seq<char>, b: Seq<char>, x: Seq<char>, y: Seq<char>) -> bool {
    (a == x && b == y) || (a == y && b == x)
}

/// Some edge from `a` to `b` with kind `k` exists in `s`.
pub open spec fn has_edge(s: Seq<EdgeModel>, a: Seq<char>, b: Seq<char>, k: RelKind) -> bool {
    exists|i: int| 0 <= i < s.len() && matches_dir(#[trigger] s[i], a, b, k)
}

/// Number of edges in `s` going exactly from `a` to `b` with kind `k`.
pub open spec fn count_dir(s: Seq<EdgeModel>, a: Seq<char>, b: Seq<char>, k: RelKind) -> nat
    decreases s.len(),
{
    if s.len() == 0 {
        0
    } else {
        count_dir(s.drop_last(), a, b, k) + if matches_dir(s.last(), a, b, k) {
            1nat
        } else {
            0nat
        }
    }
}

/// Number of edges in `s` between `a` and `b`, in either direction, of any kind.
pub open spec fn count_links(s: Seq<EdgeModel>, a: Seq<char>, b: Seq<char>) -> nat
    decreases s.len(),
{
    if s.len() == 0 {
        0
    } else {
        count_links(s.drop_last(), a, b) + if links(s.last(), a, b) {
            1nat
        } else {
            0nat
        }
    }
}

/// Number of active edges in `s` between `a` and `b`, in either direction.
pub open spec fn count_active_links(s: Seq<EdgeModel>, a: Seq<char>, b: Seq<char>) -> nat
    decreases s.len(),
{
    if s.len() == 0 {
        0
    } else {
        count_active_links(s.drop_last(), a, b) + if links(s.last(), a, b) && active(
            s.last().kind,
        ) {
            1nat
        } else {
            0nat
        }
    }
}

/// No edge runs from a user to itself.
pub open spec fn no_self_edges(s: Seq<EdgeModel>) -> bool {
    forall|i: int| 0 <= i < s.len() ==> (#[trigger] s[i]).from != s[i].to
}

/// A well-formed graph: no self edges, and between any two users at most one
/// active relationship, counting both directions.
pub open spec fn wf(s: Seq<EdgeModel>) -> bool {
    &&& no_self_edges(s)
    &&& forall|a: Seq<char>, b: Seq<char>| #[trigger] count_active_links(s, a, b) <= 1
}

/// `s` without the edges linking `a` and `b` (either direction, any kind).
pub open spec fn remove_links(s: Seq<EdgeModel>, a: Seq<char>, b: Seq<char>) -> Seq<EdgeModel>
    decreases s.len(),
{
    if s.len() == 0 {
        s
    } else {
        let rest = remove_links(s.drop_last(), a, b);
        if links(s.last(), a, b) {
            rest
        } else {
            rest.push(s.last())
        }
    }
}

/// `s` without the pending edges going exactly from `a` to `b`.
pub open spec fn remove_pending(s: Seq<EdgeModel>, a: Seq<char>, b: Seq<char>) -> Seq<EdgeModel>
    decreases s.len(),
{
    if s.len() == 0 {
        s
    } else {
        let rest = remove_pending(s.drop_last(), a, b);
        if matches_dir(s.last(), a, b, RelKind::Pending) {
            rest
        } else {
            rest.push(s.last())
        }
    }
}

/// Pushing one edge raises each count by its own indicator.
pub proof fn lemma_counts_push(s: Seq<EdgeModel>, e: EdgeModel, a: Seq<char>, b: Seq<char>, k: RelKind)
    ensures
        count_dir(s.push(e), a, b, k) == count_dir(s, a, b, k) + if matches_dir(e, a, b, k) {
            1nat
        } else {
            0nat
        },
        count_links(s.push(e), a, b) == count_links(s, a, b) + if links(e, a, b) {
            1nat
        } else {
            0nat
        },
        count_active_links(s.push(e), a, b) == count_active_links(s, a, b) + if links(e, a, b)
            && active(e.kind) {
            1nat
        } else {
            0nat
        },
{
    assert(s.push(e).drop_last() =~= s);
    assert(s.push(e).last() == e);
}

/// A directed count is zero exactly when no such edge exists.
pub proof fn lemma_count_dir_zero(s: Seq<EdgeModel>, a: Seq<char>, b: Seq<char>, k: RelKind)
    ensures
        (count_dir(s, a, b, k) == 0) <==> !has_edge(s, a, b, k),
    decreases s.len(),
{
    if s.len() == 0 {
    } else {
        lemma_count_dir_zero(s.drop_last(), a, b, k);
        if has_edge(s, a, b, k) {
            let i = choose|i: int| 0 <= i < s.len() && matches_dir(#[trigger] s[i], a, b, k);
            if i < s.len() - 1 {
                assert(s.drop_last()[i] == s[i]);
                assert(has_edge(s.drop_last(), a, b, k));
            } else {
                assert(matches_dir(s.last(), a, b, k));
            }
        }
        if has_edge(s.drop_last(), a, b, k) {
            let i = choose|i: int|
                0 <= i < s.drop_last().len() && matches_dir(#[trigger] s.drop_last()[i], a, b, k);
            assert(s[i] == s.drop_last()[i]);
            assert(has_edge(s, a, b, k));
        }
        if matches_dir(s.last(), a, b, k) {
            assert(s[s.len() - 1] == s.last());
            assert(has_edge(s, a, b, k));
        }
    }
}

/// Each directed count is bounded by the link counts it contributes to.
pub proof fn lemma_count_dir_le_links(s: Seq<EdgeModel>, a: Seq<char>, b: Seq<char>, k: RelKind)
    ensures
        count_dir(s, a, b, k) <= count_links(s, a, b),
        count_dir(s, b, a, k) <= count_links(s, a, b),
        active(k) ==> count_dir(s, a, b, k) <= count_active_links(s, a, b),
        active(k) ==> count_dir(s, b, a, k) <= count_active_links(s, a, b),
        count_active_links(s, a, b) <= count_links(s, a, b),
    decreases s.len(),
{
    if s.len() == 0 {
    } else {
        lemma_count_dir_le_links(s.drop_last(), a, b, k);
    }
}

/// Link counts do not depend on the order the pair is named in.
pub proof fn lemma_counts_sym(s: Seq<EdgeModel>, a: Seq<char>, b: Seq<char>)
    ensures
        count_links(s, a, b) == count_links(s, b, a),
        count_active_links(s, a, b) == count_active_links(s, b, a),
    decreases s.len(),
{
    if s.len() == 0 {
    } else {
        lemma_counts_sym(s.drop_last(), a, b);
    }
}

/// For distinct users the active link count splits into the six directed
/// counts of the three active kinds.
pub proof fn lemma_count_active_decompose(s: Seq<EdgeModel>, a: Seq<char>, b: Seq<char>)
    requires
        a != b,
    ensures
        count_active_links(s, a, b) == count_dir(s, a, b, RelKind::Pending) + count_dir(
            s,
            b,
            a,
            RelKind::Pending,
        ) + count_dir(s, a, b, RelKind::Accepted) + count_dir(s, b, a, RelKind::Accepted)
            + count_dir(s, a, b, RelKind::Blocked) + count_dir(s, b, a, RelKind::Blocked),
    decreases s.len(),
{
    if s.len() == 0 {
    } else {
        lemma_count_active_decompose(s.drop_last(), a, b);
    }
}

/// Removing the edges linking `a` and `b` empties the counts of that pair
/// and leaves every other count unchanged.
pub proof fn lemma_remove_links_counts(
    s: Seq<EdgeModel>,
    a: Seq<char>,
    b: Seq<char>,
    x: Seq<char>,
    y: Seq<char>,
    k: RelKind,
)
    ensures
        count_dir(remove_links(s, a, b), x, y, k) == if same_pair(a, b, x, y) {
            0nat
        } else {
            count_dir(s, x, y, k)
        },
        count_links(remove_links(s, a, b), x, y) == if same_pair(a, b, x, y) {
            0nat
        } else {
            count_links(s, x, y)
        },
        count_active_links(remove_links(s, a, b), x, y) == if same_pair(a, b, x, y) {
            0nat
        } else {
            count_active_links(s, x, y)
        },
    decreases s.len(),
{
    if s.len() == 0 {
    } else {
        lemma_remove_links_counts(s.drop_last(), a, b, x, y, k);
        if !links(s.last(), a, b) {
            lemma_counts_push(remove_links(s.drop_last(), a, b), s.last(), x, y, k);
        }
    }
}

/// Removing the pending edges from `a` to `b` empties exactly that directed
/// count and lowers the link counts of the pair by it.
pub proof fn lemma_remove_pending_counts(
    s: Seq<EdgeModel>,
    a: Seq<char>,
    b: Seq<char>,
    x: Seq<char>,
    y: Seq<char>,
    k: RelKind,
)
    ensures
        count_dir(remove_pending(s, a, b), x, y, k) == if x == a && y == b && k
            is Pending {
            0nat
        } else {
            count_dir(s, x, y, k)
        },
        count_links(s, x, y) == count_links(remove_pending(s, a, b), x, y) + if same_pair(
            a,
            b,
            x,
            y,
        ) {
            count_dir(s, a, b, RelKind::Pending)
        } else {
            0nat
        },
        count_active_links(s, x, y) == count_active_links(remove_pending(s, a, b), x, y)
            + if same_pair(a, b, x, y) {
            count_dir(s, a, b, RelKind::Pending)
        } else {
            0nat
        },
    decreases s.len(),
{
    if s.len() == 0 {
    } else {
        lemma_remove_pending_counts(s.drop_last(), a, b, x, y, k);
        if !matches_dir(s.last(), a, b, RelKind::Pending) {
            lemma_counts_push(remove_pending(s.drop_last(), a, b), s.last(), x, y, k);
        }
    }
}

/// Removing edges keeps the absence of self edges.
pub proof fn lemma_remove_links_no_self(s: Seq<EdgeModel>, a: Seq<char>, b: Seq<char>)
    requires
        no_self_edges(s),
    ensures
        no_self_edges(remove_links(s, a, b)),
    decreases s.len(),
{
    if s.len() == 0 {
    } else {
        assert(no_self_edges(s.drop_last())) by {
            assert forall|i: int|
                0 <= i < s.drop_last().len() implies (#[trigger] s.drop_last()[i]).from
                != s.drop_last()[i].to by {
                assert(s.drop_last()[i] == s[i]);
            }
        }
        lemma_remove_links_no_self(s.drop_last(), a, b);
        let rest = remove_links(s.drop_last(), a, b);
        if !links(s.last(), a, b) {
            assert forall|i: int|
                0 <= i < rest.push(s.last()).len() implies (#[trigger] rest.push(
                s.last(),
            )[i]).from != rest.push(s.last())[i].to by {
                if i < rest.len() {
                    assert(rest.push(s.last())[i] == rest[i]);
                } else {
                    assert(rest.push(s.last())[i] == s.last());
                    assert(s.last() == s[s.len() - 1]);
                }
            }
        }
    }
}

/// Removing pending edges keeps the absence of self edges.
pub proof fn lemma_remove_pending_no_self(s: Seq<EdgeModel>, a: Seq<char>, b: Seq<char>)
    requires
        no_self_edges(s),
    ensures
        no_self_edges(remove_pending(s, a, b)),
    decreases s.len(),
{
    if s.len() == 0 {
    } else {
        assert(no_self_edges(s.drop_last())) by {
            assert forall|i: int|
                0 <= i < s.drop_last().len() implies (#[trigger] s.drop_last()[i]).from
                != s.drop_last()[i].to by {
                assert(s.drop_last()[i] == s[i]);
            }
        }
        lemma_remove_pending_no_self(s.drop_last(), a, b);
        let rest = remove_pending(s.drop_last(), a, b);
        if !matches_dir(s.last(), a, b, RelKind::Pending) {
            assert forall|i: int|
                0 <= i < rest.push(s.last()).len() implies (#[trigger] rest.push(
                s.last(),
            )[i]).from != rest.push(s.last())[i].to by {
                if i < rest.len() {
                    assert(rest.push(s.last())[i] == rest[i]);
                } else {
                    assert(rest.push(s.last())[i] == s.last());
                    assert(s.last() == s[s.len() - 1]);
                }
            }
        }
    }
}

} // verus!
