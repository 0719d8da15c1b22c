//! The protocol-level facts the rest of the crate's contracts add up to:
//! quorum intersection (the combinatorial heart of agreement), the local
//! single-binding property of slots, and the total order of applied
//! requests.

use vstd::prelude::*;

use vstd::set_lib::{lemma_int_range, lemma_len_subset, set_int_range};

use crate::consensus::{committed_contiguous, Consensus};
use crate::state::State;
use crate::votes::{slot_voters, vote_matches, PhaseVote, PhaseVotes};
use crate::NodeId;

verus! {

/// Every voter a slot's tally lists comes from a recorded vote for that
/// slot, and — because no vote is recorded twice — each voter is listed
/// only once.
pub proof fn lemma_slot_voters_distinct(s: Seq<PhaseVote>, view: nat, seq_num: nat)
    requires
        forall|i: int, j: int| 0 <= i < j < s.len() ==> !(#[trigger] s[i] == #[trigger] s[j]),
    ensures
        slot_voters(s, view, seq_num).no_duplicates(),
        forall|k: int|
            0 <= k < slot_voters(s, view, seq_num).len() ==> (exists|i: int|
                0 <= i < s.len() && vote_matches(#[trigger] s[i], view, seq_num) && s[i].voter
                    == #[trigger] slot_voters(s, view, seq_num)[k]),
    decreases s.len(),
{
    if s.len() == 0 {
        assert(slot_voters(s, view, seq_num) =~= Seq::<NodeId>::empty());
    } else {
        lemma_slot_voters_distinct(s.drop_last(), view, seq_num);
        let whole = slot_voters(s, view, seq_num);
        let rest = slot_voters(s.drop_last(), view, seq_num);
        assert(whole == slot_voters(s, view, seq_num));
        assert forall|k: int|
            0 <= k < slot_voters(s, view, seq_num).len() implies (exists|i: int|
            0 <= i < s.len() && vote_matches(#[trigger] s[i], view, seq_num) && s[i].voter
                == #[trigger] slot_voters(s, view, seq_num)[k]) by {
            if vote_matches(s.last(), view, seq_num) && k == whole.len() - 1 {
                assert(vote_matches(s[s.len() - 1], view, seq_num) && s[s.len() - 1].voter
                    == whole[k]);
            } else {
                assert(whole[k] == rest[k]);
                assert(slot_voters(s.drop_last(), view, seq_num)[k] == rest[k]);
                let i = choose|i: int|
                    0 <= i < s.drop_last().len() && vote_matches(
                        #[trigger] s.drop_last()[i],
                        view,
                        seq_num,
                    ) && s.drop_last()[i].voter == rest[k];
                assert(vote_matches(s[i], view, seq_num) && s[i].voter == whole[k]);
            }
        }
        if vote_matches(s.last(), view, seq_num) {
            assert forall|k: int| 0 <= k < rest.len() implies rest[k] != s.last().voter by {
                assert(slot_voters(s.drop_last(), view, seq_num)[k] == rest[k]);
                let i = choose|i: int|
                    0 <= i < s.drop_last().len() && vote_matches(
                        #[trigger] s.drop_last()[i],
                        view,
                        seq_num,
                    ) && s.drop_last()[i].voter == rest[k];
                if rest[k] == s.last().voter {
                    assert(s[i].view == s[s.len() - 1].view && s[i].seq_num == s[s.len()
                        - 1].seq_num && s[i].voter == s[s.len() - 1].voter);
                    assert(s[i] == s[s.len() - 1]);
                }
            }
            assert forall|i: int, j: int|
                0 <= i < whole.len() && 0 <= j < whole.len() && i != j implies whole[i]
                != whole[j] by {
                if i < whole.len() - 1 && j < whole.len() - 1 {
                    assert(whole[i] == rest[i] && whole[j] == rest[j]);
                } else if i == whole.len() - 1 {
                    assert(whole[j] == rest[j] && whole[i] == s.last().voter);
                } else {
                    assert(whole[i] == rest[i] && whole[j] == s.last().voter);
                }
            }
        }
    }
}

/// The set of distinct replicas behind a slot's tally.
pub open spec fn voter_set(t: PhaseVotes, view: nat, seq_num: nat) -> Set<int> {
    t.voters(view, seq_num).map_values(|v: NodeId| v as int).to_set()
}

/// A well-formed tally's voter set is as large as its count, stays within
/// the cluster, and is finite.
pub proof fn lemma_voter_set_size(t: PhaseVotes, view: nat, seq_num: nat, num_nodes: int)
    requires
        t.wf(),
        forall|k: int| 0 <= k < t.votes@.len() ==> (#[trigger] t.votes@[k]).voter < num_nodes,
    ensures
        voter_set(t, view, seq_num).len() == t.count(view, seq_num),
        voter_set(t, view, seq_num).subset_of(vstd::set_lib::set_int_range(0, num_nodes)),
        voter_set(t, view, seq_num).finite(),
{
    broadcast use vstd::seq_lib::seq_to_set_is_finite;

    lemma_slot_voters_distinct(t.votes@, view, seq_num);
    let voters = t.voters(view, seq_num);
    let mapped = voters.map_values(|v: NodeId| v as int);
    assert forall|i: int, j: int|
        0 <= i < mapped.len() && 0 <= j < mapped.len() && i != j implies mapped[i]
        != mapped[j] by {
        assert(mapped[i] == voters[i] as int && mapped[j] == voters[j] as int);
        assert(voters[i] != voters[j]);
    }
    mapped.unique_seq_to_set();
    assert forall|x: int| voter_set(t, view, seq_num).contains(x) implies vstd::set_lib::set_int_range(
        0,
        num_nodes,
    ).contains(x) by {
        let k = choose|k: int| 0 <= k < mapped.len() && mapped[k] == x;
        assert(voters[k] as int == x);
        let i = choose|i: int|
            0 <= i < t.votes@.len() && vote_matches(#[trigger] t.votes@[i], view, seq_num)
                && t.votes@[i].voter == voters[k];
        assert(t.votes@[i].voter < num_nodes);
    }
}

/// Agreement between any two replicas: when each holds a commit (or
/// prepare) certificate for a slot — a quorum of `2f + 1` distinct recorded
/// votes — in a cluster of `n = 3f + 1` replicas of which at most `f` are
/// faulty, some replica that is not faulty voted in both certificates. An
/// honest replica votes for at most one digest per slot, so the two
/// certificates certify the same request.
pub proof fn lemma_certified_slots_share_honest_voter(
    tally_a: PhaseVotes,
    tally_b: PhaseVotes,
    view_a: nat,
    view_b: nat,
    seq_num: nat,
    faulty: Set<int>,
    num_nodes: int,
    num_faulty: int,
)
    requires
        tally_a.wf(),
        tally_b.wf(),
        num_faulty >= 0,
        num_nodes == 3 * num_faulty + 1,
        forall|k: int|
            0 <= k < tally_a.votes@.len() ==> (#[trigger] tally_a.votes@[k]).voter < num_nodes,
        forall|k: int|
            0 <= k < tally_b.votes@.len() ==> (#[trigger] tally_b.votes@[k]).voter < num_nodes,
        tally_a.count(view_a, seq_num) >= 2 * num_faulty + 1,
        tally_b.count(view_b, seq_num) >= 2 * num_faulty + 1,
        faulty.finite(),
        faulty.len() <= num_faulty,
    ensures
        exists|id: int|
            voter_set(tally_a, view_a, seq_num).contains(id) && voter_set(
                tally_b,
                view_b,
                seq_num,
            ).contains(id) && !faulty.contains(id),
{
    lemma_voter_set_size(tally_a, view_a, seq_num, num_nodes);
    lemma_voter_set_size(tally_b, view_b, seq_num, num_nodes);
    lemma_certificates_share_honest_replica(
        voter_set(tally_a, view_a, seq_num),
        voter_set(tally_b, view_b, seq_num),
        faulty,
        num_nodes,
        num_faulty,
    );
}

/// Inclusion-exclusion for finite sets: `|A ∪ B| + |A ∩ B| == |A| + |B|`.
pub proof fn lemma_len_union_intersect<A>(s1: Set<A>, s2: Set<A>)
    requires
        s1.finite(),
        s2.finite(),
    ensures
        s1.union(s2).len() + s1.intersect(s2).len() == s1.len() + s2.len(),
        s1.union(s2).finite(),
        s1.intersect(s2).finite(),
    decreases s1.len(),
{
    broadcast use vstd::set_lib::group_set_properties;

    if s1.is_empty() {
        assert(s1.union(s2) =~= s2);
        assert(s1.intersect(s2) =~= Set::<A>::empty());
    } else {
        let a = s1.choose();
        lemma_len_union_intersect(s1.remove(a), s2);
        if s2.contains(a) {
            assert(s1.remove(a).union(s2) =~= s1.union(s2));
            assert(s1.remove(a).intersect(s2) =~= s1.intersect(s2).remove(a));
            assert(s1.intersect(s2).contains(a));
        } else {
            assert(s1.remove(a).union(s2) =~= s1.union(s2).remove(a));
            assert(s1.remove(a).intersect(s2) =~= s1.intersect(s2));
            assert(s1.union(s2).contains(a));
        }
    }
}

/// In a cluster of `n = 3f + 1` replicas, any two quorums of `2f + 1`
/// replicas each overlap in at least `f + 1` replicas.
pub proof fn lemma_quorum_intersection(
    quorum_a: Set<int>,
    quorum_b: Set<int>,
    num_nodes: int,
    num_faulty: int,
)
    requires
        num_faulty >= 0,
        num_nodes == 3 * num_faulty + 1,
        quorum_a.subset_of(set_int_range(0, num_nodes)),
        quorum_b.subset_of(set_int_range(0, num_nodes)),
        quorum_a.len() >= 2 * num_faulty + 1,
        quorum_b.len() >= 2 * num_faulty + 1,
    ensures
        quorum_a.intersect(quorum_b).len() >= num_faulty + 1,
        quorum_a.intersect(quorum_b).finite(),
{
    lemma_int_range(0, num_nodes);
    lemma_len_subset(quorum_a, set_int_range(0, num_nodes));
    lemma_len_subset(quorum_b, set_int_range(0, num_nodes));
    lemma_len_union_intersect(quorum_a, quorum_b);
    assert(quorum_a.union(quorum_b).subset_of(set_int_range(0, num_nodes)));
    lemma_len_subset(quorum_a.union(quorum_b), set_int_range(0, num_nodes));
}

/// A finite, nonempty set contains something.
proof fn lemma_nonempty_member<A>(s: Set<A>)
    requires
        s.finite(),
        s.len() > 0,
    ensures
        exists|x: A| s.contains(x),
{
    if !(exists|x: A| s.contains(x)) {
        assert(s =~= Set::<A>::empty());
    }
}

/// Agreement, seen from the quorums: in a cluster of `n = 3f + 1` replicas
/// of which at most `f` are faulty, any two commit (or prepare) certificates
/// — quorums of `2f + 1` distinct attesting replicas — share at least one
/// replica that is not faulty. Since an honest replica attests to at most
/// one request digest per slot, two certificates for the same slot certify
/// the same request.
pub proof fn lemma_certificates_share_honest_replica(
    quorum_a: Set<int>,
    quorum_b: Set<int>,
    faulty: Set<int>,
    num_nodes: int,
    num_faulty: int,
)
    requires
        num_faulty >= 0,
        num_nodes == 3 * num_faulty + 1,
        quorum_a.subset_of(set_int_range(0, num_nodes)),
        quorum_b.subset_of(set_int_range(0, num_nodes)),
        quorum_a.len() >= 2 * num_faulty + 1,
        quorum_b.len() >= 2 * num_faulty + 1,
        faulty.finite(),
        faulty.len() <= num_faulty,
    ensures
        exists|id: int|
            quorum_a.contains(id) && quorum_b.contains(id) && !faulty.contains(id),
{
    lemma_quorum_intersection(quorum_a, quorum_b, num_nodes, num_faulty);
    let both = quorum_a.intersect(quorum_b);
    let honest_both = both.difference(faulty);
    let faulty_both = both.intersect(faulty);
    lemma_len_union_intersect(honest_both, faulty_both);
    assert(honest_both.union(faulty_both) =~= both);
    assert(honest_both.intersect(faulty_both) =~= Set::<int>::empty());
    assert(faulty_both.subset_of(faulty));
    lemma_len_subset(faulty_both, faulty);
    assert(honest_both.len() >= 1);
    lemma_nonempty_member(honest_both);
    let id = choose|id: int| honest_both.contains(id);
    assert(quorum_a.contains(id) && quorum_b.contains(id) && !faulty.contains(id));
}

/// Within one replica, a `(view, seq_num)` slot binds at most one request
/// digest: whatever two digests the slot is locally prepared for must be
/// the same digest (invariant I1 made into a law).
pub proof fn lemma_slot_binds_one_digest(
    s: State,
    view: nat,
    seq_num: nat,
    digest_a: Seq<u8>,
    digest_b: Seq<u8>,
)
    requires
        s.wf(),
        s.spec_prepared(view, seq_num, digest_a),
        s.spec_prepared(view, seq_num, digest_b),
    ensures
        digest_a == digest_b,
{
}

/// Total order: at any reachable engine state, the applied sequence numbers
/// are exactly the contiguous prefix `1 ..= last_seq_num_committed` — no
/// gaps, nothing beyond, and every prefix element applied.
pub proof fn lemma_total_order(c: Consensus)
    requires
        c.wf(),
    ensures
        forall|q: nat|
            #[trigger] c.state.message_bank.has_applied(q) <==> 1 <= q
                <= c.state.last_seq_num_committed as nat,
{
    assert(committed_contiguous(c.state));
}

} // verus!
