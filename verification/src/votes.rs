//! Vote tallies: who has voted for which `(view, seq_num)` slot in the
//! prepare and commit phases. Duplicate votes are never recorded, so a
//! tally's size is the number of distinct voters.

use vstd::prelude::*;

use crate::NodeId;

verus! {

/// One recorded phase vote.
pub struct PhaseVote {
    pub view: usize,
    pub seq_num: usize,
    pub voter: NodeId,
}

/// Whether a recorded vote belongs to the slot `(view, seq_num)`.
pub open spec fn vote_matches(t: PhaseVote, view: nat, seq_num: nat) -> bool {
    t.view as nat == view && t.seq_num as nat == seq_num
}

/// The voters recorded for the slot `(view, seq_num)`, in arrival order.
pub open spec fn slot_voters(s: Seq<PhaseVote>, view: nat, seq_num: nat) -> Seq<NodeId>
    decreases s.len(),
{
    if s.len() == 0 {
        Seq::empty()
    } else {
        let rest = slot_voters(s.drop_last(), view, seq_num);
        if vote_matches(s.last(), view, seq_num) {
            rest.push(s.last().voter)
        } else {
            rest
        }
    }
}

/// The votes that survive a stable checkpoint at `stable_seq_num`: those
/// for strictly later slots.
pub open spec fn votes_above(s: Seq<PhaseVote>, stable_seq_num: nat) -> Seq<PhaseVote>
    decreases s.len(),
{
    if s.len() == 0 {
        Seq::empty()
    } else {
        let rest = votes_above(s.drop_last(), stable_seq_num);
        if s.last().seq_num > stable_seq_num {
            rest.push(s.last())
        } else {
            rest
        }
    }
}

/// Distinct votes per `(view, seq_num)` slot, for one phase.
pub struct PhaseVotes {
    pub votes: Vec<PhaseVote>,
}

impl PhaseVotes {
    /// No vote is recorded twice.
    pub open spec fn wf(&self) -> bool {
        forall|i: int, j: int|
            0 <= i < j < self.votes@.len() ==> !(#[trigger] self.votes@[i]
                == #[trigger] self.votes@[j])
    }

    /// The voters recorded for a slot, in arrival order.
    pub open spec fn voters(&self, view: nat, seq_num: nat) -> Seq<NodeId> {
        slot_voters(self.votes@, view, seq_num)
    }

    /// How many distinct voters a slot has.
    pub open spec fn count(&self, view: nat, seq_num: nat) -> nat {
        self.voters(view, seq_num).len()
    }

    pub open spec fn has_vote(&self, view: nat, seq_num: nat, voter: NodeId) -> bool {
        exists|i: int|
            0 <= i < self.votes@.len() && vote_matches(#[trigger] self.votes@[i], view, seq_num)
                && self.votes@[i].voter == voter
    }

    pub fn new() -> (r: PhaseVotes)
        ensures
            r.wf(),
            r.votes@ =~= Seq::<PhaseVote>::empty(),
    {
        PhaseVotes { votes: Vec::new() }
    }

    /// Record `voter`'s vote for `(view, seq_num)`, unless it is already
    /// recorded. Returns whether the vote was new.
    pub fn insert(&mut self, view: usize, seq_num: usize, voter: NodeId) -> (newly: bool)
        requires
            old(self).wf(),
        ensures
            final(self).wf(),
            newly == !old(self).has_vote(view as nat, seq_num as nat, voter),
            newly ==> final(self).votes@ == old(self).votes@.push(
                PhaseVote { view, seq_num, voter },
            ),
            !newly ==> final(self).votes@ == old(self).votes@,
            final(self).voters(view as nat, seq_num as nat) == (if newly {
                old(self).voters(view as nat, seq_num as nat).push(voter)
            } else {
                old(self).voters(view as nat, seq_num as nat)
            }),
            forall|v2: nat, s2: nat|
                !(v2 == view as nat && s2 == seq_num as nat) ==> #[trigger] final(self).voters(
                    v2,
                    s2,
                ) == old(self).voters(v2, s2),
    {
        let mut i: usize = 0;
        while i < self.votes.len()
            invariant
                i <= self.votes@.len(),
                self.votes@ == old(self).votes@,
                old(self).wf(),
                forall|j: int|
                    0 <= j < i as int ==> !(vote_matches(
                        #[trigger] self.votes@[j],
                        view as nat,
                        seq_num as nat,
                    ) && self.votes@[j].voter == voter),
            decreases self.votes@.len() - i,
        {
            let t = &self.votes[i];
            if t.view == view && t.seq_num == seq_num && t.voter == voter {
                return false;
            }
            i = i + 1;
        }
        let new_vote = PhaseVote { view, seq_num, voter };
        self.votes.push(new_vote);
        proof {
            let pushed = old(self).votes@.push(new_vote);
            assert(pushed.drop_last() =~= old(self).votes@);
            assert forall|v2: nat, s2: nat|
                !(v2 == view as nat && s2 == seq_num as nat) implies #[trigger] slot_voters(
                pushed,
                v2,
                s2,
            ) == slot_voters(old(self).votes@, v2, s2) by {
                assert(!vote_matches(new_vote, v2, s2));
            }
        }
        true
    }

    /// Count the distinct voters recorded for `(view, seq_num)`.
    pub fn count_votes(&self, view: usize, seq_num: usize) -> (r: usize)
        ensures
            r as nat == self.count(view as nat, seq_num as nat),
    {
        let mut counted: usize = 0;
        let total: usize = self.votes.len();
        let mut remaining: usize = total;
        proof {
            assert(self.votes@.subrange(0, self.votes@.len() as int) =~= self.votes@);
        }
        while remaining > 0
            invariant
                self.votes@.len() == total,
                remaining <= total,
                counted + remaining <= total,
                counted + slot_voters(
                    self.votes@.subrange(0, remaining as int),
                    view as nat,
                    seq_num as nat,
                ).len() == self.count(view as nat, seq_num as nat),
            decreases remaining,
        {
            let t = &self.votes[remaining - 1];
            proof {
                assert(self.votes@.subrange(0, remaining as int).drop_last() =~= self.votes@
                    .subrange(0, remaining - 1));
                assert(self.votes@.subrange(0, remaining as int).last() == self.votes@[remaining
                    - 1]);
            }
            if t.view == view && t.seq_num == seq_num {
                counted = counted + 1;
            }
            remaining = remaining - 1;
        }
        proof {
            assert(self.votes@.subrange(0, 0) =~= Seq::<PhaseVote>::empty());
        }
        counted
    }

    /// Drop every vote for a slot at or below `stable_seq_num`, as a stable
    /// checkpoint makes those slots final.
    pub fn truncate(&mut self, stable_seq_num: usize)
        requires
            old(self).wf(),
        ensures
            final(self).wf(),
            final(self).votes@ == votes_above(old(self).votes@, stable_seq_num as nat),
    {
        let mut kept: Vec<PhaseVote> = Vec::new();
        let mut i: usize = 0;
        while i < self.votes.len()
            invariant
                i <= self.votes@.len(),
                self.votes@ == old(self).votes@,
                kept@ == votes_above(self.votes@.subrange(0, i as int), stable_seq_num as nat),
            decreases self.votes@.len() - i,
        {
            let t = &self.votes[i];
            proof {
                assert(self.votes@.subrange(0, i + 1).drop_last() =~= self.votes@.subrange(
                    0,
                    i as int,
                ));
                assert(self.votes@.subrange(0, i + 1).last() == self.votes@[i as int]);
            }
            if t.seq_num > stable_seq_num {
                kept.push(PhaseVote { view: t.view, seq_num: t.seq_num, voter: t.voter });
            }
            i = i + 1;
        }
        proof {
            assert(self.votes@.subrange(0, self.votes@.len() as int) =~= self.votes@);
            lemma_votes_above_distinct(self.votes@, stable_seq_num as nat);
        }
        self.votes = kept;
    }
}

/// Truncation keeps every surviving vote intact and introduces no
/// duplicates: the survivors are a subsequence of the original votes.
pub proof fn lemma_votes_above_distinct(s: Seq<PhaseVote>, stable_seq_num: nat)
    requires
        forall|i: int, j: int| 0 <= i < j < s.len() ==> !(#[trigger] s[i] == #[trigger] s[j]),
    ensures
        forall|i: int|
            0 <= i < votes_above(s, stable_seq_num).len() ==> exists|k: int|
                0 <= k < s.len() && #[trigger] s[k] == #[trigger] votes_above(s, stable_seq_num)[i],
        forall|i: int, j: int|
            0 <= i < j < votes_above(s, stable_seq_num).len() ==> !(#[trigger] votes_above(
                s,
                stable_seq_num,
            )[i] == #[trigger] votes_above(s, stable_seq_num)[j]),
    decreases s.len(),
{
    if s.len() > 0 {
        lemma_votes_above_distinct(s.drop_last(), stable_seq_num);
        let whole = votes_above(s, stable_seq_num);
        let rest = votes_above(s.drop_last(), stable_seq_num);
        assert forall|i: int|
            0 <= i < whole.len() implies exists|k: int|
            0 <= k < s.len() && #[trigger] s[k] == #[trigger] whole[i] by {
            if s.last().seq_num > stable_seq_num && i == whole.len() - 1 {
                assert(s[s.len() - 1] == whole[i]);
            } else {
                assert(whole[i] == rest[i]);
                let k = choose|k: int|
                    0 <= k < s.drop_last().len() && #[trigger] s.drop_last()[k] == rest[i];
                assert(s[k] == whole[i]);
            }
        }
        assert forall|i: int, j: int|
            0 <= i < j < whole.len() implies !(whole[i] == whole[j]) by {
            if s.last().seq_num > stable_seq_num && j == whole.len() - 1 {
                assert(whole[i] == rest[i]);
                let k = choose|k: int|
                    0 <= k < s.drop_last().len() && #[trigger] s.drop_last()[k] == rest[i];
                assert(!(s[k] == s[s.len() - 1]));
            } else {
                assert(whole[i] == rest[i] && whole[j] == rest[j]);
            }
        }
    }
}

} // verus!
