//! The derived per-replica state: current view, sequence counters, the
//! applied store, vote tallies and checkpoint bookkeeping, together with the
//! admission predicates that decide which protocol messages are accepted,
//! parked or dropped.

use vstd::prelude::*;

use crate::config::Config;
use crate::crypto::signature_valid;
use crate::message_bank::{pre_prepare_at, AppliedEntry, MessageBank};
use crate::messages::{
    commit_prehash, pre_prepare_prehash, prepare_prehash, request_digest, CheckPoint,
    ClientRequest, ClientResponse, Commit, PrePrepare, Prepare,
};
use crate::store::Store;
use crate::votes::PhaseVotes;
use crate::NodeId;

verus! {

/// What to do with an arriving phase message.
pub enum Admission {
    /// Preconditions met: accept and act on it.
    Accept,
    /// Signature and view are good but a precondition is not met yet: park
    /// it for reprocessing.
    Park,
    /// Byzantine or stale: drop silently.
    Drop,
}

/// The consensus-relevant state of one replica.
pub struct State {
    /// This replica's id.
    pub id: NodeId,
    /// The cluster configuration.
    pub config: Config,
    /// Current view.
    pub view: usize,
    /// The primary's next sequence number to assign.
    pub seq_num: usize,
    /// Highest sequence number applied to the store.
    pub last_seq_num_committed: usize,
    /// Whether this replica is waiting out a view change.
    pub in_view_change: bool,
    /// The applied key-value store.
    pub store: Store,
    /// Distinct prepare votes per slot.
    pub prepare_votes: PhaseVotes,
    /// Distinct commit votes per slot.
    pub commit_votes: PhaseVotes,
    /// Accepted checkpoint attestations, at most one per
    /// `(committed_seq_num, state_digest, id)`.
    pub checkpoint_votes: Vec<CheckPoint>,
    /// Sequence number of the latest stable checkpoint (0 before the first).
    pub last_stable_seq_num: usize,
    /// The `2f + 1` checkpoint messages that made it stable.
    pub stable_proof: Vec<CheckPoint>,
    /// Everything accepted or parked.
    pub message_bank: MessageBank,
}

impl State {
    pub open spec fn wf(&self) -> bool {
        &&& self.config.wf()
        &&& self.id < self.config.num_nodes
        &&& self.message_bank.wf()
        &&& self.prepare_votes.wf()
        &&& self.commit_votes.wf()
        &&& forall|i: int, j: int|
            0 <= i < j < self.checkpoint_votes@.len() ==> !(
            #[trigger] self.checkpoint_votes@[i].committed_seq_num
                == #[trigger] self.checkpoint_votes@[j].committed_seq_num
                && self.checkpoint_votes@[i]@.state_digest
                == self.checkpoint_votes@[j]@.state_digest && self.checkpoint_votes@[i].id
                == self.checkpoint_votes@[j].id)
    }

    /// A fresh replica in view 0 with an empty store.
    pub fn new(id: NodeId, config: Config) -> (r: State)
        requires
            config.wf(),
            id < config.num_nodes,
        ensures
            r.wf(),
            r.id == id,
            r.config == config,
            r.view == 0,
            r.seq_num == 0,
            r.last_seq_num_committed == 0,
            r.last_stable_seq_num == 0,
            !r.in_view_change,
            r.store@ == Map::<Seq<char>, u32>::empty(),
            r.store.journal() =~= Seq::<crate::store::StoreEntry>::empty(),
            r.message_bank.log@ =~= Seq::<crate::messages::Message>::empty(),
            r.message_bank.accepted_pre_prepares@ =~= Seq::<PrePrepare>::empty(),
            r.message_bank.outstanding_prepares@ =~= Seq::<Prepare>::empty(),
            r.message_bank.outstanding_commits@ =~= Seq::<Commit>::empty(),
            r.message_bank.accepted_commits_not_applied@ =~= Seq::<Commit>::empty(),
            r.message_bank.applied@ =~= Seq::<AppliedEntry>::empty(),
            r.prepare_votes.votes@ =~= Seq::<crate::votes::PhaseVote>::empty(),
            r.commit_votes.votes@ =~= Seq::<crate::votes::PhaseVote>::empty(),
            r.checkpoint_votes@ =~= Seq::<CheckPoint>::empty(),
            r.stable_proof@ =~= Seq::<CheckPoint>::empty(),
    {
        State {
            id,
            config,
            view: 0,
            seq_num: 0,
            last_seq_num_committed: 0,
            in_view_change: false,
            store: Store::new(),
            prepare_votes: PhaseVotes::new(),
            commit_votes: PhaseVotes::new(),
            checkpoint_votes: Vec::new(),
            last_stable_seq_num: 0,
            stable_proof: Vec::new(),
            message_bank: MessageBank::new(),
        }
    }

    /// This state with the view-change flag set to `b` and everything else
    /// unchanged.
    pub open spec fn spec_set_in_view_change(self, b: bool) -> State {
        State { in_view_change: b, ..self }
    }

    /// The primary of the current view.
    pub open spec fn spec_leader(&self) -> nat {
        self.config.spec_leader_of(self.view as nat)
    }

    /// The primary of the current view: `view mod n`.
    pub fn current_leader(&self) -> (r: NodeId)
        requires
            self.wf(),
        ensures
            r as nat == self.spec_leader(),
            r < self.config.num_nodes,
    {
        self.config.leader_of(self.view)
    }

    /// Whether the `(view, seq_num, digest)` slot has locally reached the
    /// prepared predicate: an accepted pre-prepare binding that digest plus
    /// a quorum of distinct prepare votes.
    pub open spec fn spec_prepared(&self, view: nat, seq_num: nat, digest: Seq<u8>) -> bool {
        &&& (pre_prepare_at(self.message_bank.accepted_pre_prepares@, view, seq_num) matches Some(
            pp,
        ) && pp@.client_request_digest == digest)
        &&& self.prepare_votes.count(view, seq_num) >= self.config.spec_quorum()
    }

    /// Admission rule for a pre-prepare (I1 included): right view, not in a
    /// view change, sent and signed by the current primary, digest really of
    /// the carried request, and the slot not yet bound. This reads I1's
    /// at-most-one-binding strictly: a redelivery of the already-accepted
    /// pre-prepare is refused like a conflicting one, since its slot is
    /// bound and everything it should trigger has already been triggered.
    pub open spec fn spec_should_accept_pre_prepare(&self, m: PrePrepare) -> bool {
        &&& !self.in_view_change
        &&& m.view == self.view
        &&& m.id as nat == self.spec_leader()
        &&& signature_valid(
            self.config.public_keys@[m.id as int]@,
            pre_prepare_prehash(m.view as nat, m.seq_num as nat, request_digest(m@.client_request)),
            m@.signature,
        )
        &&& m@.client_request_digest == request_digest(m@.client_request)
        &&& pre_prepare_at(self.message_bank.accepted_pre_prepares@, m.view as nat, m.seq_num as nat)
            is None
    }

    pub fn should_accept_pre_prepare(&self, m: &PrePrepare) -> (r: bool)
        requires
            self.wf(),
        ensures
            r == self.spec_should_accept_pre_prepare(*m),
    {
        if self.in_view_change {
            return false;
        }
        if m.view != self.view {
            return false;
        }
        if m.id != self.current_leader() {
            return false;
        }
        let pub_key = &self.config.public_keys[m.id];
        if !m.is_properly_signed_by(pub_key) {
            return false;
        }
        if !m.digest_matches() {
            return false;
        }
        match self.message_bank.get_pre_prepare(m.view, m.seq_num) {
            Some(_) => false,
            None => true,
        }
    }

    /// Admission rule for a prepare: dropped unless it is signed by its
    /// claimed sender and belongs to the current view outside a view change;
    /// accepted once the matching pre-prepare is in, parked otherwise.
    pub open spec fn spec_prepare_admission(&self, m: Prepare) -> Admission {
        if !(m.id < self.config.num_nodes && signature_valid(
            self.config.public_keys@[m.id as int]@,
            prepare_prehash(m.view as nat, m.seq_num as nat, m@.client_request_digest),
            m@.signature,
        ) && m.view == self.view && !self.in_view_change) {
            Admission::Drop
        } else if pre_prepare_at(
            self.message_bank.accepted_pre_prepares@,
            m.view as nat,
            m.seq_num as nat,
        ) matches Some(pp) && pp@.client_request_digest == m@.client_request_digest {
            Admission::Accept
        } else {
            Admission::Park
        }
    }

    pub fn prepare_admission(&self, m: &Prepare) -> (r: Admission)
        requires
            self.wf(),
        ensures
            r == self.spec_prepare_admission(*m),
    {
        if m.id >= self.config.num_nodes {
            return Admission::Drop;
        }
        let pub_key = &self.config.public_keys[m.id];
        if !m.is_properly_signed_by(pub_key) {
            return Admission::Drop;
        }
        if m.view != self.view || self.in_view_change {
            return Admission::Drop;
        }
        match self.message_bank.get_pre_prepare(m.view, m.seq_num) {
            Some(pp) => {
                let digests_equal = pp.client_request_digest == m.client_request_digest;
                proof {
                    if digests_equal {
                        assert(pp@.client_request_digest =~= m@.client_request_digest);
                    }
                }
                if digests_equal {
                    Admission::Accept
                } else {
                    Admission::Park
                }
            },
            None => Admission::Park,
        }
    }

    /// Admission rule for a commit: dropped unless signed, current-view and
    /// outside a view change; accepted once the slot has prepared with the
    /// same digest, parked otherwise.
    pub open spec fn spec_commit_admission(&self, m: Commit) -> Admission {
        if !(m.id < self.config.num_nodes && signature_valid(
            self.config.public_keys@[m.id as int]@,
            commit_prehash(m.view as nat, m.seq_num as nat, m@.client_request_digest),
            m@.signature,
        ) && m.view == self.view && !self.in_view_change) {
            Admission::Drop
        } else if self.spec_prepared(m.view as nat, m.seq_num as nat, m@.client_request_digest) {
            Admission::Accept
        } else {
            Admission::Park
        }
    }

    pub fn commit_admission(&self, m: &Commit) -> (r: Admission)
        requires
            self.wf(),
        ensures
            r == self.spec_commit_admission(*m),
    {
        if m.id >= self.config.num_nodes {
            return Admission::Drop;
        }
        let pub_key = &self.config.public_keys[m.id];
        if !m.is_properly_signed_by(pub_key) {
            return Admission::Drop;
        }
        if m.view != self.view || self.in_view_change {
            return Admission::Drop;
        }
        match self.message_bank.get_pre_prepare(m.view, m.seq_num) {
            Some(pp) => {
                let digests_equal = pp.client_request_digest == m.client_request_digest;
                proof {
                    if digests_equal {
                        assert(pp@.client_request_digest =~= m@.client_request_digest);
                    }
                }
                if digests_equal {
                    let votes = self.prepare_votes.count_votes(m.view, m.seq_num);
                    if votes >= self.config.quorum_size() {
                        Admission::Accept
                    } else {
                        Admission::Park
                    }
                } else {
                    Admission::Park
                }
            },
            None => Admission::Park,
        }
    }

    /// Client requests are processed whenever the replica is not waiting out
    /// a view change.
    pub fn should_process_client_request(&self, _r: &ClientRequest) -> (r: bool)
        ensures
            r == !self.in_view_change,
    {
        !self.in_view_change
    }

    /// Apply a committed-local request, or park its commit until its
    /// predecessor has been applied.
    ///
    /// When `commit.seq_num` is exactly the next sequence number, a `set`
    /// inserts its binding into the store and a `get` leaves the store
    /// unchanged; either way the committed counter advances and a signed
    /// success response for the client is produced and recorded. Any other
    /// sequence number leaves everything but the pending-commit buffer
    /// untouched.
    pub fn apply_commit(&mut self, request: &ClientRequest, commit: &Commit) -> (r: Option<
        ClientResponse,
    >)
        requires
            old(self).wf(),
        ensures
            final(self).wf(),
            final(self).id == old(self).id,
            final(self).config == old(self).config,
            final(self).view == old(self).view,
            final(self).seq_num == old(self).seq_num,
            final(self).in_view_change == old(self).in_view_change,
            final(self).last_stable_seq_num == old(self).last_stable_seq_num,
            final(self).prepare_votes == old(self).prepare_votes,
            final(self).commit_votes == old(self).commit_votes,
            final(self).checkpoint_votes == old(self).checkpoint_votes,
            final(self).stable_proof == old(self).stable_proof,
            final(self).message_bank.log == old(self).message_bank.log,
            final(self).message_bank.accepted_pre_prepares == old(
                self,
            ).message_bank.accepted_pre_prepares,
            final(self).message_bank.outstanding_prepares == old(
                self,
            ).message_bank.outstanding_prepares,
            final(self).message_bank.outstanding_commits == old(
                self,
            ).message_bank.outstanding_commits,
            commit.seq_num as nat != old(self).last_seq_num_committed as nat + 1 ==> {
                &&& r is None
                &&& final(self).store == old(self).store
                &&& final(self).last_seq_num_committed == old(self).last_seq_num_committed
                &&& final(self).message_bank.applied == old(self).message_bank.applied
                &&& (if old(self).message_bank.has_pending_commit(commit.seq_num as nat) {
                    final(self).message_bank.accepted_commits_not_applied@ == old(
                        self,
                    ).message_bank.accepted_commits_not_applied@
                } else {
                    &&& final(self).message_bank.accepted_commits_not_applied@.len() == old(
                        self,
                    ).message_bank.accepted_commits_not_applied@.len() + 1
                    &&& final(self).message_bank.accepted_commits_not_applied@.last()@ == commit@
                })
            },
            commit.seq_num as nat == old(self).last_seq_num_committed as nat + 1 ==> {
                &&& final(self).last_seq_num_committed as nat == old(
                    self,
                ).last_seq_num_committed as nat + 1
                &&& (match request.value {
                    Some(v) => final(self).store@ == old(self).store@.insert(request.key@, v),
                    None => final(self).store@ == old(self).store@,
                })
                &&& (r matches Some(resp) && resp.id == old(self).id && resp.time_stamp
                    == request.time_stamp && resp@.key == request@.key && resp.success == true
                    && resp@.value == (match request.value {
                    Some(v) => Some(v),
                    None => if old(self).store@.contains_key(request.key@) {
                        Some(old(self).store@[request.key@])
                    } else {
                        None
                    },
                }))
                &&& final(self).message_bank.accepted_commits_not_applied == old(
                    self,
                ).message_bank.accepted_commits_not_applied
                &&& final(self).message_bank.applied@ == old(self).message_bank.applied@.push(
                    final(self).message_bank.applied@.last(),
                )
                &&& final(self).message_bank.applied@.last().commit@ == commit@
                &&& final(self).message_bank.applied@.last().request == *request
                &&& final(self).message_bank.applied@.last().response@ == (r->0)@
            },
    {
        if self.last_seq_num_committed == usize::MAX || commit.seq_num
            != self.last_seq_num_committed + 1 {
            self.message_bank.park_pending_commit(commit.duplicate());
            return None;
        }
        let observed = match &request.value {
            Some(v) => {
                self.store.set(request.key.clone(), *v);
                Some(*v)
            },
            None => self.store.get(&request.key),
        };
        self.last_seq_num_committed = self.last_seq_num_committed + 1;
        let response = ClientResponse::new_with_signature(
            &self.config.key_pair_bytes,
            self.id,
            request.time_stamp,
            request.key.clone(),
            observed,
            true,
        );
        let entry = AppliedEntry {
            commit: commit.duplicate(),
            request: request.duplicate(),
            response: response.duplicate(),
        };
        self.message_bank.append_applied(entry);
        Some(response)
    }
}

} // verus!
