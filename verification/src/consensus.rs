//! The consensus engine: a single-owner state machine that consumes
//! `ConsensusCommand`s one at a time and emits the transport sends, internal
//! follow-up commands and timer arms each one requires. All mutation of the
//! replica's state happens here; the surrounding process only moves messages
//! and fires timers.

use vstd::prelude::*;

use crate::config::Config;
use crate::crypto::{sha512, sha512_of, signature_valid};
use crate::message_bank::pre_prepare_at;
use crate::messages::{
    request_digest, BroadCastMessage, CheckPoint, ClientRequest, Commit, ConsensusCommand,
    Message, NewView, NodeCommand, PrePrepare, Prepare, PreparedProof, SendMessage, ViewChange,
};
use crate::state::{Admission, State};
use crate::view_changer::ViewChanger;
use crate::NodeId;

verus! {

/// Everything one command's handling asks of the outside world.
pub struct Outcome {
    /// Sends and broadcasts for the transport.
    pub node_commands: Vec<NodeCommand>,
    /// Commands the engine wants re-enqueued for itself, in order.
    pub follow_ups: Vec<ConsensusCommand>,
    /// Requests that newly entered the wait set; each needs a timer armed
    /// which later hands back `InitViewChange` through the wait-set check.
    pub new_timers: Vec<ClientRequest>,
}

impl Outcome {
    pub fn empty() -> (r: Outcome)
        ensures
            r.node_commands@ =~= Seq::<NodeCommand>::empty(),
            r.follow_ups@ =~= Seq::<ConsensusCommand>::empty(),
            r.new_timers@ =~= Seq::<ClientRequest>::empty(),
    {
        Outcome { node_commands: Vec::new(), follow_ups: Vec::new(), new_timers: Vec::new() }
    }
}

/// Applied sequence numbers form the contiguous prefix
/// `1 ..= last_seq_num_committed`, with no gaps and nothing beyond.
pub open spec fn committed_contiguous(s: State) -> bool {
    forall|q: nat|
        #[trigger] s.message_bank.has_applied(q) <==> 1 <= q
            <= s.last_seq_num_committed as nat
}

/// What handling a client request does (spec section 4.3 ProcessMessage
/// and section 8 idempotence): nothing changes; during a view change the
/// request is dropped silently, a replay is answered with the recorded
/// response, and a fresh request is routed to the primary path or the
/// forwarding path.
pub open spec fn client_request_transition(
    pre: Consensus,
    post: Consensus,
    request: ClientRequest,
    r: Outcome,
) -> bool {
    &&& post == pre
    &&& (pre.state.in_view_change ==> r.node_commands@.len() == 0 && r.follow_ups@.len() == 0
        && r.new_timers@.len() == 0)
    &&& (!pre.state.in_view_change && pre.state.message_bank.has_applied_origin(
        request@.respond_addr,
        request@.time_stamp,
    ) ==> {
        &&& r.follow_ups@.len() == 0
        &&& r.new_timers@.len() == 0
        &&& r.node_commands@.len() == 1
        &&& (r.node_commands@[0] matches NodeCommand::SendMessageCommand(send)
            && send.destination@ == request@.respond_addr && (exists|i: int|
            0 <= i < pre.state.message_bank.applied@.len()
                && (#[trigger] pre.state.message_bank.applied@[i]).request@.respond_addr
                == request@.respond_addr && pre.state.message_bank.applied@[i].request@.time_stamp
                == request@.time_stamp && (send.message matches Message::ClientResponseMessage(
                resp,
            ) && resp@ == pre.state.message_bank.applied@[i].response@)))
    })
    &&& (!pre.state.in_view_change && !pre.state.message_bank.has_applied_origin(
        request@.respond_addr,
        request@.time_stamp,
    ) ==> {
        &&& r.node_commands@.len() == 0
        &&& r.follow_ups@.len() == 1
        &&& (if pre.id as nat != pre.state.spec_leader() {
            r.follow_ups@[0] matches ConsensusCommand::MisdirectedClientRequest(q) && q@
                == request@
        } else {
            r.follow_ups@[0] matches ConsensusCommand::InitPrePrepare(q) && q@ == request@
        })
    })
}

/// What forwarding a misdirected request does: the state proper is
/// untouched, one send carries the request to the current primary, the
/// request joins the wait set, and a timer is armed exactly when it is new
/// there.
pub open spec fn misdirected_transition(
    pre: Consensus,
    post: Consensus,
    request: ClientRequest,
    r: Outcome,
) -> bool {
    &&& post.state == pre.state
    &&& post.id == pre.id
    &&& post.view_changer.is_waiting(request@)
    &&& (forall|v: crate::messages::ClientRequestView|
        #[trigger] post.view_changer.is_waiting(v) == (pre.view_changer.is_waiting(v) || v
            == request@))
    &&& r.node_commands@.len() == 1
    &&& (r.node_commands@[0] matches NodeCommand::SendMessageCommand(send) && send.destination@
        == pre.state.config.peer_addrs@[pre.state.spec_leader() as int]@ && (send.message matches
    Message::ClientRequestMessage(q) && q@ == request@))
    &&& r.follow_ups@.len() == 0
    &&& r.new_timers@.len() == (if pre.view_changer.is_waiting(request@) {
        0int
    } else {
        1int
    })
}

/// What the primary's proposal step does: outside the guards (a view
/// change in progress, not being the primary, an exhausted counter —
/// nothing happens), the next sequence number is bound to the request in a
/// freshly signed pre-prepare, which is broadcast and processed locally.
pub open spec fn init_pre_prepare_transition(
    pre: Consensus,
    post: Consensus,
    request: ClientRequest,
    r: Outcome,
) -> bool {
    &&& post.view_changer == pre.view_changer
    &&& post.id == pre.id
    &&& ((pre.state.in_view_change || pre.id as nat != pre.state.spec_leader()
        || pre.state.seq_num == usize::MAX) ==> post == pre && r.node_commands@.len() == 0
        && r.follow_ups@.len() == 0)
    &&& (!(pre.state.in_view_change || pre.id as nat != pre.state.spec_leader()
        || pre.state.seq_num == usize::MAX) ==> {
        &&& post.state == (State { seq_num: post.state.seq_num, ..pre.state })
        &&& post.state.seq_num == pre.state.seq_num + 1
        &&& r.node_commands@.len() == 1
        &&& (r.node_commands@[0] matches NodeCommand::BroadCastMessageCommand(b) && (b.message
            matches Message::PrePrepareMessage(pp) && pp@.id == pre.id as nat && pp@.view
            == pre.state.view as nat && pp@.seq_num == pre.state.seq_num as nat + 1
            && pp@.client_request_digest == request_digest(request@) && pp@.client_request
            == request@))
        &&& r.follow_ups@.len() == 1
        &&& (r.follow_ups@[0] matches ConsensusCommand::AcceptPrePrepare(pp) && pp@.view
            == pre.state.view as nat && pp@.seq_num == pre.state.seq_num as nat + 1
            && pp@.client_request == request@)
    })
}

/// What entering the commit phase does: nothing changes; this replica's
/// commit vote for the prepared slot is signed, broadcast, and counted
/// locally.
pub open spec fn enter_commit_transition(
    pre: Consensus,
    post: Consensus,
    prepare: Prepare,
    r: Outcome,
) -> bool {
    &&& post == pre
    &&& r.node_commands@.len() == 1
    &&& (r.node_commands@[0] matches NodeCommand::BroadCastMessageCommand(b) && (b.message
        matches Message::CommitMessage(c) && c@.id == pre.id as nat && c@.view
        == pre.state.view as nat && c@.seq_num == prepare@.seq_num && c@.client_request_digest
        == prepare@.client_request_digest))
    &&& r.follow_ups@.len() == 1
    &&& (r.follow_ups@[0] matches ConsensusCommand::AcceptCommit(c) && c@.id == pre.id as nat
        && c@.view == pre.state.view as nat && c@.seq_num == prepare@.seq_num
        && c@.client_request_digest == prepare@.client_request_digest)
}

/// What accepting a pre-prepare does: a command that no longer passes
/// admission does nothing (silent drop); an admissible one binds the slot,
/// leaves all other state alone, starts waiting on the request, broadcasts
/// and locally counts this replica's prepare vote, and reprocesses parked
/// prepares for the slot.
pub open spec fn accept_pre_prepare_transition(
    pre: Consensus,
    post: Consensus,
    pre_prepare: PrePrepare,
    r: Outcome,
) -> bool {
    &&& (!pre.state.spec_should_accept_pre_prepare(pre_prepare) ==> post == pre
        && r.node_commands@.len() == 0 && r.follow_ups@.len() == 0 && r.new_timers@.len() == 0)
    &&& (pre.state.spec_should_accept_pre_prepare(pre_prepare) ==> {
        &&& post.id == pre.id
        &&& post.state == (State { message_bank: post.state.message_bank, ..pre.state })
        &&& (pre_prepare_at(
            post.state.message_bank.accepted_pre_prepares@,
            pre_prepare.view as nat,
            pre_prepare.seq_num as nat,
        ) matches Some(q) && q@ == pre_prepare@)
        &&& post.state.message_bank.applied == pre.state.message_bank.applied
        &&& post.view_changer.is_waiting(pre_prepare@.client_request)
        &&& r.node_commands@.len() == 1
        &&& (r.node_commands@[0] matches NodeCommand::BroadCastMessageCommand(b) && (b.message
            matches Message::PrepareMessage(p) && p@.id == pre.id as nat && p@.view
            == pre_prepare@.view && p@.seq_num == pre_prepare@.seq_num && p@.client_request_digest
            == pre_prepare@.client_request_digest))
        &&& r.follow_ups@.len() >= 1
        &&& (r.follow_ups@[0] matches ConsensusCommand::AcceptPrepare(p) && p@.id == pre.id as nat
            && p@.view == pre_prepare@.view && p@.seq_num == pre_prepare@.seq_num
            && p@.client_request_digest == pre_prepare@.client_request_digest)
        &&& (forall|k: int|
            1 <= k < r.follow_ups@.len() ==> (#[trigger] r.follow_ups@[k] matches
            ConsensusCommand::AcceptPrepare(p) && crate::messages::prepare_corresponds(
                p@,
                pre_prepare@,
            )))
    })
}

/// What accepting a prepare does: a command that no longer passes
/// admission does nothing (silent drop); an admissible one is unparked,
/// logged and counted once per voter, the commit phase is entered exactly
/// when the tally first reaches the quorum, and parked commits for the
/// slot are reprocessed.
pub open spec fn accept_prepare_transition(
    pre: Consensus,
    post: Consensus,
    prepare: Prepare,
    r: Outcome,
) -> bool {
    &&& (!(pre.state.spec_prepare_admission(prepare) is Accept) ==> post == pre
        && r.node_commands@.len() == 0 && r.follow_ups@.len() == 0 && r.new_timers@.len() == 0)
    &&& (pre.state.spec_prepare_admission(prepare) is Accept ==> {
        &&& post.id == pre.id
        &&& post.view_changer == pre.view_changer
        &&& post.state == (State {
            message_bank: post.state.message_bank,
            prepare_votes: post.state.prepare_votes,
            ..pre.state
        })
        &&& post.state.message_bank.applied == pre.state.message_bank.applied
        &&& post.state.prepare_votes.voters(prepare.view as nat, prepare.seq_num as nat) == (
        if pre.state.prepare_votes.has_vote(prepare.view as nat, prepare.seq_num as nat, prepare.id) {
            pre.state.prepare_votes.voters(prepare.view as nat, prepare.seq_num as nat)
        } else {
            pre.state.prepare_votes.voters(prepare.view as nat, prepare.seq_num as nat).push(
                prepare.id,
            )
        })
        &&& r.node_commands@.len() == 0
        &&& ((!pre.state.prepare_votes.has_vote(
            prepare.view as nat,
            prepare.seq_num as nat,
            prepare.id,
        ) && post.state.prepare_votes.count(prepare.view as nat, prepare.seq_num as nat)
            == pre.state.config.spec_quorum()) <==> (r.follow_ups@.len() >= 1 && (r.follow_ups@[0]
            matches ConsensusCommand::EnterCommit(p) && p@ == prepare@)))
        &&& (forall|k: int|
            0 <= k < r.follow_ups@.len() && !(#[trigger] r.follow_ups@[k] matches
            ConsensusCommand::EnterCommit(_)) ==> (r.follow_ups@[k] matches
            ConsensusCommand::AcceptCommit(c) && crate::messages::commit_corresponds(c@, prepare@)))
    })
}

/// What accepting a commit does: a command that no longer passes
/// admission does nothing (silent drop); an admissible one is unparked,
/// logged and counted once per voter, and the request is applied exactly
/// when the tally first reaches the quorum.
pub open spec fn accept_commit_transition(
    pre: Consensus,
    post: Consensus,
    commit: Commit,
    r: Outcome,
) -> bool {
    &&& (!(pre.state.spec_commit_admission(commit) is Accept) ==> post == pre
        && r.node_commands@.len() == 0 && r.follow_ups@.len() == 0 && r.new_timers@.len() == 0)
    &&& (pre.state.spec_commit_admission(commit) is Accept ==> {
        &&& post.id == pre.id
        &&& post.view_changer == pre.view_changer
        &&& post.state == (State {
            message_bank: post.state.message_bank,
            commit_votes: post.state.commit_votes,
            ..pre.state
        })
        &&& post.state.message_bank.applied == pre.state.message_bank.applied
        &&& post.state.commit_votes.voters(commit.view as nat, commit.seq_num as nat) == (
        if pre.state.commit_votes.has_vote(commit.view as nat, commit.seq_num as nat, commit.id) {
            pre.state.commit_votes.voters(commit.view as nat, commit.seq_num as nat)
        } else {
            pre.state.commit_votes.voters(commit.view as nat, commit.seq_num as nat).push(
                commit.id,
            )
        })
        &&& r.node_commands@.len() == 0
        &&& ((!pre.state.commit_votes.has_vote(
            commit.view as nat,
            commit.seq_num as nat,
            commit.id,
        ) && post.state.commit_votes.count(commit.view as nat, commit.seq_num as nat)
            == pre.state.config.spec_quorum()) <==> (r.follow_ups@.len() == 1 && (r.follow_ups@[0]
            matches ConsensusCommand::ApplyCommit(c) && c@ == commit@)))
        &&& r.follow_ups@.len() <= 1
    })
}

/// What applying a committed-local request does: applied history only
/// grows, view and view-change status are untouched; with no accepted
/// pre-prepare for the slot nothing happens, and when the commit is for
/// the next sequence number the pre-prepare's request is applied, recorded
/// and answered to its client.
pub open spec fn apply_commit_transition(
    pre: Consensus,
    post: Consensus,
    commit: Commit,
    r: Outcome,
) -> bool {
    &&& post.id == pre.id
    &&& post.state.last_seq_num_committed >= pre.state.last_seq_num_committed
    &&& post.state.view == pre.state.view
    &&& post.state.in_view_change == pre.state.in_view_change
    &&& post.state.last_stable_seq_num == pre.state.last_stable_seq_num
    &&& (forall|k: int|
        0 <= k < pre.state.message_bank.applied@.len()
            ==> #[trigger] post.state.message_bank.applied@[k]
            == pre.state.message_bank.applied@[k])
    &&& (pre_prepare_at(
        pre.state.message_bank.accepted_pre_prepares@,
        commit.view as nat,
        commit.seq_num as nat,
    ) is None ==> post == pre && r.node_commands@.len() == 0 && r.follow_ups@.len() == 0)
    &&& (pre_prepare_at(
        pre.state.message_bank.accepted_pre_prepares@,
        commit.view as nat,
        commit.seq_num as nat,
    ) matches Some(pp) ==> commit.seq_num as nat == pre.state.last_seq_num_committed as nat + 1
        ==> {
        &&& post.state.message_bank.has_applied(commit.seq_num as nat)
        &&& post.state.message_bank.applied@.len() > pre.state.message_bank.applied@.len()
        &&& (post.state.message_bank.applied@[pre.state.message_bank.applied@.len() as int].request@
            == pp@.client_request)
        &&& (post.state.message_bank.applied@[pre.state.message_bank.applied@.len() as int].commit@
            == commit@)
        &&& r.node_commands@.len() >= 1
        &&& (r.node_commands@[0] matches NodeCommand::SendMessageCommand(send)
            && send.destination@ == pp@.client_request.respond_addr && (send.message matches
        Message::ClientResponseMessage(resp) && resp@.time_stamp == pp@.client_request.time_stamp
            && resp@.key == pp@.client_request.key && resp@.success == true))
    })
}

/// Every prepared proof a view change carries is sound: its slot is above
/// the stable checkpoint, locally prepared with a quorum of prepare votes,
/// its pre-prepare is the accepted binding of that slot, and its prepares
/// all belong to that slot.
pub open spec fn view_change_proofs_sound(pre: Consensus, vc: ViewChange) -> bool {
    forall|k: int|
        0 <= k < vc.subsequent_prepares@.len() ==> {
            &&& (#[trigger] vc.subsequent_prepares@[k]).pre_prepare.seq_num
                > pre.state.last_stable_seq_num
            &&& pre.state.prepare_votes.count(
                vc.subsequent_prepares@[k].pre_prepare.view as nat,
                vc.subsequent_prepares@[k].pre_prepare.seq_num as nat,
            ) >= pre.state.config.spec_quorum()
            &&& (pre_prepare_at(
                pre.state.message_bank.accepted_pre_prepares@,
                vc.subsequent_prepares@[k].pre_prepare.view as nat,
                vc.subsequent_prepares@[k].pre_prepare.seq_num as nat,
            ) matches Some(q) && q@ == vc.subsequent_prepares@[k].pre_prepare@)
            &&& (forall|j: int|
                0 <= j < vc.subsequent_prepares@[k].prepares@.len() ==> (
                #[trigger] vc.subsequent_prepares@[k].prepares@[j]).view
                    == vc.subsequent_prepares@[k].pre_prepare.view
                    && vc.subsequent_prepares@[k].prepares@[j].seq_num
                    == vc.subsequent_prepares@[k].pre_prepare.seq_num)
        }
}

/// Every slot above the stable checkpoint that reached the prepared
/// predicate is covered by some carried proof.
pub open spec fn view_change_proofs_complete(pre: Consensus, vc: ViewChange) -> bool {
    forall|i: int|
        0 <= i < pre.state.message_bank.accepted_pre_prepares@.len()
            && (#[trigger] pre.state.message_bank.accepted_pre_prepares@[i]).seq_num
            > pre.state.last_stable_seq_num && pre.state.prepare_votes.count(
            pre.state.message_bank.accepted_pre_prepares@[i].view as nat,
            pre.state.message_bank.accepted_pre_prepares@[i].seq_num as nat,
        ) >= pre.state.config.spec_quorum() ==> (exists|k: int|
            0 <= k < vc.subsequent_prepares@.len()
                && (#[trigger] vc.subsequent_prepares@[k]).pre_prepare@
                == pre.state.message_bank.accepted_pre_prepares@[i]@)
}

/// What initiating a view change does (spec section 4.3 InitViewChange):
/// ignored while one is already running or at the current primary;
/// otherwise the replica stops taking part in its view and broadcasts a
/// signed view change for the next one, carrying the recorded stable
/// checkpoint proof and one sound prepared proof for exactly the locally
/// prepared slots above it.
pub open spec fn init_view_change_transition(pre: Consensus, post: Consensus, r: Outcome) -> bool {
    &&& ((pre.state.in_view_change || pre.state.spec_leader() == pre.id as nat || pre.state.view
        == usize::MAX) ==> post == pre && r.node_commands@.len() == 0 && r.follow_ups@.len() == 0
        && r.new_timers@.len() == 0)
    &&& (!(pre.state.in_view_change || pre.state.spec_leader() == pre.id as nat || pre.state.view
        == usize::MAX) ==> {
        &&& post.id == pre.id
        &&& post.state == pre.state.spec_set_in_view_change(true)
        &&& r.node_commands@.len() == 1
        &&& r.new_timers@.len() == 0
        &&& r.follow_ups@.len() == 1
        &&& (r.follow_ups@[0] matches ConsensusCommand::AcceptViewChange(vc) && vc@.id
            == pre.id as nat && vc@.new_view == pre.state.view as nat + 1
            && vc@.last_stable_seq_num == pre.state.last_stable_seq_num as nat
            && vc.checkpoint_proof@.len() == pre.state.stable_proof@.len() && (forall|x: int|
            0 <= x < vc.checkpoint_proof@.len() ==> (#[trigger] vc.checkpoint_proof@[x])@
                == pre.state.stable_proof@[x]@) && view_change_proofs_sound(pre, vc)
            && view_change_proofs_complete(pre, vc) && (r.node_commands@[0] matches
        NodeCommand::BroadCastMessageCommand(b) && (b.message matches Message::ViewChangeMessage(
            vcb,
        ) && vcb@ == vc@)))
    })
}

/// Whether a recorded checkpoint attestation matches `(seq_num, digest)`.
pub open spec fn checkpoint_vote_matches(cv: CheckPoint, seq_num: nat, digest: Seq<u8>) -> bool {
    cv.committed_seq_num as nat == seq_num && cv@.state_digest == digest
}

/// How many recorded attestations match `(seq_num, digest)`; senders are
/// distinct by the state's well-formedness.
pub open spec fn checkpoint_votes_for(s: Seq<CheckPoint>, seq_num: nat, digest: Seq<u8>) -> nat
    decreases s.len(),
{
    if s.len() == 0 {
        0
    } else {
        checkpoint_votes_for(s.drop_last(), seq_num, digest) + (if checkpoint_vote_matches(
            s.last(),
            seq_num,
            digest,
        ) {
            1nat
        } else {
            0nat
        })
    }
}

/// Whether this sender's attestation to this `(seq_num, digest)` is
/// already tallied.
pub open spec fn has_checkpoint_vote(pre: Consensus, cp: CheckPoint) -> bool {
    exists|i: int|
        0 <= i < pre.state.checkpoint_votes@.len() && checkpoint_vote_matches(
            #[trigger] pre.state.checkpoint_votes@[i],
            cp.committed_seq_num as nat,
            cp@.state_digest,
        ) && pre.state.checkpoint_votes@[i].id == cp.id
}

/// The admission rule for a checkpoint attestation: a known sender whose
/// signature verifies, about a sequence number above the current stable
/// mark.
pub open spec fn checkpoint_admissible(pre: Consensus, cp: CheckPoint) -> bool {
    &&& cp.id < pre.state.config.num_nodes
    &&& signature_valid(
        pre.state.config.public_keys@[cp.id as int]@,
        crate::messages::checkpoint_prehash(cp.committed_seq_num as nat, cp@.state_digest),
        cp@.signature,
    )
    &&& cp.committed_seq_num > pre.state.last_stable_seq_num
}

/// Whether this attestation is the one that makes its checkpoint stable: it
/// is admissible and new, and with it `2f + 1` distinct replicas attest to
/// the same `(seq_num, digest)`.
pub open spec fn checkpoint_stabilizes(pre: Consensus, cp: CheckPoint) -> bool {
    &&& checkpoint_admissible(pre, cp)
    &&& !has_checkpoint_vote(pre, cp)
    &&& checkpoint_votes_for(
        pre.state.checkpoint_votes@,
        cp.committed_seq_num as nat,
        cp@.state_digest,
    ) + 1 >= pre.state.config.spec_quorum()
}

/// What tallying a checkpoint attestation does (spec section 4.3
/// AcceptCheckpoint): nothing is emitted; an inadmissible or repeated
/// attestation changes nothing (silent drop); a new admissible one is
/// tallied; and exactly the stabilizing one advances the stable mark to
/// its sequence number and garbage-collects everything at or below it.
pub open spec fn accept_checkpoint_transition(
    pre: Consensus,
    post: Consensus,
    cp: CheckPoint,
    r: Outcome,
) -> bool {
    &&& r.node_commands@.len() == 0
    &&& r.follow_ups@.len() == 0
    &&& r.new_timers@.len() == 0
    &&& post.id == pre.id
    &&& post.view_changer == pre.view_changer
    &&& post.state.view == pre.state.view
    &&& post.state.seq_num == pre.state.seq_num
    &&& post.state.in_view_change == pre.state.in_view_change
    &&& post.state.last_seq_num_committed == pre.state.last_seq_num_committed
    &&& post.state.store == pre.state.store
    &&& (!(checkpoint_admissible(pre, cp) && !has_checkpoint_vote(pre, cp)) ==> post == pre)
    &&& (checkpoint_admissible(pre, cp) && !has_checkpoint_vote(pre, cp) ==> {
        &&& post.state.checkpoint_votes@.len() == pre.state.checkpoint_votes@.len() + 1
        &&& post.state.checkpoint_votes@.last()@ == cp@
        &&& (checkpoint_stabilizes(pre, cp) <==> post.state.last_stable_seq_num
            == cp.committed_seq_num)
        &&& (!checkpoint_stabilizes(pre, cp) ==> post.state.last_stable_seq_num
            == pre.state.last_stable_seq_num && post.state.message_bank
            == pre.state.message_bank && post.state.prepare_votes == pre.state.prepare_votes
            && post.state.commit_votes == pre.state.commit_votes && post.state.stable_proof
            == pre.state.stable_proof)
        &&& (checkpoint_stabilizes(pre, cp) ==> {
            &&& post.state.last_stable_seq_num > pre.state.last_stable_seq_num
            &&& crate::message_bank::log_retention_ok(
                pre.state.message_bank.log@,
                post.state.message_bank.log@,
                cp.committed_seq_num as nat,
            )
            &&& (forall|j: int|
                0 <= j < post.state.message_bank.accepted_pre_prepares@.len()
                    ==> #[trigger] post.state.message_bank.accepted_pre_prepares@[j].seq_num
                    > cp.committed_seq_num)
            &&& post.state.prepare_votes.votes@ == crate::votes::votes_above(
                pre.state.prepare_votes.votes@,
                cp.committed_seq_num as nat,
            )
            &&& post.state.commit_votes.votes@ == crate::votes::votes_above(
                pre.state.commit_votes.votes@,
                cp.committed_seq_num as nat,
            )
        })
    })
}

/// Whether `p` backs the slot and digest bound by `pp`: it votes for that
/// slot and digest and is properly signed by its claimed sender.
pub open spec fn prepare_backs(cfg: Config, pp: PrePrepare, p: Prepare) -> bool {
    &&& crate::messages::prepare_corresponds(p@, pp@)
    &&& p.id < cfg.num_nodes
    &&& signature_valid(
        cfg.public_keys@[p.id as int]@,
        crate::messages::prepare_prehash(p.view as nat, p.seq_num as nat, p@.client_request_digest),
        p@.signature,
    )
}

/// How many of the carried prepares back the pre-prepare.
pub open spec fn backing_count(cfg: Config, pp: PrePrepare, prepares: Seq<Prepare>) -> nat
    decreases prepares.len(),
{
    if prepares.len() == 0 {
        0
    } else {
        backing_count(cfg, pp, prepares.drop_last()) + (if prepare_backs(cfg, pp, prepares.last()) {
            1nat
        } else {
            0nat
        })
    }
}

/// No two carried prepares claim the same sender.
pub open spec fn prepares_distinct_ids(s: Seq<Prepare>) -> bool {
    forall|a: int, b: int| 0 <= a < b < s.len() ==> (#[trigger] s[a]).id != (#[trigger] s[b]).id
}

/// Whether a claimed prepared proof really is one: one prepare per sender,
/// and a quorum of `2f + 1` of them back the pre-prepare's slot and digest.
pub open spec fn spec_proof_backed(cfg: Config, proof_entry: PreparedProof) -> bool {
    &&& prepares_distinct_ids(proof_entry.prepares@)
    &&& backing_count(cfg, proof_entry.pre_prepare, proof_entry.prepares@) >= 2 * (
    cfg.num_faulty as nat) + 1
}

/// No two carried view changes claim the same sender.
pub open spec fn view_changes_distinct_ids(s: Seq<ViewChange>) -> bool {
    forall|a: int, b: int| 0 <= a < b < s.len() ==> (#[trigger] s[a]).id != (#[trigger] s[b]).id
}

/// Whether a view change is admissible into the tally: a known sender
/// whose signature verifies and whose claimed prepared proofs all check
/// out.
pub open spec fn view_change_admissible(pre: Consensus, vc: ViewChange) -> bool {
    &&& vc.id < pre.state.config.num_nodes
    &&& signature_valid(
        pre.state.config.public_keys@[vc.id as int]@,
        crate::messages::view_change_prehash(vc.new_view as nat, vc.last_stable_seq_num as nat),
        vc@.signature,
    )
    &&& (forall|j: int|
        0 <= j < vc.subsequent_prepares@.len() ==> spec_proof_backed(
            pre.state.config,
            #[trigger] vc.subsequent_prepares@[j],
        ))
}

/// Whether a new-view announcement is justified: it is for a later view,
/// sent by that view's primary, and backed by at least `2f + 1` view
/// changes for that view from distinct senders, each properly signed with
/// its prepared proofs checking out, and every carried pre-prepare is
/// signed by the new primary for the new view over the digest of its
/// request.
pub open spec fn spec_new_view_acceptable(pre: Consensus, nv: NewView) -> bool {
    &&& nv.view > pre.state.view
    &&& nv.id < pre.state.config.num_nodes
    &&& nv.id as nat == pre.state.config.spec_leader_of(nv.view as nat)
    &&& view_changes_distinct_ids(nv.view_change_messages@)
    &&& nv.view_change_messages@.len() >= pre.state.config.spec_quorum()
    &&& (forall|k: int|
        0 <= k < nv.view_change_messages@.len() ==> (#[trigger] nv.view_change_messages@[k]).new_view
            == nv.view && view_change_admissible(pre, nv.view_change_messages@[k]))
    &&& (forall|k: int|
        0 <= k < nv.outstanding_pre_prepares@.len() ==> {
            &&& (#[trigger] nv.outstanding_pre_prepares@[k]).view == nv.view
            &&& nv.outstanding_pre_prepares@[k].id == nv.id
            &&& nv.outstanding_pre_prepares@[k]@.client_request_digest == request_digest(
                nv.outstanding_pre_prepares@[k]@.client_request,
            )
            &&& signature_valid(
                pre.state.config.public_keys@[nv.id as int]@,
                crate::messages::pre_prepare_prehash(
                    nv.outstanding_pre_prepares@[k].view as nat,
                    nv.outstanding_pre_prepares@[k].seq_num as nat,
                    request_digest(nv.outstanding_pre_prepares@[k]@.client_request),
                ),
                nv.outstanding_pre_prepares@[k]@.signature,
            )
        })
}

/// What accepting a new-view announcement does (spec section 4.3
/// AcceptNewView): an unjustified one changes nothing and emits nothing
/// (silent drop); a justified one — and exactly a justified one — enters
/// the announced view, leaves the view-change state, takes each carried
/// pre-prepare as freshly arrived, re-routes every request still being
/// waited on, and re-arms its timer. Vote tallies need no reset here: they
/// are keyed by view, so the new view starts with empty tallies.
pub open spec fn accept_new_view_transition(
    pre: Consensus,
    post: Consensus,
    nv: NewView,
    r: Outcome,
) -> bool {
    &&& r.node_commands@.len() == 0
    &&& post.id == pre.id
    &&& post.state.view >= pre.state.view
    &&& post.state.last_seq_num_committed == pre.state.last_seq_num_committed
    &&& post.state.last_stable_seq_num == pre.state.last_stable_seq_num
    &&& post.state.store == pre.state.store
    &&& post.state.message_bank == pre.state.message_bank
    &&& (!spec_new_view_acceptable(pre, nv) ==> post == pre && r.follow_ups@.len() == 0
        && r.new_timers@.len() == 0)
    &&& (spec_new_view_acceptable(pre, nv) ==> {
        &&& post.state.view == nv.view
        &&& !post.state.in_view_change
        &&& post.view_changer == pre.view_changer
        &&& r.follow_ups@.len() == nv.outstanding_pre_prepares@.len()
            + pre.view_changer.wait_set@.len()
        &&& (forall|k: int|
            0 <= k < nv.outstanding_pre_prepares@.len() ==> (#[trigger] r.follow_ups@[k] matches
            ConsensusCommand::ProcessMessage(m) && (m matches Message::PrePrepareMessage(p) && p@
                == nv.outstanding_pre_prepares@[k]@)))
        &&& (forall|k: int|
            nv.outstanding_pre_prepares@.len() <= k < r.follow_ups@.len() ==> (
            #[trigger] r.follow_ups@[k] matches ConsensusCommand::ProcessMessage(m) && (m matches
            Message::ClientRequestMessage(q) && q@ == pre.view_changer.wait_set@[k
                - nv.outstanding_pre_prepares@.len()]@)))
        &&& r.new_timers@.len() == pre.view_changer.wait_set@.len()
        &&& (forall|k: int|
            0 <= k < r.new_timers@.len() ==> (#[trigger] r.new_timers@[k])@
                == pre.view_changer.wait_set@[k]@)
    })
}

/// The larger of two naturals.
pub open spec fn nat_max(a: nat, b: nat) -> nat {
    if a >= b {
        a
    } else {
        b
    }
}

/// The newest stable checkpoint any of the view changes attests to.
pub open spec fn max_stable_of(s: Seq<ViewChange>) -> nat
    decreases s.len(),
{
    if s.len() == 0 {
        0
    } else {
        nat_max(max_stable_of(s.drop_last()), s.last().last_stable_seq_num as nat)
    }
}

/// The highest slot among a sequence of prepared proofs.
pub open spec fn proofs_max_slot(s: Seq<PreparedProof>) -> nat
    decreases s.len(),
{
    if s.len() == 0 {
        0
    } else {
        nat_max(proofs_max_slot(s.drop_last()), s.last().pre_prepare.seq_num as nat)
    }
}

/// The highest prepared slot any of the view changes proves.
pub open spec fn max_slot_of(s: Seq<ViewChange>) -> nat
    decreases s.len(),
{
    if s.len() == 0 {
        0
    } else {
        nat_max(max_slot_of(s.drop_last()), proofs_max_slot(s.last().subsequent_prepares@))
    }
}

/// Whether some carried view change proves a prepared slot at `seq_num`.
pub open spec fn has_proof_at(s: Seq<ViewChange>, seq_num: nat) -> bool {
    exists|i: int, j: int|
        0 <= i < s.len() && 0 <= j < s[i].subsequent_prepares@.len() && (
        #[trigger] s[i].subsequent_prepares@[j]).pre_prepare.seq_num as nat == seq_num
}

/// Whether some carried view change proves a prepared slot at `seq_num`
/// whose request is `request`.
pub open spec fn has_proof_of_request_at(
    s: Seq<ViewChange>,
    seq_num: nat,
    request: crate::messages::ClientRequestView,
) -> bool {
    exists|i: int, j: int|
        0 <= i < s.len() && 0 <= j < s[i].subsequent_prepares@.len() && (
        #[trigger] s[i].subsequent_prepares@[j]).pre_prepare.seq_num as nat == seq_num
            && s[i].subsequent_prepares@[j].pre_prepare.client_request@ == request
}

/// What tallying a view change does (spec section 4.3 AcceptViewChange):
/// the state proper and the wait set never change; an inadmissible or
/// repeated message changes nothing and emits nothing (silent drop); a new
/// admissible one joins the tally; and exactly when that makes `2f + 1`
/// distinct backers for its new view and this replica is that view's
/// primary, a `NewView` is assembled from the tallied quorum — carrying
/// one pre-prepare, signed by this replica for the new view, per sequence
/// number between the newest proven stable checkpoint and the highest
/// proven prepared slot, each carrying a proven request or the no-op
/// filler — broadcast, and processed locally.
pub open spec fn accept_view_change_transition(
    pre: Consensus,
    post: Consensus,
    vc: ViewChange,
    r: Outcome,
) -> bool {
    &&& post.id == pre.id
    &&& post.state == pre.state
    &&& post.view_changer.wait_set == pre.view_changer.wait_set
    &&& post.view_changer.failed_rounds == pre.view_changer.failed_rounds
    &&& r.new_timers@.len() == 0
    &&& (!(view_change_admissible(pre, vc) && !pre.view_changer.has_view_change(
        vc.new_view as nat,
        vc.id as nat,
    )) ==> post == pre && r.node_commands@.len() == 0 && r.follow_ups@.len() == 0)
    &&& (view_change_admissible(pre, vc) && !pre.view_changer.has_view_change(
        vc.new_view as nat,
        vc.id as nat,
    ) ==> {
        &&& post.view_changer.view_change_messages@.len()
            == pre.view_changer.view_change_messages@.len() + 1
        &&& post.view_changer.view_change_messages@.last()@ == vc@
        &&& post.view_changer.vc_count(vc.new_view as nat) == pre.view_changer.vc_count(
            vc.new_view as nat,
        ) + 1
        &&& (!(post.view_changer.vc_count(vc.new_view as nat) == pre.state.config.spec_quorum()
            && pre.state.config.spec_leader_of(vc.new_view as nat) == pre.id as nat)
            ==> r.node_commands@.len() == 0 && r.follow_ups@.len() == 0)
        &&& (post.view_changer.vc_count(vc.new_view as nat) == pre.state.config.spec_quorum()
            && pre.state.config.spec_leader_of(vc.new_view as nat) == pre.id as nat ==> {
            &&& r.node_commands@.len() == 1
            &&& r.follow_ups@.len() == 1
            &&& (r.follow_ups@[0] matches ConsensusCommand::AcceptNewView(nv) && nv.id == pre.id
                && nv.view == vc.new_view && nv.view_change_messages@.len()
                == post.view_changer.vc_count(vc.new_view as nat) && (forall|k: int|
                0 <= k < nv.view_change_messages@.len() ==> (
                #[trigger] nv.view_change_messages@[k]).new_view == vc.new_view)
                && new_view_covers(pre, nv) && (r.node_commands@[0] matches
            NodeCommand::BroadCastMessageCommand(b) && (b.message matches Message::NewViewMessage(
                nvb,
            ) && nvb@ == nv@)))
        })
    })
}

/// The pre-prepares a new-view announcement carries cover exactly the
/// sequence numbers between the newest proven stable checkpoint and the
/// highest proven prepared slot, in order, each signed by the new primary
/// for the new view and carrying a proven request for its slot, or the
/// no-op filler where nothing is proven.
pub open spec fn new_view_covers(pre: Consensus, nv: NewView) -> bool {
    let low = max_stable_of(nv.view_change_messages@);
    let high = max_slot_of(nv.view_change_messages@);
    &&& nv.outstanding_pre_prepares@.len() == (if high > low {
        high - low
    } else {
        0
    })
    &&& (forall|k: int|
        0 <= k < nv.outstanding_pre_prepares@.len() ==> {
            &&& (#[trigger] nv.outstanding_pre_prepares@[k]).view == nv.view
            &&& nv.outstanding_pre_prepares@[k].id == nv.id
            &&& nv.outstanding_pre_prepares@[k].seq_num as nat == low + 1 + k
            &&& nv.outstanding_pre_prepares@[k]@.client_request_digest == request_digest(
                nv.outstanding_pre_prepares@[k]@.client_request,
            )
            &&& (has_proof_of_request_at(
                nv.view_change_messages@,
                (low + 1 + k) as nat,
                nv.outstanding_pre_prepares@[k].client_request@,
            ) || (nv.outstanding_pre_prepares@[k].client_request@
                == crate::messages::no_op_request() && !has_proof_at(
                nv.view_change_messages@,
                (low + 1 + k) as nat,
            )))
        })
}

/// What dispatching one arriving message does (spec sections 4.3
/// ProcessMessage and 7): an admissible phase message yields exactly its
/// `Accept*` follow-up; a parkable prepare or commit is stored in the
/// outstanding buffer and nothing else changes; anything else — bad
/// signature, wrong view, wrong leader, digest mismatch, handshake or
/// stray response — changes nothing and emits nothing: the replica never
/// replies to malformed input.
pub open spec fn process_message_transition(
    pre: Consensus,
    post: Consensus,
    m: Message,
    r: Outcome,
) -> bool {
    match m {
        Message::PrePrepareMessage(pp) => {
            &&& post == pre
            &&& r.node_commands@.len() == 0
            &&& r.new_timers@.len() == 0
            &&& (pre.state.spec_should_accept_pre_prepare(pp) ==> r.follow_ups@.len() == 1 && (
            r.follow_ups@[0] matches ConsensusCommand::AcceptPrePrepare(q) && q@ == pp@))
            &&& (!pre.state.spec_should_accept_pre_prepare(pp) ==> r.follow_ups@.len() == 0)
        },
        Message::PrepareMessage(p) => {
            &&& r.node_commands@.len() == 0
            &&& r.new_timers@.len() == 0
            &&& (pre.state.spec_prepare_admission(p) is Accept ==> post == pre
                && r.follow_ups@.len() == 1 && (r.follow_ups@[0] matches
            ConsensusCommand::AcceptPrepare(q) && q@ == p@))
            &&& (pre.state.spec_prepare_admission(p) is Park ==> {
                &&& r.follow_ups@.len() == 0
                &&& post.id == pre.id
                &&& post.view_changer == pre.view_changer
                &&& post.state == (State { message_bank: post.state.message_bank, ..pre.state })
                &&& post.state.message_bank == (crate::message_bank::MessageBank {
                    outstanding_prepares: post.state.message_bank.outstanding_prepares,
                    ..pre.state.message_bank
                })
                &&& post.state.message_bank.has_outstanding_prepare(p@)
                &&& (pre.state.message_bank.has_outstanding_prepare(p@) ==> post == pre)
                &&& (!pre.state.message_bank.has_outstanding_prepare(p@)
                    ==> post.state.message_bank.outstanding_prepares@.len()
                    == pre.state.message_bank.outstanding_prepares@.len() + 1
                    && post.state.message_bank.outstanding_prepares@.last()@ == p@)
            })
            &&& (pre.state.spec_prepare_admission(p) is Drop ==> post == pre
                && r.follow_ups@.len() == 0)
        },
        Message::CommitMessage(c) => {
            &&& r.node_commands@.len() == 0
            &&& r.new_timers@.len() == 0
            &&& (pre.state.spec_commit_admission(c) is Accept ==> post == pre
                && r.follow_ups@.len() == 1 && (r.follow_ups@[0] matches
            ConsensusCommand::AcceptCommit(q) && q@ == c@))
            &&& (pre.state.spec_commit_admission(c) is Park ==> {
                &&& r.follow_ups@.len() == 0
                &&& post.id == pre.id
                &&& post.view_changer == pre.view_changer
                &&& post.state == (State { message_bank: post.state.message_bank, ..pre.state })
                &&& post.state.message_bank == (crate::message_bank::MessageBank {
                    outstanding_commits: post.state.message_bank.outstanding_commits,
                    ..pre.state.message_bank
                })
                &&& post.state.message_bank.has_outstanding_commit(c@)
                &&& (pre.state.message_bank.has_outstanding_commit(c@) ==> post == pre)
                &&& (!pre.state.message_bank.has_outstanding_commit(c@)
                    ==> post.state.message_bank.outstanding_commits@.len()
                    == pre.state.message_bank.outstanding_commits@.len() + 1
                    && post.state.message_bank.outstanding_commits@.last()@ == c@)
            })
            &&& (pre.state.spec_commit_admission(c) is Drop ==> post == pre
                && r.follow_ups@.len() == 0)
        },
        Message::ClientRequestMessage(q) => client_request_transition(pre, post, q, r),
        Message::ViewChangeMessage(v) => {
            &&& post == pre
            &&& r.node_commands@.len() == 0
            &&& r.new_timers@.len() == 0
            &&& r.follow_ups@.len() == 1
            &&& (r.follow_ups@[0] matches ConsensusCommand::AcceptViewChange(q) && q@ == v@)
        },
        Message::NewViewMessage(nv) => {
            &&& post == pre
            &&& r.node_commands@.len() == 0
            &&& r.new_timers@.len() == 0
            &&& r.follow_ups@.len() == 1
            &&& (r.follow_ups@[0] matches ConsensusCommand::AcceptNewView(q) && q@ == nv@)
        },
        Message::CheckPointMessage(cp) => {
            &&& post == pre
            &&& r.node_commands@.len() == 0
            &&& r.new_timers@.len() == 0
            &&& r.follow_ups@.len() == 1
            &&& (r.follow_ups@[0] matches ConsensusCommand::AcceptCheckpoint(q) && q@ == cp@)
        },
        Message::IdentifierMessage(_) => {
            &&& post == pre
            &&& r.node_commands@.len() == 0
            &&& r.follow_ups@.len() == 0
            &&& r.new_timers@.len() == 0
        },
        Message::ClientResponseMessage(_) => {
            &&& post == pre
            &&& r.node_commands@.len() == 0
            &&& r.follow_ups@.len() == 0
            &&& r.new_timers@.len() == 0
        },
    }
}

/// The per-replica consensus engine.
pub struct Consensus {
    /// Id of this replica.
    pub id: NodeId,
    /// Consensus state, vote tallies and the message bank.
    pub state: State,
    /// Outstanding requests and view-change bookkeeping.
    pub view_changer: ViewChanger,
}

impl Consensus {
    pub open spec fn wf(&self) -> bool {
        &&& self.state.wf()
        &&& self.view_changer.wf()
        &&& self.state.id == self.id
        &&& self.view_changer.id == self.id
        &&& committed_contiguous(self.state)
    }

    pub fn new(id: NodeId, config: Config) -> (r: Consensus)
        requires
            config.wf(),
            id < config.num_nodes,
        ensures
            r.wf(),
            r.id == id,
            r.state.id == id,
            r.state.config == config,
            r.state.view == 0,
            r.state.seq_num == 0,
            r.state.last_seq_num_committed == 0,
            r.state.last_stable_seq_num == 0,
            !r.state.in_view_change,
            r.state.store@ == Map::<Seq<char>, u32>::empty(),
            r.state.message_bank.log@ =~= Seq::<Message>::empty(),
            r.state.message_bank.accepted_pre_prepares@ =~= Seq::<PrePrepare>::empty(),
            r.state.message_bank.outstanding_prepares@ =~= Seq::<Prepare>::empty(),
            r.state.message_bank.outstanding_commits@ =~= Seq::<Commit>::empty(),
            r.state.message_bank.accepted_commits_not_applied@ =~= Seq::<Commit>::empty(),
            r.state.message_bank.applied@ =~= Seq::<crate::message_bank::AppliedEntry>::empty(),
            r.state.prepare_votes.votes@ =~= Seq::<crate::votes::PhaseVote>::empty(),
            r.state.commit_votes.votes@ =~= Seq::<crate::votes::PhaseVote>::empty(),
            r.state.checkpoint_votes@ =~= Seq::<CheckPoint>::empty(),
            r.state.stable_proof@ =~= Seq::<CheckPoint>::empty(),
            r.view_changer.id == id,
            r.view_changer.wait_set@ =~= Seq::<ClientRequest>::empty(),
            r.view_changer.view_change_messages@ =~= Seq::<ViewChange>::empty(),
            r.view_changer.failed_rounds == 0,
    {
        let state = State::new(id, config);
        let view_changer = ViewChanger::new(id);
        let r = Consensus { id, state, view_changer };
        proof {
            assert forall|q: nat|
                #[trigger] r.state.message_bank.has_applied(q) implies 1 <= q
                <= r.state.last_seq_num_committed as nat by {
                let i = choose|i: int|
                    0 <= i < r.state.message_bank.applied@.len()
                        && #[trigger] r.state.message_bank.applied@[i].commit.seq_num as nat == q;
            }
        }
        r
    }
    /// A client request reached the engine. During a view change it is
    /// dropped. A replay of an already-applied request (same responder
    /// address and timestamp) mutates nothing and is answered with the
    /// recorded response. Otherwise it is forwarded to the primary, or
    /// proposed directly when this replica is the primary.
    pub fn handle_client_request(&mut self, request: &ClientRequest) -> (r: Outcome)
        requires
            old(self).wf(),
        ensures
            final(self).wf(),
            client_request_transition(*old(self), *final(self), *request, r),
    {
        let mut outcome = Outcome::empty();
        if !self.state.should_process_client_request(request) {
            return outcome;
        }
        match self.state.message_bank.find_applied_by_origin(request) {
            Some(entry) => {
                let response = entry.response.duplicate();
                outcome.node_commands.push(
                    NodeCommand::SendMessageCommand(
                        SendMessage {
                            destination: request.respond_addr.clone(),
                            message: Message::ClientResponseMessage(response),
                        },
                    ),
                );
            },
            None => {
                if self.id != self.state.current_leader() {
                    outcome.follow_ups.push(
                        ConsensusCommand::MisdirectedClientRequest(request.duplicate()),
                    );
                } else {
                    outcome.follow_ups.push(
                        ConsensusCommand::InitPrePrepare(request.duplicate()),
                    );
                }
            },
        }
        outcome
    }

    /// Forward a misdirected request to the current primary and start
    /// waiting for it to commit; the newly armed timer escalates to a view
    /// change if it does not.
    pub fn handle_misdirected_client_request(&mut self, request: &ClientRequest) -> (r: Outcome)
        requires
            old(self).wf(),
        ensures
            final(self).wf(),
            misdirected_transition(*old(self), *final(self), *request, r),
    {
        let mut outcome = Outcome::empty();
        let leader = self.state.current_leader();
        let leader_addr = &self.state.config.peer_addrs[leader];
        outcome.node_commands.push(
            NodeCommand::SendMessageCommand(
                SendMessage {
                    destination: leader_addr.clone(),
                    message: Message::ClientRequestMessage(request.duplicate()),
                },
            ),
        );
        let newly = self.view_changer.add_to_wait_set(request);
        if newly {
            outcome.new_timers.push(request.duplicate());
        }
        outcome
    }

    /// As primary, bind the next sequence number to this request, sign the
    /// pre-prepare, broadcast it and process it locally as well.
    pub fn handle_init_pre_prepare(&mut self, request: &ClientRequest) -> (r: Outcome)
        requires
            old(self).wf(),
        ensures
            final(self).wf(),
            init_pre_prepare_transition(*old(self), *final(self), *request, r),
    {
        let mut outcome = Outcome::empty();
        if self.state.in_view_change {
            return outcome;
        }
        if self.id != self.state.current_leader() {
            return outcome;
        }
        if self.state.seq_num == usize::MAX {
            return outcome;
        }
        self.state.seq_num = self.state.seq_num + 1;
        let pre_prepare = PrePrepare::new_with_signature(
            &self.state.config.key_pair_bytes,
            self.id,
            self.state.view,
            self.state.seq_num,
            request,
        );
        outcome.node_commands.push(
            NodeCommand::BroadCastMessageCommand(
                BroadCastMessage { message: Message::PrePrepareMessage(pre_prepare.duplicate()) },
            ),
        );
        outcome.follow_ups.push(ConsensusCommand::AcceptPrePrepare(pre_prepare));
        outcome
    }

    /// The slot has prepared: sign and broadcast this replica's commit vote
    /// for it, and count that vote locally.
    pub fn handle_enter_commit(&mut self, prepare: &Prepare) -> (r: Outcome)
        requires
            old(self).wf(),
        ensures
            final(self).wf(),
            enter_commit_transition(*old(self), *final(self), *prepare, r),
    {
        let mut outcome = Outcome::empty();
        let commit = Commit::new_with_signature(
            &self.state.config.key_pair_bytes,
            self.id,
            self.state.view,
            prepare.seq_num,
            prepare.client_request_digest.clone(),
        );
        proof {
            assert(commit@.client_request_digest =~= prepare@.client_request_digest);
        }
        outcome.node_commands.push(
            NodeCommand::BroadCastMessageCommand(
                BroadCastMessage { message: Message::CommitMessage(commit.duplicate()) },
            ),
        );
        outcome.follow_ups.push(ConsensusCommand::AcceptCommit(commit));
        outcome
    }
    /// Accept a pre-prepare: record the slot binding, log it, broadcast
    /// this replica's prepare vote for it (counting that vote locally),
    /// start waiting for the request, and reprocess any parked prepares
    /// that were waiting for this pre-prepare. A command that no longer
    /// passes admission does nothing.
    pub fn handle_accept_pre_prepare(&mut self, pre_prepare: &PrePrepare) -> (r: Outcome)
        requires
            old(self).wf(),
        ensures
            final(self).wf(),
            accept_pre_prepare_transition(*old(self), *final(self), *pre_prepare, r),
    {
        let mut outcome = Outcome::empty();
        if !self.state.should_accept_pre_prepare(pre_prepare) {
            return outcome;
        }
        self.state.message_bank.insert_pre_prepare(pre_prepare.duplicate());
        self.state.message_bank.append_log(
            Message::PrePrepareMessage(pre_prepare.duplicate()),
        );
        let own_prepare = Prepare::new_with_signature(
            &self.state.config.key_pair_bytes,
            self.id,
            pre_prepare.view,
            pre_prepare.seq_num,
            pre_prepare.client_request_digest.clone(),
        );
        proof {
            assert(own_prepare@.client_request_digest =~= pre_prepare@.client_request_digest);
        }
        outcome.node_commands.push(
            NodeCommand::BroadCastMessageCommand(
                BroadCastMessage { message: Message::PrepareMessage(own_prepare.duplicate()) },
            ),
        );
        outcome.follow_ups.push(ConsensusCommand::AcceptPrepare(own_prepare));
        let newly = self.view_changer.add_to_wait_set(&pre_prepare.client_request);
        if newly {
            outcome.new_timers.push(pre_prepare.client_request.duplicate());
        }
        let parked = self.state.message_bank.matching_outstanding_prepares(pre_prepare);
        let ghost sends = outcome.node_commands@;
        let ghost timers = outcome.new_timers@;
        let mut i: usize = 0;
        while i < parked.len()
            invariant
                i <= parked@.len(),
                outcome.node_commands@ == sends,
                outcome.new_timers@ == timers,
                outcome.follow_ups@.len() >= 1,
                outcome.follow_ups@.len() <= 1 + i as int,
                (outcome.follow_ups@[0] matches ConsensusCommand::AcceptPrepare(p) && p@
                    == own_prepare@),
                forall|k: int|
                    0 <= k < parked@.len() ==> crate::messages::prepare_corresponds(
                        #[trigger] parked@[k]@,
                        pre_prepare@,
                    ),
                forall|k: int|
                    1 <= k < outcome.follow_ups@.len() ==> (#[trigger] outcome.follow_ups@[k]
                        matches ConsensusCommand::AcceptPrepare(p)
                        && crate::messages::prepare_corresponds(p@, pre_prepare@)),
            decreases parked@.len() - i,
        {
            let p = &parked[i];
            outcome.follow_ups.push(ConsensusCommand::AcceptPrepare(p.duplicate()));
            i = i + 1;
        }
        proof {
            let slot = self.state.message_bank.accepted_pre_prepares@;
            assert(slot.last()@ == pre_prepare@);
            lemma_applied_same(old(self).state.message_bank, self.state.message_bank);
        }
        outcome
    }

    /// Accept a prepare: unpark it, log it, count the vote, and when the
    /// tally first reaches the quorum enter the commit phase exactly once.
    /// Parked commits waiting on this slot are reprocessed. A command that
    /// no longer passes admission does nothing.
    pub fn handle_accept_prepare(&mut self, prepare: &Prepare) -> (r: Outcome)
        requires
            old(self).wf(),
        ensures
            final(self).wf(),
            accept_prepare_transition(*old(self), *final(self), *prepare, r),
    {
        let mut outcome = Outcome::empty();
        match self.state.prepare_admission(prepare) {
            Admission::Accept => {},
            _ => {
                return outcome;
            },
        }
        self.state.message_bank.remove_outstanding_prepare(prepare);
        self.state.message_bank.append_log(Message::PrepareMessage(prepare.duplicate()));
        let newly = self.state.prepare_votes.insert(prepare.view, prepare.seq_num, prepare.id);
        let count = self.state.prepare_votes.count_votes(prepare.view, prepare.seq_num);
        if newly && count == self.state.config.quorum_size() {
            outcome.follow_ups.push(ConsensusCommand::EnterCommit(prepare.duplicate()));
        }
        let parked = self.state.message_bank.matching_outstanding_commits(prepare);
        let ghost base = outcome.follow_ups@;
        let ghost sends = outcome.node_commands@;
        let mut i: usize = 0;
        while i < parked.len()
            invariant
                i <= parked@.len(),
                outcome.node_commands@ == sends,
                outcome.follow_ups@.len() >= base.len(),
                outcome.follow_ups@.len() <= base.len() + i as int,
                forall|k: int| 0 <= k < base.len() ==> #[trigger] outcome.follow_ups@[k] == base[k],
                forall|k: int|
                    0 <= k < parked@.len() ==> crate::messages::commit_corresponds(
                        #[trigger] parked@[k]@,
                        prepare@,
                    ),
                forall|k: int|
                    base.len() <= k < outcome.follow_ups@.len() ==> (
                    #[trigger] outcome.follow_ups@[k] matches ConsensusCommand::AcceptCommit(c)
                        && crate::messages::commit_corresponds(c@, prepare@)),
            decreases parked@.len() - i,
        {
            let c = &parked[i];
            outcome.follow_ups.push(ConsensusCommand::AcceptCommit(c.duplicate()));
            i = i + 1;
        }
        proof {
            lemma_applied_same(old(self).state.message_bank, self.state.message_bank);
        }
        outcome
    }

    /// Accept a commit: unpark it, log it, count the vote, and when the
    /// tally first reaches the quorum apply the request exactly once. A
    /// command that no longer passes admission does nothing.
    pub fn handle_accept_commit(&mut self, commit: &Commit) -> (r: Outcome)
        requires
            old(self).wf(),
        ensures
            final(self).wf(),
            accept_commit_transition(*old(self), *final(self), *commit, r),
    {
        let mut outcome = Outcome::empty();
        match self.state.commit_admission(commit) {
            Admission::Accept => {},
            _ => {
                return outcome;
            },
        }
        self.state.message_bank.remove_outstanding_commit(commit);
        self.state.message_bank.append_log(Message::CommitMessage(commit.duplicate()));
        let newly = self.state.commit_votes.insert(commit.view, commit.seq_num, commit.id);
        let count = self.state.commit_votes.count_votes(commit.view, commit.seq_num);
        if newly && count == self.state.config.quorum_size() {
            outcome.follow_ups.push(ConsensusCommand::ApplyCommit(commit.duplicate()));
        }
        proof {
            lemma_applied_same(old(self).state.message_bank, self.state.message_bank);
        }
        outcome
    }
    /// When the committed counter has just reached a positive multiple of
    /// the checkpoint frequency, sign and broadcast a checkpoint carrying
    /// the digest and snapshot of the store, and tally it locally.
    fn maybe_checkpoint(&mut self, outcome: &mut Outcome)
        requires
            old(self).wf(),
        ensures
            final(self).wf(),
            *final(self) == *old(self),
            final(outcome).new_timers == old(outcome).new_timers,
            (old(self).state.last_seq_num_committed == 0 || old(
                self,
            ).state.last_seq_num_committed as nat % old(
                self,
            ).state.config.checkpoint_frequency as nat != 0) ==> *final(outcome) == *old(outcome),
            (old(self).state.last_seq_num_committed != 0 && old(
                self,
            ).state.last_seq_num_committed as nat % old(
                self,
            ).state.config.checkpoint_frequency as nat == 0) ==> {
                &&& final(outcome).node_commands@.len() == old(outcome).node_commands@.len() + 1
                &&& (forall|k: int|
                    0 <= k < old(outcome).node_commands@.len()
                        ==> #[trigger] final(outcome).node_commands@[k] == old(
                        outcome,
                    ).node_commands@[k])
                &&& (final(outcome).node_commands@.last() matches
                    NodeCommand::BroadCastMessageCommand(b) && (b.message matches
                    Message::CheckPointMessage(cp) && cp@.id == old(self).id as nat
                    && cp@.committed_seq_num == old(self).state.last_seq_num_committed as nat
                    && cp@.view == old(self).state.view as nat && cp@.state_digest == sha512_of(
                    crate::store::journal_bytes(old(self).state.store.journal()),
                ) && cp@.state == old(self).state.store@))
                &&& final(outcome).follow_ups@.len() == old(outcome).follow_ups@.len() + 1
                &&& (forall|k: int|
                    0 <= k < old(outcome).follow_ups@.len() ==> #[trigger] final(outcome).follow_ups@[k] == old(outcome).follow_ups@[k])
                &&& (final(outcome).follow_ups@.last() matches ConsensusCommand::AcceptCheckpoint(
                    cp,
                ) && cp@.committed_seq_num == old(self).state.last_seq_num_committed as nat
                    && cp@.state_digest == sha512_of(
                    crate::store::journal_bytes(old(self).state.store.journal()),
                ))
            },
    {
        if self.state.last_seq_num_committed == 0 || self.state.last_seq_num_committed
            % self.state.config.checkpoint_frequency != 0 {
            return ;
        }
        let encoded = self.state.store.encode();
        let state_digest = sha512(&encoded);
        let checkpoint = CheckPoint::new_with_signature(
            &self.state.config.key_pair_bytes,
            self.id,
            self.state.last_seq_num_committed,
            self.state.view,
            state_digest,
            self.state.store.snapshot(),
        );
        outcome.node_commands.push(
            NodeCommand::BroadCastMessageCommand(
                BroadCastMessage { message: Message::CheckPointMessage(checkpoint.duplicate()) },
            ),
        );
        outcome.follow_ups.push(ConsensusCommand::AcceptCheckpoint(checkpoint));
    }

    /// Apply a committed-local request. The request is looked up from the
    /// accepted pre-prepare of the commit's slot, removed from the wait set
    /// and handed to the state; if its turn has not come it is parked, and
    /// otherwise it is applied, the signed response is sent to the client,
    /// any parked successors that became contiguous are applied in turn,
    /// and a checkpoint is proposed whenever the committed counter reaches
    /// a multiple of the checkpoint frequency.
    pub fn handle_apply_commit(&mut self, commit: &Commit) -> (r: Outcome)
        requires
            old(self).wf(),
        ensures
            final(self).wf(),
            apply_commit_transition(*old(self), *final(self), *commit, r),
    {
        let mut outcome = Outcome::empty();
        let request = match self.state.message_bank.get_pre_prepare(commit.view, commit.seq_num) {
            Some(pp) => pp.client_request.duplicate(),
            None => {
                return outcome;
            },
        };
        self.view_changer.remove_from_wait_set(&request);
        let response = self.state.apply_commit(&request, commit);
        match response {
            Some(resp) => {
                outcome.node_commands.push(
                    NodeCommand::SendMessageCommand(
                        SendMessage {
                            destination: request.respond_addr.clone(),
                            message: Message::ClientResponseMessage(resp),
                        },
                    ),
                );
                proof {
                    lemma_contiguous_extend(old(self).state, self.state, commit.seq_num as nat);
                }
            },
            None => {
                proof {
                    lemma_applied_same(old(self).state.message_bank, self.state.message_bank);
                }
            },
        }
        self.maybe_checkpoint(&mut outcome);
        let ghost first_applied = self.state.message_bank.applied@;
        let ghost first_sends = outcome.node_commands@;
        while self.state.last_seq_num_committed < usize::MAX
            invariant
                self.wf(),
                self.id == old(self).id,
                self.state.view == old(self).state.view,
                self.state.in_view_change == old(self).state.in_view_change,
                self.state.last_stable_seq_num == old(self).state.last_stable_seq_num,
                self.state.last_seq_num_committed >= old(self).state.last_seq_num_committed,
                first_applied.len() <= self.state.message_bank.applied@.len(),
                forall|k: int|
                    0 <= k < first_applied.len() ==> #[trigger] self.state.message_bank.applied@[k]
                        == first_applied[k],
                first_sends.len() <= outcome.node_commands@.len(),
                forall|k: int|
                    0 <= k < first_sends.len() ==> #[trigger] outcome.node_commands@[k]
                        == first_sends[k],
            decreases self.state.message_bank.accepted_commits_not_applied@.len(),
        {
            let next_seq = self.state.last_seq_num_committed + 1;
            let ghost pre_take = self.state;
            let taken = self.state.message_bank.take_pending_commit(next_seq);
            proof {
                lemma_applied_same(pre_take.message_bank, self.state.message_bank);
            }
            let next_commit = match taken {
                Some(c) => c,
                None => {
                    break ;
                },
            };
            let next_request = match self.state.message_bank.get_pre_prepare(
                next_commit.view,
                next_commit.seq_num,
            ) {
                Some(pp) => pp.client_request.duplicate(),
                None => {
                    continue ;
                },
            };
            self.view_changer.remove_from_wait_set(&next_request);
            let ghost before = self.state;
            let next_response = self.state.apply_commit(&next_request, &next_commit);
            proof {
                if next_commit.seq_num as nat == before.last_seq_num_committed as nat + 1 {
                    lemma_contiguous_extend(before, self.state, next_commit.seq_num as nat);
                } else {
                    lemma_applied_same(before.message_bank, self.state.message_bank);
                }
            }
            match next_response {
                Some(resp) => {
                    outcome.node_commands.push(
                        NodeCommand::SendMessageCommand(
                            SendMessage {
                                destination: next_request.respond_addr.clone(),
                                message: Message::ClientResponseMessage(resp),
                            },
                        ),
                    );
                },
                None => {},
            }
            self.maybe_checkpoint(&mut outcome);
        }
        outcome
    }
    /// A wait timer fired: if the request is still outstanding the system
    /// has stopped making progress on it, so escalate to a view change.
    pub fn handle_wait_timer_expired(&mut self, request: &ClientRequest) -> (r: Outcome)
        requires
            old(self).wf(),
        ensures
            final(self).wf(),
            *final(self) == *old(self),
            r.node_commands@.len() == 0,
            old(self).view_changer.is_waiting(request@) ==> r.follow_ups@.len() == 1 && (
            r.follow_ups@[0] matches ConsensusCommand::InitViewChange(q) && q@ == request@),
            !old(self).view_changer.is_waiting(request@) ==> r.follow_ups@.len() == 0,
    {
        let mut outcome = Outcome::empty();
        if self.view_changer.still_waiting(request) {
            outcome.follow_ups.push(ConsensusCommand::InitViewChange(request.duplicate()));
        }
        outcome
    }

    /// The prepares accepted into the log for the slot `(view, seq_num)`,
    /// one per sender: a redelivered prepare may be logged more than once,
    /// and a proof with a repeated sender would not verify as a quorum.
    fn collect_log_prepares(&self, view: usize, seq_num: usize) -> (r: Vec<Prepare>)
        ensures
            forall|k: int|
                0 <= k < r@.len() ==> (#[trigger] r@[k]).view == view && r@[k].seq_num == seq_num,
            prepares_distinct_ids(r@),
    {
        let mut r: Vec<Prepare> = Vec::new();
        let log = &self.state.message_bank.log;
        let mut i: usize = 0;
        while i < log.len()
            invariant
                i <= log@.len(),
                forall|k: int|
                    0 <= k < r@.len() ==> (#[trigger] r@[k]).view == view && r@[k].seq_num
                        == seq_num,
                prepares_distinct_ids(r@),
            decreases log@.len() - i,
        {
            match &log[i] {
                Message::PrepareMessage(p) => {
                    if p.view == view && p.seq_num == seq_num {
                        let mut seen: bool = false;
                        let mut d: usize = 0;
                        while d < r.len()
                            invariant
                                d <= r@.len(),
                                seen ==> (exists|x: int|
                                    0 <= x < r@.len() && (#[trigger] r@[x]).id == p.id),
                                !seen ==> (forall|x: int|
                                    0 <= x < d as int ==> (#[trigger] r@[x]).id != p.id),
                            decreases r@.len() - d,
                        {
                            if r[d].id == p.id {
                                seen = true;
                            }
                            d = d + 1;
                        }
                        if !seen {
                            let copy = p.duplicate();
                            let ghost prev = r@;
                            proof {
                                assert(copy.view as nat == p.view as nat);
                                assert(copy.seq_num as nat == p.seq_num as nat);
                                assert(copy.id as nat == p.id as nat);
                            }
                            r.push(copy);
                            proof {
                                assert forall|k: int|
                                    0 <= k < r@.len() implies (#[trigger] r@[k]).view == view
                                    && r@[k].seq_num == seq_num by {
                                    if k < prev.len() {
                                        assert(r@[k] == prev[k]);
                                    } else {
                                        assert(r@[k] == copy);
                                    }
                                }
                                assert forall|a: int, b: int|
                                    0 <= a < b < r@.len() implies (#[trigger] r@[a]).id
                                    != (#[trigger] r@[b]).id by {
                                    if b < prev.len() {
                                        assert(r@[a] == prev[a] && r@[b] == prev[b]);
                                    } else {
                                        assert(r@[a] == prev[a] && r@[b] == copy);
                                    }
                                }
                            }
                        }
                    }
                },
                _ => {},
            }
            i = i + 1;
        }
        r
    }

    /// Stop taking part in the current view and broadcast a signed view
    /// change for the next one, carrying the latest stable checkpoint's
    /// proof and, for every slot above it that reached the prepared
    /// predicate, its pre-prepare with the logged prepares backing it.
    /// Ignored when already in a view change or when this replica is the
    /// current primary.
    pub fn handle_init_view_change(&mut self, _request: &ClientRequest) -> (r: Outcome)
        requires
            old(self).wf(),
        ensures
            final(self).wf(),
            init_view_change_transition(*old(self), *final(self), r),
    {
        let mut outcome = Outcome::empty();
        if self.state.in_view_change {
            return outcome;
        }
        if self.state.current_leader() == self.id {
            return outcome;
        }
        if self.state.view == usize::MAX {
            return outcome;
        }
        self.state.in_view_change = true;
        if self.view_changer.failed_rounds < u32::MAX {
            self.view_changer.failed_rounds = self.view_changer.failed_rounds + 1;
        }
        let mut checkpoint_proof: Vec<CheckPoint> = Vec::new();
        let mut i: usize = 0;
        while i < self.state.stable_proof.len()
            invariant
                i <= self.state.stable_proof@.len(),
                self.wf(),
                self.id == old(self).id,
                self.state == old(self).state.spec_set_in_view_change(true),
                checkpoint_proof@.len() == i as int,
                forall|x: int|
                    0 <= x < checkpoint_proof@.len() ==> (#[trigger] checkpoint_proof@[x])@
                        == self.state.stable_proof@[x]@,
            decreases self.state.stable_proof@.len() - i,
        {
            let copy = self.state.stable_proof[i].duplicate();
            let ghost prev = checkpoint_proof@;
            checkpoint_proof.push(copy);
            proof {
                assert forall|x: int|
                    0 <= x < checkpoint_proof@.len() implies (#[trigger] checkpoint_proof@[x])@
                    == self.state.stable_proof@[x]@ by {
                    if x < prev.len() {
                        assert(checkpoint_proof@[x] == prev[x]);
                    } else {
                        assert(checkpoint_proof@[x] == copy);
                    }
                }
            }
            i = i + 1;
        }
        let mut subsequent_prepares: Vec<PreparedProof> = Vec::new();
        let mut k: usize = 0;
        while k < self.state.message_bank.accepted_pre_prepares.len()
            invariant
                k <= self.state.message_bank.accepted_pre_prepares@.len(),
                self.wf(),
                self.id == old(self).id,
                self.state == old(self).state.spec_set_in_view_change(true),
                forall|x: int|
                    0 <= x < subsequent_prepares@.len() ==> {
                        &&& (#[trigger] subsequent_prepares@[x]).pre_prepare.seq_num
                            > self.state.last_stable_seq_num
                        &&& self.state.prepare_votes.count(
                            subsequent_prepares@[x].pre_prepare.view as nat,
                            subsequent_prepares@[x].pre_prepare.seq_num as nat,
                        ) >= self.state.config.spec_quorum()
                        &&& (pre_prepare_at(
                            self.state.message_bank.accepted_pre_prepares@,
                            subsequent_prepares@[x].pre_prepare.view as nat,
                            subsequent_prepares@[x].pre_prepare.seq_num as nat,
                        ) matches Some(q) && q@ == subsequent_prepares@[x].pre_prepare@)
                        &&& (forall|j: int|
                            0 <= j < subsequent_prepares@[x].prepares@.len() ==> (
                            #[trigger] subsequent_prepares@[x].prepares@[j]).view
                                == subsequent_prepares@[x].pre_prepare.view
                                && subsequent_prepares@[x].prepares@[j].seq_num
                                == subsequent_prepares@[x].pre_prepare.seq_num)
                    },
                forall|y: int|
                    0 <= y < k as int
                        && (#[trigger] self.state.message_bank.accepted_pre_prepares@[y]).seq_num
                        > self.state.last_stable_seq_num && self.state.prepare_votes.count(
                        self.state.message_bank.accepted_pre_prepares@[y].view as nat,
                        self.state.message_bank.accepted_pre_prepares@[y].seq_num as nat,
                    ) >= self.state.config.spec_quorum() ==> (exists|x: int|
                        0 <= x < subsequent_prepares@.len()
                            && (#[trigger] subsequent_prepares@[x]).pre_prepare@
                            == self.state.message_bank.accepted_pre_prepares@[y]@),
            decreases self.state.message_bank.accepted_pre_prepares@.len() - k,
        {
            let pp = &self.state.message_bank.accepted_pre_prepares[k];
            if pp.seq_num > self.state.last_stable_seq_num {
                let votes = self.state.prepare_votes.count_votes(pp.view, pp.seq_num);
                if votes >= self.state.config.quorum_size() {
                    let prepares = self.collect_log_prepares(pp.view, pp.seq_num);
                    let copy = pp.duplicate();
                    let ghost prev = subsequent_prepares@;
                    proof {
                        assert(copy.view as nat == pp.view as nat);
                        assert(copy.seq_num as nat == pp.seq_num as nat);
                        crate::message_bank::lemma_pre_prepare_at_member(
                            self.state.message_bank.accepted_pre_prepares@,
                            k as int,
                        );
                    }
                    subsequent_prepares.push(PreparedProof { pre_prepare: copy, prepares });
                    proof {
                        assert(subsequent_prepares@[prev.len() as int].pre_prepare@
                            == self.state.message_bank.accepted_pre_prepares@[k as int]@);
                        assert forall|x: int|
                            0 <= x < subsequent_prepares@.len() implies subsequent_prepares@[x]
                            == (if x < prev.len() {
                            prev[x]
                        } else {
                            subsequent_prepares@[prev.len() as int]
                        }) by {}
                    }
                }
            }
            k = k + 1;
        }
        let view_change = ViewChange::new_with_signature(
            &self.state.config.key_pair_bytes,
            self.id,
            self.state.view + 1,
            self.state.last_stable_seq_num,
            checkpoint_proof,
            subsequent_prepares,
        );
        outcome.node_commands.push(
            NodeCommand::BroadCastMessageCommand(
                BroadCastMessage { message: Message::ViewChangeMessage(view_change.duplicate()) },
            ),
        );
        outcome.follow_ups.push(ConsensusCommand::AcceptViewChange(view_change));
        outcome
    }
    /// The request whose prepared proof some tallied view change carries
    /// for sequence number `seq_num`, if any.
    /// The request whose prepared proof some tallied view change carries
    /// for sequence number `seq_num`, if any carries one.
    fn find_adopted_request(messages: &Vec<ViewChange>, seq_num: usize) -> (r: Option<
        ClientRequest,
    >)
        ensures
            (match r {
                Some(q) => has_proof_of_request_at(messages@, seq_num as nat, q@),
                None => !has_proof_at(messages@, seq_num as nat),
            }),
    {
        let mut i: usize = 0;
        while i < messages.len()
            invariant
                i <= messages@.len(),
                forall|x: int, j: int|
                    0 <= x < i as int && 0 <= j < messages@[x].subsequent_prepares@.len() ==> (
                    #[trigger] messages@[x].subsequent_prepares@[j]).pre_prepare.seq_num
                        != seq_num,
            decreases messages@.len() - i,
        {
            let vc = &messages[i];
            let mut k: usize = 0;
            while k < vc.subsequent_prepares.len()
                invariant
                    i < messages@.len(),
                    *vc == messages@[i as int],
                    k <= vc.subsequent_prepares@.len(),
                    forall|j: int|
                        0 <= j < k as int ==> (
                        #[trigger] vc.subsequent_prepares@[j]).pre_prepare.seq_num != seq_num,
                decreases vc.subsequent_prepares@.len() - k,
            {
                let proof_entry = &vc.subsequent_prepares[k];
                if proof_entry.pre_prepare.seq_num == seq_num {
                    let adopted = proof_entry.pre_prepare.client_request.duplicate();
                    proof {
                        assert(messages@[i as int].subsequent_prepares@[k as int].pre_prepare.seq_num as nat
                            == seq_num as nat);
                        assert(messages@[i as int].subsequent_prepares@[k as int].pre_prepare.client_request@
                            == adopted@);
                    }
                    return Some(adopted);
                }
                k = k + 1;
            }
            i = i + 1;
        }
        proof {
            assert forall|x: int, j: int|
                0 <= x < messages@.len() && 0 <= j < messages@[x].subsequent_prepares@.len()
                implies (#[trigger] messages@[x].subsequent_prepares@[j]).pre_prepare.seq_num as nat
                != seq_num as nat by {}
        }
        None
    }

    /// Tally a view change per `accept_view_change_transition`: admit it
    /// only if it is properly signed by a known sender and every prepared
    /// proof it claims checks out; tally once per `(new_view, sender)`; and
    /// when the tally reaches exactly `2f + 1` and this replica is the new
    /// view's primary, assemble, broadcast and locally process the
    /// `NewView`.
    pub fn handle_accept_view_change(&mut self, view_change: &ViewChange) -> (r: Outcome)
        requires
            old(self).wf(),
        ensures
            final(self).wf(),
            final(self).state.view == old(self).state.view,
            final(self).state.last_seq_num_committed == old(self).state.last_seq_num_committed,
            final(self).state.last_stable_seq_num == old(self).state.last_stable_seq_num,
            accept_view_change_transition(*old(self), *final(self), *view_change, r),
    {
        let mut outcome = Outcome::empty();
        if view_change.id >= self.state.config.num_nodes {
            return outcome;
        }
        let pub_key = &self.state.config.public_keys[view_change.id];
        if !view_change.is_properly_signed_by(pub_key) {
            return outcome;
        }
        let mut pcheck: usize = 0;
        while pcheck < view_change.subsequent_prepares.len()
            invariant
                *self == *old(self),
                old(self).wf(),
                outcome.node_commands@.len() == 0,
                outcome.follow_ups@.len() == 0,
                outcome.new_timers@.len() == 0,
                pcheck <= view_change.subsequent_prepares@.len(),
                forall|j: int|
                    0 <= j < pcheck as int ==> spec_proof_backed(
                        self.state.config,
                        #[trigger] view_change.subsequent_prepares@[j],
                    ),
            decreases view_change.subsequent_prepares@.len() - pcheck,
        {
            if !self.prepared_proof_backed(&view_change.subsequent_prepares[pcheck]) {
                return outcome;
            }
            pcheck = pcheck + 1;
        }
        let newly = self.view_changer.add_view_change(view_change.duplicate());
        if !newly {
            return outcome;
        }
        let count = self.view_changer.count_view_changes(view_change.new_view);
        if count != self.state.config.quorum_size() {
            return outcome;
        }
        if self.state.config.leader_of(view_change.new_view) != self.id {
            return outcome;
        }
        let messages = self.view_changer.collect_view_changes(view_change.new_view);
        let mut min_s: usize = 0;
        let mut max_s: usize = 0;
        let mut i: usize = 0;
        proof {
            assert(messages@.subrange(0, 0) =~= Seq::<ViewChange>::empty());
        }
        while i < messages.len()
            invariant
                i <= messages@.len(),
                min_s as nat == max_stable_of(messages@.subrange(0, i as int)),
                max_s as nat == max_slot_of(messages@.subrange(0, i as int)),
            decreases messages@.len() - i,
        {
            let vc = &messages[i];
            proof {
                assert(messages@.subrange(0, i + 1).drop_last() =~= messages@.subrange(0, i as int));
                assert(messages@.subrange(0, i + 1).last() == messages@[i as int]);
            }
            if vc.last_stable_seq_num > min_s {
                min_s = vc.last_stable_seq_num;
            }
            let mut k: usize = 0;
            proof {
                assert(vc.subsequent_prepares@.subrange(0, 0) =~= Seq::<PreparedProof>::empty());
            }
            while k < vc.subsequent_prepares.len()
                invariant
                    i < messages@.len(),
                    *vc == messages@[i as int],
                    k <= vc.subsequent_prepares@.len(),
                    max_s as nat == nat_max(
                        max_slot_of(messages@.subrange(0, i as int)),
                        proofs_max_slot(vc.subsequent_prepares@.subrange(0, k as int)),
                    ),
                decreases vc.subsequent_prepares@.len() - k,
            {
                proof {
                    assert(vc.subsequent_prepares@.subrange(0, k + 1).drop_last()
                        =~= vc.subsequent_prepares@.subrange(0, k as int));
                    assert(vc.subsequent_prepares@.subrange(0, k + 1).last()
                        == vc.subsequent_prepares@[k as int]);
                }
                let slot = vc.subsequent_prepares[k].pre_prepare.seq_num;
                if slot > max_s {
                    max_s = slot;
                }
                k = k + 1;
            }
            proof {
                assert(vc.subsequent_prepares@.subrange(0, vc.subsequent_prepares@.len() as int)
                    =~= vc.subsequent_prepares@);
            }
            i = i + 1;
        }
        proof {
            assert(messages@.subrange(0, messages@.len() as int) =~= messages@);
        }
        let mut outstanding_pre_prepares: Vec<PrePrepare> = Vec::new();
        let mut s: usize = min_s;
        while s < max_s
            invariant
                self.wf(),
                min_s <= s,
                max_s > min_s ==> s <= max_s,
                max_s <= min_s ==> s == min_s,
                min_s as nat == max_stable_of(messages@),
                max_s as nat == max_slot_of(messages@),
                outstanding_pre_prepares@.len() == s - min_s,
                forall|k: int|
                    0 <= k < outstanding_pre_prepares@.len() ==> {
                        &&& (#[trigger] outstanding_pre_prepares@[k]).view
                            == view_change.new_view
                        &&& outstanding_pre_prepares@[k].id == self.id
                        &&& outstanding_pre_prepares@[k].seq_num as nat == min_s as nat + 1 + k
                        &&& outstanding_pre_prepares@[k]@.client_request_digest == request_digest(
                            outstanding_pre_prepares@[k]@.client_request,
                        )
                        &&& (has_proof_of_request_at(
                            messages@,
                            (min_s + 1 + k) as nat,
                            outstanding_pre_prepares@[k].client_request@,
                        ) || (outstanding_pre_prepares@[k].client_request@
                            == crate::messages::no_op_request() && !has_proof_at(
                            messages@,
                            (min_s + 1 + k) as nat,
                        )))
                    },
            decreases max_s - s,
        {
            s = s + 1;
            let request = match Self::find_adopted_request(&messages, s) {
                Some(q) => q,
                None => ClientRequest::no_op(),
            };
            let pre_prepare = PrePrepare::new_with_signature(
                &self.state.config.key_pair_bytes,
                self.id,
                view_change.new_view,
                s,
                &request,
            );
            let ghost prev = outstanding_pre_prepares@;
            proof {
                assert(pre_prepare.view as nat == view_change.new_view as nat);
                assert(pre_prepare.seq_num as nat == s as nat);
                assert(pre_prepare.id as nat == self.id as nat);
                assert(pre_prepare.client_request@ == request@);
            }
            outstanding_pre_prepares.push(pre_prepare);
            proof {
                assert forall|k: int|
                    0 <= k < outstanding_pre_prepares@.len() implies (
                #[trigger] outstanding_pre_prepares@[k]).view == view_change.new_view
                    && outstanding_pre_prepares@[k].id == self.id
                    && outstanding_pre_prepares@[k].seq_num as nat == min_s as nat + 1 + k
                    && outstanding_pre_prepares@[k]@.client_request_digest == request_digest(
                    outstanding_pre_prepares@[k]@.client_request,
                ) && (has_proof_of_request_at(
                    messages@,
                    (min_s + 1 + k) as nat,
                    outstanding_pre_prepares@[k].client_request@,
                ) || (outstanding_pre_prepares@[k].client_request@
                    == crate::messages::no_op_request() && !has_proof_at(
                    messages@,
                    (min_s + 1 + k) as nat,
                ))) by {
                    if k < prev.len() {
                        assert(outstanding_pre_prepares@[k] == prev[k]);
                    } else {
                        assert(outstanding_pre_prepares@[k] == pre_prepare);
                    }
                }
            }
        }
        let new_view = NewView {
            id: self.id,
            view: view_change.new_view,
            view_change_messages: messages,
            outstanding_pre_prepares,
        };
        outcome.node_commands.push(
            NodeCommand::BroadCastMessageCommand(
                BroadCastMessage { message: Message::NewViewMessage(new_view.duplicate()) },
            ),
        );
        outcome.follow_ups.push(ConsensusCommand::AcceptNewView(new_view));
        outcome
    }

    /// Whether a claimed prepared proof really is one, per
    /// `spec_proof_backed`: one prepare per sender and a quorum of them
    /// backing the pre-prepare's slot and digest.
    fn prepared_proof_backed(&self, proof_entry: &PreparedProof) -> (r: bool)
        requires
            self.wf(),
        ensures
            r == spec_proof_backed(self.state.config, *proof_entry),
    {
        let total = proof_entry.prepares.len();
        let mut a: usize = 0;
        while a < total
            invariant
                self.wf(),
                proof_entry.prepares@.len() == total,
                a <= total,
                forall|x: int, y: int|
                    0 <= x < y < total && x < a as int ==> (#[trigger] proof_entry.prepares@[x]).id
                        != (#[trigger] proof_entry.prepares@[y]).id,
            decreases total - a,
        {
            let mut b: usize = a + 1;
            while b < total
                invariant
                    a < b || b == a + 1,
                    a < total,
                    b <= total,
                    proof_entry.prepares@.len() == total,
                    forall|y: int|
                        a < y < b as int ==> (#[trigger] proof_entry.prepares@[y]).id
                            != proof_entry.prepares@[a as int].id,
                decreases total - b,
            {
                if proof_entry.prepares[b].id == proof_entry.prepares[a].id {
                    return false;
                }
                b = b + 1;
            }
            a = a + 1;
        }
        let mut backing: usize = 0;
        let mut i: usize = 0;
        proof {
            assert(proof_entry.prepares@.subrange(0, 0) =~= Seq::<Prepare>::empty());
        }
        while i < total
            invariant
                self.wf(),
                proof_entry.prepares@.len() == total,
                i <= total,
                backing + (total - i) <= total,
                prepares_distinct_ids(proof_entry.prepares@),
                backing as nat == backing_count(
                    self.state.config,
                    proof_entry.pre_prepare,
                    proof_entry.prepares@.subrange(0, i as int),
                ),
            decreases total - i,
        {
            let p = &proof_entry.prepares[i];
            proof {
                assert(proof_entry.prepares@.subrange(0, i + 1).drop_last()
                    =~= proof_entry.prepares@.subrange(0, i as int));
                assert(proof_entry.prepares@.subrange(0, i + 1).last()
                    == proof_entry.prepares@[i as int]);
            }
            let backs = p.corresponds_to(&proof_entry.pre_prepare) && p.id
                < self.state.config.num_nodes && p.is_properly_signed_by(
                &self.state.config.public_keys[p.id],
            );
            proof {
                assert(backs == prepare_backs(
                    self.state.config,
                    proof_entry.pre_prepare,
                    proof_entry.prepares@[i as int],
                ));
            }
            if backs {
                backing = backing + 1;
            }
            i = i + 1;
        }
        proof {
            assert(proof_entry.prepares@.subrange(0, total as int) =~= proof_entry.prepares@);
        }
        let f = self.state.config.num_faulty;
        backing >= 2 * f + 1
    }

    /// Whether the new-view message is justified, per
    /// `spec_new_view_acceptable`.
    fn new_view_acceptable(&self, new_view: &NewView) -> (r: bool)
        requires
            self.wf(),
        ensures
            r == spec_new_view_acceptable(*self, *new_view),
    {
        if new_view.view <= self.state.view {
            return false;
        }
        if new_view.id >= self.state.config.num_nodes {
            return false;
        }
        if self.state.config.leader_of(new_view.view) != new_view.id {
            return false;
        }
        let vcs_total = new_view.view_change_messages.len();
        let mut a: usize = 0;
        while a < vcs_total
            invariant
                self.wf(),
                new_view.view_change_messages@.len() == vcs_total,
                a <= vcs_total,
                forall|x: int, y: int|
                    0 <= x < y < vcs_total && x < a as int ==> (
                    #[trigger] new_view.view_change_messages@[x]).id
                        != (#[trigger] new_view.view_change_messages@[y]).id,
            decreases vcs_total - a,
        {
            let mut b: usize = a + 1;
            while b < vcs_total
                invariant
                    a < b || b == a + 1,
                    a < vcs_total,
                    b <= vcs_total,
                    new_view.view_change_messages@.len() == vcs_total,
                    forall|y: int|
                        a < y < b as int ==> (#[trigger] new_view.view_change_messages@[y]).id
                            != new_view.view_change_messages@[a as int].id,
                decreases vcs_total - b,
            {
                if new_view.view_change_messages[b].id == new_view.view_change_messages[a].id {
                    return false;
                }
                b = b + 1;
            }
            a = a + 1;
        }
        if vcs_total < self.state.config.quorum_size() {
            return false;
        }
        let mut i: usize = 0;
        while i < vcs_total
            invariant
                self.wf(),
                new_view.view_change_messages@.len() == vcs_total,
                i <= vcs_total,
                forall|k: int|
                    0 <= k < i as int ==> (#[trigger] new_view.view_change_messages@[k]).new_view
                        == new_view.view && view_change_admissible(
                        *self,
                        new_view.view_change_messages@[k],
                    ),
            decreases vcs_total - i,
        {
            let vc = &new_view.view_change_messages[i];
            if vc.new_view != new_view.view || vc.id >= self.state.config.num_nodes {
                return false;
            }
            if !vc.is_properly_signed_by(&self.state.config.public_keys[vc.id]) {
                return false;
            }
            let mut q: usize = 0;
            while q < vc.subsequent_prepares.len()
                invariant
                    self.wf(),
                    q <= vc.subsequent_prepares@.len(),
                    i < vcs_total,
                    new_view.view_change_messages@.len() == vcs_total,
                    *vc == new_view.view_change_messages@[i as int],
                    forall|j: int|
                        0 <= j < q as int ==> spec_proof_backed(
                            self.state.config,
                            #[trigger] vc.subsequent_prepares@[j],
                        ),
                decreases vc.subsequent_prepares@.len() - q,
            {
                if !self.prepared_proof_backed(&vc.subsequent_prepares[q]) {
                    proof {
                        assert(!spec_proof_backed(
                            self.state.config,
                            new_view.view_change_messages@[i as int].subsequent_prepares@[q as int],
                        ));
                        assert(!view_change_admissible(
                            *self,
                            new_view.view_change_messages@[i as int],
                        ));
                    }
                    return false;
                }
                q = q + 1;
            }
            i = i + 1;
        }
        let mut j: usize = 0;
        while j < new_view.outstanding_pre_prepares.len()
            invariant
                self.wf(),
                new_view.id < self.state.config.public_keys@.len(),
                j <= new_view.outstanding_pre_prepares@.len(),
                forall|k: int|
                    0 <= k < j as int ==> {
                        &&& (#[trigger] new_view.outstanding_pre_prepares@[k]).view
                            == new_view.view
                        &&& new_view.outstanding_pre_prepares@[k].id == new_view.id
                        &&& new_view.outstanding_pre_prepares@[k]@.client_request_digest
                            == request_digest(
                            new_view.outstanding_pre_prepares@[k]@.client_request,
                        )
                        &&& signature_valid(
                            self.state.config.public_keys@[new_view.id as int]@,
                            crate::messages::pre_prepare_prehash(
                                new_view.outstanding_pre_prepares@[k].view as nat,
                                new_view.outstanding_pre_prepares@[k].seq_num as nat,
                                request_digest(
                                    new_view.outstanding_pre_prepares@[k]@.client_request,
                                ),
                            ),
                            new_view.outstanding_pre_prepares@[k]@.signature,
                        )
                    },
            decreases new_view.outstanding_pre_prepares@.len() - j,
        {
            let pp = &new_view.outstanding_pre_prepares[j];
            if pp.view != new_view.view || pp.id != new_view.id {
                return false;
            }
            if !pp.digest_matches() {
                return false;
            }
            if !pp.is_properly_signed_by(&self.state.config.public_keys[new_view.id]) {
                return false;
            }
            j = j + 1;
        }
        true
    }

    /// Enter the announced view once the new-view message checks out:
    /// advance the view, leave the view-change state, take each carried
    /// pre-prepare as freshly arrived, re-route every request still being
    /// waited on, and re-arm its timer.
    pub fn handle_accept_new_view(&mut self, new_view: &NewView) -> (r: Outcome)
        requires
            old(self).wf(),
        ensures
            final(self).wf(),
            accept_new_view_transition(*old(self), *final(self), *new_view, r),
    {
        let mut outcome = Outcome::empty();
        if !self.new_view_acceptable(new_view) {
            return outcome;
        }
        self.state.view = new_view.view;
        self.state.in_view_change = false;
        if self.state.seq_num < self.state.last_seq_num_committed {
            self.state.seq_num = self.state.last_seq_num_committed;
        }
        let mut j: usize = 0;
        while j < new_view.outstanding_pre_prepares.len()
            invariant
                self.wf(),
                self.id == old(self).id,
                self.state.view == new_view.view,
                !self.state.in_view_change,
                self.state.last_seq_num_committed == old(self).state.last_seq_num_committed,
                self.state.last_stable_seq_num == old(self).state.last_stable_seq_num,
                self.state.store == old(self).state.store,
                self.state.message_bank == old(self).state.message_bank,
                self.view_changer == old(self).view_changer,
                outcome.node_commands@.len() == 0,
                outcome.new_timers@.len() == 0,
                j <= new_view.outstanding_pre_prepares@.len(),
                outcome.follow_ups@.len() == j as int,
                forall|k: int|
                    0 <= k < outcome.follow_ups@.len() ==> (#[trigger] outcome.follow_ups@[k]
                        matches ConsensusCommand::ProcessMessage(m) && (m matches
                    Message::PrePrepareMessage(p) && p@ == new_view.outstanding_pre_prepares@[k]@)),
            decreases new_view.outstanding_pre_prepares@.len() - j,
        {
            let pp = &new_view.outstanding_pre_prepares[j];
            if pp.seq_num > self.state.seq_num {
                self.state.seq_num = pp.seq_num;
            }
            let copy = pp.duplicate();
            let ghost prev = outcome.follow_ups@;
            outcome.follow_ups.push(
                ConsensusCommand::ProcessMessage(Message::PrePrepareMessage(copy)),
            );
            proof {
                assert forall|k: int|
                    0 <= k < outcome.follow_ups@.len() implies (#[trigger] outcome.follow_ups@[k]
                    matches ConsensusCommand::ProcessMessage(m) && (m matches
                Message::PrePrepareMessage(p) && p@ == new_view.outstanding_pre_prepares@[k]@)) by {
                    if k < prev.len() {
                        assert(outcome.follow_ups@[k] == prev[k]);
                    }
                }
            }
            j = j + 1;
        }
        let mut w: usize = 0;
        while w < self.view_changer.wait_set.len()
            invariant
                self.wf(),
                self.id == old(self).id,
                self.state.view == new_view.view,
                !self.state.in_view_change,
                self.state.last_seq_num_committed == old(self).state.last_seq_num_committed,
                self.state.last_stable_seq_num == old(self).state.last_stable_seq_num,
                self.state.store == old(self).state.store,
                self.state.message_bank == old(self).state.message_bank,
                self.view_changer == old(self).view_changer,
                outcome.node_commands@.len() == 0,
                w <= self.view_changer.wait_set@.len(),
                outcome.follow_ups@.len() == new_view.outstanding_pre_prepares@.len() + w as int,
                outcome.new_timers@.len() == w as int,
                forall|k: int|
                    0 <= k < new_view.outstanding_pre_prepares@.len() ==> (
                    #[trigger] outcome.follow_ups@[k] matches ConsensusCommand::ProcessMessage(m)
                        && (m matches Message::PrePrepareMessage(p) && p@
                        == new_view.outstanding_pre_prepares@[k]@)),
                forall|k: int|
                    new_view.outstanding_pre_prepares@.len() <= k < outcome.follow_ups@.len()
                        ==> (#[trigger] outcome.follow_ups@[k] matches
                    ConsensusCommand::ProcessMessage(m) && (m matches
                    Message::ClientRequestMessage(q) && q@ == self.view_changer.wait_set@[k
                        - new_view.outstanding_pre_prepares@.len()]@)),
                forall|k: int|
                    0 <= k < outcome.new_timers@.len() ==> (#[trigger] outcome.new_timers@[k])@
                        == self.view_changer.wait_set@[k]@,
            decreases self.view_changer.wait_set@.len() - w,
        {
            let request = self.view_changer.wait_set[w].duplicate();
            let ghost prev_follow = outcome.follow_ups@;
            let ghost prev_timers = outcome.new_timers@;
            outcome.follow_ups.push(
                ConsensusCommand::ProcessMessage(Message::ClientRequestMessage(request)),
            );
            outcome.new_timers.push(self.view_changer.wait_set[w].duplicate());
            proof {
                let off = new_view.outstanding_pre_prepares@.len() as int;
                assert forall|k: int|
                    off <= k < outcome.follow_ups@.len() implies (#[trigger] outcome.follow_ups@[k]
                    matches ConsensusCommand::ProcessMessage(m) && (m matches
                Message::ClientRequestMessage(q) && q@ == self.view_changer.wait_set@[k - off]@)) by {
                    if k < prev_follow.len() {
                        assert(outcome.follow_ups@[k] == prev_follow[k]);
                    }
                }
                assert forall|k: int|
                    0 <= k < outcome.new_timers@.len() implies (#[trigger] outcome.new_timers@[k])@
                    == self.view_changer.wait_set@[k]@ by {
                    if k < prev_timers.len() {
                        assert(outcome.new_timers@[k] == prev_timers[k]);
                    }
                }
            }
            w = w + 1;
        }
        outcome
    }
    /// Tally a signed checkpoint attestation, once per sender and
    /// `(committed_seq_num, state_digest)`. When `2f + 1` distinct replicas
    /// attest to the same pair, the checkpoint becomes stable: the stable
    /// sequence number strictly increases, its proof is recorded, and the
    /// log, accepted pre-prepares, parked messages and vote tallies at or
    /// below it are garbage-collected.
    pub fn handle_accept_checkpoint(&mut self, checkpoint: &CheckPoint) -> (r: Outcome)
        requires
            old(self).wf(),
        ensures
            final(self).wf(),
            final(self).state.last_stable_seq_num >= old(self).state.last_stable_seq_num,
            accept_checkpoint_transition(*old(self), *final(self), *checkpoint, r),
    {
        let outcome = Outcome::empty();
        if checkpoint.id >= self.state.config.num_nodes {
            return outcome;
        }
        let pub_key = &self.state.config.public_keys[checkpoint.id];
        if !checkpoint.is_properly_signed_by(pub_key) {
            return outcome;
        }
        if checkpoint.committed_seq_num <= self.state.last_stable_seq_num {
            return outcome;
        }
        let mut i: usize = 0;
        let mut matching: usize = 0;
        let total: usize = self.state.checkpoint_votes.len();
        proof {
            assert(self.state.checkpoint_votes@.subrange(0, 0) =~= Seq::<CheckPoint>::empty());
        }
        while i < total
            invariant
                i <= total,
                matching + (total - i) <= total,
                self.state.checkpoint_votes@.len() == total,
                *self == *old(self),
                old(self).wf(),
                outcome.node_commands@.len() == 0,
                outcome.follow_ups@.len() == 0,
                outcome.new_timers@.len() == 0,
                matching as nat == checkpoint_votes_for(
                    self.state.checkpoint_votes@.subrange(0, i as int),
                    checkpoint.committed_seq_num as nat,
                    checkpoint@.state_digest,
                ),
                forall|j: int|
                    0 <= j < i as int ==> !(checkpoint_vote_matches(
                        #[trigger] self.state.checkpoint_votes@[j],
                        checkpoint.committed_seq_num as nat,
                        checkpoint@.state_digest,
                    ) && self.state.checkpoint_votes@[j].id == checkpoint.id),
            decreases total - i,
        {
            let cv = &self.state.checkpoint_votes[i];
            proof {
                assert(self.state.checkpoint_votes@.subrange(0, i + 1).drop_last()
                    =~= self.state.checkpoint_votes@.subrange(0, i as int));
                assert(self.state.checkpoint_votes@.subrange(0, i + 1).last()
                    == self.state.checkpoint_votes@[i as int]);
            }
            let same_pair = cv.committed_seq_num == checkpoint.committed_seq_num && cv.state_digest
                == checkpoint.state_digest;
            proof {
                if same_pair {
                    assert(cv@.state_digest =~= checkpoint@.state_digest);
                }
                assert(same_pair == checkpoint_vote_matches(
                    self.state.checkpoint_votes@[i as int],
                    checkpoint.committed_seq_num as nat,
                    checkpoint@.state_digest,
                ));
            }
            if same_pair && cv.id == checkpoint.id {
                proof {
                    assert(has_checkpoint_vote(*old(self), *checkpoint));
                }
                return outcome;
            }
            if same_pair {
                matching = matching + 1;
            }
            i = i + 1;
        }
        proof {
            assert(self.state.checkpoint_votes@.subrange(0, total as int)
                =~= self.state.checkpoint_votes@);
        }
        let ghost before_push = self.state.checkpoint_votes@;
        self.state.checkpoint_votes.push(checkpoint.duplicate());
        proof {
            assert(self.state.checkpoint_votes@[before_push.len() as int]@ == checkpoint@);
            assert forall|i1: int, j1: int|
                0 <= i1 < j1 < self.state.checkpoint_votes@.len() implies !(
            (#[trigger] self.state.checkpoint_votes@[i1]).committed_seq_num
                == (#[trigger] self.state.checkpoint_votes@[j1]).committed_seq_num
                && self.state.checkpoint_votes@[i1]@.state_digest
                == self.state.checkpoint_votes@[j1]@.state_digest
                && self.state.checkpoint_votes@[i1].id
                == self.state.checkpoint_votes@[j1].id) by {
                if j1 < before_push.len() {
                    assert(self.state.checkpoint_votes@[i1] == before_push[i1]);
                    assert(self.state.checkpoint_votes@[j1] == before_push[j1]);
                } else {
                    assert(self.state.checkpoint_votes@[i1] == before_push[i1]);
                }
            }
            lemma_applied_same(old(self).state.message_bank, self.state.message_bank);
        }
        let quorum = self.state.config.quorum_size();
        if matching < quorum - 1 {
            return outcome;
        }
        let stable_seq = checkpoint.committed_seq_num;
        self.state.last_stable_seq_num = stable_seq;
        let mut proof_msgs: Vec<CheckPoint> = Vec::new();
        let mut k: usize = 0;
        while k < self.state.checkpoint_votes.len()
            invariant
                k <= self.state.checkpoint_votes@.len(),
                self.wf(),
                self.state.last_stable_seq_num == stable_seq,
                self.state.view == old(self).state.view,
                self.state.last_seq_num_committed == old(self).state.last_seq_num_committed,
                self.state.store == old(self).state.store,
                self.state.message_bank == old(self).state.message_bank,
                self.state.prepare_votes == old(self).state.prepare_votes,
                self.state.commit_votes == old(self).state.commit_votes,
            decreases self.state.checkpoint_votes@.len() - k,
        {
            let cv = &self.state.checkpoint_votes[k];
            if cv.committed_seq_num == stable_seq && cv.state_digest == checkpoint.state_digest {
                proof_msgs.push(cv.duplicate());
            }
            k = k + 1;
        }
        self.state.stable_proof = proof_msgs;
        self.state.message_bank.truncate(stable_seq);
        proof {
            lemma_applied_same(old(self).state.message_bank, self.state.message_bank);
        }
        self.state.prepare_votes.truncate(stable_seq);
        self.state.commit_votes.truncate(stable_seq);
        outcome
    }

    /// Handle one command to completion: dispatch an arriving message
    /// through the admission rules, or perform the state transition an
    /// internal command asks for. Each variant behaves exactly as its
    /// handler's transition predicate says, and views, the committed prefix
    /// and the stable checkpoint only ever advance.
    pub fn handle_command(&mut self, command: &ConsensusCommand) -> (r: Outcome)
        requires
            old(self).wf(),
        ensures
            final(self).wf(),
            final(self).state.view >= old(self).state.view,
            final(self).state.last_seq_num_committed >= old(self).state.last_seq_num_committed,
            final(self).state.last_stable_seq_num >= old(self).state.last_stable_seq_num,
            command matches ConsensusCommand::ProcessMessage(m)
                ==> process_message_transition(*old(self), *final(self), *m, r),
            command matches ConsensusCommand::MisdirectedClientRequest(q)
                ==> misdirected_transition(*old(self), *final(self), *q, r),
            command matches ConsensusCommand::InitPrePrepare(q) ==> init_pre_prepare_transition(
                *old(self),
                *final(self),
                *q,
                r,
            ),
            command matches ConsensusCommand::AcceptPrePrepare(pp)
                ==> accept_pre_prepare_transition(*old(self), *final(self), *pp, r),
            command matches ConsensusCommand::AcceptPrepare(p) ==> accept_prepare_transition(
                *old(self),
                *final(self),
                *p,
                r,
            ),
            command matches ConsensusCommand::EnterCommit(p) ==> enter_commit_transition(
                *old(self),
                *final(self),
                *p,
                r,
            ),
            command matches ConsensusCommand::AcceptCommit(c) ==> accept_commit_transition(
                *old(self),
                *final(self),
                *c,
                r,
            ),
            command matches ConsensusCommand::ApplyCommit(c) ==> apply_commit_transition(
                *old(self),
                *final(self),
                *c,
                r,
            ),
            command matches ConsensusCommand::InitViewChange(_)
                ==> init_view_change_transition(*old(self), *final(self), r),
            command matches ConsensusCommand::AcceptViewChange(vc)
                ==> accept_view_change_transition(*old(self), *final(self), *vc, r),
            command matches ConsensusCommand::AcceptNewView(nv) ==> accept_new_view_transition(
                *old(self),
                *final(self),
                *nv,
                r,
            ),
            command matches ConsensusCommand::AcceptCheckpoint(cp)
                ==> accept_checkpoint_transition(*old(self), *final(self), *cp, r),
    {
        match command {
            ConsensusCommand::ProcessMessage(message) => self.handle_process_message(message),
            ConsensusCommand::MisdirectedClientRequest(request) => {
                self.handle_misdirected_client_request(request)
            },
            ConsensusCommand::InitPrePrepare(request) => self.handle_init_pre_prepare(request),
            ConsensusCommand::AcceptPrePrepare(pre_prepare) => {
                self.handle_accept_pre_prepare(pre_prepare)
            },
            ConsensusCommand::AcceptPrepare(prepare) => self.handle_accept_prepare(prepare),
            ConsensusCommand::EnterCommit(prepare) => self.handle_enter_commit(prepare),
            ConsensusCommand::AcceptCommit(commit) => self.handle_accept_commit(commit),
            ConsensusCommand::ApplyCommit(commit) => self.handle_apply_commit(commit),
            ConsensusCommand::InitViewChange(request) => self.handle_init_view_change(request),
            ConsensusCommand::AcceptViewChange(view_change) => {
                self.handle_accept_view_change(view_change)
            },
            ConsensusCommand::AcceptNewView(new_view) => self.handle_accept_new_view(new_view),
            ConsensusCommand::AcceptCheckpoint(checkpoint) => {
                self.handle_accept_checkpoint(checkpoint)
            },
        }
    }

    /// Dispatch an arriving message by variant: phase messages go through
    /// the admission rules of the state (accepted, parked or silently
    /// dropped), client requests through the request path, and view-change
    /// traffic to its tallies. Identifier handshakes and stray client
    /// responses are transport-level and ignored here.
    pub fn handle_process_message(&mut self, message: &Message) -> (r: Outcome)
        requires
            old(self).wf(),
        ensures
            final(self).wf(),
            final(self).state.view >= old(self).state.view,
            final(self).state.last_seq_num_committed >= old(self).state.last_seq_num_committed,
            final(self).state.last_stable_seq_num >= old(self).state.last_stable_seq_num,
            process_message_transition(*old(self), *final(self), *message, r),
    {
        match message {
            Message::PrePrepareMessage(pre_prepare) => {
                let mut outcome = Outcome::empty();
                if self.state.should_accept_pre_prepare(pre_prepare) {
                    outcome.follow_ups.push(
                        ConsensusCommand::AcceptPrePrepare(pre_prepare.duplicate()),
                    );
                }
                outcome
            },
            Message::PrepareMessage(prepare) => {
                let mut outcome = Outcome::empty();
                match self.state.prepare_admission(prepare) {
                    Admission::Accept => {
                        outcome.follow_ups.push(
                            ConsensusCommand::AcceptPrepare(prepare.duplicate()),
                        );
                    },
                    Admission::Park => {
                        let parked = prepare.duplicate();
                        self.state.message_bank.park_prepare(parked);
                        proof {
                            lemma_applied_same(
                                old(self).state.message_bank,
                                self.state.message_bank,
                            );
                            if !old(self).state.message_bank.has_outstanding_prepare(prepare@) {
                                assert(self.state.message_bank.outstanding_prepares@[
                                    self.state.message_bank.outstanding_prepares@.len() - 1]@
                                    == prepare@);
                            }
                        }
                    },
                    Admission::Drop => {},
                }
                outcome
            },
            Message::CommitMessage(commit) => {
                let mut outcome = Outcome::empty();
                match self.state.commit_admission(commit) {
                    Admission::Accept => {
                        outcome.follow_ups.push(
                            ConsensusCommand::AcceptCommit(commit.duplicate()),
                        );
                    },
                    Admission::Park => {
                        let parked = commit.duplicate();
                        self.state.message_bank.park_commit(parked);
                        proof {
                            lemma_applied_same(
                                old(self).state.message_bank,
                                self.state.message_bank,
                            );
                            if !old(self).state.message_bank.has_outstanding_commit(commit@) {
                                assert(self.state.message_bank.outstanding_commits@[
                                    self.state.message_bank.outstanding_commits@.len() - 1]@
                                    == commit@);
                            }
                        }
                    },
                    Admission::Drop => {},
                }
                outcome
            },
            Message::ClientRequestMessage(request) => self.handle_client_request(request),
            Message::ViewChangeMessage(view_change) => {
                let mut outcome = Outcome::empty();
                outcome.follow_ups.push(
                    ConsensusCommand::AcceptViewChange(view_change.duplicate()),
                );
                outcome
            },
            Message::NewViewMessage(new_view) => {
                let mut outcome = Outcome::empty();
                outcome.follow_ups.push(ConsensusCommand::AcceptNewView(new_view.duplicate()));
                outcome
            },
            Message::CheckPointMessage(checkpoint) => {
                let mut outcome = Outcome::empty();
                outcome.follow_ups.push(
                    ConsensusCommand::AcceptCheckpoint(checkpoint.duplicate()),
                );
                outcome
            },
            Message::IdentifierMessage(_) => Outcome::empty(),
            Message::ClientResponseMessage(_) => Outcome::empty(),
        }
    }
}

/// Applying the next sequence number keeps the applied prefix contiguous.
proof fn lemma_contiguous_extend(before: State, after: State, seq_num: nat)
    requires
        committed_contiguous(before),
        seq_num == before.last_seq_num_committed as nat + 1,
        after.last_seq_num_committed as nat == seq_num,
        after.message_bank.applied@ == before.message_bank.applied@.push(
            after.message_bank.applied@.last(),
        ),
        after.message_bank.applied@.last().commit.seq_num as nat == seq_num,
    ensures
        committed_contiguous(after),
{
    assert forall|q: nat|
        #[trigger] after.message_bank.has_applied(q) implies 1 <= q
        <= after.last_seq_num_committed as nat by {
        let i = choose|i: int|
            0 <= i < after.message_bank.applied@.len()
                && #[trigger] after.message_bank.applied@[i].commit.seq_num as nat == q;
        if i < before.message_bank.applied@.len() {
            assert(before.message_bank.applied@[i].commit.seq_num as nat == q);
            assert(before.message_bank.has_applied(q));
        }
    }
    assert forall|q: nat|
        1 <= q <= after.last_seq_num_committed as nat implies #[trigger] after.message_bank.has_applied(
        q,
    ) by {
        if q < seq_num {
            assert(before.message_bank.has_applied(q));
            let i = choose|i: int|
                0 <= i < before.message_bank.applied@.len()
                    && #[trigger] before.message_bank.applied@[i].commit.seq_num as nat == q;
            assert(after.message_bank.applied@[i].commit.seq_num as nat == q);
        } else {
            let last_index = after.message_bank.applied@.len() - 1;
            assert(after.message_bank.applied@[last_index].commit.seq_num as nat == q);
        }
    }
}

/// Banks whose applied histories are equal agree on what has been applied.
proof fn lemma_applied_same(
    bank1: crate::message_bank::MessageBank,
    bank2: crate::message_bank::MessageBank,
)
    requires
        bank1.applied@ == bank2.applied@,
    ensures
        forall|q: nat|
            #![trigger bank1.has_applied(q)]
            #![trigger bank2.has_applied(q)]
            bank1.has_applied(q) == bank2.has_applied(q),
{
    assert forall|q: nat|
        #![trigger bank1.has_applied(q)]
        #![trigger bank2.has_applied(q)]
        bank1.has_applied(q) == bank2.has_applied(q) by {
        if bank1.has_applied(q) {
            let i = choose|i: int|
                0 <= i < bank1.applied@.len() && #[trigger] bank1.applied@[i].commit.seq_num as nat
                    == q;
            assert(bank2.applied@[i].commit.seq_num as nat == q);
        }
        if bank2.has_applied(q) {
            let i = choose|i: int|
                0 <= i < bank2.applied@.len() && #[trigger] bank2.applied@[i].commit.seq_num as nat
                    == q;
            assert(bank1.applied@[i].commit.seq_num as nat == q);
        }
    }
}

} // verus!
