//! The in-memory record of everything protocol-relevant a replica has
//! accepted or parked: the append-only log, the accepted pre-prepares, the
//! out-of-order prepares and commits waiting for their preconditions, the
//! committed-but-not-yet-applied commits, and the applied history.

use vstd::prelude::*;

use crate::messages::{
    ClientRequest, ClientResponse, Commit, CommitView, Message, PrePrepare, PrepareView, Prepare,
};

verus! {

/// The sequence number a log entry is about, where it has one.
pub open spec fn message_seq_num(m: Message) -> Option<nat> {
    match m {
        Message::PrePrepareMessage(pp) => Some(pp.seq_num as nat),
        Message::PrepareMessage(p) => Some(p.seq_num as nat),
        Message::CommitMessage(c) => Some(c.seq_num as nat),
        _ => None,
    }
}

/// Whether a log entry survives truncation at a stable checkpoint: entries
/// about sequence numbers at or below it are dropped.
pub open spec fn log_entry_retained(m: Message, stable_seq_num: nat) -> bool {
    match message_seq_num(m) {
        Some(s) => s > stable_seq_num,
        None => true,
    }
}

/// The log entries that survive truncation, in order.
pub open spec fn log_above(s: Seq<Message>, stable_seq_num: nat) -> Seq<Message>
    decreases s.len(),
{
    if s.len() == 0 {
        Seq::empty()
    } else {
        let rest = log_above(s.drop_last(), stable_seq_num);
        if log_entry_retained(s.last(), stable_seq_num) {
            rest.push(s.last())
        } else {
            rest
        }
    }
}

/// The accepted pre-prepare for the slot `(view, seq_num)`, if any.
pub open spec fn pre_prepare_at(s: Seq<PrePrepare>, view: nat, seq_num: nat) -> Option<PrePrepare>
    decreases s.len(),
{
    if s.len() == 0 {
        None
    } else if s.last().view as nat == view && s.last().seq_num as nat == seq_num {
        Some(s.last())
    } else {
        pre_prepare_at(s.drop_last(), view, seq_num)
    }
}

/// The accepted pre-prepares that survive truncation at a stable checkpoint.
pub open spec fn pre_prepares_above(s: Seq<PrePrepare>, stable_seq_num: nat) -> Seq<PrePrepare>
    decreases s.len(),
{
    if s.len() == 0 {
        Seq::empty()
    } else {
        let rest = pre_prepares_above(s.drop_last(), stable_seq_num);
        if s.last().seq_num > stable_seq_num {
            rest.push(s.last())
        } else {
            rest
        }
    }
}

/// An applied request: the commit that authorized it, the request itself,
/// and the signed response that was sent, kept so a replay can be answered
/// without re-applying.
pub struct AppliedEntry {
    pub commit: Commit,
    pub request: ClientRequest,
    pub response: ClientResponse,
}

/// The record of everything protocol-relevant.
pub struct MessageBank {
    /// Accepted messages, in acceptance order, truncated at stable
    /// checkpoints.
    pub log: Vec<Message>,
    /// The accepted pre-prepare of each `(view, seq_num)` slot.
    pub accepted_pre_prepares: Vec<PrePrepare>,
    /// Signature-valid prepares that arrived before their pre-prepare.
    pub outstanding_prepares: Vec<Prepare>,
    /// Signature-valid commits that arrived before their slot prepared.
    pub outstanding_commits: Vec<Commit>,
    /// Committed-local commits waiting for a predecessor to apply.
    pub accepted_commits_not_applied: Vec<Commit>,
    /// Everything applied so far, in sequence-number order.
    pub applied: Vec<AppliedEntry>,
}

impl MessageBank {
    /// At most one pre-prepare is ever recorded per `(view, seq_num)` slot.
    pub open spec fn wf(&self) -> bool {
        forall|i: int, j: int|
            0 <= i < j < self.accepted_pre_prepares@.len() ==> !(
            #[trigger] self.accepted_pre_prepares@[i].view
                == #[trigger] self.accepted_pre_prepares@[j].view
                && self.accepted_pre_prepares@[i].seq_num
                == self.accepted_pre_prepares@[j].seq_num)
    }

    pub open spec fn has_outstanding_prepare(&self, v: PrepareView) -> bool {
        exists|i: int|
            0 <= i < self.outstanding_prepares@.len() && #[trigger] self.outstanding_prepares@[i]@
                == v
    }

    pub open spec fn has_outstanding_commit(&self, v: CommitView) -> bool {
        exists|i: int|
            0 <= i < self.outstanding_commits@.len() && #[trigger] self.outstanding_commits@[i]@
                == v
    }

    /// Whether a committed-local commit for `seq_num` is parked, waiting
    /// for a predecessor.
    pub open spec fn has_pending_commit(&self, seq_num: nat) -> bool {
        exists|i: int|
            0 <= i < self.accepted_commits_not_applied@.len()
                && #[trigger] self.accepted_commits_not_applied@[i].seq_num as nat == seq_num
    }

    /// Whether sequence number `seq_num` has been applied.
    pub open spec fn has_applied(&self, seq_num: nat) -> bool {
        exists|i: int|
            0 <= i < self.applied@.len() && #[trigger] self.applied@[i].commit.seq_num as nat
                == seq_num
    }

    /// Whether a request from this origin (responder address and client
    /// timestamp) has been applied.
    pub open spec fn has_applied_origin(&self, respond_addr: Seq<char>, time_stamp: nat) -> bool {
        exists|i: int|
            0 <= i < self.applied@.len() && #[trigger] self.applied@[i].request@.respond_addr
                == respond_addr && self.applied@[i].request@.time_stamp == time_stamp
    }

    pub fn new() -> (r: MessageBank)
        ensures
            r.wf(),
            r.log@ =~= Seq::<Message>::empty(),
            r.accepted_pre_prepares@ =~= Seq::<PrePrepare>::empty(),
            r.outstanding_prepares@ =~= Seq::<Prepare>::empty(),
            r.outstanding_commits@ =~= Seq::<Commit>::empty(),
            r.accepted_commits_not_applied@ =~= Seq::<Commit>::empty(),
            r.applied@ =~= Seq::<AppliedEntry>::empty(),
    {
        MessageBank {
            log: Vec::new(),
            accepted_pre_prepares: Vec::new(),
            outstanding_prepares: Vec::new(),
            outstanding_commits: Vec::new(),
            accepted_commits_not_applied: Vec::new(),
            applied: Vec::new(),
        }
    }

    /// The accepted pre-prepare bound to `(view, seq_num)`, if any.
    pub fn get_pre_prepare(&self, view: usize, seq_num: usize) -> (r: Option<&PrePrepare>)
        ensures
            (match r {
                Some(p) => pre_prepare_at(self.accepted_pre_prepares@, view as nat, seq_num as nat)
                    == Some(*p),
                None => pre_prepare_at(self.accepted_pre_prepares@, view as nat, seq_num as nat)
                    is None,
            }),
    {
        let mut remaining: usize = self.accepted_pre_prepares.len();
        proof {
            assert(self.accepted_pre_prepares@.subrange(
                0,
                self.accepted_pre_prepares@.len() as int,
            ) =~= self.accepted_pre_prepares@);
        }
        while remaining > 0
            invariant
                remaining <= self.accepted_pre_prepares@.len(),
                pre_prepare_at(self.accepted_pre_prepares@, view as nat, seq_num as nat)
                    == pre_prepare_at(
                    self.accepted_pre_prepares@.subrange(0, remaining as int),
                    view as nat,
                    seq_num as nat,
                ),
            decreases remaining,
        {
            let p = &self.accepted_pre_prepares[remaining - 1];
            proof {
                assert(self.accepted_pre_prepares@.subrange(0, remaining as int).drop_last()
                    =~= self.accepted_pre_prepares@.subrange(0, remaining - 1));
            }
            if p.view == view && p.seq_num == seq_num {
                return Some(p);
            }
            remaining = remaining - 1;
        }
        proof {
            assert(self.accepted_pre_prepares@.subrange(0, 0) =~= Seq::<PrePrepare>::empty());
        }
        None
    }

    /// Record the accepted pre-prepare of a so-far-unbound slot.
    pub fn insert_pre_prepare(&mut self, pre_prepare: PrePrepare)
        requires
            old(self).wf(),
            pre_prepare_at(
                old(self).accepted_pre_prepares@,
                pre_prepare.view as nat,
                pre_prepare.seq_num as nat,
            ) is None,
        ensures
            *final(self) == (MessageBank {
                accepted_pre_prepares: final(self).accepted_pre_prepares,
                ..*old(self)
            }),
            final(self).accepted_pre_prepares@ == old(self).accepted_pre_prepares@.push(
                pre_prepare,
            ),
            final(self).wf(),
    {
        proof {
            lemma_pre_prepare_at_none(
                self.accepted_pre_prepares@,
                pre_prepare.view as nat,
                pre_prepare.seq_num as nat,
            );
        }
        self.accepted_pre_prepares.push(pre_prepare);
    }

    /// Append an accepted message to the log.
    pub fn append_log(&mut self, message: Message)
        requires
            old(self).wf(),
        ensures
            *final(self) == (MessageBank { log: final(self).log, ..*old(self) }),
            final(self).log@ == old(self).log@.push(message),
            final(self).wf(),
    {
        self.log.push(message);
    }


    /// Park a prepare whose pre-prepare has not been accepted yet. Parking
    /// is idempotent.
    pub fn park_prepare(&mut self, prepare: Prepare)
        requires
            old(self).wf(),
        ensures
            *final(self) == (MessageBank {
                outstanding_prepares: final(self).outstanding_prepares,
                ..*old(self)
            }),
            old(self).has_outstanding_prepare(prepare@) ==> *final(self) == *old(self),
            !old(self).has_outstanding_prepare(prepare@) ==> final(self).outstanding_prepares@
                == old(self).outstanding_prepares@.push(prepare),
            final(self).wf(),
    {
        let mut i: usize = 0;
        while i < self.outstanding_prepares.len()
            invariant
                i <= self.outstanding_prepares@.len(),
                *self == *old(self),
                old(self).wf(),
                forall|j: int|
                    0 <= j < i as int ==> !(#[trigger] self.outstanding_prepares@[j]@ == prepare@),
            decreases self.outstanding_prepares@.len() - i,
        {
            if self.outstanding_prepares[i].equals(&prepare) {
                return ;
            }
            i = i + 1;
        }
        self.outstanding_prepares.push(prepare);
    }

    /// Park a commit whose slot has not prepared yet. Parking is idempotent.
    pub fn park_commit(&mut self, commit: Commit)
        requires
            old(self).wf(),
        ensures
            *final(self) == (MessageBank {
                outstanding_commits: final(self).outstanding_commits,
                ..*old(self)
            }),
            old(self).has_outstanding_commit(commit@) ==> *final(self) == *old(self),
            !old(self).has_outstanding_commit(commit@) ==> final(self).outstanding_commits@
                == old(self).outstanding_commits@.push(commit),
            final(self).wf(),
    {
        let mut i: usize = 0;
        while i < self.outstanding_commits.len()
            invariant
                i <= self.outstanding_commits@.len(),
                *self == *old(self),
                old(self).wf(),
                forall|j: int|
                    0 <= j < i as int ==> !(#[trigger] self.outstanding_commits@[j]@ == commit@),
            decreases self.outstanding_commits@.len() - i,
        {
            if self.outstanding_commits[i].equals(&commit) {
                return ;
            }
            i = i + 1;
        }
        self.outstanding_commits.push(commit);
    }

    /// Drop every parked prepare equal to `prepare`, which is being
    /// accepted.
    pub fn remove_outstanding_prepare(&mut self, prepare: &Prepare)
        requires
            old(self).wf(),
        ensures
            *final(self) == (MessageBank {
                outstanding_prepares: final(self).outstanding_prepares,
                ..*old(self)
            }),
            forall|v: PrepareView|
                #[trigger] final(self).has_outstanding_prepare(v) == (old(
                    self,
                ).has_outstanding_prepare(v) && !(v == prepare@)),
            final(self).wf(),
    {
        let mut kept: Vec<Prepare> = Vec::new();
        let mut i: usize = 0;
        while i < self.outstanding_prepares.len()
            invariant
                i <= self.outstanding_prepares@.len(),
                *self == *old(self),
                forall|v: PrepareView|
                    #[trigger] seq_has_prepare(kept@, v) == ((exists|j: int|
                        0 <= j < i as int && #[trigger] self.outstanding_prepares@[j]@ == v) && !(v
                        == prepare@)),
            decreases self.outstanding_prepares@.len() - i,
        {
            let p = &self.outstanding_prepares[i];
            if !p.equals(prepare) {
                let copy = p.duplicate();
                proof {
                    lemma_seq_has_prepare_push(kept@, copy);
                }
                kept.push(copy);
            }
            i = i + 1;
        }
        self.outstanding_prepares = kept;
        proof {
            assert forall|v: PrepareView|
                #[trigger] self.has_outstanding_prepare(v) implies seq_has_prepare(kept@, v) by {
                let k = choose|k: int|
                    0 <= k < self.outstanding_prepares@.len()
                        && #[trigger] self.outstanding_prepares@[k]@ == v;
                assert(kept@[k]@ == v);
            }
            assert forall|v: PrepareView|
                seq_has_prepare(kept@, v) implies self.has_outstanding_prepare(v) by {
                let k = choose|k: int| 0 <= k < kept@.len() && #[trigger] kept@[k]@ == v;
                assert(self.outstanding_prepares@[k]@ == v);
            }
        }
    }

    /// Drop every parked commit equal to `commit`, which is being accepted.
    pub fn remove_outstanding_commit(&mut self, commit: &Commit)
        requires
            old(self).wf(),
        ensures
            *final(self) == (MessageBank {
                outstanding_commits: final(self).outstanding_commits,
                ..*old(self)
            }),
            forall|v: CommitView|
                #[trigger] final(self).has_outstanding_commit(v) == (old(
                    self,
                ).has_outstanding_commit(v) && !(v == commit@)),
            final(self).wf(),
    {
        let mut kept: Vec<Commit> = Vec::new();
        let mut i: usize = 0;
        while i < self.outstanding_commits.len()
            invariant
                i <= self.outstanding_commits@.len(),
                *self == *old(self),
                forall|v: CommitView|
                    #[trigger] seq_has_commit(kept@, v) == ((exists|j: int|
                        0 <= j < i as int && #[trigger] self.outstanding_commits@[j]@ == v) && !(v
                        == commit@)),
            decreases self.outstanding_commits@.len() - i,
        {
            let c = &self.outstanding_commits[i];
            if !c.equals(commit) {
                let copy = c.duplicate();
                proof {
                    lemma_seq_has_commit_push(kept@, copy);
                }
                kept.push(copy);
            }
            i = i + 1;
        }
        self.outstanding_commits = kept;
        proof {
            assert forall|v: CommitView|
                #[trigger] self.has_outstanding_commit(v) implies seq_has_commit(kept@, v) by {
                let k = choose|k: int|
                    0 <= k < self.outstanding_commits@.len()
                        && #[trigger] self.outstanding_commits@[k]@ == v;
                assert(kept@[k]@ == v);
            }
            assert forall|v: CommitView|
                seq_has_commit(kept@, v) implies self.has_outstanding_commit(v) by {
                let k = choose|k: int| 0 <= k < kept@.len() && #[trigger] kept@[k]@ == v;
                assert(self.outstanding_commits@[k]@ == v);
            }
        }
    }

    /// The parked prepares that vote for the slot and digest bound by
    /// `pre_prepare`, ready to be reprocessed now that it is accepted.
    pub fn matching_outstanding_prepares(&self, pre_prepare: &PrePrepare) -> (r: Vec<Prepare>)
        ensures
            forall|k: int|
                0 <= k < r@.len() ==> crate::messages::prepare_corresponds(
                    #[trigger] r@[k]@,
                    pre_prepare@,
                ) && self.has_outstanding_prepare(r@[k]@),
            forall|j: int|
                0 <= j < self.outstanding_prepares@.len()
                    && crate::messages::prepare_corresponds(
                    #[trigger] self.outstanding_prepares@[j]@,
                    pre_prepare@,
                ) ==> seq_has_prepare(r@, self.outstanding_prepares@[j]@),
    {
        let mut r: Vec<Prepare> = Vec::new();
        let mut i: usize = 0;
        while i < self.outstanding_prepares.len()
            invariant
                i <= self.outstanding_prepares@.len(),
                forall|k: int|
                    0 <= k < r@.len() ==> crate::messages::prepare_corresponds(
                        #[trigger] r@[k]@,
                        pre_prepare@,
                    ) && self.has_outstanding_prepare(r@[k]@),
                forall|j: int|
                    0 <= j < i as int && crate::messages::prepare_corresponds(
                        #[trigger] self.outstanding_prepares@[j]@,
                        pre_prepare@,
                    ) ==> seq_has_prepare(r@, self.outstanding_prepares@[j]@),
            decreases self.outstanding_prepares@.len() - i,
        {
            let p = &self.outstanding_prepares[i];
            if p.corresponds_to(pre_prepare) {
                let copy = p.duplicate();
                proof {
                    lemma_seq_has_prepare_push(r@, copy);
                    assert(self.outstanding_prepares@[i as int]@ == copy@);
                }
                r.push(copy);
            } else {
                proof {
                    assert forall|j: int|
                        0 <= j < i + 1 && crate::messages::prepare_corresponds(
                            #[trigger] self.outstanding_prepares@[j]@,
                            pre_prepare@,
                        ) implies seq_has_prepare(r@, self.outstanding_prepares@[j]@) by {}
                }
            }
            i = i + 1;
        }
        r
    }

    /// The parked commits that vote for the same slot as `prepare`, ready to
    /// be reprocessed now that the slot has prepared.
    pub fn matching_outstanding_commits(&self, prepare: &Prepare) -> (r: Vec<Commit>)
        ensures
            forall|k: int|
                0 <= k < r@.len() ==> crate::messages::commit_corresponds(
                    #[trigger] r@[k]@,
                    prepare@,
                ) && self.has_outstanding_commit(r@[k]@),
            forall|j: int|
                0 <= j < self.outstanding_commits@.len() && crate::messages::commit_corresponds(
                    #[trigger] self.outstanding_commits@[j]@,
                    prepare@,
                ) ==> seq_has_commit(r@, self.outstanding_commits@[j]@),
    {
        let mut r: Vec<Commit> = Vec::new();
        let mut i: usize = 0;
        while i < self.outstanding_commits.len()
            invariant
                i <= self.outstanding_commits@.len(),
                forall|k: int|
                    0 <= k < r@.len() ==> crate::messages::commit_corresponds(
                        #[trigger] r@[k]@,
                        prepare@,
                    ) && self.has_outstanding_commit(r@[k]@),
                forall|j: int|
                    0 <= j < i as int && crate::messages::commit_corresponds(
                        #[trigger] self.outstanding_commits@[j]@,
                        prepare@,
                    ) ==> seq_has_commit(r@, self.outstanding_commits@[j]@),
            decreases self.outstanding_commits@.len() - i,
        {
            let c = &self.outstanding_commits[i];
            if c.corresponds_to(prepare) {
                let copy = c.duplicate();
                proof {
                    lemma_seq_has_commit_push(r@, copy);
                    assert(self.outstanding_commits@[i as int]@ == copy@);
                }
                r.push(copy);
            }
            i = i + 1;
        }
        r
    }

    /// Park a committed-local commit that must wait for a predecessor.
    /// Parking is idempotent per sequence number.
    pub fn park_pending_commit(&mut self, commit: Commit)
        requires
            old(self).wf(),
        ensures
            *final(self) == (MessageBank {
                accepted_commits_not_applied: final(self).accepted_commits_not_applied,
                ..*old(self)
            }),
            final(self).accepted_commits_not_applied@ == (if old(self).has_pending_commit(
                commit.seq_num as nat,
            ) {
                old(self).accepted_commits_not_applied@
            } else {
                old(self).accepted_commits_not_applied@.push(commit)
            }),
            final(self).wf(),
    {
        let mut i: usize = 0;
        while i < self.accepted_commits_not_applied.len()
            invariant
                i <= self.accepted_commits_not_applied@.len(),
                *self == *old(self),
                old(self).wf(),
                forall|j: int|
                    0 <= j < i as int ==> #[trigger] self.accepted_commits_not_applied@[j].seq_num
                        != commit.seq_num,
            decreases self.accepted_commits_not_applied@.len() - i,
        {
            if self.accepted_commits_not_applied[i].seq_num == commit.seq_num {
                return ;
            }
            i = i + 1;
        }
        self.accepted_commits_not_applied.push(commit);
    }

    /// Remove and return a parked commit for `seq_num`, if one is there.
    pub fn take_pending_commit(&mut self, seq_num: usize) -> (r: Option<Commit>)
        requires
            old(self).wf(),
        ensures
            *final(self) == (MessageBank {
                accepted_commits_not_applied: final(self).accepted_commits_not_applied,
                ..*old(self)
            }),
            final(self).wf(),
            (match r {
                Some(c) => c.seq_num == seq_num && (exists|j: int|
                    0 <= j < old(self).accepted_commits_not_applied@.len()
                        && #[trigger] old(self).accepted_commits_not_applied@[j]@ == c@),
                None => !old(self).has_pending_commit(seq_num as nat),
            }),
            !final(self).has_pending_commit(seq_num as nat),
            forall|j: int|
                0 <= j < final(self).accepted_commits_not_applied@.len() ==> (exists|k: int|
                    0 <= k < old(self).accepted_commits_not_applied@.len()
                        && #[trigger] final(self).accepted_commits_not_applied@[j]@
                        == #[trigger] old(self).accepted_commits_not_applied@[k]@),
            r is Some ==> final(self).accepted_commits_not_applied@.len() < old(
                self,
            ).accepted_commits_not_applied@.len(),
    {
        let mut kept: Vec<Commit> = Vec::new();
        let mut found: Option<Commit> = None;
        let mut i: usize = 0;
        while i < self.accepted_commits_not_applied.len()
            invariant
                i <= self.accepted_commits_not_applied@.len(),
                *self == *old(self),
                kept@.len() + (match found {
                    Some(_) => 1int,
                    None => 0int,
                }) <= i as int,
                (match found {
                    Some(c) => c.seq_num == seq_num && (exists|j: int|
                        0 <= j < i as int
                            && #[trigger] self.accepted_commits_not_applied@[j]@ == c@),
                    None => forall|j: int|
                        0 <= j < i as int
                            ==> #[trigger] self.accepted_commits_not_applied@[j].seq_num
                            != seq_num,
                }),
                forall|j: int|
                    0 <= j < kept@.len() ==> #[trigger] kept@[j].seq_num != seq_num,
                forall|j: int|
                    0 <= j < kept@.len() ==> (exists|k: int|
                        0 <= k < i as int && #[trigger] kept@[j]@
                            == #[trigger] self.accepted_commits_not_applied@[k]@),
            decreases self.accepted_commits_not_applied@.len() - i,
        {
            let c = &self.accepted_commits_not_applied[i];
            let copy = c.duplicate();
            proof {
                assert(self.accepted_commits_not_applied@[i as int]@ == copy@);
            }
            if c.seq_num == seq_num {
                found = Some(copy);
            } else {
                kept.push(copy);
            }
            i = i + 1;
        }
        self.accepted_commits_not_applied = kept;
        found
    }

    /// Record an applied request, its commit and the response that was
    /// sent.
    pub fn append_applied(&mut self, entry: AppliedEntry)
        requires
            old(self).wf(),
        ensures
            *final(self) == (MessageBank { applied: final(self).applied, ..*old(self) }),
            final(self).applied@ == old(self).applied@.push(entry),
            final(self).wf(),
    {
        self.applied.push(entry);
    }

    /// The applied entry answering a request from the same origin, if any:
    /// a replay is answered from here instead of being applied again.
    pub fn find_applied_by_origin(&self, request: &ClientRequest) -> (r: Option<&AppliedEntry>)
        ensures
            (match r {
                Some(e) => (exists|j: int|
                    0 <= j < self.applied@.len() && #[trigger] self.applied@[j] == *e)
                    && e.request@.respond_addr == request@.respond_addr && e.request@.time_stamp
                    == request@.time_stamp,
                None => !self.has_applied_origin(request@.respond_addr, request@.time_stamp),
            }),
    {
        let mut i: usize = 0;
        while i < self.applied.len()
            invariant
                i <= self.applied@.len(),
                forall|j: int|
                    0 <= j < i as int ==> !(#[trigger] self.applied@[j].request@.respond_addr
                        == request@.respond_addr && self.applied@[j].request@.time_stamp
                        == request@.time_stamp),
            decreases self.applied@.len() - i,
        {
            let e = &self.applied[i];
            if e.request.same_origin(request) {
                return Some(e);
            }
            i = i + 1;
        }
        None
    }

    /// Garbage-collect everything a stable checkpoint at `stable_seq_num`
    /// supersedes: log entries, accepted pre-prepares and parked messages
    /// about sequence numbers at or below it. Applied history and pending
    /// commits are untouched.
    pub fn truncate(&mut self, stable_seq_num: usize)
        requires
            old(self).wf(),
        ensures
            final(self).wf(),
            final(self).accepted_commits_not_applied == old(self).accepted_commits_not_applied,
            final(self).applied == old(self).applied,
            log_retention_ok(old(self).log@, final(self).log@, stable_seq_num as nat),
            forall|j: int|
                0 <= j < final(self).accepted_pre_prepares@.len()
                    ==> #[trigger] final(self).accepted_pre_prepares@[j].seq_num > stable_seq_num,
            forall|j: int|
                0 <= j < final(self).outstanding_prepares@.len()
                    ==> #[trigger] final(self).outstanding_prepares@[j].seq_num > stable_seq_num,
            forall|j: int|
                0 <= j < final(self).outstanding_commits@.len()
                    ==> #[trigger] final(self).outstanding_commits@[j].seq_num > stable_seq_num,
    {
        retain_log(&mut self.log, stable_seq_num);
        retain_pre_prepares(&mut self.accepted_pre_prepares, stable_seq_num);
        retain_prepares(&mut self.outstanding_prepares, stable_seq_num);
        retain_commits(&mut self.outstanding_commits, stable_seq_num);
    }
}

/// After truncation at a stable checkpoint, every surviving log entry is
/// above the checkpoint, and every entry that was above it survives.
pub open spec fn log_retention_ok(before: Seq<Message>, after: Seq<Message>, stable: nat) -> bool {
    &&& forall|j: int|
        0 <= j < after.len() ==> log_entry_retained(#[trigger] after[j], stable)
    &&& forall|k: int|
        0 <= k < before.len() && log_entry_retained(#[trigger] before[k], stable) ==> (exists|
        j: int,
        |
            0 <= j < after.len() && #[trigger] after[j]@ == before[k]@)
}

/// Keep exactly the log entries a stable checkpoint does not supersede.
fn retain_log(log: &mut Vec<Message>, stable_seq_num: usize)
    ensures
        log_retention_ok(old(log)@, final(log)@, stable_seq_num as nat),
{
    let mut kept: Vec<Message> = Vec::new();
    let mut i: usize = 0;
    while i < log.len()
        invariant
            i <= log@.len(),
            log@ == old(log)@,
            forall|j: int|
                0 <= j < kept@.len() ==> log_entry_retained(
                    #[trigger] kept@[j],
                    stable_seq_num as nat,
                ),
            forall|k: int|
                0 <= k < i as int && log_entry_retained(
                    #[trigger] log@[k],
                    stable_seq_num as nat,
                ) ==> (exists|j: int|
                    0 <= j < kept@.len() && #[trigger] kept@[j]@ == log@[k]@),
        decreases log@.len() - i,
    {
        let m = &log[i];
        let keep = match m {
            Message::PrePrepareMessage(pp) => pp.seq_num > stable_seq_num,
            Message::PrepareMessage(p) => p.seq_num > stable_seq_num,
            Message::CommitMessage(c) => c.seq_num > stable_seq_num,
            _ => true,
        };
        proof {
            assert(keep == log_entry_retained(log@[i as int], stable_seq_num as nat));
        }
        if keep {
            let copy = m.duplicate();
            proof {
                lemma_retained_from_view(copy, log@[i as int], stable_seq_num as nat);
            }
            let ghost prev = kept@;
            kept.push(copy);
            proof {
                assert(kept@[kept@.len() - 1]@ == log@[i as int]@);
                assert forall|k: int|
                    0 <= k < i as int + 1 && log_entry_retained(
                        #[trigger] log@[k],
                        stable_seq_num as nat,
                    ) implies (exists|j: int|
                    0 <= j < kept@.len() && #[trigger] kept@[j]@ == log@[k]@) by {
                    if k < i as int {
                        let j = choose|j: int| 0 <= j < prev.len() && #[trigger] prev[j]@ == log@[k]@;
                        assert(kept@[j]@ == log@[k]@);
                    } else {
                        assert(kept@[kept@.len() - 1]@ == log@[k]@);
                    }
                }
            }
        }
        i = i + 1;
    }
    *log = kept;
}

/// Keep exactly the accepted pre-prepares above the stable checkpoint,
/// preserving the one-binding-per-slot invariant.
fn retain_pre_prepares(pre_prepares: &mut Vec<PrePrepare>, stable_seq_num: usize)
    requires
        forall|i: int, j: int|
            0 <= i < j < old(pre_prepares)@.len() ==> !(#[trigger] old(pre_prepares)@[i].view
                == #[trigger] old(pre_prepares)@[j].view && old(pre_prepares)@[i].seq_num == old(
                pre_prepares,
            )@[j].seq_num),
    ensures
        forall|i: int, j: int|
            0 <= i < j < final(pre_prepares)@.len() ==> !(#[trigger] final(pre_prepares)@[i].view
                == #[trigger] final(pre_prepares)@[j].view && final(pre_prepares)@[i].seq_num
                == final(pre_prepares)@[j].seq_num),
        forall|j: int|
            0 <= j < final(pre_prepares)@.len() ==> #[trigger] final(pre_prepares)@[j].seq_num
                > stable_seq_num,
{
    let mut kept: Vec<PrePrepare> = Vec::new();
    let ghost mut origin: Seq<int> = Seq::empty();
    let mut i: usize = 0;
    while i < pre_prepares.len()
        invariant
            i <= pre_prepares@.len(),
            pre_prepares@ == old(pre_prepares)@,
            origin.len() == kept@.len(),
            forall|j: int| 0 <= j < kept@.len() ==> 0 <= #[trigger] origin[j] < i as int,
            forall|j: int|
                0 <= j < kept@.len() ==> #[trigger] kept@[j].view
                    == pre_prepares@[origin[j]].view && kept@[j].seq_num
                    == pre_prepares@[origin[j]].seq_num && kept@[j].seq_num > stable_seq_num,
            forall|j1: int, j2: int|
                0 <= j1 < j2 < kept@.len() ==> #[trigger] origin[j1] < #[trigger] origin[j2],
        decreases pre_prepares@.len() - i,
    {
        let pp = &pre_prepares[i];
        if pp.seq_num > stable_seq_num {
            let copy = pp.duplicate();
            proof {
                assert(copy.view as nat == pre_prepares@[i as int].view as nat);
                assert(copy.seq_num as nat == pre_prepares@[i as int].seq_num as nat);
                origin = origin.push(i as int);
            }
            kept.push(copy);
        }
        i = i + 1;
    }
    let ghost source = pre_prepares@;
    *pre_prepares = kept;
    proof {
        assert forall|j1: int, j2: int|
            0 <= j1 < j2 < pre_prepares@.len() implies !(#[trigger] pre_prepares@[j1].view
            == #[trigger] pre_prepares@[j2].view && pre_prepares@[j1].seq_num
            == pre_prepares@[j2].seq_num) by {
            assert(origin[j1] < origin[j2]);
            assert(pre_prepares@[j1] == kept@[j1]);
            assert(pre_prepares@[j2] == kept@[j2]);
            assert(kept@[j1].view == source[origin[j1]].view && kept@[j1].seq_num
                == source[origin[j1]].seq_num);
            assert(kept@[j2].view == source[origin[j2]].view && kept@[j2].seq_num
                == source[origin[j2]].seq_num);
            assert(!(source[origin[j1]].view == source[origin[j2]].view
                && source[origin[j1]].seq_num == source[origin[j2]].seq_num));
        }
        assert forall|j: int|
            0 <= j < pre_prepares@.len() implies #[trigger] pre_prepares@[j].seq_num
            > stable_seq_num by {
            assert(pre_prepares@[j] == kept@[j]);
            assert(kept@[j].view == source[origin[j]].view && kept@[j].seq_num
                == source[origin[j]].seq_num && kept@[j].seq_num > stable_seq_num);
        }
    }
}

/// Keep exactly the parked prepares above the stable checkpoint.
fn retain_prepares(prepares: &mut Vec<Prepare>, stable_seq_num: usize)
    ensures
        forall|j: int|
            0 <= j < final(prepares)@.len() ==> #[trigger] final(prepares)@[j].seq_num
                > stable_seq_num,
{
    let mut kept: Vec<Prepare> = Vec::new();
    let mut i: usize = 0;
    while i < prepares.len()
        invariant
            i <= prepares@.len(),
            forall|j: int|
                0 <= j < kept@.len() ==> #[trigger] kept@[j].seq_num > stable_seq_num,
        decreases prepares@.len() - i,
    {
        let p = &prepares[i];
        if p.seq_num > stable_seq_num {
            kept.push(p.duplicate());
        }
        i = i + 1;
    }
    *prepares = kept;
}

/// Keep exactly the parked commits above the stable checkpoint.
fn retain_commits(commits: &mut Vec<Commit>, stable_seq_num: usize)
    ensures
        forall|j: int|
            0 <= j < final(commits)@.len() ==> #[trigger] final(commits)@[j].seq_num
                > stable_seq_num,
{
    let mut kept: Vec<Commit> = Vec::new();
    let mut i: usize = 0;
    while i < commits.len()
        invariant
            i <= commits@.len(),
            forall|j: int|
                0 <= j < kept@.len() ==> #[trigger] kept@[j].seq_num > stable_seq_num,
        decreases commits@.len() - i,
    {
        let c = &commits[i];
        if c.seq_num > stable_seq_num {
            kept.push(c.duplicate());
        }
        i = i + 1;
    }
    *commits = kept;
}

/// Messages with equal views are retained or dropped together.
proof fn lemma_retained_from_view(a: Message, b: Message, stable_seq_num: nat)
    requires
        a@ == b@,
    ensures
        log_entry_retained(a, stable_seq_num) == log_entry_retained(b, stable_seq_num),
{
}

/// Whether some element of `s` has the view `v`.
pub open spec fn seq_has_prepare(s: Seq<Prepare>, v: PrepareView) -> bool {
    exists|i: int| 0 <= i < s.len() && #[trigger] s[i]@ == v
}

/// Whether some element of `s` has the view `v`.
pub open spec fn seq_has_commit(s: Seq<Commit>, v: CommitView) -> bool {
    exists|i: int| 0 <= i < s.len() && #[trigger] s[i]@ == v
}

/// Pushing extends membership by exactly the pushed view.
proof fn lemma_seq_has_prepare_push(s: Seq<Prepare>, p: Prepare)
    ensures
        forall|v: PrepareView|
            #[trigger] seq_has_prepare(s.push(p), v) == (seq_has_prepare(s, v) || p@ == v),
{
    assert forall|v: PrepareView|
        #[trigger] seq_has_prepare(s.push(p), v) == (seq_has_prepare(s, v) || p@ == v) by {
        if seq_has_prepare(s.push(p), v) {
            let i = choose|i: int| 0 <= i < s.push(p).len() && #[trigger] s.push(p)[i]@ == v;
            if i < s.len() {
                assert(s[i]@ == v);
            }
        }
        if seq_has_prepare(s, v) {
            let i = choose|i: int| 0 <= i < s.len() && #[trigger] s[i]@ == v;
            assert(s.push(p)[i]@ == v);
        }
        if p@ == v {
            assert(s.push(p)[s.len() as int]@ == v);
        }
    }
}

/// Pushing extends membership by exactly the pushed view.
proof fn lemma_seq_has_commit_push(s: Seq<Commit>, c: Commit)
    ensures
        forall|v: CommitView|
            #[trigger] seq_has_commit(s.push(c), v) == (seq_has_commit(s, v) || c@ == v),
{
    assert forall|v: CommitView|
        #[trigger] seq_has_commit(s.push(c), v) == (seq_has_commit(s, v) || c@ == v) by {
        if seq_has_commit(s.push(c), v) {
            let i = choose|i: int| 0 <= i < s.push(c).len() && #[trigger] s.push(c)[i]@ == v;
            if i < s.len() {
                assert(s[i]@ == v);
            }
        }
        if seq_has_commit(s, v) {
            let i = choose|i: int| 0 <= i < s.len() && #[trigger] s[i]@ == v;
            assert(s.push(c)[i]@ == v);
        }
        if c@ == v {
            assert(s.push(c)[s.len() as int]@ == v);
        }
    }
}

/// In a slot-distinct sequence, looking a member's slot up finds exactly
/// that member.
pub proof fn lemma_pre_prepare_at_member(s: Seq<PrePrepare>, i: int)
    requires
        forall|a: int, b: int|
            0 <= a < b < s.len() ==> !(#[trigger] s[a].view == #[trigger] s[b].view
                && s[a].seq_num == s[b].seq_num),
        0 <= i < s.len(),
    ensures
        pre_prepare_at(s, s[i].view as nat, s[i].seq_num as nat) == Some(s[i]),
    decreases s.len(),
{
    if i == s.len() - 1 {
    } else {
        assert(!(s[i].view == s[s.len() - 1].view && s[i].seq_num == s[s.len() - 1].seq_num));
        assert forall|a: int, b: int|
            0 <= a < b < s.drop_last().len() implies !(#[trigger] s.drop_last()[a].view
            == #[trigger] s.drop_last()[b].view && s.drop_last()[a].seq_num
            == s.drop_last()[b].seq_num) by {
            assert(s.drop_last()[a] == s[a] && s.drop_last()[b] == s[b]);
        }
        lemma_pre_prepare_at_member(s.drop_last(), i);
        assert(s.drop_last()[i] == s[i]);
    }
}

/// When no entry of `s` binds `(view, seq_num)`, no element matches that
/// slot.
proof fn lemma_pre_prepare_at_none(s: Seq<PrePrepare>, view: nat, seq_num: nat)
    requires
        pre_prepare_at(s, view, seq_num) is None,
    ensures
        forall|i: int|
            0 <= i < s.len() ==> !(#[trigger] s[i].view as nat == view && s[i].seq_num as nat
                == seq_num),
    decreases s.len(),
{
    if s.len() > 0 {
        lemma_pre_prepare_at_none(s.drop_last(), view, seq_num);
        assert forall|i: int|
            0 <= i < s.len() implies !(#[trigger] s[i].view as nat == view && s[i].seq_num as nat
            == seq_num) by {
            if i < s.len() - 1 {
                assert(s.drop_last()[i] == s[i]);
            }
        }
    }
}

} // verus!
