//! The view changer: the set of requests this replica is still waiting to
//! see committed (each arms a timer), and the accumulator of signed
//! view-change messages that decides when a new view has enough support.

use vstd::prelude::*;

use crate::messages::{ClientRequest, ClientRequestView, ViewChange};
use crate::NodeId;

verus! {

/// Tracks outstanding requests and tallies view-change messages.
pub struct ViewChanger {
    /// This replica's id.
    pub id: NodeId,
    /// Requests accepted but not yet applied; each arms a wait timer.
    pub wait_set: Vec<ClientRequest>,
    /// Accepted view-change messages, at most one per `(new_view, id)`.
    pub view_change_messages: Vec<ViewChange>,
    /// How many view changes this replica has entered in a row without
    /// progress; drives the exponential timeout backoff.
    pub failed_rounds: u32,
}

/// The view-change messages for `new_view` among `s`, in arrival order.
pub open spec fn vc_for_view(s: Seq<ViewChange>, new_view: nat) -> Seq<ViewChange>
    decreases s.len(),
{
    if s.len() == 0 {
        Seq::empty()
    } else {
        let rest = vc_for_view(s.drop_last(), new_view);
        if s.last().new_view as nat == new_view {
            rest.push(s.last())
        } else {
            rest
        }
    }
}

impl ViewChanger {
    /// At most one view-change message is tallied per `(new_view, sender)`.
    pub open spec fn wf(&self) -> bool {
        forall|i: int, j: int|
            0 <= i < j < self.view_change_messages@.len() ==> !(
            #[trigger] self.view_change_messages@[i].new_view
                == #[trigger] self.view_change_messages@[j].new_view
                && self.view_change_messages@[i].id == self.view_change_messages@[j].id)
    }

    /// Whether a request with this view is being waited on.
    pub open spec fn is_waiting(&self, v: ClientRequestView) -> bool {
        exists|i: int| 0 <= i < self.wait_set@.len() && #[trigger] self.wait_set@[i]@ == v
    }

    /// Whether a view-change message from `id` for `new_view` is tallied.
    pub open spec fn has_view_change(&self, new_view: nat, id: nat) -> bool {
        exists|i: int|
            0 <= i < self.view_change_messages@.len()
                && #[trigger] self.view_change_messages@[i].new_view as nat == new_view
                && self.view_change_messages@[i].id as nat == id
    }

    /// How many distinct replicas back `new_view`.
    pub open spec fn vc_count(&self, new_view: nat) -> nat {
        vc_for_view(self.view_change_messages@, new_view).len()
    }

    pub fn new(id: NodeId) -> (r: ViewChanger)
        ensures
            r.wf(),
            r.id == id,
            r.wait_set@ =~= Seq::<ClientRequest>::empty(),
            r.view_change_messages@ =~= Seq::<ViewChange>::empty(),
            r.failed_rounds == 0,
    {
        ViewChanger { id, wait_set: Vec::new(), view_change_messages: Vec::new(), failed_rounds: 0 }
    }

    /// Add a request to the wait set; idempotent. Returns whether it was
    /// newly added (and so needs a timer armed).
    pub fn add_to_wait_set(&mut self, request: &ClientRequest) -> (newly: bool)
        requires
            old(self).wf(),
        ensures
            final(self).wf(),
            newly == !old(self).is_waiting(request@),
            final(self).is_waiting(request@),
            forall|v: ClientRequestView|
                #[trigger] final(self).is_waiting(v) == (old(self).is_waiting(v) || v
                    == request@),
            *final(self) == (ViewChanger { wait_set: final(self).wait_set, ..*old(self) }),
    {
        let mut i: usize = 0;
        while i < self.wait_set.len()
            invariant
                i <= self.wait_set@.len(),
                *self == *old(self),
                old(self).wf(),
                forall|j: int| 0 <= j < i as int ==> !(#[trigger] self.wait_set@[j]@ == request@),
            decreases self.wait_set@.len() - i,
        {
            if self.wait_set[i].equals(request) {
                proof {
                    assert(self.wait_set@[i as int]@ == request@);
                }
                return false;
            }
            i = i + 1;
        }
        let copy = request.duplicate();
        let ghost prev = self.wait_set@;
        self.wait_set.push(copy);
        proof {
            assert(self.wait_set@[self.wait_set@.len() - 1]@ == request@);
            assert forall|v: ClientRequestView|
                #[trigger] self.is_waiting(v) == (old(self).is_waiting(v) || v == request@) by {
                if self.is_waiting(v) {
                    let j = choose|j: int|
                        0 <= j < self.wait_set@.len() && #[trigger] self.wait_set@[j]@ == v;
                    if j < prev.len() {
                        assert(prev[j]@ == v);
                    }
                }
                if old(self).is_waiting(v) {
                    let j = choose|j: int| 0 <= j < prev.len() && #[trigger] prev[j]@ == v;
                    assert(self.wait_set@[j]@ == v);
                }
            }
        }
        true
    }

    /// Whether this request is still being waited on; a firing timer checks
    /// this before escalating to a view change.
    pub fn still_waiting(&self, request: &ClientRequest) -> (r: bool)
        ensures
            r == self.is_waiting(request@),
    {
        let mut i: usize = 0;
        while i < self.wait_set.len()
            invariant
                i <= self.wait_set@.len(),
                forall|j: int| 0 <= j < i as int ==> !(#[trigger] self.wait_set@[j]@ == request@),
            decreases self.wait_set@.len() - i,
        {
            if self.wait_set[i].equals(request) {
                proof {
                    assert(self.wait_set@[i as int]@ == request@);
                }
                return true;
            }
            i = i + 1;
        }
        false
    }

    /// Drop a request from the wait set once its commit has applied.
    pub fn remove_from_wait_set(&mut self, request: &ClientRequest)
        requires
            old(self).wf(),
        ensures
            final(self).wf(),
            forall|v: ClientRequestView|
                #[trigger] final(self).is_waiting(v) == (old(self).is_waiting(v) && !(v
                    == request@)),
            *final(self) == (ViewChanger { wait_set: final(self).wait_set, ..*old(self) }),
    {
        let mut kept: Vec<ClientRequest> = Vec::new();
        let mut i: usize = 0;
        while i < self.wait_set.len()
            invariant
                i <= self.wait_set@.len(),
                *self == *old(self),
                forall|v: ClientRequestView|
                    #[trigger] seq_has_request(kept@, v) == ((exists|j: int|
                        0 <= j < i as int && #[trigger] self.wait_set@[j]@ == v) && !(v
                        == request@)),
            decreases self.wait_set@.len() - i,
        {
            let r = &self.wait_set[i];
            if !r.equals(request) {
                let copy = r.duplicate();
                proof {
                    lemma_seq_has_request_push(kept@, copy);
                }
                kept.push(copy);
            }
            i = i + 1;
        }
        self.wait_set = kept;
        proof {
            assert forall|v: ClientRequestView|
                #[trigger] self.is_waiting(v) implies seq_has_request(kept@, v) by {
                let k = choose|k: int|
                    0 <= k < self.wait_set@.len() && #[trigger] self.wait_set@[k]@ == v;
                assert(kept@[k]@ == v);
            }
            assert forall|v: ClientRequestView|
                seq_has_request(kept@, v) implies self.is_waiting(v) by {
                let k = choose|k: int| 0 <= k < kept@.len() && #[trigger] kept@[k]@ == v;
                assert(self.wait_set@[k]@ == v);
            }
        }
    }

    /// Tally a signed view-change message, once per `(new_view, sender)`.
    /// Returns whether it was new.
    pub fn add_view_change(&mut self, vc: ViewChange) -> (newly: bool)
        requires
            old(self).wf(),
        ensures
            final(self).wf(),
            newly == !old(self).has_view_change(vc.new_view as nat, vc.id as nat),
            newly ==> final(self).view_change_messages@ == old(self).view_change_messages@.push(
                vc,
            ),
            !newly ==> *final(self) == *old(self),
            final(self).vc_count(vc.new_view as nat) == old(self).vc_count(vc.new_view as nat) + (
            if newly {
                1int
            } else {
                0int
            }),
            *final(self) == (ViewChanger {
                view_change_messages: final(self).view_change_messages,
                ..*old(self)
            }),
    {
        let mut i: usize = 0;
        while i < self.view_change_messages.len()
            invariant
                i <= self.view_change_messages@.len(),
                *self == *old(self),
                old(self).wf(),
                forall|j: int|
                    0 <= j < i as int ==> !(#[trigger] self.view_change_messages@[j].new_view
                        == vc.new_view && self.view_change_messages@[j].id == vc.id),
            decreases self.view_change_messages@.len() - i,
        {
            let m = &self.view_change_messages[i];
            if m.new_view == vc.new_view && m.id == vc.id {
                return false;
            }
            i = i + 1;
        }
        proof {
            let pushed = old(self).view_change_messages@.push(vc);
            assert(pushed.drop_last() =~= old(self).view_change_messages@);
        }
        self.view_change_messages.push(vc);
        true
    }

    /// Count the distinct replicas backing `new_view`.
    pub fn count_view_changes(&self, new_view: usize) -> (r: usize)
        ensures
            r as nat == self.vc_count(new_view as nat),
    {
        let mut counted: usize = 0;
        let total: usize = self.view_change_messages.len();
        let mut remaining: usize = total;
        proof {
            assert(self.view_change_messages@.subrange(
                0,
                self.view_change_messages@.len() as int,
            ) =~= self.view_change_messages@);
        }
        while remaining > 0
            invariant
                self.view_change_messages@.len() == total,
                remaining <= total,
                counted + remaining <= total,
                counted + vc_for_view(
                    self.view_change_messages@.subrange(0, remaining as int),
                    new_view as nat,
                ).len() == self.vc_count(new_view as nat),
            decreases remaining,
        {
            let m = &self.view_change_messages[remaining - 1];
            proof {
                assert(self.view_change_messages@.subrange(0, remaining as int).drop_last()
                    =~= self.view_change_messages@.subrange(0, remaining - 1));
                assert(self.view_change_messages@.subrange(0, remaining as int).last()
                    == self.view_change_messages@[remaining - 1]);
            }
            if m.new_view == new_view {
                counted = counted + 1;
            }
            remaining = remaining - 1;
        }
        proof {
            assert(self.view_change_messages@.subrange(0, 0) =~= Seq::<ViewChange>::empty());
        }
        counted
    }

    /// The tallied view-change messages for `new_view`, for assembling a
    /// `NewView`.
    pub fn collect_view_changes(&self, new_view: usize) -> (r: Vec<ViewChange>)
        ensures
            r@.len() == self.vc_count(new_view as nat),
            forall|k: int| 0 <= k < r@.len() ==> #[trigger] r@[k].new_view == new_view,
    {
        let mut r: Vec<ViewChange> = Vec::new();
        let mut i: usize = 0;
        proof {
            assert(self.view_change_messages@.subrange(0, 0) =~= Seq::<ViewChange>::empty());
        }
        while i < self.view_change_messages.len()
            invariant
                i <= self.view_change_messages@.len(),
                r@.len() == vc_for_view(
                    self.view_change_messages@.subrange(0, i as int),
                    new_view as nat,
                ).len(),
                forall|k: int| 0 <= k < r@.len() ==> #[trigger] r@[k].new_view == new_view,
            decreases self.view_change_messages@.len() - i,
        {
            let m = &self.view_change_messages[i];
            proof {
                assert(self.view_change_messages@.subrange(0, i + 1).drop_last()
                    =~= self.view_change_messages@.subrange(0, i as int));
                assert(self.view_change_messages@.subrange(0, i + 1).last()
                    == self.view_change_messages@[i as int]);
            }
            if m.new_view == new_view {
                let copy = m.duplicate();
                let ghost prev = r@;
                proof {
                    assert(self.view_change_messages@[i as int]@ == copy@);
                    assert(copy.new_view == m.new_view);
                }
                r.push(copy);
                proof {
                    assert forall|k: int|
                        0 <= k < r@.len() implies #[trigger] r@[k].new_view == new_view by {
                        if k < prev.len() {
                            assert(r@[k] == prev[k]);
                            assert(prev[k].new_view == new_view);
                        } else {
                            assert(r@[k] == copy);
                        }
                    }
                }
            }
            i = i + 1;
        }
        proof {
            assert(self.view_change_messages@.subrange(
                0,
                self.view_change_messages@.len() as int,
            ) =~= self.view_change_messages@);
        }
        r
    }
}

/// Whether some element of `s` has the view `v`.
pub open spec fn seq_has_request(s: Seq<ClientRequest>, v: ClientRequestView) -> bool {
    exists|i: int| 0 <= i < s.len() && #[trigger] s[i]@ == v
}

/// Pushing extends membership by exactly the pushed view.
proof fn lemma_seq_has_request_push(s: Seq<ClientRequest>, r: ClientRequest)
    ensures
        forall|v: ClientRequestView|
            #[trigger] seq_has_request(s.push(r), v) == (seq_has_request(s, v) || r@ == v),
{
    assert forall|v: ClientRequestView|
        #[trigger] seq_has_request(s.push(r), v) == (seq_has_request(s, v) || r@ == v) by {
        if seq_has_request(s.push(r), v) {
            let i = choose|i: int| 0 <= i < s.push(r).len() && #[trigger] s.push(r)[i]@ == v;
            if i < s.len() {
                assert(s[i]@ == v);
            }
        }
        if seq_has_request(s, v) {
            let i = choose|i: int| 0 <= i < s.len() && #[trigger] s[i]@ == v;
            assert(s.push(r)[i]@ == v);
        }
        if r@ == v {
            assert(s.push(r)[s.len() as int]@ == v);
        }
    }
}

} // verus!
