//! The client's side of the protocol: counting signed replica responses
//! until `f + 1` distinct replicas agree, at which point the answer is
//! accepted as a vote certificate.

use vstd::prelude::*;

use crate::messages::{ClientResponse, Message};

verus! {

/// The `f + 1` matching responses a client accepts an answer on.
pub struct VoteCertificate {
    pub timestamp: usize,
    pub votes: Vec<ClientResponse>,
}

/// Whether a recorded response answers `timestamp` with exactly this key,
/// value and success; a certificate may only gather responses that agree on
/// all four.
pub open spec fn response_matches(
    r: ClientResponse,
    timestamp: nat,
    key: Seq<char>,
    value: Option<u32>,
) -> bool {
    r.time_stamp as nat == timestamp && r.key@ == key && r.value == value && r.success
}

/// The recorded responses matching `(timestamp, key, value)`, in arrival
/// order.
pub open spec fn responses_matching(
    s: Seq<ClientResponse>,
    timestamp: nat,
    key: Seq<char>,
    value: Option<u32>,
) -> Seq<ClientResponse>
    decreases s.len(),
{
    if s.len() == 0 {
        Seq::empty()
    } else {
        let rest = responses_matching(s.drop_last(), timestamp, key, value);
        if response_matches(s.last(), timestamp, key, value) {
            rest.push(s.last())
        } else {
            rest
        }
    }
}

/// Tallies successful responses per timestamp, one per replica, and
/// certifies an answer once more than `vote_threshold` distinct replicas
/// (that is, at least `f + 1`) have sent one.
pub struct VoteCounter {
    /// Successful responses, at most one per `(timestamp, replica)`.
    pub votes: Vec<ClientResponse>,
    /// The number of faulty replicas `f` the certificate must exceed.
    pub vote_threshold: usize,
}

impl VoteCounter {
    /// At most one vote is recorded per `(timestamp, replica)`.
    pub open spec fn wf(&self) -> bool {
        forall|i: int, j: int|
            0 <= i < j < self.votes@.len() ==> !(#[trigger] self.votes@[i].time_stamp
                == #[trigger] self.votes@[j].time_stamp && self.votes@[i].id
                == self.votes@[j].id)
    }

    pub open spec fn has_vote(&self, timestamp: nat, id: nat) -> bool {
        exists|i: int|
            0 <= i < self.votes@.len() && (#[trigger] self.votes@[i]).time_stamp as nat
                == timestamp && self.votes@[i].id as nat == id
    }

    /// How many distinct replicas have sent this exact successful answer
    /// for `timestamp`.
    pub open spec fn count(&self, timestamp: nat, key: Seq<char>, value: Option<u32>) -> nat {
        responses_matching(self.votes@, timestamp, key, value).len()
    }

    pub fn new(vote_threshold: usize) -> (r: VoteCounter)
        ensures
            r.wf(),
            r.votes@ =~= Seq::<ClientResponse>::empty(),
            r.vote_threshold == vote_threshold,
    {
        VoteCounter { votes: Vec::new(), vote_threshold }
    }

    /// Count one arriving message. Anything that is not a successful client
    /// response, or repeats a `(timestamp, replica)` already counted, is
    /// ignored. The first vote that takes the tally of its exact answer —
    /// same timestamp, key, value and success — past the threshold yields
    /// the certificate of that answer, exactly once; responses that differ
    /// in key or value never certify together.
    pub fn read_response(&mut self, message: &Message) -> (r: Option<VoteCertificate>)
        requires
            old(self).wf(),
        ensures
            final(self).wf(),
            final(self).vote_threshold == old(self).vote_threshold,
            !(message matches Message::ClientResponseMessage(resp) && resp.success) ==> *final(self)
                == *old(self) && r is None,
            message matches Message::ClientResponseMessage(resp) ==> resp.success ==> {
                &&& (old(self).has_vote(resp.time_stamp as nat, resp.id as nat) ==> *final(self)
                    == *old(self) && r is None)
                &&& (!old(self).has_vote(resp.time_stamp as nat, resp.id as nat) ==> {
                    &&& final(self).votes@.len() == old(self).votes@.len() + 1
                    &&& final(self).votes@.last()@ == resp@
                    &&& final(self).count(resp.time_stamp as nat, resp.key@, resp.value) == old(
                        self,
                    ).count(resp.time_stamp as nat, resp.key@, resp.value) + 1
                    &&& (old(self).vote_threshold == usize::MAX ==> r is None)
                    &&& (old(self).vote_threshold < usize::MAX ==> ((final(self).count(
                        resp.time_stamp as nat,
                        resp.key@,
                        resp.value,
                    ) == old(self).vote_threshold + 1) <==> (r matches Some(cert)
                        && cert.timestamp == resp.time_stamp && cert.votes@.len() == final(self).count(
                        resp.time_stamp as nat,
                        resp.key@,
                        resp.value,
                    ) && (forall|j: int|
                        0 <= j < cert.votes@.len() ==> response_matches(
                            #[trigger] cert.votes@[j],
                            resp.time_stamp as nat,
                            resp.key@,
                            resp.value,
                        )))))
                })
            },
    {
        let response = match message {
            Message::ClientResponseMessage(resp) => resp,
            _ => {
                return None;
            },
        };
        proof {
            assert(message matches Message::ClientResponseMessage(rr) && rr == *response);
        }
        if !response.success {
            return None;
        }
        let mut i: usize = 0;
        while i < self.votes.len()
            invariant
                i <= self.votes@.len(),
                *self == *old(self),
                old(self).wf(),
                message matches Message::ClientResponseMessage(rr) && rr == *response,
                forall|j: int|
                    0 <= j < i as int ==> !(#[trigger] self.votes@[j].time_stamp
                        == response.time_stamp && self.votes@[j].id == response.id),
            decreases self.votes@.len() - i,
        {
            let v = &self.votes[i];
            if v.time_stamp == response.time_stamp && v.id == response.id {
                proof {
                    let witness = old(self).votes@[i as int];
                    assert(witness.time_stamp as nat == response.time_stamp as nat
                        && witness.id as nat == response.id as nat);
                    assert(old(self).has_vote(response.time_stamp as nat, response.id as nat));
                }
                return None;
            }
            i = i + 1;
        }
        let copy = response.duplicate();
        let ghost prev = self.votes@;
        self.votes.push(copy);
        proof {
            assert(prev.push(copy).drop_last() =~= prev);
            assert(self.votes@.last()@ == response@);
            assert(copy.time_stamp as nat == response.time_stamp as nat);
            assert(copy.key@ == response.key@ && copy.value == response.value && copy.success);
            assert(response_matches(
                copy,
                response.time_stamp as nat,
                response.key@,
                response.value,
            ));
            assert(responses_matching(
                self.votes@,
                response.time_stamp as nat,
                response.key@,
                response.value,
            ) == responses_matching(
                prev,
                response.time_stamp as nat,
                response.key@,
                response.value,
            ).push(copy));
            lemma_responses_matching_len(
                self.votes@,
                response.time_stamp as nat,
                response.key@,
                response.value,
            );
        }
        if self.vote_threshold == usize::MAX {
            return None;
        }
        let count = self.count_votes(response.time_stamp, &response.key, &response.value);
        if count != self.vote_threshold + 1 {
            return None;
        }
        let mut votes: Vec<ClientResponse> = Vec::new();
        let mut k: usize = 0;
        proof {
            assert(self.votes@.subrange(0, 0) =~= Seq::<ClientResponse>::empty());
        }
        while k < self.votes.len()
            invariant
                k <= self.votes@.len(),
                message matches Message::ClientResponseMessage(rr) && rr == *response,
                votes@.len() == responses_matching(
                    self.votes@.subrange(0, k as int),
                    response.time_stamp as nat,
                    response.key@,
                    response.value,
                ).len(),
                forall|j: int|
                    0 <= j < votes@.len() ==> response_matches(
                        #[trigger] votes@[j],
                        response.time_stamp as nat,
                        response.key@,
                        response.value,
                    ),
            decreases self.votes@.len() - k,
        {
            let v = &self.votes[k];
            proof {
                assert(self.votes@.subrange(0, k + 1).drop_last() =~= self.votes@.subrange(
                    0,
                    k as int,
                ));
                assert(self.votes@.subrange(0, k + 1).last() == self.votes@[k as int]);
            }
            let matches_answer = v.time_stamp == response.time_stamp && v.key == response.key
                && (match (&v.value, &response.value) {
                (Option::Some(a), Option::Some(b)) => *a == *b,
                (Option::None, Option::None) => true,
                _ => false,
            }) && v.success;
            proof {
                assert(matches_answer == response_matches(
                    self.votes@[k as int],
                    response.time_stamp as nat,
                    response.key@,
                    response.value,
                ));
            }
            if matches_answer {
                let matched = v.duplicate();
                let ghost before = votes@;
                proof {
                    assert(response_matches(
                        matched,
                        response.time_stamp as nat,
                        response.key@,
                        response.value,
                    ));
                }
                votes.push(matched);
                proof {
                    assert forall|j: int|
                        0 <= j < votes@.len() implies response_matches(
                        #[trigger] votes@[j],
                        response.time_stamp as nat,
                        response.key@,
                        response.value,
                    ) by {
                        if j < before.len() {
                            assert(votes@[j] == before[j]);
                        } else {
                            assert(votes@[j] == matched);
                        }
                    }
                }
            }
            k = k + 1;
        }
        proof {
            assert(self.votes@.subrange(0, self.votes@.len() as int) =~= self.votes@);
        }
        Some(VoteCertificate { timestamp: response.time_stamp, votes })
    }

    /// Count the distinct replicas that have sent this exact successful
    /// answer for `timestamp`.
    pub fn count_votes(&self, timestamp: usize, key: &String, value: &Option<u32>) -> (r: usize)
        ensures
            r as nat == self.count(timestamp as nat, key@, *value),
    {
        let mut counted: usize = 0;
        let total: usize = self.votes.len();
        let mut remaining: usize = total;
        proof {
            assert(self.votes@.subrange(0, self.votes@.len() as int) =~= self.votes@);
        }
        while remaining > 0
            invariant
                self.votes@.len() == total,
                remaining <= total,
                counted + remaining <= total,
                counted + responses_matching(
                    self.votes@.subrange(0, remaining as int),
                    timestamp as nat,
                    key@,
                    *value,
                ).len() == self.count(timestamp as nat, key@, *value),
            decreases remaining,
        {
            let v = &self.votes[remaining - 1];
            proof {
                assert(self.votes@.subrange(0, remaining as int).drop_last() =~= self.votes@
                    .subrange(0, remaining - 1));
                assert(self.votes@.subrange(0, remaining as int).last() == self.votes@[remaining
                    - 1]);
            }
            let matches_answer = v.time_stamp == timestamp && v.key == *key
                && (match (&v.value, value) {
                (Option::Some(a), Option::Some(b)) => *a == *b,
                (Option::None, Option::None) => true,
                _ => false,
            }) && v.success;
            proof {
                assert(matches_answer == response_matches(
                    self.votes@[remaining - 1],
                    timestamp as nat,
                    key@,
                    *value,
                ));
            }
            if matches_answer {
                counted = counted + 1;
            }
            remaining = remaining - 1;
        }
        proof {
            assert(self.votes@.subrange(0, 0) =~= Seq::<ClientResponse>::empty());
        }
        counted
    }
}

/// An answer's tally is no larger than the whole record.
proof fn lemma_responses_matching_len(
    s: Seq<ClientResponse>,
    timestamp: nat,
    key: Seq<char>,
    value: Option<u32>,
)
    ensures
        responses_matching(s, timestamp, key, value).len() <= s.len(),
    decreases s.len(),
{
    if s.len() > 0 {
        lemma_responses_matching_len(s.drop_last(), timestamp, key, value);
    }
}

} // verus!
