//! The protocol messages replicas exchange, their abstract views, the byte
//! strings their signatures cover, and the request digests that tie the
//! prepare and commit phases back to the client request carried by a
//! pre-prepare.

use vstd::prelude::*;

use crate::crypto::{
    keypair_wf, public_key_of, sha512, sha512_of, sign_message, signature_of, signature_valid,
    verify_signature,
};
use crate::encoding::{le_bytes, push_bytes, push_str_bytes, push_u64_le, u32_to_le_bytes};
use crate::store::Store;
use crate::{Key, NodeId, Value};

verus! {

// ------------------------------------------------------------------
// Client requests and their digests
// ------------------------------------------------------------------

/// An operation submitted by a client: `value` is the new binding for a
/// `set`, or absent for a `get`. `respond_addr` is the textual address the
/// signed response is sent back to.
pub struct ClientRequest {
    pub respond_addr: String,
    pub time_stamp: usize,
    pub key: Key,
    pub value: Option<Value>,
}

#[verifier::ext_equal]
pub struct ClientRequestView {
    pub respond_addr: Seq<char>,
    pub time_stamp: nat,
    pub key: Seq<char>,
    pub value: Option<u32>,
}

impl View for ClientRequest {
    type V = ClientRequestView;

    open spec fn view(&self) -> ClientRequestView {
        ClientRequestView {
            respond_addr: self.respond_addr@,
            time_stamp: self.time_stamp as nat,
            key: self.key@,
            value: self.value,
        }
    }
}

/// The byte string a request digest is computed over: address, timestamp,
/// key and (for a `set`) the value, concatenated.
pub open spec fn request_bytes(r: ClientRequestView) -> Seq<u8> {
    vstd::utf8::encode_utf8(r.respond_addr) + le_bytes(r.time_stamp, 8) + vstd::utf8::encode_utf8(
        r.key,
    ) + match r.value {
        Option::None => Seq::<u8>::empty(),
        Option::Some(v) => le_bytes(v as nat, 4),
    }
}

/// The SHA-512 digest that stands for a request in every phase message
/// after the pre-prepare.
pub open spec fn request_digest(r: ClientRequestView) -> Seq<u8> {
    sha512_of(request_bytes(r))
}

/// The placeholder request used to fill sequence-number gaps during a view
/// change: an unroutable reply address, empty key, timestamp zero, no
/// value. With no value it never mutates the store when applied.
pub open spec fn no_op_request() -> ClientRequestView {
    ClientRequestView {
        respond_addr: "0.0.0.0:0"@,
        time_stamp: 0,
        key: Seq::empty(),
        value: None,
    }
}

impl ClientRequest {
    /// The canonical encoding hashed into this request's digest.
    pub fn encode(&self) -> (r: Vec<u8>)
        ensures
            r@ == request_bytes(self@),
    {
        let mut out: Vec<u8> = Vec::new();
        push_str_bytes(&mut out, self.respond_addr.as_str());
        push_u64_le(&mut out, self.time_stamp as u64);
        push_str_bytes(&mut out, self.key.as_str());
        match &self.value {
            Option::Some(v) => {
                let value_bytes = u32_to_le_bytes(*v);
                push_bytes(&mut out, value_bytes.as_slice());
            },
            Option::None => {
                proof {
                    assert(out@ + Seq::<u8>::empty() =~= out@);
                }
            },
        }
        out
    }

    /// The compressed stand-in for this request in later phase messages.
    pub fn digest(&self) -> (r: Vec<u8>)
        ensures
            r@ == request_digest(self@),
            r@.len() == 64,
    {
        let encoded = self.encode();
        sha512(&encoded)
    }

    /// The gap-filling placeholder request.
    pub fn no_op() -> (r: ClientRequest)
        ensures
            r@ == no_op_request(),
    {
        let r = ClientRequest {
            respond_addr: "0.0.0.0:0".to_owned(),
            time_stamp: 0,
            key: String::new(),
            value: None,
        };
        proof {
            assert(r@ =~= no_op_request());
        }
        r
    }

    /// Field-for-field equality.
    pub fn equals(&self, other: &ClientRequest) -> (r: bool)
        ensures
            r == (self@ == other@),
    {
        let same = self.respond_addr == other.respond_addr && self.time_stamp == other.time_stamp
            && self.key == other.key && match (&self.value, &other.value) {
            (Option::Some(a), Option::Some(b)) => *a == *b,
            (Option::None, Option::None) => true,
            _ => false,
        };
        proof {
            if same {
                assert(self@ =~= other@);
            }
        }
        same
    }

    /// Whether `other` comes from the same origin: same responder address
    /// and client timestamp. Replies are deduplicated on this pair.
    pub fn same_origin(&self, other: &ClientRequest) -> (r: bool)
        ensures
            r == (self@.respond_addr == other@.respond_addr && self@.time_stamp
                == other@.time_stamp),
    {
        self.respond_addr == other.respond_addr && self.time_stamp == other.time_stamp
    }

    /// An independent copy.
    pub fn duplicate(&self) -> (r: ClientRequest)
        ensures
            r == *self,
    {
        ClientRequest {
            respond_addr: self.respond_addr.clone(),
            time_stamp: self.time_stamp,
            key: self.key.clone(),
            value: self.value,
        }
    }
}

// ------------------------------------------------------------------
// Signature prehashes
// ------------------------------------------------------------------

/// The domain-separated byte string that a phase message's signature covers:
/// tag, view, sequence number and request digest.
pub open spec fn phase_prehash(tag: Seq<char>, view: nat, seq_num: nat, digest: Seq<u8>) -> Seq<
    u8,
> {
    vstd::utf8::encode_utf8(tag) + le_bytes(view, 8) + le_bytes(seq_num, 8) + digest
}

pub open spec fn pre_prepare_prehash(view: nat, seq_num: nat, digest: Seq<u8>) -> Seq<u8> {
    phase_prehash("PrePrepare"@, view, seq_num, digest)
}

pub open spec fn prepare_prehash(view: nat, seq_num: nat, digest: Seq<u8>) -> Seq<u8> {
    phase_prehash("Prepare"@, view, seq_num, digest)
}

pub open spec fn commit_prehash(view: nat, seq_num: nat, digest: Seq<u8>) -> Seq<u8> {
    phase_prehash("Commit"@, view, seq_num, digest)
}

pub open spec fn checkpoint_prehash(committed_seq_num: nat, state_digest: Seq<u8>) -> Seq<u8> {
    vstd::utf8::encode_utf8("Checkpoint"@) + le_bytes(committed_seq_num, 8) + state_digest
}

pub open spec fn view_change_prehash(new_view: nat, last_stable_seq_num: nat) -> Seq<u8> {
    vstd::utf8::encode_utf8("ViewChange"@) + le_bytes(new_view, 8) + le_bytes(
        last_stable_seq_num,
        8,
    )
}

pub open spec fn client_response_prehash(time_stamp: nat, key: Seq<char>) -> Seq<u8> {
    vstd::utf8::encode_utf8("ClientResponse"@) + le_bytes(time_stamp, 8) + vstd::utf8::encode_utf8(
        key,
    )
}

/// Builds tag ‖ view ‖ seq_num ‖ digest.
fn phase_prehash_bytes(tag: &str, view: usize, seq_num: usize, digest: &Vec<u8>) -> (r: Vec<u8>)
    ensures
        r@ == phase_prehash(tag@, view as nat, seq_num as nat, digest@),
{
    let mut out: Vec<u8> = Vec::new();
    push_str_bytes(&mut out, tag);
    push_u64_le(&mut out, view as u64);
    push_u64_le(&mut out, seq_num as u64);
    push_bytes(&mut out, digest.as_slice());
    out
}

// ------------------------------------------------------------------
// PrePrepare
// ------------------------------------------------------------------

/// The primary's proposal binding a client request to a `(view, seq_num)`
/// slot. The only message that carries the full request.
pub struct PrePrepare {
    pub id: NodeId,
    pub view: usize,
    pub seq_num: usize,
    pub client_request_digest: Vec<u8>,
    pub signature: Vec<u8>,
    pub client_request: ClientRequest,
}

#[verifier::ext_equal]
pub struct PrePrepareView {
    pub id: nat,
    pub view: nat,
    pub seq_num: nat,
    pub client_request_digest: Seq<u8>,
    pub signature: Seq<u8>,
    pub client_request: ClientRequestView,
}

impl View for PrePrepare {
    type V = PrePrepareView;

    open spec fn view(&self) -> PrePrepareView {
        PrePrepareView {
            id: self.id as nat,
            view: self.view as nat,
            seq_num: self.seq_num as nat,
            client_request_digest: self.client_request_digest@,
            signature: self.signature@,
            client_request: self.client_request@,
        }
    }
}

impl PrePrepare {
    pub fn new_with_signature(
        key_pair_bytes: &Vec<u8>,
        id: NodeId,
        view: usize,
        seq_num: usize,
        client_request: &ClientRequest,
    ) -> (r: PrePrepare)
        requires
            keypair_wf(key_pair_bytes@),
        ensures
            r@.id == id as nat,
            r@.view == view as nat,
            r@.seq_num == seq_num as nat,
            r@.client_request_digest == request_digest(client_request@),
            r@.client_request == client_request@,
            r@.signature == signature_of(
                key_pair_bytes@,
                pre_prepare_prehash(view as nat, seq_num as nat, request_digest(client_request@)),
            ),
            signature_valid(
                public_key_of(key_pair_bytes@),
                pre_prepare_prehash(view as nat, seq_num as nat, request_digest(client_request@)),
                r@.signature,
            ),
    {
        let digest = client_request.digest();
        let prehash = phase_prehash_bytes("PrePrepare", view, seq_num, &digest);
        let signature = sign_message(key_pair_bytes, &prehash);
        PrePrepare {
            id,
            view,
            seq_num,
            client_request_digest: digest,
            signature,
            client_request: client_request.duplicate(),
        }
    }

    /// Whether this message's signature verifies under `pub_key`. The
    /// prehash covers the digest recomputed from the carried request, not
    /// the digest field, so a forged field cannot smuggle a stale signature
    /// past this check.
    pub fn is_properly_signed_by(&self, pub_key: &Vec<u8>) -> (r: bool)
        ensures
            r == signature_valid(
                pub_key@,
                pre_prepare_prehash(self@.view, self@.seq_num, request_digest(self@.client_request)),
                self@.signature,
            ),
    {
        let recomputed = self.client_request.digest();
        let prehash = phase_prehash_bytes("PrePrepare", self.view, self.seq_num, &recomputed);
        verify_signature(pub_key, &prehash, &self.signature)
    }

    /// Whether the digest field really is the digest of the carried request.
    pub fn digest_matches(&self) -> (r: bool)
        ensures
            r == (self@.client_request_digest == request_digest(self@.client_request)),
    {
        let recomputed = self.client_request.digest();
        let same = self.client_request_digest == recomputed;
        proof {
            if same {
                assert(self@.client_request_digest =~= request_digest(self@.client_request));
            }
        }
        same
    }

    /// An independent copy with the same view.
    pub fn duplicate(&self) -> (r: PrePrepare)
        ensures
            r@ == self@,
    {
        let r = PrePrepare {
            id: self.id,
            view: self.view,
            seq_num: self.seq_num,
            client_request_digest: self.client_request_digest.clone(),
            signature: self.signature.clone(),
            client_request: self.client_request.duplicate(),
        };
        proof {
            assert(r@.client_request_digest =~= self@.client_request_digest);
            assert(r@.signature =~= self@.signature);
            assert(r@ =~= self@);
        }
        r
    }
}

// ------------------------------------------------------------------
// Prepare
// ------------------------------------------------------------------

/// A replica's vote that it saw the pre-prepare for this slot and digest.
pub struct Prepare {
    pub id: NodeId,
    pub view: usize,
    pub seq_num: usize,
    pub client_request_digest: Vec<u8>,
    pub signature: Vec<u8>,
}

#[verifier::ext_equal]
pub struct PrepareView {
    pub id: nat,
    pub view: nat,
    pub seq_num: nat,
    pub client_request_digest: Seq<u8>,
    pub signature: Seq<u8>,
}

impl View for Prepare {
    type V = PrepareView;

    open spec fn view(&self) -> PrepareView {
        PrepareView {
            id: self.id as nat,
            view: self.view as nat,
            seq_num: self.seq_num as nat,
            client_request_digest: self.client_request_digest@,
            signature: self.signature@,
        }
    }
}

/// Whether a prepare votes for the slot and digest bound by a pre-prepare.
pub open spec fn prepare_corresponds(p: PrepareView, pp: PrePrepareView) -> bool {
    p.view == pp.view && p.seq_num == pp.seq_num && p.client_request_digest
        == pp.client_request_digest
}

impl Prepare {
    pub fn new_with_signature(
        key_pair_bytes: &Vec<u8>,
        id: NodeId,
        view: usize,
        seq_num: usize,
        client_request_digest: Vec<u8>,
    ) -> (r: Prepare)
        requires
            keypair_wf(key_pair_bytes@),
        ensures
            r@.id == id as nat,
            r@.view == view as nat,
            r@.seq_num == seq_num as nat,
            r@.client_request_digest == client_request_digest@,
            r@.signature == signature_of(
                key_pair_bytes@,
                prepare_prehash(view as nat, seq_num as nat, client_request_digest@),
            ),
            signature_valid(
                public_key_of(key_pair_bytes@),
                prepare_prehash(view as nat, seq_num as nat, client_request_digest@),
                r@.signature,
            ),
    {
        let prehash = phase_prehash_bytes("Prepare", view, seq_num, &client_request_digest);
        let signature = sign_message(key_pair_bytes, &prehash);
        Prepare { id, view, seq_num, client_request_digest, signature }
    }

    pub fn is_properly_signed_by(&self, pub_key: &Vec<u8>) -> (r: bool)
        ensures
            r == signature_valid(
                pub_key@,
                prepare_prehash(self@.view, self@.seq_num, self@.client_request_digest),
                self@.signature,
            ),
    {
        let prehash = phase_prehash_bytes(
            "Prepare",
            self.view,
            self.seq_num,
            &self.client_request_digest,
        );
        verify_signature(pub_key, &prehash, &self.signature)
    }

    /// Does this prepare message vote for the slot bound by `pre_prepare`?
    pub fn corresponds_to(&self, pre_prepare: &PrePrepare) -> (r: bool)
        ensures
            r == prepare_corresponds(self@, pre_prepare@),
    {
        if self.view != pre_prepare.view {
            return false;
        }
        if self.seq_num != pre_prepare.seq_num {
            return false;
        }
        let digests_equal = self.client_request_digest == pre_prepare.client_request_digest;
        proof {
            if digests_equal {
                assert(self@.client_request_digest =~= pre_prepare@.client_request_digest);
            }
        }
        digests_equal
    }

    /// Field-for-field equality.
    pub fn equals(&self, other: &Prepare) -> (r: bool)
        ensures
            r == (self@ == other@),
    {
        let same = self.id == other.id && self.view == other.view && self.seq_num == other.seq_num
            && self.client_request_digest == other.client_request_digest && self.signature
            == other.signature;
        proof {
            if same {
                assert(self@.client_request_digest =~= other@.client_request_digest);
                assert(self@.signature =~= other@.signature);
                assert(self@ =~= other@);
            }
        }
        same
    }

    pub fn duplicate(&self) -> (r: Prepare)
        ensures
            r@ == self@,
    {
        let r = Prepare {
            id: self.id,
            view: self.view,
            seq_num: self.seq_num,
            client_request_digest: self.client_request_digest.clone(),
            signature: self.signature.clone(),
        };
        proof {
            assert(r@.client_request_digest =~= self@.client_request_digest);
            assert(r@.signature =~= self@.signature);
            assert(r@ =~= self@);
        }
        r
    }
}

// ------------------------------------------------------------------
// Commit
// ------------------------------------------------------------------

/// A replica's vote that the prepared predicate holds for this slot and
/// digest.
pub struct Commit {
    pub id: NodeId,
    pub view: usize,
    pub seq_num: usize,
    pub client_request_digest: Vec<u8>,
    pub signature: Vec<u8>,
}

#[verifier::ext_equal]
pub struct CommitView {
    pub id: nat,
    pub view: nat,
    pub seq_num: nat,
    pub client_request_digest: Seq<u8>,
    pub signature: Seq<u8>,
}

impl View for Commit {
    type V = CommitView;

    open spec fn view(&self) -> CommitView {
        CommitView {
            id: self.id as nat,
            view: self.view as nat,
            seq_num: self.seq_num as nat,
            client_request_digest: self.client_request_digest@,
            signature: self.signature@,
        }
    }
}

/// Whether a commit votes for the same slot and digest as a prepare.
pub open spec fn commit_corresponds(c: CommitView, p: PrepareView) -> bool {
    c.view == p.view && c.seq_num == p.seq_num && c.client_request_digest
        == p.client_request_digest
}

impl Commit {
    pub fn new_with_signature(
        key_pair_bytes: &Vec<u8>,
        id: NodeId,
        view: usize,
        seq_num: usize,
        client_request_digest: Vec<u8>,
    ) -> (r: Commit)
        requires
            keypair_wf(key_pair_bytes@),
        ensures
            r@.id == id as nat,
            r@.view == view as nat,
            r@.seq_num == seq_num as nat,
            r@.client_request_digest == client_request_digest@,
            r@.signature == signature_of(
                key_pair_bytes@,
                commit_prehash(view as nat, seq_num as nat, client_request_digest@),
            ),
            signature_valid(
                public_key_of(key_pair_bytes@),
                commit_prehash(view as nat, seq_num as nat, client_request_digest@),
                r@.signature,
            ),
    {
        let prehash = phase_prehash_bytes("Commit", view, seq_num, &client_request_digest);
        let signature = sign_message(key_pair_bytes, &prehash);
        Commit { id, view, seq_num, client_request_digest, signature }
    }

    pub fn is_properly_signed_by(&self, pub_key: &Vec<u8>) -> (r: bool)
        ensures
            r == signature_valid(
                pub_key@,
                commit_prehash(self@.view, self@.seq_num, self@.client_request_digest),
                self@.signature,
            ),
    {
        let prehash = phase_prehash_bytes(
            "Commit",
            self.view,
            self.seq_num,
            &self.client_request_digest,
        );
        verify_signature(pub_key, &prehash, &self.signature)
    }

    /// Does this commit message vote for the same slot as `prepare`?
    pub fn corresponds_to(&self, prepare: &Prepare) -> (r: bool)
        ensures
            r == commit_corresponds(self@, prepare@),
    {
        if self.view != prepare.view {
            return false;
        }
        if self.seq_num != prepare.seq_num {
            return false;
        }
        let digests_equal = self.client_request_digest == prepare.client_request_digest;
        proof {
            if digests_equal {
                assert(self@.client_request_digest =~= prepare@.client_request_digest);
            }
        }
        digests_equal
    }

    /// Field-for-field equality.
    pub fn equals(&self, other: &Commit) -> (r: bool)
        ensures
            r == (self@ == other@),
    {
        let same = self.id == other.id && self.view == other.view && self.seq_num == other.seq_num
            && self.client_request_digest == other.client_request_digest && self.signature
            == other.signature;
        proof {
            if same {
                assert(self@.client_request_digest =~= other@.client_request_digest);
                assert(self@.signature =~= other@.signature);
                assert(self@ =~= other@);
            }
        }
        same
    }

    pub fn duplicate(&self) -> (r: Commit)
        ensures
            r@ == self@,
    {
        let r = Commit {
            id: self.id,
            view: self.view,
            seq_num: self.seq_num,
            client_request_digest: self.client_request_digest.clone(),
            signature: self.signature.clone(),
        };
        proof {
            assert(r@.client_request_digest =~= self@.client_request_digest);
            assert(r@.signature =~= self@.signature);
            assert(r@ =~= self@);
        }
        r
    }
}

// ------------------------------------------------------------------
// CheckPoint
// ------------------------------------------------------------------

/// A replica's attestation that it has applied every request up to
/// `committed_seq_num`, with a digest and snapshot of the store it reached.
pub struct CheckPoint {
    pub id: NodeId,
    pub committed_seq_num: usize,
    pub view: usize,
    pub state_digest: Vec<u8>,
    pub state: Store,
    pub signature: Vec<u8>,
}

#[verifier::ext_equal]
pub struct CheckPointView {
    pub id: nat,
    pub committed_seq_num: nat,
    pub view: nat,
    pub state_digest: Seq<u8>,
    pub state: Map<Seq<char>, u32>,
    pub signature: Seq<u8>,
}

impl View for CheckPoint {
    type V = CheckPointView;

    open spec fn view(&self) -> CheckPointView {
        CheckPointView {
            id: self.id as nat,
            committed_seq_num: self.committed_seq_num as nat,
            view: self.view as nat,
            state_digest: self.state_digest@,
            state: self.state@,
            signature: self.signature@,
        }
    }
}

impl CheckPoint {
    pub fn new_with_signature(
        key_pair_bytes: &Vec<u8>,
        id: NodeId,
        committed_seq_num: usize,
        view: usize,
        state_digest: Vec<u8>,
        state: Store,
    ) -> (r: CheckPoint)
        requires
            keypair_wf(key_pair_bytes@),
        ensures
            r@.id == id as nat,
            r@.committed_seq_num == committed_seq_num as nat,
            r@.view == view as nat,
            r@.state_digest == state_digest@,
            r@.state == state@,
            r@.signature == signature_of(
                key_pair_bytes@,
                checkpoint_prehash(committed_seq_num as nat, state_digest@),
            ),
            signature_valid(
                public_key_of(key_pair_bytes@),
                checkpoint_prehash(committed_seq_num as nat, state_digest@),
                r@.signature,
            ),
    {
        let prehash = checkpoint_prehash_bytes(committed_seq_num, &state_digest);
        let signature = sign_message(key_pair_bytes, &prehash);
        CheckPoint { id, committed_seq_num, view, state_digest, state, signature }
    }

    pub fn is_properly_signed_by(&self, pub_key: &Vec<u8>) -> (r: bool)
        ensures
            r == signature_valid(
                pub_key@,
                checkpoint_prehash(self@.committed_seq_num, self@.state_digest),
                self@.signature,
            ),
    {
        let prehash = checkpoint_prehash_bytes(self.committed_seq_num, &self.state_digest);
        verify_signature(pub_key, &prehash, &self.signature)
    }

    pub fn duplicate(&self) -> (r: CheckPoint)
        ensures
            r@ == self@,
    {
        let r = CheckPoint {
            id: self.id,
            committed_seq_num: self.committed_seq_num,
            view: self.view,
            state_digest: self.state_digest.clone(),
            state: self.state.snapshot(),
            signature: self.signature.clone(),
        };
        proof {
            assert(r@.state_digest =~= self@.state_digest);
            assert(r@.signature =~= self@.signature);
            assert(r@ =~= self@);
        }
        r
    }
}

/// Builds tag ‖ committed_seq_num ‖ state_digest.
fn checkpoint_prehash_bytes(committed_seq_num: usize, state_digest: &Vec<u8>) -> (r: Vec<u8>)
    ensures
        r@ == checkpoint_prehash(committed_seq_num as nat, state_digest@),
{
    let mut out: Vec<u8> = Vec::new();
    push_str_bytes(&mut out, "Checkpoint");
    push_u64_le(&mut out, committed_seq_num as u64);
    push_bytes(&mut out, state_digest.as_slice());
    out
}

// ------------------------------------------------------------------
// ViewChange and NewView
// ------------------------------------------------------------------

/// Evidence that a slot above the last stable checkpoint reached the
/// prepared predicate: its pre-prepare together with the matching prepares.
pub struct PreparedProof {
    pub pre_prepare: PrePrepare,
    pub prepares: Vec<Prepare>,
}

#[verifier::ext_equal]
pub struct PreparedProofView {
    pub pre_prepare: PrePrepareView,
    pub prepares: Seq<PrepareView>,
}

impl View for PreparedProof {
    type V = PreparedProofView;

    open spec fn view(&self) -> PreparedProofView {
        PreparedProofView {
            pre_prepare: self.pre_prepare@,
            prepares: self.prepares@.map_values(|p: Prepare| p@),
        }
    }
}

impl PreparedProof {
    pub fn duplicate(&self) -> (r: PreparedProof)
        ensures
            r@ == self@,
    {
        let mut prepares: Vec<Prepare> = Vec::new();
        let mut i: usize = 0;
        while i < self.prepares.len()
            invariant
                i <= self.prepares@.len(),
                prepares@.len() == i as int,
                forall|j: int| 0 <= j < i as int ==> #[trigger] prepares@[j]@ == self.prepares@[j]@,
            decreases self.prepares@.len() - i,
        {
            prepares.push(self.prepares[i].duplicate());
            i = i + 1;
        }
        let r = PreparedProof { pre_prepare: self.pre_prepare.duplicate(), prepares };
        proof {
            assert(r@.prepares =~= self@.prepares);
            assert(r@ =~= self@);
        }
        r
    }
}

/// A replica's signed declaration that it wants to move to `new_view`,
/// carrying its latest stable checkpoint's proof and the prepared slots
/// above it.
pub struct ViewChange {
    pub id: NodeId,
    pub new_view: usize,
    pub last_stable_seq_num: usize,
    pub checkpoint_proof: Vec<CheckPoint>,
    pub subsequent_prepares: Vec<PreparedProof>,
    pub signature: Vec<u8>,
}

#[verifier::ext_equal]
pub struct ViewChangeView {
    pub id: nat,
    pub new_view: nat,
    pub last_stable_seq_num: nat,
    pub checkpoint_proof: Seq<CheckPointView>,
    pub subsequent_prepares: Seq<PreparedProofView>,
    pub signature: Seq<u8>,
}

impl View for ViewChange {
    type V = ViewChangeView;

    open spec fn view(&self) -> ViewChangeView {
        ViewChangeView {
            id: self.id as nat,
            new_view: self.new_view as nat,
            last_stable_seq_num: self.last_stable_seq_num as nat,
            checkpoint_proof: self.checkpoint_proof@.map_values(|c: CheckPoint| c@),
            subsequent_prepares: self.subsequent_prepares@.map_values(|p: PreparedProof| p@),
            signature: self.signature@,
        }
    }
}

impl ViewChange {
    pub fn new_with_signature(
        key_pair_bytes: &Vec<u8>,
        id: NodeId,
        new_view: usize,
        last_stable_seq_num: usize,
        checkpoint_proof: Vec<CheckPoint>,
        subsequent_prepares: Vec<PreparedProof>,
    ) -> (r: ViewChange)
        requires
            keypair_wf(key_pair_bytes@),
        ensures
            r@.id == id as nat,
            r@.new_view == new_view as nat,
            r@.last_stable_seq_num == last_stable_seq_num as nat,
            r.checkpoint_proof == checkpoint_proof,
            r.subsequent_prepares == subsequent_prepares,
            r@.checkpoint_proof == checkpoint_proof@.map_values(|c: CheckPoint| c@),
            r@.subsequent_prepares == subsequent_prepares@.map_values(|p: PreparedProof| p@),
            r@.signature == signature_of(
                key_pair_bytes@,
                view_change_prehash(new_view as nat, last_stable_seq_num as nat),
            ),
            signature_valid(
                public_key_of(key_pair_bytes@),
                view_change_prehash(new_view as nat, last_stable_seq_num as nat),
                r@.signature,
            ),
    {
        let prehash = view_change_prehash_bytes(new_view, last_stable_seq_num);
        let signature = sign_message(key_pair_bytes, &prehash);
        ViewChange {
            id,
            new_view,
            last_stable_seq_num,
            checkpoint_proof,
            subsequent_prepares,
            signature,
        }
    }

    pub fn is_properly_signed_by(&self, pub_key: &Vec<u8>) -> (r: bool)
        ensures
            r == signature_valid(
                pub_key@,
                view_change_prehash(self@.new_view, self@.last_stable_seq_num),
                self@.signature,
            ),
    {
        let prehash = view_change_prehash_bytes(self.new_view, self.last_stable_seq_num);
        verify_signature(pub_key, &prehash, &self.signature)
    }

    pub fn duplicate(&self) -> (r: ViewChange)
        ensures
            r@ == self@,
    {
        let mut checkpoint_proof: Vec<CheckPoint> = Vec::new();
        let mut i: usize = 0;
        while i < self.checkpoint_proof.len()
            invariant
                i <= self.checkpoint_proof@.len(),
                checkpoint_proof@.len() == i as int,
                forall|j: int|
                    0 <= j < i as int ==> #[trigger] checkpoint_proof@[j]@
                        == self.checkpoint_proof@[j]@,
            decreases self.checkpoint_proof@.len() - i,
        {
            checkpoint_proof.push(self.checkpoint_proof[i].duplicate());
            i = i + 1;
        }
        let mut subsequent_prepares: Vec<PreparedProof> = Vec::new();
        let mut k: usize = 0;
        while k < self.subsequent_prepares.len()
            invariant
                k <= self.subsequent_prepares@.len(),
                subsequent_prepares@.len() == k as int,
                forall|j: int|
                    0 <= j < k as int ==> #[trigger] subsequent_prepares@[j]@
                        == self.subsequent_prepares@[j]@,
            decreases self.subsequent_prepares@.len() - k,
        {
            subsequent_prepares.push(self.subsequent_prepares[k].duplicate());
            k = k + 1;
        }
        let r = ViewChange {
            id: self.id,
            new_view: self.new_view,
            last_stable_seq_num: self.last_stable_seq_num,
            checkpoint_proof,
            subsequent_prepares,
            signature: self.signature.clone(),
        };
        proof {
            assert(r@.checkpoint_proof =~= self@.checkpoint_proof);
            assert(r@.subsequent_prepares =~= self@.subsequent_prepares);
            assert(r@.signature =~= self@.signature);
            assert(r@ =~= self@);
        }
        r
    }
}

/// Builds tag ‖ new_view ‖ last_stable_seq_num.
fn view_change_prehash_bytes(new_view: usize, last_stable_seq_num: usize) -> (r: Vec<u8>)
    ensures
        r@ == view_change_prehash(new_view as nat, last_stable_seq_num as nat),
{
    let mut out: Vec<u8> = Vec::new();
    push_str_bytes(&mut out, "ViewChange");
    push_u64_le(&mut out, new_view as u64);
    push_u64_le(&mut out, last_stable_seq_num as u64);
    out
}

/// The new primary's announcement of `view`: the quorum of view-change
/// messages that justifies it and the pre-prepares every replica must replay.
/// Carries no signature of its own; its authority rests on the signed
/// messages inside it.
pub struct NewView {
    pub id: NodeId,
    pub view: usize,
    pub view_change_messages: Vec<ViewChange>,
    pub outstanding_pre_prepares: Vec<PrePrepare>,
}

#[verifier::ext_equal]
pub struct NewViewView {
    pub id: nat,
    pub view: nat,
    pub view_change_messages: Seq<ViewChangeView>,
    pub outstanding_pre_prepares: Seq<PrePrepareView>,
}

impl View for NewView {
    type V = NewViewView;

    open spec fn view(&self) -> NewViewView {
        NewViewView {
            id: self.id as nat,
            view: self.view as nat,
            view_change_messages: self.view_change_messages@.map_values(|v: ViewChange| v@),
            outstanding_pre_prepares: self.outstanding_pre_prepares@.map_values(
                |p: PrePrepare| p@,
            ),
        }
    }
}

// ------------------------------------------------------------------
// Client responses
// ------------------------------------------------------------------

/// The signed answer a replica sends back to a client after applying (or
/// re-encountering) its request.
pub struct ClientResponse {
    pub id: NodeId,
    pub time_stamp: usize,
    pub key: Key,
    pub value: Option<Value>,
    pub success: bool,
    pub signature: Vec<u8>,
}

#[verifier::ext_equal]
pub struct ClientResponseView {
    pub id: nat,
    pub time_stamp: nat,
    pub key: Seq<char>,
    pub value: Option<u32>,
    pub success: bool,
    pub signature: Seq<u8>,
}

impl View for ClientResponse {
    type V = ClientResponseView;

    open spec fn view(&self) -> ClientResponseView {
        ClientResponseView {
            id: self.id as nat,
            time_stamp: self.time_stamp as nat,
            key: self.key@,
            value: self.value,
            success: self.success,
            signature: self.signature@,
        }
    }
}

impl ClientResponse {
    pub fn new_with_signature(
        key_pair_bytes: &Vec<u8>,
        id: NodeId,
        time_stamp: usize,
        key: Key,
        value: Option<Value>,
        success: bool,
    ) -> (r: ClientResponse)
        requires
            keypair_wf(key_pair_bytes@),
        ensures
            r@.id == id as nat,
            r@.time_stamp == time_stamp as nat,
            r@.key == key@,
            r@.value == value,
            r@.success == success,
            r@.signature == signature_of(
                key_pair_bytes@,
                client_response_prehash(time_stamp as nat, key@),
            ),
            signature_valid(
                public_key_of(key_pair_bytes@),
                client_response_prehash(time_stamp as nat, key@),
                r@.signature,
            ),
    {
        let mut prehash: Vec<u8> = Vec::new();
        push_str_bytes(&mut prehash, "ClientResponse");
        push_u64_le(&mut prehash, time_stamp as u64);
        push_str_bytes(&mut prehash, key.as_str());
        let signature = sign_message(key_pair_bytes, &prehash);
        ClientResponse { id, time_stamp, key, value, success, signature }
    }

    pub fn is_properly_signed_by(&self, pub_key: &Vec<u8>) -> (r: bool)
        ensures
            r == signature_valid(
                pub_key@,
                client_response_prehash(self@.time_stamp, self@.key),
                self@.signature,
            ),
    {
        let mut prehash: Vec<u8> = Vec::new();
        push_str_bytes(&mut prehash, "ClientResponse");
        push_u64_le(&mut prehash, self.time_stamp as u64);
        push_str_bytes(&mut prehash, self.key.as_str());
        verify_signature(pub_key, &prehash, &self.signature)
    }

    pub fn duplicate(&self) -> (r: ClientResponse)
        ensures
            r@ == self@,
    {
        let r = ClientResponse {
            id: self.id,
            time_stamp: self.time_stamp,
            key: self.key.clone(),
            value: self.value,
            success: self.success,
            signature: self.signature.clone(),
        };
        proof {
            assert(r@.signature =~= self@.signature);
            assert(r@ =~= self@);
        }
        r
    }
}

// ------------------------------------------------------------------
// Identifier and the message envelope
// ------------------------------------------------------------------

/// The handshake a node opens a connection with: who it is and its public
/// key bytes.
pub struct Identifier {
    pub id: NodeId,
    pub pub_key_vec: Vec<u8>,
}

#[verifier::ext_equal]
pub struct IdentifierView {
    pub id: nat,
    pub pub_key_vec: Seq<u8>,
}

impl View for Identifier {
    type V = IdentifierView;

    open spec fn view(&self) -> IdentifierView {
        IdentifierView { id: self.id as nat, pub_key_vec: self.pub_key_vec@ }
    }
}

impl Identifier {
    pub fn duplicate(&self) -> (r: Identifier)
        ensures
            r@ == self@,
    {
        let r = Identifier { id: self.id, pub_key_vec: self.pub_key_vec.clone() };
        proof {
            assert(r@.pub_key_vec =~= self@.pub_key_vec);
            assert(r@ =~= self@);
        }
        r
    }
}

impl NewView {
    /// Assemble the announcement. A new-view message carries no signature
    /// of its own: its authority rests entirely on the signed view changes
    /// and pre-prepares inside it, so the keypair goes unused.
    pub fn new_with_signature(
        _key_pair_bytes: &Vec<u8>,
        id: NodeId,
        view: usize,
        view_change_messages: Vec<ViewChange>,
        outstanding_pre_prepares: Vec<PrePrepare>,
    ) -> (r: NewView)
        ensures
            r@.id == id as nat,
            r@.view == view as nat,
            r.view_change_messages == view_change_messages,
            r.outstanding_pre_prepares == outstanding_pre_prepares,
            r@.view_change_messages == view_change_messages@.map_values(|v: ViewChange| v@),
            r@.outstanding_pre_prepares == outstanding_pre_prepares@.map_values(
                |p: PrePrepare| p@,
            ),
    {
        NewView { id, view, view_change_messages, outstanding_pre_prepares }
    }

    /// A new-view message has no signature of its own to check; its
    /// enclosed messages are verified individually on acceptance.
    pub fn is_properly_signed_by(&self, _pub_key: &Vec<u8>) -> (r: bool)
        ensures
            r == true,
    {
        true
    }

    pub fn duplicate(&self) -> (r: NewView)
        ensures
            r@ == self@,
    {
        let mut view_change_messages: Vec<ViewChange> = Vec::new();
        let mut i: usize = 0;
        while i < self.view_change_messages.len()
            invariant
                i <= self.view_change_messages@.len(),
                view_change_messages@.len() == i as int,
                forall|j: int|
                    0 <= j < i as int ==> #[trigger] view_change_messages@[j]@
                        == self.view_change_messages@[j]@,
            decreases self.view_change_messages@.len() - i,
        {
            view_change_messages.push(self.view_change_messages[i].duplicate());
            i = i + 1;
        }
        let mut outstanding_pre_prepares: Vec<PrePrepare> = Vec::new();
        let mut k: usize = 0;
        while k < self.outstanding_pre_prepares.len()
            invariant
                k <= self.outstanding_pre_prepares@.len(),
                outstanding_pre_prepares@.len() == k as int,
                forall|j: int|
                    0 <= j < k as int ==> #[trigger] outstanding_pre_prepares@[j]@
                        == self.outstanding_pre_prepares@[j]@,
            decreases self.outstanding_pre_prepares@.len() - k,
        {
            outstanding_pre_prepares.push(self.outstanding_pre_prepares[k].duplicate());
            k = k + 1;
        }
        let r = NewView {
            id: self.id,
            view: self.view,
            view_change_messages,
            outstanding_pre_prepares,
        };
        proof {
            assert(r@.view_change_messages =~= self@.view_change_messages);
            assert(r@.outstanding_pre_prepares =~= self@.outstanding_pre_prepares);
            assert(r@ =~= self@);
        }
        r
    }
}

/// Everything that travels between nodes or between a client and a node.
pub enum Message {
    IdentifierMessage(Identifier),
    PrePrepareMessage(PrePrepare),
    PrepareMessage(Prepare),
    CommitMessage(Commit),
    ViewChangeMessage(ViewChange),
    NewViewMessage(NewView),
    CheckPointMessage(CheckPoint),
    ClientRequestMessage(ClientRequest),
    ClientResponseMessage(ClientResponse),
}

#[verifier::ext_equal]
pub enum MessageView {
    IdentifierMessage(IdentifierView),
    PrePrepareMessage(PrePrepareView),
    PrepareMessage(PrepareView),
    CommitMessage(CommitView),
    ViewChangeMessage(ViewChangeView),
    NewViewMessage(NewViewView),
    CheckPointMessage(CheckPointView),
    ClientRequestMessage(ClientRequestView),
    ClientResponseMessage(ClientResponseView),
}

impl View for Message {
    type V = MessageView;

    open spec fn view(&self) -> MessageView {
        match self {
            Message::IdentifierMessage(m) => MessageView::IdentifierMessage(m@),
            Message::PrePrepareMessage(m) => MessageView::PrePrepareMessage(m@),
            Message::PrepareMessage(m) => MessageView::PrepareMessage(m@),
            Message::CommitMessage(m) => MessageView::CommitMessage(m@),
            Message::ViewChangeMessage(m) => MessageView::ViewChangeMessage(m@),
            Message::NewViewMessage(m) => MessageView::NewViewMessage(m@),
            Message::CheckPointMessage(m) => MessageView::CheckPointMessage(m@),
            Message::ClientRequestMessage(m) => MessageView::ClientRequestMessage(m@),
            Message::ClientResponseMessage(m) => MessageView::ClientResponseMessage(m@),
        }
    }
}

impl Message {
    /// Whether this message's own signature verifies under `pub_key`.
    /// Variants that carry no signature of their own (the handshake, client
    /// requests and new-view announcements, whose authority rests on the
    /// messages inside them) verify trivially; client responses are checked
    /// by clients, not replicas.
    pub fn is_properly_signed_by(&self, pub_key: &Vec<u8>) -> (r: bool)
        ensures
            r == (match self {
                Message::PrePrepareMessage(m) => signature_valid(
                    pub_key@,
                    pre_prepare_prehash(m@.view, m@.seq_num, request_digest(m@.client_request)),
                    m@.signature,
                ),
                Message::PrepareMessage(m) => signature_valid(
                    pub_key@,
                    prepare_prehash(m@.view, m@.seq_num, m@.client_request_digest),
                    m@.signature,
                ),
                Message::CommitMessage(m) => signature_valid(
                    pub_key@,
                    commit_prehash(m@.view, m@.seq_num, m@.client_request_digest),
                    m@.signature,
                ),
                Message::CheckPointMessage(m) => signature_valid(
                    pub_key@,
                    checkpoint_prehash(m@.committed_seq_num, m@.state_digest),
                    m@.signature,
                ),
                Message::ViewChangeMessage(m) => signature_valid(
                    pub_key@,
                    view_change_prehash(m@.new_view, m@.last_stable_seq_num),
                    m@.signature,
                ),
                Message::ClientResponseMessage(m) => signature_valid(
                    pub_key@,
                    client_response_prehash(m@.time_stamp, m@.key),
                    m@.signature,
                ),
                _ => true,
            }),
    {
        match self {
            Message::PrePrepareMessage(m) => m.is_properly_signed_by(pub_key),
            Message::PrepareMessage(m) => m.is_properly_signed_by(pub_key),
            Message::CommitMessage(m) => m.is_properly_signed_by(pub_key),
            Message::CheckPointMessage(m) => m.is_properly_signed_by(pub_key),
            Message::ViewChangeMessage(m) => m.is_properly_signed_by(pub_key),
            Message::NewViewMessage(m) => m.is_properly_signed_by(pub_key),
            Message::ClientResponseMessage(m) => m.is_properly_signed_by(pub_key),
            Message::IdentifierMessage(_) => true,
            Message::ClientRequestMessage(_) => true,
        }
    }

    pub fn duplicate(&self) -> (r: Message)
        ensures
            r@ == self@,
    {
        match self {
            Message::IdentifierMessage(m) => Message::IdentifierMessage(m.duplicate()),
            Message::PrePrepareMessage(m) => Message::PrePrepareMessage(m.duplicate()),
            Message::PrepareMessage(m) => Message::PrepareMessage(m.duplicate()),
            Message::CommitMessage(m) => Message::CommitMessage(m.duplicate()),
            Message::ViewChangeMessage(m) => Message::ViewChangeMessage(m.duplicate()),
            Message::NewViewMessage(m) => Message::NewViewMessage(m.duplicate()),
            Message::CheckPointMessage(m) => Message::CheckPointMessage(m.duplicate()),
            Message::ClientRequestMessage(m) => Message::ClientRequestMessage(m.duplicate()),
            Message::ClientResponseMessage(m) => Message::ClientResponseMessage(m.duplicate()),
        }
    }

    /// The sending node, where the variant carries one; client requests
    /// originate outside the cluster and have none.
    pub fn get_id(&self) -> (r: Option<NodeId>)
        ensures
            r == (match self {
                Message::IdentifierMessage(m) => Some(m.id),
                Message::PrePrepareMessage(m) => Some(m.id),
                Message::PrepareMessage(m) => Some(m.id),
                Message::CommitMessage(m) => Some(m.id),
                Message::ViewChangeMessage(m) => Some(m.id),
                Message::NewViewMessage(m) => Some(m.id),
                Message::CheckPointMessage(m) => Some(m.id),
                Message::ClientRequestMessage(_) => None::<NodeId>,
                Message::ClientResponseMessage(m) => Some(m.id),
            }),
    {
        match self {
            Message::IdentifierMessage(m) => Some(m.id),
            Message::PrePrepareMessage(m) => Some(m.id),
            Message::PrepareMessage(m) => Some(m.id),
            Message::CommitMessage(m) => Some(m.id),
            Message::ViewChangeMessage(m) => Some(m.id),
            Message::NewViewMessage(m) => Some(m.id),
            Message::CheckPointMessage(m) => Some(m.id),
            Message::ClientRequestMessage(_) => None,
            Message::ClientResponseMessage(m) => Some(m.id),
        }
    }
}

// ------------------------------------------------------------------
// Commands
// ------------------------------------------------------------------

/// An instruction from the consensus engine to the transport.
pub enum NodeCommand {
    SendMessageCommand(SendMessage),
    BroadCastMessageCommand(BroadCastMessage),
}

/// Send one message to one address.
pub struct SendMessage {
    pub destination: String,
    pub message: Message,
}

/// Fan a message out to every peer.
pub struct BroadCastMessage {
    pub message: Message,
}

/// An instruction into the consensus engine's command loop.
pub enum ConsensusCommand {
    ProcessMessage(Message),
    MisdirectedClientRequest(ClientRequest),
    InitPrePrepare(ClientRequest),
    AcceptPrePrepare(PrePrepare),
    AcceptPrepare(Prepare),
    EnterCommit(Prepare),
    AcceptCommit(Commit),
    ApplyCommit(Commit),
    InitViewChange(ClientRequest),
    AcceptViewChange(ViewChange),
    AcceptNewView(NewView),
    AcceptCheckpoint(CheckPoint),
}

} // verus!
