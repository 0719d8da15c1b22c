//! Cluster configuration: sizes, peer addresses, public keys and this
//! replica's signing keypair. A configuration is only handed out once the
//! safety conditions (`n >= 3f + 1`, a usable keypair, one address and one
//! key per replica) have been checked.

use vstd::prelude::*;

use crate::crypto::{keypair_is_wf, keypair_wf};
use crate::NodeId;

verus! {

pub struct Config {
    /// Number of replicas `n` in the cluster.
    pub num_nodes: usize,
    /// Number of tolerated Byzantine replicas `f`; `n >= 3f + 1`.
    pub num_faulty: usize,
    /// A checkpoint is proposed whenever the committed sequence number is a
    /// positive multiple of this.
    pub checkpoint_frequency: usize,
    /// Base of the exponential view-change timeout, in milliseconds.
    pub view_change_timeout_base_millis: u64,
    /// Address of each replica, indexed by its id.
    pub peer_addrs: Vec<String>,
    /// Ed25519 public key bytes of each replica, indexed by its id.
    pub public_keys: Vec<Vec<u8>>,
    /// This replica's own Ed25519 keypair bytes.
    pub key_pair_bytes: Vec<u8>,
}

impl Config {
    /// The safety conditions checked at bootstrap.
    pub open spec fn wf(&self) -> bool {
        &&& self.num_nodes >= 3 * self.num_faulty + 1
        &&& self.checkpoint_frequency >= 1
        &&& self.peer_addrs@.len() == self.num_nodes
        &&& self.public_keys@.len() == self.num_nodes
        &&& keypair_wf(self.key_pair_bytes@)
        &&& self.num_nodes < usize::MAX / 3
    }

    /// The quorum size `2f + 1`.
    pub open spec fn spec_quorum(&self) -> nat {
        2 * (self.num_faulty as nat) + 1
    }

    /// Validate a configuration. Returns it exactly when the safety
    /// conditions hold; a cluster that cannot tolerate its declared number
    /// of faults is refused outright.
    pub fn new(
        num_nodes: usize,
        num_faulty: usize,
        checkpoint_frequency: usize,
        view_change_timeout_base_millis: u64,
        peer_addrs: Vec<String>,
        public_keys: Vec<Vec<u8>>,
        key_pair_bytes: Vec<u8>,
    ) -> (r: Option<Config>)
        ensures
            r is Some <==> (num_nodes >= 3 * num_faulty + 1 && checkpoint_frequency >= 1
                && peer_addrs@.len() == num_nodes && public_keys@.len() == num_nodes && keypair_wf(
                key_pair_bytes@,
            ) && num_nodes < usize::MAX / 3),
            r matches Some(c) ==> c.wf() && c.num_nodes == num_nodes && c.num_faulty == num_faulty
                && c.checkpoint_frequency == checkpoint_frequency
                && c.view_change_timeout_base_millis == view_change_timeout_base_millis
                && c.peer_addrs@ == peer_addrs@ && c.public_keys@ == public_keys@
                && c.key_pair_bytes@ == key_pair_bytes@,
    {
        if num_faulty > usize::MAX / 3 - 1 {
            return None;
        }
        if num_nodes < 3 * num_faulty + 1 {
            return None;
        }
        if num_nodes >= usize::MAX / 3 {
            return None;
        }
        if checkpoint_frequency < 1 {
            return None;
        }
        if peer_addrs.len() != num_nodes || public_keys.len() != num_nodes {
            return None;
        }
        if !keypair_is_wf(&key_pair_bytes) {
            return None;
        }
        Some(
            Config {
                num_nodes,
                num_faulty,
                checkpoint_frequency,
                view_change_timeout_base_millis,
                peer_addrs,
                public_keys,
                key_pair_bytes,
            },
        )
    }

    /// The primary of view `v`: `v mod n`.
    pub open spec fn spec_leader_of(&self, view: nat) -> nat
        recommends
            self.num_nodes > 0,
    {
        view % (self.num_nodes as nat)
    }

    /// The primary of view `view`.
    pub fn leader_of(&self, view: usize) -> (r: NodeId)
        requires
            self.wf(),
        ensures
            r as nat == self.spec_leader_of(view as nat),
            r < self.num_nodes,
    {
        view % self.num_nodes
    }

    /// The quorum size `2f + 1`.
    pub fn quorum_size(&self) -> (r: usize)
        requires
            self.wf(),
        ensures
            r as nat == self.spec_quorum(),
    {
        2 * self.num_faulty + 1
    }

    /// The view-change timeout for a view `extra_rounds` past the current
    /// one: `base * 2^extra_rounds`, saturating at `u64::MAX`.
    pub fn backoff_timeout_millis(&self, extra_rounds: u32) -> (r: u64)
        ensures
            r as nat == crate::config::backoff(
                self.view_change_timeout_base_millis as nat,
                extra_rounds as nat,
            ),
    {
        let mut r: u64 = self.view_change_timeout_base_millis;
        let mut k: u32 = 0;
        while k < extra_rounds
            invariant
                k <= extra_rounds,
                r as nat == backoff(self.view_change_timeout_base_millis as nat, k as nat),
            decreases extra_rounds - k,
        {
            if r > u64::MAX / 2 {
                r = u64::MAX;
            } else {
                r = r * 2;
            }
            k = k + 1;
        }
        r
    }
}

/// `base * 2^rounds`, saturating at `u64::MAX`.
pub open spec fn backoff(base: nat, rounds: nat) -> nat
    decreases rounds,
{
    if rounds == 0 {
        base
    } else {
        let prev = backoff(base, (rounds - 1) as nat);
        if prev > u64::MAX as nat / 2 {
            u64::MAX as nat
        } else {
            prev * 2
        }
    }
}

} // verus!
