//! A deterministic in-memory cluster: four consensus engines wired
//! together by plain queues, with real Ed25519 keys, so whole protocol
//! runs can be driven step by step.

use pbft::config::Config;
use pbft::consensus::Consensus;
use pbft::messages::{ClientRequest, ConsensusCommand, Message, NodeCommand};

pub const CLIENT_ADDR: &str = "client:0";

pub fn keypair_bytes(seed: u8) -> Vec<u8> {
    let mut secret_bytes = [0u8; 32];
    for i in 0..32 {
        secret_bytes[i] = seed.wrapping_mul(31).wrapping_add(i as u8).wrapping_add(1);
    }
    let secret = ed25519_dalek::SecretKey::from_bytes(&secret_bytes).unwrap();
    let public = ed25519_dalek::PublicKey::from(&secret);
    let mut kp = secret.to_bytes().to_vec();
    kp.extend_from_slice(&public.to_bytes());
    kp
}

pub fn public_bytes(seed: u8) -> Vec<u8> {
    keypair_bytes(seed)[32..].to_vec()
}

pub struct Cluster {
    pub nodes: Vec<Consensus>,
    pub queues: Vec<Vec<ConsensusCommand>>,
    /// Replicas whose outbound traffic the network silently drops.
    pub muted: Vec<usize>,
    /// Responses that reached the client's address.
    pub client_inbox: Vec<Message>,
    /// Timers armed but not yet fired: (replica, request).
    pub pending_timers: Vec<(usize, ClientRequest)>,
    pub peer_addrs: Vec<String>,
}

impl Cluster {
    pub fn new(checkpoint_frequency: usize) -> Cluster {
        let num_nodes = 4usize;
        let peer_addrs: Vec<String> = (0..num_nodes).map(|i| format!("node:{}", i)).collect();
        let public_keys: Vec<Vec<u8>> = (0..num_nodes).map(|i| public_bytes(i as u8)).collect();
        let mut nodes = Vec::new();
        let mut queues = Vec::new();
        for id in 0..num_nodes {
            let config = Config::new(
                num_nodes,
                1,
                checkpoint_frequency,
                5000,
                peer_addrs.clone(),
                public_keys.clone(),
                keypair_bytes(id as u8),
            )
            .expect("valid configuration");
            nodes.push(Consensus::new(id, config));
            queues.push(Vec::new());
        }
        Cluster {
            nodes,
            queues,
            muted: Vec::new(),
            client_inbox: Vec::new(),
            pending_timers: Vec::new(),
            peer_addrs,
        }
    }

    pub fn request(&self, time_stamp: usize, key: &str, value: Option<u32>) -> ClientRequest {
        ClientRequest {
            respond_addr: String::from(CLIENT_ADDR),
            time_stamp,
            key: String::from(key),
            value,
        }
    }

    pub fn send_client_request(&mut self, to: usize, request: &ClientRequest) {
        self.queues[to].push(ConsensusCommand::ProcessMessage(Message::ClientRequestMessage(
            request.duplicate(),
        )));
    }

    fn route(&mut self, from: usize, sends: Vec<NodeCommand>, timers: Vec<ClientRequest>) {
        let muted = self.muted.contains(&from);
        for t in timers {
            self.pending_timers.push((from, t));
        }
        if muted {
            return;
        }
        for command in sends {
            match command {
                NodeCommand::SendMessageCommand(send) => {
                    if send.destination.as_str() == CLIENT_ADDR {
                        self.client_inbox.push(send.message);
                    } else {
                        for j in 0..self.nodes.len() {
                            if self.peer_addrs[j] == send.destination {
                                self.queues[j].push(ConsensusCommand::ProcessMessage(send.message));
                                break;
                            }
                        }
                    }
                }
                NodeCommand::BroadCastMessageCommand(broadcast) => {
                    for j in 0..self.nodes.len() {
                        if j != from {
                            self.queues[j].push(ConsensusCommand::ProcessMessage(
                                broadcast.message.duplicate(),
                            ));
                        }
                    }
                }
            }
        }
    }

    /// Deliver queued commands until every queue is empty.
    pub fn run(&mut self) {
        let mut steps = 0usize;
        loop {
            let mut progressed = false;
            for i in 0..self.nodes.len() {
                if !self.queues[i].is_empty() {
                    let command = self.queues[i].remove(0);
                    let outcome = self.nodes[i].handle_command(&command);
                    for follow_up in outcome.follow_ups {
                        self.queues[i].push(follow_up);
                    }
                    self.route(i, outcome.node_commands, outcome.new_timers);
                    progressed = true;
                }
            }
            if !progressed {
                break;
            }
            steps += 1;
            assert!(steps < 100_000, "cluster failed to quiesce");
        }
    }

    /// Fire every armed timer once, then deliver whatever that triggers.
    pub fn fire_timers(&mut self) {
        let timers = std::mem::take(&mut self.pending_timers);
        for (i, request) in timers {
            let outcome = self.nodes[i].handle_wait_timer_expired(&request);
            for follow_up in outcome.follow_ups {
                self.queues[i].push(follow_up);
            }
            self.route(i, outcome.node_commands, outcome.new_timers);
        }
        self.run();
    }

    pub fn store_value(&self, node: usize, key: &str) -> Option<u32> {
        self.nodes[node].state.store.get(&String::from(key))
    }

    pub fn responses_matching(
        &self,
        time_stamp: usize,
        key: &str,
        value: Option<u32>,
    ) -> usize {
        let mut n = 0;
        for m in &self.client_inbox {
            if let Message::ClientResponseMessage(resp) = m {
                if resp.time_stamp == time_stamp
                    && resp.key.as_str() == key
                    && resp.value == value
                    && resp.success
                {
                    n += 1;
                }
            }
        }
        n
    }
}

#[test]
fn harness_builds_a_cluster() {
    let cluster = Cluster::new(100);
    assert_eq!(cluster.nodes.len(), 4);
    assert_eq!(cluster.nodes[2].id, 2);
    assert_eq!(cluster.nodes[2].state.view, 0);
}

#[test]
fn happy_path_set_commits_everywhere() {
    let mut cluster = Cluster::new(100);
    let request = cluster.request(1, "abc", Some(7));
    cluster.send_client_request(0, &request);
    cluster.run();
    for i in 0..4 {
        assert_eq!(cluster.store_value(i, "abc"), Some(7));
        assert_eq!(cluster.nodes[i].state.last_seq_num_committed, 1);
        assert_eq!(cluster.nodes[i].state.view, 0);
        assert!(!cluster.nodes[i].state.in_view_change);
    }
    assert_eq!(cluster.responses_matching(1, "abc", Some(7)), 4);
    for i in 1..4 {
        let a = &cluster.nodes[0].state.message_bank.applied[0];
        let b = &cluster.nodes[i].state.message_bank.applied[0];
        assert_eq!(a.commit.seq_num, b.commit.seq_num);
        assert_eq!(a.request.key, b.request.key);
        assert_eq!(a.request.value, b.request.value);
        assert_eq!(a.request.time_stamp, b.request.time_stamp);
    }
    cluster.fire_timers();
    for i in 0..4 {
        assert_eq!(cluster.nodes[i].state.view, 0);
    }
}

#[test]
fn get_reads_committed_value_without_mutating() {
    let mut cluster = Cluster::new(100);
    let set_request = cluster.request(1, "abc", Some(7));
    cluster.send_client_request(0, &set_request);
    cluster.run();
    let get_request = cluster.request(2, "abc", None);
    cluster.send_client_request(0, &get_request);
    cluster.run();
    assert_eq!(cluster.responses_matching(2, "abc", Some(7)), 4);
    for i in 0..4 {
        assert_eq!(cluster.store_value(i, "abc"), Some(7));
        assert_eq!(cluster.nodes[i].state.last_seq_num_committed, 2);
        let applied = &cluster.nodes[i].state.message_bank.applied;
        assert_eq!(applied.len(), 2);
        for (offset, entry) in applied.iter().enumerate() {
            assert_eq!(entry.commit.seq_num, offset + 1);
        }
    }
}

#[test]
fn misdirected_request_is_forwarded_and_timer_is_a_no_op() {
    let mut cluster = Cluster::new(100);
    let request = cluster.request(5, "k", Some(3));
    cluster.send_client_request(2, &request);
    cluster.run();
    for i in 0..4 {
        assert_eq!(cluster.store_value(i, "k"), Some(3));
    }
    assert!(cluster.pending_timers.iter().any(|(i, _)| *i == 2));
    cluster.fire_timers();
    for i in 0..4 {
        assert_eq!(cluster.nodes[i].state.view, 0);
        assert!(!cluster.nodes[i].state.in_view_change);
    }
}

#[test]
fn silent_primary_triggers_view_change_and_request_commits() {
    let mut cluster = Cluster::new(100);
    cluster.muted.push(0);
    let request = cluster.request(9, "x", Some(1));
    cluster.send_client_request(1, &request);
    cluster.send_client_request(2, &request);
    cluster.send_client_request(3, &request);
    cluster.run();
    for i in 1..4 {
        assert_eq!(cluster.store_value(i, "x"), None);
    }
    cluster.fire_timers();
    for i in 1..4 {
        assert_eq!(cluster.nodes[i].state.view, 1, "replica {} entered view 1", i);
        assert!(!cluster.nodes[i].state.in_view_change);
        assert_eq!(cluster.store_value(i, "x"), Some(1));
    }
    assert!(cluster.responses_matching(9, "x", Some(1)) >= 3);
}

#[test]
fn equivocating_primary_prevents_quorum_and_is_replaced() {
    let mut cluster = Cluster::new(100);
    cluster.muted.push(0);
    let request_a = cluster.request(11, "dup", Some(9));
    let request_b = cluster.request(12, "dup", Some(8));
    let kp0 = keypair_bytes(0);
    let pp_a = pbft::messages::PrePrepare::new_with_signature(&kp0, 0, 0, 1, &request_a);
    let pp_b = pbft::messages::PrePrepare::new_with_signature(&kp0, 0, 0, 1, &request_b);
    cluster.queues[1].push(ConsensusCommand::ProcessMessage(Message::PrePrepareMessage(
        pp_a.duplicate(),
    )));
    cluster.queues[2].push(ConsensusCommand::ProcessMessage(Message::PrePrepareMessage(pp_a)));
    cluster.queues[3].push(ConsensusCommand::ProcessMessage(Message::PrePrepareMessage(pp_b)));
    cluster.run();
    for i in 0..4 {
        assert_eq!(cluster.nodes[i].state.last_seq_num_committed, 0);
        assert_eq!(cluster.store_value(i, "dup"), None);
    }
    cluster.fire_timers();
    for i in 1..4 {
        assert_eq!(cluster.nodes[i].state.view, 1);
        assert!(!cluster.nodes[i].state.in_view_change);
        assert!(cluster.nodes[i].state.last_seq_num_committed >= 1);
        assert_eq!(cluster.store_value(i, "dup"), cluster.store_value(1, "dup"));
    }
}

#[test]
fn checkpoint_at_frequency_truncates_and_digests_agree() {
    let mut cluster = Cluster::new(10);
    for ts in 1..=10usize {
        let request = cluster.request(ts, &format!("key{}", ts), Some(ts as u32));
        cluster.send_client_request(0, &request);
        cluster.run();
    }
    for i in 0..4 {
        assert_eq!(cluster.nodes[i].state.last_seq_num_committed, 10);
        assert_eq!(cluster.nodes[i].state.last_stable_seq_num, 10, "replica {} stabilized", i);
        assert!(!cluster.nodes[i].state.stable_proof.is_empty());
        for entry in &cluster.nodes[i].state.message_bank.log {
            let seq = match entry {
                Message::PrePrepareMessage(pp) => Some(pp.seq_num),
                Message::PrepareMessage(p) => Some(p.seq_num),
                Message::CommitMessage(c) => Some(c.seq_num),
                _ => None,
            };
            if let Some(seq) = seq {
                assert!(seq > 10, "log entry below the stable checkpoint survived");
            }
        }
        assert_eq!(cluster.store_value(i, "key3"), Some(3));
    }
    let reference = cluster.nodes[0].state.stable_proof[0].state_digest.clone();
    for i in 0..4 {
        assert_eq!(cluster.nodes[i].state.stable_proof[0].state_digest, reference);
        assert_eq!(cluster.nodes[i].state.stable_proof[0].committed_seq_num, 10);
    }
}

#[test]
fn replayed_request_is_answered_from_the_record_without_reapplying() {
    let mut cluster = Cluster::new(100);
    let request = cluster.request(1, "abc", Some(7));
    cluster.send_client_request(0, &request);
    cluster.run();
    assert_eq!(cluster.responses_matching(1, "abc", Some(7)), 4);
    for i in 0..4 {
        cluster.send_client_request(i, &request);
    }
    cluster.run();
    assert_eq!(cluster.responses_matching(1, "abc", Some(7)), 8);
    for i in 0..4 {
        assert_eq!(cluster.nodes[i].state.last_seq_num_committed, 1);
        assert_eq!(cluster.store_value(i, "abc"), Some(7));
    }
}
