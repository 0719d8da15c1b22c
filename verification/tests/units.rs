//! Unit tests for the building blocks: encodings, the store, vote tallies,
//! configuration validation, signatures and digests, and the client's vote
//! counting.

use pbft::client::VoteCounter;
use pbft::config::Config;
use pbft::encoding::{u32_to_le_bytes, u64_to_le_bytes};
use pbft::messages::{CheckPoint, ClientRequest, ClientResponse, Commit, Message, PrePrepare, Prepare, ViewChange};
use pbft::store::Store;
use pbft::votes::PhaseVotes;

fn keypair_bytes(seed: u8) -> Vec<u8> {
    let mut secret_bytes = [0u8; 32];
    for i in 0..32 {
        secret_bytes[i] = seed.wrapping_mul(31).wrapping_add(i as u8).wrapping_add(1);
    }
    let secret = ed25519_dalek::SecretKey::from_bytes(&secret_bytes).unwrap();
    let public = ed25519_dalek::PublicKey::from(&secret);
    let mut kp = secret.to_bytes().to_vec();
    kp.extend_from_slice(&public.to_bytes());
    kp
}

fn public_bytes(seed: u8) -> Vec<u8> {
    keypair_bytes(seed)[32..].to_vec()
}

fn sample_request() -> ClientRequest {
    ClientRequest {
        respond_addr: String::from("client:0"),
        time_stamp: 1,
        key: String::from("abc"),
        value: Some(7),
    }
}

#[test]
fn little_endian_encodings_are_exact() {
    assert_eq!(u64_to_le_bytes(7), vec![7, 0, 0, 0, 0, 0, 0, 0]);
    assert_eq!(u64_to_le_bytes(0x0102030405060708), vec![8, 7, 6, 5, 4, 3, 2, 1]);
    assert_eq!(u32_to_le_bytes(0xdeadbeef), vec![0xef, 0xbe, 0xad, 0xde]);
}

#[test]
fn store_set_then_get_returns_latest_binding() {
    let mut store = Store::new();
    assert_eq!(store.get(&String::from("a")), None);
    store.set(String::from("a"), 1);
    store.set(String::from("b"), 2);
    store.set(String::from("a"), 3);
    assert_eq!(store.get(&String::from("a")), Some(3));
    assert_eq!(store.get(&String::from("b")), Some(2));
    let snapshot = store.snapshot();
    assert_eq!(snapshot.get(&String::from("a")), Some(3));
    assert_eq!(store.encode(), snapshot.encode());
}

#[test]
fn identical_journals_encode_identically() {
    let mut one = Store::new();
    let mut two = Store::new();
    for (k, v) in [("x", 1u32), ("y", 2), ("x", 3)] {
        one.set(String::from(k), v);
        two.set(String::from(k), v);
    }
    assert_eq!(one.encode(), two.encode());
    let mut three = Store::new();
    three.set(String::from("x"), 3);
    assert_ne!(one.encode(), three.encode());
}

#[test]
fn phase_votes_count_distinct_voters_once() {
    let mut votes = PhaseVotes::new();
    assert!(votes.insert(0, 1, 2));
    assert!(!votes.insert(0, 1, 2));
    assert!(votes.insert(0, 1, 3));
    assert!(votes.insert(0, 2, 2));
    assert_eq!(votes.count_votes(0, 1), 2);
    assert_eq!(votes.count_votes(0, 2), 1);
    votes.truncate(1);
    assert_eq!(votes.count_votes(0, 1), 0);
    assert_eq!(votes.count_votes(0, 2), 1);
}

#[test]
fn config_rejects_clusters_that_cannot_tolerate_their_faults() {
    let addrs: Vec<String> = (0..3).map(|i| format!("node:{}", i)).collect();
    let keys: Vec<Vec<u8>> = (0..3).map(|i| public_bytes(i)).collect();
    let refused = Config::new(3, 1, 10, 5000, addrs, keys, keypair_bytes(0));
    assert!(refused.is_none());
    let addrs4: Vec<String> = (0..4).map(|i| format!("node:{}", i)).collect();
    let keys4: Vec<Vec<u8>> = (0..4).map(|i| public_bytes(i)).collect();
    let accepted = Config::new(4, 1, 10, 5000, addrs4, keys4, keypair_bytes(0));
    assert!(accepted.is_some());
    assert_eq!(accepted.unwrap().quorum_size(), 3);
}

#[test]
fn config_rejects_unusable_keypairs() {
    let addrs: Vec<String> = (0..4).map(|i| format!("node:{}", i)).collect();
    let keys: Vec<Vec<u8>> = (0..4).map(|i| public_bytes(i)).collect();
    let refused = Config::new(4, 1, 10, 5000, addrs, keys, vec![0u8; 7]);
    assert!(refused.is_none());
}

#[test]
fn config_rejects_keypairs_whose_halves_do_not_match() {
    // One replica's secret half glued to another's public half parses as a
    // Keypair, but what it signs verifies under no key at all.
    let mut franken = keypair_bytes(0)[..32].to_vec();
    franken.extend_from_slice(&keypair_bytes(1)[32..]);
    assert_eq!(franken.len(), 64);
    assert!(ed25519_dalek::Keypair::from_bytes(&franken).is_ok());
    let addrs: Vec<String> = (0..4).map(|i| format!("node:{}", i)).collect();
    let keys: Vec<Vec<u8>> = (0..4).map(|i| public_bytes(i)).collect();
    let refused = Config::new(4, 1, 10, 5000, addrs, keys, franken);
    assert!(refused.is_none());
}

#[test]
fn request_digest_is_sha512_of_the_request_alone() {
    let request = sample_request();
    let digest = request.digest();
    assert_eq!(digest.len(), 64);
    assert_eq!(digest, sample_request().digest());
    let mut other = sample_request();
    other.time_stamp = 2;
    assert_ne!(digest, other.digest());
}

#[test]
fn signed_pre_prepare_round_trips_and_carries_the_digest() {
    let kp = keypair_bytes(0);
    let request = sample_request();
    let pre_prepare = PrePrepare::new_with_signature(&kp, 0, 0, 1, &request);
    assert!(pre_prepare.is_properly_signed_by(&public_bytes(0)));
    assert!(!pre_prepare.is_properly_signed_by(&public_bytes(1)));
    assert!(pre_prepare.digest_matches());
    assert_eq!(pre_prepare.client_request_digest, request.digest());
}

#[test]
fn signed_phase_messages_verify_only_under_the_signer_key() {
    let kp = keypair_bytes(2);
    let digest = sample_request().digest();
    let prepare = Prepare::new_with_signature(&kp, 2, 0, 1, digest.clone());
    assert!(prepare.is_properly_signed_by(&public_bytes(2)));
    assert!(!prepare.is_properly_signed_by(&public_bytes(3)));
    let commit = Commit::new_with_signature(&kp, 2, 0, 1, digest);
    assert!(commit.is_properly_signed_by(&public_bytes(2)));
    assert!(!commit.is_properly_signed_by(&public_bytes(0)));
    assert!(commit.corresponds_to(&prepare));
}

#[test]
fn tampered_signature_is_rejected() {
    let kp = keypair_bytes(1);
    let request = sample_request();
    let mut pre_prepare = PrePrepare::new_with_signature(&kp, 1, 0, 1, &request);
    pre_prepare.signature[0] ^= 0xff;
    assert!(!pre_prepare.is_properly_signed_by(&public_bytes(1)));
}

#[test]
fn vote_counter_certifies_once_past_the_threshold() {
    let kp0 = keypair_bytes(0);
    let kp1 = keypair_bytes(1);
    let kp2 = keypair_bytes(2);
    let mut counter = VoteCounter::new(1);
    let r0 = ClientResponse::new_with_signature(&kp0, 0, 7, String::from("abc"), Some(7), true);
    let r0_again = r0.duplicate();
    let r1 = ClientResponse::new_with_signature(&kp1, 1, 7, String::from("abc"), Some(7), true);
    let r2 = ClientResponse::new_with_signature(&kp2, 2, 7, String::from("abc"), Some(7), true);
    assert!(counter.read_response(&Message::ClientResponseMessage(r0)).is_none());
    assert!(counter.read_response(&Message::ClientResponseMessage(r0_again)).is_none());
    let cert = counter.read_response(&Message::ClientResponseMessage(r1));
    let cert = cert.expect("second distinct replica crosses the threshold");
    assert_eq!(cert.timestamp, 7);
    assert_eq!(cert.votes.len(), 2);
    assert!(counter.read_response(&Message::ClientResponseMessage(r2)).is_none());
}

#[test]
fn vote_counter_ignores_failures_and_other_messages() {
    let kp0 = keypair_bytes(0);
    let mut counter = VoteCounter::new(1);
    let failed = ClientResponse::new_with_signature(&kp0, 0, 7, String::from("abc"), None, false);
    assert!(counter.read_response(&Message::ClientResponseMessage(failed)).is_none());
    let request = Message::ClientRequestMessage(sample_request());
    assert!(counter.read_response(&request).is_none());
    assert_eq!(counter.count_votes(7, &String::from("abc"), &Some(7)), 0);
}

#[test]
fn vote_counter_never_certifies_conflicting_answers() {
    let kp0 = keypair_bytes(0);
    let kp1 = keypair_bytes(1);
    let mut counter = VoteCounter::new(1);
    let says_seven =
        ClientResponse::new_with_signature(&kp0, 0, 7, String::from("abc"), Some(7), true);
    let says_eight =
        ClientResponse::new_with_signature(&kp1, 1, 7, String::from("abc"), Some(8), true);
    assert!(counter.read_response(&Message::ClientResponseMessage(says_seven)).is_none());
    assert!(counter.read_response(&Message::ClientResponseMessage(says_eight)).is_none());
    assert_eq!(counter.count_votes(7, &String::from("abc"), &Some(7)), 1);
    assert_eq!(counter.count_votes(7, &String::from("abc"), &Some(8)), 1);
    let kp2 = keypair_bytes(2);
    let agrees =
        ClientResponse::new_with_signature(&kp2, 2, 7, String::from("abc"), Some(7), true);
    let cert = counter.read_response(&Message::ClientResponseMessage(agrees));
    let cert = cert.expect("a second replica agreeing on the same value certifies");
    assert_eq!(cert.votes.len(), 2);
    assert!(cert.votes.iter().all(|v| v.value == Some(7)));
}

#[test]
fn no_op_request_is_inert() {
    let no_op = ClientRequest::no_op();
    assert_eq!(no_op.respond_addr, "0.0.0.0:0");
    assert_eq!(no_op.key, "");
    assert_eq!(no_op.time_stamp, 0);
    assert_eq!(no_op.value, None);
}

#[test]
fn message_get_id_names_the_sender() {
    let kp = keypair_bytes(3);
    let digest = sample_request().digest();
    let prepare = Prepare::new_with_signature(&kp, 3, 0, 1, digest);
    assert_eq!(Message::PrepareMessage(prepare).get_id(), Some(3));
    assert_eq!(Message::ClientRequestMessage(sample_request()).get_id(), None);
}

#[test]
fn backoff_doubles_per_failed_round_and_saturates() {
    let addrs: Vec<String> = (0..4).map(|i| format!("node:{}", i)).collect();
    let keys: Vec<Vec<u8>> = (0..4).map(|i| public_bytes(i)).collect();
    let config = Config::new(4, 1, 10, 5000, addrs, keys, keypair_bytes(0)).unwrap();
    assert_eq!(config.backoff_timeout_millis(0), 5000);
    assert_eq!(config.backoff_timeout_millis(1), 10000);
    assert_eq!(config.backoff_timeout_millis(3), 40000);
    assert_eq!(config.backoff_timeout_millis(64), u64::MAX);
}

#[test]
fn message_signature_check_dispatches_by_variant() {
    let kp = keypair_bytes(0);
    let request = sample_request();
    let pre_prepare = PrePrepare::new_with_signature(&kp, 0, 0, 1, &request);
    let wrapped = Message::PrePrepareMessage(pre_prepare);
    assert!(wrapped.is_properly_signed_by(&public_bytes(0)));
    assert!(!wrapped.is_properly_signed_by(&public_bytes(1)));
    let plain = Message::ClientRequestMessage(sample_request());
    assert!(plain.is_properly_signed_by(&public_bytes(2)));
}

#[test]
fn signed_checkpoint_verifies_under_its_signer() {
    let kp = keypair_bytes(1);
    let state_digest = sample_request().digest();
    let checkpoint =
        CheckPoint::new_with_signature(&kp, 1, 10, 0, state_digest, pbft::store::Store::new());
    assert!(checkpoint.is_properly_signed_by(&public_bytes(1)));
    assert!(!checkpoint.is_properly_signed_by(&public_bytes(2)));
}

#[test]
fn signed_view_change_verifies_under_its_signer() {
    let kp = keypair_bytes(3);
    let view_change = ViewChange::new_with_signature(&kp, 3, 1, 0, Vec::new(), Vec::new());
    assert!(view_change.is_properly_signed_by(&public_bytes(3)));
    assert!(!view_change.is_properly_signed_by(&public_bytes(0)));
    assert_eq!(view_change.new_view, 1);
}
