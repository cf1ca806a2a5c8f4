use pbft::client::{parse_command, ReceitLog, VoteCounter};
use pbft::config::{max_faulty, Config};
use pbft::messages::{
    CheckPoint, ClientRequest, ClientResponse, Commit, ConsensusCommand, Identifier, Message, PrePrepare,
    Prepare,
};
use pbft::node::InnerNode;
use pbft::state::State;
use pbft::vec_map::VecMap;
use pbft::view_changer::ViewChanger;

use sha2::Digest;
use std::time::Duration;

fn config(num_nodes: usize) -> Config {
    let mut entries = Vec::new();
    for id in 0..num_nodes {
        entries.push((id, format!("127.0.0.1:{}", 38060 + id)));
    }
    Config {
        num_nodes,
        num_faulty: max_faulty(num_nodes),
        peer_addrs: VecMap { entries },
        request_timeout: Duration::from_secs(5),
        rebroadcast_timeout: Duration::from_secs(6),
        identity_broadcast_interval: Duration::from_secs(3),
        checkpoint_frequency: 10,
        is_equivocator: false,
    }
}

fn request(ts: usize, key: &str, value: Option<u32>) -> ClientRequest {
    ClientRequest { respond_addr: "a:1".to_string(), time_stamp: ts, key: key.to_string(), value }
}

fn response(id: usize, ts: usize, success: bool) -> ClientResponse {
    ClientResponse::new(id, ts, "k".to_string(), Some(3), success)
}

#[test]
fn request_hash_input_layout() {
    let r = request(1, "k", Some(2));
    let mut expected = b"a:1".to_vec();
    expected.extend_from_slice(&[1, 0, 0, 0, 0, 0, 0, 0]);
    expected.extend_from_slice(b"k");
    expected.extend_from_slice(&[2, 0, 0, 0]);
    assert_eq!(r.hash_input(), expected);
    let read = request(1, "k", None);
    assert_eq!(read.hash_input(), expected[..12].to_vec());
}

#[test]
fn request_hash_is_sha256_of_input() {
    let r = request(7, "key", Some(9));
    let h = r.hash();
    assert_eq!(h.len(), 32);
    assert_eq!(h, sha2::Sha256::digest(&r.hash_input()).to_vec());
    assert_ne!(h, request(7, "key", Some(10)).hash());
    assert_ne!(h, r.hash_input());
}

#[test]
fn empty_store_digest_is_sha512_of_empty_object() {
    let st = State::new(config(4), 0);
    let d = st.digest();
    assert_eq!(d.len(), 64);
    assert_eq!(d, sha2::Sha512::digest(b"{}").to_vec());
}

#[test]
fn store_digest_covers_entries() {
    let mut st = State::new(config(4), 0);
    let before = st.digest();
    st.store.insert("x".to_string(), 1);
    let after = st.digest();
    assert_ne!(before, after);
    assert_eq!(after, sha2::Sha512::digest(br#"{"x":1}"#).to_vec());
}

#[test]
fn store_digest_lists_keys_in_order() {
    let mut st = State::new(config(4), 0);
    st.store.insert("b".to_string(), 1);
    st.store.insert("ab".to_string(), 2);
    st.store.insert("a".to_string(), 3);
    assert_eq!(st.digest(), sha2::Sha512::digest(br#"{"a":3,"ab":2,"b":1}"#).to_vec());
    let mut map = std::collections::BTreeMap::new();
    map.insert("b".to_string(), 1u32);
    map.insert("ab".to_string(), 2u32);
    map.insert("a".to_string(), 3u32);
    assert_eq!(st.digest(), sha2::Sha512::digest(&serde_json::to_vec(&map).unwrap()).to_vec());
}

#[test]
fn equal_stores_have_equal_digests() {
    let mut one = State::new(config(4), 0);
    let mut two = State::new(config(4), 1);
    one.store.insert("x".to_string(), 1);
    one.store.insert("y".to_string(), 2);
    two.store.insert("y".to_string(), 5);
    two.store.insert("x".to_string(), 1);
    assert_ne!(one.digest(), two.digest());
    two.store.insert("y".to_string(), 2);
    assert_ne!(one.store.entries, two.store.entries);
    assert_eq!(one.digest(), two.digest());
}

#[test]
fn leader_rotates_with_view() {
    let mut st = State::new(config(4), 0);
    assert_eq!(st.current_leader(), 0);
    assert_eq!(st.get_leader_for_view(5), 1);
    st.view = 7;
    assert_eq!(st.current_leader(), 3);
    assert_eq!(st.get_leader_for_view(8), 0);
}

#[test]
fn acceptance_checks() {
    let mut st = State::new(config(4), 1);
    let r = request(1, "x", Some(1));
    let pp = PrePrepare::new(0, 0, 1, &r);
    assert!(st.should_accept_pre_prepare(&pp));
    let mut wrong_view = PrePrepare::new(0, 1, 1, &r);
    assert!(!st.should_accept_pre_prepare(&wrong_view));
    wrong_view.view = 0;
    assert!(st.should_accept_pre_prepare(&wrong_view));
    let p = Prepare::new(2, 0, 1, &r);
    assert!(!st.should_accept_prepare(&p));
    st.message_bank.accepted_pre_prepare_requests.insert((0, 1), pp.clone());
    assert!(st.should_accept_prepare(&p));
    let other = Prepare::new(2, 0, 1, &request(2, "x", Some(1)));
    assert!(!st.should_accept_prepare(&other));
    let c = Commit::new(2, 0, 1, p.digest.clone());
    assert!(st.should_accept_commit(&c));
    assert!(st.should_process_client_request(&r));
    st.in_view_change = true;
    assert!(!st.should_accept_pre_prepare(&pp));
    assert!(!st.should_accept_prepare(&p));
    assert!(!st.should_accept_commit(&c));
    assert!(!st.should_process_client_request(&r));
}

#[test]
fn view_change_accepted_only_by_next_leader() {
    let st = State::new(config(4), 1);
    let vc = pbft::messages::ViewChange::new(2, 1, 0, vec![], vec![]);
    assert!(st.should_accept_view_change(&vc));
    let st2 = State::new(config(4), 2);
    assert!(!st2.should_accept_view_change(&vc));
    let far = pbft::messages::ViewChange::new(2, 2, 0, vec![], vec![]);
    assert!(!st.should_accept_view_change(&far));
    let stale = pbft::messages::ViewChange::new(2, 0, 0, vec![], vec![]);
    assert!(!st.should_accept_view_change(&stale));
}

#[test]
fn state_apply_commit_runs_buffered_commits() {
    let mut st = State::new(config(4), 0);
    let c2 = Commit::new(0, 0, 2, vec![]);
    let c3 = Commit::new(0, 0, 3, vec![]);
    let c5 = Commit::new(0, 0, 5, vec![]);
    st.message_bank.accepted_commits_not_applied.insert(2, c2);
    st.message_bank.accepted_commits_not_applied.insert(3, c3);
    st.message_bank.accepted_commits_not_applied.insert(5, c5);
    let c1 = Commit::new(0, 0, 1, vec![]);
    let (ret, next) = st.apply_commit(&request(1, "x", Some(4)), &c1);
    assert_eq!(ret, None);
    assert_eq!(next.iter().map(|c| c.seq_num).collect::<Vec<_>>(), vec![2, 3]);
    assert_eq!(st.last_seq_num_committed, 1);
    let (ret, _) = st.apply_commit(&request(2, "x", None), &Commit::new(0, 0, 2, vec![]));
    assert_eq!(ret, Some(Some(4)));
    assert_eq!(st.message_bank.accepted_commits_not_applied.entries.len(), 2);
    let (ret, _) = st.apply_commit(&request(3, "y", None), &Commit::new(0, 0, 3, vec![]));
    assert_eq!(ret, Some(None));
    assert_eq!(st.get_next_consecutive_commits().len(), 0);
}

#[test]
fn message_bank_garbage_collect_drops_old_pre_prepares() {
    let mut st = State::new(config(4), 0);
    for seq in 1..6 {
        let pp = PrePrepare::new(0, 0, seq, &request(seq, "x", None));
        st.message_bank.accepted_pre_prepare_requests.insert((0, seq), pp);
    }
    for seq in 1..6 {
        let r = request(seq, "x", None);
        let c = Commit { id: 1, view: 0, seq_num: seq, digest: vec![], signature: 0 };
        let p = Prepare { id: 1, view: 0, seq_num: seq, digest: vec![], signature: 0 };
        st.message_bank.applied_commits.insert(seq, (c.clone(), r));
        st.message_bank.accepted_commits_not_applied.insert(seq, c.clone());
        st.message_bank.outstanding_commits.insert(c, ());
        st.message_bank.outstanding_prepares.insert(p, ());
        st.message_bank.checkpoint_messages.insert((seq, vec![1]), CheckPoint::new(1, seq, 0, vec![1], vec![]));
    }
    st.message_bank.sent_requests.insert((0, request(1, "x", None)), ());
    st.message_bank.garbage_collect(3);
    let kept: Vec<usize> = st.message_bank.accepted_pre_prepare_requests.entries.iter().map(|e| e.0 .1).collect();
    assert_eq!(kept, vec![3, 4, 5]);
    let kept: Vec<usize> = st.message_bank.applied_commits.entries.iter().map(|e| e.0).collect();
    assert_eq!(kept, vec![3, 4, 5]);
    let kept: Vec<usize> = st.message_bank.accepted_commits_not_applied.entries.iter().map(|e| e.0).collect();
    assert_eq!(kept, vec![3, 4, 5]);
    let kept: Vec<usize> = st.message_bank.outstanding_commits.entries.iter().map(|e| e.0.seq_num).collect();
    assert_eq!(kept, vec![3, 4, 5]);
    let kept: Vec<usize> = st.message_bank.outstanding_prepares.entries.iter().map(|e| e.0.seq_num).collect();
    assert_eq!(kept, vec![3, 4, 5]);
    let kept: Vec<usize> = st.message_bank.checkpoint_messages.entries.iter().map(|e| e.0 .0).collect();
    assert_eq!(kept, vec![3, 4, 5]);
    assert_eq!(st.message_bank.sent_requests.entries.len(), 1);
    st.last_stable_seq_num = 5;
    st.garbage_collect();
    assert_eq!(st.message_bank.accepted_pre_prepare_requests.entries.len(), 1);
    assert_eq!(st.message_bank.applied_commits.entries.len(), 1);
    assert_eq!(st.message_bank.checkpoint_messages.entries.len(), 1);
}

#[test]
fn state_apply_commit_with_default_configuration() {
    let mut st = State::new(Config { num_nodes: 4, ..Default::default() }, 0);
    let c = |q: usize| Commit { id: 0, view: 0, seq_num: q, digest: vec![], signature: 0 };
    for q in [2usize, 3, 5] {
        st.message_bank.accepted_commits_not_applied.insert(q, c(q));
    }
    let req = request(1, "x", Some(7));
    let (ret, next) = st.apply_commit(&req, &c(1));
    assert_eq!(ret, None);
    assert_eq!(next.iter().map(|c| c.seq_num).collect::<Vec<_>>(), vec![2, 3]);
    assert_eq!(st.store.entries, vec![("x".to_string(), 7)]);
    assert_eq!(st.last_seq_num_committed, 1);
    let buffered: Vec<usize> = st.message_bank.accepted_commits_not_applied.entries.iter().map(|e| e.0).collect();
    assert_eq!(buffered, vec![2, 3, 5]);
    assert_eq!(st.message_bank.applied_commits.entries.len(), 1);
    assert_eq!(st.message_bank.applied_commits.entries[0].0, 1);
}

#[test]
fn update_checkpoint_meta_keeps_voters_checkpoints() {
    let mut st = State::new(config(4), 0);
    let cp1 = CheckPoint::new(1, 10, 0, vec![1], vec![]);
    let cp2 = CheckPoint::new(2, 10, 0, vec![1], vec![]);
    st.checkpoints_current_round.insert(1, cp1);
    st.checkpoints_current_round.insert(2, cp2);
    let mut voters = VecMap::new();
    voters.insert(2usize, ());
    voters.insert(1usize, ());
    st.checkpoint_votes.insert((10, vec![1]), voters);
    st.update_checkpoint_meta(&10, &vec![1]);
    let ids: Vec<usize> = st.last_checkpoint_proof.iter().map(|c| c.id).collect();
    assert_eq!(ids, vec![2, 1]);
    assert_eq!(st.checkpoint_votes.entries.len(), 0);
    assert_eq!(st.checkpoints_current_round.entries.len(), 0);
}

#[test]
fn message_ids_and_signatures() {
    let r = request(1, "x", None);
    let pp = PrePrepare::new(3, 0, 1, &r);
    assert_eq!(Message::PrePrepareMessage(pp.clone()).get_id(), Some(3));
    assert_eq!(Message::PrePrepareMessage(pp).get_signature(), Some(0));
    assert_eq!(Message::ClientRequestMessage(r.clone()).get_id(), None);
    assert_eq!(Message::ClientRequestMessage(r).get_signature(), None);
    let ident = Identifier { id: 4, pub_key_vec: vec![] };
    assert_eq!(Message::IdentifierMessage(ident.clone()).get_id(), Some(4));
    assert_eq!(Message::IdentifierMessage(ident).get_signature(), None);
    let resp = response(2, 1, true);
    assert_eq!(Message::ClientResponseMessage(resp).get_id(), Some(2));
}

#[test]
fn frame_appends_newline() {
    assert_eq!(Message::frame(b"{}".to_vec()), b"{}\n".to_vec());
    assert_eq!(Message::frame(vec![]), vec![10u8]);
}

#[test]
fn votes_correspond() {
    let r = request(1, "x", Some(1));
    let pp = PrePrepare::new(0, 2, 5, &r);
    let p = Prepare::new(1, 2, 5, &r);
    assert!(p.corresponds_to(&pp));
    let c = Commit::new(1, 2, 5, p.digest.clone());
    assert!(c.corresponds_to(&p));
    let other = Prepare::new(1, 2, 6, &r);
    assert!(!other.corresponds_to(&pp));
    assert!(!c.corresponds_to(&other));
    let wrong_digest = Commit::new(1, 2, 5, vec![0; 32]);
    assert!(!wrong_digest.corresponds_to(&p));
    let other_view = Commit::new(1, 3, 5, p.digest.clone());
    assert!(!other_view.corresponds_to(&p));
}

#[test]
fn view_changer_waits_and_releases() {
    let mut vc = ViewChanger::new(0, config(4));
    let r = request(1, "x", None);
    assert!(vc.wait_for(&r).is_none());
    assert!(vc.add_to_wait_set(&r));
    assert!(!vc.add_to_wait_set(&r));
    assert!(vc.is_in_wait_set(&r));
    assert!(matches!(vc.wait_for(&r), Some(ConsensusCommand::InitViewChange(_))));
    vc.remove_from_wait_set(&r);
    assert!(!vc.is_in_wait_set(&r));
    assert!(vc.wait_for(&r).is_none());

    assert!(vc.add_to_sent_pre_prepares(&(0, 1)));
    assert!(!vc.add_to_sent_pre_prepares(&(0, 1)));
    assert!(matches!(vc.wait_for_sent_pre_prepares(&(0, 1)), Some(ConsensusCommand::RebroadcastPrePrepare((0, 1)))));
    vc.remove_from_sent_pre_prepares(&(0, 1));
    assert!(vc.wait_for_sent_pre_prepares(&(0, 1)).is_none());

    vc.add_to_wait_set(&r);
    vc.add_to_sent_pre_prepares(&(0, 2));
    assert_eq!(vc.waiting_requests().len(), 1);
    vc.reset();
    assert!(!vc.is_in_wait_set(&r));
    assert!(!vc.is_in_sent_pre_prepares(&(0, 2)));
}

fn keypair() -> ed25519_dalek::Keypair {
    let mut rng = rand::rngs::OsRng {};
    ed25519_dalek::Keypair::generate(&mut rng)
}

#[test]
fn node_records_keys_and_drops_unknown_senders() {
    let kp = keypair();
    let mut node = InnerNode::new(0, config(4), kp.to_bytes().to_vec(), kp.public);
    match node.identifier_message() {
        Message::IdentifierMessage(i) => {
            assert_eq!(i.id, 0);
            assert_eq!(i.pub_key_vec, kp.public.as_bytes().to_vec());
        },
        _ => panic!("expected an identifier"),
    }
    let r = request(1, "x", None);
    let prepare = Message::PrepareMessage(Prepare::new(1, 0, 1, &r));
    assert!(node.should_drop(&prepare));
    assert!(node.read_message(prepare).is_none());
    assert!(!node.should_drop(&Message::ClientRequestMessage(r.clone())));
    assert!(node.read_message(Message::ClientRequestMessage(r.clone())).is_some());

    // a key of the wrong length is not recorded
    let bad = Message::IdentifierMessage(Identifier { id: 1, pub_key_vec: vec![1, 2, 3] });
    assert!(node.should_drop(&bad));
    assert!(node.read_message(bad).is_none());
    assert_eq!(node.peer_pub_keys.entries.len(), 0);

    let peer = keypair();
    let good = Message::IdentifierMessage(Identifier { id: 1, pub_key_vec: peer.public.as_bytes().to_vec() });
    assert!(node.read_message(good).is_none());
    assert_eq!(node.peer_pub_keys.entries.len(), 1);
    assert_eq!(node.peer_pub_keys.entries[0].0, 1);
    assert_eq!(node.peer_pub_keys.entries[0].1.bytes, peer.public.as_bytes().to_vec());
    assert_eq!(node.peer_pub_keys.entries[0].1.key, peer.public);
    assert_eq!(
        node.peer_pub_keys.entries[0].1.key,
        ed25519_dalek::PublicKey::from_bytes(peer.public.as_bytes()).unwrap()
    );
    let known = Message::IdentifierMessage(Identifier { id: 1, pub_key_vec: peer.public.as_bytes().to_vec() });
    assert!(!node.should_drop(&known));
    let prepare = Message::PrepareMessage(Prepare::new(1, 0, 1, &r));
    assert!(!node.should_drop(&prepare));
    assert!(matches!(node.read_message(prepare), Some(ConsensusCommand::ProcessMessage(Message::PrepareMessage(_)))));
    assert!(Message::ClientRequestMessage(r).is_properly_signed_by(&peer.public));
}

#[test]
fn client_counts_distinct_successful_votes() {
    let mut counter = VoteCounter::new(1);
    assert!(counter.read_response(Message::ClientResponseMessage(response(0, 5, false))).is_none());
    assert!(counter.read_response(Message::ClientRequestMessage(request(5, "k", None))).is_none());
    assert!(counter.read_response(Message::ClientResponseMessage(response(0, 5, true))).is_none());
    // the same replica again does not make a quorum
    assert!(counter.read_response(Message::ClientResponseMessage(response(0, 5, true))).is_none());
    // another time stamp is counted apart
    assert!(counter.read_response(Message::ClientResponseMessage(response(1, 6, true))).is_none());
    let receit = counter.read_response(Message::ClientResponseMessage(response(1, 5, true))).unwrap();
    assert_eq!(receit.timestamp, 5);
    assert_eq!(receit.num_votes, 2);
    assert_eq!(receit.votes.iter().map(|v| v.id).collect::<Vec<_>>(), vec![0, 1]);
    assert!(receit.votes.iter().all(|v| v.success && v.time_stamp == 5 && v.value == Some(3)));

    let mut log = ReceitLog::new();
    assert!(log.record(receit));
    let again = counter.read_response(Message::ClientResponseMessage(response(2, 5, true))).unwrap();
    assert_eq!(again.num_votes, 3);
    assert!(!log.record(again));
}

#[test]
fn client_counts_only_agreeing_values() {
    let mut counter = VoteCounter::new(1);
    let with_value = |id: usize, v: Option<u32>| ClientResponse::new(id, 5, "k".to_string(), v, true);
    assert!(counter.read_response(Message::ClientResponseMessage(with_value(0, Some(1)))).is_none());
    // a second replica answering another value makes no quorum
    assert!(counter.read_response(Message::ClientResponseMessage(with_value(1, Some(2)))).is_none());
    assert!(counter.read_response(Message::ClientResponseMessage(with_value(2, None))).is_none());
    let receit = counter.read_response(Message::ClientResponseMessage(with_value(3, Some(2)))).unwrap();
    assert_eq!(receit.num_votes, 2);
    assert_eq!(receit.votes.iter().map(|v| v.id).collect::<Vec<_>>(), vec![1, 3]);
    assert!(receit.votes.iter().all(|v| v.value == Some(2)));
}

#[test]
fn commands_parse() {
    assert_eq!(parse_command("set x 42"), Some(("x".to_string(), Some(42))));
    assert_eq!(parse_command("get x"), Some(("x".to_string(), None)));
    assert_eq!(parse_command("  get \t x \n"), Some(("x".to_string(), None)));
    assert_eq!(parse_command("set key 4294967295"), Some(("key".to_string(), Some(u32::MAX))));
    assert_eq!(parse_command("set key 4294967296"), None);
    assert_eq!(parse_command("set key 0042"), Some(("key".to_string(), Some(42))));
    assert_eq!(parse_command("set x"), None);
    assert_eq!(parse_command("set x 4a"), None);
    assert_eq!(parse_command("set x -1"), None);
    assert_eq!(parse_command("put x 1"), None);
    assert_eq!(parse_command("get x y"), None);
    assert_eq!(parse_command("gets x"), None);
    assert_eq!(parse_command(""), None);
    assert_eq!(parse_command("set ключ 7"), Some(("ключ".to_string(), Some(7))));
}
