//! What a replica's network layer decides about the messages it receives:
//! which peer keys it records, which messages it drops and which it hands to
//! the consensus engine.
use vstd::prelude::*;

use crate::config::Config;
use crate::crypto::{decoded_public_key, decodes_as_public_key, public_key_bytes, public_key_from_bytes};
use crate::messages::{message_sender, ConsensusCommand, Identifier, Message, MessageView};
use crate::vec_map::VecMap;
use crate::NodeId;

verus! {

/// A peer's public key, as the network layer records it, beside the 32 bytes
/// it was decoded from.
pub struct PeerKey {
    pub key: ed25519_dalek::PublicKey,
    pub bytes: Vec<u8>,
}

/// A recorded key: the bytes, and the key decoded from them.
pub ghost struct PeerKeyView {
    pub bytes: Seq<u8>,
    pub key: ed25519_dalek::PublicKey,
}

impl View for PeerKey {
    type V = PeerKeyView;

    open spec fn view(&self) -> PeerKeyView {
        PeerKeyView { bytes: self.bytes@, key: self.key }
    }
}

/// What the network layer of a node knows.
pub struct InnerNode {
    /// Id of the outer node
    pub id: NodeId,
    /// Config of the cluster of the outer node
    pub config: Config,
    /// Keypair of this node used to sign messages
    pub keypair_bytes: Vec<u8>,
    /// Public key of this node
    pub pub_key: ed25519_dalek::PublicKey,
    /// The bytes of this node's public key, as it announces them
    pub pub_key_bytes: Vec<u8>,
    /// Known public keys of peers
    pub peer_pub_keys: VecMap<NodeId, PeerKey>,
}

/// Messages from a peer whose key is unknown are dropped; client requests are
/// never dropped.
pub open spec fn drops(known: Set<NodeId>, m: MessageView) -> bool {
    !(m is ClientRequestMessage) && !known.contains(message_sender(m)->0)
}

impl InnerNode {
    pub fn new(id: NodeId, config: Config, keypair_bytes: Vec<u8>, pub_key: ed25519_dalek::PublicKey) -> (n: InnerNode)
        ensures
            n.id == id,
            n.config == config,
            n.keypair_bytes == keypair_bytes,
            n.pub_key == pub_key,
            n.pub_key_bytes@.len() == 32,
            decodes_as_public_key(n.pub_key_bytes@),
            n.peer_pub_keys.wf(),
            n.peer_pub_keys@ == Map::<NodeId, PeerKeyView>::empty(),
    {
        let pub_key_bytes = public_key_bytes(&pub_key);
        InnerNode { id, config, keypair_bytes, pub_key, pub_key_bytes, peer_pub_keys: VecMap::new() }
    }

    /// The message with which this node announces its public key.
    pub fn identifier_message(&self) -> (m: Message)
        ensures
            m matches Message::IdentifierMessage(i) && i.id == self.id && i.pub_key_vec@ == self.pub_key_bytes@,
    {
        Message::IdentifierMessage(Identifier { id: self.id, pub_key_vec: self.pub_key_bytes.clone() })
    }

    pub fn should_drop(&self, message: &Message) -> (r: bool)
        requires
            self.peer_pub_keys.wf(),
        ensures
            r == drops(self.peer_pub_keys@.dom(), message@),
    {
        if let Message::ClientRequestMessage(_) = message {
            // we consider client requests to always be properly signed
            return false;
        }
        let peer_id = message.get_id().unwrap();
        match self.peer_pub_keys.get(&peer_id) {
            // No public key found for peer id so we drop the message
            None => true,
            Some(peer_pub_key) => {
                if !message.is_properly_signed_by(&peer_pub_key.key) {
                    // The message is not properly signed so we drop it
                    return true;
                }
                false
            },
        }
    }

    /// Handles a message read from a peer. An identifier records the peer's key
    /// (when its bytes are a valid key) and goes no further; other messages are
    /// handed to the consensus engine unless they are dropped.
    pub fn read_message(&mut self, message: Message) -> (r: Option<ConsensusCommand>)
        requires
            old(self).peer_pub_keys.wf(),
        ensures
            final(self).peer_pub_keys.wf(),
            final(self).id == old(self).id,
            final(self).config == old(self).config,
            final(self).keypair_bytes == old(self).keypair_bytes,
            final(self).pub_key == old(self).pub_key,
            final(self).pub_key_bytes == old(self).pub_key_bytes,
            match message@ {
                MessageView::IdentifierMessage(i) => {
                    &&& r is None
                    &&& final(self).peer_pub_keys@ == if decodes_as_public_key(i.pub_key_vec) {
                        old(self).peer_pub_keys@.insert(
                            i.id,
                            PeerKeyView { bytes: i.pub_key_vec, key: decoded_public_key(i.pub_key_vec) },
                        )
                    } else {
                        old(self).peer_pub_keys@
                    }
                },
                m => {
                    &&& final(self).peer_pub_keys == old(self).peer_pub_keys
                    &&& r == if drops(old(self).peer_pub_keys@.dom(), m) {
                        None::<ConsensusCommand>
                    } else {
                        Some(ConsensusCommand::ProcessMessage(message))
                    }
                },
            },
    {
        match message {
            Message::IdentifierMessage(identifier) => {
                // we received an identifier message from another node
                // so we record their public key and we do not pass the message to consensus
                if let Some(key) = public_key_from_bytes(&identifier.pub_key_vec) {
                    let bytes = identifier.pub_key_vec.clone();
                    self.peer_pub_keys.insert(identifier.id, PeerKey { key, bytes });
                }
                None
            },
            message => {
                if self.should_drop(&message) {
                    None
                } else {
                    Some(ConsensusCommand::ProcessMessage(message))
                }
            },
        }
    }
}

} // verus!
