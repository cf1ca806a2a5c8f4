//! Messages exchanged between replicas and clients, and the commands that flow
//! between a replica's network layer and its consensus engine.
use vstd::prelude::*;

use vstd::string::StrSliceExecFns;
use vstd::utf8::encode_utf8;
use vstd::bytes::{spec_u32_to_le_bytes, spec_u64_to_le_bytes, u32_to_le_bytes, u64_to_le_bytes};

use crate::crypto::{sha256, sha256_of};
use crate::vec_map::{bytes_eq, Keyed, Sequenced};
use crate::{Key, NodeId, Value};

verus! {

// ---------------------------------------------------------------------------
// Client requests and responses
// ---------------------------------------------------------------------------

pub struct ClientRequest {
    /// Address (`ip:port`) to which replicas send their responses
    pub respond_addr: String,
    pub time_stamp: usize,
    pub key: Key,
    /// `Some(v)` sets `key` to `v`; `None` reads `key`
    pub value: Option<Value>,
}

pub ghost struct ClientRequestView {
    pub respond_addr: Seq<char>,
    pub time_stamp: usize,
    pub key: Seq<char>,
    pub value: Option<Value>,
}

impl View for ClientRequest {
    type V = ClientRequestView;

    open spec fn view(&self) -> ClientRequestView {
        ClientRequestView {
            respond_addr: self.respond_addr@,
            time_stamp: self.time_stamp,
            key: self.key@,
            value: self.value,
        }
    }
}

/// The bytes that are hashed to identify a request: the response address, the
/// time stamp (8 bytes, little endian), the key, and the value (4 bytes, little
/// endian) when there is one.
pub open spec fn request_hash_input(r: ClientRequestView) -> Seq<u8> {
    encode_utf8(r.respond_addr) + spec_u64_to_le_bytes(r.time_stamp as u64) + encode_utf8(r.key)
        + match r.value {
        Some(v) => spec_u32_to_le_bytes(v),
        None => Seq::<u8>::empty(),
    }
}

/// The SHA-256 digest that identifies a request.
pub open spec fn request_digest(r: ClientRequestView) -> Seq<u8> {
    sha256_of(request_hash_input(r))
}

impl ClientRequest {
    /// The request that a new leader proposes for a sequence number for which no
    /// replica reported a prepared request: a read of the empty key, answered to
    /// no address.
    pub fn no_op() -> (r: ClientRequest)
        ensures
            r@ == no_op_request(),
    {
        ClientRequest { respond_addr: String::new(), time_stamp: 0, key: String::new(), value: None }
    }

    /// The bytes that `hash` digests.
    pub fn hash_input(&self) -> (r: Vec<u8>)
        ensures
            r@ == request_hash_input(self@),
    {
        let mut out = self.respond_addr.as_str().as_bytes_vec();
        let mut ts = u64_to_le_bytes(self.time_stamp as u64);
        out.append(&mut ts);
        let mut key = self.key.as_str().as_bytes_vec();
        out.append(&mut key);
        match self.value {
            Some(v) => {
                let mut vb = u32_to_le_bytes(v);
                out.append(&mut vb);
            },
            None => {
                assert(out@ =~= out@ + Seq::<u8>::empty());
            },
        }
        out
    }

    /// SHA-256 digest of the request.
    pub fn hash(&self) -> (r: Vec<u8>)
        ensures
            r@ == request_digest(self@),
            r@.len() == 32,
    {
        let input = self.hash_input();
        sha256(&input)
    }
}

pub open spec fn no_op_request() -> ClientRequestView {
    ClientRequestView {
        respond_addr: Seq::empty(),
        time_stamp: 0,
        key: Seq::empty(),
        value: None,
    }
}

impl Clone for ClientRequest {
    fn clone(&self) -> (r: Self)
        ensures
            r@ == self@,
    {
        ClientRequest {
            respond_addr: self.respond_addr.clone(),
            time_stamp: self.time_stamp,
            key: self.key.clone(),
            value: self.value,
        }
    }
}

impl Keyed for ClientRequest {
    type Model = ClientRequestView;

    open spec fn key_model(&self) -> ClientRequestView {
        self@
    }

    fn same_key(&self, other: &Self) -> (b: bool) {
        let same_value = match (self.value, other.value) {
            (Some(a), Some(b)) => a == b,
            (None, None) => true,
            _ => false,
        };
        self.respond_addr == other.respond_addr && self.time_stamp == other.time_stamp && self.key
            == other.key && same_value
    }
}

impl Keyed for (usize, ClientRequest) {
    type Model = (usize, ClientRequestView);

    open spec fn key_model(&self) -> (usize, ClientRequestView) {
        (self.0, self.1@)
    }

    fn same_key(&self, other: &Self) -> (b: bool) {
        self.0 == other.0 && self.1.same_key(&other.1)
    }
}

pub struct ClientResponse {
    pub id: NodeId,
    pub time_stamp: usize,
    pub key: Key,
    /// The value read, for a read of a key that the store holds
    pub value: Option<Value>,
    pub success: bool,
    pub signature: usize,
}

pub ghost struct ClientResponseView {
    pub id: NodeId,
    pub time_stamp: usize,
    pub key: Seq<char>,
    pub value: Option<Value>,
    pub success: bool,
    pub signature: usize,
}

impl View for ClientResponse {
    type V = ClientResponseView;

    open spec fn view(&self) -> ClientResponseView {
        ClientResponseView {
            id: self.id,
            time_stamp: self.time_stamp,
            key: self.key@,
            value: self.value,
            success: self.success,
            signature: self.signature,
        }
    }
}

impl ClientResponse {
    /// A response of node `id`. Messages carry no real signature yet: the
    /// signature field is zero.
    pub fn new(id: NodeId, time_stamp: usize, key: Key, value: Option<Value>, success: bool) -> (r:
        ClientResponse)
        ensures
            r@ == (ClientResponseView {
                id,
                time_stamp,
                key: key@,
                value,
                success,
                signature: 0,
            }),
    {
        ClientResponse { id, time_stamp, key, value, success, signature: 0 }
    }
}

impl Clone for ClientResponse {
    fn clone(&self) -> (r: Self)
        ensures
            r@ == self@,
    {
        ClientResponse {
            id: self.id,
            time_stamp: self.time_stamp,
            key: self.key.clone(),
            value: self.value,
            success: self.success,
            signature: self.signature,
        }
    }
}

// ---------------------------------------------------------------------------
// Normal-case protocol messages
// ---------------------------------------------------------------------------

pub struct Identifier {
    pub id: NodeId,
    pub pub_key_vec: Vec<u8>,
}

pub ghost struct IdentifierView {
    pub id: NodeId,
    pub pub_key_vec: Seq<u8>,
}

impl View for Identifier {
    type V = IdentifierView;

    open spec fn view(&self) -> IdentifierView {
        IdentifierView { id: self.id, pub_key_vec: self.pub_key_vec@ }
    }
}

impl Clone for Identifier {
    fn clone(&self) -> (r: Self)
        ensures
            r@ == self@,
    {
        Identifier { id: self.id, pub_key_vec: self.pub_key_vec.clone() }
    }
}

pub struct PrePrepare {
    pub id: NodeId,
    pub view: usize,
    pub seq_num: usize,
    /// Hash of the associated client request
    pub digest: Vec<u8>,
    pub signature: usize,
    pub client_request: ClientRequest,
}

pub ghost struct PrePrepareView {
    pub id: NodeId,
    pub view: usize,
    pub seq_num: usize,
    pub digest: Seq<u8>,
    pub signature: usize,
    pub client_request: ClientRequestView,
}

impl View for PrePrepare {
    type V = PrePrepareView;

    open spec fn view(&self) -> PrePrepareView {
        PrePrepareView {
            id: self.id,
            view: self.view,
            seq_num: self.seq_num,
            digest: self.digest@,
            signature: self.signature,
            client_request: self.client_request@,
        }
    }
}

/// The pre-prepare that node `id` issues for `request` at `(view, seq_num)`.
pub open spec fn pre_prepare_for(id: NodeId, view: usize, seq_num: usize, request: ClientRequestView) -> PrePrepareView {
    PrePrepareView {
        id,
        view,
        seq_num,
        digest: request_digest(request),
        signature: 0,
        client_request: request,
    }
}

impl PrePrepare {
    pub fn new(id: NodeId, view: usize, seq_num: usize, request: &ClientRequest) -> (r: PrePrepare)
        ensures
            r@ == pre_prepare_for(id, view, seq_num, request@),
    {
        PrePrepare {
            id,
            view,
            seq_num,
            digest: request.hash(),
            signature: 0,
            client_request: request.clone(),
        }
    }
}

impl Clone for PrePrepare {
    fn clone(&self) -> (r: Self)
        ensures
            r@ == self@,
    {
        PrePrepare {
            id: self.id,
            view: self.view,
            seq_num: self.seq_num,
            digest: self.digest.clone(),
            signature: self.signature,
            client_request: self.client_request.clone(),
        }
    }
}

/// What a prepare and a commit carry: a vote of node `id` for the request
/// with digest `digest` at `(view, seq_num)`.
pub ghost struct VoteView {
    pub id: NodeId,
    pub view: usize,
    pub seq_num: usize,
    pub digest: Seq<u8>,
    pub signature: usize,
}

// Note that the Prepare message does not include the client_request
// because pre-prepare message already included it
pub struct Prepare {
    pub id: NodeId,
    pub view: usize,
    pub seq_num: usize,
    /// Hash of the associated client request
    pub digest: Vec<u8>,
    pub signature: usize,
}

impl View for Prepare {
    type V = VoteView;

    open spec fn view(&self) -> VoteView {
        VoteView {
            id: self.id,
            view: self.view,
            seq_num: self.seq_num,
            digest: self.digest@,
            signature: self.signature,
        }
    }
}

/// Does a vote belong to the same `(view, seq_num, digest)` as a pre-prepare?
pub open spec fn vote_matches_pre_prepare(v: VoteView, p: PrePrepareView) -> bool {
    v.view == p.view && v.seq_num == p.seq_num && v.digest == p.digest
}

/// Does a vote belong to the same `(view, seq_num, digest)` as another vote?
pub open spec fn vote_matches_vote(v: VoteView, w: VoteView) -> bool {
    v.view == w.view && v.seq_num == w.seq_num && v.digest == w.digest
}

impl Prepare {
    pub fn new(id: NodeId, view: usize, seq_num: usize, request: &ClientRequest) -> (r: Prepare)
        ensures
            r@ == (VoteView {
                id,
                view,
                seq_num,
                digest: request_digest(request@),
                signature: 0,
            }),
    {
        Prepare { id, view, seq_num, digest: request.hash(), signature: 0 }
    }

    // does this prepare message correspond to the pre_prepare message
    pub fn corresponds_to(&self, pre_prepare: &PrePrepare) -> (b: bool)
        ensures
            b == vote_matches_pre_prepare(self@, pre_prepare@),
    {
        if self.view != pre_prepare.view {
            return false;
        }
        if self.seq_num != pre_prepare.seq_num {
            return false;
        }
        if !bytes_eq(&self.digest, &pre_prepare.digest) {
            return false;
        }
        true
    }
}

impl Clone for Prepare {
    fn clone(&self) -> (r: Self)
        ensures
            r@ == self@,
    {
        Prepare {
            id: self.id,
            view: self.view,
            seq_num: self.seq_num,
            digest: self.digest.clone(),
            signature: self.signature,
        }
    }
}

impl Keyed for Prepare {
    type Model = VoteView;

    open spec fn key_model(&self) -> VoteView {
        self@
    }

    fn same_key(&self, other: &Self) -> (b: bool) {
        self.id == other.id && self.view == other.view && self.seq_num == other.seq_num
            && self.signature == other.signature && bytes_eq(&self.digest, &other.digest)
    }
}

impl Sequenced for Prepare {
    open spec fn seq_of(k: VoteView) -> usize {
        k.seq_num
    }

    fn seq_num(&self) -> (r: usize) {
        self.seq_num
    }
}

// Note that the Commit message does not include the client_request
pub struct Commit {
    pub id: NodeId,
    pub view: usize,
    pub seq_num: usize,
    pub digest: Vec<u8>,
    pub signature: usize,
}

impl View for Commit {
    type V = VoteView;

    open spec fn view(&self) -> VoteView {
        VoteView {
            id: self.id,
            view: self.view,
            seq_num: self.seq_num,
            digest: self.digest@,
            signature: self.signature,
        }
    }
}

impl Commit {
    pub fn new(id: NodeId, view: usize, seq_num: usize, digest: Vec<u8>) -> (r: Commit)
        ensures
            r@ == (VoteView { id, view, seq_num, digest: digest@, signature: 0 }),
    {
        Commit { id, view, seq_num, digest, signature: 0 }
    }

    // does this commit message correspond to the prepare message
    pub fn corresponds_to(&self, prepare: &Prepare) -> (b: bool)
        ensures
            b == vote_matches_vote(self@, prepare@),
    {
        if self.view != prepare.view {
            return false;
        }
        if self.seq_num != prepare.seq_num {
            return false;
        }
        if !bytes_eq(&self.digest, &prepare.digest) {
            return false;
        }
        true
    }
}

impl Clone for Commit {
    fn clone(&self) -> (r: Self)
        ensures
            r@ == self@,
    {
        Commit {
            id: self.id,
            view: self.view,
            seq_num: self.seq_num,
            digest: self.digest.clone(),
            signature: self.signature,
        }
    }
}

impl Keyed for Commit {
    type Model = VoteView;

    open spec fn key_model(&self) -> VoteView {
        self@
    }

    fn same_key(&self, other: &Self) -> (b: bool) {
        self.id == other.id && self.view == other.view && self.seq_num == other.seq_num
            && self.signature == other.signature && bytes_eq(&self.digest, &other.digest)
    }
}

impl Sequenced for Commit {
    open spec fn seq_of(k: VoteView) -> usize {
        k.seq_num
    }

    fn seq_num(&self) -> (r: usize) {
        self.seq_num
    }
}

pub struct EnterCommit {
    pub view: usize,
    pub seq_num: usize,
    pub digest: usize,
}

// ---------------------------------------------------------------------------
// Checkpoints and view changes
// ---------------------------------------------------------------------------

/// The model of a list of store entries.
pub open spec fn pairs_view(pairs: Seq<(Key, Value)>) -> Seq<(Seq<char>, Value)> {
    crate::crypto::pairs_model(pairs)
}

/// A copy of a list of store entries.
pub fn clone_pairs(pairs: &Vec<(Key, Value)>) -> (r: Vec<(Key, Value)>)
    ensures
        r@ == pairs@,
{
    let mut r: Vec<(Key, Value)> = Vec::new();
    let mut i: usize = 0;
    while i < pairs.len()
        invariant
            i <= pairs@.len(),
            r@ == pairs@.subrange(0, i as int),
        decreases pairs@.len() - i,
    {
        let k = pairs[i].0.clone();
        r.push((k, pairs[i].1));
        i = i + 1;
        assert(r@ =~= pairs@.subrange(0, i as int));
    }
    assert(pairs@.subrange(0, pairs@.len() as int) =~= pairs@);
    r
}

pub struct CheckPoint {
    pub id: NodeId,
    pub committed_seq_num: usize,
    /// View in which the checkpointed state was reached
    pub view: usize,
    pub state_digest: Vec<u8>,
    /// The store at `committed_seq_num`, for replicas that fell behind
    pub state: Vec<(Key, Value)>,
    pub signature: usize,
}

pub ghost struct CheckPointView {
    pub id: NodeId,
    pub committed_seq_num: usize,
    pub view: usize,
    pub state_digest: Seq<u8>,
    pub state: Seq<(Seq<char>, Value)>,
    pub signature: usize,
}

impl View for CheckPoint {
    type V = CheckPointView;

    open spec fn view(&self) -> CheckPointView {
        CheckPointView {
            id: self.id,
            committed_seq_num: self.committed_seq_num,
            view: self.view,
            state_digest: self.state_digest@,
            state: pairs_view(self.state@),
            signature: self.signature,
        }
    }
}

impl CheckPoint {
    pub fn new(
        id: NodeId,
        committed_seq_num: usize,
        view: usize,
        state_digest: Vec<u8>,
        state: Vec<(Key, Value)>,
    ) -> (r: CheckPoint)
        ensures
            r@ == (CheckPointView {
                id,
                committed_seq_num,
                view,
                state_digest: state_digest@,
                state: pairs_view(state@),
                signature: 0,
            }),
    {
        CheckPoint { id, committed_seq_num, view, state_digest, state, signature: 0 }
    }
}

impl Clone for CheckPoint {
    fn clone(&self) -> (r: Self)
        ensures
            r@ == self@,
    {
        CheckPoint {
            id: self.id,
            committed_seq_num: self.committed_seq_num,
            view: self.view,
            state_digest: self.state_digest.clone(),
            state: clone_pairs(&self.state),
            signature: self.signature,
        }
    }
}

/// Models of a list of messages.
pub open spec fn views_of<T: View>(s: Seq<T>) -> Seq<T::V> {
    s.map_values(|x: T| x@)
}

/// A copy of a list of checkpoints.
pub fn clone_checkpoints(v: &Vec<CheckPoint>) -> (r: Vec<CheckPoint>)
    ensures
        views_of(r@) == views_of(v@),
{
    let mut r: Vec<CheckPoint> = Vec::new();
    let mut i: usize = 0;
    while i < v.len()
        invariant
            i <= v@.len(),
            r@.len() == i,
            forall|j: int| 0 <= j < i ==> (#[trigger] r@[j])@ == v@[j]@,
        decreases v@.len() - i,
    {
        r.push(v[i].clone());
        i = i + 1;
    }
    assert(views_of(r@) =~= views_of(v@));
    r
}

/// A copy of a list of prepares.
pub fn clone_prepares(v: &Vec<Prepare>) -> (r: Vec<Prepare>)
    ensures
        views_of(r@) == views_of(v@),
{
    let mut r: Vec<Prepare> = Vec::new();
    let mut i: usize = 0;
    while i < v.len()
        invariant
            i <= v@.len(),
            r@.len() == i,
            forall|j: int| 0 <= j < i ==> (#[trigger] r@[j])@ == v@[j]@,
        decreases v@.len() - i,
    {
        r.push(v[i].clone());
        i = i + 1;
    }
    assert(views_of(r@) =~= views_of(v@));
    r
}

/// A pre-prepare together with the prepares that a replica accepted for it:
/// evidence that the request was prepared at `seq_num`.
pub struct PreparedCertificate {
    pub seq_num: usize,
    pub pre_prepare: PrePrepare,
    pub prepares: Vec<Prepare>,
}

pub ghost struct PreparedCertificateView {
    pub seq_num: usize,
    pub pre_prepare: PrePrepareView,
    pub prepares: Seq<VoteView>,
}

impl View for PreparedCertificate {
    type V = PreparedCertificateView;

    open spec fn view(&self) -> PreparedCertificateView {
        PreparedCertificateView {
            seq_num: self.seq_num,
            pre_prepare: self.pre_prepare@,
            prepares: views_of(self.prepares@),
        }
    }
}

impl Clone for PreparedCertificate {
    fn clone(&self) -> (r: Self)
        ensures
            r@ == self@,
    {
        PreparedCertificate {
            seq_num: self.seq_num,
            pre_prepare: self.pre_prepare.clone(),
            prepares: clone_prepares(&self.prepares),
        }
    }
}

/// A copy of a list of prepared certificates.
pub fn clone_certificates(v: &Vec<PreparedCertificate>) -> (r: Vec<PreparedCertificate>)
    ensures
        views_of(r@) == views_of(v@),
{
    let mut r: Vec<PreparedCertificate> = Vec::new();
    let mut i: usize = 0;
    while i < v.len()
        invariant
            i <= v@.len(),
            r@.len() == i,
            forall|j: int| 0 <= j < i ==> (#[trigger] r@[j])@ == v@[j]@,
        decreases v@.len() - i,
    {
        r.push(v[i].clone());
        i = i + 1;
    }
    assert(views_of(r@) =~= views_of(v@));
    r
}

pub struct ViewChange {
    pub id: NodeId,
    pub new_view: usize,
    pub last_stable_seq_num: usize,
    /// The checkpoints that made `last_stable_seq_num` stable
    pub checkpoint_proof: Vec<CheckPoint>,
    /// Requests prepared after `last_stable_seq_num`, one per sequence number
    pub subsequent_prepares: Vec<PreparedCertificate>,
    pub signature: usize,
}

pub ghost struct ViewChangeView {
    pub id: NodeId,
    pub new_view: usize,
    pub last_stable_seq_num: usize,
    pub checkpoint_proof: Seq<CheckPointView>,
    pub subsequent_prepares: Seq<PreparedCertificateView>,
    pub signature: usize,
}

impl View for ViewChange {
    type V = ViewChangeView;

    open spec fn view(&self) -> ViewChangeView {
        ViewChangeView {
            id: self.id,
            new_view: self.new_view,
            last_stable_seq_num: self.last_stable_seq_num,
            checkpoint_proof: views_of(self.checkpoint_proof@),
            subsequent_prepares: views_of(self.subsequent_prepares@),
            signature: self.signature,
        }
    }
}

impl ViewChange {
    pub fn new(
        id: NodeId,
        new_view: usize,
        last_stable_seq_num: usize,
        checkpoint_proof: Vec<CheckPoint>,
        subsequent_prepares: Vec<PreparedCertificate>,
    ) -> (r: ViewChange)
        ensures
            r@ == (ViewChangeView {
                id,
                new_view,
                last_stable_seq_num,
                checkpoint_proof: views_of(checkpoint_proof@),
                subsequent_prepares: views_of(subsequent_prepares@),
                signature: 0,
            }),
    {
        ViewChange {
            id,
            new_view,
            last_stable_seq_num,
            checkpoint_proof,
            subsequent_prepares,
            signature: 0,
        }
    }
}

impl Clone for ViewChange {
    fn clone(&self) -> (r: Self)
        ensures
            r@ == self@,
    {
        ViewChange {
            id: self.id,
            new_view: self.new_view,
            last_stable_seq_num: self.last_stable_seq_num,
            checkpoint_proof: clone_checkpoints(&self.checkpoint_proof),
            subsequent_prepares: clone_certificates(&self.subsequent_prepares),
            signature: self.signature,
        }
    }
}

/// A copy of a list of view changes.
pub fn clone_view_changes(v: &Vec<ViewChange>) -> (r: Vec<ViewChange>)
    ensures
        views_of(r@) == views_of(v@),
{
    let mut r: Vec<ViewChange> = Vec::new();
    let mut i: usize = 0;
    while i < v.len()
        invariant
            i <= v@.len(),
            r@.len() == i,
            forall|j: int| 0 <= j < i ==> (#[trigger] r@[j])@ == v@[j]@,
        decreases v@.len() - i,
    {
        r.push(v[i].clone());
        i = i + 1;
    }
    assert(views_of(r@) =~= views_of(v@));
    r
}

/// A copy of a list of pre-prepares.
pub fn clone_pre_prepares(v: &Vec<PrePrepare>) -> (r: Vec<PrePrepare>)
    ensures
        views_of(r@) == views_of(v@),
{
    let mut r: Vec<PrePrepare> = Vec::new();
    let mut i: usize = 0;
    while i < v.len()
        invariant
            i <= v@.len(),
            r@.len() == i,
            forall|j: int| 0 <= j < i ==> (#[trigger] r@[j])@ == v@[j]@,
        decreases v@.len() - i,
    {
        r.push(v[i].clone());
        i = i + 1;
    }
    assert(views_of(r@) =~= views_of(v@));
    r
}

pub struct NewView {
    pub id: NodeId,
    pub view: usize,
    /// The view changes that justify the new view
    pub view_change_messages: Vec<ViewChange>,
    /// Pre-prepares that the new leader re-issues in the new view
    pub outstanding_pre_prepares: Vec<PrePrepare>,
    pub signature: usize,
}

pub ghost struct NewViewView {
    pub id: NodeId,
    pub view: usize,
    pub view_change_messages: Seq<ViewChangeView>,
    pub outstanding_pre_prepares: Seq<PrePrepareView>,
    pub signature: usize,
}

impl View for NewView {
    type V = NewViewView;

    open spec fn view(&self) -> NewViewView {
        NewViewView {
            id: self.id,
            view: self.view,
            view_change_messages: views_of(self.view_change_messages@),
            outstanding_pre_prepares: views_of(self.outstanding_pre_prepares@),
            signature: self.signature,
        }
    }
}

impl NewView {
    pub fn new(
        id: NodeId,
        view: usize,
        view_change_messages: Vec<ViewChange>,
        outstanding_pre_prepares: Vec<PrePrepare>,
    ) -> (r: NewView)
        ensures
            r@ == (NewViewView {
                id,
                view,
                view_change_messages: views_of(view_change_messages@),
                outstanding_pre_prepares: views_of(outstanding_pre_prepares@),
                signature: 0,
            }),
    {
        NewView { id, view, view_change_messages, outstanding_pre_prepares, signature: 0 }
    }
}

impl Clone for NewView {
    fn clone(&self) -> (r: Self)
        ensures
            r@ == self@,
    {
        NewView {
            id: self.id,
            view: self.view,
            view_change_messages: clone_view_changes(&self.view_change_messages),
            outstanding_pre_prepares: clone_pre_prepares(&self.outstanding_pre_prepares),
            signature: self.signature,
        }
    }
}

// ---------------------------------------------------------------------------
// Messages between nodes
// ---------------------------------------------------------------------------

/// Messages which are communicated between nodes in the network
pub enum Message {
    IdentifierMessage(Identifier),
    PrePrepareMessage(PrePrepare),
    PrepareMessage(Prepare),
    CommitMessage(Commit),
    ViewChangeMessage(ViewChange),
    NewViewMessage(NewView),
    CheckPointMessage(CheckPoint),
    ClientRequestMessage(ClientRequest),
    ClientResponseMessage(ClientResponse),
}

pub ghost enum MessageView {
    IdentifierMessage(IdentifierView),
    PrePrepareMessage(PrePrepareView),
    PrepareMessage(VoteView),
    CommitMessage(VoteView),
    ViewChangeMessage(ViewChangeView),
    NewViewMessage(NewViewView),
    CheckPointMessage(CheckPointView),
    ClientRequestMessage(ClientRequestView),
    ClientResponseMessage(ClientResponseView),
}

impl View for Message {
    type V = MessageView;

    open spec fn view(&self) -> MessageView {
        match self {
            Message::IdentifierMessage(m) => MessageView::IdentifierMessage(m@),
            Message::PrePrepareMessage(m) => MessageView::PrePrepareMessage(m@),
            Message::PrepareMessage(m) => MessageView::PrepareMessage(m@),
            Message::CommitMessage(m) => MessageView::CommitMessage(m@),
            Message::ViewChangeMessage(m) => MessageView::ViewChangeMessage(m@),
            Message::NewViewMessage(m) => MessageView::NewViewMessage(m@),
            Message::CheckPointMessage(m) => MessageView::CheckPointMessage(m@),
            Message::ClientRequestMessage(m) => MessageView::ClientRequestMessage(m@),
            Message::ClientResponseMessage(m) => MessageView::ClientResponseMessage(m@),
        }
    }
}

/// The node that sent a message; client requests carry none.
pub open spec fn message_sender(m: MessageView) -> Option<NodeId> {
    match m {
        MessageView::IdentifierMessage(x) => Some(x.id),
        MessageView::PrePrepareMessage(x) => Some(x.id),
        MessageView::PrepareMessage(x) => Some(x.id),
        MessageView::CommitMessage(x) => Some(x.id),
        MessageView::ViewChangeMessage(x) => Some(x.id),
        MessageView::NewViewMessage(x) => Some(x.id),
        MessageView::CheckPointMessage(x) => Some(x.id),
        MessageView::ClientRequestMessage(_) => None,
        MessageView::ClientResponseMessage(x) => Some(x.id),
    }
}

/// The signature a message carries; identifiers and client requests carry none.
pub open spec fn message_signature(m: MessageView) -> Option<usize> {
    match m {
        MessageView::IdentifierMessage(_) => None,
        MessageView::PrePrepareMessage(x) => Some(x.signature),
        MessageView::PrepareMessage(x) => Some(x.signature),
        MessageView::CommitMessage(x) => Some(x.signature),
        MessageView::ViewChangeMessage(x) => Some(x.signature),
        MessageView::NewViewMessage(x) => Some(x.signature),
        MessageView::CheckPointMessage(x) => Some(x.signature),
        MessageView::ClientRequestMessage(_) => None,
        MessageView::ClientResponseMessage(x) => Some(x.signature),
    }
}

/// The line that carries a message on the wire: its JSON text and a newline.
pub open spec fn frame_of(json: Seq<u8>) -> Seq<u8> {
    json.push(10u8)
}

impl Message {
    pub fn get_id(&self) -> (r: Option<NodeId>)
        ensures
            r == message_sender(self@),
    {
        match self {
            Message::IdentifierMessage(identifier) => Some(identifier.id),
            Message::PrePrepareMessage(pre_prepare) => Some(pre_prepare.id),
            Message::PrepareMessage(prepare) => Some(prepare.id),
            Message::CommitMessage(commit) => Some(commit.id),
            Message::ViewChangeMessage(view_change) => Some(view_change.id),
            Message::NewViewMessage(new_view) => Some(new_view.id),
            Message::CheckPointMessage(checkpoint) => Some(checkpoint.id),
            Message::ClientRequestMessage(_) => None,
            Message::ClientResponseMessage(client_response) => Some(client_response.id),
        }
    }

    pub fn get_signature(&self) -> (r: Option<usize>)
        ensures
            r == message_signature(self@),
    {
        match self {
            Message::IdentifierMessage(_) => None,
            Message::PrePrepareMessage(pre_prepare) => Some(pre_prepare.signature),
            Message::PrepareMessage(prepare) => Some(prepare.signature),
            Message::CommitMessage(commit) => Some(commit.signature),
            Message::ViewChangeMessage(view_change) => Some(view_change.signature),
            Message::NewViewMessage(new_view) => Some(new_view.signature),
            Message::CheckPointMessage(checkpoint) => Some(checkpoint.signature),
            Message::ClientRequestMessage(_) => None,
            Message::ClientResponseMessage(client_response) => Some(client_response.signature),
        }
    }

    /// Signatures are not checked yet: every message counts as properly signed.
    pub fn is_properly_signed_by(&self, pub_key: &ed25519_dalek::PublicKey) -> (b: bool)
        ensures
            b,
    {
        if self.get_signature().is_none() {
            return true;
        }
        true
    }

    /// Frames the JSON text of a message as one line: the text and a newline.
    pub fn frame(json: Vec<u8>) -> (r: Vec<u8>)
        ensures
            r@ == frame_of(json@),
    {
        let mut line = json;
        line.push(10u8);
        line
    }
}

impl Clone for Message {
    fn clone(&self) -> (r: Self)
        ensures
            r@ == self@,
    {
        match self {
            Message::IdentifierMessage(m) => Message::IdentifierMessage(m.clone()),
            Message::PrePrepareMessage(m) => Message::PrePrepareMessage(m.clone()),
            Message::PrepareMessage(m) => Message::PrepareMessage(m.clone()),
            Message::CommitMessage(m) => Message::CommitMessage(m.clone()),
            Message::ViewChangeMessage(m) => Message::ViewChangeMessage(m.clone()),
            Message::NewViewMessage(m) => Message::NewViewMessage(m.clone()),
            Message::CheckPointMessage(m) => Message::CheckPointMessage(m.clone()),
            Message::ClientRequestMessage(m) => Message::ClientRequestMessage(m.clone()),
            Message::ClientResponseMessage(m) => Message::ClientResponseMessage(m.clone()),
        }
    }
}

// ---------------------------------------------------------------------------
// Commands
// ---------------------------------------------------------------------------

/// Commands to Consensus Engine
pub enum ConsensusCommand {
    ProcessMessage(Message),
    MisdirectedClientRequest(ClientRequest),
    InitPrePrepare(ClientRequest),
    RebroadcastPrePrepare((usize, usize)),
    AcceptPrePrepare(PrePrepare),
    AcceptPrepare(Prepare),
    EnterCommit(Prepare),
    AcceptCommit(Commit),
    InitViewChange(ClientRequest),
    AcceptViewChange(ViewChange),
    AcceptNewView(NewView),
    ApplyCommit(Commit),
    AcceptCheckpoint(CheckPoint),
}

pub ghost enum ConsensusCommandView {
    ProcessMessage(MessageView),
    MisdirectedClientRequest(ClientRequestView),
    InitPrePrepare(ClientRequestView),
    RebroadcastPrePrepare((usize, usize)),
    AcceptPrePrepare(PrePrepareView),
    AcceptPrepare(VoteView),
    EnterCommit(VoteView),
    AcceptCommit(VoteView),
    InitViewChange(ClientRequestView),
    AcceptViewChange(ViewChangeView),
    AcceptNewView(NewViewView),
    ApplyCommit(VoteView),
    AcceptCheckpoint(CheckPointView),
}

impl View for ConsensusCommand {
    type V = ConsensusCommandView;

    open spec fn view(&self) -> ConsensusCommandView {
        match self {
            ConsensusCommand::ProcessMessage(m) => ConsensusCommandView::ProcessMessage(m@),
            ConsensusCommand::MisdirectedClientRequest(m) => ConsensusCommandView::MisdirectedClientRequest(m@),
            ConsensusCommand::InitPrePrepare(m) => ConsensusCommandView::InitPrePrepare(m@),
            ConsensusCommand::RebroadcastPrePrepare(p) => ConsensusCommandView::RebroadcastPrePrepare(*p),
            ConsensusCommand::AcceptPrePrepare(m) => ConsensusCommandView::AcceptPrePrepare(m@),
            ConsensusCommand::AcceptPrepare(m) => ConsensusCommandView::AcceptPrepare(m@),
            ConsensusCommand::EnterCommit(m) => ConsensusCommandView::EnterCommit(m@),
            ConsensusCommand::AcceptCommit(m) => ConsensusCommandView::AcceptCommit(m@),
            ConsensusCommand::InitViewChange(m) => ConsensusCommandView::InitViewChange(m@),
            ConsensusCommand::AcceptViewChange(m) => ConsensusCommandView::AcceptViewChange(m@),
            ConsensusCommand::AcceptNewView(m) => ConsensusCommandView::AcceptNewView(m@),
            ConsensusCommand::ApplyCommit(m) => ConsensusCommandView::ApplyCommit(m@),
            ConsensusCommand::AcceptCheckpoint(m) => ConsensusCommandView::AcceptCheckpoint(m@),
        }
    }
}

pub struct SendMessage {
    /// Address (`ip:port`) of the receiver
    pub destination: String,
    pub message: Message,
}

pub struct BroadCastMessage {
    pub message: Message,
}

/// Commands to Node
pub enum NodeCommand {
    SendMessageCommand(SendMessage),
    BroadCastMessageCommand(BroadCastMessage),
}

pub ghost enum NodeCommandView {
    Send { destination: Seq<char>, message: MessageView },
    Broadcast { message: MessageView },
}

impl View for NodeCommand {
    type V = NodeCommandView;

    open spec fn view(&self) -> NodeCommandView {
        match self {
            NodeCommand::SendMessageCommand(s) => NodeCommandView::Send {
                destination: s.destination@,
                message: s.message@,
            },
            NodeCommand::BroadCastMessageCommand(b) => NodeCommandView::Broadcast {
                message: b.message@,
            },
        }
    }
}

impl NodeCommand {
    pub fn send(destination: String, message: Message) -> (r: NodeCommand)
        ensures
            r@ == (NodeCommandView::Send { destination: destination@, message: message@ }),
    {
        NodeCommand::SendMessageCommand(SendMessage { destination, message })
    }

    pub fn broadcast(message: Message) -> (r: NodeCommand)
        ensures
            r@ == (NodeCommandView::Broadcast { message: message@ }),
    {
        NodeCommand::BroadCastMessageCommand(BroadCastMessage { message })
    }
}

} // verus!
