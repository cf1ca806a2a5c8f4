//! The client's side: counting the replicas' responses to a request until
//! enough of them agree that it was applied.
use vstd::prelude::*;

use vstd::string::StrSliceExecFns;

use crate::messages::{views_of, ClientResponse, ClientResponseView, Message, MessageView};
use crate::vec_map::{Keyed, VecMap};
use crate::{Key, NodeId, Value};

verus! {

/// Evidence that enough replicas applied the request with time stamp
/// `timestamp`: their responses.
pub struct VoteReceit {
    pub timestamp: usize,
    pub num_votes: usize,
    pub votes: Vec<ClientResponse>,
}

pub ghost struct VoteReceitView {
    pub timestamp: usize,
    pub num_votes: usize,
    pub votes: Seq<ClientResponseView>,
}

impl View for VoteReceit {
    type V = VoteReceitView;

    open spec fn view(&self) -> VoteReceitView {
        VoteReceitView { timestamp: self.timestamp, num_votes: self.num_votes, votes: views_of(self.votes@) }
    }
}

/// A time stamp paired with the value a replica answered for it.
impl Keyed for (usize, Option<Value>) {
    type Model = (usize, Option<Value>);

    open spec fn key_model(&self) -> (usize, Option<Value>) {
        *self
    }

    fn same_key(&self, other: &Self) -> (b: bool) {
        let same_value = match (self.1, other.1) {
            (Some(a), Some(b)) => a == b,
            (None, None) => true,
            _ => false,
        };
        self.0 == other.0 && same_value
    }
}

/// Counts successful responses per request time stamp and response value.
pub struct VoteCounter {
    /// For each time stamp and response value, the successful response of each
    /// replica that answered it, in the order they came in
    pub success_vote_quorum: VecMap<(usize, Option<Value>), VecMap<NodeId, ClientResponse>>,
    /// A request counts as applied once more than this many replicas report
    /// success with the same value
    pub vote_threshold: usize,
}

impl VoteCounter {
    pub open spec fn wf(&self) -> bool {
        &&& self.success_vote_quorum.wf()
        &&& forall|i: int| 0 <= i < self.success_vote_quorum.entries@.len()
            ==> (#[trigger] self.success_vote_quorum.entries@[i]).1.wf()
        &&& self.votes_agree()
    }

    /// Every response counted under `(time stamp, value)` is a successful
    /// response with that time stamp and value, from the replica it is kept for.
    pub open spec fn votes_agree(&self) -> bool {
        forall|i: int, j: int|
            0 <= i < self.success_vote_quorum.entries@.len()
                && 0 <= j < (#[trigger] self.success_vote_quorum.entries@[i]).1.entries@.len() ==> {
                let k = self.success_vote_quorum.key_at(i);
                let e = #[trigger] self.success_vote_quorum.entries@[i].1.entries@[j];
                &&& e.1@.time_stamp == k.0
                &&& e.1@.value == k.1
                &&& e.1@.success
                &&& e.1@.id == e.0
            }
    }

    /// Is some response counted under `k`?
    pub open spec fn counted(&self, k: (usize, Option<Value>)) -> bool {
        self.success_vote_quorum@.dom().contains(k)
    }

    /// The replicas counted under `k`, in the order they first answered.
    pub open spec fn voters(&self, k: (usize, Option<Value>)) -> Seq<NodeId> {
        if self.counted(k) {
            self.success_vote_quorum.entries@[self.success_vote_quorum.index_of(k)].1.keys()
        } else {
            Seq::empty()
        }
    }

    /// Their responses, in the same order.
    pub open spec fn responses(&self, k: (usize, Option<Value>)) -> Seq<ClientResponseView> {
        if self.counted(k) {
            self.success_vote_quorum.entries@[self.success_vote_quorum.index_of(k)].1.values()
        } else {
            Seq::empty()
        }
    }

    /// Where the response of replica `id` stands among those counted under `k`.
    pub open spec fn position(&self, k: (usize, Option<Value>), id: NodeId) -> int {
        self.success_vote_quorum.entries@[self.success_vote_quorum.index_of(k)].1.index_of(id)
    }

    pub fn new(vote_threshold: usize) -> (c: VoteCounter)
        ensures
            c.wf(),
            c.vote_threshold == vote_threshold,
            c.success_vote_quorum@ == Map::<(usize, Option<Value>), Map<NodeId, ClientResponseView>>::empty(),
    {
        VoteCounter { success_vote_quorum: VecMap::new(), vote_threshold }
    }

    /// Counts a response read from a replica. Returns a receipt with the
    /// counted responses once more than `vote_threshold` replicas reported
    /// success with the same value for its time stamp.
    pub fn read_response(&mut self, message: Message) -> (r: Option<VoteReceit>)
        requires
            old(self).wf(),
        ensures
            final(self).wf(),
            final(self).vote_threshold == old(self).vote_threshold,
            // a receipt holds more than `vote_threshold` successful responses
            // for its time stamp, all with the same value, from distinct replicas
            r matches Some(rc) ==> rc@.num_votes > old(self).vote_threshold && rc@.num_votes == rc@.votes.len(),
            r matches Some(rc) ==> forall|i: int| 0 <= i < rc@.votes.len() ==> (#[trigger] rc@.votes[i]).success,
            r matches Some(rc) ==> forall|i: int| 0 <= i < rc@.votes.len() ==> (#[trigger] rc@.votes[i]).time_stamp == rc@.timestamp,
            r matches Some(rc) ==> forall|i: int| 0 <= i < rc@.votes.len() ==> (#[trigger] rc@.votes[i]).value == rc@.votes[0].value,
            r matches Some(rc) ==> forall|i: int, j: int| 0 <= i < rc@.votes.len() && 0 <= j < rc@.votes.len() && i != j
                ==> (#[trigger] rc@.votes[i]).id != (#[trigger] rc@.votes[j]).id,
            match message@ {
                MessageView::ClientResponseMessage(resp) => if resp.success {
                    let k = (resp.time_stamp, resp.value);
                    let seen = old(self).voters(k).contains(resp.id);
                    &&& final(self).success_vote_quorum@.dom() == old(self).success_vote_quorum@.dom().insert(k)
                    &&& final(self).voters(k) == if seen {
                        old(self).voters(k)
                    } else {
                        old(self).voters(k).push(resp.id)
                    }
                    &&& final(self).responses(k) == if seen {
                        old(self).responses(k).update(old(self).position(k, resp.id), resp)
                    } else {
                        old(self).responses(k).push(resp)
                    }
                    &&& forall|t: (usize, Option<Value>)| t != k ==> #[trigger] final(self).voters(t) == old(self).voters(t)
                    &&& forall|t: (usize, Option<Value>)| t != k ==> #[trigger] final(self).responses(t) == old(self).responses(t)
                    &&& if final(self).voters(k).len() > final(self).vote_threshold {
                        &&& r is Some
                        &&& r->0@ == (VoteReceitView {
                            timestamp: resp.time_stamp,
                            num_votes: final(self).voters(k).len() as usize,
                            votes: final(self).responses(k),
                        })
                    } else {
                        r is None
                    }
                } else {
                    *final(self) == *old(self) && r is None
                },
                _ => *final(self) == *old(self) && r is None,
            },
    {
        let response = match message {
            Message::ClientResponseMessage(response) => response,
            _ => {
                return None;
            },
        };
        if !response.success {
            return None;
        }
        let key = (response.time_stamp, response.value);
        let id = response.id;
        let ghost resp = response@;
        let ghost k = key;
        let ghost pre = *self;
        let ghost old_inner: VecMap<NodeId, ClientResponse>;
        let ghost inner: VecMap<NodeId, ClientResponse>;
        let idx: usize = match self.success_vote_quorum.find(&key) {
            Some(idx) => {
                let mut quorum = self.success_vote_quorum.replace_value(idx, VecMap::new());
                let ghost mid = self.success_vote_quorum;
                proof {
                    old_inner = quorum;
                    assert(pre.success_vote_quorum.entries@[idx as int].1.wf());
                }
                quorum.insert(id, response);
                proof {
                    inner = quorum;
                }
                self.success_vote_quorum.replace_value(idx, quorum);
                proof {
                    pre.success_vote_quorum.lemma_inserted_twice(mid, self.success_vote_quorum, k, mid.entries@[idx as int].1@, inner@);
                    pre.success_vote_quorum.lemma_entry_in_map(idx as int);
                    pre.success_vote_quorum.lemma_views();
                    self.success_vote_quorum.lemma_views();
                    assert(self.success_vote_quorum.keys()[idx as int] == pre.success_vote_quorum.keys()[idx as int]);
                }
                idx
            },
            None => {
                let mut quorum: VecMap<NodeId, ClientResponse> = VecMap::new();
                proof {
                    old_inner = quorum;
                }
                quorum.insert(id, response);
                proof {
                    inner = quorum;
                }
                let idx = self.success_vote_quorum.entries.len();
                self.success_vote_quorum.insert(key, quorum);
                proof {
                    self.success_vote_quorum.lemma_views();
                    assert(self.success_vote_quorum.keys()[idx as int] == k);
                }
                idx
            },
        };
        proof {
            let q = self.success_vote_quorum;
            q.lemma_entry_in_map(idx as int);
            assert(q.entries@[idx as int].1 == inner);
            assert(old_inner.wf());
            assert(old_inner.inserted(inner, id, resp));
            assert(pre.counted(k) ==> pre.success_vote_quorum.entries@[idx as int].1 == old_inner);
            assert(pre.counted(k) ==> pre.success_vote_quorum.index_of(k) == idx);
            assert(!pre.counted(k) ==> old_inner.keys() =~= Seq::<NodeId>::empty());
            assert(!pre.counted(k) ==> old_inner.values() =~= Seq::<ClientResponseView>::empty());
            assert(pre.voters(k) == old_inner.keys());
            assert(pre.responses(k) == old_inner.values());
            old_inner.lemma_views();
            inner.lemma_views();
            assert(old_inner@.dom().contains(id) == old_inner.keys().contains(id)) by {
                if old_inner.keys().contains(id) {
                    let j = choose|j: int| 0 <= j < old_inner.keys().len() && old_inner.keys()[j] == id;
                    old_inner.lemma_entry_in_map(j);
                }
                if old_inner@.dom().contains(id) {
                    let j = old_inner.index_of(id);
                    old_inner.lemma_entry_in_map(j);
                    assert(old_inner.keys()[j] == id);
                }
            }
            assert forall|i: int| 0 <= i < q.entries@.len() implies (#[trigger] q.entries@[i]).1.wf() by {
                if i != idx {
                    assert(q.entries@[i] == pre.success_vote_quorum.entries@[i]);
                }
            }
            assert forall|i: int, j: int|
                0 <= i < q.entries@.len() && 0 <= j < (#[trigger] q.entries@[i]).1.entries@.len() implies {
                let kk = q.key_at(i);
                let e = #[trigger] q.entries@[i].1.entries@[j];
                &&& e.1@.time_stamp == kk.0
                &&& e.1@.value == kk.1
                &&& e.1@.success
                &&& e.1@.id == e.0
            } by {
                if i != idx {
                    assert(q.entries@[i] == pre.success_vote_quorum.entries@[i]);
                    assert(q.key_at(i) == pre.success_vote_quorum.key_at(i));
                } else {
                    assert(inner.values()[j] == inner.entries@[j].1@);
                    assert(inner.keys()[j] == inner.entries@[j].0);
                    if old_inner@.dom().contains(id) {
                        let p = old_inner.index_of(id);
                        old_inner.lemma_entry_in_map(p);
                        if j != p {
                            assert(old_inner.entries@[j] == pre.success_vote_quorum.entries@[idx as int].1.entries@[j]);
                            assert(old_inner.values()[j] == old_inner.entries@[j].1@);
                            assert(old_inner.keys()[j] == old_inner.entries@[j].0);
                        }
                    } else if j < old_inner.entries@.len() {
                        assert(old_inner.entries@[j] == pre.success_vote_quorum.entries@[idx as int].1.entries@[j]);
                        assert(old_inner.values()[j] == old_inner.entries@[j].1@);
                        assert(old_inner.keys()[j] == old_inner.entries@[j].0);
                    }
                }
            }
            assert forall|t: (usize, Option<Value>)| t != k implies #[trigger] self.voters(t) == pre.voters(t)
                && self.responses(t) == pre.responses(t) by {
                if pre.success_vote_quorum@.dom().contains(t) {
                    let j = pre.success_vote_quorum.index_of(t);
                    pre.success_vote_quorum.lemma_entry_in_map(j);
                    assert(q.key_at(j) == t);
                    q.lemma_entry_in_map(j);
                    assert(j != idx);
                }
            }
            assert forall|t: (usize, Option<Value>)| t != k implies #[trigger] self.responses(t) == pre.responses(t) by {
                assert(self.voters(t) == pre.voters(t));
            }
            assert(self.success_vote_quorum@.dom() =~= pre.success_vote_quorum@.dom().insert(k));
            assert(self.voters(k) == inner.keys());
            assert(self.responses(k) == inner.values());
            if old_inner@.dom().contains(id) {
                assert(pre.position(k, id) == old_inner.index_of(id));
            }
        }
        let quorum = &self.success_vote_quorum.entries[idx].1;
        proof {
            quorum.lemma_len();
            quorum.lemma_views();
        }
        if quorum.len() > self.vote_threshold {
            // enough agreeing votes: hand out the counted responses
            let mut succ_votes = Vec::<ClientResponse>::new();
            let mut i: usize = 0;
            while i < quorum.entries.len()
                invariant
                    i <= quorum.entries@.len(),
                    succ_votes@.len() == i,
                    forall|j: int| 0 <= j < i ==> (#[trigger] succ_votes@[j])@ == quorum.entries@[j].1@,
                decreases quorum.entries@.len() - i,
            {
                succ_votes.push(quorum.entries[i].1.clone());
                i = i + 1;
            }
            let num_votes = succ_votes.len();
            let receit = VoteReceit { timestamp: key.0, num_votes, votes: succ_votes };
            proof {
                let vs = views_of(receit.votes@);
                assert(vs =~= quorum.values());
                let q = self.success_vote_quorum;
                assert forall|i: int| 0 <= i < vs.len() implies (#[trigger] vs[i]).id == quorum.keys()[i]
                    && vs[i].success && vs[i].time_stamp == k.0 && vs[i].value == k.1 by {
                    assert(q.entries@[idx as int].1.entries@[i] == quorum.entries@[i]);
                }
                assert forall|i: int| 0 <= i < vs.len() implies (#[trigger] vs[i]).value == vs[0].value by {
                    assert(vs[i].id == quorum.keys()[i]);
                    assert(vs[0].id == quorum.keys()[0]);
                }
                assert forall|i: int| 0 <= i < vs.len() implies (#[trigger] vs[i]).success && vs[i].time_stamp == k.0 by {
                    assert(vs[i].id == quorum.keys()[i]);
                }
                assert forall|i: int, j: int| 0 <= i < vs.len() && 0 <= j < vs.len() && i != j
                    implies (#[trigger] vs[i]).id != (#[trigger] vs[j]).id by {
                    assert(vs[i].id == quorum.keys()[i]);
                    assert(vs[j].id == quorum.keys()[j]);
                    assert(quorum.key_at(i) != quorum.key_at(j));
                }
            }
            Some(receit)
        } else {
            None
        }
    }
}

/// The first receipt for each time stamp.
pub struct ReceitLog {
    pub receits: VecMap<usize, VoteReceit>,
}

impl ReceitLog {
    pub fn new() -> (l: ReceitLog)
        ensures
            l.receits.wf(),
            l.receits@ == Map::<usize, VoteReceitView>::empty(),
    {
        ReceitLog { receits: VecMap::new() }
    }

    /// Keeps a receipt unless one for its time stamp is already kept. Returns
    /// whether it was kept.
    pub fn record(&mut self, receit: VoteReceit) -> (kept: bool)
        requires
            old(self).receits.wf(),
        ensures
            final(self).receits.wf(),
            kept == !old(self).receits@.dom().contains(receit.timestamp),
            final(self).receits@ == if kept {
                old(self).receits@.insert(receit.timestamp, receit@)
            } else {
                old(self).receits@
            },
    {
        if self.receits.contains_key(&receit.timestamp) {
            return false;
        }
        self.receits.insert(receit.timestamp, receit);
        true
    }
}

// ---------------------------------------------------------------------------
// Commands typed by the user: `set <key> <value>` and `get <key>`
// ---------------------------------------------------------------------------

pub open spec fn is_space(c: char) -> bool {
    c == ' ' || c == '\t' || c == '\n' || c == '\r'
}

/// Length of the word at the start of `s`.
pub open spec fn word_len(s: Seq<char>) -> nat
    decreases s.len(),
{
    if s.len() == 0 || is_space(s[0]) {
        0
    } else {
        1 + word_len(s.drop_first())
    }
}

/// The words of `s`: its maximal runs of non-space characters, in order.
pub open spec fn words(s: Seq<char>) -> Seq<Seq<char>>
    decreases s.len(),
{
    if s.len() == 0 {
        Seq::empty()
    } else if is_space(s[0]) {
        words(s.drop_first())
    } else {
        let n = word_len(s);
        proof {
            lemma_word_len_bound(s);
        }
        if n == 0 {
            Seq::empty()
        } else {
            seq![s.take(n as int)] + words(s.skip(n as int))
        }
    }
}

pub open spec fn is_digit(c: char) -> bool {
    '0' <= c && c <= '9'
}

/// A non-empty run of decimal digits.
pub open spec fn is_decimal(d: Seq<char>) -> bool {
    d.len() > 0 && forall|i: int| 0 <= i < d.len() ==> #[trigger] is_digit(d[i])
}

/// The number that a run of decimal digits writes.
pub open spec fn decimal_value(d: Seq<char>) -> int
    decreases d.len(),
{
    if d.len() == 0 {
        0
    } else {
        decimal_value(d.drop_last()) * 10 + (d.last() as int - '0' as int)
    }
}

/// The request that a command line asks for: the key, and the value to write
/// (`None` for a read).
pub open spec fn command_of(line: Seq<char>) -> Option<(Seq<char>, Option<Value>)> {
    let w = words(line);
    if w.len() == 3 && w[0] == seq!['s', 'e', 't'] && is_decimal(w[2]) && decimal_value(w[2])
        <= u32::MAX {
        Some((w[1], Some(decimal_value(w[2]) as u32)))
    } else if w.len() == 2 && w[0] == seq!['g', 'e', 't'] {
        Some((w[1], None))
    } else {
        None
    }
}

/// A word is no longer than the text it starts.
pub proof fn lemma_word_len_bound(s: Seq<char>)
    ensures
        word_len(s) <= s.len(),
    decreases s.len(),
{
    if s.len() > 0 && !is_space(s[0]) {
        lemma_word_len_bound(s.drop_first());
    }
}

proof fn lemma_word_len(s: Seq<char>, n: int)
    requires
        0 <= n <= s.len(),
        forall|i: int| 0 <= i < n ==> !is_space(#[trigger] s[i]),
        n == s.len() || is_space(s[n]),
    ensures
        word_len(s) == n,
    decreases n,
{
    if n > 0 {
        let t = s.drop_first();
        assert forall|i: int| 0 <= i < n - 1 implies !is_space(#[trigger] t[i]) by {
            assert(t[i] == s[i + 1]);
        }
        if n < s.len() {
            assert(t[n - 1] == s[n]);
        }
        lemma_word_len(t, n - 1);
    }
}

proof fn lemma_decimal_prefix(d: Seq<char>, i: int)
    requires
        is_decimal(d),
        0 <= i <= d.len(),
    ensures
        decimal_value(d) >= decimal_value(d.take(i)),
        decimal_value(d.take(i)) >= 0,
    decreases d.len(),
{
    lemma_decimal_nonneg(d);
    lemma_decimal_nonneg(d.take(i));
    if i < d.len() {
        let p = d.drop_last();
        if p.len() > 0 {
            assert forall|j: int| 0 <= j < p.len() implies #[trigger] is_digit(p[j]) by {
                assert(p[j] == d[j]);
            }
            lemma_decimal_prefix(p, i);
            assert(p.take(i) =~= d.take(i));
        } else {
            assert(d.take(i) =~= Seq::<char>::empty());
        }
        assert(is_digit(d[d.len() - 1]));
    } else {
        assert(d.take(i) =~= d);
    }
}

proof fn lemma_decimal_nonneg(d: Seq<char>)
    requires
        forall|j: int| 0 <= j < d.len() ==> #[trigger] is_digit(d[j]),
    ensures
        decimal_value(d) >= 0,
    decreases d.len(),
{
    if d.len() > 0 {
        let p = d.drop_last();
        assert forall|j: int| 0 <= j < p.len() implies #[trigger] is_digit(p[j]) by {
            assert(p[j] == d[j]);
        }
        lemma_decimal_nonneg(p);
        assert(is_digit(d[d.len() - 1]));
    }
}

/// The decimal number written by the characters `from..to` of `line`, if they
/// are all digits and the number fits in a `u32`.
fn parse_decimal(line: &str, from: usize, to: usize) -> (r: Option<u32>)
    requires
        from < to <= line@.len(),
    ensures
        ({
            let d = line@.subrange(from as int, to as int);
            &&& r is Some == (is_decimal(d) && decimal_value(d) <= u32::MAX)
            &&& r matches Some(v) ==> v == decimal_value(d)
        }),
{
    let ghost d = line@.subrange(from as int, to as int);
    let mut value: u64 = 0;
    let mut i: usize = from;
    assert(d.take(0) =~= Seq::<char>::empty());
    while i < to
        invariant
            from <= i <= to,
            to <= line@.len(),
            d == line@.subrange(from as int, to as int),
            forall|j: int| 0 <= j < i - from ==> #[trigger] is_digit(d[j]),
            value == decimal_value(d.take(i - from)),
            value <= u32::MAX,
        decreases to - i,
    {
        let c = line.get_char(i);
        assert(c == d[i - from]);
        if !('0' <= c && c <= '9') {
            assert(!is_digit(d[i - from]));
            return None;
        }
        let digit = (c as u32 - '0' as u32) as u64;
        assert(d.take(i - from + 1).drop_last() =~= d.take(i - from));
        assert(d.take(i - from + 1).last() == c);
        let next = value * 10 + digit;
        if next > 0xffff_ffff {
            proof {
                assert(decimal_value(d.take(i - from + 1)) == next);
                if is_decimal(d) {
                    lemma_decimal_prefix(d, i - from + 1);
                }
            }
            return None;
        }
        value = next;
        i = i + 1;
    }
    assert(d.take(to - from) =~= d);
    Some(value as u32)
}

/// Reads a command line: `set <key> <value>` writes a decimal `u32` value,
/// `get <key>` reads a key. Anything else is no command.
pub fn parse_command(line: &str) -> (r: Option<(Key, Option<Value>)>)
    ensures
        r is Some == command_of(line@) is Some,
        r matches Some(c) ==> ({
            let cmd = command_of(line@)->0;
            c.0@ == cmd.0 && c.1 == cmd.1
        }),
{
    let n = line.unicode_len();
    let ghost s = line@;
    let mut bounds: Vec<(usize, usize)> = Vec::new();
    let ghost mut acc: Seq<Seq<char>> = Seq::empty();
    let mut i: usize = 0;
    assert(s.skip(0) =~= s);
    while i < n
        invariant
            n == s.len(),
            s == line@,
            i <= n,
            words(s) == acc + words(s.skip(i as int)),
            acc.len() == bounds@.len(),
            forall|k: int| 0 <= k < bounds@.len() ==> (#[trigger] bounds@[k]).0 < bounds@[k].1 <= i
                && acc[k] == s.subrange(bounds@[k].0 as int, bounds@[k].1 as int),
        decreases n - i,
    {
        let c = line.get_char(i);
        if c == ' ' || c == '\t' || c == '\n' || c == '\r' {
            proof {
                let t = s.skip(i as int);
                assert(t[0] == c);
                assert(t.drop_first() =~= s.skip(i + 1));
            }
            i = i + 1;
        } else {
            let start = i;
            let mut end = i;
            while end < n
                invariant
                    start <= end <= n,
                    n == s.len(),
                    s == line@,
                    forall|k: int| start <= k < end ==> !is_space(#[trigger] s[k]),
                ensures
                    start <= end <= n,
                    forall|k: int| start <= k < end ==> !is_space(#[trigger] s[k]),
                    end == n || is_space(s[end as int]),
                decreases n - end,
            {
                let d = line.get_char(end);
                if d == ' ' || d == '\t' || d == '\n' || d == '\r' {
                    break;
                }
                end = end + 1;
            }
            proof {
                let t = s.skip(start as int);
                assert(t[0] == c);
                assert forall|k: int| 0 <= k < end - start implies !is_space(#[trigger] t[k]) by {
                    assert(t[k] == s[start + k]);
                }
                if end < n {
                    assert(t[end - start] == s[end as int]);
                }
                lemma_word_len(t, end - start);
                assert(end > start) by {
                    assert(!is_space(s[start as int]));
                    if end == start {
                        assert(end == n || is_space(s[end as int]));
                    }
                }
                assert(t.take(end - start) =~= s.subrange(start as int, end as int));
                assert(t.skip(end - start) =~= s.skip(end as int));
                acc = acc.push(s.subrange(start as int, end as int));
            }
            bounds.push((start, end));
            i = end;
        }
    }
    assert(s.skip(n as int) =~= Seq::<char>::empty());
    assert(acc =~= words(s));
    if bounds.len() == 3 {
        let (a0, b0) = bounds[0];
        let (a1, b1) = bounds[1];
        let (a2, b2) = bounds[2];
        if b0 - a0 == 3 && line.get_char(a0) == 's' && line.get_char(a0 + 1) == 'e' && line.get_char(a0 + 2) == 't' {
            proof {
                assert(acc[0] =~= seq!['s', 'e', 't']);
            }
            match parse_decimal(line, a2, b2) {
                Some(v) => {
                    let key = line.substring_char(a1, b1).to_owned();
                    return Some((key, Some(v)));
                },
                None => {
                    return None;
                },
            }
        }
        proof {
            if acc[0] == seq!['s', 'e', 't'] {
                assert(acc[0].len() == 3);
                assert(acc[0][0] == 's');
                assert(acc[0][1] == 'e');
                assert(acc[0][2] == 't');
            }
        }
        return None;
    }
    if bounds.len() == 2 {
        let (a0, b0) = bounds[0];
        let (a1, b1) = bounds[1];
        if b0 - a0 == 3 && line.get_char(a0) == 'g' && line.get_char(a0 + 1) == 'e' && line.get_char(a0 + 2) == 't' {
            proof {
                assert(acc[0] =~= seq!['g', 'e', 't']);
            }
            let key = line.substring_char(a1, b1).to_owned();
            return Some((key, None));
        }
        proof {
            if acc[0] == seq!['g', 'e', 't'] {
                assert(acc[0].len() == 3);
                assert(acc[0][0] == 'g');
                assert(acc[0][1] == 'e');
                assert(acc[0][2] == 't');
            }
        }
        return None;
    }
    None
}

} // verus!
