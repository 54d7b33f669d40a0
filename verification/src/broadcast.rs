//! The gossip broadcast service: per-node broadcast state, topology
//! configuration, the anti-entropy tick algorithm, and the handlers for the
//! four broadcast message kinds.

use vstd::prelude::*;
use crate::protocol::{Body, Event, Init, Message, NodeError, Node};
use crate::rng;

verus! {

broadcast use vstd::seq_lib::lemma_seq_contains_after_push;

/// The protocol payload of the broadcast service.
#[derive(Debug, Clone)]
pub enum Payload {
    Broadcast { message: usize },
    BroadcastOk,
    Read,
    ReadOk { messages: Vec<usize> },
    Topology { topology: Vec<TopologyEntry> },
    TopologyOk,
    Gossip { seen: Vec<usize> },
}

/// One entry of a topology configuration: a node and the peers it gossips to.
#[derive(Debug, Clone)]
pub struct TopologyEntry {
    pub node: String,
    pub neighbors: Vec<String>,
}

/// The one internally injected event: time to gossip.
#[derive(Debug, Clone)]
pub enum InjectedPayload {
    Gossip,
}

/// What this node believes one peer has already learned.
#[derive(Debug, Clone)]
pub struct PeerKnowledge {
    pub peer: String,
    pub seen: Vec<usize>,
}

/// The state of one broadcast node.
#[derive(Debug, Clone)]
pub struct BroadcastNode {
    /// This node's own id.
    pub node: String,
    /// The counter stamping outgoing request-style replies.
    pub id: usize,
    /// The accumulated message identifiers; grows monotonically.
    pub messages: Vec<usize>,
    /// One entry per node of the cluster; each grows monotonically.
    pub known: Vec<PeerKnowledge>,
    /// The peers this node gossips to; empty until a topology arrives.
    pub neighborhood: Vec<String>,
}

/// Membership test on a vector of message identifiers.
pub fn contains_value(v: &Vec<usize>, x: usize) -> (r: bool)
    ensures
        r == v@.contains(x),
{
    let mut i: usize = 0;
    while i < v.len()
        invariant
            i <= v@.len(),
            forall|k: int| 0 <= k < i ==> v@[k] != x,
        decreases v@.len() - i,
    {
        if v[i] == x {
            return true;
        }
        i = i + 1;
    }
    false
}

/// `post` is `base` extended by exactly the elements of `add`: `base` stays a
/// prefix, nothing else is added, and no duplicate appears.
pub open spec fn merged(base: Seq<usize>, add: Seq<usize>, post: Seq<usize>) -> bool {
    &&& post.no_duplicates()
    &&& base.is_prefix_of(post)
    &&& forall|x: usize| post.contains(x) <==> base.contains(x) || add.contains(x)
}

/// Merge `from` into `dst`, skipping values already present.
pub fn merge_into(dst: &mut Vec<usize>, from: &Vec<usize>)
    requires
        old(dst)@.no_duplicates(),
    ensures
        merged(old(dst)@, from@, final(dst)@),
{
    let mut i: usize = 0;
    while i < from.len()
        invariant
            i <= from@.len(),
            dst@.no_duplicates(),
            old(dst)@.is_prefix_of(dst@),
            forall|x: usize| dst@.contains(x) <==> old(dst)@.contains(x) || from@.take(i as int).contains(x),
        decreases from@.len() - i,
    {
        let x = from[i];
        let present = contains_value(dst, x);
        proof {
            assert(from@.take(i + 1) =~= from@.take(i as int).push(x));
        }
        if !present {
            dst.push(x);
        }
        i = i + 1;
    }
    proof {
        assert(from@.take(from@.len() as int) =~= from@);
    }
}

/// Look up the knowledge entry tracked for a peer, by name.
pub fn find_peer(known: &Vec<PeerKnowledge>, name: &String) -> (r: Option<usize>)
    ensures
        match r {
            Some(j) => j < known@.len() && known@[j as int].peer@ == name@,
            None => forall|j: int| 0 <= j < known@.len() ==> known@[j].peer@ != name@,
        },
{
    let mut i: usize = 0;
    while i < known.len()
        invariant
            i <= known@.len(),
            forall|k: int| 0 <= k < i ==> known@[k].peer@ != name@,
        decreases known@.len() - i,
    {
        if known[i].peer == *name {
            return Some(i);
        }
        i = i + 1;
    }
    None
}

/// Look up a node's entry in a topology configuration.
pub fn find_topology_entry(topology: &Vec<TopologyEntry>, name: &String) -> (r: Option<usize>)
    ensures
        match r {
            Some(j) => j < topology@.len() && topology@[j as int].node@ == name@,
            None => forall|j: int| 0 <= j < topology@.len() ==> topology@[j].node@ != name@,
        },
{
    let mut i: usize = 0;
    while i < topology.len()
        invariant
            i <= topology@.len(),
            forall|k: int| 0 <= k < i ==> topology@[k].node@ != name@,
        decreases topology@.len() - i,
    {
        if topology[i].node == *name {
            return Some(i);
        }
        i = i + 1;
    }
    None
}

/// The values of `kn`, as a predicate on message identifiers.
pub open spec fn known_pred(kn: Seq<usize>) -> spec_fn(usize) -> bool {
    |x: usize| kn.contains(x)
}

/// The complement of [`known_pred`].
pub open spec fn unknown_pred(kn: Seq<usize>) -> spec_fn(usize) -> bool {
    |x: usize| !kn.contains(x)
}

/// How many of the values of `seen` a peer with knowledge `kn` already has.
pub open spec fn redundant_count(seen: Seq<usize>, kn: Seq<usize>) -> nat {
    seen.filter(known_pred(kn)).len()
}

/// How many of the values of `msgs` a peer with knowledge `kn` lacks.
pub open spec fn unknown_count(msgs: Seq<usize>, kn: Seq<usize>) -> nat {
    msgs.filter(unknown_pred(kn)).len()
}

/// A strictly increasing sequence of nonnegative integers grows at least as
/// fast as its indices.
proof fn lemma_increasing_bounds(picked: Seq<int>)
    requires
        forall|s: int, t: int| 0 <= s < t < picked.len() ==> picked[s] < picked[t],
        forall|t: int| 0 <= t < picked.len() ==> #[trigger] picked[t] >= 0,
    ensures
        forall|t: int| 0 <= t < picked.len() ==> #[trigger] picked[t] >= t,
    decreases picked.len(),
{
    if picked.len() > 0 {
        lemma_increasing_bounds(picked.drop_last());
        assert forall|t: int| 0 <= t < picked.len() implies #[trigger] picked[t] >= t by {
            if t < picked.len() - 1 {
                assert(picked.drop_last()[t] == picked[t]);
            } else if t > 0 {
                assert(picked.drop_last()[t - 1] == picked[t - 1]);
                assert(picked[t - 1] >= t - 1);
                assert(picked[t] > picked[t - 1]);
            }
        }
    }
}

/// Pushing a fresh element keeps a sequence duplicate-free.
proof fn lemma_push_no_dup(s: Seq<usize>, x: usize)
    requires
        s.no_duplicates(),
        !s.contains(x),
    ensures
        s.push(x).no_duplicates(),
{
    assert forall|a: int| 0 <= a < s.len() implies s[a] != x by {
        if s[a] == x {
            assert(s.contains(x));
        }
    }
    vstd::seq_lib::lemma_no_dup_in_concat(s, seq![x]);
    assert(s.push(x) =~= s + seq![x]);
}

/// Every element of a filtered sequence is an element of the original.
proof fn lemma_filter_subset(s: Seq<usize>, pred: spec_fn(usize) -> bool)
    ensures
        forall|x: usize| #[trigger] s.filter(pred).contains(x) ==> s.contains(x),
    decreases s.len(),
{
    reveal(Seq::filter);
    if s.len() > 0 {
        lemma_filter_subset(s.drop_last(), pred);
        assert forall|x: usize| #[trigger] s.filter(pred).contains(x) implies s.contains(x) by {
            let sub = s.drop_last().filter(pred);
            if pred(s.last()) && x == s.last() {
                assert(s[s.len() - 1] == x);
            } else {
                assert(sub.contains(x));
                assert(s.drop_last().contains(x));
                let w = choose|w: int| 0 <= w < s.drop_last().len() && s.drop_last()[w] == x;
                assert(s[w] == x);
            }
        }
    }
}

/// A filtered sequence is unchanged when every element satisfies the
/// predicate.
proof fn lemma_filter_all(s: Seq<usize>, pred: spec_fn(usize) -> bool)
    requires
        forall|i: int| 0 <= i < s.len() ==> pred(#[trigger] s[i]),
    ensures
        s.filter(pred) == s,
    decreases s.len(),
{
    reveal(Seq::filter);
    if s.len() > 0 {
        lemma_filter_all(s.drop_last(), pred);
        assert(s.drop_last().push(s.last()) =~= s);
    }
}

/// A filtered sequence is empty when no element satisfies the predicate.
proof fn lemma_filter_none(s: Seq<usize>, pred: spec_fn(usize) -> bool)
    requires
        forall|i: int| 0 <= i < s.len() ==> !pred(#[trigger] s[i]),
    ensures
        s.filter(pred) == Seq::<usize>::empty(),
    decreases s.len(),
{
    reveal(Seq::filter);
    if s.len() > 0 {
        lemma_filter_none(s.drop_last(), pred);
    } else {
        assert(s =~= Seq::<usize>::empty());
    }
}

/// One peer's payload for a single anti-entropy tick: every accumulated value
/// the peer is not known to have, plus a random resend of values it is
/// already believed to know. The resend protects against lost gossip; its
/// size never exceeds a tenth of the unknown count, nor the pool of
/// already-known values it is drawn from.
pub fn gossip_payload(messages: &Vec<usize>, known_to_peer: &Vec<usize>) -> (seen: Vec<usize>)
    requires
        messages@.no_duplicates(),
    ensures
        seen@.no_duplicates(),
        forall|x: usize| seen@.contains(x) ==> messages@.contains(x),
        forall|x: usize| messages@.contains(x) && !known_to_peer@.contains(x) ==> seen@.contains(x),
        redundant_count(seen@, known_to_peer@) <= unknown_count(messages@, known_to_peer@) / 10,
        redundant_count(seen@, known_to_peer@) <= messages@.filter(known_pred(known_to_peer@)).len(),
{
    let ghost p_known = known_pred(known_to_peer@);
    let ghost p_unknown = unknown_pred(known_to_peer@);
    let mut notify: Vec<usize> = Vec::new();
    let mut resend_pool: Vec<usize> = Vec::new();
    let mut i: usize = 0;
    while i < messages.len()
        invariant
            i <= messages@.len(),
            messages@.no_duplicates(),
            p_known == known_pred(known_to_peer@),
            p_unknown == unknown_pred(known_to_peer@),
            notify@ == messages@.take(i as int).filter(p_unknown),
            resend_pool@ == messages@.take(i as int).filter(p_known),
            forall|x: usize| notify@.contains(x) ==> messages@.take(i as int).contains(x),
            forall|x: usize| resend_pool@.contains(x) ==> messages@.take(i as int).contains(x),
            notify@.no_duplicates(),
            resend_pool@.no_duplicates(),
        decreases messages@.len() - i,
    {
        let x = messages[i];
        proof {
            assert(messages@.take(i + 1) =~= messages@.take(i as int).push(x));
            messages@.take(i as int).lemma_filter_push(x, p_unknown);
            messages@.take(i as int).lemma_filter_push(x, p_known);
            assert forall|k: int| 0 <= k < i implies messages@.take(i as int)[k] != x by {
                assert(messages@[k] == messages@.take(i as int)[k]);
            }
            assert(!messages@.take(i as int).contains(x));
            assert(!notify@.contains(x));
            assert(!resend_pool@.contains(x));
            lemma_push_no_dup(notify@, x);
            lemma_push_no_dup(resend_pool@, x);
        }
        if contains_value(known_to_peer, x) {
            resend_pool.push(x);
        } else {
            notify.push(x);
        }
        i = i + 1;
    }
    proof {
        assert(messages@.take(messages@.len() as int) =~= messages@);
    }
    let ghost unknown_all = notify@;
    let cap: usize = notify.len() / 10;
    let mut rng_handle = rng::thread_rng();
    let mut extra: usize = 0;
    let ghost mut extras = Seq::<usize>::empty();
    let ghost mut picked = Seq::<int>::empty();
    let mut k: usize = 0;
    proof {
        assert(notify@ =~= unknown_all + extras);
    }
    while k < resend_pool.len()
        invariant
            k <= resend_pool@.len(),
            extra as int == extras.len(),
            extra <= cap,
            picked.len() == extras.len(),
            notify@ == unknown_all + extras,
            forall|t: int| 0 <= t < picked.len() ==> 0 <= #[trigger] picked[t] < k,
            forall|s: int, t: int| 0 <= s < t < picked.len() ==> picked[s] < picked[t],
            forall|t: int| 0 <= t < extras.len() ==> #[trigger] extras[t] == resend_pool@[picked[t]],
            resend_pool@.no_duplicates(),
            forall|x: usize| resend_pool@.contains(x) ==> messages@.contains(x),
            unknown_all == messages@.filter(unknown_pred(known_to_peer@)),
            resend_pool@ == messages@.filter(known_pred(known_to_peer@)),
            unknown_all.no_duplicates(),
            cap as int == unknown_all.len() / 10,
        decreases resend_pool@.len() - k,
    {
        if extra < cap {
            let pool_len = resend_pool.len();
            if pool_len <= u32::MAX as usize {
                let num_usize: usize = if cap < pool_len {
                    cap
                } else {
                    pool_len
                };
                let num: u32 = num_usize as u32;
                let den: u32 = pool_len as u32;
                if rng::gen_ratio(&mut rng_handle, num, den) {
                    let x = resend_pool[k];
                    notify.push(x);
                    extra = extra + 1;
                    proof {
                        extras = extras.push(x);
                        picked = picked.push(k as int);
                        assert(notify@ =~= unknown_all + extras);
                    }
                }
            }
        }
        k = k + 1;
    }
    proof {
        lemma_gossip_payload_shape(unknown_all, extras, picked, resend_pool@, messages@, known_to_peer@);
    }
    notify
}

/// The shape argument behind [`gossip_payload`]: the concatenation of the
/// unknown values with a duplicate-free selection of already-known values
/// keeps every guarantee the tick owes a peer.
proof fn lemma_gossip_payload_shape(
    unknown_all: Seq<usize>,
    extras: Seq<usize>,
    picked: Seq<int>,
    pool: Seq<usize>,
    msgs: Seq<usize>,
    kn: Seq<usize>,
)
    requires
        unknown_all == msgs.filter(unknown_pred(kn)),
        pool == msgs.filter(known_pred(kn)),
        pool.no_duplicates(),
        picked.len() == extras.len(),
        forall|t: int| 0 <= t < picked.len() ==> 0 <= #[trigger] picked[t] < pool.len(),
        forall|s: int, t: int| 0 <= s < t < picked.len() ==> picked[s] < picked[t],
        forall|t: int| 0 <= t < extras.len() ==> #[trigger] extras[t] == pool[picked[t]],
        extras.len() <= unknown_all.len() / 10,
        unknown_all.no_duplicates(),
    ensures
        (unknown_all + extras).no_duplicates(),
        forall|x: usize| (unknown_all + extras).contains(x) ==> msgs.contains(x),
        forall|x: usize| msgs.contains(x) && !kn.contains(x) ==> (unknown_all + extras).contains(x),
        redundant_count(unknown_all + extras, kn) <= unknown_count(msgs, kn) / 10,
        redundant_count(unknown_all + extras, kn) <= msgs.filter(known_pred(kn)).len(),
{
    lemma_increasing_bounds(picked);
    if extras.len() > 0 {
        assert(picked[picked.len() - 1] >= picked.len() - 1);
    }
    assert(extras.len() <= pool.len());
    let p_known = known_pred(kn);
    let p_unknown = unknown_pred(kn);
    broadcast use vstd::seq_lib::group_filter_ensures;

    lemma_filter_subset(msgs, p_unknown);
    lemma_filter_subset(msgs, p_known);
    assert forall|t: int| 0 <= t < extras.len() implies p_known(#[trigger] extras[t]) by {
        assert(extras[t] == pool[picked[t]]);
    }
    assert(extras.no_duplicates()) by {
        assert forall|s: int, t: int| 0 <= s < t < extras.len() implies extras[s] != extras[t] by {
            assert(picked[s] < picked[t]);
        }
    }
    assert forall|a: int, b: int| 0 <= a < unknown_all.len() && 0 <= b < extras.len()
        implies unknown_all[a] != extras[b] by {
        assert(p_unknown(unknown_all[a]));
        assert(p_known(extras[b]));
    }
    vstd::seq_lib::lemma_no_dup_in_concat(unknown_all, extras);
    assert forall|x: usize| (unknown_all + extras).contains(x) implies msgs.contains(x) by {
        let w = choose|w: int| 0 <= w < (unknown_all + extras).len() && (unknown_all + extras)[w] == x;
        if w < unknown_all.len() {
            assert(unknown_all[w] == x);
            assert(unknown_all.contains(x));
        } else {
            assert(extras[w - unknown_all.len()] == x);
            assert(pool.contains(x)) by {
                assert(pool[picked[w - unknown_all.len()]] == x);
            }
        }
    }
    assert forall|x: usize| msgs.contains(x) && !kn.contains(x) implies (unknown_all + extras).contains(x) by {
        let w = choose|w: int| 0 <= w < msgs.len() && msgs[w] == x;
        assert(p_unknown(msgs[w]));
        assert(unknown_all.contains(x));
        let u = choose|u: int| 0 <= u < unknown_all.len() && unknown_all[u] == x;
        assert((unknown_all + extras)[u] == x);
    }
    assert((unknown_all + extras).filter(p_known) == unknown_all.filter(p_known) + extras.filter(p_known)) by {
        Seq::<usize>::filter_distributes_over_add(unknown_all, extras, p_known);
    }
    assert(unknown_all.filter(p_known) == Seq::<usize>::empty()) by {
        lemma_filter_none(unknown_all, p_known);
    }
    assert(extras.filter(p_known) == extras) by {
        lemma_filter_all(extras, p_known);
    }
    assert((unknown_all + extras).filter(p_known) =~= extras);
}

/// No two entries of a topology configuration describe the same node, as in
/// the JSON object the configuration is carried in.
pub open spec fn topology_distinct(t: Seq<TopologyEntry>) -> bool {
    forall|i: int, j: int| 0 <= i < j < t.len() ==> t[i].node@ != t[j].node@
}

/// The configuration holds an entry for this node name.
pub open spec fn topology_has(t: Seq<TopologyEntry>, name: Seq<char>) -> bool {
    exists|j: int| 0 <= j < t.len() && (#[trigger] t[j]).node@ == name
}

/// The entry the configuration holds for this node name.
pub open spec fn topology_entry_for(t: Seq<TopologyEntry>, name: Seq<char>) -> TopologyEntry {
    t[choose|j: int| 0 <= j < t.len() && (#[trigger] t[j]).node@ == name]
}

/// One of the first `upto` members of the list bears this name.
pub open spec fn name_listed_upto(node_ids: Seq<String>, upto: int, name: Seq<char>) -> bool {
    exists|k: int| 0 <= k < upto && (#[trigger] node_ids[k])@ == name
}

/// Some entry of `known` tracks a peer with this name.
pub open spec fn peer_tracked(known: Seq<PeerKnowledge>, name: Seq<char>) -> bool {
    exists|j: int| 0 <= j < known.len() && (#[trigger] known[j]).peer@ == name
}

impl BroadcastNode {
    /// A peer with this name is tracked in `known`.
    pub open spec fn has_peer(self, name: Seq<char>) -> bool {
        peer_tracked(self.known@, name)
    }

    /// Well-formedness: no duplicate message, no duplicate knowledge, peers
    /// tracked once each, and every neighbor is a tracked peer.
    pub open spec fn wf(self) -> bool {
        &&& self.messages@.no_duplicates()
        &&& forall|j: int| 0 <= j < self.known@.len() ==> (#[trigger] self.known@[j]).seen@.no_duplicates()
        &&& forall|i: int, j: int|
            0 <= i < j < self.known@.len() ==> self.known@[i].peer@ != self.known@[j].peer@
        &&& forall|i: int| 0 <= i < self.neighborhood@.len() ==> self.has_peer((#[trigger] self.neighborhood@[i])@)
    }

    /// The fields every request-style reply owes to its request: `src` and
    /// `dest` swapped, correlation by `in_reply_to`, a fresh `msg_id`.
    pub open spec fn reply_head(pre: Self, req: Message<Payload>, r: Message<Payload>) -> bool {
        &&& r.src == req.dest
        &&& r.dest == req.src
        &&& r.body.msg_id == Some(pre.id)
        &&& r.body.in_reply_to == req.body.msg_id
    }

    /// Only the reply counter moved; every other field is untouched.
    pub open spec fn only_id_bumped(pre: Self, post: Self) -> bool {
        &&& post.node == pre.node
        &&& post.id == pre.id + 1
        &&& post.messages == pre.messages
        &&& post.known == pre.known
        &&& post.neighborhood == pre.neighborhood
    }

    /// What the values gossiped to a peer must satisfy, relative to the
    /// knowledge tracked for that peer: no duplicates, nothing the node does
    /// not hold, everything the peer is not known to hold, and a redundant
    /// remainder bounded by a tenth of the unknown count.
    pub open spec fn gossip_seen_ok(pre: Self, peer: Seq<char>, seen: Seq<usize>) -> bool {
        forall|j: int|
            0 <= j < pre.known@.len() && (#[trigger] pre.known@[j]).peer@ == peer ==> {
                let kn = pre.known@[j].seen@;
                &&& seen.no_duplicates()
                &&& (forall|x: usize| seen.contains(x) ==> pre.messages@.contains(x))
                &&& (forall|x: usize| pre.messages@.contains(x) && !kn.contains(x) ==> seen.contains(x))
                &&& redundant_count(seen, kn) <= unknown_count(pre.messages@, kn) / 10
                &&& redundant_count(seen, kn) <= pre.messages@.filter(known_pred(kn)).len()
            }
    }

    /// The fire-and-forget gossip envelope owed to one peer at a tick.
    pub open spec fn gossip_msg_ok(pre: Self, peer: String, m: Message<Payload>) -> bool {
        &&& m.src == pre.node
        &&& m.dest == peer
        &&& m.body.msg_id == None::<usize>
        &&& m.body.in_reply_to == None::<usize>
        &&& m.body.payload matches Payload::Gossip { seen } && Self::gossip_seen_ok(pre, peer@, seen@)
    }

    /// What receiving a topology configuration does: the node's own entry
    /// becomes the neighborhood and is acknowledged; a configuration without
    /// an entry for this node, or naming a peer outside the membership, is a
    /// fatal configuration error.
    pub open spec fn topology_spec(
        pre: Self,
        m: Message<Payload>,
        topology: Seq<TopologyEntry>,
        post: Self,
        out: Result<Vec<Message<Payload>>, NodeError>,
    ) -> bool {
        if !topology_has(topology, pre.node@) {
            &&& Self::only_id_bumped(pre, post)
            &&& out matches Err(e) && e == NodeError::MissingTopologyEntry
        } else {
            let entry = topology_entry_for(topology, pre.node@);
            if forall|k: int| 0 <= k < entry.neighbors@.len() ==> pre.has_peer((#[trigger] entry.neighbors@[k])@) {
                &&& post.node == pre.node
                &&& post.id == pre.id + 1
                &&& post.messages == pre.messages
                &&& post.known == pre.known
                &&& post.neighborhood == entry.neighbors
                &&& out matches Ok(v) && v@.len() == 1 && Self::reply_head(pre, m, v@[0])
                    && v@[0].body.payload is TopologyOk
            } else {
                &&& Self::only_id_bumped(pre, post)
                &&& out matches Err(e) && e == NodeError::UnknownNeighbor
            }
        }
    }

    /// What receiving gossip does: the sender now provably knows the values
    /// it sent, and this node merges them into its own; no reply is owed.
    /// Gossip from a node outside the membership is a fatal error.
    pub open spec fn gossip_receive_spec(
        pre: Self,
        m: Message<Payload>,
        seen: Seq<usize>,
        post: Self,
        out: Result<Vec<Message<Payload>>, NodeError>,
    ) -> bool {
        &&& post.node == pre.node
        &&& post.id == pre.id + 1
        &&& post.neighborhood == pre.neighborhood
        &&& if pre.has_peer(m.src@) {
            &&& out matches Ok(v) && v@.len() == 0
            &&& merged(pre.messages@, seen, post.messages@)
            &&& post.known@.len() == pre.known@.len()
            &&& forall|j: int| 0 <= j < pre.known@.len() ==> {
                let pk = (#[trigger] pre.known@[j]);
                let qk = post.known@[j];
                &&& qk.peer == pk.peer
                &&& (if pk.peer@ == m.src@ {
                    merged(pk.seen@, seen, qk.seen@)
                } else {
                    qk == pk
                })
            }
        } else {
            &&& out matches Err(e) && e == NodeError::UnknownGossipSender
            &&& post.messages == pre.messages
            &&& post.known == pre.known
        }
    }

    /// What consuming one external message does, per payload kind.
    pub open spec fn message_spec(
        pre: Self,
        m: Message<Payload>,
        post: Self,
        out: Result<Vec<Message<Payload>>, NodeError>,
    ) -> bool {
        match m.body.payload {
            Payload::Broadcast { message } => {
                &&& post.node == pre.node
                &&& post.id == pre.id + 1
                &&& post.known == pre.known
                &&& post.neighborhood == pre.neighborhood
                &&& post.messages@ == (if pre.messages@.contains(message) {
                    pre.messages@
                } else {
                    pre.messages@.push(message)
                })
                &&& out matches Ok(v) && v@.len() == 1 && Self::reply_head(pre, m, v@[0])
                    && v@[0].body.payload is BroadcastOk
            },
            Payload::Read => {
                &&& Self::only_id_bumped(pre, post)
                &&& out matches Ok(v) && v@.len() == 1 && Self::reply_head(pre, m, v@[0])
                    && (v@[0].body.payload matches Payload::ReadOk { messages: ms } && ms@ == pre.messages@)
            },
            Payload::Topology { topology } => Self::topology_spec(pre, m, topology@, post, out),
            Payload::Gossip { seen } => Self::gossip_receive_spec(pre, m, seen@, post, out),
            _ => {
                &&& Self::only_id_bumped(pre, post)
                &&& out matches Ok(v) && v@.len() == 0
            },
        }
    }

    /// What consuming one event does: end of input and acknowledgement
    /// payloads are absorbed, a timer tick gossips to every neighbor, and an
    /// external message is dispatched by payload kind.
    pub open spec fn step_spec(
        pre: Self,
        input: Event<Payload, InjectedPayload>,
        post: Self,
        out: Result<Vec<Message<Payload>>, NodeError>,
    ) -> bool {
        match input {
            Event::EOF => {
                &&& post == pre
                &&& out matches Ok(v) && v@.len() == 0
            },
            Event::Injected(InjectedPayload::Gossip) => {
                &&& post == pre
                &&& out matches Ok(v) && v@.len() == pre.neighborhood@.len()
                    && (forall|i: int|
                        0 <= i < v@.len() ==> Self::gossip_msg_ok(pre, pre.neighborhood@[i], #[trigger] v@[i]))
            },
            Event::Message(m) => Self::message_spec(pre, m, post, out),
        }
    }

    /// When the node can service an event: a well-formed state, room in the
    /// reply counter, and a topology configuration without duplicate keys.
    pub open spec fn step_req_spec(pre: Self, input: Event<Payload, InjectedPayload>) -> bool {
        &&& pre.wf()
        &&& pre.id < usize::MAX
        &&& match input {
            Event::Message(m) => match m.body.payload {
                Payload::Topology { topology } => topology_distinct(topology@),
                _ => true,
            },
            _ => true,
        }
    }

    /// The freshly initialized node: empty knowledge, one tracked peer per
    /// distinct member of the cluster, no neighborhood yet.
    pub open spec fn init_spec(init: Init, n: Self) -> bool {
        &&& n.wf()
        &&& n.node == init.node_id
        &&& n.id == 1
        &&& n.messages@.len() == 0
        &&& n.neighborhood@.len() == 0
        &&& forall|j: int| 0 <= j < n.known@.len() ==> (#[trigger] n.known@[j]).seen@.len() == 0
        &&& forall|k: int| 0 <= k < init.node_ids@.len() ==> n.has_peer((#[trigger] init.node_ids@[k])@)
        &&& forall|j: int|
            0 <= j < n.known@.len() ==> name_listed_upto(
                init.node_ids@,
                init.node_ids@.len() as int,
                (#[trigger] n.known@[j]).peer@,
            )
    }

    /// One anti-entropy tick: one gossip envelope per neighbor, each built by
    /// [`gossip_payload`] against the knowledge tracked for that neighbor.
    pub fn gossip_tick(&self) -> (out: Vec<Message<Payload>>)
        requires
            self.wf(),
        ensures
            out@.len() == self.neighborhood@.len(),
            forall|i: int|
                0 <= i < out@.len() ==> Self::gossip_msg_ok(*self, self.neighborhood@[i], #[trigger] out@[i]),
    {
        let mut out: Vec<Message<Payload>> = Vec::new();
        let mut i: usize = 0;
        while i < self.neighborhood.len()
            invariant
                self.wf(),
                i <= self.neighborhood@.len(),
                out@.len() == i,
                forall|t: int|
                    0 <= t < i ==> Self::gossip_msg_ok(*self, self.neighborhood@[t], #[trigger] out@[t]),
            decreases self.neighborhood@.len() - i,
        {
            let jopt = find_peer(&self.known, &self.neighborhood[i]);
            proof {
                if jopt is None {
                    assert(self.has_peer((self.neighborhood@[i as int])@));
                    assert(false);
                }
            }
            let j = match jopt {
                Some(j) => j,
                None => 0,
            };
            let seen = gossip_payload(&self.messages, &self.known[j].seen);
            let msg = Message::<Payload> {
                src: self.node.clone(),
                dest: self.neighborhood[i].clone(),
                body: Body { msg_id: None, in_reply_to: None, payload: Payload::Gossip { seen } },
            };
            proof {
                assert forall|j2: int|
                    0 <= j2 < self.known@.len() && (#[trigger] self.known@[j2]).peer@
                        == (self.neighborhood@[i as int])@ implies j2 == j as int by {
                    if j2 != j as int {
                        assert(self.known@[j2].peer@ != self.known@[j as int].peer@);
                    }
                }
                assert(Self::gossip_msg_ok(*self, self.neighborhood@[i as int], msg));
            }
            out.push(msg);
            i = i + 1;
        }
        out
    }
}

/// An element-for-element copy of a vector of message identifiers.
pub fn copy_values(v: &Vec<usize>) -> (r: Vec<usize>)
    ensures
        r@ == v@,
{
    let mut r: Vec<usize> = Vec::new();
    let mut i: usize = 0;
    while i < v.len()
        invariant
            i <= v@.len(),
            r@ == v@.take(i as int),
        decreases v@.len() - i,
    {
        r.push(v[i]);
        proof {
            assert(v@.take(i + 1) =~= v@.take(i as int).push(v@[i as int]));
        }
        i = i + 1;
    }
    proof {
        assert(v@.take(v@.len() as int) =~= v@);
    }
    r
}

impl Node<(), Payload, InjectedPayload> for BroadcastNode {
    open spec fn init_req(state: (), init: Init) -> bool {
        true
    }

    open spec fn init_ens(state: (), init: Init, r: Result<Self, NodeError>) -> bool {
        r matches Ok(n) && Self::init_spec(init, n)
    }

    open spec fn step_req(pre: Self, input: Event<Payload, InjectedPayload>) -> bool {
        Self::step_req_spec(pre, input)
    }

    open spec fn step_ens(
        pre: Self,
        input: Event<Payload, InjectedPayload>,
        post: Self,
        out: Result<Vec<Message<Payload>>, NodeError>,
    ) -> bool {
        Self::step_spec(pre, input, post, out) && post.wf()
    }

    fn from_init(state: (), init: Init) -> (r: Result<Self, NodeError>) {
        let Init { node_id, node_ids } = init;
        let mut known: Vec<PeerKnowledge> = Vec::new();
        let mut i: usize = 0;
        while i < node_ids.len()
            invariant
                i <= node_ids@.len(),
                forall|a: int, b: int| 0 <= a < b < known@.len() ==> known@[a].peer@ != known@[b].peer@,
                forall|j: int| 0 <= j < known@.len() ==> (#[trigger] known@[j]).seen@.len() == 0,
                forall|k: int| 0 <= k < i ==> peer_tracked(known@, (#[trigger] node_ids@[k])@),
                forall|j: int|
                    0 <= j < known@.len() ==> name_listed_upto(
                        node_ids@,
                        i as int,
                        (#[trigger] known@[j]).peer@,
                    ),
            decreases node_ids@.len() - i,
        {
            let ghost known0 = known@;
            match find_peer(&known, &node_ids[i]) {
                None => {
                    known.push(PeerKnowledge { peer: node_ids[i].clone(), seen: Vec::new() });
                    proof {
                        assert forall|k: int| 0 <= k < i + 1 implies peer_tracked(
                            known@,
                            (#[trigger] node_ids@[k])@,
                        ) by {
                            if k < i {
                                let w = choose|w: int|
                                    0 <= w < known0.len() && (#[trigger] known0[w]).peer@
                                        == (node_ids@[k])@;
                                assert(known@[w].peer@ == (node_ids@[k])@);
                            } else {
                                assert(known@[known@.len() - 1].peer@ == (node_ids@[i as int])@);
                            }
                        }
                    }
                    proof {
                        assert forall|j: int| 0 <= j < known@.len() implies name_listed_upto(
                            node_ids@,
                            i + 1,
                            (#[trigger] known@[j]).peer@,
                        ) by {
                            if j < known@.len() - 1 {
                                assert(known@[j] == known0[j]);
                                let w = choose|w: int|
                                    0 <= w < i && (#[trigger] node_ids@[w])@ == known0[j].peer@;
                                assert((node_ids@[w])@ == known@[j].peer@);
                            } else {
                                assert(known@[j].peer@ == (node_ids@[i as int])@);
                            }
                        }
                    }
                },
                Some(w) => {
                    proof {
                        assert(known@[w as int].peer@ == (node_ids@[i as int])@);
                        assert forall|k: int| 0 <= k < i + 1 implies peer_tracked(
                            known@,
                            (#[trigger] node_ids@[k])@,
                        ) by {}
                        assert forall|j: int| 0 <= j < known@.len() implies name_listed_upto(
                            node_ids@,
                            i + 1,
                            (#[trigger] known@[j]).peer@,
                        ) by {
                            let w2 = choose|w2: int|
                                0 <= w2 < i && (#[trigger] node_ids@[w2])@ == known@[j].peer@;
                            assert((node_ids@[w2])@ == known@[j].peer@);
                        }
                    }
                },
            }
            i = i + 1;
        }
        let n = BroadcastNode {
            node: node_id,
            id: 1,
            messages: Vec::new(),
            known,
            neighborhood: Vec::new(),
        };
        proof {
            assert(n.wf());
            assert(node_ids == init.node_ids);
            assert forall|k: int|
                0 <= k < init.node_ids@.len() implies n.has_peer(
                (#[trigger] init.node_ids@[k])@,
            ) by {
                assert(peer_tracked(n.known@, (node_ids@[k])@));
            }
            assert(Self::init_spec(init, n));
        }
        Ok(n)
    }

    #[verifier::loop_isolation(false)]
    fn step(&mut self, input: Event<Payload, InjectedPayload>) -> (out: Result<
        Vec<Message<Payload>>,
        NodeError,
    >) {
        match input {
            Event::EOF => Ok(Vec::new()),
            Event::Injected(p) => match p {
                InjectedPayload::Gossip => Ok(self.gossip_tick()),
            },
            Event::Message(m) => {
                let reply = m.into_reply(&mut self.id);
                let Message { src: rsrc, dest: rdest, body } = reply;
                let Body { msg_id, in_reply_to, payload } = body;
                match payload {
                    Payload::Broadcast { message } => {
                        if !contains_value(&self.messages, message) {
                            proof {
                                lemma_push_no_dup(self.messages@, message);
                            }
                            self.messages.push(message);
                        }
                        let mut v: Vec<Message<Payload>> = Vec::new();
                        v.push(Message {
                            src: rsrc,
                            dest: rdest,
                            body: Body { msg_id, in_reply_to, payload: Payload::BroadcastOk },
                        });
                        Ok(v)
                    },
                    Payload::Read => {
                        let snapshot = copy_values(&self.messages);
                        let mut v: Vec<Message<Payload>> = Vec::new();
                        v.push(Message {
                            src: rsrc,
                            dest: rdest,
                            body: Body {
                                msg_id,
                                in_reply_to,
                                payload: Payload::ReadOk { messages: snapshot },
                            },
                        });
                        Ok(v)
                    },
                    Payload::Topology { topology } => {
                        let mut topo = topology;
                        match find_topology_entry(&topo, &self.node) {
                            None => Err(NodeError::MissingTopologyEntry),
                            Some(j) => {
                                let ghost topo0 = topo@;
                                let entry = topo.remove(j);
                                proof {
                                    assert forall|j2: int|
                                        0 <= j2 < topo0.len() && (#[trigger] topo0[j2]).node@
                                            == self.node@ implies j2 == j as int by {
                                        if j2 != j as int {
                                            assert(topo0[j2].node@ != topo0[j as int].node@);
                                        }
                                    }
                                    assert(topology_entry_for(topo0, self.node@) == entry);
                                }
                                let mut k: usize = 0;
                                while k < entry.neighbors.len()
                                    invariant
                                        k <= entry.neighbors@.len(),
                                        forall|t: int|
                                            0 <= t < k ==> (*old(self)).has_peer(
                                                (#[trigger] entry.neighbors@[t])@,
                                            ),
                                    decreases entry.neighbors@.len() - k,
                                {
                                    match find_peer(&self.known, &entry.neighbors[k]) {
                                        None => {
                                            proof {
                                                assert(!peer_tracked(
                                                    self.known@,
                                                    (entry.neighbors@[k as int])@,
                                                ));
                                                assert(!(forall|t: int|
                                                    0 <= t < entry.neighbors@.len()
                                                        ==> (*old(self)).has_peer(
                                                        (#[trigger] entry.neighbors@[t])@,
                                                    )));
                                            }
                                            return Err(NodeError::UnknownNeighbor);
                                        },
                                        Some(_) => {},
                                    }
                                    k = k + 1;
                                }
                                self.neighborhood = entry.neighbors;
                                proof {
                                    assert forall|t: int|
                                        0 <= t < self.neighborhood@.len() implies self.has_peer(
                                        (#[trigger] self.neighborhood@[t])@,
                                    ) by {
                                        assert((*old(self)).has_peer((self.neighborhood@[t])@));
                                    }
                                    assert(self.wf());
                                }
                                let mut v: Vec<Message<Payload>> = Vec::new();
                                v.push(Message {
                                    src: rsrc,
                                    dest: rdest,
                                    body: Body { msg_id, in_reply_to, payload: Payload::TopologyOk },
                                });
                                Ok(v)
                            },
                        }
                    },
                    Payload::Gossip { seen } => {
                        match find_peer(&self.known, &rdest) {
                            None => Err(NodeError::UnknownGossipSender),
                            Some(j) => {
                                let ghost pre_known = self.known@;
                                proof {
                                    assert(peer_tracked(pre_known, rdest@));
                                }
                                let mut entry = self.known.remove(j);
                                let ghost entry0 = entry;
                                proof {
                                    assert(entry0 == pre_known[j as int]);
                                }
                                merge_into(&mut entry.seen, &seen);
                                self.known.insert(j, entry);
                                proof {
                                    assert(self.known@ =~= pre_known.update(j as int, entry));
                                }
                                merge_into(&mut self.messages, &seen);
                                proof {
                                    assert forall|a: int, b: int|
                                        0 <= a < b < self.known@.len() implies self.known@[a].peer@
                                        != self.known@[b].peer@ by {
                                        assert(self.known@[a].peer == pre_known[a].peer);
                                        assert(self.known@[b].peer == pre_known[b].peer);
                                    }
                                    assert forall|t: int|
                                        0 <= t < self.neighborhood@.len() implies self.has_peer(
                                        (#[trigger] self.neighborhood@[t])@,
                                    ) by {
                                        assert((*old(self)).has_peer(
                                            ((*old(self)).neighborhood@[t])@,
                                        ));
                                        let w = choose|w: int|
                                            0 <= w < pre_known.len() && (#[trigger] pre_known[w]).peer@
                                                == ((*old(self)).neighborhood@[t])@;
                                        assert(self.known@[w].peer@ == (self.neighborhood@[t])@);
                                    }
                                    assert forall|j2: int|
                                        0 <= j2 < self.known@.len() implies (
                                        #[trigger] self.known@[j2]).seen@.no_duplicates() by {
                                        if j2 != j as int {
                                            assert(self.known@[j2] == pre_known[j2]);
                                        }
                                    }
                                    assert(self.wf());
                                }
                                Ok(Vec::new())
                            },
                        }
                    },
                    _ => Ok(Vec::new()),
                }
            },
        }
    }
}

/// Idempotence: applying the same broadcast value twice leaves `messages`
/// unchanged after the first application.
pub proof fn lemma_broadcast_idempotent(
    s0: BroadcastNode,
    s1: BroadcastNode,
    s2: BroadcastNode,
    m1: Message<Payload>,
    m2: Message<Payload>,
    out1: Result<Vec<Message<Payload>>, NodeError>,
    out2: Result<Vec<Message<Payload>>, NodeError>,
    value: usize,
)
    requires
        m1.body.payload == (Payload::Broadcast { message: value }),
        m2.body.payload == (Payload::Broadcast { message: value }),
        BroadcastNode::step_spec(s0, Event::Message(m1), s1, out1),
        BroadcastNode::step_spec(s1, Event::Message(m2), s2, out2),
    ensures
        s2.messages@ == s1.messages@,
{
    assert(s1.messages@.contains(value));
}

/// Monotonicity: no event ever removes an element from `messages` or from
/// the set tracked for any peer.
pub proof fn lemma_step_monotone(
    pre: BroadcastNode,
    input: Event<Payload, InjectedPayload>,
    post: BroadcastNode,
    out: Result<Vec<Message<Payload>>, NodeError>,
)
    requires
        BroadcastNode::step_spec(pre, input, post, out),
    ensures
        forall|x: usize| pre.messages@.contains(x) ==> post.messages@.contains(x),
        post.known@.len() == pre.known@.len(),
        forall|j: int, x: usize|
            0 <= j < pre.known@.len() && (#[trigger] pre.known@[j].seen@.contains(x))
                ==> post.known@[j].seen@.contains(x),
{
    match input {
        Event::Message(m) => match m.body.payload {
            Payload::Gossip { seen } => {
                if pre.has_peer(m.src@) {
                    assert forall|j: int, x: usize|
                        0 <= j < pre.known@.len() && (#[trigger] pre.known@[j].seen@.contains(x))
                            implies post.known@[j].seen@.contains(x) by {
                        assert(post.known@[j].peer == pre.known@[j].peer);
                    }
                }
            },
            _ => {},
        },
        _ => {},
    }
}

/// Convergence across one delivered tick: when node `a`'s anti-entropy tick
/// produced envelope `m` for the peer `b`, `a`'s belief about `b` is
/// accurate (everything believed known is indeed held by `b`), and `b`
/// consumed `m`, then `b` ends up holding exactly the union of both message
/// sets. Iterated along a connected neighborhood graph, this is what drives
/// every node to the union of all broadcast values.
pub proof fn lemma_tick_delivery_converges(
    a: BroadcastNode,
    b: BroadcastNode,
    b_post: BroadcastNode,
    peer: String,
    m: Message<Payload>,
    out: Result<Vec<Message<Payload>>, NodeError>,
    j: int,
)
    requires
        0 <= j < a.known@.len(),
        a.known@[j].peer@ == peer@,
        peer@ == b.node@,
        forall|x: usize| a.known@[j].seen@.contains(x) ==> b.messages@.contains(x),
        BroadcastNode::gossip_msg_ok(a, peer, m),
        b.has_peer(m.src@),
        BroadcastNode::step_spec(b, Event::Message(m), b_post, out),
    ensures
        forall|x: usize|
            b_post.messages@.contains(x) <==> a.messages@.contains(x) || b.messages@.contains(x),
{
    match m.body.payload {
        Payload::Gossip { seen } => {
            assert(BroadcastNode::gossip_seen_ok(a, peer@, seen@));
            assert(a.known@[j].peer@ == peer@);
            lemma_gossip_exchange(a.messages@, a.known@[j].seen@, b.messages@, seen@, b_post.messages@);
        },
        _ => {
            assert(false);
        },
    }
}

/// Convergence, one delivered exchange: when the sender's belief about the
/// receiver is accurate (everything believed known is indeed held by the
/// receiver), one delivered gossip payload leaves the receiver holding the
/// union of both message sets. The payload clauses below are exactly what
/// [`gossip_payload`] guarantees, and the merge clause is what receiving
/// gossip guarantees.
pub proof fn lemma_gossip_exchange(
    sender_msgs: Seq<usize>,
    believed_known: Seq<usize>,
    receiver_msgs: Seq<usize>,
    seen: Seq<usize>,
    receiver_after: Seq<usize>,
)
    requires
        forall|x: usize| believed_known.contains(x) ==> receiver_msgs.contains(x),
        forall|x: usize| seen.contains(x) ==> sender_msgs.contains(x),
        forall|x: usize| sender_msgs.contains(x) && !believed_known.contains(x) ==> seen.contains(x),
        merged(receiver_msgs, seen, receiver_after),
    ensures
        forall|x: usize|
            receiver_after.contains(x) <==> sender_msgs.contains(x) || receiver_msgs.contains(x),
{
}

} // verus!
