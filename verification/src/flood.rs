use vstd::prelude::*;
use vstd::multiset::Multiset;
use crate::node::NodeView;
use crate::protocol::BodyView;
use crate::protocol::MessageView;

verus! {

broadcast use vstd::multiset::group_multiset_axioms, vstd::seq_lib::group_to_multiset_ensures;

/// A gossiping system mid-flood: every node's state, keyed by identity, and
/// the multiset of broadcast envelopes the transport still has to deliver.
/// One delivery applies `NodeView::step` — the very transition `Node::handle`
/// is proved to implement — to the addressee.
#[verifier::ext_equal]
pub ghost struct Flood {
    pub nodes: Map<Seq<char>, NodeView>,
    pub relays: Multiset<MessageView>,
}

/// Whether envelope `r` is a broadcast of the value `m`.
pub open spec fn carries_value(r: MessageView, m: usize) -> bool {
    r.body matches BodyView::Broadcast { message, .. } && message == m
}

/// Whether envelope `r` is a broadcast of `m` on its way to `nb`.
pub open spec fn carries(r: MessageView, nb: Seq<char>, m: usize) -> bool {
    r.dest == nb && carries_value(r, m)
}

/// The system after the transport hands `msg` to its addressee: that node
/// takes its step, and everything the node sent joins the envelopes in
/// flight in place of the one delivered.
pub open spec fn deliver(pre: Flood, msg: MessageView) -> Flood {
    let stepped = pre.nodes[msg.dest].step(msg);
    Flood {
        nodes: pre.nodes.insert(msg.dest, stepped.0),
        relays: pre.relays.remove(msg).add(stepped.1.to_multiset()),
    }
}

/// Every neighbor of a node that knows `m` either knows `m` itself or has a
/// broadcast of `m` still on its way.
pub open spec fn informed_or_pending(w: Flood, nb: Seq<char>, m: usize) -> bool {
    w.nodes.contains_key(nb) ==> {
        ||| w.nodes[nb].messages.contains(m)
        ||| exists|r: MessageView| w.relays.contains(r) && carries(r, nb, m)
    }
}

/// The flood invariant for a value `m`: wherever `m` has been accepted, each
/// neighbor has been taken care of — it was informed already, or its relay
/// has not been delivered yet.
pub open spec fn inv(w: Flood, m: usize) -> bool {
    forall|id: Seq<char>, k: int|
        #![trigger w.nodes[id].neighbors[k]]
        (w.nodes.contains_key(id) && w.nodes[id].messages.contains(m) && 0 <= k
            && k < w.nodes[id].neighbors.len()) ==> informed_or_pending(
            w,
            w.nodes[id].neighbors[k],
            m,
        )
}

/// No broadcast of `m` is in flight any more: the flood of `m` has quiesced.
pub open spec fn quiescent(w: Flood, m: usize) -> bool {
    forall|r: MessageView| w.relays.contains(r) ==> !carries_value(r, m)
}

/// A walk through the gossip overlay: every stop is a node of the system and
/// each next stop is a neighbor of the one before.
pub open spec fn is_path(w: Flood, p: Seq<Seq<char>>) -> bool {
    &&& p.len() > 0
    &&& forall|i: int| 0 <= i < p.len() ==> w.nodes.contains_key(#[trigger] p[i])
    &&& forall|i: int|
        0 <= i < p.len() - 1 ==> w.nodes[#[trigger] p[i]].neighbors.contains(p[i + 1])
}

/// Before anyone has accepted `m` the flood invariant holds vacuously — in
/// particular in the state where a client's broadcast of `m` is the one
/// envelope in flight.
pub proof fn lemma_flood_initial_inv(w: Flood, m: usize)
    requires
        forall|id: Seq<char>|
            w.nodes.contains_key(id) ==> !(#[trigger] w.nodes[id]).messages.contains(m),
    ensures
        inv(w, m),
{
}

/// A sequence that contains `x` after a push either contained `x` before or
/// had `x` pushed.
proof fn lemma_push_contains<A>(s: Seq<A>, pushed: A, x: A)
    requires
        s.push(pushed).contains(x),
    ensures
        s.contains(x) || x == pushed,
{
    let i = choose|i: int| 0 <= i < s.push(pushed).len() && s.push(pushed)[i] == x;
    if i < s.len() {
        assert(s[i] == x);
    }
}

/// A sequence keeps a value it contains when another is pushed, and gains
/// the pushed one.
proof fn lemma_push_preserves_contains<A>(s: Seq<A>, pushed: A, x: A)
    requires
        s.contains(x) || x == pushed,
    ensures
        s.push(pushed).contains(x),
{
    if s.contains(x) {
        let i = choose|i: int| 0 <= i < s.len() && s[i] == x;
        assert(s.push(pushed)[i] == x);
    } else {
        assert(s.push(pushed)[s.len() as int] == x);
    }
}

/// The flood invariant survives any delivery of a broadcast envelope: the
/// addressee either knew the value — then it changes nothing and answers
/// nothing, and the envelope just leaves flight with its duty done — or it
/// accepts the value and puts one relay per neighbor into flight itself.
pub proof fn lemma_deliver_preserves_inv(pre: Flood, msg: MessageView, m: usize)
    requires
        inv(pre, m),
        pre.relays.contains(msg),
        msg.body matches BodyView::Broadcast { .. },
        pre.nodes.contains_key(msg.dest),
    ensures
        inv(deliver(pre, msg), m),
{
    let post = deliver(pre, msg);
    let d = msg.dest;
    let node = pre.nodes[d];
    let stepped = node.step(msg);
    let node2 = stepped.0;
    let outs = stepped.1;
    match msg.body {
        BodyView::Broadcast { msg_id: mid, message: mm } => {
            assert forall|id: Seq<char>, k: int|
                post.nodes.contains_key(id) && post.nodes[id].messages.contains(m) && 0 <= k
                    < post.nodes[id].neighbors.len() implies informed_or_pending(
                post,
                #[trigger] post.nodes[id].neighbors[k],
                m,
            ) by {
                let nb = post.nodes[id].neighbors[k];
                if id == d && !node.messages.contains(m) {
                    // The addressee is newly informed, so the value was novel
                    // and is the delivered one; its own fan-out covers nb.
                    assert(node2.messages == node.messages.push(mm));
                    lemma_push_contains(node.messages, mm, m);
                    assert(mm == m);
                    assert(node2.neighbors == node.neighbors);
                    let relay = (MessageView {
                        src: node.id,
                        dest: node.neighbors[k],
                        body: BodyView::Broadcast { msg_id: None, message: mm },
                    });
                    assert(node.fan_out(mm)[k] == relay);
                    assert(outs[k] == relay);
                    assert(outs.contains(relay));
                    assert(outs.to_multiset().contains(relay));
                    assert(post.relays.count(relay) > 0);
                    assert(carries(relay, nb, m));
                } else {
                    // The obligation already stood in `pre`; carry it over.
                    let owner = pre.nodes[id];
                    assert(post.nodes[id].neighbors == owner.neighbors);
                    assert(owner.messages.contains(m));
                    assert(owner.neighbors[k] == nb);
                    assert(informed_or_pending(pre, nb, m));
                    if pre.nodes.contains_key(nb) {
                        if pre.nodes[nb].messages.contains(m) {
                            // Whoever was informed stays informed.
                            if nb == d {
                                if node.messages.contains(mm) {
                                    assert(node2 == node);
                                } else {
                                    assert(node2.messages == node.messages.push(mm));
                                    lemma_push_preserves_contains(node.messages, mm, m);
                                }
                            }
                        } else {
                            let r = choose|r: MessageView|
                                pre.relays.contains(r) && carries(r, nb, m);
                            if r == msg {
                                // The pending relay is the one just delivered:
                                // its addressee is `d` and it carried `m`, so
                                // `d` is informed now.
                                assert(nb == d && mm == m);
                                if node.messages.contains(mm) {
                                    assert(node2 == node);
                                } else {
                                    assert(node2.messages == node.messages.push(mm));
                                    lemma_push_preserves_contains(node.messages, mm, m);
                                }
                            } else {
                                // A different pending relay is still in flight.
                                assert(Multiset::singleton(msg).count(r) == 0);
                                assert(post.relays.count(r) >= pre.relays.count(r));
                                assert(post.relays.contains(r));
                            }
                        }
                    }
                }
            }
        },
        _ => {
            assert(false);
        },
    }
}

/// The system after a sequence of deliveries, applied left to right.
pub open spec fn after_deliveries(w: Flood, msgs: Seq<MessageView>) -> Flood
    decreases msgs.len(),
{
    if msgs.len() == 0 {
        w
    } else {
        after_deliveries(deliver(w, msgs.first()), msgs.drop_first())
    }
}

/// Whether each delivery in turn is one the transport could make: the
/// envelope is in flight at that moment, is a broadcast, and is addressed to
/// a node of the system.
pub open spec fn deliveries_ok(w: Flood, msgs: Seq<MessageView>) -> bool
    decreases msgs.len(),
{
    msgs.len() == 0 || {
        &&& w.relays.contains(msgs.first())
        &&& msgs.first().body matches BodyView::Broadcast { .. }
        &&& w.nodes.contains_key(msgs.first().dest)
        &&& deliveries_ok(deliver(w, msgs.first()), msgs.drop_first())
    }
}

/// The flood invariant holds after any admissible sequence of deliveries, in
/// particular after the one that delivers everything and quiesces the flood.
pub proof fn lemma_deliveries_preserve_inv(w: Flood, msgs: Seq<MessageView>, m: usize)
    requires
        inv(w, m),
        deliveries_ok(w, msgs),
    ensures
        inv(after_deliveries(w, msgs), m),
    decreases msgs.len(),
{
    if msgs.len() > 0 {
        lemma_deliver_preserves_inv(w, msgs.first(), m);
        lemma_deliveries_preserve_inv(deliver(w, msgs.first()), msgs.drop_first(), m);
    }
}

/// Once the flood of `m` has quiesced, the informed nodes are closed under
/// the neighbor relation: along any path of the overlay that starts at an
/// informed node, every node has accepted `m`. On a connected overlay a path
/// leads from the node where `m` was introduced to each node of the system,
/// so this is convergence: one broadcast, fully delivered, informs everyone.
pub proof fn lemma_quiescent_flood_covers_path(w: Flood, m: usize, p: Seq<Seq<char>>)
    requires
        inv(w, m),
        quiescent(w, m),
        is_path(w, p),
        w.nodes[p[0]].messages.contains(m),
    ensures
        w.nodes[p.last()].messages.contains(m),
    decreases p.len(),
{
    if p.len() > 1 {
        let a = p[0];
        let b = p[1];
        assert(w.nodes[a].neighbors.contains(b));
        let k = choose|k: int| 0 <= k < w.nodes[a].neighbors.len() && w.nodes[a].neighbors[k] == b;
        assert(w.nodes[a].neighbors[k] == b);
        assert(informed_or_pending(w, b, m));
        assert(w.nodes[b].messages.contains(m));
        let rest = p.drop_first();
        assert(is_path(w, rest)) by {
            assert forall|i: int| 0 <= i < rest.len() implies w.nodes.contains_key(
                #[trigger] rest[i]) by {
                assert(rest[i] == p[i + 1]);
            }
            assert forall|i: int|
                0 <= i < rest.len() - 1 implies (#[trigger] w.nodes[rest[i]]).neighbors.contains(
                rest[i + 1]) by {
                assert(rest[i] == p[i + 1]);
                assert(rest[i + 1] == p[i + 2]);
            }
        }
        lemma_quiescent_flood_covers_path(w, m, rest);
        assert(rest.last() == p.last());
    }
}

} // verus!
