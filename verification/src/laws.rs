use vstd::prelude::*;
use crate::node::NodeView;
use crate::node::generate_id;
use crate::numeral::decimal_of;
use crate::numeral::lemma_decimal_injective;
use crate::protocol::BodyView;
use crate::protocol::MessageView;

verus! {

/// A sequence is a prefix of itself.
proof fn lemma_prefix_self<A>(s: Seq<A>)
    ensures
        s.is_prefix_of(s),
{
    assert(s.subrange(0, s.len() as int) =~= s);
}

/// A sequence is a prefix of itself extended by one value.
proof fn lemma_prefix_push<A>(s: Seq<A>, x: A)
    ensures
        s.is_prefix_of(s.push(x)),
{
    assert(s.push(x).subrange(0, s.len() as int) =~= s);
}

/// Duplicate suppression: once a broadcast of `m` has been handled, handling
/// any further broadcast of `m` — from any source, with or without a direct
/// `msg_id` — changes nothing and emits nothing. This is the mechanism that
/// terminates the flood.
pub proof fn lemma_duplicate_suppression(pre: NodeView, first: MessageView, second: MessageView, m: usize)
    requires
        first.body matches BodyView::Broadcast { message: m1, .. } && m1 == m,
        second.body matches BodyView::Broadcast { message: m2, .. } && m2 == m,
    ensures
        ({
            let mid = pre.step(first).0;
            &&& mid.step(second).0 == mid
            &&& mid.step(second).1 == Seq::<MessageView>::empty()
        }),
{
    let mid = pre.step(first).0;
    if pre.messages.contains(m) {
        assert(mid == pre);
    } else {
        assert(mid.messages == pre.messages.push(m));
        assert(mid.messages[mid.messages.len() - 1] == m);
        assert(mid.messages.contains(m));
    }
}

/// Acceptance is monotone: no step ever forgets a value; what was accepted
/// before a step is still there, in the same order, after it.
pub proof fn lemma_messages_monotone(pre: NodeView, msg: MessageView)
    ensures
        pre.messages.is_prefix_of(pre.step(msg).0.messages),
{
    match msg.body {
        BodyView::Broadcast { msg_id, message } => {
            if pre.messages.contains(message) {
                lemma_prefix_self(pre.messages);
            } else {
                lemma_prefix_push(pre.messages, message);
            }
        },
        _ => {
            lemma_prefix_self(pre.messages);
        },
    }
}

/// The local kernel of flood convergence: a node that receives a novel value
/// accepts it and relays it to each of its neighbors exactly once, in roster
/// order; when the broadcast came directly from a caller, one acknowledgment
/// closes the burst. Together with duplicate suppression this is why, on a
/// connected graph with lossless delivery, every node ends up holding the
/// value: each hop informs all neighbors of a newly informed node, and no
/// node relays the same value twice.
pub proof fn lemma_novel_broadcast_relays(
    pre: NodeView,
    src: Seq<char>,
    dest: Seq<char>,
    msg_id: Option<usize>,
    m: usize,
)
    requires
        !pre.messages.contains(m),
    ensures
        ({
            let msg = (MessageView {
                src,
                dest,
                body: BodyView::Broadcast { msg_id, message: m },
            });
            let post = pre.step(msg).0;
            let outs = pre.step(msg).1;
            &&& post.messages == pre.messages.push(m)
            &&& post.messages.contains(m)
            &&& post.id == pre.id
            &&& post.neighbors == pre.neighbors
            &&& outs.len() == pre.neighbors.len() + (match msg_id {
                Some(_) => 1int,
                None => 0int,
            })
            &&& forall|k: int|
                0 <= k < pre.neighbors.len() ==> outs[k] == (MessageView {
                    src: pre.id,
                    dest: pre.neighbors[k],
                    body: BodyView::Broadcast { msg_id: None, message: m },
                })
            &&& (msg_id matches Some(reply_to) ==> outs.last() == (MessageView {
                src: pre.id,
                dest: src,
                body: BodyView::BroadcastOk { in_reply_to: reply_to },
            }))
        }),
{
    let msg = MessageView { src, dest, body: BodyView::Broadcast { msg_id, message: m } };
    let post = pre.step(msg).0;
    assert(post.messages[post.messages.len() - 1] == m);
    assert(post.messages.contains(m));
}

/// Generate uniqueness: for one node identity, distinct request ids are
/// answered with distinct generated ids.
pub proof fn lemma_generate_unique(id: Seq<char>, a: usize, b: usize)
    requires
        a != b,
    ensures
        generate_id(id, a) != generate_id(id, b),
{
    let da = decimal_of(a as nat);
    let db = decimal_of(b as nat);
    lemma_decimal_injective(a as nat, b as nat);
    if generate_id(id, a) == generate_id(id, b) {
        assert(generate_id(id, a).len() == id.len() + 1 + da.len());
        assert(generate_id(id, b).len() == id.len() + 1 + db.len());
        assert(da.len() == db.len());
        assert forall|i: int| 0 <= i < da.len() implies da[i] == db[i] by {
            assert(generate_id(id, a)[id.len() + 1 + i] == da[i]);
            assert(generate_id(id, b)[id.len() + 1 + i] == db[i]);
        }
        assert(da =~= db);
        assert(false);
    }
}

} // verus!
