use vstd::prelude::*;
use vstd::seq_lib::*;
use vstd::string::StringExecFns;
use crate::numeral::decimal_of;
use crate::numeral::decimal_string;
use crate::protocol::Body;
use crate::protocol::BodyView;
use crate::protocol::Message;
use crate::protocol::MessageView;

verus! {

/// Mathematical image of a node: its identity, its neighbor roster in stored
/// order, and the broadcast values it has accepted, in order of acceptance.
#[verifier::ext_equal]
pub ghost struct NodeView {
    pub id: Seq<char>,
    pub neighbors: Seq<Seq<char>>,
    pub messages: Seq<usize>,
}

/// The unique id handed out for a `Generate` request: the node's identity,
/// a dash, and the request's `msg_id` in decimal.
pub open spec fn generate_id(id: Seq<char>, msg_id: usize) -> Seq<char> {
    id + seq!['-'] + decimal_of(msg_id as nat)
}

/// The neighbor roster a global adjacency map assigns to `id`: the entry of
/// the first pair whose key is `id`, if any.
pub open spec fn roster_lookup(
    topology: Seq<(Seq<char>, Seq<Seq<char>>)>,
    id: Seq<char>,
) -> Option<Seq<Seq<char>>>
    decreases topology.len(),
{
    if topology.len() == 0 {
        None
    } else if topology[0].0 == id {
        Some(topology[0].1)
    } else {
        roster_lookup(topology.drop_first(), id)
    }
}

impl NodeView {
    /// The accepted-value set holds each value at most once; it is the record
    /// that duplicate suppression consults, so a duplicate entry would mean a
    /// value had been fanned out twice.
    pub open spec fn wf(self) -> bool {
        self.messages.no_duplicates()
    }

    /// An envelope sent by this node.
    pub open spec fn outbound(self, dest: Seq<char>, body: BodyView) -> MessageView {
        MessageView { src: self.id, dest, body }
    }

    /// One relay of `message` to every neighbor, in roster order.
    pub open spec fn fan_out(self, message: usize) -> Seq<MessageView> {
        Seq::new(
            self.neighbors.len(),
            |i: int|
                self.outbound(
                    self.neighbors[i],
                    BodyView::Broadcast { msg_id: None, message },
                ),
        )
    }

    /// The dissemination step for one inbound broadcast of `message`: a value
    /// seen before is dropped without a word, which is the only mechanism that
    /// stops the flood; a novel value is accepted, relayed to every neighbor,
    /// and acknowledged to the sender exactly when the sender asked directly
    /// (`msg_id` present) rather than relaying in turn.
    pub open spec fn broadcast_step(
        self,
        src: Seq<char>,
        msg_id: Option<usize>,
        message: usize,
    ) -> (NodeView, Seq<MessageView>) {
        if self.messages.contains(message) {
            (self, Seq::<MessageView>::empty())
        } else {
            let post = NodeView { messages: self.messages.push(message), ..self };
            let relays = self.fan_out(message);
            let outs = match msg_id {
                Some(id) => relays.push(
                    self.outbound(src, BodyView::BroadcastOk { in_reply_to: id }),
                ),
                None => relays,
            };
            (post, outs)
        }
    }

    /// What one inbound envelope does to a node: the successor state and the
    /// envelopes sent in return, in order. Total over every body variant;
    /// response-shaped variants are ignored, and a topology map that lacks
    /// this node's identity leaves the roster as it was and answers nothing.
    pub open spec fn step(self, msg: MessageView) -> (NodeView, Seq<MessageView>) {
        match msg.body {
            BodyView::Echo { msg_id, echo } => (
                self,
                seq![
                    self.outbound(
                        msg.src,
                        BodyView::EchoOk {
                            msg_id: (msg_id + 1) as usize,
                            echo,
                            in_reply_to: msg_id,
                        },
                    )
                ],
            ),
            BodyView::Init { msg_id, node_id, node_ids } => {
                let post = NodeView { id: node_id, neighbors: node_ids, ..self };
                (post, seq![post.outbound(msg.src, BodyView::InitOk { in_reply_to: msg_id })])
            },
            BodyView::Generate { msg_id } => (
                self,
                seq![
                    self.outbound(
                        msg.src,
                        BodyView::GenerateOk {
                            id: generate_id(self.id, msg_id),
                            in_reply_to: msg_id,
                        },
                    )
                ],
            ),
            BodyView::Broadcast { msg_id, message } => self.broadcast_step(
                msg.src,
                msg_id,
                message,
            ),
            BodyView::Read { msg_id } => (
                self,
                seq![
                    self.outbound(
                        msg.src,
                        BodyView::ReadOk { in_reply_to: msg_id, messages: self.messages },
                    )
                ],
            ),
            BodyView::Topology { msg_id, topology } => match roster_lookup(topology, self.id) {
                Some(roster) => {
                    let post = NodeView { neighbors: roster, ..self };
                    (
                        post,
                        seq![post.outbound(msg.src, BodyView::TopologyOk { in_reply_to: msg_id })],
                    )
                },
                None => (self, Seq::<MessageView>::empty()),
            },
            _ => (self, Seq::<MessageView>::empty()),
        }
    }
}

/// The node's state: set up empty once, then mutated by `handle` alone.
pub struct Node {
    pub id: String,
    pub node_ids: Vec<String>,
    pub messages: Vec<usize>,
}

impl View for Node {
    type V = NodeView;

    open spec fn view(&self) -> NodeView {
        NodeView {
            id: self.id@,
            neighbors: self.node_ids.deep_view(),
            messages: self.messages@,
        }
    }
}

/// Whether `values` holds `x`.
fn contains_value(values: &Vec<usize>, x: usize) -> (found: bool)
    ensures
        found == values@.contains(x),
{
    let mut i: usize = 0;
    while i < values.len()
        invariant
            i <= values@.len(),
            forall|k: int| 0 <= k < i ==> values@[k] != x,
        decreases values@.len() - i,
    {
        if values[i] == x {
            return true;
        }
        i += 1;
    }
    false
}

/// A copy of a vector of strings, element for element.
fn clone_string_vec(values: &Vec<String>) -> (r: Vec<String>)
    ensures
        r.deep_view() == values.deep_view(),
{
    let mut r: Vec<String> = Vec::new();
    let mut i: usize = 0;
    while i < values.len()
        invariant
            i <= values@.len(),
            r@.len() == i,
            forall|k: int| 0 <= k < i ==> r@[k] == values@[k],
        decreases values@.len() - i,
    {
        r.push(values[i].clone());
        i += 1;
    }
    proof {
        assert forall|k: int| 0 <= k < values@.len() implies r.deep_view()[k]
            == values.deep_view()[k] by {
            assert(r@[k] == values@[k]);
        }
        assert(r.deep_view() =~= values.deep_view());
    }
    r
}

/// A copy of a vector of values, element for element.
fn clone_usize_vec(values: &Vec<usize>) -> (r: Vec<usize>)
    ensures
        r@ == values@,
{
    let mut r: Vec<usize> = Vec::new();
    let mut i: usize = 0;
    while i < values.len()
        invariant
            i <= values@.len(),
            r@ =~= values@.take(i as int),
        decreases values@.len() - i,
    {
        r.push(values[i]);
        i += 1;
    }
    proof {
        assert(r@ =~= values@);
    }
    r
}

/// The index of the first pair of `topology` keyed by `id`, if any; agrees
/// with `roster_lookup` on the views.
fn roster_get(topology: &Vec<(String, Vec<String>)>, id: &String) -> (r: Option<usize>)
    ensures
        match r {
            Some(i) => i < topology@.len() && roster_lookup(topology.deep_view(), id@)
                == Some(topology.deep_view()[i as int].1),
            None => roster_lookup(topology.deep_view(), id@) is None,
        },
{
    let ghost t = topology.deep_view();
    let mut i: usize = 0;
    while i < topology.len()
        invariant
            i <= t.len(),
            t =~= topology.deep_view(),
            forall|k: int| 0 <= k < i ==> t[k].0 != id@,
        decreases t.len() - i,
    {
        if topology[i].0 == *id {
            proof {
                lemma_roster_lookup_skip(t, id@, i as int);
                assert(t.skip(i as int)[0] == t[i as int]);
            }
            return Some(i);
        }
        i += 1;
    }
    proof {
        lemma_roster_lookup_skip(t, id@, t.len() as int);
        assert(t.skip(t.len() as int) =~= Seq::<(Seq<char>, Seq<Seq<char>>)>::empty());
    }
    None
}

/// Scanning past pairs whose key is not `id` does not change what the lookup
/// finds.
proof fn lemma_roster_lookup_skip(
    topology: Seq<(Seq<char>, Seq<Seq<char>>)>,
    id: Seq<char>,
    i: int,
)
    requires
        0 <= i <= topology.len(),
        forall|k: int| 0 <= k < i ==> topology[k].0 != id,
    ensures
        roster_lookup(topology, id) == roster_lookup(topology.skip(i), id),
    decreases i,
{
    if i > 0 {
        lemma_roster_lookup_skip(topology.drop_first(), id, i - 1);
        assert(topology.drop_first().skip(i - 1) =~= topology.skip(i));
    } else {
        assert(topology.skip(0) =~= topology);
    }
}

impl Default for Node {
    /// A fresh node, as `Node::new` builds it.
    fn default() -> (node: Node)
        ensures
            node@ == (NodeView {
                id: Seq::<char>::empty(),
                neighbors: Seq::<Seq<char>>::empty(),
                messages: Seq::<usize>::empty(),
            }),
            node@.wf(),
    {
        Node::new()
    }
}

impl Node {
    /// A fresh node: no identity, no neighbors, nothing accepted.
    pub fn new() -> (node: Node)
        ensures
            node@ == (NodeView {
                id: Seq::<char>::empty(),
                neighbors: Seq::<Seq<char>>::empty(),
                messages: Seq::<usize>::empty(),
            }),
            node@.wf(),
    {
        let node = Node { id: String::new(), node_ids: Vec::new(), messages: Vec::new() };
        proof {
            assert(node@ =~= NodeView {
                id: Seq::<char>::empty(),
                neighbors: Seq::<Seq<char>>::empty(),
                messages: Seq::<usize>::empty(),
            });
        }
        node
    }

    /// Handles one inbound envelope: mutates the state and returns the
    /// envelopes to send, exactly as `NodeView::step` says, in that order.
    pub fn handle(&mut self, msg: Message) -> (out: Vec<Message>)
        requires
            old(self)@.wf(),
            msg@.body matches BodyView::Echo { msg_id, .. } ==> msg_id < usize::MAX,
        ensures
            final(self)@ == old(self)@.step(msg@).0,
            out.deep_view() == old(self)@.step(msg@).1,
            final(self)@.wf(),
    {
        let ghost pre = self@;
        let ghost m0 = msg@;
        let Message { src, dest: _, body } = msg;
        match body {
            Body::Echo { msg_id, echo } => {
                let mut out: Vec<Message> = Vec::new();
                out.push(
                    Message {
                        src: self.id.clone(),
                        dest: src,
                        body: Body::EchoOk { msg_id: msg_id + 1, echo, in_reply_to: msg_id },
                    },
                );
                proof {
                    assert(out.deep_view() =~= pre.step(m0).1);
                }
                out
            },
            Body::Init { msg_id, node_id, node_ids } => {
                self.id = node_id;
                self.node_ids = node_ids;
                let mut out: Vec<Message> = Vec::new();
                out.push(
                    Message {
                        src: self.id.clone(),
                        dest: src,
                        body: Body::InitOk { in_reply_to: msg_id },
                    },
                );
                proof {
                    assert(self@ =~= pre.step(m0).0);
                    assert(out.deep_view() =~= pre.step(m0).1);
                }
                out
            },
            Body::Generate { msg_id } => {
                let digits = decimal_string(msg_id);
                let mut unique = self.id.clone();
                unique.append("-");
                unique.append(digits.as_str());
                proof {
                    reveal_strlit("-");
                    assert(unique@ =~= generate_id(pre.id, msg_id));
                }
                let mut out: Vec<Message> = Vec::new();
                out.push(
                    Message {
                        src: self.id.clone(),
                        dest: src,
                        body: Body::GenerateOk { id: unique, in_reply_to: msg_id },
                    },
                );
                proof {
                    assert(out.deep_view() =~= pre.step(m0).1);
                }
                out
            },
            Body::Broadcast { msg_id, message } => {
                if contains_value(&self.messages, message) {
                    let out: Vec<Message> = Vec::new();
                    proof {
                        assert(out.deep_view() =~= pre.step(m0).1);
                    }
                    out
                } else {
                    proof {
                        lemma_push_keeps_no_duplicates(pre.messages, message);
                    }
                    self.messages.push(message);
                    let mut out: Vec<Message> = Vec::new();
                    let mut i: usize = 0;
                    while i < self.node_ids.len()
                        invariant
                            i <= self.node_ids@.len(),
                            self@ == (NodeView { messages: pre.messages.push(message), ..pre }),
                            out@.len() == i,
                            forall|k: int| 0 <= k < i ==> out@[k].deep_view() == pre.fan_out(
                                message,
                            )[k],
                        decreases self.node_ids@.len() - i,
                    {
                        out.push(
                            Message {
                                src: self.id.clone(),
                                dest: self.node_ids[i].clone(),
                                body: Body::Broadcast { msg_id: None, message },
                            },
                        );
                        proof {
                            assert(out@[i as int].deep_view() =~= pre.fan_out(message)[i as int]);
                        }
                        i += 1;
                    }
                    proof {
                        assert(out.deep_view() =~= pre.fan_out(message));
                    }
                    if let Some(reply_id) = msg_id {
                        out.push(
                            Message {
                                src: self.id.clone(),
                                dest: src,
                                body: Body::BroadcastOk { in_reply_to: reply_id },
                            },
                        );
                    }
                    proof {
                        assert(out.deep_view() =~= pre.step(m0).1);
                    }
                    out
                }
            },
            Body::Read { msg_id } => {
                let snapshot = clone_usize_vec(&self.messages);
                let mut out: Vec<Message> = Vec::new();
                out.push(
                    Message {
                        src: self.id.clone(),
                        dest: src,
                        body: Body::ReadOk { in_reply_to: msg_id, messages: snapshot },
                    },
                );
                proof {
                    assert(out.deep_view() =~= pre.step(m0).1);
                }
                out
            },
            Body::Topology { msg_id, topology } => {
                match roster_get(&topology, &self.id) {
                    Some(hit) => {
                        self.node_ids = clone_string_vec(&topology[hit].1);
                        let mut out: Vec<Message> = Vec::new();
                        out.push(
                            Message {
                                src: self.id.clone(),
                                dest: src,
                                body: Body::TopologyOk { in_reply_to: msg_id },
                            },
                        );
                        proof {
                            assert(self@ =~= pre.step(m0).0);
                            assert(out.deep_view() =~= pre.step(m0).1);
                        }
                        out
                    },
                    None => {
                        let out: Vec<Message> = Vec::new();
                        proof {
                            assert(out.deep_view() =~= pre.step(m0).1);
                        }
                        out
                    },
                }
            },
            _ => {
                let out: Vec<Message> = Vec::new();
                proof {
                    assert(out.deep_view() =~= pre.step(m0).1);
                }
                out
            },
        }
    }
}

/// Appending a value a sequence does not hold keeps it duplicate-free.
proof fn lemma_push_keeps_no_duplicates(s: Seq<usize>, x: usize)
    requires
        s.no_duplicates(),
        !s.contains(x),
    ensures
        s.push(x).no_duplicates(),
{
    assert forall|i: int, j: int|
        0 <= i < s.push(x).len() && 0 <= j < s.push(x).len() && i != j implies s.push(x)[i]
        != s.push(x)[j] by {
        if i < s.len() && j < s.len() {
        } else if j == s.len() {
            assert(s[i] != x);
        } else {
            assert(s[j] != x);
        }
    }
}

} // verus!
