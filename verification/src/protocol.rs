use vstd::prelude::*;

verus! {

/// One routed unit: where it came from, where it goes, and the payload.
/// `src` and `dest` are routing metadata only; a message is never changed
/// after it is built.
#[derive(Debug, PartialEq)]
pub struct Message {
    pub src: String,
    pub dest: String,
    pub body: Body,
}

/// The closed set of payloads a node exchanges. Request-shaped variants carry
/// a caller-assigned `msg_id`; response-shaped variants carry `in_reply_to`
/// equal to the request's `msg_id`. A broadcast's `msg_id` is absent when the
/// message is a peer relay rather than a direct client request.
#[derive(Debug, PartialEq)]
#[allow(inconsistent_fields)]
pub enum Body {
    Echo { msg_id: usize, echo: String },
    EchoOk { msg_id: usize, echo: String, in_reply_to: usize },
    Init { msg_id: usize, node_id: String, node_ids: Vec<String> },
    InitOk { in_reply_to: usize },
    Generate { msg_id: usize },
    GenerateOk { id: String, in_reply_to: usize },
    Broadcast { msg_id: Option<usize>, message: usize },
    BroadcastOk { in_reply_to: usize },
    Read { msg_id: usize },
    ReadOk { in_reply_to: usize, messages: Vec<usize> },
    Topology { msg_id: usize, topology: Vec<(String, Vec<String>)> },
    TopologyOk { in_reply_to: usize },
}

/// Mathematical image of a `Body`: strings become character sequences and
/// vectors become sequences, so contracts can speak of values alone.
#[verifier::ext_equal]
#[allow(inconsistent_fields)]
pub ghost enum BodyView {
    Echo { msg_id: usize, echo: Seq<char> },
    EchoOk { msg_id: usize, echo: Seq<char>, in_reply_to: usize },
    Init { msg_id: usize, node_id: Seq<char>, node_ids: Seq<Seq<char>> },
    InitOk { in_reply_to: usize },
    Generate { msg_id: usize },
    GenerateOk { id: Seq<char>, in_reply_to: usize },
    Broadcast { msg_id: Option<usize>, message: usize },
    BroadcastOk { in_reply_to: usize },
    Read { msg_id: usize },
    ReadOk { in_reply_to: usize, messages: Seq<usize> },
    Topology { msg_id: usize, topology: Seq<(Seq<char>, Seq<Seq<char>>)> },
    TopologyOk { in_reply_to: usize },
}

/// Mathematical image of a `Message`.
#[verifier::ext_equal]
pub ghost struct MessageView {
    pub src: Seq<char>,
    pub dest: Seq<char>,
    pub body: BodyView,
}

impl View for Body {
    type V = BodyView;

    open spec fn view(&self) -> BodyView {
        match self {
            Body::Echo { msg_id, echo } => BodyView::Echo { msg_id: *msg_id, echo: echo@ },
            Body::EchoOk { msg_id, echo, in_reply_to } => BodyView::EchoOk {
                msg_id: *msg_id,
                echo: echo@,
                in_reply_to: *in_reply_to,
            },
            Body::Init { msg_id, node_id, node_ids } => BodyView::Init {
                msg_id: *msg_id,
                node_id: node_id@,
                node_ids: node_ids.deep_view(),
            },
            Body::InitOk { in_reply_to } => BodyView::InitOk { in_reply_to: *in_reply_to },
            Body::Generate { msg_id } => BodyView::Generate { msg_id: *msg_id },
            Body::GenerateOk { id, in_reply_to } => BodyView::GenerateOk {
                id: id@,
                in_reply_to: *in_reply_to,
            },
            Body::Broadcast { msg_id, message } => BodyView::Broadcast {
                msg_id: *msg_id,
                message: *message,
            },
            Body::BroadcastOk { in_reply_to } => BodyView::BroadcastOk {
                in_reply_to: *in_reply_to,
            },
            Body::Read { msg_id } => BodyView::Read { msg_id: *msg_id },
            Body::ReadOk { in_reply_to, messages } => BodyView::ReadOk {
                in_reply_to: *in_reply_to,
                messages: messages@,
            },
            Body::Topology { msg_id, topology } => BodyView::Topology {
                msg_id: *msg_id,
                topology: topology.deep_view(),
            },
            Body::TopologyOk { in_reply_to } => BodyView::TopologyOk {
                in_reply_to: *in_reply_to,
            },
        }
    }
}

impl View for Message {
    type V = MessageView;

    open spec fn view(&self) -> MessageView {
        MessageView { src: self.src@, dest: self.dest@, body: self.body@ }
    }
}

impl DeepView for Body {
    type V = BodyView;

    open spec fn deep_view(&self) -> BodyView {
        self.view()
    }
}

impl DeepView for Message {
    type V = MessageView;

    open spec fn deep_view(&self) -> MessageView {
        self.view()
    }
}

} // verus!
