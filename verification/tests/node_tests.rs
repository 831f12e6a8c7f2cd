use dist_sys_rs::Body;
use dist_sys_rs::Message;
use dist_sys_rs::Node;

fn msg(src: &str, dest: &str, body: Body) -> Message {
    Message { src: src.to_string(), dest: dest.to_string(), body }
}

fn strings(names: &[&str]) -> Vec<String> {
    names.iter().map(|s| s.to_string()).collect()
}

fn init_node(node: &mut Node, id: &str, roster: &[&str]) {
    let out = node.handle(msg(
        "c0",
        id,
        Body::Init { msg_id: 0, node_id: id.to_string(), node_ids: strings(roster) },
    ));
    assert_eq!(out.len(), 1);
    assert_eq!(out[0].body, Body::InitOk { in_reply_to: 0 });
    assert_eq!(out[0].src, id.to_string());
    assert_eq!(out[0].dest, "c0".to_string());
}

#[test]
fn echo_round_trip() {
    let mut node = Node::new();
    init_node(&mut node, "n1", &[]);
    let out = node.handle(msg("c1", "n1", Body::Echo { msg_id: 10, echo: "hi".to_string() }));
    assert_eq!(out.len(), 1);
    assert_eq!(out[0].src, "n1".to_string());
    assert_eq!(out[0].dest, "c1".to_string());
    assert_eq!(
        out[0].body,
        Body::EchoOk { msg_id: 11, echo: "hi".to_string(), in_reply_to: 10 },
    );
}

#[test]
fn init_replaces_identity_and_roster() {
    let mut node = Node::new();
    init_node(&mut node, "n1", &["n2", "n3"]);
    assert_eq!(node.id, "n1".to_string());
    assert_eq!(node.node_ids, strings(&["n2", "n3"]));
}

#[test]
fn second_init_overwrites() {
    let mut node = Node::new();
    init_node(&mut node, "n1", &["n2"]);
    init_node(&mut node, "n5", &["n6", "n7"]);
    assert_eq!(node.id, "n5".to_string());
    assert_eq!(node.node_ids, strings(&["n6", "n7"]));
}

#[test]
fn generate_ids_unique() {
    let mut node = Node::new();
    init_node(&mut node, "n1", &[]);
    let out1 = node.handle(msg("c1", "n1", Body::Generate { msg_id: 1 }));
    let out2 = node.handle(msg("c1", "n1", Body::Generate { msg_id: 2 }));
    assert_eq!(out1.len(), 1);
    assert_eq!(out2.len(), 1);
    assert_eq!(out1[0].body, Body::GenerateOk { id: "n1-1".to_string(), in_reply_to: 1 });
    assert_eq!(out2[0].body, Body::GenerateOk { id: "n1-2".to_string(), in_reply_to: 2 });
}

#[test]
fn generate_renders_decimal() {
    let mut node = Node::new();
    init_node(&mut node, "n1", &[]);
    let out0 = node.handle(msg("c1", "n1", Body::Generate { msg_id: 0 }));
    assert_eq!(out0[0].body, Body::GenerateOk { id: "n1-0".to_string(), in_reply_to: 0 });
    let out = node.handle(msg("c1", "n1", Body::Generate { msg_id: 105 }));
    assert_eq!(out[0].body, Body::GenerateOk { id: "n1-105".to_string(), in_reply_to: 105 });
}

#[test]
fn duplicate_broadcast_suppressed() {
    let mut node = Node::new();
    init_node(&mut node, "n1", &["n2", "n3"]);
    let first = node.handle(msg("c1", "n1", Body::Broadcast { msg_id: Some(1), message: 5 }));
    assert_eq!(first.len(), 3);
    assert_eq!(first[0], msg("n1", "n2", Body::Broadcast { msg_id: None, message: 5 }));
    assert_eq!(first[1], msg("n1", "n3", Body::Broadcast { msg_id: None, message: 5 }));
    assert_eq!(first[2], msg("n1", "c1", Body::BroadcastOk { in_reply_to: 1 }));
    let relayed = node.handle(msg("n2", "n1", Body::Broadcast { msg_id: None, message: 5 }));
    assert_eq!(relayed.len(), 0);
    let direct = node.handle(msg("c2", "n1", Body::Broadcast { msg_id: Some(2), message: 5 }));
    assert_eq!(direct.len(), 0);
}

#[test]
fn relay_without_msg_id_gets_no_ack() {
    let mut node = Node::new();
    init_node(&mut node, "n1", &["n2"]);
    let out = node.handle(msg("n3", "n1", Body::Broadcast { msg_id: None, message: 8 }));
    assert_eq!(out.len(), 1);
    assert_eq!(out[0], msg("n1", "n2", Body::Broadcast { msg_id: None, message: 8 }));
}

#[test]
fn broadcast_with_empty_roster_only_acks() {
    let mut node = Node::new();
    init_node(&mut node, "n1", &[]);
    let out = node.handle(msg("c1", "n1", Body::Broadcast { msg_id: Some(9), message: 4 }));
    assert_eq!(out.len(), 1);
    assert_eq!(out[0], msg("n1", "c1", Body::BroadcastOk { in_reply_to: 9 }));
}

#[test]
fn read_reflects_accumulation() {
    let mut node = Node::new();
    init_node(&mut node, "n1", &[]);
    node.handle(msg("c1", "n1", Body::Broadcast { msg_id: Some(1), message: 7 }));
    node.handle(msg("c1", "n1", Body::Broadcast { msg_id: Some(2), message: 3 }));
    node.handle(msg("c1", "n1", Body::Broadcast { msg_id: Some(3), message: 7 }));
    let out = node.handle(msg("c1", "n1", Body::Read { msg_id: 4 }));
    assert_eq!(out.len(), 1);
    match &out[0].body {
        Body::ReadOk { in_reply_to, messages } => {
            assert_eq!(*in_reply_to, 4);
            let mut sorted = messages.clone();
            sorted.sort();
            assert_eq!(sorted, vec![3, 7]);
        }
        other => panic!("expected ReadOk, got {:?}", other),
    }
}

#[test]
fn read_on_fresh_node_is_empty() {
    let mut node = Node::new();
    init_node(&mut node, "n1", &[]);
    let out = node.handle(msg("c1", "n1", Body::Read { msg_id: 1 }));
    assert_eq!(out.len(), 1);
    assert_eq!(out[0].body, Body::ReadOk { in_reply_to: 1, messages: vec![] });
}

#[test]
fn topology_replaces_roster() {
    let mut node = Node::new();
    init_node(&mut node, "n1", &["nx"]);
    let topology = vec![
        ("n1".to_string(), strings(&["n2", "n3"])),
        ("n2".to_string(), strings(&["n1"])),
    ];
    let out = node.handle(msg("c1", "n1", Body::Topology { msg_id: 6, topology }));
    assert_eq!(out.len(), 1);
    assert_eq!(out[0], msg("n1", "c1", Body::TopologyOk { in_reply_to: 6 }));
    assert_eq!(node.node_ids, strings(&["n2", "n3"]));
}

#[test]
fn topology_without_this_node_keeps_roster() {
    let mut node = Node::new();
    init_node(&mut node, "n1", &["n2"]);
    let topology = vec![("n9".to_string(), strings(&["n1"]))];
    let out = node.handle(msg("c1", "n1", Body::Topology { msg_id: 6, topology }));
    assert_eq!(out.len(), 0);
    assert_eq!(node.node_ids, strings(&["n2"]));
    let relays = node.handle(msg("c1", "n1", Body::Broadcast { msg_id: None, message: 1 }));
    assert_eq!(relays.len(), 1);
    assert_eq!(relays[0].dest, "n2".to_string());
}

#[test]
fn responses_are_ignored() {
    let mut node = Node::new();
    init_node(&mut node, "n1", &["n2"]);
    let inputs = vec![
        Body::EchoOk { msg_id: 1, echo: "x".to_string(), in_reply_to: 0 },
        Body::InitOk { in_reply_to: 0 },
        Body::GenerateOk { id: "n2-1".to_string(), in_reply_to: 1 },
        Body::BroadcastOk { in_reply_to: 2 },
        Body::ReadOk { in_reply_to: 3, messages: vec![1, 2] },
        Body::TopologyOk { in_reply_to: 4 },
    ];
    for body in inputs {
        let out = node.handle(msg("n2", "n1", body));
        assert_eq!(out.len(), 0);
    }
    assert_eq!(node.id, "n1".to_string());
    assert_eq!(node.node_ids, strings(&["n2"]));
    assert_eq!(node.messages, Vec::<usize>::new());
}

#[test]
fn default_matches_new() {
    let node = Node::default();
    assert_eq!(node.id, String::new());
    assert!(node.node_ids.is_empty());
    assert!(node.messages.is_empty());
}

#[test]
fn broadcast_converges_on_connected_graph() {
    // A line n1 - n2 - n3 - n4, wired by Topology, one value introduced at n2:
    // delivering every relay must leave the value in every node's set.
    let ids = ["n1", "n2", "n3", "n4"];
    let adjacency = vec![
        ("n1".to_string(), strings(&["n2"])),
        ("n2".to_string(), strings(&["n1", "n3"])),
        ("n3".to_string(), strings(&["n2", "n4"])),
        ("n4".to_string(), strings(&["n3"])),
    ];
    let mut nodes: Vec<(String, Node)> = Vec::new();
    for id in ids {
        let mut node = Node::new();
        init_node(&mut node, id, &[]);
        let out = node.handle(msg(
            "c0",
            id,
            Body::Topology { msg_id: 1, topology: adjacency.clone() },
        ));
        assert_eq!(out.len(), 1);
        nodes.push((id.to_string(), node));
    }
    let mut in_flight = vec![msg("c1", "n2", Body::Broadcast { msg_id: Some(7), message: 42 })];
    let mut delivered = 0;
    while let Some(envelope) = in_flight.pop() {
        delivered += 1;
        assert!(delivered < 100, "the flood must quiesce");
        if let Some((_, node)) = nodes.iter_mut().find(|(id, _)| *id == envelope.dest) {
            let outs = node.handle(envelope);
            for out in outs {
                if matches!(out.body, Body::Broadcast { .. }) {
                    in_flight.push(out);
                }
            }
        }
    }
    for (id, node) in &nodes {
        assert!(node.messages.contains(&42), "{} never learned the value", id);
    }
}
