use proto::broadcast_node::{self as broadcast_svc, broadcast};
use proto::echo::{self, echo, handle_echo, FullMsg};
use proto::message::{decode, encode, frame, Body, DecodeError, Envelope, Msg};
use proto::node::{finish, handle, init_ctx, handshake, Ctx, Fatal, Init, Node};
use proto::unique_ids::{self, unique_ids};
use proto::wire::Value;

fn s(x: &str) -> String {
    x.to_string()
}

fn env(src: &str, dest: &str, fields: Vec<(&str, Value)>) -> Envelope {
    Envelope {
        src: s(src),
        dest: s(dest),
        body: fields.into_iter().map(|(k, v)| (s(k), v)).collect(),
    }
}

fn field<'a>(e: &'a Envelope, k: &str) -> Option<&'a Value> {
    e.body.iter().find(|(key, _)| key == k).map(|(_, v)| v)
}

fn init_msg(msg_id: i64, node_id: &str, node_ids: &[&str]) -> Envelope {
    env(
        "c1",
        node_id,
        vec![
            ("type", Value::Str(s("init"))),
            ("msg_id", Value::Int(msg_id)),
            ("node_id", Value::Str(s(node_id))),
            ("node_ids", Value::Strs(node_ids.iter().map(|x| s(x)).collect())),
        ],
    )
}

fn ready(node_id: &str, node_ids: &[&str]) -> Ctx {
    let mut c = handshake(&init_msg(1, node_id, node_ids)).unwrap();
    c.take_output();
    c
}

fn receive<P: proto::message::Payload>(c: Ctx, e: &Envelope) -> (Ctx, P) {
    match handle::<P>(Node::Ready(c), e) {
        Ok((c, Some(p))) => (c, p),
        _ => panic!("message was not accepted"),
    }
}

#[test]
fn handshake_answers_with_init_ok() {
    let e = init_msg(1, "n1", &["n1"]);
    let (mut c, p) = handle::<echo::Msg>(Node::Uninitialized, &e).unwrap();
    assert!(p.is_none());
    assert_eq!(c.node_id, "n1");
    assert_eq!(c.node_ids, vec![s("n1")]);
    let out = c.take_output();
    assert_eq!(out.len(), 1);
    assert_eq!(out[0].src, "n1");
    assert_eq!(out[0].dest, "c1");
    assert_eq!(field(&out[0], "type"), Some(&Value::Str(s("init_ok"))));
    assert_eq!(field(&out[0], "msg_id"), Some(&Value::Int(1)));
    assert_eq!(field(&out[0], "in_reply_to"), Some(&Value::Int(1)));
    assert_eq!(out[0].body.len(), 3);
}

#[test]
fn handshake_reply_answers_init_id() {
    let mut c = handshake(&init_msg(42, "n3", &["n1", "n2", "n3"])).unwrap();
    let out = c.take_output();
    assert_eq!(out.len(), 1);
    assert_eq!(field(&out[0], "in_reply_to"), Some(&Value::Int(42)));
    assert_eq!(field(&out[0], "msg_id"), Some(&Value::Int(1)));
    assert_eq!(c.count, 1);
}

#[test]
fn handshake_first_rejects_other_messages() {
    let e = env("c1", "n1", vec![("type", Value::Str(s("echo"))), ("msg_id", Value::Int(1)), ("echo", Value::Str(s("hi")))]);
    assert!(matches!(handshake(&e), Err(Fatal::Decode(DecodeError::Payload))));
    let e = env("c1", "n1", vec![("type", Value::Str(s("init_ok"))), ("in_reply_to", Value::Int(1))]);
    assert!(matches!(handshake(&e), Err(Fatal::Protocol)));
    let e = env("c1", "n1", vec![("msg_id", Value::Int(1))]);
    assert!(matches!(handshake(&e), Err(Fatal::Decode(DecodeError::Tag))));
}

#[test]
fn end_of_input_before_handshake_is_fatal() {
    assert!(matches!(finish(&Node::Uninitialized), Err(Fatal::Protocol)));
    assert!(finish(&Node::Ready(ready("n1", &["n1"]))).is_ok());
}

#[test]
fn echo_reply_after_handshake() {
    let c = ready("n1", &["n1"]);
    let e = env("c1", "n1", vec![("type", Value::Str(s("echo"))), ("msg_id", Value::Int(2)), ("echo", Value::Str(s("hi")))]);
    let (mut c, p) = receive::<echo::Msg>(c, &e);
    handle_echo(p, &mut c).unwrap();
    let out = c.take_output();
    assert_eq!(out.len(), 1);
    assert_eq!(out[0].src, "n1");
    assert_eq!(out[0].dest, "c1");
    assert_eq!(field(&out[0], "type"), Some(&Value::Str(s("echo_ok"))));
    assert_eq!(field(&out[0], "msg_id"), Some(&Value::Int(2)));
    assert_eq!(field(&out[0], "in_reply_to"), Some(&Value::Int(2)));
    assert_eq!(field(&out[0], "echo"), Some(&Value::Str(s("hi"))));
}

#[test]
fn outbound_id_follows_own_counter() {
    let c = ready("n1", &["n1"]);
    let e = env("c1", "n1", vec![("type", Value::Str(s("echo"))), ("msg_id", Value::Int(77)), ("echo", Value::Str(s("x")))]);
    let (mut c, p) = receive::<echo::Msg>(c, &e);
    handle_echo(p, &mut c).unwrap();
    let out = c.take_output();
    assert_eq!(field(&out[0], "msg_id"), Some(&Value::Int(2)));
    assert_eq!(field(&out[0], "in_reply_to"), Some(&Value::Int(77)));
}

#[test]
fn counter_ids_are_consecutive() {
    let mut c = handshake(&init_msg(1, "n1", &["n1", "n2"])).unwrap();
    for k in 0..5 {
        c.send("n2", broadcast_svc::Msg::Gossip { message: k });
    }
    c.reply(broadcast_svc::Msg::BroadcastOk);
    let out = c.take_output();
    assert_eq!(out.len(), 7);
    for (i, e) in out.iter().enumerate() {
        assert_eq!(field(e, "msg_id"), Some(&Value::Int(i as i64 + 1)));
    }
    c.send("n2", broadcast_svc::Msg::GossipOk);
    let out = c.take_output();
    assert_eq!(field(&out[0], "msg_id"), Some(&Value::Int(8)));
}

#[test]
fn send_carries_no_reply_to() {
    let mut c = ready("n1", &["n1", "n2"]);
    c.send("n2", broadcast_svc::Msg::Gossip { message: 3 });
    let out = c.take_output();
    assert_eq!(out[0].dest, "n2");
    assert_eq!(field(&out[0], "in_reply_to"), None);
}

#[test]
fn reply_correlates_with_current_message() {
    let c = ready("n1", &["n1"]);
    let e = env("c9", "n1", vec![("type", Value::Str(s("generate"))), ("msg_id", Value::Int(7))]);
    let (mut c, _p) = receive::<unique_ids::Msg>(c, &e);
    c.reply(unique_ids::Msg::GenerateOk { id: s("x") });
    let out = c.take_output();
    assert_eq!(out[0].dest, "c9");
    assert_eq!(field(&out[0], "in_reply_to"), Some(&Value::Int(7)));
}

#[test]
fn update_sets_current_message() {
    let c = ready("n1", &["n1"]);
    let mut c = c.update(Some(5), s("c4"));
    assert_eq!(c.src, "c4");
    assert_eq!(c.in_reply_to, Some(5));
    assert_eq!(c.count(), 2);
}

#[test]
fn generated_ids_are_distinct() {
    let mut c = ready("n1", &["n1"]);
    let mut counter: u64 = 0;
    unique_ids(unique_ids::Msg::Generate, &mut c, &mut counter).unwrap();
    unique_ids(unique_ids::Msg::Generate, &mut c, &mut counter).unwrap();
    assert_eq!(counter, 2);
    let out = c.take_output();
    assert_eq!(out.len(), 2);
    assert_eq!(field(&out[0], "type"), Some(&Value::Str(s("generate_ok"))));
    assert_eq!(field(&out[0], "id"), Some(&Value::Str(s("n1:0"))));
    assert_eq!(field(&out[1], "id"), Some(&Value::Str(s("n1:1"))));
    assert_ne!(field(&out[0], "id"), field(&out[1], "id"));
}

#[test]
fn unique_ids_formats_large_counter() {
    let mut c = ready("n7", &["n7"]);
    let mut counter: u64 = 1234567890;
    unique_ids(unique_ids::Msg::Generate, &mut c, &mut counter).unwrap();
    let out = c.take_output();
    assert_eq!(field(&out[0], "id"), Some(&Value::Str(s("n7:1234567890"))));
}

#[test]
fn unique_ids_rejects_other_payloads() {
    let mut c = ready("n1", &["n1"]);
    let mut counter: u64 = 3;
    let r = unique_ids(unique_ids::Msg::GenerateOk { id: s("a") }, &mut c, &mut counter);
    assert!(matches!(r, Err(Fatal::Protocol)));
    assert_eq!(counter, 3);
    assert!(c.take_output().is_empty());
}

#[test]
fn broadcast_fans_out_to_every_peer() {
    let c = ready("n1", &["n1", "n2", "n3"]);
    let e = env("c1", "n1", vec![("type", Value::Str(s("broadcast"))), ("msg_id", Value::Int(4)), ("message", Value::Int(5))]);
    let (mut c, p) = receive::<broadcast_svc::Msg>(c, &e);
    let mut store: Vec<i32> = Vec::new();
    broadcast(p, &mut c, &mut store).unwrap();
    let out = c.take_output();
    assert_eq!(out.len(), 3);
    assert_eq!(out[0].dest, "n2");
    assert_eq!(out[1].dest, "n3");
    for g in &out[0..2] {
        assert_eq!(field(g, "type"), Some(&Value::Str(s("gossip"))));
        assert_eq!(field(g, "message"), Some(&Value::Int(5)));
        assert_eq!(field(g, "in_reply_to"), None);
    }
    assert_eq!(field(&out[2], "type"), Some(&Value::Str(s("broadcast_ok"))));
    assert_eq!(field(&out[2], "in_reply_to"), Some(&Value::Int(4)));
    assert_eq!(out[2].dest, "c1");
    assert!(store.is_empty());
}

#[test]
fn fan_out_without_self_in_table() {
    let mut c = ready("n9", &["n1", "n2"]);
    let mut store: Vec<i32> = Vec::new();
    broadcast(broadcast_svc::Msg::Broadcast { message: -1 }, &mut c, &mut store).unwrap();
    let out = c.take_output();
    assert_eq!(out.len(), 3);
    assert_eq!(out[0].dest, "n1");
    assert_eq!(out[1].dest, "n2");
}

#[test]
fn gossip_is_stored_and_read_back() {
    let mut c = ready("n1", &["n1", "n2"]);
    let mut store: Vec<i32> = Vec::new();
    broadcast(broadcast_svc::Msg::Gossip { message: 10 }, &mut c, &mut store).unwrap();
    broadcast(broadcast_svc::Msg::Gossip { message: -3 }, &mut c, &mut store).unwrap();
    broadcast(broadcast_svc::Msg::GossipOk, &mut c, &mut store).unwrap();
    broadcast(broadcast_svc::Msg::Read, &mut c, &mut store).unwrap();
    assert_eq!(store, vec![10, -3]);
    let out = c.take_output();
    assert_eq!(out.len(), 3);
    assert_eq!(field(&out[0], "type"), Some(&Value::Str(s("gossip_ok"))));
    assert_eq!(field(&out[2], "type"), Some(&Value::Str(s("read_ok"))));
    assert_eq!(field(&out[2], "messages"), Some(&Value::Ints(vec![10, -3])));
}

#[test]
fn topology_is_acknowledged() {
    let mut c = ready("n1", &["n1"]);
    let mut store: Vec<i32> = Vec::new();
    let t = vec![(s("n1"), vec![s("n2")])];
    broadcast(broadcast_svc::Msg::Topology { topology: t }, &mut c, &mut store).unwrap();
    let out = c.take_output();
    assert_eq!(field(&out[0], "type"), Some(&Value::Str(s("topology_ok"))));
}

#[test]
fn broadcast_rejects_acknowledgements() {
    let mut c = ready("n1", &["n1"]);
    let mut store: Vec<i32> = vec![1];
    let r = broadcast(broadcast_svc::Msg::ReadOk { messages: vec![] }, &mut c, &mut store);
    assert!(matches!(r, Err(Fatal::Protocol)));
    assert_eq!(store, vec![1]);
    assert!(c.take_output().is_empty());
}

#[test]
fn round_trip_keeps_every_field() {
    let m = Msg {
        src: s("n1"),
        dst: s("n2"),
        body: Body { id: Some(9), reply_to: Some(4), msg: broadcast_svc::Msg::ReadOk { messages: vec![i32::MIN, 0, i32::MAX] } },
    };
    let back: Msg<broadcast_svc::Msg> = decode(&encode(&m)).unwrap();
    assert_eq!(back.src, "n1");
    assert_eq!(back.dst, "n2");
    assert_eq!(back.body.id, Some(9));
    assert_eq!(back.body.reply_to, Some(4));
    assert_eq!(back.body.msg, m.body.msg);

    let t = vec![(s("a"), vec![s("b"), s("c")]), (s("b"), vec![])];
    let m = Msg { src: s("x"), dst: s("y"), body: Body { id: None, reply_to: None, msg: broadcast_svc::Msg::Topology { topology: t } } };
    let e = encode(&m);
    assert_eq!(field(&e, "msg_id"), None);
    assert_eq!(field(&e, "in_reply_to"), None);
    let back: Msg<broadcast_svc::Msg> = decode(&e).unwrap();
    assert_eq!(back.body.id, None);
    assert_eq!(back.body.reply_to, None);
    assert_eq!(back.body.msg, m.body.msg);

    let m = Msg {
        src: s("c1"),
        dst: s("n1"),
        body: Body { id: Some(u32::MAX), reply_to: None, msg: Init::Init { node_id: s("n1"), node_ids: vec![s("n1"), s("n2")] } },
    };
    let back: Msg<Init> = decode(&encode(&m)).unwrap();
    assert_eq!(back.body.id, Some(u32::MAX));
    assert_eq!(back.body.msg, m.body.msg);
}

#[test]
fn decode_rejects_bad_ids_and_payloads() {
    let e = env("a", "b", vec![("type", Value::Str(s("echo"))), ("msg_id", Value::Int(-1)), ("echo", Value::Str(s("x")))]);
    assert!(matches!(decode::<echo::Msg>(&e), Err(DecodeError::Id)));
    let e = env("a", "b", vec![("type", Value::Str(s("echo"))), ("in_reply_to", Value::Int(1 << 32)), ("echo", Value::Str(s("x")))]);
    assert!(matches!(decode::<echo::Msg>(&e), Err(DecodeError::Id)));
    let e = env("a", "b", vec![("type", Value::Str(s("echo"))), ("msg_id", Value::Str(s("1"))), ("echo", Value::Str(s("x")))]);
    assert!(matches!(decode::<echo::Msg>(&e), Err(DecodeError::Id)));
    let e = env("a", "b", vec![("type", Value::Int(1))]);
    assert!(matches!(decode::<echo::Msg>(&e), Err(DecodeError::Tag)));
    let e = env("a", "b", vec![("type", Value::Str(s("echo")))]);
    assert!(matches!(decode::<echo::Msg>(&e), Err(DecodeError::Payload)));
    let e = env("a", "b", vec![("type", Value::Str(s("read_ok"))), ("messages", Value::Ints(vec![1, 1 << 40]))]);
    assert!(matches!(decode::<broadcast_svc::Msg>(&e), Err(DecodeError::Payload)));
    let e = env("a", "b", vec![("type", Value::Str(s("broadcast"))), ("message", Value::Int(1 << 31))]);
    assert!(matches!(decode::<broadcast_svc::Msg>(&e), Err(DecodeError::Payload)));
}

#[test]
fn decode_after_handshake_is_fatal_on_bad_line() {
    let c = ready("n1", &["n1"]);
    let e = env("c1", "n1", vec![("type", Value::Str(s("nope")))]);
    assert!(matches!(handle::<echo::Msg>(Node::Ready(c), &e), Err(Fatal::Decode(DecodeError::Payload))));
}

#[test]
fn echo_answers_with_same_text() {
    let r = echo(echo::Msg::Echo { echo: s("abc") }).unwrap();
    assert_eq!(r, echo::Msg::EchoOk { echo: s("abc") });
    assert!(matches!(echo(echo::Msg::EchoOk { echo: s("abc") }), Err(Fatal::Protocol)));
}

#[test]
fn full_msg_reply_swaps_addresses() {
    let m = FullMsg { src: s("c1"), dst: s("n1"), body: echo::Msg::Echo { echo: s("q") } };
    let r = m.reply(echo::Msg::EchoOk { echo: s("q") });
    assert_eq!(r.src, "n1");
    assert_eq!(r.dst, "c1");
    assert_eq!(r.body, echo::Msg::EchoOk { echo: s("q") });
}

#[test]
fn init_ctx_rejects_init_ok() {
    let m = Msg { src: s("c1"), dst: s("n1"), body: Body { id: Some(1), reply_to: None, msg: Init::InitOk } };
    assert!(matches!(init_ctx(&m), Err(Fatal::Protocol)));
    let m = Msg { src: s("c1"), dst: s("n1"), body: Body { id: Some(3), reply_to: None, msg: Init::Init { node_id: s("n1"), node_ids: vec![s("n1")] } } };
    let c = init_ctx(&m).unwrap();
    assert_eq!(c.count, 0);
    assert_eq!(c.src, "c1");
    assert_eq!(c.in_reply_to, Some(3));
}

#[test]
fn frame_appends_one_line_break() {
    let text = b"{\"a\":1}".to_vec();
    assert_eq!(frame(&text), Some(b"{\"a\":1}\n".to_vec()));
    assert_eq!(frame(&Vec::new()), Some(b"\n".to_vec()));
    assert_eq!(frame(&b"a\nb".to_vec()), None);
}

#[test]
fn topology_with_repeated_node_is_rejected() {
    let t = vec![(s("n1"), vec![s("n2")]), (s("n1"), vec![])];
    let e = env("c1", "n1", vec![("type", Value::Str(s("topology"))), ("topology", Value::Table(t))]);
    assert!(matches!(decode::<broadcast_svc::Msg>(&e), Err(DecodeError::Payload)));
    let t = vec![(s("n1"), vec![s("n2")]), (s("n2"), vec![s("n1")])];
    let e = env("c1", "n1", vec![("type", Value::Str(s("topology"))), ("topology", Value::Table(t))]);
    assert!(decode::<broadcast_svc::Msg>(&e).is_ok());
}

#[test]
fn empty_read_ok_decodes_from_either_list() {
    let e = env("a", "b", vec![("type", Value::Str(s("read_ok"))), ("messages", Value::Strs(vec![]))]);
    let m: Msg<broadcast_svc::Msg> = decode(&e).unwrap();
    assert_eq!(m.body.msg, broadcast_svc::Msg::ReadOk { messages: vec![] });
    let e = env("a", "b", vec![("type", Value::Str(s("read_ok"))), ("messages", Value::Strs(vec![s("x")]))]);
    assert!(matches!(decode::<broadcast_svc::Msg>(&e), Err(DecodeError::Payload)));
}

#[test]
fn single_node_broadcast_only_acknowledges() {
    let mut c = ready("n1", &["n1"]);
    let mut store: Vec<i32> = Vec::new();
    broadcast(broadcast_svc::Msg::Broadcast { message: 8 }, &mut c, &mut store).unwrap();
    let out = c.take_output();
    assert_eq!(out.len(), 1);
    assert_eq!(field(&out[0], "type"), Some(&Value::Str(s("broadcast_ok"))));
    assert!(store.is_empty());
}
