use vstd::prelude::*;

use crate::message::{MsgView, Payload, encode_spec, lemma_reserved_keys, reserved};
use crate::node::{Ctx, Fatal};
use crate::wire::{
    Field, Value, ValueView, copy_table, fields_view, find, keys_distinct, keys_unique,
    lemma_lookup_single, lookup, strs_view, table_view,
};

verus! {

/// The payloads of the broadcast service.
#[derive(Debug, PartialEq)]
pub enum Msg {
    Broadcast { message: i32 },
    BroadcastOk,
    /// Passes a broadcast value on to a peer.
    Gossip { message: i32 },
    GossipOk,
    Read,
    ReadOk { messages: Vec<i32> },
    Topology { topology: Vec<(String, Vec<String>)> },
    TopologyOk,
}

pub enum BroadcastView {
    Broadcast { message: i32 },
    BroadcastOk,
    Gossip { message: i32 },
    GossipOk,
    Read,
    ReadOk { messages: Seq<i32> },
    Topology { topology: Seq<(Seq<char>, Seq<Seq<char>>)> },
    TopologyOk,
}

impl View for Msg {
    type V = BroadcastView;

    open spec fn view(&self) -> BroadcastView {
        match self {
            Msg::Broadcast { message } => BroadcastView::Broadcast { message: *message },
            Msg::BroadcastOk => BroadcastView::BroadcastOk,
            Msg::Gossip { message } => BroadcastView::Gossip { message: *message },
            Msg::GossipOk => BroadcastView::GossipOk,
            Msg::Read => BroadcastView::Read,
            Msg::ReadOk { messages } => BroadcastView::ReadOk { messages: messages@ },
            Msg::Topology { topology } => BroadcastView::Topology { topology: table_view(topology@) },
            Msg::TopologyOk => BroadcastView::TopologyOk,
        }
    }
}

pub open spec fn widen(s: Seq<i32>) -> Seq<i64> {
    Seq::new(s.len(), |i: int| s[i] as i64)
}

pub open spec fn fits_i32(s: Seq<i64>) -> bool {
    forall|i: int| 0 <= i < s.len() ==> i32::MIN <= #[trigger] s[i] <= i32::MAX
}

pub open spec fn narrow(s: Seq<i64>) -> Seq<i32> {
    Seq::new(s.len(), |i: int| s[i] as i32)
}

pub open spec fn key_message() -> Seq<char> {
    "message"@
}

pub open spec fn key_messages() -> Seq<char> {
    "messages"@
}

pub open spec fn key_topology() -> Seq<char> {
    "topology"@
}

proof fn lemma_broadcast_strs()
    ensures
        !reserved(key_message()),
        !reserved(key_messages()),
        !reserved(key_topology()),
        "broadcast"@ != "broadcast_ok"@,
        "broadcast"@ != "gossip"@,
        "broadcast"@ != "gossip_ok"@,
        "broadcast"@ != "read"@,
        "broadcast"@ != "read_ok"@,
        "broadcast"@ != "topology"@,
        "broadcast"@ != "topology_ok"@,
        "broadcast_ok"@ != "gossip"@,
        "broadcast_ok"@ != "gossip_ok"@,
        "broadcast_ok"@ != "read"@,
        "broadcast_ok"@ != "read_ok"@,
        "broadcast_ok"@ != "topology"@,
        "broadcast_ok"@ != "topology_ok"@,
        "gossip"@ != "gossip_ok"@,
        "gossip"@ != "read"@,
        "gossip"@ != "read_ok"@,
        "gossip"@ != "topology"@,
        "gossip"@ != "topology_ok"@,
        "gossip_ok"@ != "read"@,
        "gossip_ok"@ != "read_ok"@,
        "gossip_ok"@ != "topology"@,
        "gossip_ok"@ != "topology_ok"@,
        "read"@ != "read_ok"@,
        "read"@ != "topology"@,
        "read"@ != "topology_ok"@,
        "read_ok"@ != "topology"@,
        "read_ok"@ != "topology_ok"@,
        "topology"@ != "topology_ok"@,
{
    lemma_reserved_keys();
    reveal_strlit("message");
    reveal_strlit("messages");
    reveal_strlit("topology");
    reveal_strlit("broadcast");
    reveal_strlit("broadcast_ok");
    reveal_strlit("gossip");
    reveal_strlit("gossip_ok");
    reveal_strlit("read");
    reveal_strlit("read_ok");
    reveal_strlit("topology_ok");
    assert(key_message().len() == 7 && key_messages().len() == 8);
    assert(key_topology().len() == 8);
    assert("broadcast"@.len() == 9 && "gossip_ok"@.len() == 9);
    assert("broadcast"@[0] != "gossip_ok"@[0]);
    assert("broadcast_ok"@.len() == 12 && "gossip"@.len() == 6 && "read"@.len() == 4);
    assert("read_ok"@.len() == 7 && "topology"@.len() == 8 && "topology_ok"@.len() == 11);
}

impl Payload for Msg {
    /// A topology names each node once.
    open spec fn valid(v: BroadcastView) -> bool {
        match v {
            BroadcastView::Topology { topology } => keys_unique(topology),
            _ => true,
        }
    }

    open spec fn tag_spec(v: BroadcastView) -> Seq<char> {
        match v {
            BroadcastView::Broadcast { .. } => "broadcast"@,
            BroadcastView::BroadcastOk => "broadcast_ok"@,
            BroadcastView::Gossip { .. } => "gossip"@,
            BroadcastView::GossipOk => "gossip_ok"@,
            BroadcastView::Read => "read"@,
            BroadcastView::ReadOk { .. } => "read_ok"@,
            BroadcastView::Topology { .. } => "topology"@,
            BroadcastView::TopologyOk => "topology_ok"@,
        }
    }

    open spec fn fields_spec(v: BroadcastView) -> Seq<(Seq<char>, ValueView)> {
        match v {
            BroadcastView::Broadcast { message } => seq![(key_message(), ValueView::Int(message as int))],
            BroadcastView::Gossip { message } => seq![(key_message(), ValueView::Int(message as int))],
            BroadcastView::ReadOk { messages } => seq![(key_messages(), ValueView::Ints(widen(messages)))],
            BroadcastView::Topology { topology } => seq![(key_topology(), ValueView::Table(topology))],
            _ => seq![],
        }
    }

    open spec fn parse_spec(tag: Seq<char>, body: Seq<(Seq<char>, ValueView)>) -> Option<BroadcastView> {
        if tag == "broadcast"@ || tag == "gossip"@ {
            match lookup(body, key_message()) {
                Some(ValueView::Int(n)) => if i32::MIN <= n <= i32::MAX {
                    if tag == "broadcast"@ {
                        Some(BroadcastView::Broadcast { message: n as i32 })
                    } else {
                        Some(BroadcastView::Gossip { message: n as i32 })
                    }
                } else {
                    None
                },
                _ => None,
            }
        } else if tag == "read_ok"@ {
            match lookup(body, key_messages()) {
                Some(ValueView::Ints(s)) => if fits_i32(s) {
                    Some(BroadcastView::ReadOk { messages: narrow(s) })
                } else {
                    None
                },
                Some(ValueView::Strs(s)) => if s.len() == 0 {
                    Some(BroadcastView::ReadOk { messages: seq![] })
                } else {
                    None
                },
                _ => None,
            }
        } else if tag == "topology"@ {
            match lookup(body, key_topology()) {
                Some(ValueView::Table(t)) => if keys_unique(t) {
                    Some(BroadcastView::Topology { topology: t })
                } else {
                    None
                },
                _ => None,
            }
        } else if tag == "broadcast_ok"@ {
            Some(BroadcastView::BroadcastOk)
        } else if tag == "gossip_ok"@ {
            Some(BroadcastView::GossipOk)
        } else if tag == "read"@ {
            Some(BroadcastView::Read)
        } else if tag == "topology_ok"@ {
            Some(BroadcastView::TopologyOk)
        } else {
            None
        }
    }

    fn to_fields(&self) -> (r: (String, Vec<Field>)) {
        let mut fs: Vec<Field> = Vec::new();
        let tag = match self {
            Msg::Broadcast { message } => {
                fs.push(("message".to_owned(), Value::Int(*message as i64)));
                "broadcast".to_owned()
            },
            Msg::BroadcastOk => "broadcast_ok".to_owned(),
            Msg::Gossip { message } => {
                fs.push(("message".to_owned(), Value::Int(*message as i64)));
                "gossip".to_owned()
            },
            Msg::GossipOk => "gossip_ok".to_owned(),
            Msg::Read => "read".to_owned(),
            Msg::ReadOk { messages } => {
                let mut wide: Vec<i64> = Vec::new();
                let mut i: usize = 0;
                while i < messages.len()
                    invariant
                        i <= messages@.len(),
                        wide@ == widen(messages@.subrange(0, i as int)),
                    decreases messages@.len() - i,
                {
                    wide.push(messages[i] as i64);
                    assert(wide@ =~= widen(messages@.subrange(0, i + 1)));
                    i = i + 1;
                }
                assert(messages@.subrange(0, i as int) =~= messages@);
                fs.push(("messages".to_owned(), Value::Ints(wide)));
                "read_ok".to_owned()
            },
            Msg::Topology { topology } => {
                fs.push(("topology".to_owned(), Value::Table(copy_table(topology))));
                "topology".to_owned()
            },
            Msg::TopologyOk => "topology_ok".to_owned(),
        };
        assert(fields_view(fs@) =~= Self::fields_spec(self@));
        (tag, fs)
    }

    fn from_fields(tag: &String, body: &Vec<Field>) -> (r: Option<Msg>) {
        let is_broadcast = *tag == "broadcast".to_owned();
        if is_broadcast || *tag == "gossip".to_owned() {
            match find(body, &"message".to_owned()) {
                Some(Value::Int(n)) => {
                    if i32::MIN as i64 <= *n && *n <= i32::MAX as i64 {
                        if is_broadcast {
                            Some(Msg::Broadcast { message: *n as i32 })
                        } else {
                            Some(Msg::Gossip { message: *n as i32 })
                        }
                    } else {
                        None
                    }
                },
                _ => None,
            }
        } else if *tag == "read_ok".to_owned() {
            match find(body, &"messages".to_owned()) {
                Some(Value::Ints(s)) => {
                    let mut out: Vec<i32> = Vec::new();
                    let mut i: usize = 0;
                    while i < s.len()
                        invariant
                            i <= s@.len(),
                            lookup(fields_view(body@), key_messages()) == Some(ValueView::Ints(s@)),
                            tag@ == "read_ok"@,
                            tag@ != "broadcast"@ && tag@ != "gossip"@,
                            fits_i32(s@.subrange(0, i as int)),
                            out@ == narrow(s@.subrange(0, i as int)),
                        decreases s@.len() - i,
                    {
                        if s[i] < i32::MIN as i64 || s[i] > i32::MAX as i64 {
                            assert(!fits_i32(s@));
                            return None;
                        }
                        out.push(s[i] as i32);
                        assert(out@ =~= narrow(s@.subrange(0, i + 1)));
                        assert(fits_i32(s@.subrange(0, i + 1))) by {
                            assert forall|j: int| 0 <= j < i + 1 implies i32::MIN <= #[trigger] s@.subrange(0, i + 1)[j]
                                <= i32::MAX by {
                                if j < i {
                                    assert(s@.subrange(0, i + 1)[j] == s@.subrange(0, i as int)[j]);
                                }
                            }
                        }
                        i = i + 1;
                    }
                    assert(s@.subrange(0, i as int) =~= s@);
                    Some(Msg::ReadOk { messages: out })
                },
                Some(Value::Strs(s)) => {
                    if s.len() == 0 {
                        let out: Vec<i32> = Vec::new();
                        assert(out@ =~= seq![]);
                        Some(Msg::ReadOk { messages: out })
                    } else {
                        None
                    }
                },
                _ => None,
            }
        } else if *tag == "topology".to_owned() {
            match find(body, &"topology".to_owned()) {
                Some(Value::Table(t)) => {
                    if keys_distinct(t) {
                        Some(Msg::Topology { topology: copy_table(t) })
                    } else {
                        None
                    }
                },
                _ => None,
            }
        } else if *tag == "broadcast_ok".to_owned() {
            Some(Msg::BroadcastOk)
        } else if *tag == "gossip_ok".to_owned() {
            Some(Msg::GossipOk)
        } else if *tag == "read".to_owned() {
            Some(Msg::Read)
        } else if *tag == "topology_ok".to_owned() {
            Some(Msg::TopologyOk)
        } else {
            None
        }
    }

    proof fn lemma_unreserved(v: BroadcastView) {
        lemma_broadcast_strs();
        match v {
            BroadcastView::Broadcast { .. } | BroadcastView::Gossip { .. } | BroadcastView::ReadOk { .. }
            | BroadcastView::Topology { .. } => {
                assert(Self::fields_spec(v).len() == 1);
            },
            _ => {
                assert(Self::fields_spec(v).len() == 0);
            },
        }
    }

    proof fn lemma_parse(v: BroadcastView, body: Seq<(Seq<char>, ValueView)>) {
        lemma_broadcast_strs();
        assert(lookup(body, key_message()) == lookup(Self::fields_spec(v), key_message()));
        assert(lookup(body, key_messages()) == lookup(Self::fields_spec(v), key_messages()));
        assert(lookup(body, key_topology()) == lookup(Self::fields_spec(v), key_topology()));
        match v {
            BroadcastView::Broadcast { message } => {
                lemma_lookup_single((key_message(), ValueView::Int(message as int)));
            },
            BroadcastView::Gossip { message } => {
                lemma_lookup_single((key_message(), ValueView::Int(message as int)));
            },
            BroadcastView::ReadOk { messages } => {
                lemma_lookup_single((key_messages(), ValueView::Ints(widen(messages))));
                assert(narrow(widen(messages)) =~= messages);
            },
            BroadcastView::Topology { topology } => {
                lemma_lookup_single((key_topology(), ValueView::Table(topology)));
            },
            _ => {},
        }
    }
}

/// The peers of node `me`: every node id but its own, in table order.
pub open spec fn peers(ids: Seq<Seq<char>>, me: Seq<char>) -> Seq<Seq<char>> {
    ids.filter(other_than(me))
}

pub open spec fn other_than(me: Seq<char>) -> spec_fn(Seq<char>) -> bool {
    |p: Seq<char>| p != me
}

/// The gossip messages that pass `message` on to each of `to`, with ids following `count`.
pub open spec fn gossips(c: Ctx, to: Seq<Seq<char>>, message: i32) -> Seq<crate::message::EnvelopeView> {
    Seq::new(
        to.len(),
        |i: int|
            encode_spec::<Msg>(
                MsgView {
                    src: c.node_id@,
                    dst: to[i],
                    id: Some((c.count + 1 + i) as u32),
                    reply_to: None,
                    msg: BroadcastView::Gossip { message },
                },
            ),
    )
}

/// Handles one message of the broadcast service: a broadcast value goes on to every
/// peer and is acknowledged, a gossiped value is stored and acknowledged, a read
/// returns every stored value.
///
/// The node does not gossip to itself, so a value broadcast to a node is stored
/// only on the peers it reaches: a node whose table holds no other node stores
/// nothing, and its reads return only values gossiped to it.
pub fn broadcast(msg: Msg, ctx: &mut Ctx, store: &mut Vec<i32>) -> (r: Result<(), Fatal>)
    requires
        old(ctx).wf(),
        old(ctx).count < u32::MAX,
        msg@ is Broadcast ==> old(ctx).count + old(ctx).node_ids@.len() + 1 <= u32::MAX,
    ensures
        final(ctx).wf(),
        final(ctx).same_node(old(ctx)),
        match msg@ {
            BroadcastView::Broadcast { message } => {
                let to = peers(strs_view(old(ctx).node_ids@), old(ctx).node_id@);
                &&& r is Ok
                &&& final(store)@ == old(store)@
                &&& final(ctx).count == old(ctx).count + to.len() + 1
                &&& final(ctx).sent() == old(ctx).sent() + gossips(*old(ctx), to, message) + seq![
                    encode_spec::<Msg>(
                        MsgView {
                            src: old(ctx).node_id@,
                            dst: old(ctx).src@,
                            id: Some((old(ctx).count + to.len() + 1) as u32),
                            reply_to: old(ctx).in_reply_to,
                            msg: BroadcastView::BroadcastOk,
                        },
                    ),
                ]
            },
            BroadcastView::Gossip { message } => {
                &&& r is Ok
                &&& final(store)@ == old(store)@.push(message)
                &&& final(ctx).count == old(ctx).count + 1
                &&& final(ctx).sent() == old(ctx).sent().push(
                    encode_spec::<Msg>(old(ctx).reply_spec::<Msg>(BroadcastView::GossipOk)),
                )
            },
            BroadcastView::GossipOk => {
                &&& r is Ok
                &&& final(store)@ == old(store)@
                &&& *final(ctx) == *old(ctx)
            },
            BroadcastView::Read => {
                &&& r is Ok
                &&& final(store)@ == old(store)@
                &&& final(ctx).count == old(ctx).count + 1
                &&& final(ctx).sent() == old(ctx).sent().push(
                    encode_spec::<Msg>(
                        old(ctx).reply_spec::<Msg>(BroadcastView::ReadOk { messages: old(store)@ }),
                    ),
                )
            },
            BroadcastView::Topology { .. } => {
                &&& r is Ok
                &&& final(store)@ == old(store)@
                &&& final(ctx).count == old(ctx).count + 1
                &&& final(ctx).sent() == old(ctx).sent().push(
                    encode_spec::<Msg>(old(ctx).reply_spec::<Msg>(BroadcastView::TopologyOk)),
                )
            },
            _ => {
                &&& r == Err::<(), Fatal>(Fatal::Protocol)
                &&& final(store)@ == old(store)@
                &&& *final(ctx) == *old(ctx)
            },
        },
{
    match msg {
        Msg::Broadcast { message } => {
            let ghost c0 = *ctx;
            let ghost ids = strs_view(ctx.node_ids@);
            let n = ctx.node_ids.len();
            let mut i: usize = 0;
            assert(ids.subrange(0, 0).filter(other_than(c0.node_id@)) =~= seq![]) by {
                reveal(Seq::filter);
            }
            while i < n
                invariant
                    n == c0.node_ids@.len(),
                    ids == strs_view(c0.node_ids@),
                    i <= n,
                    c0.wf(),
                    c0.count + n + 1 <= u32::MAX,
                    ctx.wf(),
                    ctx.same_node(&c0),
                    peers(ids.subrange(0, i as int), c0.node_id@).len() <= i,
                    ctx.count == c0.count + peers(ids.subrange(0, i as int), c0.node_id@).len(),
                    ctx.sent() == c0.sent() + gossips(c0, peers(ids.subrange(0, i as int), c0.node_id@), message),
                decreases n - i,
            {
                let peer = ctx.node_ids[i].clone();
                let ghost before = peers(ids.subrange(0, i as int), c0.node_id@);
                assert(ids.subrange(0, i + 1) =~= ids.subrange(0, i as int).push(peer@));
                proof {
                    ids.subrange(0, i as int).lemma_filter_push(peer@, other_than(c0.node_id@));
                }
                if !(peer == ctx.node_id) {
                    ctx.send(peer.as_str(), Msg::Gossip { message });
                    let ghost after = before.push(peer@);
                    assert(gossips(c0, after, message) =~= gossips(c0, before, message).push(
                        encode_spec::<Msg>(
                            MsgView {
                                src: c0.node_id@,
                                dst: peer@,
                                id: Some((c0.count + 1 + before.len()) as u32),
                                reply_to: None,
                                msg: BroadcastView::Gossip { message },
                            },
                        ),
                    ));
                    assert(ctx.sent() =~= c0.sent() + gossips(c0, after, message));
                    assert(peers(ids.subrange(0, i + 1), c0.node_id@) == after);
                } else {
                    assert(peers(ids.subrange(0, i + 1), c0.node_id@) == before);
                }
                i = i + 1;
            }
            assert(ids.subrange(0, n as int) =~= ids);
            let ghost c1 = *ctx;
            ctx.reply(Msg::BroadcastOk);
            assert(ctx.sent() =~= c0.sent() + gossips(c0, peers(ids, c0.node_id@), message) + seq![
                encode_spec::<Msg>(c1.reply_spec::<Msg>(BroadcastView::BroadcastOk)),
            ]);
            Ok(())
        },
        Msg::Gossip { message } => {
            store.push(message);
            ctx.reply(Msg::GossipOk);
            Ok(())
        },
        Msg::GossipOk => Ok(()),
        Msg::Read => {
            let mut messages: Vec<i32> = Vec::new();
            let mut i: usize = 0;
            while i < store.len()
                invariant
                    i <= store@.len(),
                    messages@ == store@.subrange(0, i as int),
                decreases store@.len() - i,
            {
                messages.push(store[i]);
                assert(messages@ =~= store@.subrange(0, i + 1));
                i = i + 1;
            }
            assert(store@.subrange(0, i as int) =~= store@);
            ctx.reply(Msg::ReadOk { messages });
            Ok(())
        },
        Msg::Topology { .. } => {
            ctx.reply(Msg::TopologyOk);
            Ok(())
        },
        _ => Err(Fatal::Protocol),
    }
}

/// Fan-out: in a table of distinct node ids, a node has one peer fewer than there
/// are ids when its own id is in the table, and as many when it is not.
pub proof fn lemma_fan_out_count(ids: Seq<Seq<char>>, me: Seq<char>)
    requires
        ids.no_duplicates(),
    ensures
        ids.contains(me) ==> peers(ids, me).len() == ids.len() - 1,
        !ids.contains(me) ==> peers(ids, me).len() == ids.len(),
    decreases ids.len(),
{
    if ids.len() == 0 {
        reveal(Seq::filter);
    } else {
        let init = ids.drop_last();
        let x = ids.last();
        assert(ids =~= init.push(x));
        init.lemma_filter_push(x, other_than(me));
        assert(init.no_duplicates()) by {
            assert forall|i: int, j: int| 0 <= i < init.len() && 0 <= j < init.len() && i != j implies init[i]
                != init[j] by {
                assert(init[i] == ids[i] && init[j] == ids[j]);
            }
        }
        lemma_fan_out_count(init, me);
        if x == me {
            assert(!init.contains(me)) by {
                if init.contains(me) {
                    let k = choose|k: int| 0 <= k < init.len() && init[k] == me;
                    assert(ids[k] == ids[ids.len() - 1]);
                }
            }
            assert(ids.contains(me)) by {
                assert(ids[ids.len() - 1] == me);
            }
        } else {
            assert(ids.contains(me) <==> init.contains(me)) by {
                if ids.contains(me) {
                    let k = choose|k: int| 0 <= k < ids.len() && ids[k] == me;
                    assert(init[k] == me);
                }
                if init.contains(me) {
                    let k = choose|k: int| 0 <= k < init.len() && init[k] == me;
                    assert(ids[k] == me);
                }
            }
        }
    }
}

} // verus!
