use vstd::prelude::*;

use crate::message::{
    Body, DecodeError, Envelope, EnvelopeView, Msg, MsgView, Payload, decode, decode_spec, encode,
    encode_spec, id_spec, key_msg_id, key_type, lemma_reserved_keys, lemma_round_trip, reserved,
};
use crate::wire::{
    Field, Value, ValueView, copy_strs, fields_view, find, lemma_lookup_pair, lookup, strs_view,
};

verus! {

/// The handshake payloads.
#[derive(Debug, PartialEq)]
pub enum Init {
    Init { node_id: String, node_ids: Vec<String> },
    InitOk,
}

pub enum InitView {
    Init { node_id: Seq<char>, node_ids: Seq<Seq<char>> },
    InitOk,
}

impl View for Init {
    type V = InitView;

    open spec fn view(&self) -> InitView {
        match self {
            Init::Init { node_id, node_ids } => InitView::Init {
                node_id: node_id@,
                node_ids: strs_view(node_ids@),
            },
            Init::InitOk => InitView::InitOk,
        }
    }
}

pub open spec fn key_node_id() -> Seq<char> {
    "node_id"@
}

pub open spec fn key_node_ids() -> Seq<char> {
    "node_ids"@
}

proof fn lemma_init_strs()
    ensures
        !reserved(key_node_id()),
        !reserved(key_node_ids()),
        key_node_id() != key_node_ids(),
        "init"@ != "init_ok"@,
{
    lemma_reserved_keys();
    reveal_strlit("node_id");
    reveal_strlit("node_ids");
    reveal_strlit("init");
    reveal_strlit("init_ok");
    assert(key_node_id().len() == 7 && key_node_ids().len() == 8);
    assert("init"@.len() != "init_ok"@.len());
}

impl Payload for Init {
    open spec fn valid(v: InitView) -> bool {
        true
    }

    open spec fn tag_spec(v: InitView) -> Seq<char> {
        match v {
            InitView::Init { .. } => "init"@,
            InitView::InitOk => "init_ok"@,
        }
    }

    open spec fn fields_spec(v: InitView) -> Seq<(Seq<char>, ValueView)> {
        match v {
            InitView::Init { node_id, node_ids } => seq![
                (key_node_id(), ValueView::Str(node_id)),
                (key_node_ids(), ValueView::Strs(node_ids)),
            ],
            InitView::InitOk => seq![],
        }
    }

    open spec fn parse_spec(tag: Seq<char>, body: Seq<(Seq<char>, ValueView)>) -> Option<InitView> {
        if tag == "init"@ {
            match (lookup(body, key_node_id()), lookup(body, key_node_ids())) {
                (Some(ValueView::Str(a)), Some(ValueView::Strs(b))) => Some(
                    InitView::Init { node_id: a, node_ids: b },
                ),
                _ => None,
            }
        } else if tag == "init_ok"@ {
            Some(InitView::InitOk)
        } else {
            None
        }
    }

    fn to_fields(&self) -> (r: (String, Vec<Field>)) {
        match self {
            Init::Init { node_id, node_ids } => {
                let mut fs: Vec<Field> = Vec::new();
                fs.push(("node_id".to_owned(), Value::Str(node_id.clone())));
                fs.push(("node_ids".to_owned(), Value::Strs(copy_strs(node_ids))));
                assert(fields_view(fs@) =~= Self::fields_spec(self@));
                ("init".to_owned(), fs)
            },
            Init::InitOk => {
                let fs: Vec<Field> = Vec::new();
                assert(fields_view(fs@) =~= Self::fields_spec(self@));
                ("init_ok".to_owned(), fs)
            },
        }
    }

    fn from_fields(tag: &String, body: &Vec<Field>) -> (r: Option<Init>) {
        if *tag == "init".to_owned() {
            match (find(body, &"node_id".to_owned()), find(body, &"node_ids".to_owned())) {
                (Some(Value::Str(a)), Some(Value::Strs(b))) => {
                    let node_ids = copy_strs(b);
                    Some(Init::Init { node_id: a.clone(), node_ids })
                },
                _ => None,
            }
        } else if *tag == "init_ok".to_owned() {
            Some(Init::InitOk)
        } else {
            None
        }
    }

    proof fn lemma_unreserved(v: InitView) {
        lemma_init_strs();
    }

    proof fn lemma_parse(v: InitView, body: Seq<(Seq<char>, ValueView)>) {
        lemma_init_strs();
        assert(lookup(body, key_node_id()) == lookup(Self::fields_spec(v), key_node_id()));
        assert(lookup(body, key_node_ids()) == lookup(Self::fields_spec(v), key_node_ids()));
        if let InitView::Init { node_id, node_ids } = v {
            lemma_lookup_pair(
                (key_node_id(), ValueView::Str(node_id)),
                (key_node_ids(), ValueView::Strs(node_ids)),
            );
        }
    }
}

/// A fatal condition of the runtime.
#[derive(Debug, PartialEq, Eq, Structural, Clone, Copy)]
pub enum Fatal {
    /// A line does not hold a well-formed message.
    Decode(DecodeError),
    /// The handshake is missing or out of order, or a payload cannot be handled.
    Protocol,
}

/// The per-node runtime state that handlers work with.
pub struct Ctx {
    /// This node's own id.
    pub node_id: String,
    /// All node ids of the cluster, as the handshake gave them.
    pub node_ids: Vec<String>,
    /// The source of the message that is currently being handled.
    pub src: String,
    /// The id (if any) of the message that is currently being handled.
    pub in_reply_to: Option<u32>,
    /// Messages written and not yet handed out, oldest first.
    pub outbox: Vec<Envelope>,
    /// The number of messages this node has sent.
    pub count: u32,
    /// The number of messages already handed out of the outbox.
    pub drained: Ghost<nat>,
}

/// The id that a message in wire shape carries.
pub open spec fn msg_id_of(e: EnvelopeView) -> Result<Option<u32>, DecodeError> {
    id_spec(lookup(e.body, key_msg_id()))
}

impl Ctx {
    pub open spec fn sent(&self) -> Seq<EnvelopeView> {
        Seq::new(self.outbox@.len(), |i: int| self.outbox@[i]@)
    }

    /// Every message is sent from this node, and the ids of all messages ever sent
    /// are 1, 2, ... in the order they were written.
    pub open spec fn wf(&self) -> bool {
        &&& self.drained@ + self.outbox@.len() == self.count
        &&& self.ordered()
    }

    /// The messages in the outbox come from this node and carry consecutive ids.
    pub open spec fn ordered(&self) -> bool {
        &&& forall|i: int|
            0 <= i < self.outbox@.len() ==> #[trigger] msg_id_of(self.outbox@[i]@) == Ok::<
                Option<u32>,
                DecodeError,
            >(Some((self.drained@ + i + 1) as u32))
        &&& forall|i: int| 0 <= i < self.outbox@.len() ==> #[trigger] self.outbox@[i]@.src == self.node_id@
    }

    /// The message that `reply(msg)` writes.
    pub open spec fn reply_spec<P: Payload>(&self, msg: P::V) -> MsgView<P::V> {
        MsgView {
            src: self.node_id@,
            dst: self.src@,
            id: Some((self.count + 1) as u32),
            reply_to: self.in_reply_to,
            msg,
        }
    }

    /// The message that `send(dst, msg)` writes.
    pub open spec fn send_spec<P: Payload>(&self, dst: Seq<char>, msg: P::V) -> MsgView<P::V> {
        MsgView { src: self.node_id@, dst, id: Some((self.count + 1) as u32), reply_to: None, msg }
    }

    /// Same node, same peers, same message being handled.
    pub open spec fn same_node(&self, o: &Ctx) -> bool {
        &&& self.node_id@ == o.node_id@
        &&& self.node_ids@ == o.node_ids@
        &&& self.src@ == o.src@
        &&& self.in_reply_to == o.in_reply_to
    }

    /// The context once a message from `src` with id `in_reply_to` is being handled.
    pub open spec fn update_spec(self, in_reply_to: Option<u32>, src: String) -> Ctx {
        Ctx { src, in_reply_to, ..self }
    }

    /// Starts handling a message from `src` whose id is `in_reply_to`.
    pub fn update(self, in_reply_to: Option<u32>, src: String) -> (r: Ctx)
        requires
            self.wf(),
        ensures
            r == self.update_spec(in_reply_to, src),
            r.wf(),
            r.src == src,
            r.in_reply_to == in_reply_to,
            r.node_id == self.node_id,
            r.node_ids == self.node_ids,
            r.outbox == self.outbox,
            r.count == self.count,
    {
        Ctx {
            node_id: self.node_id,
            node_ids: self.node_ids,
            src,
            in_reply_to,
            outbox: self.outbox,
            count: self.count,
            drained: self.drained,
        }
    }

    /// Allocates the next outbound id.
    pub fn count(&mut self) -> (r: u32)
        requires
            old(self).count < u32::MAX,
        ensures
            r == old(self).count + 1,
            final(self).count == r,
            final(self).node_id == old(self).node_id,
            final(self).node_ids == old(self).node_ids,
            final(self).src == old(self).src,
            final(self).in_reply_to == old(self).in_reply_to,
            final(self).outbox == old(self).outbox,
            final(self).drained == old(self).drained,
    {
        self.count = self.count + 1;
        self.count
    }

    fn write<P: Payload>(&mut self, m: &Msg<P>)
        requires
            old(self).ordered(),
            old(self).drained@ + old(self).outbox@.len() + 1 == old(self).count,
            m@.id == Some(old(self).count),
            m@.src == old(self).node_id@,
            P::valid(m@.msg),
        ensures
            final(self).wf(),
            final(self).sent() == old(self).sent().push(encode_spec::<P>(m@)),
            final(self).node_id == old(self).node_id,
            final(self).node_ids == old(self).node_ids,
            final(self).src == old(self).src,
            final(self).in_reply_to == old(self).in_reply_to,
            final(self).count == old(self).count,
            final(self).drained == old(self).drained,
            final(self).outbox@.len() == old(self).outbox@.len() + 1,
            forall|i: int|
                0 <= i < old(self).outbox@.len() ==> final(self).outbox@[i] == old(self).outbox@[i],
    {
        let e = encode(m);
        proof {
            lemma_round_trip::<P>(m@);
        }
        self.outbox.push(e);
        assert(self.sent() =~= old(self).sent().push(encode_spec::<P>(m@)));
    }

    /// Answers the message currently being handled.
    pub fn reply<P: Payload>(&mut self, msg: P)
        requires
            old(self).wf(),
            P::valid(msg@),
            old(self).count < u32::MAX,
        ensures
            final(self).wf(),
            final(self).same_node(old(self)),
            final(self).count == old(self).count + 1,
            final(self).sent() == old(self).sent().push(encode_spec::<P>(old(self).reply_spec::<P>(msg@))),
    {
        let ghost v = msg@;
        let id = self.count();
        let m = Msg {
            src: self.node_id.clone(),
            dst: self.src.clone(),
            body: Body { id: Some(id), reply_to: self.in_reply_to, msg },
        };
        assert(m@ == old(self).reply_spec::<P>(v));
        self.write(&m);
    }

    /// Sends a message to `dst` that answers nothing.
    pub fn send<P: Payload>(&mut self, dst: &str, msg: P)
        requires
            old(self).wf(),
            P::valid(msg@),
            old(self).count < u32::MAX,
        ensures
            final(self).wf(),
            final(self).same_node(old(self)),
            final(self).count == old(self).count + 1,
            final(self).sent() == old(self).sent().push(encode_spec::<P>(old(self).send_spec::<P>(dst@, msg@))),
    {
        let ghost v = msg@;
        let id = self.count();
        let m = Msg {
            src: self.node_id.clone(),
            dst: dst.to_owned(),
            body: Body { id: Some(id), reply_to: None, msg },
        };
        assert(m@ == old(self).send_spec::<P>(dst@, v));
        self.write(&m);
    }

    /// Hands out the messages written since the last call, oldest first.
    pub fn take_output(&mut self) -> (r: Vec<Envelope>)
        requires
            old(self).wf(),
        ensures
            final(self).wf(),
            final(self).same_node(old(self)),
            final(self).count == old(self).count,
            r@ == old(self).outbox@,
            final(self).outbox@.len() == 0,
            final(self).drained@ == old(self).drained@ + old(self).outbox@.len(),
    {
        let mut r: Vec<Envelope> = Vec::new();
        r.append(&mut self.outbox);
        assert(r@ =~= old(self).outbox@);
        self.drained = Ghost((self.drained@ + r@.len()) as nat);
        r
    }

    /// Reads the next message and makes it the one being handled.
    pub fn receive<P: Payload>(self, e: &Envelope) -> (r: Result<(Ctx, P), (Ctx, DecodeError)>)
        requires
            self.wf(),
        ensures
            match r {
                Ok((c, p)) => {
                    &&& c.wf()
                    &&& decode_spec::<P>(e@) matches Ok(m) && m.msg == p@ && c.src@ == m.src
                        && c.in_reply_to == m.id
                    &&& c.node_id == self.node_id && c.node_ids == self.node_ids
                    &&& c.outbox == self.outbox && c.count == self.count
                },
                Err((c, x)) => {
                    &&& c == self
                    &&& decode_spec::<P>(e@) == Err::<MsgView<P::V>, DecodeError>(x)
                },
            },
    {
        match decode::<P>(e) {
            Ok(m) => {
                let c = self.update(m.body.id, m.src);
                Ok((c, m.body.msg))
            },
            Err(x) => Err((self, x)),
        }
    }
}

/// Counter monotonicity: the messages a node has written carry the ids that follow
/// those already handed out, one each, in the order they were written; a node that
/// has handed out none has used exactly the ids 1, 2, ..., n.
pub proof fn lemma_ids_in_order(c: Ctx)
    requires
        c.wf(),
    ensures
        c.count == c.drained@ + c.sent().len(),
        forall|i: int|
            0 <= i < c.sent().len() ==> msg_id_of(#[trigger] c.sent()[i]) == Ok::<Option<u32>, DecodeError>(
                Some((c.drained@ + i + 1) as u32),
            ),
        forall|i: int, j: int|
            0 <= i < j < c.sent().len() ==> msg_id_of(#[trigger] c.sent()[i]) != msg_id_of(
                #[trigger] c.sent()[j],
            ),
{
    assert forall|i: int, j: int| 0 <= i < j < c.sent().len() implies msg_id_of(
        #[trigger] c.sent()[i],
    ) != msg_id_of(#[trigger] c.sent()[j]) by {
        assert(msg_id_of(c.outbox@[i]@) == Ok::<Option<u32>, DecodeError>(Some((c.drained@ + i + 1) as u32)));
        assert(msg_id_of(c.outbox@[j]@) == Ok::<Option<u32>, DecodeError>(Some((c.drained@ + j + 1) as u32)));
    }
    assert forall|i: int| 0 <= i < c.sent().len() implies msg_id_of(#[trigger] c.sent()[i]) == Ok::<
        Option<u32>,
        DecodeError,
    >(Some((c.drained@ + i + 1) as u32)) by {
        assert(c.sent()[i] == c.outbox@[i]@);
    }
}

/// Reply correlation: once a context has received the message `e`, a reply to it
/// reads back as sent by this node, addressed to the sender of `e` and answering
/// the id of `e`.
pub proof fn lemma_reply_correlation<Q: Payload, P: Payload>(c: Ctx, e: EnvelopeView, msg: P::V)
    requires
        decode_spec::<Q>(e) is Ok,
        c.src@ == decode_spec::<Q>(e)->Ok_0.src,
        c.in_reply_to == decode_spec::<Q>(e)->Ok_0.id,
        P::valid(msg),
    ensures
        decode_spec::<P>(encode_spec::<P>(c.reply_spec::<P>(msg))) matches Ok(r) && r.src == c.node_id@
            && r.dst == e.src && r.reply_to == decode_spec::<Q>(e)->Ok_0.id && r.msg == msg,
{
    lemma_round_trip::<P>(c.reply_spec::<P>(msg));
}

/// Reply correlation, stated on `update`: after `c.update(k, s)` and any number of
/// sends and replies (which keep the message being handled), a reply reads back
/// as sent by this node to `s`, answering `k`; a send answers nothing.
pub proof fn lemma_update_then_reply<P: Payload>(
    c: Ctx,
    k: Option<u32>,
    s: String,
    d: Ctx,
    dst: Seq<char>,
    msg: P::V,
)
    requires
        c.wf(),
        d.same_node(&c.update_spec(k, s)),
        P::valid(msg),
    ensures
        decode_spec::<P>(encode_spec::<P>(d.reply_spec::<P>(msg))) matches Ok(r) && r.src == c.node_id@
            && r.dst == s@ && r.reply_to == k && r.msg == msg,
        decode_spec::<P>(encode_spec::<P>(d.send_spec::<P>(dst, msg))) matches Ok(r) && r.src
            == c.node_id@ && r.dst == dst && r.reply_to is None && r.msg == msg,
{
    lemma_round_trip::<P>(d.reply_spec::<P>(msg));
    lemma_round_trip::<P>(d.send_spec::<P>(dst, msg));
}

/// Handshake first: a first message whose `type` is not `init` never yields a node
/// context, so the node stops before it writes anything.
pub proof fn lemma_handshake_first(e: EnvelopeView)
    requires
        lookup(e.body, key_type()) != Some(ValueView::Str("init"@)),
    ensures
        !(decode_spec::<Init>(e) matches Ok(m) && m.msg is Init),
{
    lemma_init_strs();
}

/// Builds the context of a node from its handshake message.
pub fn init_ctx(msg: &Msg<Init>) -> (r: Result<Ctx, Fatal>)
    ensures
        match msg@.msg {
            InitView::Init { node_id, node_ids } => r matches Ok(c) && c.wf() && c.node_id@ == node_id
                && strs_view(c.node_ids@) == node_ids && c.src@ == msg@.src && c.in_reply_to
                == msg@.id && c.count == 0 && c.outbox@.len() == 0,
            InitView::InitOk => r == Err::<Ctx, Fatal>(Fatal::Protocol),
        },
{
    match &msg.body.msg {
        Init::Init { node_id, node_ids } => Ok(
            Ctx {
                node_id: node_id.clone(),
                node_ids: copy_strs(node_ids),
                src: msg.src.clone(),
                in_reply_to: msg.body.id,
                outbox: Vec::new(),
                count: 0,
                drained: Ghost(0),
            },
        ),
        Init::InitOk => Err(Fatal::Protocol),
    }
}

/// The acknowledgement that a handshake request `m` gets from the node it names.
pub open spec fn init_ok_spec(m: MsgView<InitView>, node_id: Seq<char>) -> EnvelopeView {
    encode_spec::<Init>(
        MsgView { src: node_id, dst: m.src, id: Some(1), reply_to: m.id, msg: InitView::InitOk },
    )
}

/// Runs the handshake on the first message a node receives: on success the node
/// knows its identity and peers and has written exactly one `init_ok`.
pub fn handshake(e: &Envelope) -> (r: Result<Ctx, Fatal>)
    ensures
        match decode_spec::<Init>(e@) {
            Err(x) => r == Err::<Ctx, Fatal>(Fatal::Decode(x)),
            Ok(m) => match m.msg {
                InitView::InitOk => r == Err::<Ctx, Fatal>(Fatal::Protocol),
                InitView::Init { node_id, node_ids } => r matches Ok(c) && c.wf() && c.node_id@
                    == node_id && strs_view(c.node_ids@) == node_ids && c.count == 1 && c.sent()
                    == seq![init_ok_spec(m, node_id)],
            },
        },
{
    let m = match decode::<Init>(e) {
        Ok(m) => m,
        Err(x) => {
            return Err(Fatal::Decode(x));
        },
    };
    let mut c = match init_ctx(&m) {
        Ok(c) => c,
        Err(x) => {
            return Err(x);
        },
    };
    assert(c.sent() =~= seq![]);
    c.reply(Init::InitOk);
    Ok(c)
}

/// Where a node stands in its life: before or after the handshake.
pub enum Node {
    Uninitialized,
    Ready(Ctx),
}

impl Node {
    pub open spec fn wf(&self) -> bool {
        match self {
            Node::Uninitialized => true,
            Node::Ready(c) => c.wf(),
        }
    }
}

/// Takes one incoming message. The first one must be the handshake, which is
/// answered here; every later one is read as a payload `P` for the handler, and
/// its sender and id become those that a reply answers.
pub fn handle<P: Payload>(node: Node, e: &Envelope) -> (r: Result<(Ctx, Option<P>), Fatal>)
    requires
        node.wf(),
    ensures
        match node {
            Node::Uninitialized => match decode_spec::<Init>(e@) {
                Err(x) => r == Err::<(Ctx, Option<P>), Fatal>(Fatal::Decode(x)),
                Ok(m) => match m.msg {
                    InitView::InitOk => r == Err::<(Ctx, Option<P>), Fatal>(Fatal::Protocol),
                    InitView::Init { node_id, node_ids } => r matches Ok((c, None)) && c.wf()
                        && c.node_id@ == node_id && strs_view(c.node_ids@) == node_ids && c.count
                        == 1 && c.sent() == seq![init_ok_spec(m, node_id)],
                },
            },
            Node::Ready(c0) => match decode_spec::<P>(e@) {
                Err(x) => r == Err::<(Ctx, Option<P>), Fatal>(Fatal::Decode(x)),
                Ok(m) => r matches Ok((c, Some(p))) && c.wf() && p@ == m.msg && c.src@ == m.src
                    && c.in_reply_to == m.id && c.node_id == c0.node_id && c.node_ids
                    == c0.node_ids && c.outbox == c0.outbox && c.count == c0.count,
            },
        },
{
    match node {
        Node::Uninitialized => match handshake(e) {
            Ok(c) => Ok((c, None)),
            Err(x) => Err(x),
        },
        Node::Ready(c) => match c.receive::<P>(e) {
            Ok((c, p)) => Ok((c, Some(p))),
            Err((_, x)) => Err(Fatal::Decode(x)),
        },
    }
}

/// What the end of input means: a normal stop after the handshake, a protocol
/// violation before it.
pub fn finish(node: &Node) -> (r: Result<(), Fatal>)
    ensures
        match node {
            Node::Uninitialized => r == Err::<(), Fatal>(Fatal::Protocol),
            Node::Ready(_) => r is Ok,
        },
{
    match node {
        Node::Uninitialized => Err(Fatal::Protocol),
        Node::Ready(_) => Ok(()),
    }
}

} // verus!
