use vstd::prelude::*;

use crate::wire::{Field, Value, ValueView, fields_view, find, lookup, lemma_lookup_first, lemma_lookup_skip};

verus! {

/// The correlation data of a message and its payload.
pub struct Body<M> {
    /// The message's own id (`msg_id` on the wire).
    pub id: Option<u32>,
    /// The id of the message this one answers (`in_reply_to` on the wire).
    pub reply_to: Option<u32>,
    pub msg: M,
}

/// A full, addressed message.
pub struct Msg<M> {
    pub src: String,
    /// The destination (`dest` on the wire).
    pub dst: String,
    pub body: Body<M>,
}

pub struct MsgView<V> {
    pub src: Seq<char>,
    pub dst: Seq<char>,
    pub id: Option<u32>,
    pub reply_to: Option<u32>,
    pub msg: V,
}

impl<M: View> View for Msg<M> {
    type V = MsgView<M::V>;

    open spec fn view(&self) -> MsgView<M::V> {
        MsgView {
            src: self.src@,
            dst: self.dst@,
            id: self.body.id,
            reply_to: self.body.reply_to,
            msg: self.body.msg@,
        }
    }
}

/// A message in its wire shape: two addresses and the flat list of body fields.
#[derive(Debug, PartialEq)]
pub struct Envelope {
    pub src: String,
    pub dest: String,
    pub body: Vec<Field>,
}

pub struct EnvelopeView {
    pub src: Seq<char>,
    pub dest: Seq<char>,
    pub body: Seq<(Seq<char>, ValueView)>,
}

impl View for Envelope {
    type V = EnvelopeView;

    open spec fn view(&self) -> EnvelopeView {
        EnvelopeView { src: self.src@, dest: self.dest@, body: fields_view(self.body@) }
    }
}

/// Why a body could not be read.
#[derive(Debug, PartialEq, Eq, Structural, Clone, Copy)]
pub enum DecodeError {
    /// `type` is missing or is not a string.
    Tag,
    /// `msg_id` or `in_reply_to` is present but is not an integer that fits in 32 bits.
    Id,
    /// The payload fields do not fit the variant that `type` names.
    Payload,
}

pub open spec fn key_type() -> Seq<char> {
    "type"@
}

pub open spec fn key_msg_id() -> Seq<char> {
    "msg_id"@
}

pub open spec fn key_in_reply_to() -> Seq<char> {
    "in_reply_to"@
}

/// Keys that the envelope itself uses in a body; a payload may not use them.
pub open spec fn reserved(k: Seq<char>) -> bool {
    k == key_type() || k == key_msg_id() || k == key_in_reply_to()
}

/// The lengths and first letter of the reserved keys, from which payload modules
/// show that their own keys are not reserved.
pub proof fn lemma_reserved_keys()
    ensures
        key_type().len() == 4,
        key_type()[0] == 't',
        key_msg_id().len() == 6,
        key_in_reply_to().len() == 11,
        key_type() != key_msg_id(),
        key_type() != key_in_reply_to(),
        key_msg_id() != key_in_reply_to(),
{
    reveal_strlit("type");
    reveal_strlit("msg_id");
    reveal_strlit("in_reply_to");
}

/// An application payload: a tagged variant with its own fields.
pub trait Payload: View + Sized {
    /// The wire tag of a payload.
    spec fn tag_spec(v: Self::V) -> Seq<char>;

    /// The body fields of a payload, without the tag.
    spec fn fields_spec(v: Self::V) -> Seq<(Seq<char>, ValueView)>;

    /// Payloads that can stand on the wire and be read back as they are.
    spec fn valid(v: Self::V) -> bool;

    /// The payload that a tag and a whole body stand for, if any.
    spec fn parse_spec(tag: Seq<char>, body: Seq<(Seq<char>, ValueView)>) -> Option<Self::V>;

    fn to_fields(&self) -> (r: (String, Vec<Field>))
        ensures
            r.0@ == Self::tag_spec(self@),
            fields_view(r.1@) == Self::fields_spec(self@),
    ;

    fn from_fields(tag: &String, body: &Vec<Field>) -> (r: Option<Self>)
        ensures
            match r {
                Some(p) => Self::parse_spec(tag@, fields_view(body@)) == Some(p@),
                None => Self::parse_spec(tag@, fields_view(body@)) is None,
            },
    ;

    /// A payload's fields never use a key of the envelope.
    proof fn lemma_unreserved(v: Self::V)
        ensures
            forall|i: int|
                0 <= i < Self::fields_spec(v).len() ==> !reserved(#[trigger] Self::fields_spec(v)[i].0),
    ;

    /// A body that agrees with a payload's fields on every key that is not reserved
    /// reads back as that payload.
    proof fn lemma_parse(v: Self::V, body: Seq<(Seq<char>, ValueView)>)
        requires
            Self::valid(v),
            forall|k: Seq<char>| !reserved(k) ==> #[trigger] lookup(body, k) == lookup(Self::fields_spec(v), k),
        ensures
            Self::parse_spec(Self::tag_spec(v), body) == Some(v),
    ;
}

pub open spec fn id_fields(k: Seq<char>, id: Option<u32>) -> Seq<(Seq<char>, ValueView)> {
    match id {
        Some(n) => seq![(k, ValueView::Int(n as int))],
        None => seq![],
    }
}

/// The body of a message in wire shape: tag, `msg_id`, `in_reply_to`, then the payload's fields.
pub open spec fn encode_body<P: Payload>(m: MsgView<P::V>) -> Seq<(Seq<char>, ValueView)> {
    seq![(key_type(), ValueView::Str(P::tag_spec(m.msg)))] + id_fields(key_msg_id(), m.id) + id_fields(
        key_in_reply_to(),
        m.reply_to,
    ) + P::fields_spec(m.msg)
}

pub open spec fn encode_spec<P: Payload>(m: MsgView<P::V>) -> EnvelopeView {
    EnvelopeView { src: m.src, dest: m.dst, body: encode_body::<P>(m) }
}

/// Reads an optional 32-bit id.
pub open spec fn id_spec(v: Option<ValueView>) -> Result<Option<u32>, DecodeError> {
    match v {
        None => Ok(None),
        Some(ValueView::Int(n)) => if 0 <= n <= u32::MAX {
            Ok(Some(n as u32))
        } else {
            Err(DecodeError::Id)
        },
        Some(_) => Err(DecodeError::Id),
    }
}

pub open spec fn decode_spec<P: Payload>(e: EnvelopeView) -> Result<MsgView<P::V>, DecodeError> {
    match lookup(e.body, key_type()) {
        Some(ValueView::Str(tag)) => match id_spec(lookup(e.body, key_msg_id())) {
            Err(x) => Err(x),
            Ok(id) => match id_spec(lookup(e.body, key_in_reply_to())) {
                Err(x) => Err(x),
                Ok(reply_to) => match P::parse_spec(tag, e.body) {
                    Some(v) => Ok(MsgView { src: e.src, dst: e.dest, id, reply_to, msg: v }),
                    None => Err(DecodeError::Payload),
                },
            },
        },
        _ => Err(DecodeError::Tag),
    }
}

proof fn lemma_lookup_absent(fs: Seq<(Seq<char>, ValueView)>, k: Seq<char>)
    requires
        forall|i: int| 0 <= i < fs.len() ==> fs[i].0 != k,
    ensures
        lookup(fs, k) is None,
{
    lemma_lookup_skip(fs, seq![], k);
    assert(fs + seq![] =~= fs);
}

/// Decoding an encoded message gives back every field of it: addresses, ids and payload.
pub proof fn lemma_round_trip<P: Payload>(m: MsgView<P::V>)
    requires
        P::valid(m.msg),
    ensures
        decode_spec::<P>(encode_spec::<P>(m)) == Ok::<MsgView<P::V>, DecodeError>(m),
{
    lemma_reserved_keys();
    P::lemma_unreserved(m.msg);
    let t = seq![(key_type(), ValueView::Str(P::tag_spec(m.msg)))];
    let a = id_fields(key_msg_id(), m.id);
    let b = id_fields(key_in_reply_to(), m.reply_to);
    let pf = P::fields_spec(m.msg);
    let body = encode_body::<P>(m);
    assert(body == t + (a + b + pf)) by {
        assert(t + a + b + pf =~= t + (a + b + pf));
    }
    lemma_lookup_first(t[0], a + b + pf);
    assert(t =~= seq![t[0]]);
    // msg_id
    lemma_lookup_skip(t, a + (b + pf), key_msg_id());
    assert(a + b + pf =~= a + (b + pf));
    if m.id is Some {
        assert(a =~= seq![a[0]]);
        lemma_lookup_first(a[0], b + pf);
    } else {
        assert(a + (b + pf) =~= b + pf);
        lemma_lookup_skip(b, pf, key_msg_id());
        lemma_lookup_absent(pf, key_msg_id());
    }
    // in_reply_to
    lemma_lookup_skip(t + a, b + pf, key_in_reply_to());
    assert(t + (a + b + pf) =~= (t + a) + (b + pf));
    if m.reply_to is Some {
        assert(b =~= seq![b[0]]);
        lemma_lookup_first(b[0], pf);
    } else {
        assert(b + pf =~= pf);
        lemma_lookup_absent(pf, key_in_reply_to());
    }
    // payload
    assert forall|k: Seq<char>| !reserved(k) implies #[trigger] lookup(body, k) == lookup(pf, k) by {
        lemma_lookup_skip(t + a + b, pf, k);
        assert(t + (a + b + pf) =~= (t + a + b) + pf);
    }
    P::lemma_parse(m.msg, body);
}

fn id_field(key: &str, id: Option<u32>, body: &mut Vec<Field>)
    ensures
        fields_view(final(body)@) == fields_view(old(body)@) + id_fields(key@, id),
{
    match id {
        Some(n) => {
            body.push((key.to_owned(), Value::Int(n as i64)));
            assert(fields_view(final(body)@) =~= fields_view(old(body)@) + id_fields(key@, id));
        },
        None => {
            assert(fields_view(final(body)@) =~= fields_view(old(body)@) + id_fields(key@, id));
        },
    }
}

/// Puts a message into its wire shape.
pub fn encode<P: Payload>(m: &Msg<P>) -> (r: Envelope)
    ensures
        r@ == encode_spec::<P>(m@),
{
    let (tag, mut fields) = m.body.msg.to_fields();
    let mut body: Vec<Field> = Vec::new();
    body.push(("type".to_owned(), Value::Str(tag)));
    assert(fields_view(body@) =~= seq![(key_type(), ValueView::Str(P::tag_spec(m.body.msg@)))]);
    id_field("msg_id", m.body.id, &mut body);
    id_field("in_reply_to", m.body.reply_to, &mut body);
    let ghost front = body@;
    let ghost back = fields@;
    body.append(&mut fields);
    assert(fields_view(body@) =~= fields_view(front) + fields_view(back));
    Envelope { src: m.src.clone(), dest: m.dst.clone(), body }
}

fn read_id(v: Option<&Value>) -> (r: Result<Option<u32>, DecodeError>)
    ensures
        r == id_spec(
            match v {
                Some(x) => Some(x@),
                None => None,
            },
        ),
{
    match v {
        None => Ok(None),
        Some(Value::Int(n)) => {
            if 0 <= *n && *n <= u32::MAX as i64 {
                Ok(Some(*n as u32))
            } else {
                Err(DecodeError::Id)
            }
        },
        Some(_) => Err(DecodeError::Id),
    }
}

/// Reads a message from its wire shape.
pub fn decode<P: Payload>(e: &Envelope) -> (r: Result<Msg<P>, DecodeError>)
    ensures
        match r {
            Ok(m) => decode_spec::<P>(e@) == Ok::<MsgView<P::V>, DecodeError>(m@),
            Err(x) => decode_spec::<P>(e@) == Err::<MsgView<P::V>, DecodeError>(x),
        },
{
    let k_type = "type".to_owned();
    let k_id = "msg_id".to_owned();
    let k_reply = "in_reply_to".to_owned();
    let tag = match find(&e.body, &k_type) {
        Some(Value::Str(t)) => t,
        _ => {
            return Err(DecodeError::Tag);
        },
    };
    let id = match read_id(find(&e.body, &k_id)) {
        Ok(id) => id,
        Err(x) => {
            return Err(x);
        },
    };
    let reply_to = match read_id(find(&e.body, &k_reply)) {
        Ok(r) => r,
        Err(x) => {
            return Err(x);
        },
    };
    match P::from_fields(tag, &e.body) {
        Some(msg) => Ok(Msg { src: e.src.clone(), dst: e.dest.clone(), body: Body { id, reply_to, msg } }),
        None => Err(DecodeError::Payload),
    }
}

/// The line break that ends every message on the wire.
pub const NEWLINE: u8 = 10;

/// Frames the text of one encoded message as one line: the text and a line break.
/// Text that holds a line break of its own would not stay one line, and is refused.
pub fn frame(text: &Vec<u8>) -> (r: Option<Vec<u8>>)
    ensures
        match r {
            Some(line) => !text@.contains(NEWLINE) && line@ == text@.push(NEWLINE),
            None => text@.contains(NEWLINE),
        },
{
    let mut line: Vec<u8> = Vec::new();
    let mut i: usize = 0;
    while i < text.len()
        invariant
            i <= text@.len(),
            line@ == text@.subrange(0, i as int),
            !line@.contains(NEWLINE),
        decreases text@.len() - i,
    {
        if text[i] == NEWLINE {
            assert(text@[i as int] == NEWLINE);
            return None;
        }
        line.push(text[i]);
        assert(line@ =~= text@.subrange(0, i + 1));
        i = i + 1;
    }
    assert(line@ =~= text@);
    line.push(NEWLINE);
    Some(line)
}

} // verus!
