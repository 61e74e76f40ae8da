use vstd::prelude::*;

use crate::message::{Payload, encode_spec, key_type, lemma_reserved_keys, reserved};
use crate::node::{Ctx, Fatal};
use crate::wire::{Field, Value, ValueView, fields_view, find, lemma_lookup_single, lookup};

verus! {

/// The payloads of the echo service.
#[derive(Debug, PartialEq)]
pub enum Msg {
    Echo { echo: String },
    EchoOk { echo: String },
}

pub enum EchoView {
    Echo { echo: Seq<char> },
    EchoOk { echo: Seq<char> },
}

impl View for Msg {
    type V = EchoView;

    open spec fn view(&self) -> EchoView {
        match self {
            Msg::Echo { echo } => EchoView::Echo { echo: echo@ },
            Msg::EchoOk { echo } => EchoView::EchoOk { echo: echo@ },
        }
    }
}

pub open spec fn key_echo() -> Seq<char> {
    "echo"@
}

proof fn lemma_echo_strs()
    ensures
        !reserved(key_echo()),
        "echo"@ != "echo_ok"@,
{
    lemma_reserved_keys();
    reveal_strlit("echo");
    reveal_strlit("echo_ok");
    assert(key_echo().len() == 4 && key_echo()[0] != key_type()[0]);
    assert("echo"@.len() != "echo_ok"@.len());
}

impl Payload for Msg {
    open spec fn valid(v: Self::V) -> bool {
        true
    }

    open spec fn tag_spec(v: EchoView) -> Seq<char> {
        match v {
            EchoView::Echo { .. } => "echo"@,
            EchoView::EchoOk { .. } => "echo_ok"@,
        }
    }

    open spec fn fields_spec(v: EchoView) -> Seq<(Seq<char>, ValueView)> {
        match v {
            EchoView::Echo { echo } => seq![(key_echo(), ValueView::Str(echo))],
            EchoView::EchoOk { echo } => seq![(key_echo(), ValueView::Str(echo))],
        }
    }

    open spec fn parse_spec(tag: Seq<char>, body: Seq<(Seq<char>, ValueView)>) -> Option<EchoView> {
        match lookup(body, key_echo()) {
            Some(ValueView::Str(echo)) => if tag == "echo"@ {
                Some(EchoView::Echo { echo })
            } else if tag == "echo_ok"@ {
                Some(EchoView::EchoOk { echo })
            } else {
                None
            },
            _ => None,
        }
    }

    fn to_fields(&self) -> (r: (String, Vec<Field>)) {
        let mut fs: Vec<Field> = Vec::new();
        let tag = match self {
            Msg::Echo { echo } => {
                fs.push(("echo".to_owned(), Value::Str(echo.clone())));
                "echo".to_owned()
            },
            Msg::EchoOk { echo } => {
                fs.push(("echo".to_owned(), Value::Str(echo.clone())));
                "echo_ok".to_owned()
            },
        };
        assert(fields_view(fs@) =~= Self::fields_spec(self@));
        (tag, fs)
    }

    fn from_fields(tag: &String, body: &Vec<Field>) -> (r: Option<Msg>) {
        match find(body, &"echo".to_owned()) {
            Some(Value::Str(echo)) => {
                if *tag == "echo".to_owned() {
                    Some(Msg::Echo { echo: echo.clone() })
                } else if *tag == "echo_ok".to_owned() {
                    Some(Msg::EchoOk { echo: echo.clone() })
                } else {
                    None
                }
            },
            _ => None,
        }
    }

    proof fn lemma_unreserved(v: EchoView) {
        lemma_echo_strs();
    }

    proof fn lemma_parse(v: EchoView, body: Seq<(Seq<char>, ValueView)>) {
        lemma_echo_strs();
        assert(lookup(body, key_echo()) == lookup(Self::fields_spec(v), key_echo()));
        match v {
            EchoView::Echo { echo } => lemma_lookup_single((key_echo(), ValueView::Str(echo))),
            EchoView::EchoOk { echo } => lemma_lookup_single((key_echo(), ValueView::Str(echo))),
        }
    }
}

/// The answer to an echo request: the same text, tagged `echo_ok`.
pub fn echo(msg: Msg) -> (r: Result<Msg, Fatal>)
    ensures
        match msg@ {
            EchoView::Echo { echo } => r matches Ok(m) && m@ == EchoView::EchoOk { echo },
            EchoView::EchoOk { .. } => r == Err::<Msg, Fatal>(Fatal::Protocol),
        },
{
    match msg {
        Msg::Echo { echo } => Ok(Msg::EchoOk { echo }),
        Msg::EchoOk { .. } => Err(Fatal::Protocol),
    }
}

/// Handles one message of the echo service by answering it with its own text.
pub fn handle_echo(msg: Msg, ctx: &mut Ctx) -> (r: Result<(), Fatal>)
    requires
        old(ctx).wf(),
        old(ctx).count < u32::MAX,
    ensures
        final(ctx).wf(),
        final(ctx).same_node(old(ctx)),
        match msg@ {
            EchoView::Echo { echo } => {
                &&& r is Ok
                &&& final(ctx).count == old(ctx).count + 1
                &&& final(ctx).sent() == old(ctx).sent().push(
                    encode_spec::<Msg>(old(ctx).reply_spec::<Msg>(EchoView::EchoOk { echo })),
                )
            },
            EchoView::EchoOk { .. } => r == Err::<(), Fatal>(Fatal::Protocol) && *final(ctx) == *old(ctx),
        },
{
    match echo(msg) {
        Ok(answer) => {
            ctx.reply(answer);
            Ok(())
        },
        Err(x) => Err(x),
    }
}

/// An addressed echo message.
pub struct FullMsg {
    pub src: String,
    pub dst: String,
    pub body: Msg,
}

impl FullMsg {
    /// Addresses `body` back to where this message came from.
    pub fn reply(self, body: Msg) -> (r: FullMsg)
        ensures
            r.src == self.dst,
            r.dst == self.src,
            r.body == body,
    {
        FullMsg { src: self.dst, dst: self.src, body }
    }
}

} // verus!
