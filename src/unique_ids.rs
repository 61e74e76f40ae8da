use vstd::prelude::*;

use crate::message::{Payload, encode_spec, lemma_reserved_keys, reserved};
use crate::node::{Ctx, Fatal};
use crate::wire::{Field, Value, ValueView, fields_view, find, lemma_lookup_single, lookup};

verus! {

/// The payloads of the id generation service.
#[derive(Debug, PartialEq)]
pub enum Msg {
    Generate,
    GenerateOk { id: String },
}

pub enum UniqueIdsView {
    Generate,
    GenerateOk { id: Seq<char> },
}

impl View for Msg {
    type V = UniqueIdsView;

    open spec fn view(&self) -> UniqueIdsView {
        match self {
            Msg::Generate => UniqueIdsView::Generate,
            Msg::GenerateOk { id } => UniqueIdsView::GenerateOk { id: id@ },
        }
    }
}

pub open spec fn key_id() -> Seq<char> {
    "id"@
}

proof fn lemma_unique_ids_strs()
    ensures
        !reserved(key_id()),
        "generate"@ != "generate_ok"@,
{
    lemma_reserved_keys();
    reveal_strlit("id");
    reveal_strlit("generate");
    reveal_strlit("generate_ok");
    assert(key_id().len() == 2);
    assert("generate"@.len() != "generate_ok"@.len());
}

impl Payload for Msg {
    open spec fn valid(v: Self::V) -> bool {
        true
    }

    open spec fn tag_spec(v: UniqueIdsView) -> Seq<char> {
        match v {
            UniqueIdsView::Generate => "generate"@,
            UniqueIdsView::GenerateOk { .. } => "generate_ok"@,
        }
    }

    open spec fn fields_spec(v: UniqueIdsView) -> Seq<(Seq<char>, ValueView)> {
        match v {
            UniqueIdsView::Generate => seq![],
            UniqueIdsView::GenerateOk { id } => seq![(key_id(), ValueView::Str(id))],
        }
    }

    open spec fn parse_spec(tag: Seq<char>, body: Seq<(Seq<char>, ValueView)>) -> Option<UniqueIdsView> {
        if tag == "generate"@ {
            Some(UniqueIdsView::Generate)
        } else if tag == "generate_ok"@ {
            match lookup(body, key_id()) {
                Some(ValueView::Str(id)) => Some(UniqueIdsView::GenerateOk { id }),
                _ => None,
            }
        } else {
            None
        }
    }

    fn to_fields(&self) -> (r: (String, Vec<Field>)) {
        let mut fs: Vec<Field> = Vec::new();
        let tag = match self {
            Msg::Generate => "generate".to_owned(),
            Msg::GenerateOk { id } => {
                fs.push(("id".to_owned(), Value::Str(id.clone())));
                "generate_ok".to_owned()
            },
        };
        assert(fields_view(fs@) =~= Self::fields_spec(self@));
        (tag, fs)
    }

    fn from_fields(tag: &String, body: &Vec<Field>) -> (r: Option<Msg>) {
        if *tag == "generate".to_owned() {
            Some(Msg::Generate)
        } else if *tag == "generate_ok".to_owned() {
            match find(body, &"id".to_owned()) {
                Some(Value::Str(id)) => Some(Msg::GenerateOk { id: id.clone() }),
                _ => None,
            }
        } else {
            None
        }
    }

    proof fn lemma_unreserved(v: UniqueIdsView) {
        lemma_unique_ids_strs();
    }

    proof fn lemma_parse(v: UniqueIdsView, body: Seq<(Seq<char>, ValueView)>) {
        lemma_unique_ids_strs();
        assert(lookup(body, key_id()) == lookup(Self::fields_spec(v), key_id()));
        if let UniqueIdsView::GenerateOk { id } = v {
            lemma_lookup_single((key_id(), ValueView::Str(id)));
        }
    }
}

/// The character of a decimal digit.
pub open spec fn digit(d: nat) -> char {
    if d == 0 {
        '0'
    } else if d == 1 {
        '1'
    } else if d == 2 {
        '2'
    } else if d == 3 {
        '3'
    } else if d == 4 {
        '4'
    } else if d == 5 {
        '5'
    } else if d == 6 {
        '6'
    } else if d == 7 {
        '7'
    } else if d == 8 {
        '8'
    } else {
        '9'
    }
}

/// The decimal digits of `n`, most significant first, without leading zeros.
pub open spec fn decimal(n: nat) -> Seq<char>
    decreases n,
{
    if n < 10 {
        seq![digit(n)]
    } else {
        decimal(n / 10).push(digit(n % 10))
    }
}

/// The id generated by node `node` from local counter value `n`: `<node>:<n>`.
pub open spec fn generated_id(node: Seq<char>, n: nat) -> Seq<char> {
    node + seq![':'] + decimal(n)
}

/// The text of one decimal digit.
fn digit_str(d: u64) -> (r: &'static str)
    requires
        d < 10,
    ensures
        r@ == seq![digit(d as nat)],
{
    if d == 0 {
        proof {
            reveal_strlit("0");
        }
        "0"
    } else if d == 1 {
        proof {
            reveal_strlit("1");
        }
        "1"
    } else if d == 2 {
        proof {
            reveal_strlit("2");
        }
        "2"
    } else if d == 3 {
        proof {
            reveal_strlit("3");
        }
        "3"
    } else if d == 4 {
        proof {
            reveal_strlit("4");
        }
        "4"
    } else if d == 5 {
        proof {
            reveal_strlit("5");
        }
        "5"
    } else if d == 6 {
        proof {
            reveal_strlit("6");
        }
        "6"
    } else if d == 7 {
        proof {
            reveal_strlit("7");
        }
        "7"
    } else if d == 8 {
        proof {
            reveal_strlit("8");
        }
        "8"
    } else {
        proof {
            reveal_strlit("9");
        }
        "9"
    }
}

/// The decimal digits of `n`.
fn decimal_string(n: u64) -> (r: String)
    ensures
        r@ == decimal(n as nat),
    decreases n,
{
    if n < 10 {
        String::from_str(digit_str(n))
    } else {
        let mut r = decimal_string(n / 10);
        r.append(digit_str(n % 10));
        r
    }
}

/// The id `<node>:<n>`.
fn format_id(node: &str, n: u64) -> (r: String)
    ensures
        r@ == generated_id(node@, n as nat),
{
    let mut r = node.to_owned();
    proof {
        reveal_strlit(":");
    }
    r.append(":");
    let digits = decimal_string(n);
    r.append(digits.as_str());
    r
}

proof fn lemma_decimal_len(n: nat)
    ensures
        n < 10 ==> decimal(n).len() == 1,
        n >= 10 ==> decimal(n).len() >= 2,
    decreases n,
{
    if n >= 10 {
        lemma_decimal_len(n / 10);
    }
}

proof fn lemma_decimal_injective(a: nat, b: nat)
    requires
        decimal(a) == decimal(b),
    ensures
        a == b,
    decreases a,
{
    lemma_decimal_len(a);
    lemma_decimal_len(b);
    if a < 10 && b < 10 {
        assert(decimal(a)[0] == digit(a));
        assert(decimal(b)[0] == digit(b));
    } else if a >= 10 && b >= 10 {
        assert(decimal(a).last() == digit(a % 10));
        assert(decimal(b).last() == digit(b % 10));
        assert(decimal(a).drop_last() =~= decimal(a / 10));
        assert(decimal(b).drop_last() =~= decimal(b / 10));
        lemma_decimal_injective(a / 10, b / 10);
    }
}

/// Ids generated by one node from two different counter values differ.
pub proof fn lemma_generated_ids_distinct(node: Seq<char>, a: nat, b: nat)
    requires
        a != b,
    ensures
        generated_id(node, a) != generated_id(node, b),
{
    if generated_id(node, a) == generated_id(node, b) {
        let k = node.len() as int + 1;
        assert(generated_id(node, a).skip(k) =~= decimal(a));
        assert(generated_id(node, b).skip(k) =~= decimal(b));
        lemma_decimal_injective(a, b);
    }
}

/// Handles one message of the id generation service: a `generate` request is
/// answered with the id `<node>:<counter>`, and the counter moves on by one.
pub fn unique_ids(msg: Msg, ctx: &mut Ctx, counter: &mut u64) -> (r: Result<(), Fatal>)
    requires
        old(ctx).wf(),
        old(ctx).count < u32::MAX,
        *old(counter) < u64::MAX,
    ensures
        final(ctx).wf(),
        final(ctx).same_node(old(ctx)),
        match msg@ {
            UniqueIdsView::Generate => {
                &&& r is Ok
                &&& *final(counter) == *old(counter) + 1
                &&& final(ctx).count == old(ctx).count + 1
                &&& final(ctx).sent() == old(ctx).sent().push(
                    encode_spec::<Msg>(
                        old(ctx).reply_spec::<Msg>(
                            UniqueIdsView::GenerateOk {
                                id: generated_id(old(ctx).node_id@, *old(counter) as nat),
                            },
                        ),
                    ),
                )
            },
            UniqueIdsView::GenerateOk { .. } => {
                &&& r == Err::<(), Fatal>(Fatal::Protocol)
                &&& *final(counter) == *old(counter)
                &&& *final(ctx) == *old(ctx)
            },
        },
{
    match msg {
        Msg::Generate => {
            let id = format_id(ctx.node_id.as_str(), *counter);
            *counter = *counter + 1;
            ctx.reply(Msg::GenerateOk { id });
            Ok(())
        },
        Msg::GenerateOk { .. } => Err(Fatal::Protocol),
    }
}

} // verus!
