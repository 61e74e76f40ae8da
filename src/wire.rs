use vstd::prelude::*;

verus! {

/// A field value of a message body, as it stands on the wire.
#[derive(Debug, PartialEq)]
pub enum Value {
    Int(i64),
    Str(String),
    Ints(Vec<i64>),
    Strs(Vec<String>),
    Table(Vec<(String, Vec<String>)>),
}

/// The mathematical model of a field value.
pub enum ValueView {
    Int(int),
    Str(Seq<char>),
    Ints(Seq<i64>),
    Strs(Seq<Seq<char>>),
    Table(Seq<(Seq<char>, Seq<Seq<char>>)>),
}

pub open spec fn strs_view(s: Seq<String>) -> Seq<Seq<char>> {
    Seq::new(s.len(), |i: int| s[i]@)
}

pub open spec fn table_view(t: Seq<(String, Vec<String>)>) -> Seq<(Seq<char>, Seq<Seq<char>>)> {
    Seq::new(t.len(), |i: int| (t[i].0@, strs_view(t[i].1@)))
}

impl View for Value {
    type V = ValueView;

    open spec fn view(&self) -> ValueView {
        match self {
            Value::Int(n) => ValueView::Int(*n as int),
            Value::Str(s) => ValueView::Str(s@),
            Value::Ints(v) => ValueView::Ints(v@),
            Value::Strs(v) => ValueView::Strs(strs_view(v@)),
            Value::Table(t) => ValueView::Table(table_view(t@)),
        }
    }
}

/// A field of a body: its key and its value.
pub type Field = (String, Value);

/// The model of a list of fields.
pub open spec fn fields_view(fs: Seq<Field>) -> Seq<(Seq<char>, ValueView)> {
    Seq::new(fs.len(), |i: int| (fs[i].0@, fs[i].1@))
}

/// The value of the first field named `k`, if any.
pub open spec fn lookup(fs: Seq<(Seq<char>, ValueView)>, k: Seq<char>) -> Option<ValueView>
    decreases fs.len(),
{
    if fs.len() == 0 {
        None
    } else if fs[0].0 == k {
        Some(fs[0].1)
    } else {
        lookup(fs.drop_first(), k)
    }
}

/// Fields placed in front whose keys differ from `k` do not change what `k` finds.
pub proof fn lemma_lookup_skip(pre: Seq<(Seq<char>, ValueView)>, fs: Seq<(Seq<char>, ValueView)>, k: Seq<char>)
    requires
        forall|i: int| 0 <= i < pre.len() ==> pre[i].0 != k,
    ensures
        lookup(pre + fs, k) == lookup(fs, k),
    decreases pre.len(),
{
    if pre.len() > 0 {
        assert((pre + fs).drop_first() =~= pre.drop_first() + fs);
        lemma_lookup_skip(pre.drop_first(), fs, k);
    } else {
        assert(pre + fs =~= fs);
    }
}

/// A field in front whose key is `k` is what `k` finds.
pub proof fn lemma_lookup_first(f: (Seq<char>, ValueView), fs: Seq<(Seq<char>, ValueView)>)
    ensures
        lookup(seq![f] + fs, f.0) == Some(f.1),
{
    assert((seq![f] + fs)[0] == f);
}

/// What each key of a two-field body finds.
pub proof fn lemma_lookup_pair(a: (Seq<char>, ValueView), b: (Seq<char>, ValueView))
    requires
        a.0 != b.0,
    ensures
        lookup(seq![a, b], a.0) == Some(a.1),
        lookup(seq![a, b], b.0) == Some(b.1),
{
    assert(seq![a, b] =~= seq![a] + seq![b]);
    lemma_lookup_first(a, seq![b]);
    lemma_lookup_skip(seq![a], seq![b], b.0);
    lemma_lookup_first(b, seq![]);
    assert(seq![b] + seq![] =~= seq![b]);
}

/// What the key of a one-field body finds.
pub proof fn lemma_lookup_single(a: (Seq<char>, ValueView))
    ensures
        lookup(seq![a], a.0) == Some(a.1),
{
    lemma_lookup_first(a, seq![]);
    assert(seq![a] + seq![] =~= seq![a]);
}

/// Finds the value of the first field named `key`.
pub fn find<'a>(fs: &'a Vec<Field>, key: &String) -> (r: Option<&'a Value>)
    ensures
        match r {
            Some(v) => lookup(fields_view(fs@), key@) == Some(v@),
            None => lookup(fields_view(fs@), key@) is None,
        },
{
    let n = fs.len();
    let mut i: usize = 0;
    assert(fields_view(fs@).skip(0) =~= fields_view(fs@));
    while i < n
        invariant
            n == fs@.len(),
            i <= n,
            lookup(fields_view(fs@), key@) == lookup(fields_view(fs@).skip(i as int), key@),
        decreases n - i,
    {
        let ghost rest = fields_view(fs@).skip(i as int);
        assert(rest[0] == (fs@[i as int].0@, fs@[i as int].1@));
        if fs[i].0 == *key {
            return Some(&fs[i].1);
        }
        assert(rest.drop_first() =~= fields_view(fs@).skip(i + 1));
        i = i + 1;
    }
    assert(fields_view(fs@).skip(i as int).len() == 0);
    None
}

/// Copies a list of strings.
pub fn copy_strs(v: &Vec<String>) -> (r: Vec<String>)
    ensures
        r@ == v@,
{
    let mut r: Vec<String> = Vec::new();
    let mut i: usize = 0;
    while i < v.len()
        invariant
            i <= v@.len(),
            r@ == v@.subrange(0, i as int),
        decreases v@.len() - i,
    {
        r.push(v[i].clone());
        assert(r@ =~= v@.subrange(0, i + 1));
        i = i + 1;
    }
    assert(r@ =~= v@);
    r
}

/// Copies a table of strings to lists of strings.
pub fn copy_table(t: &Vec<(String, Vec<String>)>) -> (r: Vec<(String, Vec<String>)>)
    ensures
        table_view(r@) == table_view(t@),
{
    let mut r: Vec<(String, Vec<String>)> = Vec::new();
    let mut i: usize = 0;
    while i < t.len()
        invariant
            i <= t@.len(),
            r@.len() == i,
            table_view(r@) == table_view(t@.subrange(0, i as int)),
        decreases t@.len() - i,
    {
        let row = copy_strs(&t[i].1);
        let ghost before = r@;
        r.push((t[i].0.clone(), row));
        assert forall|j: int| 0 <= j < i + 1 implies #[trigger] table_view(r@)[j] == table_view(
            t@.subrange(0, i + 1),
        )[j] by {
            if j < i {
                assert(r@[j] == before[j]);
                assert(table_view(before)[j] == table_view(t@.subrange(0, i as int))[j]);
            }
        }
        assert(table_view(r@) =~= table_view(t@.subrange(0, i + 1)));
        i = i + 1;
    }
    assert(t@.subrange(0, i as int) =~= t@);
    r
}

/// No two rows of a table have the same key.
pub open spec fn keys_unique(t: Seq<(Seq<char>, Seq<Seq<char>>)>) -> bool {
    forall|i: int, j: int| 0 <= i < j < t.len() ==> t[i].0 != t[j].0
}

/// Tells whether no two rows of a table have the same key.
pub fn keys_distinct(t: &Vec<(String, Vec<String>)>) -> (r: bool)
    ensures
        r == keys_unique(table_view(t@)),
{
    let n = t.len();
    let mut i: usize = 0;
    while i < n
        invariant
            n == t@.len(),
            i <= n,
            forall|a: int, b: int| 0 <= a < i && a < b < n ==> t@[a].0@ != t@[b].0@,
        decreases n - i,
    {
        let mut j: usize = i + 1;
        while j < n
            invariant
                n == t@.len(),
                i < n,
                i < j <= n,
                forall|a: int, b: int| 0 <= a < i && a < b < n ==> t@[a].0@ != t@[b].0@,
                forall|b: int| i < b < j ==> t@[i as int].0@ != t@[b].0@,
            decreases n - j,
        {
            if t[i].0 == t[j].0 {
                assert(table_view(t@)[i as int].0 == table_view(t@)[j as int].0);
                return false;
            }
            j = j + 1;
        }
        i = i + 1;
    }
    assert forall|a: int, b: int| 0 <= a < b < table_view(t@).len() implies table_view(t@)[a].0
        != table_view(t@)[b].0 by {
        assert(table_view(t@)[a].0 == t@[a].0@);
        assert(table_view(t@)[b].0 == t@[b].0@);
    }
    true
}

/// Copies a list of integers.
pub fn copy_ints(v: &Vec<i64>) -> (r: Vec<i64>)
    ensures
        r@ == v@,
{
    let mut r: Vec<i64> = Vec::new();
    let mut i: usize = 0;
    while i < v.len()
        invariant
            i <= v@.len(),
            r@ == v@.subrange(0, i as int),
        decreases v@.len() - i,
    {
        r.push(v[i]);
        assert(r@ =~= v@.subrange(0, i + 1));
        i = i + 1;
    }
    assert(r@ =~= v@);
    r
}

} // verus!
