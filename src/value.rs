//! The generic value tree that every parsed file turns into.
use crate::decimal::{digits_of, push_digits, Decimal};
use crate::text::push_str;
use vstd::prelude::*;

verus! {

broadcast use vstd::seq::group_seq_axioms, vstd::std_specs::vec::group_vec_axioms;

/// A value of a script file.
#[derive(Debug, PartialEq)]
pub enum ConfigValue {
    /// `{ key = value ... }`: pairs in file order; keys may repeat.
    Object(Vec<ConfigPair>),
    /// `{ value ... }`: bare values in file order.
    Array(Vec<ConfigValue>),
    /// A quoted text, without its quotes.
    String(String),
    /// A number literal.
    Number(Decimal),
    /// A bare word, including `yes` and `no`.
    Identifier(String),
    /// A `year.month.day` literal.
    Date(u16, u8, u8),
    /// A word applied to the values of a following brace block: `rgb { 1 2 3 }`.
    Named(String, Vec<ConfigValue>),
}

/// One `identifier sign value` assignment.
#[derive(Debug, PartialEq)]
pub struct ConfigPair {
    pub identifier: String,
    pub sign: String,
    pub value: ConfigValue,
}

/// The mathematical model of a `ConfigValue`.
pub enum SpecValue {
    Object(Seq<SpecPair>),
    Array(Seq<SpecValue>),
    Str(Seq<char>),
    Number(Decimal),
    Identifier(Seq<char>),
    Date(u16, u8, u8),
    Named(Seq<char>, Seq<SpecValue>),
}

/// The mathematical model of a `ConfigPair`.
pub struct SpecPair {
    pub identifier: Seq<char>,
    pub sign: Seq<char>,
    pub value: SpecValue,
}

pub open spec fn view_value(v: ConfigValue) -> SpecValue
    decreases v,
{
    match v {
        ConfigValue::Object(ps) => SpecValue::Object(view_pairs(ps@)),
        ConfigValue::Array(vs) => SpecValue::Array(view_values(vs@)),
        ConfigValue::String(s) => SpecValue::Str(s@),
        ConfigValue::Number(d) => SpecValue::Number(d),
        ConfigValue::Identifier(s) => SpecValue::Identifier(s@),
        ConfigValue::Date(y, m, d) => SpecValue::Date(y, m, d),
        ConfigValue::Named(n, vs) => SpecValue::Named(n@, view_values(vs@)),
    }
}

pub open spec fn view_pair(p: ConfigPair) -> SpecPair
    decreases p,
{
    SpecPair { identifier: p.identifier@, sign: p.sign@, value: view_value(p.value) }
}

pub open spec fn view_pairs(ps: Seq<ConfigPair>) -> Seq<SpecPair>
    decreases ps,
{
    if ps.len() == 0 {
        Seq::empty()
    } else {
        view_pairs(ps.drop_last()).push(view_pair(ps.last()))
    }
}

pub open spec fn view_values(vs: Seq<ConfigValue>) -> Seq<SpecValue>
    decreases vs,
{
    if vs.len() == 0 {
        Seq::empty()
    } else {
        view_values(vs.drop_last()).push(view_value(vs.last()))
    }
}

impl View for ConfigValue {
    type V = SpecValue;

    open spec fn view(&self) -> SpecValue {
        view_value(*self)
    }
}

impl View for ConfigPair {
    type V = SpecPair;

    open spec fn view(&self) -> SpecPair {
        view_pair(*self)
    }
}

pub proof fn lemma_view_pairs_push(ps: Seq<ConfigPair>, p: ConfigPair)
    ensures
        view_pairs(ps.push(p)) == view_pairs(ps).push(view_pair(p)),
{
    assert(ps.push(p).drop_last() =~= ps);
}

pub proof fn lemma_view_values_push(vs: Seq<ConfigValue>, v: ConfigValue)
    ensures
        view_values(vs.push(v)) == view_values(vs).push(view_value(v)),
{
    assert(vs.push(v).drop_last() =~= vs);
}

pub proof fn lemma_view_pairs_len(ps: Seq<ConfigPair>)
    ensures
        view_pairs(ps).len() == ps.len(),
    decreases ps.len(),
{
    if ps.len() > 0 {
        lemma_view_pairs_len(ps.drop_last());
    }
}

/// Element `i` of the model of a sequence of pairs is the model of pair `i`.
pub proof fn lemma_view_pairs_index(ps: Seq<ConfigPair>, i: int)
    requires
        0 <= i < ps.len(),
    ensures
        view_pairs(ps).len() == ps.len(),
        view_pairs(ps)[i] == view_pair(ps[i]),
    decreases ps.len(),
{
    lemma_view_pairs_len(ps);
    if i < ps.len() - 1 {
        lemma_view_pairs_index(ps.drop_last(), i);
    }
}

// ---------------------------------------------------------------------------
// Canonical text
// ---------------------------------------------------------------------------

/// The canonical text of a value.
pub open spec fn value_text(v: SpecValue) -> Seq<char>
    decreases v,
{
    match v {
        SpecValue::Object(ps) => seq!['{', '\n'] + pairs_text(ps) + seq!['}'],
        SpecValue::Array(vs) => seq!['{', ' '] + values_text(vs) + seq!['}'],
        SpecValue::Str(s) => seq!['"'] + s + seq!['"'],
        SpecValue::Number(d) => d.text(),
        SpecValue::Identifier(s) => s,
        SpecValue::Date(y, m, d) => digits_of(y as nat) + seq!['.'] + digits_of(m as nat) + seq![
            '.',
        ] + digits_of(d as nat),
        SpecValue::Named(n, vs) => n + seq![' '] + values_text(vs),
    }
}

/// The canonical text of a pair: `identifier sign value` and a newline.
pub open spec fn pair_text(p: SpecPair) -> Seq<char>
    decreases p,
{
    p.identifier + seq![' '] + p.sign + seq![' '] + value_text(p.value) + seq!['\n']
}

/// Each pair, indented by three spaces.
pub open spec fn pairs_text(ps: Seq<SpecPair>) -> Seq<char>
    decreases ps,
{
    if ps.len() == 0 {
        Seq::empty()
    } else {
        pairs_text(ps.drop_last()) + seq![' ', ' ', ' '] + pair_text(ps.last())
    }
}

/// Each value, followed by a space.
pub open spec fn values_text(vs: Seq<SpecValue>) -> Seq<char>
    decreases vs,
{
    if vs.len() == 0 {
        Seq::empty()
    } else {
        values_text(vs.drop_last()) + value_text(vs.last()) + seq![' ']
    }
}

fn write_values(vs: &Vec<ConfigValue>, out: &mut String)
    ensures
        final(out)@ == old(out)@ + values_text(view_values(vs@)),
    decreases vs, 1nat,
{
    let mut i: usize = 0;
    assert(vs@.subrange(0, 0) =~= Seq::<ConfigValue>::empty());
    while i < vs.len()
        invariant
            i <= vs@.len(),
            out@ == old(out)@ + values_text(view_values(vs@.subrange(0, i as int))),
        decreases vs.len() - i,
    {
        write_value(&vs[i], out);
        out.push(' ');
        proof {
            let s = vs@.subrange(0, i as int);
            assert(vs@.subrange(0, i + 1) =~= s.push(vs@[i as int]));
            lemma_view_values_push(s, vs@[i as int]);
            assert(view_values(s.push(vs@[i as int])).drop_last() =~= view_values(s));
        }
        i = i + 1;
    }
    assert(vs@.subrange(0, vs@.len() as int) =~= vs@);
}

fn write_pairs(ps: &Vec<ConfigPair>, out: &mut String)
    ensures
        final(out)@ == old(out)@ + pairs_text(view_pairs(ps@)),
    decreases ps, 1nat,
{
    let mut i: usize = 0;
    assert(ps@.subrange(0, 0) =~= Seq::<ConfigPair>::empty());
    while i < ps.len()
        invariant
            i <= ps@.len(),
            out@ == old(out)@ + pairs_text(view_pairs(ps@.subrange(0, i as int))),
        decreases ps.len() - i,
    {
        push_str(out, "   ");
        proof {
            reveal_strlit("   ");
        }
        write_pair(&ps[i], out);
        proof {
            let s = ps@.subrange(0, i as int);
            assert(ps@.subrange(0, i + 1) =~= s.push(ps@[i as int]));
            lemma_view_pairs_push(s, ps@[i as int]);
            assert(view_pairs(s.push(ps@[i as int])).drop_last() =~= view_pairs(s));
        }
        i = i + 1;
    }
    assert(ps@.subrange(0, ps@.len() as int) =~= ps@);
}

fn write_pair(p: &ConfigPair, out: &mut String)
    ensures
        final(out)@ == old(out)@ + pair_text(view_pair(*p)),
    decreases p, 2nat,
{
    let ghost start = out@;
    push_str(out, p.identifier.as_str());
    out.push(' ');
    push_str(out, p.sign.as_str());
    out.push(' ');
    write_value(&p.value, out);
    out.push('\n');
    assert(out@ =~= start + pair_text(view_pair(*p)));
}

fn write_value(v: &ConfigValue, out: &mut String)
    ensures
        final(out)@ == old(out)@ + value_text(view_value(*v)),
    decreases v, 2nat,
{
    let ghost start = out@;
    match v {
        ConfigValue::Object(ps) => {
            out.push('{');
            out.push('\n');
            write_pairs(ps, out);
            out.push('}');
        },
        ConfigValue::Array(vs) => {
            out.push('{');
            out.push(' ');
            write_values(vs, out);
            out.push('}');
        },
        ConfigValue::String(s) => {
            out.push('"');
            push_str(out, s.as_str());
            out.push('"');
        },
        ConfigValue::Number(d) => {
            d.write_to(out);
        },
        ConfigValue::Identifier(s) => {
            push_str(out, s.as_str());
        },
        ConfigValue::Date(y, m, d) => {
            push_digits(out, *y as u64);
            out.push('.');
            push_digits(out, *m as u64);
            out.push('.');
            push_digits(out, *d as u64);
        },
        ConfigValue::Named(n, vs) => {
            push_str(out, n.as_str());
            out.push(' ');
            write_values(vs, out);
        },
    }
    assert(out@ =~= start + value_text(view_value(*v)));
}

impl ConfigValue {
    /// The canonical text of this value.
    pub fn render(&self) -> (r: String)
        ensures
            r@ == value_text(self@),
    {
        let mut r = String::new();
        write_value(self, &mut r);
        r
    }

    /// A copy of this value.
    pub fn duplicate(&self) -> (r: ConfigValue)
        ensures
            r@ == self@,
        decreases self, 2nat,
    {
        match self {
            ConfigValue::Object(ps) => ConfigValue::Object(duplicate_pairs(ps)),
            ConfigValue::Array(vs) => ConfigValue::Array(duplicate_values(vs)),
            ConfigValue::String(s) => ConfigValue::String(s.clone()),
            ConfigValue::Number(d) => ConfigValue::Number(*d),
            ConfigValue::Identifier(s) => ConfigValue::Identifier(s.clone()),
            ConfigValue::Date(y, m, d) => ConfigValue::Date(*y, *m, *d),
            ConfigValue::Named(n, vs) => ConfigValue::Named(n.clone(), duplicate_values(vs)),
        }
    }
}

impl ConfigPair {
    /// The canonical text of this pair.
    pub fn render(&self) -> (r: String)
        ensures
            r@ == pair_text(self@),
    {
        let mut r = String::new();
        write_pair(self, &mut r);
        r
    }

    /// A copy of this pair.
    pub fn duplicate(&self) -> (r: ConfigPair)
        ensures
            r@ == self@,
        decreases self, 2nat,
    {
        ConfigPair {
            identifier: self.identifier.clone(),
            sign: self.sign.clone(),
            value: self.value.duplicate(),
        }
    }
}

fn duplicate_pairs(ps: &Vec<ConfigPair>) -> (r: Vec<ConfigPair>)
    ensures
        view_pairs(r@) == view_pairs(ps@),
    decreases ps, 1nat,
{
    let mut r: Vec<ConfigPair> = Vec::new();
    let mut i: usize = 0;
    while i < ps.len()
        invariant
            i <= ps@.len(),
            view_pairs(r@) == view_pairs(ps@.subrange(0, i as int)),
        decreases ps.len() - i,
    {
        let p = ps[i].duplicate();
        proof {
            lemma_view_pairs_push(r@, p);
            let s = ps@.subrange(0, i as int);
            assert(ps@.subrange(0, i + 1) =~= s.push(ps@[i as int]));
            lemma_view_pairs_push(s, ps@[i as int]);
        }
        r.push(p);
        i = i + 1;
    }
    assert(ps@.subrange(0, ps@.len() as int) =~= ps@);
    r
}

fn duplicate_values(vs: &Vec<ConfigValue>) -> (r: Vec<ConfigValue>)
    ensures
        view_values(r@) == view_values(vs@),
    decreases vs, 1nat,
{
    let mut r: Vec<ConfigValue> = Vec::new();
    let mut i: usize = 0;
    while i < vs.len()
        invariant
            i <= vs@.len(),
            view_values(r@) == view_values(vs@.subrange(0, i as int)),
        decreases vs.len() - i,
    {
        let v = vs[i].duplicate();
        proof {
            lemma_view_values_push(r@, v);
            let s = vs@.subrange(0, i as int);
            assert(vs@.subrange(0, i + 1) =~= s.push(vs@[i as int]));
            lemma_view_values_push(s, vs@[i as int]);
        }
        r.push(v);
        i = i + 1;
    }
    assert(vs@.subrange(0, vs@.len() as int) =~= vs@);
    r
}

} // verus!
