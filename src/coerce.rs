//! Best-effort conversions of a value into a plain type. They never fail: a value of
//! the wrong kind gives the type's default.
use crate::decimal::Decimal;
use crate::text::same_text;
use crate::value::{
    value_text, view_pairs, view_values, ConfigPair, ConfigValue, SpecPair, SpecValue,
};
use vstd::prelude::*;

verus! {

/// The truncated value of a number; 0 for any other value.
pub open spec fn trunc_of(v: SpecValue) -> int {
    match v {
        SpecValue::Number(d) => d.trunc(),
        _ => 0,
    }
}

pub open spec fn clamp(x: int, lo: int, hi: int) -> int {
    if x < lo {
        lo
    } else if x > hi {
        hi
    } else {
        x
    }
}

/// A number as it is; zero for any other value.
pub open spec fn decimal_of(v: SpecValue) -> Decimal {
    match v {
        SpecValue::Number(d) => d,
        _ => Decimal { negative: false, magnitude: 0, scale: 0 },
    }
}

/// Only the identifier `yes` is true.
pub open spec fn bool_of(v: SpecValue) -> bool {
    v == SpecValue::Identifier("yes"@)
}

/// The text of a quoted text or an identifier; the canonical text of anything else.
pub open spec fn text_of(v: SpecValue) -> Seq<char> {
    match v {
        SpecValue::Str(s) => s,
        SpecValue::Identifier(s) => s,
        _ => value_text(v),
    }
}

pub open spec fn is_textual(v: SpecValue) -> bool {
    v is Str || v is Identifier
}

/// The texts of the quoted texts and identifiers among `vs`, in order.
pub open spec fn textual_items(vs: Seq<SpecValue>) -> Seq<Seq<char>>
    decreases vs.len(),
{
    if vs.len() == 0 {
        Seq::empty()
    } else {
        let rest = textual_items(vs.drop_last());
        if is_textual(vs.last()) {
            rest.push(text_of(vs.last()))
        } else {
            rest
        }
    }
}

/// The texts of the pair values that are quoted texts or identifiers, in order.
pub open spec fn textual_pair_values(ps: Seq<SpecPair>) -> Seq<Seq<char>>
    decreases ps.len(),
{
    if ps.len() == 0 {
        Seq::empty()
    } else {
        let rest = textual_pair_values(ps.drop_last());
        if is_textual(ps.last().value) {
            rest.push(text_of(ps.last().value))
        } else {
            rest
        }
    }
}

/// The texts held by an array or an object; nothing for any other value.
pub open spec fn strings_of(v: SpecValue) -> Seq<Seq<char>> {
    match v {
        SpecValue::Array(vs) => textual_items(vs),
        SpecValue::Object(ps) => textual_pair_values(ps),
        _ => Seq::empty(),
    }
}

/// The identifiers of the pairs of an object, in order; nothing for any other value.
pub open spec fn identifiers_of(v: SpecValue) -> Seq<Seq<char>> {
    match v {
        SpecValue::Object(ps) => ps.map_values(|p: SpecPair| p.identifier),
        _ => Seq::empty(),
    }
}

pub open spec fn view_strings(ss: Seq<String>) -> Seq<Seq<char>> {
    ss.map_values(|s: String| s@)
}

pub proof fn lemma_view_strings_push(ss: Seq<String>, s: String)
    ensures
        view_strings(ss.push(s)) == view_strings(ss).push(s@),
{
    assert(view_strings(ss.push(s)) =~= view_strings(ss).push(s@));
}

fn clamped(x: i128, lo: i128, hi: i128) -> (r: i128)
    requires
        lo <= hi,
    ensures
        r == clamp(x as int, lo as int, hi as int),
{
    if x < lo {
        lo
    } else if x > hi {
        hi
    } else {
        x
    }
}

fn truncated_number(v: &ConfigValue) -> (r: i128)
    ensures
        r == trunc_of(v@),
{
    match v {
        ConfigValue::Number(d) => d.truncated(),
        _ => 0,
    }
}

impl ConfigValue {
    pub fn to_i8(&self) -> (r: i8)
        ensures
            r as int == clamp(trunc_of(self@), i8::MIN as int, i8::MAX as int),
    {
        clamped(truncated_number(self), i8::MIN as i128, i8::MAX as i128) as i8
    }

    pub fn to_i16(&self) -> (r: i16)
        ensures
            r as int == clamp(trunc_of(self@), i16::MIN as int, i16::MAX as int),
    {
        clamped(truncated_number(self), i16::MIN as i128, i16::MAX as i128) as i16
    }

    pub fn to_i32(&self) -> (r: i32)
        ensures
            r as int == clamp(trunc_of(self@), i32::MIN as int, i32::MAX as int),
    {
        clamped(truncated_number(self), i32::MIN as i128, i32::MAX as i128) as i32
    }

    pub fn to_i64(&self) -> (r: i64)
        ensures
            r as int == clamp(trunc_of(self@), i64::MIN as int, i64::MAX as int),
    {
        clamped(truncated_number(self), i64::MIN as i128, i64::MAX as i128) as i64
    }

    pub fn to_u8(&self) -> (r: u8)
        ensures
            r as int == clamp(trunc_of(self@), 0, u8::MAX as int),
    {
        clamped(truncated_number(self), 0, u8::MAX as i128) as u8
    }

    pub fn to_u16(&self) -> (r: u16)
        ensures
            r as int == clamp(trunc_of(self@), 0, u16::MAX as int),
    {
        clamped(truncated_number(self), 0, u16::MAX as i128) as u16
    }

    /// The number itself, or zero for any other value.
    pub fn to_decimal(&self) -> (r: Decimal)
        ensures
            r == decimal_of(self@),
    {
        match self {
            ConfigValue::Number(d) => *d,
            _ => Decimal { negative: false, magnitude: 0, scale: 0 },
        }
    }

    pub fn to_bool(&self) -> (r: bool)
        ensures
            r == bool_of(self@),
    {
        match self {
            ConfigValue::Identifier(s) => same_text(s.as_str(), "yes"),
            _ => false,
        }
    }

    pub fn to_string(&self) -> (r: String)
        ensures
            r@ == text_of(self@),
    {
        match self {
            ConfigValue::String(s) => s.clone(),
            ConfigValue::Identifier(s) => s.clone(),
            _ => self.render(),
        }
    }

    pub fn to_strings(&self) -> (r: Vec<String>)
        ensures
            view_strings(r@) == strings_of(self@),
    {
        match self {
            ConfigValue::Array(vs) => textual_values_exec(vs),
            ConfigValue::Object(ps) => textual_pair_values_exec(ps),
            _ => {
                assert(view_strings(Seq::<String>::empty()) =~= Seq::<Seq<char>>::empty());
                Vec::new()
            },
        }
    }

    pub fn get_identifiers_from_object(&self) -> (r: Vec<String>)
        ensures
            view_strings(r@) == identifiers_of(self@),
    {
        let mut r: Vec<String> = Vec::new();
        match self {
            ConfigValue::Object(ps) => {
                let ghost sps = view_pairs(ps@);
                proof {
                    crate::value::lemma_view_pairs_len(ps@);
                }
                let mut i: usize = 0;
                while i < ps.len()
                    invariant
                        sps == view_pairs(ps@),
                        sps.len() == ps@.len(),
                        i <= ps@.len(),
                        view_strings(r@) == sps.subrange(0, i as int).map_values(
                            |p: SpecPair| p.identifier,
                        ),
                    decreases ps.len() - i,
                {
                    let s = ps[i].identifier.clone();
                    proof {
                        lemma_view_strings_push(r@, s);
                        crate::value::lemma_view_pairs_index(ps@, i as int);
                        let ids = |p: SpecPair| p.identifier;
                        assert(sps.subrange(0, i + 1).map_values(ids) =~= sps.subrange(
                            0,
                            i as int,
                        ).map_values(ids).push(s@));
                    }
                    r.push(s);
                    i = i + 1;
                }
                assert(sps.subrange(0, ps@.len() as int) =~= sps);
                r
            },
            _ => {
                assert(view_strings(r@) =~= Seq::<Seq<char>>::empty());
                r
            },
        }
    }
}

fn textual_values_exec(vs: &Vec<ConfigValue>) -> (r: Vec<String>)
    ensures
        view_strings(r@) == textual_items(view_values(vs@)),
{
    let mut r: Vec<String> = Vec::new();
    let mut i: usize = 0;
    assert(view_strings(r@) =~= Seq::<Seq<char>>::empty());
    while i < vs.len()
        invariant
            i <= vs@.len(),
            view_strings(r@) == textual_items(view_values(vs@.subrange(0, i as int))),
        decreases vs.len() - i,
    {
        let ghost pre = vs@.subrange(0, i as int);
        proof {
            assert(vs@.subrange(0, i + 1) =~= pre.push(vs@[i as int]));
            crate::value::lemma_view_values_push(pre, vs@[i as int]);
            assert(view_values(pre.push(vs@[i as int])).drop_last() =~= view_values(pre));
        }
        match &vs[i] {
            ConfigValue::String(s) => {
                let c = s.clone();
                proof {
                    lemma_view_strings_push(r@, c);
                }
                r.push(c);
            },
            ConfigValue::Identifier(s) => {
                let c = s.clone();
                proof {
                    lemma_view_strings_push(r@, c);
                }
                r.push(c);
            },
            _ => {},
        }
        i = i + 1;
    }
    assert(vs@.subrange(0, vs@.len() as int) =~= vs@);
    r
}

fn textual_pair_values_exec(ps: &Vec<ConfigPair>) -> (r: Vec<String>)
    ensures
        view_strings(r@) == textual_pair_values(view_pairs(ps@)),
{
    let mut r: Vec<String> = Vec::new();
    let mut i: usize = 0;
    assert(view_strings(r@) =~= Seq::<Seq<char>>::empty());
    while i < ps.len()
        invariant
            i <= ps@.len(),
            view_strings(r@) == textual_pair_values(view_pairs(ps@.subrange(0, i as int))),
        decreases ps.len() - i,
    {
        let ghost pre = ps@.subrange(0, i as int);
        proof {
            assert(ps@.subrange(0, i + 1) =~= pre.push(ps@[i as int]));
            crate::value::lemma_view_pairs_push(pre, ps@[i as int]);
            assert(view_pairs(pre.push(ps@[i as int])).drop_last() =~= view_pairs(pre));
        }
        match &ps[i].value {
            ConfigValue::String(s) => {
                let c = s.clone();
                proof {
                    lemma_view_strings_push(r@, c);
                }
                r.push(c);
            },
            ConfigValue::Identifier(s) => {
                let c = s.clone();
                proof {
                    lemma_view_strings_push(r@, c);
                }
                r.push(c);
            },
            _ => {},
        }
        i = i + 1;
    }
    assert(ps@.subrange(0, ps@.len() as int) =~= ps@);
    r
}

} // verus!
