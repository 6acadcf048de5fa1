//! What the projectors of typed records share: which pairs feed a field, and the bag
//! of pairs that no field takes.
use crate::coerce::{bool_of, clamp, decimal_of, identifiers_of, strings_of, text_of, trunc_of};
use crate::decimal::Decimal;
use crate::table::Table;
use crate::value::{ConfigPair, ConfigValue, SpecPair, SpecValue};
use vstd::prelude::*;

verus! {

/// The value of the last pair whose identifier `hit` accepts.
pub open spec fn last_where(ps: Seq<SpecPair>, hit: spec_fn(Seq<char>) -> bool) -> Option<SpecValue>
    decreases ps.len(),
{
    if ps.len() == 0 {
        None
    } else if hit(ps.last().identifier) {
        Some(ps.last().value)
    } else {
        last_where(ps.drop_last(), hit)
    }
}

/// The values of all pairs whose identifier `hit` accepts, in order.
pub open spec fn all_where(ps: Seq<SpecPair>, hit: spec_fn(Seq<char>) -> bool) -> Seq<SpecValue>
    decreases ps.len(),
{
    if ps.len() == 0 {
        Seq::empty()
    } else if hit(ps.last().identifier) {
        all_where(ps.drop_last(), hit).push(ps.last().value)
    } else {
        all_where(ps.drop_last(), hit)
    }
}

/// All pairs whose identifier `hit` accepts, in order.
pub open spec fn pairs_where(ps: Seq<SpecPair>, hit: spec_fn(Seq<char>) -> bool) -> Seq<SpecPair>
    decreases ps.len(),
{
    if ps.len() == 0 {
        Seq::empty()
    } else if hit(ps.last().identifier) {
        pairs_where(ps.drop_last(), hit).push(ps.last())
    } else {
        pairs_where(ps.drop_last(), hit)
    }
}

/// For each identifier that `known` rejects, the value of its last pair.
pub open spec fn unknown_where(ps: Seq<SpecPair>, known: spec_fn(Seq<char>) -> bool) -> Map<
    Seq<char>,
    SpecValue,
>
    decreases ps.len(),
{
    if ps.len() == 0 {
        Map::empty()
    } else if known(ps.last().identifier) {
        unknown_where(ps.drop_last(), known)
    } else {
        unknown_where(ps.drop_last(), known).insert(ps.last().identifier, ps.last().value)
    }
}

/// The pairs of an object; none for any other value.
pub open spec fn members(v: SpecValue) -> Seq<SpecPair> {
    match v {
        SpecValue::Object(ps) => ps,
        _ => Seq::empty(),
    }
}

/// The pairs of the last accepted object; none when there is none.
pub open spec fn last_members(ps: Seq<SpecPair>, hit: spec_fn(Seq<char>) -> bool) -> Seq<SpecPair> {
    match last_where(ps, hit) {
        Some(v) => members(v),
        None => Seq::empty(),
    }
}

/// The last accepted value as an integer saturated to `[lo, hi]`; 0 when there is none.
pub open spec fn last_int(
    ps: Seq<SpecPair>,
    hit: spec_fn(Seq<char>) -> bool,
    lo: int,
    hi: int,
) -> int {
    match last_where(ps, hit) {
        Some(v) => clamp(trunc_of(v), lo, hi),
        None => 0,
    }
}

/// The last accepted value as a text; empty when there is none.
pub open spec fn last_text(ps: Seq<SpecPair>, hit: spec_fn(Seq<char>) -> bool) -> Seq<char> {
    match last_where(ps, hit) {
        Some(v) => text_of(v),
        None => Seq::empty(),
    }
}

/// The last accepted value as a flag; false when there is none.
pub open spec fn last_bool(ps: Seq<SpecPair>, hit: spec_fn(Seq<char>) -> bool) -> bool {
    match last_where(ps, hit) {
        Some(v) => bool_of(v),
        None => false,
    }
}

/// The last accepted value as a number; zero when there is none.
pub open spec fn last_decimal(ps: Seq<SpecPair>, hit: spec_fn(Seq<char>) -> bool) -> Decimal {
    match last_where(ps, hit) {
        Some(v) => decimal_of(v),
        None => Decimal { negative: false, magnitude: 0, scale: 0 },
    }
}

/// The texts held by the last accepted value; none when there is none.
pub open spec fn last_strings(ps: Seq<SpecPair>, hit: spec_fn(Seq<char>) -> bool) -> Seq<
    Seq<char>,
> {
    match last_where(ps, hit) {
        Some(v) => strings_of(v),
        None => Seq::empty(),
    }
}

/// The identifiers of the last accepted object; none when there is none.
pub open spec fn last_identifiers(ps: Seq<SpecPair>, hit: spec_fn(Seq<char>) -> bool) -> Seq<
    Seq<char>,
> {
    match last_where(ps, hit) {
        Some(v) => identifiers_of(v),
        None => Seq::empty(),
    }
}

/// The texts of all accepted values, in order.
pub open spec fn all_texts(ps: Seq<SpecPair>, hit: spec_fn(Seq<char>) -> bool) -> Seq<Seq<char>>
    decreases ps.len(),
{
    if ps.len() == 0 {
        Seq::empty()
    } else if hit(ps.last().identifier) {
        all_texts(ps.drop_last(), hit).push(text_of(ps.last().value))
    } else {
        all_texts(ps.drop_last(), hit)
    }
}

pub open spec fn view_option(o: Option<ConfigValue>) -> Option<SpecValue> {
    match o {
        Some(v) => Some(v@),
        None => None,
    }
}

/// The models of the values in a table.
pub open spec fn view_table(t: Table<ConfigValue>) -> Map<Seq<char>, SpecValue> {
    t@.map_values(|v: ConfigValue| v@)
}

/// One step of a projector: the first `i + 1` pairs are the first `i` and pair `i`.
pub proof fn lemma_step(ps: Seq<SpecPair>, i: int)
    requires
        0 <= i < ps.len(),
    ensures
        ps.subrange(0, i + 1).drop_last() == ps.subrange(0, i),
        ps.subrange(0, i + 1).last() == ps[i],
        ps.subrange(0, i + 1).len() > 0,
{
    assert(ps.subrange(0, i + 1).drop_last() =~= ps.subrange(0, i));
}

/// Stores the pair's value in the bag of unknown identifiers.
pub fn record_unknown(bag: &mut Table<ConfigValue>, p: &ConfigPair)
    ensures
        view_table(*final(bag)) == view_table(*old(bag)).insert(p.identifier@, p.value@),
{
    let v = p.value.duplicate();
    bag.insert(p.identifier.clone(), v);
    assert(view_table(*bag) =~= view_table(*old(bag)).insert(p.identifier@, p.value@));
}

pub proof fn lemma_empty_table(t: Table<ConfigValue>)
    requires
        t@ == Map::<Seq<char>, ConfigValue>::empty(),
    ensures
        view_table(t) == Map::<Seq<char>, SpecValue>::empty(),
{
    assert(view_table(t) =~= Map::<Seq<char>, SpecValue>::empty());
}


/// An identifier that a field takes never reaches the bag of unknown identifiers.
pub proof fn lemma_known_never_unknown(
    ps: Seq<SpecPair>,
    known: spec_fn(Seq<char>) -> bool,
    id: Seq<char>,
)
    requires
        known(id),
    ensures
        !unknown_where(ps, known).contains_key(id),
    decreases ps.len(),
{
    if ps.len() > 0 {
        lemma_known_never_unknown(ps.drop_last(), known, id);
    }
}


/// There is one text for each accepted value.
pub proof fn lemma_texts_len(ps: Seq<SpecPair>, hit: spec_fn(Seq<char>) -> bool)
    ensures
        all_texts(ps, hit).len() == all_where(ps, hit).len(),
    decreases ps.len(),
{
    if ps.len() > 0 {
        lemma_texts_len(ps.drop_last(), hit);
    }
}

} // verus!
