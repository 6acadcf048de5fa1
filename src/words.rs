//! What a bare word stands for: a number, a date, or an identifier.
use crate::decimal::Decimal;
use vstd::prelude::*;

verus! {

pub open spec fn is_digit(c: char) -> bool {
    '0' <= c <= '9'
}

/// A non-empty run of decimal digits.
pub open spec fn all_digits(x: Seq<char>) -> bool {
    x.len() > 0 && forall|k: int| 0 <= k < x.len() ==> is_digit(#[trigger] x[k])
}

pub open spec fn digit_value(c: char) -> nat {
    (c as int - 48) as nat
}

/// The number that a run of digits writes in base ten.
pub open spec fn digits_value(x: Seq<char>) -> nat
    decreases x.len(),
{
    if x.len() == 0 {
        0
    } else {
        digits_value(x.drop_last()) * 10 + digit_value(x.last())
    }
}

/// The first index from `j` on that holds a `.`, or the length.
pub open spec fn dot_from(w: Seq<char>, j: int) -> int
    decreases w.len() - j,
{
    if j < 0 || j >= w.len() || w[j] == '.' {
        j
    } else {
        dot_from(w, j + 1)
    }
}

/// 1 when the word starts with a sign, else 0.
pub open spec fn sign_len(w: Seq<char>) -> int {
    if w.len() > 0 && (w[0] == '-' || w[0] == '+') {
        1
    } else {
        0
    }
}

/// An optional sign, digits, and optionally a point followed by digits.
pub open spec fn is_number_form(w: Seq<char>) -> bool {
    let b = sign_len(w);
    let d = dot_from(w, b);
    all_digits(w.subrange(b, d)) && (d == w.len() || all_digits(w.subrange(d + 1, w.len() as int)))
}

/// Three runs of digits joined by points.
pub open spec fn is_date_form(w: Seq<char>) -> bool {
    let d1 = dot_from(w, 0);
    let d2 = dot_from(w, d1 + 1);
    &&& d1 < w.len()
    &&& d2 < w.len()
    &&& all_digits(w.subrange(0, d1))
    &&& all_digits(w.subrange(d1 + 1, d2))
    &&& all_digits(w.subrange(d2 + 1, w.len() as int))
}

/// `hi`, moved left past the zeros that end `w[lo..hi]`.
pub open spec fn zero_trim(w: Seq<char>, lo: int, hi: int) -> int
    decreases hi - lo,
{
    if hi > lo && w[hi - 1] == '0' {
        zero_trim(w, lo, hi - 1)
    } else {
        hi
    }
}

/// The significant digits of a number word: its integer digits, then its fractional
/// digits without trailing zeros.
pub open spec fn number_digits(w: Seq<char>) -> Seq<char> {
    let b = sign_len(w);
    let d = dot_from(w, b);
    if d == w.len() {
        w.subrange(b, d)
    } else {
        w.subrange(b, d) + w.subrange(d + 1, zero_trim(w, d + 1, w.len() as int))
    }
}

/// How many significant fractional digits a number word has.
pub open spec fn number_scale(w: Seq<char>) -> int {
    let d = dot_from(w, sign_len(w));
    if d == w.len() {
        0
    } else {
        zero_trim(w, d + 1, w.len() as int) - (d + 1)
    }
}

/// The exact value of a number word, when its digits fit.
pub open spec fn number_of(w: Seq<char>) -> Option<Decimal> {
    let m = digits_value(number_digits(w));
    let sc = number_scale(w);
    if m <= u64::MAX && sc <= u32::MAX {
        Some(
            Decimal {
                negative: sign_len(w) == 1 && w[0] == '-' && m != 0,
                magnitude: m as u64,
                scale: sc as u32,
            },
        )
    } else {
        None
    }
}

/// The year, month and day of a date word, when they fit.
pub open spec fn date_of(w: Seq<char>) -> Option<(u16, u8, u8)> {
    let d1 = dot_from(w, 0);
    let d2 = dot_from(w, d1 + 1);
    let y = digits_value(w.subrange(0, d1));
    let m = digits_value(w.subrange(d1 + 1, d2));
    let d = digits_value(w.subrange(d2 + 1, w.len() as int));
    if y <= u16::MAX && m <= u8::MAX && d <= u8::MAX {
        Some((y as u16, m as u8, d as u8))
    } else {
        None
    }
}

proof fn lemma_digits_value_prefix(x: Seq<char>, j: int)
    requires
        0 <= j <= x.len(),
    ensures
        digits_value(x.subrange(0, j)) <= digits_value(x),
    decreases x.len(),
{
    if j < x.len() {
        lemma_digits_value_prefix(x.drop_last(), j);
        assert(x.drop_last().subrange(0, j) =~= x.subrange(0, j));
    } else {
        assert(x.subrange(0, j) =~= x);
    }
}

pub proof fn lemma_dot_from_bounds(w: Seq<char>, j: int)
    requires
        0 <= j <= w.len(),
    ensures
        j <= dot_from(w, j) <= w.len(),
        dot_from(w, j) < w.len() ==> w[dot_from(w, j)] == '.',
        forall|k: int| j <= k < dot_from(w, j) ==> w[k] != '.',
    decreases w.len() - j,
{
    if j < w.len() && w[j] != '.' {
        lemma_dot_from_bounds(w, j + 1);
    }
}

proof fn lemma_zero_trim_bounds(w: Seq<char>, lo: int, hi: int)
    requires
        0 <= lo <= hi <= w.len(),
    ensures
        lo <= zero_trim(w, lo, hi) <= hi,
        zero_trim(w, lo, hi) > lo ==> w[zero_trim(w, lo, hi) - 1] != '0',
    decreases hi - lo,
{
    if hi > lo && w[hi - 1] == '0' {
        lemma_zero_trim_bounds(w, lo, hi - 1);
    }
}

fn digit(c: char) -> (r: bool)
    ensures
        r == is_digit(c),
{
    '0' <= c && c <= '9'
}

fn find_dot(w: &Vec<char>, j: usize) -> (r: usize)
    requires
        j <= w@.len(),
    ensures
        r == dot_from(w@, j as int),
{
    let mut k = j;
    while k < w.len() && w[k] != '.'
        invariant
            j <= k <= w@.len(),
            dot_from(w@, j as int) == dot_from(w@, k as int),
        decreases w.len() - k,
    {
        k = k + 1;
    }
    k
}

/// Whether `w[from..to]` is a non-empty run of digits.
fn digits_run(w: &Vec<char>, from: usize, to: usize) -> (r: bool)
    requires
        from <= to <= w@.len(),
    ensures
        r == all_digits(w@.subrange(from as int, to as int)),
{
    if from == to {
        return false;
    }
    let mut k = from;
    while k < to
        invariant
            from <= k <= to <= w@.len(),
            forall|q: int| from <= q < k ==> is_digit(w@[q]),
        decreases to - k,
    {
        if !digit(w[k]) {
            assert(!is_digit(w@.subrange(from as int, to as int)[k - from]));
            return false;
        }
        k = k + 1;
    }
    assert forall|q: int| 0 <= q < to - from implies is_digit(
        #[trigger] w@.subrange(from as int, to as int)[q],
    ) by {
        assert(is_digit(w@[from + q]));
    }
    true
}

/// The value of the digits `w[from..to]`, when it is at most `bound`.
fn digits_value_upto(w: &Vec<char>, from: usize, to: usize, bound: u64) -> (r: Option<u64>)
    requires
        from <= to <= w@.len(),
        forall|q: int| from <= q < to ==> is_digit(#[trigger] w@[q]),
    ensures
        r == (if digits_value(w@.subrange(from as int, to as int)) <= bound {
            Some(digits_value(w@.subrange(from as int, to as int)) as u64)
        } else {
            None
        }),
{
    let mut acc: u64 = 0;
    let mut k = from;
    assert(w@.subrange(from as int, from as int).len() == 0);
    while k < to
        invariant
            from <= k <= to <= w@.len(),
            forall|q: int| from <= q < to ==> is_digit(#[trigger] w@[q]),
            acc == digits_value(w@.subrange(from as int, k as int)),
            acc <= bound,
        decreases to - k,
    {
        let d = (w[k] as u32 - 48) as u64;
        let ghost next = w@.subrange(from as int, k + 1);
        assert(next.drop_last() =~= w@.subrange(from as int, k as int));
        assert(next.last() == w@[k as int]);
        if d > bound || acc > (bound - d) / 10 {
            proof {
                if d <= bound {
                    assert(digits_value(next) > bound) by (nonlinear_arith)
                        requires
                            digits_value(next) == acc * 10 + d,
                            acc > (bound - d) / 10,
                            d <= bound,
                    ;
                }
                lemma_digits_value_prefix(w@.subrange(from as int, to as int), k + 1 - from);
                assert(w@.subrange(from as int, to as int).subrange(0, k + 1 - from) =~= next);
            }
            return None;
        }
        acc = acc * 10 + d;
        k = k + 1;
    }
    Some(acc)
}

/// The exact value of a number word, when its digits fit.
pub fn parse_number(w: &Vec<char>) -> (r: Option<Decimal>)
    requires
        is_number_form(w@),
    ensures
        r == number_of(w@),
{
    let b: usize = if w.len() > 0 && (w[0] == '-' || w[0] == '+') {
        1
    } else {
        0
    };
    let d = find_dot(w, b);
    proof {
        lemma_dot_from_bounds(w@, b as int);
    }
    let mut ds: Vec<char> = Vec::new();
    let mut k = b;
    while k < d
        invariant
            b <= k <= d <= w@.len(),
            ds@ == w@.subrange(b as int, k as int),
        decreases d - k,
    {
        ds.push(w[k]);
        k = k + 1;
        assert(ds@ =~= w@.subrange(b as int, k as int));
    }
    let mut scale: usize = 0;
    if d < w.len() {
        let mut e = w.len();
        while e > d + 1 && w[e - 1] == '0'
            invariant
                d + 1 <= e <= w@.len(),
                zero_trim(w@, d + 1, w@.len() as int) == zero_trim(w@, d + 1, e as int),
            decreases e,
        {
            e = e - 1;
        }
        let mut q = d + 1;
        while q < e
            invariant
                d + 1 <= q <= e <= w@.len(),
                ds@ == w@.subrange(b as int, d as int) + w@.subrange(d + 1, q as int),
            decreases e - q,
        {
            ds.push(w[q]);
            q = q + 1;
            assert(ds@ =~= w@.subrange(b as int, d as int) + w@.subrange(d + 1, q as int));
        }
        scale = e - (d + 1);
    }
    assert(ds@ =~= number_digits(w@));
    proof {
        assert forall|q: int| 0 <= q < ds@.len() implies is_digit(#[trigger] ds@[q]) by {
            if q < d - b {
                assert(is_digit(w@.subrange(b as int, d as int)[q]));
            } else {
                assert(is_digit(w@.subrange(d + 1, w@.len() as int)[q - (d - b)]));
            }
        }
        assert(ds@.subrange(0, ds@.len() as int) =~= ds@);
    }
    let n = ds.len();
    let m = digits_value_upto(&ds, 0, n, u64::MAX);
    match m {
        None => None,
        Some(m) => {
            if scale > u32::MAX as usize {
                None
            } else {
                let negative = b == 1 && w[0] == '-' && m != 0;
                Some(Decimal { negative, magnitude: m, scale: scale as u32 })
            }
        },
    }
}

/// The year, month and day of a date word, when they fit.
pub fn parse_date(w: &Vec<char>) -> (r: Option<(u16, u8, u8)>)
    requires
        is_date_form(w@),
    ensures
        r == date_of(w@),
{
    let d1 = find_dot(w, 0);
    proof {
        lemma_dot_from_bounds(w@, 0);
    }
    if d1 >= w.len() {
        return None;
    }
    let d2 = find_dot(w, d1 + 1);
    proof {
        lemma_dot_from_bounds(w@, d1 + 1);
    }
    if d2 >= w.len() {
        return None;
    }
    proof {
        assert forall|q: int| 0 <= q < d1 implies is_digit(#[trigger] w@[q]) by {
            assert(is_digit(w@.subrange(0, d1 as int)[q]));
        }
        assert forall|q: int| d1 + 1 <= q < d2 implies is_digit(#[trigger] w@[q]) by {
            assert(is_digit(w@.subrange(d1 + 1, d2 as int)[q - d1 - 1]));
        }
        assert forall|q: int| d2 + 1 <= q < w@.len() implies is_digit(#[trigger] w@[q]) by {
            assert(is_digit(w@.subrange(d2 + 1, w@.len() as int)[q - d2 - 1]));
        }
    }
    let y = digits_value_upto(w, 0, d1, 65535);
    let m = digits_value_upto(w, d1 + 1, d2, 255);
    let d = digits_value_upto(w, d2 + 1, w.len(), 255);
    match (y, m, d) {
        (Some(y), Some(m), Some(d)) => Some((y as u16, m as u8, d as u8)),
        _ => None,
    }
}

/// Whether the word has the shape of a number.
pub fn number_form(w: &Vec<char>) -> (r: bool)
    ensures
        r == is_number_form(w@),
{
    let b: usize = if w.len() > 0 && (w[0] == '-' || w[0] == '+') {
        1
    } else {
        0
    };
    let d = find_dot(w, b);
    proof {
        lemma_dot_from_bounds(w@, b as int);
    }
    digits_run(w, b, d) && (d == w.len() || digits_run(w, d + 1, w.len()))
}

/// Whether the word has the shape of a date.
pub fn date_form(w: &Vec<char>) -> (r: bool)
    ensures
        r == is_date_form(w@),
{
    let d1 = find_dot(w, 0);
    proof {
        lemma_dot_from_bounds(w@, 0);
    }
    if d1 >= w.len() {
        return false;
    }
    let d2 = find_dot(w, d1 + 1);
    proof {
        lemma_dot_from_bounds(w@, d1 + 1);
    }
    if d2 >= w.len() {
        return false;
    }
    digits_run(w, 0, d1) && digits_run(w, d1 + 1, d2) && digits_run(w, d2 + 1, w.len())
}

} // verus!

verus! {

proof fn lemma_digits_value_last(x: Seq<char>)
    requires
        x.len() > 0,
        is_digit(x.last()),
    ensures
        digits_value(x) % 10 == digit_value(x.last()),
{
    assert(digit_value(x.last()) < 10);
    vstd::arithmetic::div_mod::lemma_mod_multiples_vanish(
        digits_value(x.drop_last()) as int,
        digit_value(x.last()) as int,
        10,
    );
    vstd::arithmetic::div_mod::lemma_small_mod(digit_value(x.last()), 10);
}

/// The numbers read from number words are in lowest terms, so two number words of
/// the same value give equal decimals.
pub proof fn lemma_numbers_in_lowest_terms(w: Seq<char>)
    requires
        is_number_form(w),
        number_of(w) is Some,
    ensures
        number_of(w)->Some_0.wf(),
{
    let b = sign_len(w);
    let d = dot_from(w, b);
    lemma_dot_from_bounds(w, b);
    if d < w.len() {
        let e = zero_trim(w, d + 1, w.len() as int);
        lemma_zero_trim_bounds(w, d + 1, w.len() as int);
        if e > d + 1 {
            let ds = number_digits(w);
            assert(ds.last() == w[e - 1]);
            assert(is_digit(w.subrange(d + 1, w.len() as int)[e - 1 - (d + 1)]));
            lemma_digits_value_last(ds);
        }
    }
}

} // verus!
