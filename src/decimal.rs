//! Exact decimal numbers, as written in script files.
use vstd::prelude::*;

verus! {

/// A decimal number `(-1)^negative * magnitude / 10^scale`, kept in lowest terms:
/// no trailing fractional zero, and zero is never negative.
#[derive(Clone, Copy, Debug, PartialEq, Eq, Structural)]
pub struct Decimal {
    pub negative: bool,
    pub magnitude: u64,
    pub scale: u32,
}

/// `10^n`.
pub open spec fn pow10(n: nat) -> nat
    decreases n,
{
    if n == 0 {
        1
    } else {
        10 * pow10((n - 1) as nat)
    }
}

/// The character of a decimal digit `d < 10`.
pub open spec fn digit_char(d: nat) -> char {
    ((d + 48) as u8) as char
}

/// The decimal digits of `n`, most significant first, without leading zeros.
pub open spec fn digits_of(n: nat) -> Seq<char>
    decreases n,
{
    if n < 10 {
        seq![digit_char(n)]
    } else {
        digits_of(n / 10).push(digit_char(n % 10))
    }
}

/// `n` zero characters.
pub open spec fn zeros(n: nat) -> Seq<char> {
    Seq::new(n, |i: int| '0')
}

impl Decimal {
    /// Lowest terms: the representation of each value is unique.
    pub open spec fn wf(self) -> bool {
        &&& (self.scale > 0 ==> self.magnitude % 10 != 0)
        &&& (self.magnitude == 0 ==> !self.negative)
    }

    /// The value truncated toward zero.
    pub open spec fn trunc(self) -> int {
        let q = self.magnitude as nat / pow10(self.scale as nat);
        if self.negative {
            -q
        } else {
            q as int
        }
    }

    /// The canonical text: digits, with a point before the last `scale` of them.
    pub open spec fn text(self) -> Seq<char> {
        let ds = digits_of(self.magnitude as nat);
        let s = self.scale as nat;
        let body = if s == 0 {
            ds
        } else {
            let padded = if ds.len() <= s {
                zeros((s + 1 - ds.len()) as nat) + ds
            } else {
                ds
            };
            padded.subrange(0, padded.len() - s) + seq!['.'] + padded.subrange(
                padded.len() - s,
                padded.len() as int,
            )
        };
        if self.negative {
            seq!['-'] + body
        } else {
            body
        }
    }

    /// Zero.
    pub fn zero() -> (r: Decimal)
        ensures
            r.wf(),
            r.magnitude == 0,
            r.trunc() == 0,
    {
        Decimal { negative: false, magnitude: 0, scale: 0 }
    }

    /// The integer `n`.
    pub fn from_int(n: i64) -> (r: Decimal)
        ensures
            r.wf(),
            r.scale == 0,
            r.trunc() == n,
    {
        let magnitude: u64 = if n < 0 {
            (-(n as i128)) as u64
        } else {
            n as u64
        };
        let r = Decimal { negative: n < 0, magnitude, scale: 0 };
        assert(pow10(0) == 1);
        r
    }

    /// The decimal with the given parts, if they are in lowest terms.
    pub fn from_parts(negative: bool, magnitude: u64, scale: u32) -> (r: Option<Decimal>)
        ensures
            r == (if (Decimal { negative, magnitude, scale }).wf() {
                Some(Decimal { negative, magnitude, scale })
            } else {
                None
            }),
    {
        let d = Decimal { negative, magnitude, scale };
        if (scale > 0 && magnitude % 10 == 0) || (magnitude == 0 && negative) {
            None
        } else {
            Some(d)
        }
    }

    /// The value truncated toward zero, as a wide integer.
    pub fn truncated(&self) -> (r: i128)
        ensures
            r == self.trunc(),
    {
        let mut q: u64 = self.magnitude;
        let mut k: u32 = 0;
        assert(pow10(0) == 1);
        assert(self.magnitude as nat / 1 == self.magnitude as nat);
        while k < self.scale && q != 0
            invariant
                k <= self.scale,
                q as nat == self.magnitude as nat / pow10(k as nat),
            decreases self.scale - k,
        {
            proof {
                lemma_pow10_positive(k as nat);
                vstd::arithmetic::div_mod::lemma_div_denominator(
                    self.magnitude as int,
                    pow10(k as nat) as int,
                    10,
                );
                assert(pow10((k + 1) as nat) == pow10(k as nat) * 10) by (nonlinear_arith)
                    requires
                        pow10((k + 1) as nat) == 10 * pow10(k as nat),
                ;
            }
            q = q / 10;
            k = k + 1;
        }
        proof {
            if q == 0 && k < self.scale {
                lemma_div_zero_grows(self.magnitude as nat, k as nat, self.scale as nat);
            }
        }
        if self.negative {
            -(q as i128)
        } else {
            q as i128
        }
    }

    /// Appends the canonical text to `out`.
    pub fn write_to(&self, out: &mut String)
        ensures
            final(out)@ == old(out)@ + self.text(),
    {
        let ghost start = out@;
        if self.negative {
            out.push('-');
        }
        let mut ds = String::new();
        push_digits(&mut ds, self.magnitude);
        let ghost dsv = ds@;
        let n = ds.unicode_len();
        assert(dsv.len() >= 1);
        let s = self.scale as usize;
        if s == 0 {
            crate::text::push_str(out, ds.as_str());
        } else {
            let pad: usize = if n <= s {
                s - n + 1
            } else {
                0
            };
            let mut padded: Vec<char> = Vec::new();
            let mut i: usize = 0;
            while i < pad
                invariant
                    i <= pad,
                    padded@ == zeros(i as nat),
                decreases pad - i,
            {
                padded.push('0');
                i = i + 1;
                assert(padded@ =~= zeros(i as nat));
            }
            let dv = crate::text::chars_of(ds.as_str());
            let mut j: usize = 0;
            while j < dv.len()
                invariant
                    j <= dv@.len(),
                    dv@ == dsv,
                    padded@ == zeros(pad as nat) + dsv.subrange(0, j as int),
                decreases dv.len() - j,
            {
                padded.push(dv[j]);
                j = j + 1;
                assert(padded@ =~= zeros(pad as nat) + dsv.subrange(0, j as int));
            }
            assert(dsv.subrange(0, dsv.len() as int) =~= dsv);
            let total = padded.len();
            proof {
                if n <= s {
                    assert(padded@ =~= zeros((s + 1 - dsv.len()) as nat) + dsv);
                } else {
                    assert(padded@ =~= dsv);
                }
            }
            crate::text::push_chars(out, &padded, 0, total - s);
            out.push('.');
            crate::text::push_chars(out, &padded, total - s, total);
        }
        assert(out@ =~= start + self.text());
    }
}

/// Appends the decimal digits of `n` to `out`.
pub fn push_digits(out: &mut String, n: u64)
    ensures
        final(out)@ == old(out)@ + digits_of(n as nat),
    decreases n,
{
    if n >= 10 {
        push_digits(out, n / 10);
    }
    let d = (n % 10) as u8;
    out.push((d + 48) as char);
    assert(final(out)@ =~= old(out)@ + digits_of(n as nat));
}

pub proof fn lemma_pow10_positive(n: nat)
    ensures
        pow10(n) >= 1,
    decreases n,
{
    if n > 0 {
        lemma_pow10_positive((n - 1) as nat);
    }
}

pub proof fn lemma_pow10_monotone(a: nat, b: nat)
    requires
        a <= b,
    ensures
        pow10(a) <= pow10(b),
    decreases b,
{
    if a < b {
        lemma_pow10_monotone(a, (b - 1) as nat);
        lemma_pow10_positive((b - 1) as nat);
    }
}

proof fn lemma_div_zero_grows(m: nat, a: nat, b: nat)
    requires
        a <= b,
        m / pow10(a) == 0,
    ensures
        m / pow10(b) == 0,
{
    lemma_pow10_positive(a);
    lemma_pow10_monotone(a, b);
    assert(m < pow10(a)) by {
        vstd::arithmetic::div_mod::lemma_fundamental_div_mod(m as int, pow10(a) as int);
        vstd::arithmetic::div_mod::lemma_mod_pos_bound(m as int, pow10(a) as int);
    }
    vstd::arithmetic::div_mod::lemma_basic_div(m as int, pow10(b) as int);
}

} // verus!
