//! Fixed-width integer values of any width, held as their bit pattern.
use vstd::prelude::*;
use crate::bignum::{self, canonical, digits_ok, val};
use crate::text::decimal;

verus! {

/// Two to the power `n`.
pub open spec fn pow2(n: nat) -> nat
    decreases n,
{
    if n == 0 {
        1
    } else {
        2 * pow2((n - 1) as nat)
    }
}

/// `pow2` grows with its exponent.
pub proof fn lemma_pow2_mono(a: nat, b: nat)
    requires
        a <= b,
    ensures
        pow2(a) <= pow2(b),
        pow2(a) >= 1,
    decreases b,
{
    if b > a {
        lemma_pow2_mono(a, (b - 1) as nat);
    } else if a > 0 {
        lemma_pow2_mono((a - 1) as nat, (a - 1) as nat);
    }
}

/// The powers of two at the edge of 64 bits.
pub proof fn lemma_pow2_64()
    ensures
        pow2(63) == 0x8000000000000000,
        pow2(64) == 0x10000000000000000,
{
    reveal_with_fuel(pow2, 65);
}

/// Two to the power `n`, for `n` below 64.
pub fn pow2_u64(n: u32) -> (r: u64)
    requires
        n < 64,
    ensures
        r == pow2(n as nat),
{
    let mut r: u64 = 1;
    let mut i: u32 = 0;
    while i < n
        invariant
            i <= n < 64,
            r == pow2(i as nat),
        decreases n - i,
    {
        proof {
            lemma_pow2_mono(i as nat, 62);
            assert(pow2(62) * 2 == pow2(63));
            lemma_pow2_64();
        }
        r = r * 2;
        i = i + 1;
    }
    r
}

/// A decimal digit character.
pub open spec fn is_digit(c: char) -> bool {
    '0' <= c && c <= '9'
}

/// The value of a decimal digit character.
pub open spec fn digit_value(c: char) -> nat {
    (c as u32 - 48) as nat
}

/// The number that a sequence of decimal digits spells (0 for none).
pub open spec fn digits_value(d: Seq<char>) -> nat
    decreases d.len(),
{
    if d.len() == 0 {
        0
    } else {
        digits_value(d.drop_last()) * 10 + digit_value(d.last())
    }
}

/// Whether every character of `d` is a decimal digit.
pub open spec fn all_digits(d: Seq<char>) -> bool {
    forall|i: int| 0 <= i < d.len() ==> is_digit(#[trigger] d[i])
}

/// Whether a numeral starts with a sign character.
pub open spec fn has_sign(s: Seq<char>) -> bool {
    s.len() > 0 && (s[0] == '-' || s[0] == '+')
}

/// The value of a prefix of digits is at most that of the whole.
pub proof fn lemma_digits_prefix_le(d: Seq<char>, k: nat)
    requires
        k <= d.len(),
    ensures
        digits_value(d.subrange(0, k as int)) <= digits_value(d),
    decreases d.len() - k,
{
    if k < d.len() {
        lemma_digits_prefix_le(d, k + 1);
        let t = d.subrange(0, k + 1int);
        assert(t.drop_last() =~= d.subrange(0, k as int));
    } else {
        assert(d.subrange(0, k as int) =~= d);
    }
}

/// Splits a numeral into its sign (`true` for `-`) and its digits: an
/// optional `+` or `-` followed by at least one decimal digit.
pub open spec fn numeral_parts(s: Seq<char>) -> Option<(bool, Seq<char>)> {
    let d = if has_sign(s) { s.drop_first() } else { s };
    if d.len() > 0 && all_digits(d) {
        Some((has_sign(s) && s[0] == '-', d))
    } else {
        None
    }
}

/// The bit pattern of width `bw` that the numeral `s` denotes, if it is well
/// formed and in range: a non-negative value below 2^bw, or a negative one
/// no lower than -2^(bw-1), in two's complement.
pub open spec fn numeral_bits(s: Seq<char>, bw: nat) -> Option<nat> {
    match numeral_parts(s) {
        None => None,
        Some((neg, d)) => {
            let m = digits_value(d);
            if !neg {
                if m < pow2(bw) { Some(m) } else { None }
            } else if m == 0 {
                Some(0)
            } else if m <= pow2((bw - 1) as nat) {
                Some((pow2(bw) - m) as nat)
            } else {
                None
            }
        },
    }
}

/// The decimal text of a bit pattern of width `bw`, read as signed (two's
/// complement) or unsigned.
pub open spec fn bits_text(bits: nat, bw: nat, signed: bool) -> Seq<char> {
    if signed && bits >= pow2((bw - 1) as nat) {
        "-"@ + decimal((pow2(bw) - bits) as nat)
    } else {
        decimal(bits)
    }
}

/// Whether a value has a width of at least one bit and a bit pattern
/// below 2^width, as every value of the type has.
pub open spec fn apint_valid(v: APInt) -> bool {
    1 <= v.width_spec() && v.bits_spec() < pow2(v.width_spec())
}

/// Two to the power `n`, as canonical decimal digits.
pub fn pow2_digits(n: u32) -> (r: Vec<u8>)
    ensures
        canonical(r@),
        val(r@) == pow2(n as nat),
{
    let mut x = bignum::from_u64(1);
    let mut i: u32 = 0;
    while i < n
        invariant
            i <= n,
            canonical(x@),
            val(x@) == pow2(i as nat),
        decreases n - i,
    {
        x = bignum::add(&x, &x);
        i = i + 1;
    }
    x
}

/// A fixed-width integer of any width of at least one bit: the width and
/// the bit pattern, a number below 2^width held as canonical decimal
/// digits.
#[derive(Debug, PartialEq, Eq)]
pub struct APInt {
    bw: u32,
    bits: Vec<u8>,
}

impl APInt {
    #[verifier::type_invariant]
    spec fn inv(&self) -> bool {
        1 <= self.bw && canonical(self.bits@) && val(self.bits@) < pow2(self.bw as nat)
    }

    /// The bit width.
    pub closed spec fn width_spec(&self) -> nat {
        self.bw as nat
    }

    /// The bit pattern, as a natural number below 2^width.
    pub closed spec fn bits_spec(&self) -> nat {
        val(self.bits@)
    }

    /// The value `v` of width `bw`, in two's complement: `v` modulo 2^bw.
    pub fn from_i64(v: i64, bw: u32) -> (r: APInt)
        requires
            1 <= bw,
        ensures
            r.width_spec() == bw,
            r.bits_spec() == (v as int) % (pow2(bw as nat) as int),
    {
        let p = pow2_digits(bw);
        let mag: u64 = if v >= 0 {
            v as u64
        } else if v == i64::MIN {
            9223372036854775808u64
        } else {
            (-v) as u64
        };
        assert(mag as int == if v >= 0 { v as int } else { -(v as int) });
        let m = bignum::from_u64(mag);
        let ghost pp = pow2(bw as nat) as int;
        proof {
            lemma_pow2_mono(0, bw as nat);
            vstd::arithmetic::div_mod::lemma_fundamental_div_mod(mag as int, pp);
        }
        let r = if bignum::less(&m, &p) {
            proof {
                vstd::arithmetic::div_mod::lemma_small_mod(mag as nat, pp as nat);
            }
            m
        } else {
            proof {
                lemma_pow2_64();
                if bw >= 64 {
                    lemma_pow2_mono(64, bw as nat);
                }
            }
            bignum::from_u64(mag % pow2_u64(bw))
        };
        assert(val(r@) == (mag as int) % pp);
        let ghost q = (mag as int) / pp;
        if v >= 0 {
            let out = APInt { bw, bits: r };
            out
        } else if bignum::is_zero(&r) {
            proof {
                assert(val(r@) == 0);
                assert(v as int == (-q) * pp + 0) by (nonlinear_arith)
                    requires v as int == -(mag as int), mag as int == pp * q + 0;
                vstd::arithmetic::div_mod::lemma_fundamental_div_mod_converse(v as int, pp, -q, 0);
            }
            APInt { bw, bits: r }
        } else {
            proof {
                let rr = val(r@) as int;
                assert(v as int == (-q - 1) * pp + (pp - rr)) by (nonlinear_arith)
                    requires v as int == -(mag as int), mag as int == pp * q + rr;
                vstd::arithmetic::div_mod::lemma_fundamental_div_mod_converse(v as int, pp, -q - 1, pp - rr);
            }
            let bits = bignum::sub(&p, &r);
            APInt { bw, bits }
        }
    }

    /// The bit width.
    pub fn bw(&self) -> (r: u32)
        ensures
            r == self.width_spec(),
            apint_valid(*self),
    {
        proof {
            use_type_invariant(self);
        }
        self.bw
    }

    /// Whether every bit is clear.
    pub fn is_zero(&self) -> (r: bool)
        ensures
            r == (self.bits_spec() == 0),
    {
        proof {
            use_type_invariant(self);
        }
        bignum::is_zero(&self.bits)
    }

    /// Appends the decimal text of this value to `out`, read as signed or
    /// unsigned.
    pub fn render_into(&self, out: &mut Vec<char>, signed: bool)
        ensures
            final(out)@ == old(out)@ + bits_text(self.bits_spec(), self.width_spec(), signed),
    {
        proof {
            use_type_invariant(self);
        }
        let half = pow2_digits(self.bw - 1);
        if signed && !bignum::less(&self.bits, &half) {
            let p = pow2_digits(self.bw);
            let mag = bignum::sub(&p, &self.bits);
            let ghost before = out@;
            out.push('-');
            proof {
                reveal_strlit("-");
            }
            bignum::render_into(&mag, out);
            assert(out@ =~= before + bits_text(self.bits_spec(), self.width_spec(), signed));
        } else {
            bignum::render_into(&self.bits, out);
        }
    }

    /// The decimal text of this value, read as signed or unsigned.
    pub fn to_string_decimal(&self, signed: bool) -> (r: Vec<char>)
        ensures
            r@ == bits_text(self.bits_spec(), self.width_spec(), signed),
    {
        let mut out: Vec<char> = Vec::new();
        self.render_into(&mut out, signed);
        assert(out@ =~= bits_text(self.bits_spec(), self.width_spec(), signed));
        out
    }

    /// The value of width `bw` that the decimal numeral `s` denotes, or `None`
    /// when `s` is malformed or out of range (see `numeral_bits`).
    pub fn from_str(s: &Vec<char>, bw: u32) -> (r: Option<APInt>)
        requires
            1 <= bw,
        ensures
            r is Some <==> numeral_bits(s@, bw as nat) is Some,
            r matches Some(a) ==> a.width_spec() == bw && a.bits_spec() == numeral_bits(
                s@,
                bw as nat,
            )->Some_0,
    {
        let signed = s.len() > 0 && (s[0] == '-' || s[0] == '+');
        let neg = signed && s[0] == '-';
        let start: usize = if signed { 1 } else { 0 };
        let ghost d = if signed { s@.drop_first() } else { s@ };
        assert(d =~= s@.subrange(start as int, s@.len() as int));
        if start >= s.len() {
            return None;
        }
        let mut m: Vec<u8> = Vec::new();
        let mut i: usize = start;
        while i < s.len()
            invariant
                start <= i <= s@.len(),
                signed == has_sign(s@),
                start == (if signed { 1usize } else { 0usize }),
                d == (if signed { s@.drop_first() } else { s@ }),
                d =~= s@.subrange(start as int, s@.len() as int),
                forall|j: int| 0 <= j < i - start ==> is_digit(#[trigger] d[j]),
                digits_ok(m@),
                val(m@) == digits_value(d.subrange(0, i - start)),
            decreases s@.len() - i,
        {
            let c = s[i];
            if !('0' <= c && c <= '9') {
                assert(!is_digit(d[i - start]));
                assert(!all_digits(d));
                return None;
            }
            let dv: u8 = ((c as u32) - 48) as u8;
            let ghost next = d.subrange(0, i + 1 - start);
            assert(next.drop_last() =~= d.subrange(0, i - start));
            assert(next.last() == c);
            let ghost before = m@;
            m.insert(0, dv);
            assert(m@.drop_first() =~= before);
            assert(m@[0] == dv);
            i = i + 1;
        }
        assert(d.subrange(0, d.len() as int) =~= d);
        assert(numeral_parts(s@) == Some((neg, d)));
        let m = bignum::normalize(m);
        let p = pow2_digits(bw);
        proof {
            lemma_pow2_mono(0, bw as nat);
            assert(pow2(bw as nat) == 2 * pow2((bw - 1) as nat));
        }
        if !neg {
            if bignum::less(&m, &p) {
                Some(APInt { bw, bits: m })
            } else {
                None
            }
        } else if bignum::is_zero(&m) {
            Some(APInt { bw, bits: m })
        } else {
            let half = pow2_digits(bw - 1);
            if bignum::less(&half, &m) {
                None
            } else {
                let bits = bignum::sub(&p, &m);
                Some(APInt { bw, bits })
            }
        }
    }
}

impl Clone for APInt {
    fn clone(&self) -> (r: APInt)
        ensures
            r.width_spec() == self.width_spec(),
            r.bits_spec() == self.bits_spec(),
    {
        proof {
            use_type_invariant(self);
        }
        APInt { bw: self.bw, bits: bignum::copy(&self.bits) }
    }
}

} // verus!
