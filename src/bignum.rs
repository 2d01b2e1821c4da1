//! Natural numbers of any size, held as decimal digits, least significant
//! first, with no high zero digit.
use vstd::prelude::*;
use crate::text::decimal;

verus! {

/// The number that digits spell, least significant first.
pub open spec fn val(s: Seq<u8>) -> nat
    decreases s.len(),
{
    if s.len() == 0 {
        0
    } else {
        s[0] as nat + 10 * val(s.drop_first())
    }
}

/// Ten to the power `n`.
pub open spec fn pow10(n: nat) -> nat
    decreases n,
{
    if n == 0 {
        1
    } else {
        10 * pow10((n - 1) as nat)
    }
}

/// Every element is a decimal digit.
pub open spec fn digits_ok(s: Seq<u8>) -> bool {
    forall|i: int| 0 <= i < s.len() ==> #[trigger] s[i] < 10
}

/// Decimal digits with no high zero digit: the one way to write a number.
pub open spec fn canonical(s: Seq<u8>) -> bool {
    digits_ok(s) && (s.len() == 0 || s.last() != 0)
}

/// A digit added on top.
pub proof fn lemma_val_push(s: Seq<u8>, d: u8)
    ensures
        val(s.push(d)) == val(s) + d as nat * pow10(s.len()),
    decreases s.len(),
{
    if s.len() == 0 {
        assert(s.push(d).drop_first() =~= Seq::<u8>::empty());
        assert(val(Seq::<u8>::empty()) == 0);
        assert(pow10(0) == 1);
        assert(s.push(d)[0] == d);
    } else {
        assert(s.push(d).drop_first() =~= s.drop_first().push(d));
        assert(s.push(d)[0] == s[0]);
        assert(pow10(s.len()) == 10 * pow10(s.drop_first().len()));
        lemma_val_push(s.drop_first(), d);
        assert(10 * (val(s.drop_first()) + d as nat * pow10(s.drop_first().len())) == 10 * val(s.drop_first())
            + d as nat * (10 * pow10(s.drop_first().len()))) by (nonlinear_arith);
    }
}

/// Digits spell a number below ten to the power of their count.
pub proof fn lemma_val_bound(s: Seq<u8>)
    requires
        digits_ok(s),
    ensures
        val(s) < pow10(s.len()),
    decreases s.len(),
{
    if s.len() > 0 {
        lemma_val_bound(s.drop_first());
        assert(s[0] < 10);
    }
}

/// Canonical digits spell zero exactly when there are none.
pub proof fn lemma_val_zero(s: Seq<u8>)
    requires
        canonical(s),
    ensures
        (val(s) == 0) == (s.len() == 0),
{
    if s.len() > 0 {
        let t = s.drop_last();
        assert(s == t.push(s.last()));
        lemma_val_push(t, s.last());
        lemma_pow10_pos(t.len());
        assert(s.last() as nat * pow10(t.len()) >= 1) by (nonlinear_arith)
            requires s.last() as nat >= 1, pow10(t.len()) >= 1;
    }
}

/// Powers of ten are positive.
pub proof fn lemma_pow10_pos(n: nat)
    ensures
        pow10(n) >= 1,
    decreases n,
{
    if n > 0 {
        lemma_pow10_pos((n - 1) as nat);
    }
}

/// The canonical digits of `v`.
pub fn from_u64(v: u64) -> (r: Vec<u8>)
    ensures
        canonical(r@),
        val(r@) == v,
{
    let mut r: Vec<u8> = Vec::new();
    let mut x: u64 = v;
    assert(val(r@) == 0 && pow10(0) == 1);
    assert(v as nat * 1 == v);
    while x > 0
        invariant
            digits_ok(r@),
            r@.len() == 0 || r@.last() != 0 || x > 0,
            val(r@) + x as nat * pow10(r@.len()) == v,
        decreases x,
    {
        let d = (x % 10) as u8;
        proof {
            lemma_val_push(r@, d);
            assert(x as nat * pow10(r@.len()) == (x / 10) as nat * (10 * pow10(r@.len())) + d as nat * pow10(r@.len()))
                by (nonlinear_arith) requires d as nat == x % 10;
        }
        let ghost before = r@;
        r.push(d);
        assert(r@.len() == before.len() + 1);
        assert(pow10(r@.len() as nat) == 10 * pow10(before.len()));
        x = x / 10;
    }
    r
}

/// A copy of a number.
pub fn copy(a: &Vec<u8>) -> (r: Vec<u8>)
    requires
        digits_ok(a@),
    ensures
        r@ == a@,
{
    let mut r: Vec<u8> = Vec::new();
    let mut i: usize = 0;
    while i < a.len()
        invariant
            i <= a@.len(),
            r@ == a@.subrange(0, i as int),
        decreases a@.len() - i,
    {
        r.push(a[i]);
        i = i + 1;
    }
    assert(r@ =~= a@);
    r
}

/// Digits with zeros added on top, up to `n` digits.
fn pad(s: &Vec<u8>, n: usize) -> (r: Vec<u8>)
    requires
        digits_ok(s@),
        s@.len() <= n,
    ensures
        digits_ok(r@),
        r@.len() == n,
        val(r@) == val(s@),
{
    let mut r: Vec<u8> = Vec::new();
    let mut i: usize = 0;
    while i < s.len()
        invariant
            i <= s@.len(),
            r@ == s@.subrange(0, i as int),
        decreases s@.len() - i,
    {
        r.push(s[i]);
        i = i + 1;
    }
    assert(r@ =~= s@);
    while r.len() < n
        invariant
            digits_ok(r@),
            r@.len() <= n,
            val(r@) == val(s@),
        decreases n - r@.len(),
    {
        proof {
            lemma_val_push(r@, 0);
        }
        r.push(0);
    }
    r
}

/// Drops zero digits on top.
pub fn normalize(v: Vec<u8>) -> (r: Vec<u8>)
    requires
        digits_ok(v@),
    ensures
        canonical(r@),
        val(r@) == val(v@),
{
    let mut r = v;
    while r.len() > 0 && r[r.len() - 1] == 0
        invariant
            digits_ok(r@),
            val(r@) == val(v@),
        decreases r@.len(),
    {
        let ghost before = r@;
        r.pop();
        proof {
            assert(before == r@.push(0));
            lemma_val_push(r@, 0);
        }
    }
    r
}

/// The sum of two digit sequences of one length, and the carry out.
fn add_same(a: &Vec<u8>, b: &Vec<u8>) -> (r: (Vec<u8>, u8))
    requires
        digits_ok(a@),
        digits_ok(b@),
        a@.len() == b@.len(),
    ensures
        digits_ok(r.0@),
        r.0@.len() == a@.len(),
        r.1 <= 1,
        val(a@) + val(b@) == val(r.0@) + r.1 as nat * pow10(a@.len()),
{
    let mut c: Vec<u8> = Vec::new();
    let mut carry: u8 = 0;
    let mut i: usize = 0;
    while i < a.len()
        invariant
            i <= a@.len() == b@.len(),
            digits_ok(a@),
            digits_ok(b@),
            digits_ok(c@),
            c@.len() == i,
            carry <= 1,
            val(a@.subrange(0, i as int)) + val(b@.subrange(0, i as int)) == val(c@) + carry as nat * pow10(i as nat),
        decreases a@.len() - i,
    {
        let s: u8 = a[i] + b[i] + carry;
        let d: u8 = s % 10;
        let nc: u8 = s / 10;
        proof {
            assert(a@.subrange(0, i + 1) == a@.subrange(0, i as int).push(a@[i as int]));
            assert(b@.subrange(0, i + 1) == b@.subrange(0, i as int).push(b@[i as int]));
            lemma_val_push(a@.subrange(0, i as int), a@[i as int]);
            lemma_val_push(b@.subrange(0, i as int), b@[i as int]);
            lemma_val_push(c@, d);
            let p = pow10(i as nat);
            assert(pow10(i as nat + 1) == 10 * p);
            assert((a@[i as int] as nat + b@[i as int] as nat + carry as nat) * p == d as nat * p + nc as nat * (10 * p))
                by (nonlinear_arith) requires s as nat == a@[i as int] as nat + b@[i as int] as nat + carry as nat,
                    d as nat == s as nat % 10, nc as nat == s as nat / 10;
            assert(a@[i as int] as nat * p + b@[i as int] as nat * p + carry as nat * p
                == (a@[i as int] as nat + b@[i as int] as nat + carry as nat) * p) by (nonlinear_arith);
        }
        c.push(d);
        carry = nc;
        i = i + 1;
    }
    assert(a@.subrange(0, a@.len() as int) =~= a@);
    assert(b@.subrange(0, b@.len() as int) =~= b@);
    (c, carry)
}

/// The difference of two digit sequences of one length, and whether it
/// borrowed: `a + borrow * 10^n == b + result`.
fn sub_same(a: &Vec<u8>, b: &Vec<u8>) -> (r: (Vec<u8>, bool))
    requires
        digits_ok(a@),
        digits_ok(b@),
        a@.len() == b@.len(),
    ensures
        digits_ok(r.0@),
        r.0@.len() == a@.len(),
        val(a@) + (if r.1 { pow10(a@.len()) } else { 0 }) == val(b@) + val(r.0@),
{
    let mut c: Vec<u8> = Vec::new();
    let mut borrow: u8 = 0;
    let mut i: usize = 0;
    while i < a.len()
        invariant
            i <= a@.len() == b@.len(),
            digits_ok(a@),
            digits_ok(b@),
            digits_ok(c@),
            c@.len() == i,
            borrow <= 1,
            val(a@.subrange(0, i as int)) + borrow as nat * pow10(i as nat) == val(b@.subrange(0, i as int)) + val(c@),
        decreases a@.len() - i,
    {
        let x: u8 = a[i];
        let y: u8 = b[i] + borrow;
        let (d, nb): (u8, u8) = if x >= y { (x - y, 0) } else { (x + 10 - y, 1) };
        proof {
            assert(a@.subrange(0, i + 1) == a@.subrange(0, i as int).push(a@[i as int]));
            assert(b@.subrange(0, i + 1) == b@.subrange(0, i as int).push(b@[i as int]));
            lemma_val_push(a@.subrange(0, i as int), a@[i as int]);
            lemma_val_push(b@.subrange(0, i as int), b@[i as int]);
            lemma_val_push(c@, d);
            let p = pow10(i as nat);
            assert(pow10(i as nat + 1) == 10 * p);
            assert(x as nat * p + nb as nat * (10 * p) == (b@[i as int] as nat) * p + borrow as nat * p + d as nat * p)
                by (nonlinear_arith) requires x as nat + 10 * nb as nat == b@[i as int] as nat + borrow as nat + d as nat;
        }
        c.push(d);
        borrow = nb;
        i = i + 1;
    }
    assert(a@.subrange(0, a@.len() as int) =~= a@);
    assert(b@.subrange(0, b@.len() as int) =~= b@);
    (c, borrow == 1)
}

/// The larger of two lengths.
fn max_len(a: usize, b: usize) -> (r: usize)
    ensures
        r >= a && r >= b,
        r == a || r == b,
{
    if a >= b { a } else { b }
}

/// The sum of two numbers.
pub fn add(a: &Vec<u8>, b: &Vec<u8>) -> (r: Vec<u8>)
    requires
        canonical(a@),
        canonical(b@),
    ensures
        canonical(r@),
        val(r@) == val(a@) + val(b@),
{
    let n = max_len(a.len(), b.len());
    let pa = pad(a, n);
    let pb = pad(b, n);
    let (mut c, carry) = add_same(&pa, &pb);
    if carry == 1 {
        proof {
            lemma_val_push(c@, 1);
        }
        c.push(1);
    }
    normalize(c)
}

/// Powers of ten grow with the exponent.
pub proof fn lemma_pow10_mono(a: nat, b: nat)
    requires
        a <= b,
    ensures
        pow10(a) <= pow10(b),
    decreases b,
{
    if a < b {
        lemma_pow10_mono(a, (b - 1) as nat);
    }
}

/// Whether `a` is below `b`.
pub fn less(a: &Vec<u8>, b: &Vec<u8>) -> (r: bool)
    requires
        canonical(a@),
        canonical(b@),
    ensures
        r == (val(a@) < val(b@)),
{
    let n = max_len(a.len(), b.len());
    let pa = pad(a, n);
    let pb = pad(b, n);
    let (c, borrow) = sub_same(&pa, &pb);
    proof {
        lemma_val_bound(pa@);
        lemma_val_bound(pb@);
        lemma_val_bound(c@);
    }
    borrow
}

/// The difference `a - b` of two numbers with `b <= a`.
pub fn sub(a: &Vec<u8>, b: &Vec<u8>) -> (r: Vec<u8>)
    requires
        canonical(a@),
        canonical(b@),
        val(b@) <= val(a@),
    ensures
        canonical(r@),
        val(r@) == val(a@) - val(b@),
{
    let n = max_len(a.len(), b.len());
    let pa = pad(a, n);
    let pb = pad(b, n);
    let (c, borrow) = sub_same(&pa, &pb);
    proof {
        lemma_val_bound(pa@);
        lemma_val_bound(c@);
        if borrow {
            assert(false);
        }
    }
    normalize(c)
}

/// Whether a number is zero.
pub fn is_zero(a: &Vec<u8>) -> (r: bool)
    requires
        canonical(a@),
    ensures
        r == (val(a@) == 0),
{
    proof {
        lemma_val_zero(a@);
    }
    a.len() == 0
}

/// Appends the decimal text of a number, most significant digit first.
pub fn render_into(a: &Vec<u8>, out: &mut Vec<char>)
    requires
        canonical(a@),
    ensures
        final(out)@ == old(out)@ + decimal(val(a@)),
{
    if a.len() == 0 {
        out.push('0');
        proof {
            assert(val(a@) == 0);
        }
        assert(final(out)@ =~= old(out)@ + decimal(val(a@)));
        return;
    }
    let n = a.len();
    let ghost start = out@;
    proof {
        let t = a@.subrange(n - 1, n as int);
        assert(t.drop_first() =~= Seq::<u8>::empty());
        assert(t[0] == a@[n - 1]);
        assert(val(Seq::<u8>::empty()) == 0);
        assert(val(t) == a@[n - 1] as nat);
    }
    out.push(((a[n - 1] as u32) + 48) as u8 as char);
    let mut i: usize = n - 1;
    assert(out@ =~= start + decimal(val(a@.subrange(i as int, n as int))));
    while i > 0
        invariant
            0 <= i < n == a@.len(),
            canonical(a@),
            val(a@.subrange(i as int, n as int)) >= 1,
            out@ == start + decimal(val(a@.subrange(i as int, n as int))),
        decreases i,
    {
        let ghost hi = val(a@.subrange(i as int, n as int));
        let d = a[i - 1];
        proof {
            let t = a@.subrange(i - 1, n as int);
            assert(t.drop_first() =~= a@.subrange(i as int, n as int));
            let x = val(t);
            assert(x == d as nat + 10 * hi);
            assert(x / 10 == hi && x % 10 == d as nat) by (nonlinear_arith)
                requires x == d as nat + 10 * hi, (d as nat) < 10;
            assert(x >= 10);
        }
        out.push(((d as u32) + 48) as u8 as char);
        i = i - 1;
        assert(out@ =~= start + decimal(val(a@.subrange(i as int, n as int))));
    }
    assert(a@.subrange(0, n as int) =~= a@);
}

} // verus!
