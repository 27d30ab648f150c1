//! Arithmetic on magnitudes written as base-ten digits, least significant
//! digit first.

use vstd::prelude::*;

verus! {

/// Ten to the power `n`.
pub open spec fn pow10(n: nat) -> nat
    decreases n,
{
    if n == 0 {
        1
    } else {
        10 * pow10((n - 1) as nat)
    }
}

/// Whether every element of `d` is a decimal digit.
pub open spec fn all_digits(d: Seq<u8>) -> bool {
    forall|i: int| 0 <= i < d.len() ==> #[trigger] d[i] <= 9
}

/// The number that the digits `d` write, least significant first.
pub open spec fn magnitude(d: Seq<u8>) -> nat
    decreases d.len(),
{
    if d.len() == 0 {
        0
    } else {
        magnitude(d.drop_last()) + d.last() as nat * pow10((d.len() - 1) as nat)
    }
}

/// Digit `i` of `d`, zero beyond its end.
pub open spec fn digit_at(d: Seq<u8>, i: int) -> nat {
    if 0 <= i < d.len() {
        d[i] as nat
    } else {
        0
    }
}

/// The number written by the lowest `i` digits of `d`.
pub open spec fn low_part(d: Seq<u8>, i: int) -> nat {
    if i < d.len() {
        magnitude(d.take(i))
    } else {
        magnitude(d)
    }
}

/// Powers of ten are positive.
pub(crate) proof fn lemma_pow10_positive(n: nat)
    ensures
        pow10(n) >= 1,
    decreases n,
{
    if n > 0 {
        lemma_pow10_positive((n - 1) as nat);
    }
}

/// Powers of ten multiply as their exponents add.
pub(crate) proof fn lemma_pow10_adds(a: nat, b: nat)
    ensures
        pow10(a + b) == pow10(a) * pow10(b),
    decreases b,
{
    if b == 0 {
        assert(pow10(a) * 1 == pow10(a));
    } else {
        lemma_pow10_adds(a, (b - 1) as nat);
        let p = pow10(a);
        let q = pow10((b - 1) as nat);
        assert(pow10(a + b) == 10 * pow10((a + b - 1) as nat));
        assert(10 * (p * q) == p * (10 * q)) by (nonlinear_arith);
    }
}

/// Appending a digit at the significant end adds that digit times the
/// power of its place.
pub(crate) proof fn lemma_magnitude_push(d: Seq<u8>, x: u8)
    ensures
        magnitude(d.push(x)) == magnitude(d) + x as nat * pow10(d.len()),
{
    assert(d.push(x).drop_last() =~= d);
}

/// Digits write a number below ten to the power of their count.
pub(crate) proof fn lemma_magnitude_bound(d: Seq<u8>)
    requires
        all_digits(d),
    ensures
        magnitude(d) < pow10(d.len()),
    decreases d.len(),
{
    if d.len() > 0 {
        lemma_magnitude_bound(d.drop_last());
        let p = pow10((d.len() - 1) as nat);
        let x = d.last() as nat;
        assert(x <= 9);
        assert(magnitude(d.drop_last()) + x * p < 10 * p) by (nonlinear_arith)
            requires
                magnitude(d.drop_last()) < p,
                x <= 9,
        ;
    }
}

/// The number written by `a` followed by `b` on the significant side.
pub(crate) proof fn lemma_magnitude_concat(a: Seq<u8>, b: Seq<u8>)
    ensures
        magnitude(a + b) == magnitude(a) + pow10(a.len()) * magnitude(b),
    decreases b.len(),
{
    if b.len() == 0 {
        assert(a + b =~= a);
        assert(pow10(a.len()) * 0 == 0);
    } else {
        let b0 = b.drop_last();
        lemma_magnitude_concat(a, b0);
        assert((a + b).drop_last() =~= a + b0);
        assert((a + b).last() == b.last());
        lemma_pow10_adds(a.len(), (b.len() - 1) as nat);
        let pa = pow10(a.len());
        let pb = pow10((b.len() - 1) as nat);
        let x = b.last() as nat;
        let m0 = magnitude(b0);
        assert(pa * m0 + x * (pa * pb) == pa * (m0 + x * pb)) by (nonlinear_arith);
    }
}

/// The lowest digit and the rest: the number is the digit plus ten times
/// what the other digits write.
pub(crate) proof fn lemma_magnitude_first(d: Seq<u8>)
    requires
        d.len() > 0,
    ensures
        magnitude(d) == d[0] as nat + 10 * magnitude(d.drop_first()),
{
    let a = seq![d[0]];
    lemma_magnitude_concat(a, d.drop_first());
    assert(a + d.drop_first() =~= d);
    assert(a =~= Seq::<u8>::empty().push(d[0]));
    lemma_magnitude_push(Seq::<u8>::empty(), d[0]);
    assert(magnitude(Seq::<u8>::empty()) == 0);
    assert(pow10(0) == 1);
    assert(pow10(1) == 10);
    assert(d[0] as nat * 1 == d[0] as nat);
    assert(magnitude(a) == d[0] as nat);
}

/// Zero digits write zero.
pub(crate) proof fn lemma_magnitude_zeros(d: Seq<u8>)
    requires
        forall|i: int| 0 <= i < d.len() ==> d[i] == 0,
    ensures
        magnitude(d) == 0,
    decreases d.len(),
{
    if d.len() > 0 {
        lemma_magnitude_zeros(d.drop_last());
        assert(0 * pow10((d.len() - 1) as nat) == 0);
    }
}

/// Digits that write zero are all zero.
pub(crate) proof fn lemma_magnitude_zero_digits(d: Seq<u8>)
    requires
        magnitude(d) == 0,
    ensures
        forall|i: int| 0 <= i < d.len() ==> d[i] == 0,
    decreases d.len(),
{
    if d.len() > 0 {
        let p = pow10((d.len() - 1) as nat);
        let x = d.last() as nat;
        lemma_pow10_positive((d.len() - 1) as nat);
        assert(x == 0) by (nonlinear_arith)
            requires
                x * p == 0,
                p >= 1,
        ;
        assert(0 * p == 0);
        lemma_magnitude_zero_digits(d.drop_last());
        assert forall|i: int| 0 <= i < d.len() implies d[i] == 0 by {
            if i < d.len() - 1 {
                assert(d[i] == d.drop_last()[i]);
            }
        }
    }
}

/// One more low digit: `low_part` grows by that digit times the power of
/// its place.
pub(crate) proof fn lemma_low_part_step(d: Seq<u8>, i: int)
    requires
        0 <= i,
    ensures
        low_part(d, i + 1) == low_part(d, i) + digit_at(d, i) * pow10(i as nat),
        low_part(d, 0) == 0,
{
    assert(d.take(0) =~= Seq::<u8>::empty());
    if i < d.len() {
        assert(d.take(i + 1).drop_last() =~= d.take(i));
        assert(d.take(d.len() as int) =~= d);
    } else {
        assert(0 * pow10(i as nat) == 0);
    }
}

/// `d` with zero digits added at the significant end up to length `len`.
pub open spec fn padded(d: Seq<u8>, len: nat) -> Seq<u8> {
    d + Seq::new((len - d.len()) as nat, |i: int| 0u8)
}

/// Padding with zeros keeps the digits and the number.
pub(crate) proof fn lemma_padded(d: Seq<u8>, len: nat)
    requires
        all_digits(d),
        len >= d.len(),
    ensures
        padded(d, len).len() == len,
        all_digits(padded(d, len)),
        magnitude(padded(d, len)) == magnitude(d),
        forall|i: int| 0 <= i < len ==> #[trigger] padded(d, len)[i] as nat == digit_at(d, i),
{
    let z = Seq::new((len - d.len()) as nat, |i: int| 0u8);
    lemma_magnitude_zeros(z);
    lemma_magnitude_concat(d, z);
    assert(pow10(d.len()) * 0 == 0);
}

/// Cutting the digits at place `k` divides the number by ten to the
/// power `k`: the high digits write the quotient, the low ones the rest.
pub(crate) proof fn lemma_magnitude_split(d: Seq<u8>, k: int)
    requires
        all_digits(d),
        0 <= k <= d.len(),
    ensures
        magnitude(d) / pow10(k as nat) == magnitude(d.skip(k)),
        magnitude(d) % pow10(k as nat) == magnitude(d.take(k)),
{
    let lo = d.take(k);
    let hi = d.skip(k);
    assert(lo + hi =~= d);
    lemma_magnitude_concat(lo, hi);
    lemma_magnitude_bound(lo);
    let p = pow10(k as nat) as int;
    assert(magnitude(d) == magnitude(hi) * p + magnitude(lo)) by (nonlinear_arith)
        requires
            magnitude(d) == magnitude(lo) + p * magnitude(hi),
    ;
    vstd::arithmetic::div_mod::lemma_fundamental_div_mod_converse(
        magnitude(d) as int,
        p,
        magnitude(hi) as int,
        magnitude(lo) as int,
    );
}

/// Reads digit `i` of `d`, zero beyond its end.
pub(crate) fn digit_or_zero(d: &Vec<u8>, i: usize) -> (x: u8)
    ensures
        x as nat == digit_at(d@, i as int),
        all_digits(d@) ==> x <= 9,
{
    if i < d.len() {
        d[i]
    } else {
        0
    }
}

/// The digits of the sum of two magnitudes.
pub(crate) fn add_digits(a: &Vec<u8>, b: &Vec<u8>) -> (r: Vec<u8>)
    requires
        all_digits(a@),
        all_digits(b@),
    ensures
        all_digits(r@),
        magnitude(r@) == magnitude(a@) + magnitude(b@),
{
    let n: usize = if a.len() >= b.len() {
        a.len()
    } else {
        b.len()
    };
    let mut r: Vec<u8> = Vec::new();
    let mut carry: u8 = 0;
    let mut i: usize = 0;
    proof {
        lemma_low_part_step(a@, 0);
        lemma_low_part_step(b@, 0);
        assert(0 * pow10(0) == 0);
    }
    while i < n
        invariant
            n >= a.len(),
            n >= b.len(),
            i <= n,
            r.len() == i,
            carry <= 1,
            all_digits(a@),
            all_digits(b@),
            all_digits(r@),
            magnitude(r@) + carry as nat * pow10(i as nat) == low_part(a@, i as int) + low_part(
                b@,
                i as int,
            ),
        decreases n - i,
    {
        let x: u8 = digit_or_zero(a, i) + digit_or_zero(b, i) + carry;
        let y: u8 = if x >= 10 {
            x - 10
        } else {
            x
        };
        let next: u8 = if x >= 10 {
            1
        } else {
            0
        };
        proof {
            lemma_magnitude_push(r@, y);
            lemma_low_part_step(a@, i as int);
            lemma_low_part_step(b@, i as int);
            let p = pow10(i as nat);
            let da = digit_at(a@, i as int);
            let db = digit_at(b@, i as int);
            assert(pow10((i + 1) as nat) == 10 * p);
            assert(y as nat * p + next as nat * (10 * p) == da * p + db * p + carry as nat * p)
                by (nonlinear_arith)
                requires
                    y as nat + 10 * next as nat == da + db + carry as nat,
            ;
        }
        r.push(y);
        carry = next;
        i += 1;
    }
    if carry > 0 {
        proof {
            lemma_magnitude_push(r@, carry);
        }
        r.push(carry);
    } else {
        assert(0 * pow10(i as nat) == 0);
    }
    r
}

/// The digits of a difference of two magnitudes, with the borrow that is
/// left over: the result writes `a - b` when `borrow` is false, and
/// `a - b` plus ten to the power of its length when it is true.
pub(crate) fn sub_digits(a: &Vec<u8>, b: &Vec<u8>) -> (r: (Vec<u8>, bool))
    requires
        all_digits(a@),
        all_digits(b@),
    ensures
        all_digits(r.0@),
        r.0.len() >= a.len(),
        r.0.len() >= b.len(),
        r.1 == (magnitude(a@) < magnitude(b@)),
        !r.1 ==> magnitude(r.0@) == magnitude(a@) - magnitude(b@),
        r.1 ==> magnitude(r.0@) == magnitude(a@) + pow10(r.0@.len()) - magnitude(b@),
{
    let n: usize = if a.len() >= b.len() {
        a.len()
    } else {
        b.len()
    };
    let mut r: Vec<u8> = Vec::new();
    let mut borrow: u8 = 0;
    let mut i: usize = 0;
    proof {
        lemma_low_part_step(a@, 0);
        lemma_low_part_step(b@, 0);
        assert(0 * pow10(0) == 0);
    }
    while i < n
        invariant
            n >= a.len(),
            n >= b.len(),
            i <= n,
            r.len() == i,
            borrow <= 1,
            all_digits(a@),
            all_digits(b@),
            all_digits(r@),
            magnitude(r@) + low_part(b@, i as int) == low_part(a@, i as int) + borrow as nat
                * pow10(i as nat),
        decreases n - i,
    {
        let x: u8 = digit_or_zero(a, i);
        let z: u8 = digit_or_zero(b, i) + borrow;
        let y: u8 = if x >= z {
            x - z
        } else {
            x + 10 - z
        };
        let next: u8 = if x >= z {
            0
        } else {
            1
        };
        proof {
            lemma_magnitude_push(r@, y);
            lemma_low_part_step(a@, i as int);
            lemma_low_part_step(b@, i as int);
            let p = pow10(i as nat);
            let da = digit_at(a@, i as int);
            let db = digit_at(b@, i as int);
            assert(pow10((i + 1) as nat) == 10 * p);
            assert(y as nat * p + db * p + borrow as nat * p == da * p + next as nat * (10 * p))
                by (nonlinear_arith)
                requires
                    y as nat + db + borrow as nat == da + 10 * next as nat,
            ;
        }
        r.push(y);
        borrow = next;
        i += 1;
    }
    proof {
        lemma_magnitude_bound(r@);
        if borrow == 0 {
            assert(0 * pow10(i as nat) == 0);
        } else {
            assert(1 * pow10(i as nat) == pow10(i as nat));
        }
    }
    (r, borrow == 1)
}

/// The digits of a magnitude times ten to the power `k`.
pub(crate) fn shift_digits(d: &Vec<u8>, k: usize) -> (r: Vec<u8>)
    requires
        all_digits(d@),
    ensures
        all_digits(r@),
        magnitude(r@) == magnitude(d@) * pow10(k as nat),
{
    let mut r: Vec<u8> = Vec::new();
    let mut i: usize = 0;
    while i < k
        invariant
            i <= k,
            r.len() == i,
            forall|j: int| 0 <= j < r.len() ==> r[j] == 0,
        decreases k - i,
    {
        r.push(0);
        i += 1;
    }
    let ghost zeros = r@;
    let n: usize = d.len();
    let mut j: usize = 0;
    while j < n
        invariant
            n == d.len(),
            j <= n,
            r@ == zeros + d@.take(j as int),
        decreases n - j,
    {
        r.push(d[j]);
        proof {
            assert(d@.take(j + 1) =~= d@.take(j as int).push(d[j as int]));
            assert(r@ =~= zeros + d@.take(j + 1));
        }
        j += 1;
    }
    proof {
        assert(d@.take(n as int) =~= d@);
        lemma_magnitude_zeros(zeros);
        lemma_magnitude_concat(zeros, d@);
        assert(magnitude(d@) * pow10(k as nat) == pow10(k as nat) * magnitude(d@))
            by (nonlinear_arith);
    }
    r
}

/// Drops zero digits from the significant end.
pub(crate) fn strip_digits(d: &mut Vec<u8>)
    requires
        all_digits(old(d)@),
    ensures
        all_digits(final(d)@),
        magnitude(final(d)@) == magnitude(old(d)@),
        final(d)@ == old(d)@.take(final(d)@.len() as int),
        final(d)@.len() > 0 ==> final(d)@.last() != 0,
        forall|i: int| final(d)@.len() <= i < old(d)@.len() ==> old(d)@[i] == 0,
{
    while d.len() > 0 && d[d.len() - 1] == 0
        invariant
            all_digits(d@),
            magnitude(d@) == magnitude(old(d)@),
            d@.len() <= old(d)@.len(),
            d@ == old(d)@.take(d@.len() as int),
            forall|i: int| d@.len() <= i < old(d)@.len() ==> old(d)@[i] == 0,
        decreases d.len(),
    {
        proof {
            assert(0 * pow10((d@.len() - 1) as nat) == 0);
            assert(d@.drop_last() =~= old(d)@.take(d@.len() - 1));
        }
        d.pop();
    }
}

/// Whether the digits write zero.
pub(crate) fn is_zero_digits(d: &Vec<u8>) -> (r: bool)
    ensures
        r == (magnitude(d@) == 0),
{
    let n: usize = d.len();
    let mut i: usize = 0;
    while i < n
        invariant
            n == d.len(),
            i <= n,
            forall|j: int| 0 <= j < i ==> d[j] == 0,
        decreases n - i,
    {
        if d[i] != 0 {
            proof {
                if magnitude(d@) == 0 {
                    lemma_magnitude_zero_digits(d@);
                }
            }
            return false;
        }
        i += 1;
    }
    proof {
        lemma_magnitude_zeros(d@);
    }
    true
}

} // verus!
