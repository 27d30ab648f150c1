//! Exact signed decimal numbers of any size: the amounts and balances of
//! the bank. Nothing is rounded and nothing overflows.

use crate::digits::{
    add_digits, all_digits, digit_at, digit_or_zero, is_zero_digits, lemma_magnitude_push,
    lemma_pow10_adds, lemma_pow10_positive, magnitude, pow10, shift_digits, strip_digits,
    sub_digits,
};
use crate::numeral::{
    digit_values, lemma_not_numeral, lemma_number_of_digits, lemma_unsigned_numeral, numeral,
    reversed, scan_digits,
};
use crate::text::{chars_of, trim_bounds, trimmed};
use crate::writing::{
    lemma_text_of_scaled, lemma_text_shape, places_text, push_places, unsigned_text,
};
use vstd::prelude::*;
use vstd::string::StringExecFns;

verus! {

/// The number that a `Decimal` stands for: `units` divided by ten to the
/// power `scale`.
pub struct DecimalView {
    pub units: int,
    pub scale: nat,
}

impl DecimalView {
    /// The larger of the two scales.
    pub open spec fn common_scale(self, other: DecimalView) -> nat {
        if self.scale >= other.scale {
            self.scale
        } else {
            other.scale
        }
    }

    /// The number counted in units of ten to the power `-s`, for a scale
    /// `s` that is at least its own.
    pub open spec fn to_scale(self, s: nat) -> int
        recommends
            s >= self.scale,
    {
        self.units * pow10((s - self.scale) as nat)
    }

    /// The sum, written at the larger of the two scales.
    pub open spec fn plus(self, other: DecimalView) -> DecimalView {
        let s = self.common_scale(other);
        DecimalView { units: self.to_scale(s) + other.to_scale(s), scale: s }
    }

    /// The difference, written at the larger of the two scales.
    pub open spec fn minus(self, other: DecimalView) -> DecimalView {
        let s = self.common_scale(other);
        DecimalView { units: self.to_scale(s) - other.to_scale(s), scale: s }
    }

    /// Whether the number is at most `other`.
    pub open spec fn le(self, other: DecimalView) -> bool {
        let s = self.common_scale(other);
        self.to_scale(s) <= other.to_scale(s)
    }

    /// Whether the two stand for the same number, whatever their scales.
    pub open spec fn same_value(self, other: DecimalView) -> bool {
        let s = self.common_scale(other);
        self.to_scale(s) == other.to_scale(s)
    }

    /// The number in writing: a `-` if it is below zero, then its
    /// shortest decimal writing.
    pub open spec fn text(self) -> Seq<char> {
        if self.units < 0 {
            seq!['-'] + unsigned_text((-self.units) as nat, self.scale)
        } else {
            unsigned_text(self.units as nat, self.scale)
        }
    }
}

/// The larger of two scales.
spec fn max_scale(s: nat, t: nat) -> nat {
    if s >= t {
        s
    } else {
        t
    }
}

/// Counting in finer units multiplies the count: from scale `s` to a
/// scale `fine` that is at least `s`, by ten to the power `fine - s`.
pub proof fn lemma_to_scale_further(a: DecimalView, s: nat, fine: nat)
    requires
        a.scale <= s <= fine,
    ensures
        a.to_scale(fine) == a.to_scale(s) * pow10((fine - s) as nat),
{
    let p = pow10((s - a.scale) as nat);
    let q = pow10((fine - s) as nat);
    lemma_pow10_adds((s - a.scale) as nat, (fine - s) as nat);
    assert(pow10((fine - a.scale) as nat) == p * q);
    assert(a.units * (p * q) == (a.units * p) * q) by (nonlinear_arith);
}

/// Two numbers compare as their counts do in any units fine enough for
/// both.
pub proof fn lemma_compare_at_any_scale(a: DecimalView, b: DecimalView, s: nat)
    requires
        a.scale <= s,
        b.scale <= s,
    ensures
        a.le(b) <==> a.to_scale(s) <= b.to_scale(s),
        a.same_value(b) <==> a.to_scale(s) == b.to_scale(s),
{
    let c = a.common_scale(b);
    let q = pow10((s - c) as nat);
    lemma_to_scale_further(a, c, s);
    lemma_to_scale_further(b, c, s);
    lemma_pow10_positive((s - c) as nat);
    let x = a.to_scale(c);
    let y = b.to_scale(c);
    assert((x <= y) <==> (x * q <= y * q)) by (nonlinear_arith)
        requires
            q >= 1,
    ;
    assert((x == y) <==> (x * q == y * q)) by (nonlinear_arith)
        requires
            q >= 1,
    ;
}

/// A sum and a difference count, in any units fine enough for both
/// terms, what the counts of the terms add up to and differ by.
pub proof fn lemma_plus_minus_at_any_scale(a: DecimalView, b: DecimalView, s: nat)
    requires
        a.scale <= s,
        b.scale <= s,
    ensures
        a.plus(b).to_scale(s) == a.to_scale(s) + b.to_scale(s),
        a.minus(b).to_scale(s) == a.to_scale(s) - b.to_scale(s),
{
    let c = a.common_scale(b);
    let q = pow10((s - c) as nat);
    lemma_to_scale_further(a, c, s);
    lemma_to_scale_further(b, c, s);
    let x = a.to_scale(c);
    let y = b.to_scale(c);
    assert((x + y) * q == x * q + y * q) by (nonlinear_arith);
    assert((x - y) * q == x * q - y * q) by (nonlinear_arith);
}

/// Being the same number is an equivalence, whatever the scales.
pub proof fn lemma_same_value_is_equivalence(a: DecimalView, b: DecimalView, c: DecimalView)
    ensures
        a.same_value(a),
        a.same_value(b) ==> b.same_value(a),
        a.same_value(b) && b.same_value(c) ==> a.same_value(c),
{
    let s = max_scale(a.common_scale(b), c.scale);
    lemma_compare_at_any_scale(a, b, s);
    lemma_compare_at_any_scale(b, a, s);
    lemma_compare_at_any_scale(b, c, s);
    lemma_compare_at_any_scale(a, c, s);
}

/// The numbers are in a total order: any two compare, the order passes
/// on, and two numbers that are each at most the other are the same.
pub proof fn lemma_le_is_total_order(a: DecimalView, b: DecimalView, c: DecimalView)
    ensures
        a.le(a),
        a.le(b) || b.le(a),
        a.le(b) && b.le(c) ==> a.le(c),
        a.le(b) && b.le(a) <==> a.same_value(b),
{
    let s = max_scale(a.common_scale(b), c.scale);
    lemma_compare_at_any_scale(a, b, s);
    lemma_compare_at_any_scale(b, a, s);
    lemma_compare_at_any_scale(b, c, s);
    lemma_compare_at_any_scale(a, c, s);
}

/// Sums, differences and the order go by the numbers alone: writing a
/// term at another scale gives the same number and the same answer.
pub proof fn lemma_same_value_same_results(
    a: DecimalView,
    a2: DecimalView,
    b: DecimalView,
    b2: DecimalView,
)
    requires
        a.same_value(a2),
        b.same_value(b2),
    ensures
        a.plus(b).same_value(a2.plus(b2)),
        a.minus(b).same_value(a2.minus(b2)),
        a.le(b) <==> a2.le(b2),
{
    let s = max_scale(a.common_scale(a2), b.common_scale(b2));
    lemma_compare_at_any_scale(a, a2, s);
    lemma_compare_at_any_scale(b, b2, s);
    lemma_compare_at_any_scale(a, b, s);
    lemma_compare_at_any_scale(a2, b2, s);
    lemma_plus_minus_at_any_scale(a, b, s);
    lemma_plus_minus_at_any_scale(a2, b2, s);
    lemma_compare_at_any_scale(a.plus(b), a2.plus(b2), s);
    lemma_compare_at_any_scale(a.minus(b), a2.minus(b2), s);
}

/// A number is written in one way only: the same number at another
/// scale has the same text.
pub proof fn lemma_same_value_same_text(a: DecimalView, b: DecimalView)
    requires
        a.same_value(b),
    ensures
        a.text() == b.text(),
{
    if a.scale <= b.scale {
        lemma_text_at_finer_scale(a, b);
    } else {
        lemma_text_at_finer_scale(b, a);
    }
}

/// The text of a number does not change when it is written at a finer
/// scale.
proof fn lemma_text_at_finer_scale(a: DecimalView, b: DecimalView)
    requires
        a.scale <= b.scale,
        a.to_scale(b.scale) == b.to_scale(b.scale),
    ensures
        a.text() == b.text(),
{
    let k = (b.scale - a.scale) as nat;
    let p = pow10(k);
    lemma_pow10_positive(k);
    assert(pow10(0) == 1);
    assert(b.units * 1 == b.units);
    assert(b.units == a.units * p);
    assert((a.units < 0) <==> (a.units * p < 0)) by (nonlinear_arith)
        requires
            p >= 1,
    ;
    if a.units < 0 {
        assert(-(a.units * p) == (-a.units) * p) by (nonlinear_arith);
        lemma_text_of_scaled((-a.units) as nat, a.scale, k);
    } else {
        lemma_text_of_scaled(a.units as nat, a.scale, k);
    }
}

/// A sum less one of its terms is the other term.
pub proof fn lemma_plus_then_minus(a: DecimalView, b: DecimalView)
    ensures
        a.plus(b).minus(a).same_value(b),
{
    let s = a.common_scale(b);
    lemma_plus_minus_at_any_scale(a, b, s);
    lemma_plus_minus_at_any_scale(a.plus(b), a, s);
    lemma_compare_at_any_scale(a.plus(b).minus(a), b, s);
}

/// A number less what is left of it after `b` was taken away is `b`.
pub proof fn lemma_minus_then_minus(a: DecimalView, b: DecimalView)
    ensures
        a.minus(a.minus(b)).same_value(b),
{
    let s = a.common_scale(b);
    lemma_plus_minus_at_any_scale(a, b, s);
    lemma_plus_minus_at_any_scale(a, a.minus(b), s);
    lemma_compare_at_any_scale(a.minus(a.minus(b)), b, s);
}

/// `m` with the sign that `negative` gives it.
spec fn signed(negative: bool, m: nat) -> int {
    if negative {
        -(m as int)
    } else {
        m as int
    }
}

/// An exact decimal number: a sign, the digits of its magnitude, and the
/// count of those digits that stand behind the decimal point.
#[derive(Debug)]
pub struct Decimal {
    negative: bool,
    digits: Vec<u8>,
    scale: usize,
}

impl Decimal {
    /// Every stored digit is a digit.
    #[verifier::type_invariant]
    spec fn well_formed(self) -> bool {
        all_digits(self.digits@)
    }
}

impl View for Decimal {
    type V = DecimalView;

    closed spec fn view(&self) -> DecimalView {
        DecimalView { units: signed(self.negative, magnitude(self.digits@)), scale: self.scale as nat }
    }
}

impl Clone for Decimal {
    fn clone(&self) -> (r: Decimal)
        ensures
            r@ == self@,
    {
        proof {
            use_type_invariant(self);
        }
        let digits: Vec<u8> = shift_digits(&self.digits, 0);
        proof {
            assert(pow10(0) == 1);
            assert(magnitude(self.digits@) * 1 == magnitude(self.digits@));
        }
        Decimal { negative: self.negative, digits, scale: self.scale }
    }
}

/// The digits of `m`, least significant first.
fn digits_of(m: u64) -> (r: Vec<u8>)
    ensures
        all_digits(r@),
        magnitude(r@) == m,
{
    let mut r: Vec<u8> = Vec::new();
    let mut rest: u64 = m;
    assert(rest as nat * pow10(0) == rest as nat) by {
        assert(pow10(0) == 1);
        assert(rest as nat * 1 == rest as nat);
    }
    while rest > 0
        invariant
            all_digits(r@),
            magnitude(r@) + rest as nat * pow10(r@.len()) == m,
        decreases rest,
    {
        let y: u8 = (rest % 10) as u8;
        let q: u64 = rest / 10;
        proof {
            lemma_magnitude_push(r@, y);
            let p = pow10(r@.len());
            assert(pow10(r@.len() + 1) == 10 * p);
            assert(y as nat * p + q as nat * (10 * p) == rest as nat * p) by (nonlinear_arith)
                requires
                    y as nat + 10 * q as nat == rest as nat,
            ;
        }
        r.push(y);
        rest = q;
    }
    assert(0 * pow10(r@.len()) == 0);
    r
}

impl Decimal {
    /// The number `units` divided by ten to the power `scale`.
    pub fn new(units: i64, scale: u8) -> (r: Decimal)
        ensures
            r@ == (DecimalView { units: units as int, scale: scale as nat }),
    {
        let negative: bool = units < 0;
        let m: u64 = if units >= 0 {
            units as u64
        } else {
            (-(units + 1)) as u64 + 1
        };
        Decimal { negative, digits: digits_of(m), scale: scale as usize }
    }

    /// Zero.
    pub fn zero() -> (r: Decimal)
        ensures
            r@ == (DecimalView { units: 0, scale: 0 }),
    {
        Decimal::new(0, 0)
    }

    /// Reads a decimal number: `Some` of it for a numeral, `None` for any
    /// other text.
    pub fn parse(text: &str) -> (r: Option<Decimal>)
        ensures
            match r {
                Some(d) => numeral(text@) == Some(d@),
                None => numeral(text@) is None,
            },
    {
        let chars: Vec<char> = chars_of(text);
        let (from, to) = trim_bounds(&chars);
        let ghost t = trimmed(text@);
        let signed_text: bool = from < to && (chars[from] == '-' || chars[from] == '+');
        let negative: bool = from < to && chars[from] == '-';
        let start: usize = if signed_text {
            from + 1
        } else {
            from
        };
        let ghost body = chars@.subrange(start as int, to as int);
        proof {
            if from < to {
                assert(t[0] == chars[from as int]);
            }
            if signed_text {
                assert(body =~= t.skip(1));
            } else {
                assert(body =~= t);
            }
        }
        let mut be: Vec<u8> = Vec::new();
        let point: usize = scan_digits(&chars, start, to, &mut be);
        let ghost whole = point - start;
        proof {
            assert(body.take(whole) =~= chars@.subrange(start as int, point as int));
            if point < to {
                assert(body[whole] == chars[point as int]);
            }
        }
        let mut scale: usize = 0;
        if point < to {
            if chars[point] != '.' {
                proof {
                    lemma_not_numeral(body, whole, whole);
                }
                return None;
            }
            let end: usize = scan_digits(&chars, point + 1, to, &mut be);
            if end < to {
                proof {
                    assert(body[end - start] == chars[end as int]);
                    lemma_not_numeral(body, whole, end - start);
                }
                return None;
            }
            scale = to - point - 1;
            proof {
                assert(body.skip(whole + 1) =~= chars@.subrange(point + 1, end as int));
            }
        }
        proof {
            lemma_unsigned_numeral(body, whole);
        }
        if be.len() == 0 {
            return None;
        }
        let digits: Vec<u8> = reversed(&be);
        proof {
            let src = if whole == body.len() {
                body
            } else {
                body.take(whole) + body.skip(whole + 1)
            };
            assert(be@ =~= digit_values(src));
            lemma_number_of_digits(src);
        }
        Some(Decimal { negative, digits, scale })
    }

    /// The sum when `flip` is false, the difference when it is true.
    fn combine(&self, other: &Decimal, flip: bool) -> (r: Decimal)
        ensures
            r@ == (if flip {
                self@.minus(other@)
            } else {
                self@.plus(other@)
            }),
    {
        proof {
            use_type_invariant(self);
            use_type_invariant(other);
        }
        let s: usize = if self.scale >= other.scale {
            self.scale
        } else {
            other.scale
        };
        let a: Vec<u8> = shift_digits(&self.digits, s - self.scale);
        let b: Vec<u8> = shift_digits(&other.digits, s - other.scale);
        let other_negative: bool = other.negative != flip;
        proof {
            let ma = magnitude(self.digits@);
            let mb = magnitude(other.digits@);
            let pa = pow10((s - self.scale) as nat);
            let pb = pow10((s - other.scale) as nat);
            assert((-(ma as int)) * pa == -(ma * pa)) by (nonlinear_arith);
            assert((-(mb as int)) * pb == -(mb * pb)) by (nonlinear_arith);
            assert(self@.to_scale(s as nat) == signed(self.negative, magnitude(a@)));
            assert(other@.to_scale(s as nat) == signed(other.negative, magnitude(b@)));
        }
        if self.negative == other_negative {
            let mut d: Vec<u8> = add_digits(&a, &b);
            strip_digits(&mut d);
            Decimal { negative: self.negative, digits: d, scale: s }
        } else {
            let (mut d, borrow) = sub_digits(&a, &b);
            if !borrow {
                strip_digits(&mut d);
                Decimal { negative: self.negative, digits: d, scale: s }
            } else {
                let (mut e, _) = sub_digits(&b, &a);
                strip_digits(&mut e);
                Decimal { negative: other_negative, digits: e, scale: s }
            }
        }
    }

    /// The sum of the two numbers.
    pub fn plus(&self, other: &Decimal) -> (r: Decimal)
        ensures
            r@ == self@.plus(other@),
    {
        self.combine(other, false)
    }

    /// The number less `other`.
    pub fn minus(&self, other: &Decimal) -> (r: Decimal)
        ensures
            r@ == self@.minus(other@),
    {
        self.combine(other, true)
    }

    /// Whether the number is negative.
    pub fn is_negative(&self) -> (r: bool)
        ensures
            r == (self@.units < 0),
    {
        proof {
            use_type_invariant(self);
        }
        self.negative && !is_zero_digits(&self.digits)
    }

    /// Whether the number is zero.
    pub fn is_zero(&self) -> (r: bool)
        ensures
            r == (self@.units == 0),
    {
        proof {
            use_type_invariant(self);
        }
        is_zero_digits(&self.digits)
    }

    /// The number in writing, as `150`, `-0.5` or `12.34`.
    pub fn text(&self) -> (r: String)
        ensures
            r@ == self@.text(),
    {
        proof {
            use_type_invariant(self);
        }
        let d: &Vec<u8> = &self.digits;
        let n: usize = d.len();
        let scale: usize = self.scale;
        let mut t: usize = 0;
        while t < scale && digit_or_zero(d, t) == 0
            invariant
                t <= scale,
                forall|j: int| 0 <= j < t ==> digit_at(d@, j) == 0,
            decreases scale - t,
        {
            t += 1;
        }
        let mut h: usize = if n > scale {
            (n - 1) as usize
        } else {
            scale
        };
        while h > scale && digit_or_zero(d, h) == 0
            invariant
                n == d@.len(),
                scale <= h,
                h < n || h == scale,
                forall|j: int| h < j < n ==> d@[j] == 0,
            decreases h,
        {
            h -= 1;
        }
        proof {
            lemma_text_shape(d@, scale as nat, t as nat, h as nat);
        }
        let mut out: String = String::new();
        if self.is_negative() {
            proof {
                reveal_strlit("-");
            }
            out.append("-");
            assert(out@ =~= seq!['-']);
        }
        let ghost sign = out@;
        push_places(&mut out, d, h, h - scale + 1);
        if t < scale {
            proof {
                reveal_strlit(".");
            }
            out.append(".");
            assert(out@ =~= sign + places_text(d@, h as int, (h - scale + 1) as nat) + seq!['.']);
            push_places(&mut out, d, scale - 1, scale - t);
        }
        proof {
            let body = unsigned_text(magnitude(d@), scale as nat);
            assert(out@ =~= sign + body);
            assert(Seq::<char>::empty() + body =~= body);
        }
        out
    }

    /// Whether the number is at most `other`.
    pub fn le(&self, other: &Decimal) -> (r: bool)
        ensures
            r == self@.le(other@),
    {
        !other.minus(self).is_negative()
    }

    /// Whether the two stand for the same number: `1.50` equals `1.5`.
    pub fn equals(&self, other: &Decimal) -> (r: bool)
        ensures
            r == self@.same_value(other@),
    {
        other.minus(self).is_zero()
    }
}

} // verus!
