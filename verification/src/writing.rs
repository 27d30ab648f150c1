//! Numbers in writing: the shortest decimal text of a number, and how it
//! is made of stored digits.

use crate::digits::{
    all_digits, digit_at, digit_or_zero, lemma_magnitude_concat, lemma_magnitude_first,
    lemma_magnitude_split, lemma_magnitude_zero_digits, lemma_magnitude_zeros, lemma_padded,
    magnitude, padded, pow10,
};
use vstd::prelude::*;
use vstd::string::StringExecFns;

verus! {

/// The character that writes the digit `n`.
pub open spec fn digit_char(n: nat) -> char {
    if n == 0 {
        '0'
    } else if n == 1 {
        '1'
    } else if n == 2 {
        '2'
    } else if n == 3 {
        '3'
    } else if n == 4 {
        '4'
    } else if n == 5 {
        '5'
    } else if n == 6 {
        '6'
    } else if n == 7 {
        '7'
    } else if n == 8 {
        '8'
    } else {
        '9'
    }
}

/// `n` in decimal digits, without leading zeros.
pub open spec fn nat_text(n: nat) -> Seq<char>
    decreases n,
{
    if n < 10 {
        seq![digit_char(n)]
    } else {
        nat_text(n / 10).push(digit_char(n % 10))
    }
}

/// The lowest `width` decimal digits of `n`, with leading zeros.
pub open spec fn fixed_text(n: nat, width: nat) -> Seq<char>
    decreases width,
{
    if width == 0 {
        Seq::empty()
    } else {
        fixed_text(n / 10, (width - 1) as nat).push(digit_char(n % 10))
    }
}

/// The shortest decimal writing of `m` divided by ten to the power
/// `scale`: no zeros at the end of the fraction, no point without a
/// fraction, and one zero before the point of a number below one.
pub open spec fn unsigned_text(m: nat, scale: nat) -> Seq<char>
    decreases scale,
{
    if scale == 0 {
        nat_text(m)
    } else if m % 10 == 0 {
        unsigned_text(m / 10, (scale - 1) as nat)
    } else {
        nat_text(m / pow10(scale)) + seq!['.'] + fixed_text(m % pow10(scale), scale)
    }
}

/// The digits `f`, stored least significant first, as characters in
/// reading order.
spec fn digits_text(f: Seq<u8>) -> Seq<char> {
    Seq::new(f.len(), |i: int| digit_char(f[f.len() - 1 - i] as nat))
}

/// Stored digits, each in its place, are the fixed-width text of the
/// number they write.
proof fn lemma_fixed_text(f: Seq<u8>)
    requires
        all_digits(f),
    ensures
        fixed_text(magnitude(f), f.len()) == digits_text(f),
    decreases f.len(),
{
    if f.len() == 0 {
        assert(digits_text(f) =~= Seq::<char>::empty());
    } else {
        lemma_magnitude_first(f);
        let f0 = f.drop_first();
        assert(all_digits(f0)) by {
            assert forall|i: int| 0 <= i < f0.len() implies #[trigger] f0[i] <= 9 by {
                assert(f0[i] == f[i + 1]);
            }
        }
        lemma_fixed_text(f0);
        assert(f[0] <= 9);
        assert(digits_text(f) =~= digits_text(f0).push(digit_char(f[0] as nat)));
    }
}

/// Stored digits without a zero at the significant end are the text of
/// the number they write.
proof fn lemma_nat_text(g: Seq<u8>)
    requires
        all_digits(g),
        g.len() >= 1,
        g.len() > 1 ==> g.last() != 0,
    ensures
        nat_text(magnitude(g)) == digits_text(g),
    decreases g.len(),
{
    lemma_magnitude_first(g);
    let g0 = g.drop_first();
    assert(g[0] <= 9);
    if g.len() == 1 {
        assert(magnitude(g0) == 0);
        assert(digits_text(g) =~= seq![digit_char(g[0] as nat)]);
    } else {
        assert(all_digits(g0)) by {
            assert forall|i: int| 0 <= i < g0.len() implies #[trigger] g0[i] <= 9 by {
                assert(g0[i] == g[i + 1]);
            }
        }
        assert(g0.last() == g.last());
        if magnitude(g0) == 0 {
            lemma_magnitude_zero_digits(g0);
            assert(g0[g0.len() - 1] == 0);
        }
        lemma_nat_text(g0);
        assert(digits_text(g) =~= digits_text(g0).push(digit_char(g[0] as nat)));
    }
}

/// Zeros at the low end of the fraction leave the text as it is.
proof fn lemma_text_skips_zeros(w: Seq<u8>, scale: nat, t: nat)
    requires
        t <= scale,
        t <= w.len(),
        forall|j: int| 0 <= j < t ==> w[j] == 0,
    ensures
        unsigned_text(magnitude(w), scale) == unsigned_text(
            magnitude(w.skip(t as int)),
            (scale - t) as nat,
        ),
    decreases t,
{
    if t == 0 {
        assert(w.skip(0) =~= w);
    } else {
        lemma_magnitude_first(w);
        let w0 = w.drop_first();
        assert forall|j: int| 0 <= j < t - 1 implies w0[j] == 0 by {
            assert(w0[j] == w[j + 1]);
        }
        lemma_text_skips_zeros(w0, (scale - 1) as nat, (t - 1) as nat);
        assert(w0.skip(t - 1) =~= w.skip(t as int));
    }
}

/// Trailing zeros with a finer scale to match leave the text as it is.
pub(crate) proof fn lemma_text_of_scaled(m: nat, scale: nat, k: nat)
    ensures
        unsigned_text(m * pow10(k), scale + k) == unsigned_text(m, scale),
    decreases k,
{
    if k == 0 {
        assert(pow10(0) == 1);
        assert(m * 1 == m);
    } else {
        let p = pow10((k - 1) as nat);
        assert(pow10(k) == 10 * p);
        assert(m * (10 * p) == 10 * (m * p)) by (nonlinear_arith);
        lemma_text_of_scaled(m, scale, (k - 1) as nat);
        assert((scale + k - 1) as nat == scale + (k - 1) as nat);
    }
}

/// The digits of `d` from place `top` downwards, `count` of them, as
/// characters in reading order; places beyond the end of `d` hold zero.
pub open spec fn places_text(d: Seq<u8>, top: int, count: nat) -> Seq<char> {
    Seq::new(count, |i: int| digit_char(digit_at(d, top - i)))
}

/// The whole part in writing: the digits from the highest place `h` that
/// is not zero down to place `scale`.
proof fn lemma_whole_text(w: Seq<u8>, scale: int, h: int)
    requires
        all_digits(w),
        0 <= scale <= h < w.len(),
        forall|j: int| h < j < w.len() ==> w[j] == 0,
        h > scale ==> w[h] != 0,
    ensures
        nat_text(magnitude(w.skip(scale))) == Seq::new(
            (h - scale + 1) as nat,
            |i: int| digit_char(w[h - i] as nat),
        ),
{
    let whole = w.subrange(scale, h + 1);
    let top = w.skip(h + 1);
    assert forall|j: int| 0 <= j < top.len() implies top[j] == 0 by {
        assert(top[j] == w[h + 1 + j]);
    }
    lemma_magnitude_zeros(top);
    assert(w.skip(scale) =~= whole + top);
    lemma_magnitude_concat(whole, top);
    assert(pow10(whole.len()) * 0 == 0);
    assert(whole.last() == w[h]);
    lemma_nat_text(whole);
    let written = Seq::new((h - scale + 1) as nat, |i: int| digit_char(w[h - i] as nat));
    assert forall|i: int| 0 <= i < whole.len() implies digits_text(whole)[i] == #[trigger] written[i] by {
        assert(whole[whole.len() - 1 - i] == w[h - i]);
    }
    assert(digits_text(whole) =~= written);
}

/// The fraction in writing: the digits from place `scale - 1` down to
/// place `t`.
proof fn lemma_fraction_text(w: Seq<u8>, t: int, scale: int)
    requires
        all_digits(w),
        0 <= t <= scale <= w.len(),
    ensures
        fixed_text(magnitude(w.subrange(t, scale)), (scale - t) as nat) == Seq::new(
            (scale - t) as nat,
            |i: int| digit_char(w[scale - 1 - i] as nat),
        ),
{
    let frac = w.subrange(t, scale);
    lemma_fixed_text(frac);
    let written = Seq::new((scale - t) as nat, |i: int| digit_char(w[scale - 1 - i] as nat));
    assert forall|i: int| 0 <= i < frac.len() implies digits_text(frac)[i] == #[trigger] written[i] by {
        assert(frac[frac.len() - 1 - i] == w[scale - 1 - i]);
    }
    assert(digits_text(frac) =~= written);
}

/// The shortest writing of what the digits `w` write at `scale`, where
/// `w` has a place above `scale`: the whole part as `lemma_whole_text`
/// gives it, and, unless the fraction is zero, a point and the fraction
/// down to its lowest place `t` that is not zero.
proof fn lemma_text_of_places(w: Seq<u8>, scale: int, t: int, h: int)
    requires
        all_digits(w),
        0 <= t <= scale <= h < w.len(),
        forall|j: int| 0 <= j < t ==> w[j] == 0,
        t < scale ==> w[t] != 0,
        forall|j: int| h < j < w.len() ==> w[j] == 0,
        h > scale ==> w[h] != 0,
    ensures
        unsigned_text(magnitude(w), scale as nat) == if t < scale {
            Seq::new((h - scale + 1) as nat, |i: int| digit_char(w[h - i] as nat)) + seq!['.']
                + Seq::new((scale - t) as nat, |i: int| digit_char(w[scale - 1 - i] as nat))
        } else {
            Seq::new((h - scale + 1) as nat, |i: int| digit_char(w[h - i] as nat))
        },
{
    let e = w.skip(t);
    let k = scale - t;
    lemma_text_skips_zeros(w, scale as nat, t as nat);
    lemma_whole_text(w, scale, h);
    if k > 0 {
        assert(all_digits(e));
        assert(magnitude(e) % 10 != 0) by {
            lemma_magnitude_first(e);
            assert(e[0] == w[t]);
            assert(e[0] <= 9);
        }
        assert(magnitude(e) / pow10(k as nat) == magnitude(w.skip(scale)) && magnitude(e) % pow10(
            k as nat,
        ) == magnitude(w.subrange(t, scale))) by {
            lemma_magnitude_split(e, k);
            assert(e.skip(k) =~= w.skip(scale));
            assert(e.take(k) =~= w.subrange(t, scale));
        }
        lemma_fraction_text(w, t, scale);
    } else {
        assert(e =~= w.skip(scale));
    }
}

/// How the shortest writing is made of stored digits: the whole part runs
/// from the highest place `h` that is not zero down to place `scale`, and
/// the fraction from place `scale - 1` down to the lowest place `t` that
/// is not zero.
pub(crate) proof fn lemma_text_shape(d: Seq<u8>, scale: nat, t: nat, h: nat)
    requires
        all_digits(d),
        t <= scale <= h,
        forall|j: int| 0 <= j < t ==> digit_at(d, j) == 0,
        t < scale ==> digit_at(d, t as int) != 0,
        forall|j: int| h < j < d.len() ==> d[j] == 0,
        h > scale ==> digit_at(d, h as int) != 0,
    ensures
        unsigned_text(magnitude(d), scale) == if t < scale {
            places_text(d, h as int, (h - scale + 1) as nat) + seq!['.'] + places_text(
                d,
                scale - 1,
                (scale - t) as nat,
            )
        } else {
            places_text(d, h as int, (h - scale + 1) as nat)
        },
{
    let len: nat = if d.len() > h {
        d.len()
    } else {
        h + 1
    };
    let w = padded(d, len);
    lemma_padded(d, len);
    assert forall|j: int| 0 <= j < len implies (#[trigger] w[j] == 0 <==> digit_at(d, j) == 0) by {
        assert(w[j] as nat == digit_at(d, j));
    }
    lemma_text_of_places(w, scale as int, t as int, h as int);
    let whole = Seq::new((h - scale + 1) as nat, |i: int| digit_char(w[h - i] as nat));
    assert forall|i: int| 0 <= i < h - scale + 1 implies places_text(
        d,
        h as int,
        (h - scale + 1) as nat,
    )[i] == #[trigger] whole[i] by {
        assert(w[h - i] as nat == digit_at(d, h - i));
    }
    assert(places_text(d, h as int, (h - scale + 1) as nat) =~= whole);
    let frac = Seq::new((scale - t) as nat, |i: int| digit_char(w[scale - 1 - i] as nat));
    assert forall|i: int| 0 <= i < scale - t implies places_text(
        d,
        scale - 1,
        (scale - t) as nat,
    )[i] == #[trigger] frac[i] by {
        assert(w[scale - 1 - i] as nat == digit_at(d, scale - 1 - i));
    }
    assert(places_text(d, scale - 1, (scale - t) as nat) =~= frac);
}

/// The one-character text of a digit.
fn digit_str(x: u8) -> (r: &'static str)
    requires
        x <= 9,
    ensures
        r@ == seq![digit_char(x as nat)],
{
    proof {
        reveal_strlit("0");
        reveal_strlit("1");
        reveal_strlit("2");
        reveal_strlit("3");
        reveal_strlit("4");
        reveal_strlit("5");
        reveal_strlit("6");
        reveal_strlit("7");
        reveal_strlit("8");
        reveal_strlit("9");
    }
    let r: &'static str = if x == 0 {
        "0"
    } else if x == 1 {
        "1"
    } else if x == 2 {
        "2"
    } else if x == 3 {
        "3"
    } else if x == 4 {
        "4"
    } else if x == 5 {
        "5"
    } else if x == 6 {
        "6"
    } else if x == 7 {
        "7"
    } else if x == 8 {
        "8"
    } else {
        "9"
    };
    assert(r@ =~= seq![digit_char(x as nat)]);
    r
}

/// Writes `count` digits of `d` to the end of `out`, from place `top`
/// downwards.
pub(crate) fn push_places(out: &mut String, d: &Vec<u8>, top: usize, count: usize)
    requires
        all_digits(d@),
        count <= top + 1,
    ensures
        final(out)@ == old(out)@ + places_text(d@, top as int, count as nat),
{
    let mut c: usize = 0;
    assert(out@ =~= old(out)@ + places_text(d@, top as int, count as nat).take(0));
    while c < count
        invariant
            c <= count <= top + 1,
            all_digits(d@),
            out@ == old(out)@ + places_text(d@, top as int, count as nat).take(c as int),
        decreases count - c,
    {
        let x: u8 = digit_or_zero(d, top - c);
        out.append(digit_str(x));
        proof {
            let all = places_text(d@, top as int, count as nat);
            assert(all.take(c + 1) =~= all.take(c as int) + seq![digit_char(x as nat)]);
            assert(out@ =~= old(out)@ + all.take(c + 1));
        }
        c += 1;
    }
    assert(places_text(d@, top as int, count as nat).take(count as int) =~= places_text(
        d@,
        top as int,
        count as nat,
    ));
}

} // verus!
