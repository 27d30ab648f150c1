//! Numerals: which texts stand for a decimal number, and for which one.

use crate::decimal::DecimalView;
use crate::digits::{all_digits, lemma_magnitude_first, magnitude};
use crate::text::trimmed;
use vstd::prelude::*;

verus! {

/// Whether `c` is one of the digits `0` to `9`.
pub open spec fn is_digit(c: char) -> bool {
    0x30 <= c as u32 <= 0x39
}

/// The number that the digit `c` stands for.
pub open spec fn digit_value(c: char) -> nat {
    (c as u32 - 0x30) as nat
}

/// Whether `s` holds digits only (true of the empty text).
pub open spec fn digits_only(s: Seq<char>) -> bool {
    forall|i: int| 0 <= i < s.len() ==> is_digit(#[trigger] s[i])
}

/// How many digits `s` starts with.
pub open spec fn digit_run(s: Seq<char>) -> nat
    decreases s.len(),
{
    if s.len() > 0 && is_digit(s[0]) {
        1 + digit_run(s.drop_first())
    } else {
        0
    }
}

/// The number that the digits `s` write, most significant first.
pub open spec fn number_of(s: Seq<char>) -> nat
    decreases s.len(),
{
    if s.len() == 0 {
        0
    } else {
        10 * number_of(s.drop_last()) + digit_value(s.last())
    }
}

/// What an unsigned numeral stands for: digits, with at most one decimal
/// point among them or at either end, and at least one digit. Any other
/// text is no numeral.
pub open spec fn unsigned_numeral(body: Seq<char>) -> Option<DecimalView> {
    let p = digit_run(body) as int;
    if p == body.len() {
        if p > 0 {
            Some(DecimalView { units: number_of(body) as int, scale: 0 })
        } else {
            None
        }
    } else if body[p] == '.' && digits_only(body.skip(p + 1)) && body.len() > 1 {
        Some(
            DecimalView {
                units: number_of(body.take(p) + body.skip(p + 1)) as int,
                scale: (body.len() - p - 1) as nat,
            },
        )
    } else {
        None
    }
}

/// What a text stands for as a decimal number, if anything: white space
/// around it is ignored, then an optional sign, `+` or `-`, precedes an
/// unsigned numeral. There is no exponent and no digit grouping.
pub open spec fn numeral(text: Seq<char>) -> Option<DecimalView> {
    let t = trimmed(text);
    if t.len() > 0 && t[0] == '-' {
        match unsigned_numeral(t.skip(1)) {
            Some(v) => Some(DecimalView { units: -v.units, scale: v.scale }),
            None => None,
        }
    } else if t.len() > 0 && t[0] == '+' {
        unsigned_numeral(t.skip(1))
    } else {
        unsigned_numeral(t)
    }
}

/// A text that starts with `k` digits followed by something else, or by
/// nothing, has a digit run of `k`.
proof fn lemma_digit_run(s: Seq<char>, k: int)
    requires
        0 <= k <= s.len(),
        digits_only(s.take(k)),
        k < s.len() ==> !is_digit(s[k]),
    ensures
        digit_run(s) == k,
    decreases k,
{
    if k > 0 {
        assert(s.take(k)[0] == s[0]);
        let rest = s.drop_first();
        assert forall|i: int| 0 <= i < rest.take(k - 1).len() implies is_digit(
            #[trigger] rest.take(k - 1)[i],
        ) by {
            assert(rest.take(k - 1)[i] == s.take(k)[i + 1]);
        }
        lemma_digit_run(rest, k - 1);
    }
}

/// The numbers that the digits `s` stand for, one for one.
pub open spec fn digit_values(s: Seq<char>) -> Seq<u8> {
    Seq::new(s.len(), |i: int| digit_value(s[i]) as u8)
}

/// Digits stored least significant first write the number that the same
/// digits, as characters and most significant first, write.
pub(crate) proof fn lemma_number_of_digits(s: Seq<char>)
    requires
        digits_only(s),
    ensures
        all_digits(digit_values(s).reverse()),
        magnitude(digit_values(s).reverse()) == number_of(s),
    decreases s.len(),
{
    let d = digit_values(s).reverse();
    assert forall|i: int| 0 <= i < d.len() implies #[trigger] d[i] <= 9 by {
        assert(is_digit(s[s.len() - 1 - i]));
    }
    if s.len() > 0 {
        let s0 = s.drop_last();
        lemma_number_of_digits(s0);
        lemma_magnitude_first(d);
        assert(d.drop_first() =~= digit_values(s0).reverse());
        assert(is_digit(s[s.len() - 1]));
    }
}

/// Tests a character for a digit.
fn char_is_digit(c: char) -> (r: bool)
    ensures
        r == is_digit(c),
{
    let n: u32 = c as u32;
    0x30 <= n && n <= 0x39
}

/// The number that the digit `c` stands for.
fn digit_of(c: char) -> (r: u8)
    requires
        is_digit(c),
    ensures
        r == digit_value(c) as u8,
        r <= 9,
{
    let n: u32 = c as u32;
    (n - 0x30) as u8
}

/// Reads digits from `chars[from..to]` for as long as there are any,
/// adds what they stand for to `be`, and returns where it stopped.
pub(crate) fn scan_digits(chars: &Vec<char>, from: usize, to: usize, be: &mut Vec<u8>) -> (i: usize)
    requires
        from <= to <= chars.len(),
    ensures
        from <= i <= to,
        digits_only(chars@.subrange(from as int, i as int)),
        i < to ==> !is_digit(chars[i as int]),
        final(be)@ == old(be)@ + digit_values(chars@.subrange(from as int, i as int)),
{
    let mut i: usize = from;
    proof {
        assert(be@ =~= old(be)@ + digit_values(chars@.subrange(from as int, i as int)));
    }
    while i < to && char_is_digit(chars[i])
        invariant
            from <= i <= to <= chars.len(),
            digits_only(chars@.subrange(from as int, i as int)),
            be@ == old(be)@ + digit_values(chars@.subrange(from as int, i as int)),
        decreases to - i,
    {
        let ghost before = chars@.subrange(from as int, i as int);
        let ghost after = chars@.subrange(from as int, i + 1);
        be.push(digit_of(chars[i]));
        proof {
            assert(after =~= before.push(chars[i as int]));
            assert(digit_values(after) =~= digit_values(before).push(
                digit_value(chars[i as int]) as u8,
            ));
            assert(be@ =~= old(be)@ + digit_values(after));
        }
        i += 1;
    }
    i
}

/// The elements of `v` in the opposite order.
pub(crate) fn reversed(v: &Vec<u8>) -> (r: Vec<u8>)
    ensures
        r@ == v@.reverse(),
{
    let n: usize = v.len();
    let mut r: Vec<u8> = Vec::new();
    let mut i: usize = 0;
    while i < n
        invariant
            n == v.len(),
            i <= n,
            r.len() == i,
            forall|j: int| 0 <= j < i ==> r[j] == v[n - 1 - j],
        decreases n - i,
    {
        r.push(v[n - 1 - i]);
        i += 1;
    }
    assert(r@ =~= v@.reverse());
    r
}

/// The digits of an unsigned numeral: `body` holds `whole` digits and
/// then nothing more, or a point and digits only.
pub(crate) proof fn lemma_unsigned_numeral(body: Seq<char>, whole: int)
    requires
        0 <= whole <= body.len(),
        digits_only(body.take(whole)),
        whole < body.len() ==> body[whole] == '.' && digits_only(body.skip(whole + 1)),
    ensures
        ({
            let src = if whole == body.len() {
                body
            } else {
                body.take(whole) + body.skip(whole + 1)
            };
            let scale = if whole == body.len() {
                0
            } else {
                body.len() - whole - 1
            };
            &&& digits_only(src)
            &&& digit_values(src) == if whole == body.len() {
                digit_values(body.take(whole))
            } else {
                digit_values(body.take(whole)) + digit_values(body.skip(whole + 1))
            }
            &&& unsigned_numeral(body) == if src.len() > 0 {
                Some(DecimalView { units: number_of(src) as int, scale: scale as nat })
            } else {
                None::<DecimalView>
            }
        }),
{
    lemma_digit_run(body, whole);
    assert(body.take(body.len() as int) =~= body);
    if whole < body.len() {
        let src = body.take(whole) + body.skip(whole + 1);
        assert(digit_values(src) =~= digit_values(body.take(whole)) + digit_values(
            body.skip(whole + 1),
        ));
    }
}

/// A text whose digits stop before something that is neither the first
/// point nor the end is no numeral.
pub(crate) proof fn lemma_not_numeral(body: Seq<char>, whole: int, stop: int)
    requires
        0 <= whole <= stop < body.len(),
        digits_only(body.take(whole)),
        !is_digit(body[whole]),
        !is_digit(body[stop]),
        stop == whole ==> body[whole] != '.',
    ensures
        unsigned_numeral(body) is None,
{
    lemma_digit_run(body, whole);
    if stop > whole {
        assert(body.skip(whole + 1)[stop - whole - 1] == body[stop]);
    }
}

} // verus!
