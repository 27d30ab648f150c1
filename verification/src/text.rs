//! Text helpers: Unicode white space, trimming, and joining.

use vstd::prelude::*;

verus! {

/// Whether `c` has the Unicode `White_Space` property.
pub open spec fn is_space(c: char) -> bool {
    let n = c as u32;
    ||| 0x09 <= n <= 0x0D
    ||| n == 0x20
    ||| n == 0x85
    ||| n == 0xA0
    ||| n == 0x1680
    ||| 0x2000 <= n <= 0x200A
    ||| n == 0x2028
    ||| n == 0x2029
    ||| n == 0x202F
    ||| n == 0x205F
    ||| n == 0x3000
}

/// `s` without its leading white space.
pub open spec fn trim_start(s: Seq<char>) -> Seq<char>
    decreases s.len(),
{
    if s.len() > 0 && is_space(s[0]) {
        trim_start(s.drop_first())
    } else {
        s
    }
}

/// `s` without its trailing white space.
pub open spec fn trim_end(s: Seq<char>) -> Seq<char>
    decreases s.len(),
{
    if s.len() > 0 && is_space(s.last()) {
        trim_end(s.drop_last())
    } else {
        s
    }
}

/// `s` without leading and trailing white space.
pub open spec fn trimmed(s: Seq<char>) -> Seq<char> {
    trim_end(trim_start(s))
}

/// Whether every character of `s` is white space (true of the empty text).
pub open spec fn is_blank(s: Seq<char>) -> bool {
    forall|i: int| 0 <= i < s.len() ==> is_space(#[trigger] s[i])
}

/// `parts` concatenated, with `sep` between neighbours.
pub open spec fn joined(parts: Seq<Seq<char>>, sep: Seq<char>) -> Seq<char>
    decreases parts.len(),
{
    if parts.len() == 0 {
        Seq::empty()
    } else if parts.len() == 1 {
        parts[0]
    } else {
        joined(parts.drop_last(), sep) + sep + parts.last()
    }
}

/// Trimming cuts a leading run of white space: if `s[..k]` is blank and
/// `s[k]` is not white space (or `k` is the length), `trim_start` is `s[k..]`.
proof fn lemma_trim_start_skips(s: Seq<char>, k: int)
    requires
        0 <= k <= s.len(),
        is_blank(s.take(k)),
        k < s.len() ==> !is_space(s[k]),
    ensures
        trim_start(s) == s.skip(k),
    decreases k,
{
    if k == 0 {
        assert(s.skip(0) =~= s);
    } else {
        assert(s.take(k)[0] == s[0]);
        let rest = s.drop_first();
        assert forall|i: int| 0 <= i < rest.take(k - 1).len() implies is_space(
            #[trigger] rest.take(k - 1)[i],
        ) by {
            assert(rest.take(k - 1)[i] == s.take(k)[i + 1]);
        }
        lemma_trim_start_skips(rest, k - 1);
        assert(rest.skip(k - 1) =~= s.skip(k));
    }
}

/// Trimming cuts a trailing run of white space: if `s[k..]` is blank and
/// `s[k - 1]` is not white space (or `k` is zero), `trim_end` is `s[..k]`.
proof fn lemma_trim_end_takes(s: Seq<char>, k: int)
    requires
        0 <= k <= s.len(),
        is_blank(s.skip(k)),
        k > 0 ==> !is_space(s[k - 1]),
    ensures
        trim_end(s) == s.take(k),
    decreases s.len() - k,
{
    if k == s.len() {
        assert(s.take(k) =~= s);
    } else {
        assert(s.skip(k)[s.len() - k - 1] == s.last());
        let rest = s.drop_last();
        assert forall|i: int| 0 <= i < rest.skip(k).len() implies is_space(
            #[trigger] rest.skip(k)[i],
        ) by {
            assert(rest.skip(k)[i] == s.skip(k)[i]);
        }
        lemma_trim_end_takes(rest, k);
        assert(rest.take(k) =~= s.take(k));
    }
}

/// A text trims to nothing exactly when it is blank.
pub proof fn lemma_trimmed_empty_iff_blank(s: Seq<char>)
    ensures
        trimmed(s).len() == 0 <==> is_blank(s),
    decreases s.len(),
{
    if s.len() > 0 && is_space(s[0]) {
        let rest = s.drop_first();
        lemma_trimmed_empty_iff_blank(rest);
        if is_blank(rest) {
            assert forall|i: int| 0 <= i < s.len() implies is_space(#[trigger] s[i]) by {
                if i > 0 {
                    assert(s[i] == rest[i - 1]);
                }
            }
        }
        if is_blank(s) {
            assert forall|i: int| 0 <= i < rest.len() implies is_space(#[trigger] rest[i]) by {
                assert(rest[i] == s[i + 1]);
            }
        }
    } else if s.len() > 0 {
        lemma_trim_end_keeps_first(s);
    }
}

/// Cutting trailing white space never removes a first character that is
/// not white space.
proof fn lemma_trim_end_keeps_first(s: Seq<char>)
    requires
        s.len() > 0,
        !is_space(s[0]),
    ensures
        trim_end(s).len() > 0,
        trim_end(s)[0] == s[0],
    decreases s.len(),
{
    if is_space(s.last()) {
        lemma_trim_end_keeps_first(s.drop_last());
    }
}

/// A trimmed text neither starts nor ends with white space, so trimming it
/// again changes nothing.
pub proof fn lemma_trimmed_is_trim(s: Seq<char>)
    ensures
        trimmed(s).len() > 0 ==> !is_space(trimmed(s)[0]) && !is_space(trimmed(s).last()),
        trimmed(trimmed(s)) == trimmed(s),
{
    lemma_trim_start_shape(s);
    lemma_trim_end_shape(trim_start(s));
    let t = trimmed(s);
    if t.len() > 0 {
        lemma_trim_end_keeps_first(trim_start(s));
    }
    lemma_trim_end_shape(t);
}

/// What `trim_start` leaves does not start with white space.
proof fn lemma_trim_start_shape(s: Seq<char>)
    ensures
        trim_start(s).len() > 0 ==> !is_space(trim_start(s)[0]),
        trim_start(trim_start(s)) == trim_start(s),
    decreases s.len(),
{
    if s.len() > 0 && is_space(s[0]) {
        lemma_trim_start_shape(s.drop_first());
    }
}

/// What `trim_end` leaves does not end with white space.
proof fn lemma_trim_end_shape(s: Seq<char>)
    ensures
        trim_end(s).len() > 0 ==> !is_space(trim_end(s).last()),
        trim_end(trim_end(s)) == trim_end(s),
    decreases s.len(),
{
    if s.len() > 0 && is_space(s.last()) {
        lemma_trim_end_shape(s.drop_last());
    }
}

/// Tests a character for Unicode white space.
pub fn char_is_space(c: char) -> (r: bool)
    ensures
        r == is_space(c),
{
    let n: u32 = c as u32;
    (0x09 <= n && n <= 0x0D) || n == 0x20 || n == 0x85 || n == 0xA0 || n == 0x1680 || (0x2000 <= n
        && n <= 0x200A) || n == 0x2028 || n == 0x2029 || n == 0x202F || n == 0x205F || n == 0x3000
}

/// The characters of `s`, in order.
pub fn chars_of(s: &str) -> (v: Vec<char>)
    ensures
        v@ == s@,
{
    let mut v: Vec<char> = Vec::new();
    for c in it: s.chars()
        invariant
            v@ == it.seq().take(it.index()),
            it.seq() == s@,
    {
        v.push(c);
    }
    v
}

/// Where the trimmed part of `chars` starts and ends: the first index is
/// the length of the leading white space, and `trimmed` is the range from
/// the first index to the second.
pub fn trim_bounds(chars: &Vec<char>) -> (r: (usize, usize))
    ensures
        r.0 <= r.1 <= chars.len(),
        r.0 == chars@.len() - trim_start(chars@).len(),
        r.1 == r.0 + trimmed(chars@).len(),
        trimmed(chars@) == chars@.subrange(r.0 as int, r.1 as int),
{
    let n: usize = chars.len();
    let mut from: usize = 0;
    while from < n && char_is_space(chars[from])
        invariant
            n == chars.len(),
            from <= n,
            is_blank(chars@.take(from as int)),
        decreases n - from,
    {
        from += 1;
    }
    proof {
        lemma_trim_start_skips(chars@, from as int);
    }
    let ghost rest = chars@.skip(from as int);
    let mut to: usize = n;
    while to > from && char_is_space(chars[to - 1])
        invariant
            n == chars.len(),
            from <= to <= n,
            rest == chars@.skip(from as int),
            is_blank(rest.skip(to - from)),
        decreases to,
    {
        to -= 1;
        assert forall|i: int| 0 <= i < rest.skip(to - from).len() implies is_space(
            #[trigger] rest.skip(to - from)[i],
        ) by {
            if i > 0 {
                assert(rest.skip(to - from)[i] == rest.skip(to + 1 - from)[i - 1]);
            }
        }
    }
    proof {
        assert(to > from ==> rest[to - from - 1] == chars@[to - 1]);
        lemma_trim_end_takes(rest, to - from);
        assert(rest.take(to - from) =~= chars@.subrange(from as int, to as int));
    }
    (from, to)
}

/// `s` without leading and trailing white space, as `str::trim` gives it.
pub fn trim(s: &str) -> (r: String)
    ensures
        r@ == trimmed(s@),
{
    let chars: Vec<char> = chars_of(s);
    let (from, to) = trim_bounds(&chars);
    s.substring_char(from, to).to_owned()
}

} // verus!
