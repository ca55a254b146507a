use vstd::prelude::*;

use crate::text::{
    all_digits, chars_of, digits_value, find_char_exec, first_of, lemma_first_of,
    parse_unsigned, parse_unsigned_exec, slice_chars, string_from_chars,
};

verus! {

/// `str::parse::<i32>`: an optional sign, then at least one ASCII digit, with a value
/// in the range of `i32`.
pub open spec fn parse_i32(s: Seq<char>) -> Option<int> {
    if s.len() > 0 && s[0] == '-' {
        let d = s.drop_first();
        if d.len() > 0 && all_digits(d) && digits_value(d) <= 2147483648 {
            Some(-(digits_value(d) as int))
        } else {
            None
        }
    } else {
        match parse_unsigned(s, 2147483647) {
            Some(v) => Some(v as int),
            None => None,
        }
    }
}

/// `str::parse::<i32>`.
pub fn parse_i32_exec(s: &Vec<char>) -> (r: Option<i32>)
    ensures
        match r {
            Some(v) => parse_i32(s@) == Some(v as int),
            None => parse_i32(s@) is None,
        },
{
    let n = s.len();
    if n > 0 && s[0] == '-' {
        let d = slice_chars(s, 1, n);
        assert(d@ == s@.drop_first());
        if d.len() > 0 && d[0] == '+' {
            assert(!all_digits(d@));
            return None;
        }
        assert(parse_unsigned(d@, 2147483648) == if d@.len() > 0 && all_digits(d@)
            && digits_value(d@) <= 2147483648 {
            Some(digits_value(d@))
        } else {
            None::<nat>
        });
        match parse_unsigned_exec(&d, 2147483648) {
            Some(v) => Some((0 - v as i64) as i32),
            None => None,
        }
    } else {
        match parse_unsigned_exec(s, 2147483647) {
            Some(v) => Some(v as i32),
            None => None,
        }
    }
}

/// `n` zero digits.
pub open spec fn zeros(n: nat) -> Seq<char> {
    Seq::new(n, |i: int| '0')
}

/// The exponent that the rendering carries, `0` when it does not parse.
pub open spec fn exponent_of(exp_text: Seq<char>) -> int {
    match parse_i32(exp_text) {
        Some(v) => v,
        None => 0,
    }
}

/// Index of the exponent marker: the first `e`, or else the first `E`.
pub open spec fn marker_index(raw: Seq<char>) -> nat {
    if first_of(raw, 'e') < raw.len() {
        first_of(raw, 'e')
    } else {
        first_of(raw, 'E')
    }
}

/// Places the decimal point of the digits `int_part ++ frac` after shifting it by
/// `exponent` places.
pub open spec fn place_point(int_part: Seq<char>, frac: Seq<char>, exponent: int) -> Seq<char> {
    let all = int_part + frac;
    if exponent >= 0 {
        if exponent >= frac.len() {
            all + zeros((exponent - frac.len()) as nat) + seq!['.']
        } else {
            all.take(int_part.len() + exponent) + seq!['.'] + all.skip(int_part.len() + exponent)
        }
    } else {
        let shift = -exponent;
        if shift >= int_part.len() {
            seq!['0', '.'] + zeros((shift - int_part.len()) as nat) + all
        } else {
            all.take(int_part.len() - shift) + seq!['.'] + all.skip(int_part.len() - shift)
        }
    }
}

/// A lone leading point gains a `0` before it, a trailing point a `0` after it.
pub open spec fn pad_point(p: Seq<char>) -> Seq<char> {
    let p1 = if p.len() > 0 && p[0] == '.' {
        seq!['0'] + p
    } else {
        p
    };
    if p1.len() > 0 && p1.last() == '.' {
        p1 + seq!['0']
    } else {
        p1
    }
}

/// Positional notation of the mantissa `[-]M[.F]` scaled by ten to the `exponent`.
pub open spec fn positional(mant0: Seq<char>, exponent: int) -> Seq<char> {
    let negative = mant0.len() > 0 && mant0[0] == '-';
    let mant = if negative {
        mant0.drop_first()
    } else {
        mant0
    };
    let kd = first_of(mant, '.');
    let int_part = mant.take(kd as int);
    let frac = if kd < mant.len() {
        mant.skip(kd as int + 1)
    } else {
        Seq::empty()
    };
    let body = pad_point(place_point(int_part, frac, exponent));
    if negative {
        seq!['-'] + body
    } else {
        body
    }
}

/// Positional notation of a scientific rendering `[-]M[.F]eX`: the exponent is folded into
/// the position of the decimal point; a rendering without exponent marker is kept.
pub open spec fn normalized_decimal(raw: Seq<char>) -> Seq<char> {
    let k = marker_index(raw);
    if k >= raw.len() {
        raw
    } else {
        positional(raw.take(k as int), exponent_of(raw.skip(k as int + 1)))
    }
}

/// Whether the rendering's exponent can be negated within `i32`.
pub open spec fn exponent_negatable(raw: Seq<char>) -> bool {
    let k = marker_index(raw);
    k < raw.len() ==> exponent_of(raw.skip(k as int + 1)) != -2147483648
}

fn push_zeros(v: &mut Vec<char>, n: usize)
    ensures
        final(v)@ == old(v)@ + zeros(n as nat),
{
    let mut i: usize = 0;
    while i < n
        invariant
            i <= n,
            v@ == old(v)@ + zeros(i as nat),
        decreases n - i,
    {
        v.push('0');
        i = i + 1;
        assert(zeros(i as nat) == zeros((i - 1) as nat).push('0'));
    }
}

fn append_chars(v: &mut Vec<char>, w: &Vec<char>, lo: usize, hi: usize)
    requires
        lo <= hi <= w@.len(),
    ensures
        final(v)@ == old(v)@ + w@.subrange(lo as int, hi as int),
{
    let mut i = lo;
    while i < hi
        invariant
            lo <= i <= hi <= w@.len(),
            v@ == old(v)@ + w@.subrange(lo as int, i as int),
        decreases hi - i,
    {
        v.push(w[i]);
        i = i + 1;
        assert(w@.subrange(lo as int, i as int) == w@.subrange(lo as int, i - 1).push(
            w@[i - 1],
        ));
    }
}

fn place_point_exec(all: &Vec<char>, int_len: usize, frac_len: usize, exponent: i32) -> (r: Vec<
    char,
>)
    requires
        int_len + frac_len == all@.len(),
        exponent != i32::MIN,
        all@.len() <= usize::MAX,
    ensures
        r@ == place_point(
            all@.take(int_len as int),
            all@.skip(int_len as int),
            exponent as int,
        ),
{
    let ghost int_part = all@.take(int_len as int);
    let ghost frac = all@.skip(int_len as int);
    assert(int_part + frac == all@);
    let total = all.len();
    let mut r: Vec<char> = Vec::new();
    if exponent >= 0 {
        let shift = exponent as usize;
        if shift >= frac_len {
            append_chars(&mut r, all, 0, all.len());
            push_zeros(&mut r, shift - frac_len);
            r.push('.');
            assert(all@.subrange(0, all@.len() as int) == all@);
        } else {
            let at = int_len + shift;
            append_chars(&mut r, all, 0, at);
            r.push('.');
            append_chars(&mut r, all, at, all.len());
            assert(all@.subrange(0, at as int) == all@.take(at as int));
            assert(all@.subrange(at as int, all@.len() as int) == all@.skip(at as int));
        }
    } else {
        let shift = (0 - exponent) as usize;
        if shift >= int_len {
            r.push('0');
            r.push('.');
            push_zeros(&mut r, shift - int_len);
            append_chars(&mut r, all, 0, all.len());
            assert(all@.subrange(0, all@.len() as int) == all@);
            assert(r@ == seq!['0', '.'] + zeros((shift - int_len) as nat) + all@);
        } else {
            let at = int_len - shift;
            append_chars(&mut r, all, 0, at);
            r.push('.');
            append_chars(&mut r, all, at, all.len());
            assert(all@.subrange(0, at as int) == all@.take(at as int));
            assert(all@.subrange(at as int, all@.len() as int) == all@.skip(at as int));
        }
    }
    r
}

fn pad_point_exec(p: Vec<char>) -> (r: Vec<char>)
    ensures
        r@ == pad_point(p@),
{
    let mut p1: Vec<char> = Vec::new();
    if p.len() > 0 && p[0] == '.' {
        p1.push('0');
    }
    append_chars(&mut p1, &p, 0, p.len());
    assert(p@.subrange(0, p@.len() as int) == p@);
    if p1.len() > 0 && p1[p1.len() - 1] == '.' {
        p1.push('0');
    }
    p1
}

fn positional_exec(mant0: &Vec<char>, exponent: i32) -> (r: Vec<char>)
    requires
        exponent != i32::MIN,
    ensures
        r@ == positional(mant0@, exponent as int),
{
    let negative = mant0.len() > 0 && mant0[0] == '-';
    let mant = if negative {
        slice_chars(mant0, 1, mant0.len())
    } else {
        slice_chars(mant0, 0, mant0.len())
    };
    assert(mant0@.subrange(0, mant0@.len() as int) == mant0@);
    assert(mant0@.subrange(1, mant0@.len() as int) == mant0@.drop_first());
    let ml = mant.len();
    let (int_len, frac_lo) = match find_char_exec(&mant, '.') {
        Some(kd) => (kd, kd + 1),
        None => (ml, ml),
    };
    proof {
        lemma_first_of(mant@, '.');
    }
    let mut all = slice_chars(&mant, 0, int_len);
    append_chars(&mut all, &mant, frac_lo, ml);
    let ghost int_part = mant@.take(int_len as int);
    let ghost frac = if int_len < ml {
        mant@.skip(int_len as int + 1)
    } else {
        Seq::empty()
    };
    assert(mant@.subrange(0, int_len as int) == int_part);
    assert(mant@.subrange(frac_lo as int, ml as int) == frac);
    assert(all@.take(int_len as int) == int_part);
    assert(all@.skip(int_len as int) == frac);
    let placed = place_point_exec(&all, int_len, ml - frac_lo, exponent);
    let body = pad_point_exec(placed);
    let mut out: Vec<char> = Vec::new();
    if negative {
        out.push('-');
    }
    append_chars(&mut out, &body, 0, body.len());
    assert(body@.subrange(0, body@.len() as int) == body@);
    out
}

/// Rewrites a scientific rendering `[-]M[.F]eX` (as an arbitrary-precision float prints
/// itself) in positional notation, as `normalized_decimal` states.
pub fn normalize_decimal_string(raw: &str) -> (s: String)
    requires
        exponent_negatable(raw@),
    ensures
        s@ == normalized_decimal(raw@),
{
    let text = chars_of(raw);
    let n = text.len();
    let k = match find_char_exec(&text, 'e') {
        Some(k) => k,
        None => match find_char_exec(&text, 'E') {
            Some(k) => k,
            None => { return string_from_chars(&text); },
        },
    };
    let mant0 = slice_chars(&text, 0, k);
    let exp_text = slice_chars(&text, k + 1, n);
    assert(mant0@ == raw@.take(k as int));
    assert(exp_text@ == raw@.skip(k as int + 1));
    let exponent: i32 = match parse_i32_exec(&exp_text) {
        Some(v) => v,
        None => 0,
    };
    let out = positional_exec(&mant0, exponent);
    string_from_chars(&out)
}

} // verus!
