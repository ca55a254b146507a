use vstd::prelude::*;

verus! {

/// Unicode `White_Space`, the set that `char::is_whitespace` tests.
pub open spec fn is_ws(c: char) -> bool {
    ||| ('\u{9}' <= c && c <= '\u{d}')
    ||| c == ' '
    ||| c == '\u{85}'
    ||| c == '\u{a0}'
    ||| c == '\u{1680}'
    ||| ('\u{2000}' <= c && c <= '\u{200a}')
    ||| c == '\u{2028}'
    ||| c == '\u{2029}'
    ||| c == '\u{202f}'
    ||| c == '\u{205f}'
    ||| c == '\u{3000}'
}

/// `char::is_whitespace`.
pub fn is_ws_exec(c: char) -> (r: bool)
    ensures
        r == is_ws(c),
{
    ('\u{9}' <= c && c <= '\u{d}') || c == ' ' || c == '\u{85}' || c == '\u{a0}' || c
        == '\u{1680}' || ('\u{2000}' <= c && c <= '\u{200a}') || c == '\u{2028}' || c
        == '\u{2029}' || c == '\u{202f}' || c == '\u{205f}' || c == '\u{3000}'
}

/// ASCII decimal digit.
pub open spec fn is_digit(c: char) -> bool {
    '0' <= c && c <= '9'
}

/// The text without its leading white space.
pub open spec fn trim_start(s: Seq<char>) -> Seq<char>
    decreases s.len(),
{
    if s.len() > 0 && is_ws(s[0]) {
        trim_start(s.drop_first())
    } else {
        s
    }
}

/// The text without its trailing white space.
pub open spec fn trim_end(s: Seq<char>) -> Seq<char>
    decreases s.len(),
{
    if s.len() > 0 && is_ws(s.last()) {
        trim_end(s.drop_last())
    } else {
        s
    }
}

/// `str::trim`: the text without leading and trailing white space.
pub open spec fn trim(s: Seq<char>) -> Seq<char> {
    trim_end(trim_start(s))
}

/// `str::trim_end_matches` with one character: every trailing `c` removed.
pub open spec fn trim_end_char(s: Seq<char>, c: char) -> Seq<char>
    decreases s.len(),
{
    if s.len() > 0 && s.last() == c {
        trim_end_char(s.drop_last(), c)
    } else {
        s
    }
}

/// `str::starts_with`.
pub open spec fn starts_with(s: Seq<char>, p: Seq<char>) -> bool {
    p.len() <= s.len() && s.subrange(0, p.len() as int) == p
}

/// Number of leading characters of `s` that are not white space.
pub open spec fn word_len(s: Seq<char>) -> nat
    decreases s.len(),
{
    if s.len() > 0 && !is_ws(s[0]) {
        1 + word_len(s.drop_first())
    } else {
        0
    }
}

pub proof fn lemma_word_len(s: Seq<char>)
    ensures
        word_len(s) <= s.len(),
        s.len() > 0 && !is_ws(s[0]) ==> word_len(s) >= 1,
        forall|i: int| 0 <= i < word_len(s) ==> !is_ws(#[trigger] s[i]),
        word_len(s) < s.len() ==> is_ws(s[word_len(s) as int]),
    decreases s.len(),
{
    if s.len() > 0 && !is_ws(s[0]) {
        lemma_word_len(s.drop_first());
        assert forall|i: int| 0 <= i < word_len(s) implies !is_ws(#[trigger] s[i]) by {
            if i > 0 {
                assert(s[i] == s.drop_first()[i - 1]);
            }
        }
    }
}

/// `str::split_whitespace`: the maximal runs of non-white-space characters.
pub open spec fn split_ws(s: Seq<char>) -> Seq<Seq<char>>
    decreases s.len(),
{
    if s.len() == 0 {
        Seq::empty()
    } else if is_ws(s[0]) {
        split_ws(s.drop_first())
    } else {
        let w = word_len(s);
        proof {
            lemma_word_len(s);
        }
        seq![s.take(w as int)] + split_ws(s.skip(w as int))
    }
}

/// Every character is an ASCII digit.
pub open spec fn all_digits(s: Seq<char>) -> bool {
    forall|i: int| 0 <= i < s.len() ==> is_digit(#[trigger] s[i])
}

/// Decimal value of a string of digits.
pub open spec fn digits_value(s: Seq<char>) -> nat
    decreases s.len(),
{
    if s.len() == 0 {
        0
    } else {
        digits_value(s.drop_last()) * 10 + ((s.last() as int - '0' as int) as nat)
    }
}

/// `str::parse` for an unsigned integer type whose largest value is `max`: an optional
/// `+`, then at least one ASCII digit, with a value that fits.
pub open spec fn parse_unsigned(s: Seq<char>, max: nat) -> Option<nat> {
    let d = if s.len() > 0 && s[0] == '+' {
        s.drop_first()
    } else {
        s
    };
    if d.len() > 0 && all_digits(d) && digits_value(d) <= max {
        Some(digits_value(d))
    } else {
        None
    }
}

/// The characters of a string slice.
pub fn chars_of(s: &str) -> (v: Vec<char>)
    ensures
        v@ == s@,
{
    let mut v: Vec<char> = Vec::new();
    for c in it: s.chars()
        invariant
            v@ == it.seq().subrange(0, it.index() as int),
    {
        v.push(c);
    }
    v
}

/// The characters `s[lo..hi]`.
pub fn slice_chars(s: &Vec<char>, lo: usize, hi: usize) -> (v: Vec<char>)
    requires
        lo <= hi <= s@.len(),
    ensures
        v@ == s@.subrange(lo as int, hi as int),
{
    let mut v: Vec<char> = Vec::new();
    let mut i = lo;
    while i < hi
        invariant
            lo <= i <= hi,
            hi <= s@.len(),
            v@ == s@.subrange(lo as int, i as int),
        decreases hi - i,
    {
        v.push(s[i]);
        i = i + 1;
    }
    v
}

/// `str::trim`.
pub fn trim_exec(s: &Vec<char>) -> (t: Vec<char>)
    ensures
        t@ == trim(s@),
{
    let n = s.len();
    let mut lo: usize = 0;
    assert(s@.subrange(0, n as int) == s@);
    while lo < n && is_ws_exec(s[lo])
        invariant
            lo <= n == s@.len(),
            trim_start(s@.subrange(lo as int, n as int)) == trim_start(s@),
        decreases n - lo,
    {
        assert(s@.subrange(lo as int, n as int).drop_first() == s@.subrange(lo + 1, n as int));
        lo = lo + 1;
    }
    let ghost u = s@.subrange(lo as int, n as int);
    assert(trim_start(u) == u);
    let mut hi: usize = n;
    assert(u.subrange(0, (n - lo) as int) == u);
    while hi > lo && is_ws_exec(s[hi - 1])
        invariant
            lo <= hi <= n == s@.len(),
            u == s@.subrange(lo as int, n as int),
            trim_end(s@.subrange(lo as int, hi as int)) == trim_end(u),
        decreases hi - lo,
    {
        assert(s@.subrange(lo as int, hi as int).drop_last() == s@.subrange(
            lo as int,
            hi - 1,
        ));
        hi = hi - 1;
    }
    slice_chars(s, lo, hi)
}

/// `str::trim_end_matches` with one character.
pub fn trim_end_char_exec(s: &Vec<char>, c: char) -> (t: Vec<char>)
    ensures
        t@ == trim_end_char(s@, c),
{
    let n = s.len();
    let mut hi: usize = n;
    assert(s@.subrange(0, n as int) == s@);
    while hi > 0 && s[hi - 1] == c
        invariant
            hi <= n == s@.len(),
            trim_end_char(s@.subrange(0, hi as int), c) == trim_end_char(s@, c),
        decreases hi,
    {
        assert(s@.subrange(0, hi as int).drop_last() == s@.subrange(0, hi - 1));
        hi = hi - 1;
    }
    slice_chars(s, 0, hi)
}

/// `str::starts_with`.
pub fn starts_with_exec(s: &Vec<char>, p: &str) -> (r: bool)
    ensures
        r == starts_with(s@, p@),
{
    let pv = chars_of(p);
    if pv.len() > s.len() {
        return false;
    }
    let mut i: usize = 0;
    while i < pv.len()
        invariant
            i <= pv@.len() <= s@.len(),
            pv@ == p@,
            forall|k: int| 0 <= k < i ==> s@[k] == pv@[k],
        decreases pv.len() - i,
    {
        let a = s[i];
        let b = pv[i];
        if a != b {
            assert(s@.subrange(0, pv@.len() as int)[i as int] == s@[i as int]);
            assert(s@.subrange(0, pv@.len() as int) != pv@);
            return false;
        }
        i = i + 1;
    }
    assert(s@.subrange(0, pv@.len() as int) == pv@);
    true
}

/// The two texts are equal.
pub fn equals_exec(s: &Vec<char>, p: &str) -> (r: bool)
    ensures
        r == (s@ == p@),
{
    let pv = chars_of(p);
    if pv.len() != s.len() {
        return false;
    }
    let mut i: usize = 0;
    while i < pv.len()
        invariant
            i <= pv@.len() == s@.len(),
            pv@ == p@,
            forall|k: int| 0 <= k < i ==> s@[k] == pv@[k],
        decreases pv.len() - i,
    {
        let a = s[i];
        let b = pv[i];
        if a != b {
            assert(s@[i as int] != pv@[i as int]);
            assert(s@ != pv@);
            return false;
        }
        i = i + 1;
    }
    assert(s@ == pv@);
    true
}

/// `str::split_whitespace`.
pub fn split_ws_exec(s: &Vec<char>) -> (parts: Vec<Vec<char>>)
    ensures
        parts@.len() == split_ws(s@).len(),
        forall|k: int| 0 <= k < parts@.len() ==> #[trigger] parts@[k]@ == split_ws(s@)[k],
{
    let n = s.len();
    let mut parts: Vec<Vec<char>> = Vec::new();
    let ghost views: Seq<Seq<char>> = Seq::empty();
    let mut i: usize = 0;
    assert(s@.subrange(0, n as int) == s@);
    while i < n
        invariant
            i <= n == s@.len(),
            parts@.len() == views.len(),
            forall|k: int| 0 <= k < parts@.len() ==> #[trigger] parts@[k]@ == views[k],
            views + split_ws(s@.subrange(i as int, n as int)) == split_ws(s@),
        decreases n - i,
    {
        let ghost rest = s@.subrange(i as int, n as int);
        if is_ws_exec(s[i]) {
            assert(rest.drop_first() == s@.subrange(i + 1, n as int));
            i = i + 1;
        } else {
            let mut j = i;
            proof {
                lemma_word_len(rest);
            }
            while j < n && !is_ws_exec(s[j])
                invariant
                    i <= j <= n == s@.len(),
                    rest == s@.subrange(i as int, n as int),
                    j - i <= word_len(rest),
                    forall|k: int| i <= k < j ==> !is_ws(#[trigger] s@[k]),
                decreases n - j,
            {
                proof {
                    lemma_word_prefix(rest, (j - i) as nat);
                }
                j = j + 1;
            }
            proof {
                if j - i < word_len(rest) {
                    lemma_word_len(rest);
                    assert(!is_ws(rest[(j - i) as int]));
                    assert(rest[(j - i) as int] == s@[j as int]);
                }
                assert(word_len(rest) == j - i);
                assert(rest.take((j - i) as int) == s@.subrange(i as int, j as int));
                assert(rest.skip((j - i) as int) == s@.subrange(j as int, n as int));
            }
            let w = slice_chars(s, i, j);
            parts.push(w);
            proof {
                views = views.push(w@);
                assert(views == views.drop_last() + seq![w@]);
            }
            i = j;
        }
    }
    proof {
        assert(s@.subrange(n as int, n as int).len() == 0);
        assert(views + split_ws(Seq::<char>::empty()) == views);
    }
    parts
}

proof fn lemma_word_prefix(s: Seq<char>, k: nat)
    requires
        k <= word_len(s),
        k < s.len(),
        !is_ws(s[k as int]),
    ensures
        k + 1 <= word_len(s),
    decreases k,
{
    if k > 0 {
        assert(!is_ws(s[0])) by {
            lemma_first_of_word(s, k);
        }
        lemma_word_prefix(s.drop_first(), (k - 1) as nat);
    } else {
        assert(word_len(s) >= 1);
    }
}

proof fn lemma_first_of_word(s: Seq<char>, k: nat)
    requires
        0 < k <= word_len(s),
    ensures
        s.len() > 0 && !is_ws(s[0]),
{
}

proof fn lemma_digits_value_grows(t: Seq<char>, k: int)
    requires
        0 <= k <= t.len(),
        all_digits(t),
    ensures
        digits_value(t.subrange(0, k)) <= digits_value(t),
    decreases t.len(),
{
    if k < t.len() {
        let u = t.drop_last();
        assert(all_digits(u)) by {
            assert forall|i: int| 0 <= i < u.len() implies is_digit(#[trigger] u[i]) by {
                assert(u[i] == t[i]);
            }
        }
        lemma_digits_value_grows(u, k);
        assert(u.subrange(0, k) == t.subrange(0, k));
    } else {
        assert(t.subrange(0, k) == t);
    }
}

/// `str::parse` for an unsigned integer type whose largest value is `max`.
pub fn parse_unsigned_exec(s: &Vec<char>, max: u64) -> (r: Option<u64>)
    ensures
        match r {
            Some(v) => parse_unsigned(s@, max as nat) == Some(v as nat),
            None => parse_unsigned(s@, max as nat) is None,
        },
{
    let n = s.len();
    let st: usize = if n > 0 && s[0] == '+' {
        1
    } else {
        0
    };
    let ghost d = s@.subrange(st as int, n as int);
    assert(d == if s@.len() > 0 && s@[0] == '+' {
        s@.drop_first()
    } else {
        s@
    });
    if st >= n {
        return None;
    }
    let mut acc: u64 = 0;
    let mut i = st;
    assert(d.subrange(0, 0).len() == 0);
    while i < n
        invariant
            st <= i <= n == s@.len(),
            d == s@.subrange(st as int, n as int),
            d == if s@.len() > 0 && s@[0] == '+' {
                s@.drop_first()
            } else {
                s@
            },
            d.len() > 0,
            acc <= max,
            acc == digits_value(d.subrange(0, (i - st) as int)),
            forall|k: int| 0 <= k < i - st ==> is_digit(#[trigger] d[k]),
        decreases n - i,
    {
        let c = s[i];
        if !('0' <= c && c <= '9') {
            assert(d[(i - st) as int] == c);
            assert(!all_digits(d));
            return None;
        }
        let dig = (c as u32 - '0' as u32) as u64;
        let next: u128 = acc as u128 * 10 + dig as u128;
        proof {
            let p1 = d.subrange(0, (i - st + 1) as int);
            assert(p1.drop_last() == d.subrange(0, (i - st) as int));
            assert(p1.last() == c);
            assert(digits_value(p1) == next);
        }
        if next > max as u128 {
            proof {
                if all_digits(d) {
                    lemma_digits_value_grows(d, (i - st + 1) as int);
                }
            }
            return None;
        }
        acc = next as u64;
        i = i + 1;
    }
    assert(d.subrange(0, (n - st) as int) == d);
    Some(acc)
}

/// `str::parse::<usize>`.
pub fn parse_usize_exec(s: &Vec<char>) -> (r: Option<usize>)
    ensures
        match r {
            Some(v) => parse_unsigned(s@, usize::MAX as nat) == Some(v as nat),
            None => parse_unsigned(s@, usize::MAX as nat) is None,
        },
{
    match parse_unsigned_exec(s, usize::MAX as u64) {
        Some(v) => Some(v as usize),
        None => None,
    }
}

/// `str::parse::<u32>`.
pub fn parse_u32_exec(s: &Vec<char>) -> (r: Option<u32>)
    ensures
        match r {
            Some(v) => parse_unsigned(s@, u32::MAX as nat) == Some(v as nat),
            None => parse_unsigned(s@, u32::MAX as nat) is None,
        },
{
    match parse_unsigned_exec(s, u32::MAX as u64) {
        Some(v) => Some(v as u32),
        None => None,
    }
}

/// The text without one leading `+` or `-`.
pub open spec fn strip_sign(s: Seq<char>) -> Seq<char> {
    if s.len() > 0 && (s[0] == '+' || s[0] == '-') {
        s.drop_first()
    } else {
        s
    }
}

/// `c` is the lowercase ASCII letter `lower` in either case.
pub open spec fn ci_char(c: char, lower: char) -> bool {
    c == lower || c as int == lower as int - 32
}

/// `s` spells `word` (lowercase ASCII letters) ignoring ASCII case.
pub open spec fn ci_equals(s: Seq<char>, word: Seq<char>) -> bool {
    s.len() == word.len() && forall|i: int| 0 <= i < s.len() ==> ci_char(#[trigger] s[i], word[i])
}

/// Index of the first exponent marker `e`/`E`, or the length when there is none.
pub open spec fn first_exp_marker(s: Seq<char>) -> nat
    decreases s.len(),
{
    if s.len() == 0 {
        0
    } else if s[0] == 'e' || s[0] == 'E' {
        0
    } else {
        1 + first_exp_marker(s.drop_first())
    }
}

/// Number of `.` characters.
pub open spec fn count_dots(s: Seq<char>) -> nat
    decreases s.len(),
{
    if s.len() == 0 {
        0
    } else {
        count_dots(s.drop_last()) + if s.last() == '.' {
            1nat
        } else {
            0nat
        }
    }
}

/// `Digit+ | Digit+ '.' Digit* | Digit* '.' Digit+`.
pub open spec fn is_mantissa(m: Seq<char>) -> bool {
    &&& forall|i: int| 0 <= i < m.len() ==> is_digit(#[trigger] m[i]) || m[i] == '.'
    &&& count_dots(m) <= 1
    &&& count_dots(m) < m.len()
}

/// `Sign? Digit+`.
pub open spec fn is_exponent_digits(e: Seq<char>) -> bool {
    let d = strip_sign(e);
    d.len() > 0 && all_digits(d)
}

/// `Number ::= Mantissa ('e' | 'E') Sign? Digit+ | Mantissa`.
pub open spec fn is_decimal_number(b: Seq<char>) -> bool {
    let k = first_exp_marker(b) as int;
    is_mantissa(b.subrange(0, k)) && (k == b.len() || is_exponent_digits(
        b.subrange(k + 1, b.len() as int),
    ))
}

/// The grammar that `str::parse::<f64>` accepts: a sign, then `inf`, `infinity`, `nan`
/// (in any ASCII case) or a decimal number.
pub open spec fn is_float_literal(s: Seq<char>) -> bool {
    let b = strip_sign(s);
    ||| ci_equals(b, seq!['i', 'n', 'f'])
    ||| ci_equals(b, seq!['i', 'n', 'f', 'i', 'n', 'i', 't', 'y'])
    ||| ci_equals(b, seq!['n', 'a', 'n'])
    ||| is_decimal_number(b)
}

fn ci_equals_exec(s: &Vec<char>, lo: usize, word: &[char], upper: &[char]) -> (r: bool)
    requires
        lo <= s@.len(),
        upper@.len() == word@.len(),
        forall|i: int| 0 <= i < word@.len() ==> #[trigger] upper@[i] as int == word@[i] as int - 32,
    ensures
        r == ci_equals(s@.subrange(lo as int, s@.len() as int), word@),
{
    let ghost b = s@.subrange(lo as int, s@.len() as int);
    if s.len() - lo != word.len() {
        return false;
    }
    let n = s.len();
    let mut i: usize = 0;
    while i < word.len()
        invariant
            n == s@.len(),
            lo <= s@.len(),
            b == s@.subrange(lo as int, s@.len() as int),
            b.len() == word@.len(),
            lo + word@.len() == s@.len(),
            upper@.len() == word@.len(),
            forall|j: int| 0 <= j < word@.len() ==> #[trigger] upper@[j] as int == word@[j] as int - 32,
            i <= word@.len(),
            forall|k: int| 0 <= k < i ==> ci_char(#[trigger] b[k], word@[k]),
        decreases word.len() - i,
    {
        assert(lo + i < n);
        let c = s[lo + i];
        let w = word[i];
        let u = upper[i];
        if !(c == w || c == u) {
            assert(b[i as int] == c);
            assert(!ci_char(b[i as int], word@[i as int]));
            return false;
        }
        i = i + 1;
    }
    true
}

proof fn lemma_first_exp_marker(s: Seq<char>)
    ensures
        first_exp_marker(s) <= s.len(),
        forall|i: int| 0 <= i < first_exp_marker(s) ==> !(#[trigger] s[i] == 'e' || s[i] == 'E'),
        first_exp_marker(s) < s.len() ==> (s[first_exp_marker(s) as int] == 'e'
            || s[first_exp_marker(s) as int] == 'E'),
    decreases s.len(),
{
    if s.len() > 0 && !(s[0] == 'e' || s[0] == 'E') {
        lemma_first_exp_marker(s.drop_first());
        assert forall|i: int| 0 <= i < first_exp_marker(s) implies !(#[trigger] s[i] == 'e'
            || s[i] == 'E') by {
            if i > 0 {
                assert(s[i] == s.drop_first()[i - 1]);
            }
        }
    }
}

proof fn lemma_first_exp_marker_at(s: Seq<char>, k: int)
    requires
        0 <= k <= s.len(),
        forall|i: int| 0 <= i < k ==> !(#[trigger] s[i] == 'e' || s[i] == 'E'),
        k == s.len() || s[k] == 'e' || s[k] == 'E',
    ensures
        first_exp_marker(s) == k,
    decreases k,
{
    if k > 0 {
        assert(!(s[0] == 'e' || s[0] == 'E'));
        lemma_first_exp_marker_at(s.drop_first(), k - 1);
    }
}

/// Scans `s[lo..]` up to its first exponent marker: where it stops, and whether the
/// scanned part is a mantissa.
fn scan_mantissa(s: &Vec<char>, lo: usize) -> (r: (usize, bool))
    requires
        lo <= s@.len(),
    ensures
        lo <= r.0 <= s@.len(),
        r.0 - lo == first_exp_marker(s@.subrange(lo as int, s@.len() as int)),
        r.1 == is_mantissa(s@.subrange(lo as int, r.0 as int)),
{
    let n = s.len();
    let ghost b = s@.subrange(lo as int, n as int);
    let mut k = lo;
    let mut dots: usize = 0;
    let mut ok = true;
    while k < n && !(s[k] == 'e' || s[k] == 'E')
        invariant
            lo <= k <= n == s@.len(),
            b == s@.subrange(lo as int, n as int),
            forall|i: int| 0 <= i < k - lo ==> !(#[trigger] b[i] == 'e' || b[i] == 'E'),
            dots == count_dots(b.subrange(0, (k - lo) as int)),
            dots <= k - lo,
            ok == forall|i: int| 0 <= i < k - lo ==> is_digit(#[trigger] b[i]) || b[i] == '.',
        decreases n - k,
    {
        let c = s[k];
        proof {
            let p1 = b.subrange(0, (k - lo + 1) as int);
            assert(p1.drop_last() == b.subrange(0, (k - lo) as int));
            assert(p1.last() == c);
            assert(b[(k - lo) as int] == c);
        }
        if c == '.' {
            dots = dots + 1;
        } else if !('0' <= c && c <= '9') {
            ok = false;
        }
        k = k + 1;
        proof {
            assert forall|i: int| 0 <= i < k - lo implies !(#[trigger] b[i] == 'e' || b[i]
                == 'E') by {
                if i == k - lo - 1 {
                    assert(b[i] == c);
                }
            }
        }
    }
    proof {
        lemma_first_exp_marker_at(b, (k - lo) as int);
    }
    let ghost m = b.subrange(0, (k - lo) as int);
    assert(m == s@.subrange(lo as int, k as int));
    assert(ok == forall|i: int| 0 <= i < m.len() ==> is_digit(#[trigger] m[i]) || m[i] == '.')
        by {
        assert forall|i: int| 0 <= i < m.len() implies m[i] == b[i] by {}
    }
    (k, ok && dots <= 1 && dots < k - lo)
}

/// Whether `s[from..]` is an optional sign followed by at least one digit.
fn exponent_digits_exec(s: &Vec<char>, from: usize) -> (r: bool)
    requires
        from <= s@.len(),
    ensures
        r == is_exponent_digits(s@.subrange(from as int, s@.len() as int)),
{
    let n = s.len();
    let ghost ex = s@.subrange(from as int, n as int);
    let mut e = from;
    if e < n && (s[e] == '+' || s[e] == '-') {
        e = e + 1;
    }
    assert(strip_sign(ex) == s@.subrange(e as int, n as int));
    if e >= n {
        return false;
    }
    let mut j = e;
    while j < n
        invariant
            e <= j <= n == s@.len(),
            from <= e,
            ex == s@.subrange(from as int, n as int),
            strip_sign(ex) == s@.subrange(e as int, n as int),
            forall|i: int| e <= i < j ==> is_digit(#[trigger] s@[i]),
        decreases n - j,
    {
        if !('0' <= s[j] && s[j] <= '9') {
            assert(s@.subrange(e as int, n as int)[j - e] == s@[j as int]);
            assert(!all_digits(strip_sign(ex)));
            return false;
        }
        j = j + 1;
    }
    assert(all_digits(s@.subrange(e as int, n as int))) by {
        assert forall|i: int| 0 <= i < n - e implies is_digit(
            #[trigger] s@.subrange(e as int, n as int)[i],
        ) by {
            assert(s@.subrange(e as int, n as int)[i] == s@[e + i]);
        }
    }
    true
}

/// Whether `str::parse::<f64>` accepts the text.
pub fn is_float_literal_exec(s: &Vec<char>) -> (r: bool)
    ensures
        r == is_float_literal(s@),
{
    let n = s.len();
    let lo: usize = if n > 0 && (s[0] == '+' || s[0] == '-') {
        1
    } else {
        0
    };
    let ghost b = s@.subrange(lo as int, n as int);
    assert(b == strip_sign(s@));
    let inf: [char; 3] = ['i', 'n', 'f'];
    let infinity: [char; 8] = ['i', 'n', 'f', 'i', 'n', 'i', 't', 'y'];
    let nan: [char; 3] = ['n', 'a', 'n'];
    let inf_u: [char; 3] = ['I', 'N', 'F'];
    let infinity_u: [char; 8] = ['I', 'N', 'F', 'I', 'N', 'I', 'T', 'Y'];
    let nan_u: [char; 3] = ['N', 'A', 'N'];
    assert(inf@ == seq!['i', 'n', 'f']);
    assert(infinity@ == seq!['i', 'n', 'f', 'i', 'n', 'i', 't', 'y']);
    assert(nan@ == seq!['n', 'a', 'n']);
    assert('I' as int == 'i' as int - 32 && 'N' as int == 'n' as int - 32 && 'F' as int == 'f'
        as int - 32 && 'T' as int == 't' as int - 32 && 'Y' as int == 'y' as int - 32 && 'A' as int
        == 'a' as int - 32);
    if ci_equals_exec(s, lo, &inf, &inf_u) || ci_equals_exec(s, lo, &infinity, &infinity_u)
        || ci_equals_exec(s, lo, &nan, &nan_u) {
        return true;
    }
    let (k, mantissa_ok) = scan_mantissa(s, lo);
    assert(b.subrange(0, (k - lo) as int) == s@.subrange(lo as int, k as int));
    if !mantissa_ok {
        return false;
    }
    if k == n {
        return true;
    }
    assert(b.subrange((k - lo + 1) as int, b.len() as int) == s@.subrange(k + 1, n as int));
    exponent_digits_exec(s, k + 1)
}

/// Index of the first `c` in `s`, or the length when `c` does not occur.
pub open spec fn first_of(s: Seq<char>, c: char) -> nat
    decreases s.len(),
{
    if s.len() == 0 {
        0
    } else if s[0] == c {
        0
    } else {
        1 + first_of(s.drop_first(), c)
    }
}

pub proof fn lemma_first_of(s: Seq<char>, c: char)
    ensures
        first_of(s, c) <= s.len(),
        forall|i: int| 0 <= i < first_of(s, c) ==> #[trigger] s[i] != c,
        first_of(s, c) < s.len() ==> s[first_of(s, c) as int] == c,
    decreases s.len(),
{
    if s.len() > 0 && s[0] != c {
        lemma_first_of(s.drop_first(), c);
        assert forall|i: int| 0 <= i < first_of(s, c) implies #[trigger] s[i] != c by {
            if i > 0 {
                assert(s[i] == s.drop_first()[i - 1]);
            }
        }
    }
}

proof fn lemma_first_of_at(s: Seq<char>, c: char, k: int)
    requires
        0 <= k <= s.len(),
        forall|i: int| 0 <= i < k ==> #[trigger] s[i] != c,
        k == s.len() || s[k] == c,
    ensures
        first_of(s, c) == k,
    decreases k,
{
    if k > 0 {
        assert(s[0] != c);
        lemma_first_of_at(s.drop_first(), c, k - 1);
    }
}

/// Index of the first `c`, as `str::find` gives it.
pub fn find_char_exec(s: &Vec<char>, c: char) -> (r: Option<usize>)
    ensures
        match r {
            Some(k) => k == first_of(s@, c) && k < s@.len(),
            None => first_of(s@, c) == s@.len(),
        },
{
    let n = s.len();
    let mut k: usize = 0;
    while k < n
        invariant
            k <= n == s@.len(),
            forall|i: int| 0 <= i < k ==> #[trigger] s@[i] != c,
        decreases n - k,
    {
        if s[k] == c {
            proof {
                lemma_first_of_at(s@, c, k as int);
            }
            return Some(k);
        }
        k = k + 1;
    }
    proof {
        lemma_first_of_at(s@, c, n as int);
    }
    None
}

/// Index of the last `c`, as `str::rfind` gives it.
pub fn rfind_char_exec(s: &Vec<char>, c: char) -> (r: Option<usize>)
    ensures
        match r {
            Some(k) => k < s@.len() && s@[k as int] == c && forall|i: int|
                k < i < s@.len() ==> #[trigger] s@[i] != c,
            None => forall|i: int| 0 <= i < s@.len() ==> #[trigger] s@[i] != c,
        },
{
    let n = s.len();
    let mut k: usize = n;
    while k > 0
        invariant
            k <= n == s@.len(),
            forall|i: int| k <= i < n ==> #[trigger] s@[i] != c,
        decreases k,
    {
        if s[k - 1] == c {
            return Some(k - 1);
        }
        k = k - 1;
    }
    None
}

/// Every `[` and `]` replaced by a space.
pub open spec fn brackets_to_spaces(s: Seq<char>) -> Seq<char> {
    s.map_values(|c: char| if c == '[' || c == ']' {
        ' '
    } else {
        c
    })
}

pub fn brackets_to_spaces_exec(s: &Vec<char>) -> (t: Vec<char>)
    ensures
        t@ == brackets_to_spaces(s@),
{
    let mut t: Vec<char> = Vec::new();
    let mut i: usize = 0;
    while i < s.len()
        invariant
            i <= s@.len(),
            t@ == brackets_to_spaces(s@.subrange(0, i as int)),
        decreases s.len() - i,
    {
        let c = s[i];
        t.push(
            if c == '[' || c == ']' {
                ' '
            } else {
                c
            },
        );
        i = i + 1;
        assert(brackets_to_spaces(s@.subrange(0, i as int)) == brackets_to_spaces(
            s@.subrange(0, i - 1),
        ).push(if c == '[' || c == ']' {
            ' '
        } else {
            c
        }));
    }
    assert(s@.subrange(0, s@.len() as int) == s@);
    t
}

/// Every `c` removed.
pub open spec fn remove_char(s: Seq<char>, c: char) -> Seq<char> {
    s.filter(|x: char| x != c)
}

pub fn remove_char_exec(s: &Vec<char>, c: char) -> (t: Vec<char>)
    ensures
        t@ == remove_char(s@, c),
{
    let mut t: Vec<char> = Vec::new();
    let mut i: usize = 0;
    while i < s.len()
        invariant
            i <= s@.len(),
            t@ == remove_char(s@.subrange(0, i as int), c),
        decreases s.len() - i,
    {
        let x = s[i];
        proof {
            let p1 = s@.subrange(0, i + 1);
            assert(p1.drop_last() == s@.subrange(0, i as int));
            assert(p1.last() == x);
            reveal_with_fuel(Seq::filter, 1);
        }
        if x != c {
            t.push(x);
        }
        i = i + 1;
    }
    assert(s@.subrange(0, s@.len() as int) == s@);
    t
}

/// `str::replace("if", "")`: every occurrence of `if`, scanned left to right, removed.
pub open spec fn remove_if_word(s: Seq<char>) -> Seq<char>
    decreases s.len(),
{
    if s.len() == 0 {
        s
    } else if s.len() >= 2 && s[0] == 'i' && s[1] == 'f' {
        remove_if_word(s.subrange(2, s.len() as int))
    } else {
        seq![s[0]] + remove_if_word(s.drop_first())
    }
}

pub fn remove_if_word_exec(s: &Vec<char>) -> (t: Vec<char>)
    ensures
        t@ == remove_if_word(s@),
{
    let n = s.len();
    let mut t: Vec<char> = Vec::new();
    let mut i: usize = 0;
    assert(s@.subrange(0, n as int) == s@);
    while i < n
        invariant
            i <= n == s@.len(),
            t@ + remove_if_word(s@.subrange(i as int, n as int)) == remove_if_word(s@),
        decreases n - i,
    {
        let ghost rest = s@.subrange(i as int, n as int);
        if i + 1 < n && s[i] == 'i' && s[i + 1] == 'f' {
            assert(rest.subrange(2, rest.len() as int) == s@.subrange(i + 2, n as int));
            i = i + 2;
        } else {
            assert(rest.drop_first() == s@.subrange(i + 1, n as int));
            t.push(s[i]);
            i = i + 1;
            assert(t@ + remove_if_word(s@.subrange(i as int, n as int)) == t@.drop_last() + (seq![
                rest[0],
            ] + remove_if_word(rest.drop_first())));
        }
    }
    assert(s@.subrange(n as int, n as int).len() == 0);
    t
}

/// Index of the first `==`, or the length when there is none.
pub open spec fn first_double_eq(s: Seq<char>) -> nat
    decreases s.len(),
{
    if s.len() < 2 {
        s.len()
    } else if s[0] == '=' && s[1] == '=' {
        0
    } else {
        1 + first_double_eq(s.drop_first())
    }
}

pub proof fn lemma_first_double_eq(s: Seq<char>)
    ensures
        first_double_eq(s) <= s.len(),
        first_double_eq(s) < s.len() ==> first_double_eq(s) + 1 < s.len(),
    decreases s.len(),
{
    if s.len() >= 2 && !(s[0] == '=' && s[1] == '=') {
        lemma_first_double_eq(s.drop_first());
    }
}

/// Index of the first `==`, as `str::splitn(2, "==")` splits.
pub fn find_double_eq_exec(s: &Vec<char>) -> (r: usize)
    ensures
        r == first_double_eq(s@),
{
    let n = s.len();
    let mut k: usize = 0;
    assert(s@.subrange(0, n as int) == s@);
    while n >= 1 && k < n - 1
        invariant
            k <= n == s@.len(),
            first_double_eq(s@.subrange(k as int, n as int)) + k == first_double_eq(s@),
        decreases n - k,
    {
        let ghost rest = s@.subrange(k as int, n as int);
        if s[k] == '=' && s[k + 1] == '=' {
            return k;
        }
        assert(rest.drop_first() == s@.subrange(k + 1, n as int));
        k = k + 1;
    }
    n
}

/// `str::split` on one character: the pieces between occurrences of `c`, empty ones
/// included.
pub open spec fn split_char(s: Seq<char>, c: char) -> Seq<Seq<char>>
    decreases s.len(),
{
    let k = first_of(s, c);
    if k >= s.len() {
        seq![s]
    } else {
        proof {
            lemma_first_of(s, c);
        }
        seq![s.take(k as int)] + split_char(s.skip(k as int + 1), c)
    }
}

/// Index of the last `c`, or `-1` when `c` does not occur.
pub open spec fn last_of(s: Seq<char>, c: char) -> int
    decreases s.len(),
{
    if s.len() == 0 {
        -1
    } else if s.last() == c {
        s.len() - 1
    } else {
        last_of(s.drop_last(), c)
    }
}

proof fn lemma_last_of_at(s: Seq<char>, c: char, k: int)
    requires
        -1 <= k < s.len(),
        k >= 0 ==> s[k] == c,
        forall|i: int| k < i < s.len() ==> #[trigger] s[i] != c,
    ensures
        last_of(s, c) == k,
    decreases s.len(),
{
    if s.len() > 0 && s.last() != c {
        lemma_last_of_at(s.drop_last(), c, k);
    }
}

/// Index of the last `c`, as `str::rfind` gives it.
pub fn last_of_exec(s: &Vec<char>, c: char) -> (r: Option<usize>)
    ensures
        match r {
            Some(k) => k == last_of(s@, c) && k < s@.len(),
            None => last_of(s@, c) == -1,
        },
{
    let r = rfind_char_exec(s, c);
    proof {
        match r {
            Some(k) => lemma_last_of_at(s@, c, k as int),
            None => lemma_last_of_at(s@, c, -1),
        }
    }
    r
}

/// The views of a sequence of character vectors.
pub open spec fn views(v: Seq<Vec<char>>) -> Seq<Seq<char>> {
    v.map_values(|x: Vec<char>| x@)
}

/// `str::split` on one character.
pub fn split_char_exec(s: &Vec<char>, c: char) -> (parts: Vec<Vec<char>>)
    ensures
        views(parts@) == split_char(s@, c),
{
    let n = s.len();
    let mut parts: Vec<Vec<char>> = Vec::new();
    let mut start: usize = 0;
    let mut i: usize = 0;
    assert(s@.subrange(0, n as int) == s@);
    while i < n
        invariant
            start <= i <= n == s@.len(),
            forall|k: int| start <= k < i ==> #[trigger] s@[k] != c,
            views(parts@) + split_char(s@.subrange(start as int, n as int), c) == split_char(
                s@,
                c,
            ),
        decreases n - i,
    {
        if s[i] == c {
            let ghost rest = s@.subrange(start as int, n as int);
            proof {
                lemma_first_of_at(rest, c, (i - start) as int);
                assert(rest.take((i - start) as int) == s@.subrange(start as int, i as int));
                assert(rest.skip((i - start) + 1) == s@.subrange(i + 1, n as int));
            }
            let piece = slice_chars(s, start, i);
            let ghost before = parts@;
            parts.push(piece);
            assert(views(parts@) == views(before).push(piece@));
            start = i + 1;
        }
        i = i + 1;
    }
    let ghost rest = s@.subrange(start as int, n as int);
    proof {
        lemma_first_of_at(rest, c, rest.len() as int);
    }
    let piece = slice_chars(s, start, n);
    let ghost before = parts@;
    parts.push(piece);
    assert(views(parts@) == views(before).push(piece@));
    parts
}

/// `String::push`: appends one character.
#[verifier::external_body]
fn string_push(s: &mut String, c: char)
    ensures
        final(s)@ == old(s)@.push(c),
{
    s.push(c);
}

/// The string holding the characters `v`.
pub fn string_from_chars(v: &Vec<char>) -> (s: String)
    ensures
        s@ == v@,
{
    let mut s = String::new();
    let mut i: usize = 0;
    while i < v.len()
        invariant
            i <= v@.len(),
            s@ == v@.subrange(0, i as int),
        decreases v.len() - i,
    {
        string_push(&mut s, v[i]);
        i = i + 1;
    }
    assert(v@.subrange(0, v@.len() as int) == v@);
    s
}

/// The decimal digit `d`.
pub open spec fn digit_char(d: nat) -> char {
    (48 + d) as char
}

/// The decimal numeral of `n`, without leading zeros.
pub open spec fn decimal_of(n: nat) -> Seq<char>
    decreases n,
{
    if n < 10 {
        seq![digit_char(n)]
    } else {
        decimal_of(n / 10).push(digit_char(n % 10))
    }
}

/// Appends the decimal numeral of `n`.
pub fn push_decimal(v: &mut Vec<char>, n: usize)
    ensures
        final(v)@ == old(v)@ + decimal_of(n as nat),
    decreases n,
{
    if n >= 10 {
        push_decimal(v, n / 10);
    }
    let d = (n % 10) as u8;
    let c = (48u8 + d) as char;
    assert(c == digit_char((n % 10) as nat));
    v.push(c);
    assert(final(v)@ =~= old(v)@ + decimal_of(n as nat));
}

} // verus!
