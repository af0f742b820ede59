//! Character classes and the number syntaxes of the script format: the
//! integers that `u8::from_str_radix` accepts and the decimal literals that
//! `f32::from_str` accepts.

use vstd::prelude::*;

verus! {

/// An ASCII decimal digit, `[0-9]`.
pub open spec fn is_digit(c: char) -> bool {
    '0' <= c && c <= '9'
}

/// The value of `c` as a digit in base `radix` (`char::to_digit`), if it is one.
pub open spec fn digit_of(c: char, radix: nat) -> Option<nat> {
    let d: int = if '0' <= c && c <= '9' {
        (c as int) - ('0' as int)
    } else if 'a' <= c && c <= 'z' {
        (c as int) - ('a' as int) + 10
    } else if 'A' <= c && c <= 'Z' {
        (c as int) - ('A' as int) + 10
    } else {
        radix as int
    };
    if d < radix {
        Some(d as nat)
    } else {
        None
    }
}

/// Every character of `s` is a digit in base `radix`.
pub open spec fn all_radix_digits(s: Seq<char>, radix: nat) -> bool {
    forall|i: int| 0 <= i < s.len() ==> (#[trigger] digit_of(s[i], radix)) is Some
}

/// The number that the digits `s` denote in base `radix`.
pub open spec fn digits_value(s: Seq<char>, radix: nat) -> nat
    decreases s.len(),
{
    if s.len() == 0 {
        0
    } else {
        digits_value(s.drop_last(), radix) * radix + match digit_of(s.last(), radix) {
            Some(d) => d,
            None => 0,
        }
    }
}

/// What `u8::from_str_radix(s, radix)` returns, `Err` being `None`: an optional
/// `+` followed by at least one digit, with a value that fits in a `u8`.
pub open spec fn u8_from_str_radix(s: Seq<char>, radix: nat) -> Option<u8> {
    let digits = if s.len() > 0 && s[0] == '+' {
        s.drop_first()
    } else {
        s
    };
    if digits.len() > 0 && all_radix_digits(digits, radix) && digits_value(digits, radix) <= 255 {
        Some(digits_value(digits, radix) as u8)
    } else {
        None
    }
}

/// `s` with one leading `+` or `-` removed, if it has one.
pub open spec fn strip_sign(s: Seq<char>) -> Seq<char> {
    if s.len() > 0 && (s[0] == '+' || s[0] == '-') {
        s.drop_first()
    } else {
        s
    }
}

/// ASCII lower-casing of one character.
pub open spec fn ascii_lower(c: char) -> char {
    if 'A' <= c && c <= 'Z' {
        ((c as int) + 32) as char
    } else {
        c
    }
}

/// `s` equals the lower-case word `w` once ASCII letters are lower-cased.
pub open spec fn equals_ignoring_case(s: Seq<char>, w: Seq<char>) -> bool {
    s.len() == w.len() && forall|i: int| 0 <= i < s.len() ==> ascii_lower(#[trigger] s[i]) == w[i]
}

/// The position of the first `e` or `E` in `s` at or after `i`, or `s.len()`.
pub open spec fn exponent_mark(s: Seq<char>, i: int) -> int
    decreases s.len() - i,
{
    if i >= s.len() {
        s.len() as int
    } else if s[i] == 'e' || s[i] == 'E' {
        i
    } else {
        exponent_mark(s, i + 1)
    }
}

/// `Digit+ | Digit+ '.' Digit* | Digit* '.' Digit+`: digits with at most one
/// point and at least one digit.
pub open spec fn is_mantissa(m: Seq<char>) -> bool {
    &&& forall|i: int| 0 <= i < m.len() ==> is_digit(#[trigger] m[i]) || m[i] == '.'
    &&& forall|i: int, j: int| 0 <= i < j < m.len() ==> !(#[trigger] m[i] == '.' && #[trigger] m[j] == '.')
    &&& exists|i: int| 0 <= i < m.len() && is_digit(#[trigger] m[i])
}

/// `Sign? Digit+`, what follows the `e` of an exponent.
pub open spec fn is_exponent(x: Seq<char>) -> bool {
    let y = strip_sign(x);
    y.len() > 0 && forall|i: int| 0 <= i < y.len() ==> is_digit(#[trigger] y[i])
}

/// `Number ::= Mantissa Exp?` in the grammar of `f32::from_str`.
pub open spec fn is_decimal_number(t: Seq<char>) -> bool {
    let k = exponent_mark(t, 0);
    is_mantissa(t.subrange(0, k)) && (k == t.len() || is_exponent(t.subrange(k + 1, t.len() as int)))
}

/// The strings that `f32::from_str` accepts, as its documentation gives them:
/// `Sign? ( 'inf' | 'infinity' | 'nan' | Number )`, letters in any case.
pub open spec fn is_f32_literal(s: Seq<char>) -> bool {
    let t = strip_sign(s);
    ||| equals_ignoring_case(t, seq!['i', 'n', 'f'])
    ||| equals_ignoring_case(t, seq!['i', 'n', 'f', 'i', 'n', 'i', 't', 'y'])
    ||| equals_ignoring_case(t, seq!['n', 'a', 'n'])
    ||| is_decimal_number(t)
}

/// The value of `c` as a digit in base `radix`.
pub fn digit_value(c: char, radix: u32) -> (r: Option<u32>)
    requires
        2 <= radix <= 36,
    ensures
        r matches Some(d) ==> digit_of(c, radix as nat) == Some(d as nat),
        r is None ==> digit_of(c, radix as nat) is None,
{
    let d: u32 = if '0' <= c && c <= '9' {
        (c as u32) - ('0' as u32)
    } else if 'a' <= c && c <= 'z' {
        (c as u32) - ('a' as u32) + 10
    } else if 'A' <= c && c <= 'Z' {
        (c as u32) - ('A' as u32) + 10
    } else {
        radix
    };
    if d < radix {
        Some(d)
    } else {
        None
    }
}

proof fn lemma_saturated_step(v: nat, radix: nat, d: nat)
    requires
        radix >= 1,
    ensures
        (if v > 256 { 256 } else { v }) * radix + d >= 256 <==> v * radix + d >= 256,
        v * radix + d < 256 ==> (if v > 256 { 256nat } else { v }) == v,
{
    if v > 256 {
        assert(v * radix >= v) by (nonlinear_arith)
            requires
                radix >= 1,
        ;
        assert(256 * radix >= 256) by (nonlinear_arith)
            requires
                radix >= 1,
        ;
    }
}

/// `u8::from_str_radix` on the characters `v[lo..hi]`.
pub fn parse_u8_radix(v: &Vec<char>, lo: usize, hi: usize, radix: u32) -> (r: Option<u8>)
    requires
        lo <= hi <= v.len(),
        2 <= radix <= 36,
    ensures
        r == u8_from_str_radix(v@.subrange(lo as int, hi as int), radix as nat),
{
    let ghost s = v@.subrange(lo as int, hi as int);
    let start = if lo < hi && v[lo] == '+' {
        lo + 1
    } else {
        lo
    };
    let ghost digits = v@.subrange(start as int, hi as int);
    assert(digits == (if s.len() > 0 && s[0] == '+' { s.drop_first() } else { s }));
    if start == hi {
        return None;
    }
    // `acc` is the value of the digits read so far, capped at 256.
    let mut acc: u32 = 0;
    let mut i = start;
    while i < hi
        invariant
            lo <= start <= i <= hi <= v.len(),
            digits == v@.subrange(start as int, hi as int),
            s == v@.subrange(lo as int, hi as int),
            digits == (if s.len() > 0 && s[0] == '+' { s.drop_first() } else { s }),
            all_radix_digits(v@.subrange(start as int, i as int), radix as nat),
            acc == (if digits_value(v@.subrange(start as int, i as int), radix as nat) > 256 {
                256
            } else {
                digits_value(v@.subrange(start as int, i as int), radix as nat)
            }),
            2 <= radix <= 36,
        decreases hi - i,
    {
        let ghost prefix = v@.subrange(start as int, i as int);
        let ghost next = v@.subrange(start as int, i + 1);
        assert(next.drop_last() == prefix);
        assert(next.last() == v@[i as int]);
        match digit_value(v[i], radix) {
            None => {
                assert(digits[i - start] == v@[i as int]);
                assert(digit_of(digits[i - start], radix as nat) is None);
                assert(!all_radix_digits(digits, radix as nat));
                return None;
            },
            Some(d) => {
                let ghost val = digits_value(prefix, radix as nat);
                proof {
                    lemma_saturated_step(val, radix as nat, d as nat);
                }
                assert(acc * radix <= 256 * 36) by (nonlinear_arith)
                    requires
                        acc <= 256,
                        radix <= 36,
                ;
                let step = acc * radix + d;
                acc = if step > 256 {
                    256
                } else {
                    step
                };
                assert forall|j: int| 0 <= j < next.len() implies (#[trigger] digit_of(next[j], radix as nat)) is Some by {
                    if j < prefix.len() {
                        assert(next[j] == prefix[j]);
                    }
                }
            },
        }
        i = i + 1;
    }
    assert(v@.subrange(start as int, i as int) == digits);
    if acc <= 255 {
        Some(acc as u8)
    } else {
        None
    }
}

/// The characters `v[lo..hi]` equal the lower-case word `w` up to ASCII case.
fn equals_ignoring_case_at(v: &Vec<char>, lo: usize, hi: usize, w: &[char]) -> (r: bool)
    requires
        lo <= hi <= v.len(),
    ensures
        r == equals_ignoring_case(v@.subrange(lo as int, hi as int), w@),
{
    let ghost t = v@.subrange(lo as int, hi as int);
    if hi - lo != w.len() {
        return false;
    }
    let mut i: usize = 0;
    while i < w.len()
        invariant
            lo <= hi <= v.len(),
            hi - lo == w@.len(),
            t == v@.subrange(lo as int, hi as int),
            forall|j: int| 0 <= j < i ==> ascii_lower(#[trigger] t[j]) == w@[j],
            i <= w.len(),
        decreases w.len() - i,
    {
        let c = v[lo + i];
        let lower = if 'A' <= c && c <= 'Z' {
            ((c as u32) + 32) as u8 as char
        } else {
            c
        };
        assert(t[i as int] == c);
        if lower != w[i] {
            assert(ascii_lower(t[i as int]) != w@[i as int]);
            return false;
        }
        i = i + 1;
    }
    true
}

/// The characters `v[lo..hi]` are all decimal digits and there is at least one.
fn nonempty_digits_at(v: &Vec<char>, lo: usize, hi: usize) -> (r: bool)
    requires
        lo <= hi <= v.len(),
    ensures
        r == (hi > lo && forall|i: int| lo <= i < hi ==> is_digit(#[trigger] v@[i])),
{
    if lo == hi {
        return false;
    }
    let mut i = lo;
    while i < hi
        invariant
            lo <= i <= hi <= v.len(),
            forall|j: int| lo <= j < i ==> is_digit(#[trigger] v@[j]),
        decreases hi - i,
    {
        if !('0' <= v[i] && v[i] <= '9') {
            return false;
        }
        i = i + 1;
    }
    true
}

/// `f32::from_str` accepts the characters `v[lo..hi]`.
#[verifier::loop_isolation(false)]
pub fn is_f32_literal_at(v: &Vec<char>, lo: usize, hi: usize) -> (r: bool)
    requires
        lo <= hi <= v.len(),
    ensures
        r == is_f32_literal(v@.subrange(lo as int, hi as int)),
{
    let ghost s = v@.subrange(lo as int, hi as int);
    let t_lo = if lo < hi && (v[lo] == '+' || v[lo] == '-') {
        lo + 1
    } else {
        lo
    };
    let ghost t = v@.subrange(t_lo as int, hi as int);
    assert(t == strip_sign(s));
    let inf = equals_ignoring_case_at(v, t_lo, hi, &['i', 'n', 'f']);
    let infinity = equals_ignoring_case_at(v, t_lo, hi, &['i', 'n', 'f', 'i', 'n', 'i', 't', 'y']);
    let nan = equals_ignoring_case_at(v, t_lo, hi, &['n', 'a', 'n']);
    if inf || infinity || nan {
        return true;
    }
    // Find the exponent mark.
    let mut k = t_lo;
    while k < hi && v[k] != 'e' && v[k] != 'E'
        invariant
            t_lo <= k <= hi <= v.len(),
            t == v@.subrange(t_lo as int, hi as int),
            exponent_mark(t, 0) == exponent_mark(t, k - t_lo),
        decreases hi - k,
    {
        assert(t[k - t_lo] == v@[k as int]);
        k = k + 1;
    }
    assert(exponent_mark(t, 0) == k - t_lo) by {
        if k < hi {
            assert(t[k - t_lo] == v@[k as int]);
        }
    }
    // The mantissa `v[t_lo..k]`.
    let ghost m = v@.subrange(t_lo as int, k as int);
    assert(m == t.subrange(0, k - t_lo));
    let mut seen_point = false;
    let mut seen_digit = false;
    let ghost mut digit_at: int = 0;
    let ghost mut point_at: int = 0;
    let mut i = t_lo;
    while i < k
        invariant
            t_lo <= i <= k <= hi <= v.len(),
            m == v@.subrange(t_lo as int, k as int),
            forall|j: int| 0 <= j < i - t_lo ==> is_digit(#[trigger] m[j]) || m[j] == '.',
            forall|a: int, b: int| 0 <= a < b < i - t_lo ==> !(#[trigger] m[a] == '.' && #[trigger] m[b] == '.'),
            seen_digit ==> 0 <= digit_at < i - t_lo && is_digit(m[digit_at]),
            !seen_digit ==> forall|j: int| 0 <= j < i - t_lo ==> !is_digit(#[trigger] m[j]),
            seen_point ==> 0 <= point_at < i - t_lo && m[point_at] == '.',
            !seen_point ==> forall|j: int| 0 <= j < i - t_lo ==> #[trigger] m[j] != '.',
        decreases k - i,
    {
        let c = v[i];
        assert(m[i - t_lo] == c);
        if '0' <= c && c <= '9' {
            seen_digit = true;
            proof {
                digit_at = i - t_lo;
            }
        } else if c == '.' {
            if seen_point {
                assert(m[point_at] == '.' && m[i - t_lo] == '.');
                return false;
            }
            seen_point = true;
            proof {
                point_at = i - t_lo;
            }
        } else {
            assert(!(is_digit(m[i - t_lo]) || m[i - t_lo] == '.'));
            return false;
        }
        i = i + 1;
    }
    if !seen_digit {
        return false;
    }
    assert(is_digit(m[digit_at]));
    assert(is_mantissa(m));
    if k == hi {
        return true;
    }
    // The exponent `v[k + 1..hi]`.
    let e_lo = if k + 1 < hi && (v[k + 1] == '+' || v[k + 1] == '-') {
        k + 2
    } else {
        k + 1
    };
    let ghost x = t.subrange(k + 1 - t_lo, t.len() as int);
    assert(x == v@.subrange(k + 1, hi as int));
    assert(strip_sign(x) == v@.subrange(e_lo as int, hi as int));
    let r = nonempty_digits_at(v, e_lo, hi);
    assert(r == is_exponent(x)) by {
        let y = strip_sign(x);
        if r {
            assert forall|j: int| 0 <= j < y.len() implies is_digit(#[trigger] y[j]) by {
                assert(y[j] == v@[e_lo + j]);
            }
        } else if hi > e_lo {
            let j = choose|j: int| e_lo <= j < hi && !is_digit(#[trigger] v@[j]);
            assert(y[j - e_lo] == v@[j]);
        }
    }
    r
}

/// No exponent mark lies in a run of digits.
proof fn lemma_no_exponent_mark(s: Seq<char>, i: int)
    requires
        0 <= i <= s.len(),
        forall|k: int| 0 <= k < s.len() ==> is_digit(#[trigger] s[k]),
    ensures
        exponent_mark(s, i) == s.len(),
    decreases s.len() - i,
{
    if i < s.len() {
        assert(is_digit(s[i]));
        lemma_no_exponent_mark(s, i + 1);
    }
}

/// Every non-empty run of decimal digits is a literal that `f32::from_str`
/// accepts.
pub proof fn digits_are_f32_literals(s: Seq<char>)
    requires
        s.len() > 0,
        forall|k: int| 0 <= k < s.len() ==> is_digit(#[trigger] s[k]),
    ensures
        is_f32_literal(s),
{
    assert(is_digit(s[0]));
    assert(strip_sign(s) == s);
    lemma_no_exponent_mark(s, 0);
    assert(s.subrange(0, s.len() as int) =~= s);
    assert(is_mantissa(s));
}

} // verus!
