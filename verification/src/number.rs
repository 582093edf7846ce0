//! Numeric text: reading signed decimal integers, and recognising the two
//! number grammars the library meets (JSON number literals and the
//! floating-point literals a typed `number` parameter accepts).
use vstd::prelude::*;
use crate::text::{chars_of, decimal, push_decimal};

verus! {

/// Whether `c` is one of the decimal digits `0` to `9`.
pub open spec fn is_digit(c: char) -> bool {
    '0' <= c && c <= '9'
}

/// The number that the decimal digit `c` denotes.
pub open spec fn digit_value(c: char) -> int {
    c as int - '0' as int
}

/// Whether `s` is made of decimal digits alone.
pub open spec fn all_digits(s: Seq<char>) -> bool {
    forall|i: int| 0 <= i < s.len() ==> is_digit(#[trigger] s[i])
}

/// The number that the digit string `s` denotes in base ten (0 for the empty
/// string).
pub open spec fn digits_value(s: Seq<char>) -> int
    decreases s.len(),
{
    if s.len() == 0 {
        0
    } else {
        10 * digits_value(s.drop_last()) + digit_value(s.last())
    }
}

/// Whether `s` starts with a sign, `+` or `-`.
pub open spec fn has_sign(s: Seq<char>) -> bool {
    s.len() > 0 && (s[0] == '-' || s[0] == '+')
}

/// The integer that `s` denotes, whatever its size: an optional `+` or `-`,
/// then one or more decimal digits and nothing else.
pub open spec fn integer_value(s: Seq<char>) -> Option<int> {
    let digits = if has_sign(s) {
        s.skip(1)
    } else {
        s
    };
    if digits.len() > 0 && all_digits(digits) {
        Some(
            if s[0] == '-' {
                -digits_value(digits)
            } else {
                digits_value(digits)
            },
        )
    } else {
        None
    }
}

/// What `s` denotes as a signed 64-bit integer: the integer it denotes,
/// where that is in range.
pub open spec fn parse_integer(s: Seq<char>) -> Option<i64> {
    match integer_value(s) {
        Some(value) => if i64::MIN <= value <= i64::MAX {
            Some(value as i64)
        } else {
            None
        },
        None => None,
    }
}

/// What `s` denotes as a signed 128-bit integer: the integer it denotes,
/// where that is in range.
pub open spec fn parse_wide(s: Seq<char>) -> Option<i128> {
    match integer_value(s) {
        Some(value) => if i128::MIN <= value <= i128::MAX {
            Some(value as i128)
        } else {
            None
        },
        None => None,
    }
}

/// A digit string denotes no negative number.
pub proof fn lemma_digits_value_bounds(s: Seq<char>)
    requires
        all_digits(s),
    ensures
        0 <= digits_value(s),
    decreases s.len(),
{
    if s.len() > 0 {
        assert(is_digit(s[s.len() - 1]));
        lemma_digits_value_bounds(s.drop_last());
    }
}

/// A prefix of a digit string denotes no more than the whole string.
pub proof fn lemma_digits_value_prefix(s: Seq<char>, k: int)
    requires
        all_digits(s),
        0 <= k <= s.len(),
    ensures
        digits_value(s.take(k)) <= digits_value(s),
    decreases s.len(),
{
    if k == s.len() {
        assert(s.take(k) =~= s);
    } else {
        assert(is_digit(s[s.len() - 1]));
        lemma_digits_value_prefix(s.drop_last(), k);
        lemma_digits_value_bounds(s.drop_last());
        assert(s.drop_last().take(k) =~= s.take(k));
    }
}

fn digit_of(c: char) -> (d: Option<u128>)
    ensures
        d is Some <==> is_digit(c),
        d is Some ==> d->0 == digit_value(c),
{
    if c >= '0' && c <= '9' {
        Some((c as u128) - ('0' as u128))
    } else {
        None
    }
}

/// Reads `s` as a signed 128-bit decimal integer.
pub fn parse_i128(s: &str) -> (r: Option<i128>)
    ensures
        r == parse_wide(s@),
{
    let chars = chars_of(s);
    let n = chars.len();
    let negative = n > 0 && chars[0] == '-';
    let start: usize = if n > 0 && (chars[0] == '-' || chars[0] == '+') {
        1
    } else {
        0
    };
    if start == n {
        return None;
    }
    let ghost digits = s@.skip(start as int);
    let limit: u128 = if negative {
        0x8000_0000_0000_0000_0000_0000_0000_0000
    } else {
        0x7fff_ffff_ffff_ffff_ffff_ffff_ffff_ffff
    };
    let mut acc: u128 = 0;
    let mut i: usize = start;
    proof {
        assert(s@.skip(0) =~= s@);
    }
    while i < n
        invariant
            chars@ == s@,
            n == chars.len(),
            start <= i <= n,
            start == (if has_sign(s@) { 1int } else { 0int }),
            negative == (s@.len() > 0 && s@[0] == '-'),
            limit == (if negative {
                0x8000_0000_0000_0000_0000_0000_0000_0000u128
            } else {
                0x7fff_ffff_ffff_ffff_ffff_ffff_ffff_ffffu128
            }),
            digits == s@.skip(start as int),
            digits == (if has_sign(s@) { s@.skip(1) } else { s@ }),
            all_digits(digits.take(i - start)),
            acc == digits_value(digits.take(i - start)),
            acc <= limit,
        decreases n - i,
    {
        let ghost before = digits.take(i - start);
        let ghost after = digits.take(i - start + 1);
        proof {
            assert(after.drop_last() =~= before);
            assert(after.last() == s@[i as int]);
        }
        match digit_of(chars[i]) {
            None => {
                proof {
                    assert(!is_digit(digits[i - start]));
                }
                return None;
            },
            Some(d) => {
                if acc > (limit - d) / 10 {
                    proof {
                        assert(digits_value(after) > limit);
                        if all_digits(digits) {
                            lemma_digits_value_prefix(digits, i - start + 1);
                        }
                    }
                    return None;
                }
                acc = acc * 10 + d;
                proof {
                    assert forall|j: int| 0 <= j < after.len() implies is_digit(
                        #[trigger] after[j],
                    ) by {
                        if j < before.len() {
                            assert(after[j] == before[j]);
                        }
                    }
                }
            },
        }
        i += 1;
    }
    proof {
        assert(digits.take(n - start) =~= digits);
    }
    if negative {
        if acc == 0x8000_0000_0000_0000_0000_0000_0000_0000 {
            Some(i128::MIN)
        } else {
            Some(-(acc as i128))
        }
    } else {
        Some(acc as i128)
    }
}

/// Reads `s` as a signed 64-bit decimal integer.
pub fn parse_i64(s: &str) -> (r: Option<i64>)
    ensures
        r == parse_integer(s@),
{
    match parse_i128(s) {
        Some(n) => if n >= -0x8000_0000_0000_0000 && n <= 0x7fff_ffff_ffff_ffff {
            Some(n as i64)
        } else {
            None
        },
        None => None,
    }
}

/// The first position at or after `i` that does not hold a decimal digit.
pub open spec fn digits_end(s: Seq<char>, i: int) -> int
    decreases s.len() - i,
{
    if 0 <= i < s.len() && is_digit(s[i]) {
        digits_end(s, i + 1)
    } else {
        i
    }
}

/// Where an exponent that starts at `i` ends: after `e` or `E`, an optional
/// sign and one or more digits. `None` where no exponent starts at `i`, or
/// one starts and has no digits.
pub open spec fn exponent_end(s: Seq<char>, i: int) -> Option<int> {
    if 0 <= i < s.len() && (s[i] == 'e' || s[i] == 'E') {
        let j = if i + 1 < s.len() && (s[i + 1] == '+' || s[i + 1] == '-') {
            i + 2
        } else {
            i + 1
        };
        if digits_end(s, j) > j {
            Some(digits_end(s, j))
        } else {
            None
        }
    } else {
        None
    }
}

/// `s` is a JSON number literal: an optional `-`, an integer part without
/// leading zeros, an optional fraction of one or more digits, an optional
/// exponent.
pub open spec fn is_json_number(s: Seq<char>) -> bool {
    let start = if s.len() > 0 && s[0] == '-' {
        1int
    } else {
        0int
    };
    let int_end = digits_end(s, start);
    let frac_end = if int_end < s.len() && s[int_end] == '.' {
        digits_end(s, int_end + 1)
    } else {
        int_end
    };
    &&& int_end > start
    &&& s[start] == '0' ==> int_end == start + 1
    &&& (int_end < s.len() && s[int_end] == '.') ==> frac_end > int_end + 1
    &&& frac_end == s.len() || exponent_end(s, frac_end) == Some(s.len() as int)
}

/// `c` in lower case, for the letters of `inf`, `infinity` and `nan`; any
/// other character is left as it is.
pub open spec fn lower(c: char) -> char {
    if c == 'I' {
        'i'
    } else if c == 'N' {
        'n'
    } else if c == 'F' {
        'f'
    } else if c == 'T' {
        't'
    } else if c == 'Y' {
        'y'
    } else if c == 'A' {
        'a'
    } else {
        c
    }
}

/// `s` from position `start` on is `word`, letter case aside (`word` is in
/// lower case and made of the letters of `inf`, `infinity` and `nan`).
pub open spec fn is_word(s: Seq<char>, start: int, word: Seq<char>) -> bool {
    &&& s.len() - start == word.len()
    &&& forall|j: int| 0 <= j < word.len() ==> lower(#[trigger] s[start + j]) == word[j]
}

/// `s` is a floating-point literal: an optional sign, then `inf`, `infinity`
/// or `nan` in any letter case, or digits with an optional point (at least
/// one digit before or after it) and an optional exponent.
pub open spec fn is_float_literal(s: Seq<char>) -> bool {
    let start = if has_sign(s) {
        1int
    } else {
        0int
    };
    let int_end = digits_end(s, start);
    let has_point = int_end < s.len() && s[int_end] == '.';
    let frac_start = if has_point {
        int_end + 1
    } else {
        int_end
    };
    let frac_end = digits_end(s, frac_start);
    ||| is_word(s, start, seq!['i', 'n', 'f'])
    ||| is_word(s, start, seq!['i', 'n', 'f', 'i', 'n', 'i', 't', 'y'])
    ||| is_word(s, start, seq!['n', 'a', 'n'])
    ||| {
        &&& (int_end - start) + (frac_end - frac_start) > 0
        &&& frac_end == s.len() || exponent_end(s, frac_end) == Some(s.len() as int)
    }
}

fn is_digit_char(c: char) -> (r: bool)
    ensures
        r == is_digit(c),
{
    c >= '0' && c <= '9'
}

fn scan_digits(chars: &Vec<char>, i: usize) -> (r: usize)
    requires
        i <= chars.len(),
    ensures
        r == digits_end(chars@, i as int),
        i <= r <= chars.len(),
{
    let mut j = i;
    while j < chars.len() && is_digit_char(chars[j])
        invariant
            i <= j <= chars.len(),
            digits_end(chars@, i as int) == digits_end(chars@, j as int),
        decreases chars.len() - j,
    {
        j += 1;
    }
    j
}

fn scan_exponent(chars: &Vec<char>, i: usize) -> (r: Option<usize>)
    requires
        i <= chars.len(),
    ensures
        match r {
            Some(e) => exponent_end(chars@, i as int) == Some(e as int) && e <= chars.len(),
            None => exponent_end(chars@, i as int) is None,
        },
{
    let n = chars.len();
    if i < n && (chars[i] == 'e' || chars[i] == 'E') {
        let j = if i + 1 < n && (chars[i + 1] == '+' || chars[i + 1] == '-') {
            i + 2
        } else {
            i + 1
        };
        let e = scan_digits(chars, j);
        if e > j {
            Some(e)
        } else {
            None
        }
    } else {
        None
    }
}

/// Whether `s` is a JSON number literal.
pub fn json_number(s: &str) -> (r: bool)
    ensures
        r == is_json_number(s@),
{
    let chars = chars_of(s);
    let n = chars.len();
    let start: usize = if n > 0 && chars[0] == '-' {
        1
    } else {
        0
    };
    let int_end = scan_digits(&chars, start);
    if int_end == start {
        return false;
    }
    if chars[start] == '0' && int_end != start + 1 {
        return false;
    }
    let mut frac_end = int_end;
    if int_end < n && chars[int_end] == '.' {
        frac_end = scan_digits(&chars, int_end + 1);
        if frac_end == int_end + 1 {
            return false;
        }
    }
    if frac_end == n {
        return true;
    }
    match scan_exponent(&chars, frac_end) {
        Some(e) => e == n,
        None => false,
    }
}

fn lower_char(c: char) -> (r: char)
    ensures
        r == lower(c),
{
    if c == 'I' {
        'i'
    } else if c == 'N' {
        'n'
    } else if c == 'F' {
        'f'
    } else if c == 'T' {
        't'
    } else if c == 'Y' {
        'y'
    } else if c == 'A' {
        'a'
    } else {
        c
    }
}

fn word_at(chars: &Vec<char>, start: usize, word: &Vec<char>) -> (r: bool)
    requires
        start <= chars.len(),
    ensures
        r == is_word(chars@, start as int, word@),
{
    if chars.len() - start != word.len() {
        return false;
    }
    let mut j: usize = 0;
    while j < word.len()
        invariant
            start <= chars.len(),
            chars.len() - start == word.len(),
            j <= word.len(),
            forall|k: int| 0 <= k < j ==> lower(#[trigger] chars@[start + k]) == word@[k],
        decreases word.len() - j,
    {
        if lower_char(chars[start + j]) != word[j] {
            return false;
        }
        j += 1;
    }
    true
}

/// Whether `s` is a floating-point literal.
pub fn float_literal(s: &str) -> (r: bool)
    ensures
        r == is_float_literal(s@),
{
    let chars = chars_of(s);
    let n = chars.len();
    let start: usize = if n > 0 && (chars[0] == '-' || chars[0] == '+') {
        1
    } else {
        0
    };
    let inf: Vec<char> = vec!['i', 'n', 'f'];
    let infinity: Vec<char> = vec!['i', 'n', 'f', 'i', 'n', 'i', 't', 'y'];
    let nan: Vec<char> = vec!['n', 'a', 'n'];
    proof {
        assert(inf@ =~= seq!['i', 'n', 'f']);
        assert(infinity@ =~= seq!['i', 'n', 'f', 'i', 'n', 'i', 't', 'y']);
        assert(nan@ =~= seq!['n', 'a', 'n']);
    }
    if word_at(&chars, start, &inf) || word_at(&chars, start, &infinity) || word_at(
        &chars,
        start,
        &nan,
    ) {
        return true;
    }
    let int_end = scan_digits(&chars, start);
    let frac_start: usize = if int_end < n && chars[int_end] == '.' {
        int_end + 1
    } else {
        int_end
    };
    let frac_end = scan_digits(&chars, frac_start);
    if (int_end - start) + (frac_end - frac_start) == 0 {
        return false;
    }
    if frac_end == n {
        return true;
    }
    match scan_exponent(&chars, frac_end) {
        Some(e) => e == n,
        None => false,
    }
}

/// The decimal rendering of the integer `n`: a `-` where it is negative, then
/// its magnitude.
pub open spec fn integer_text(n: int) -> Seq<char> {
    if n < 0 {
        seq!['-'] + decimal((-n) as nat)
    } else {
        decimal(n as nat)
    }
}

/// A decimal rendering is one or more digits, and starts with `0` only
/// where it is `0`.
pub proof fn lemma_decimal_shape(n: nat)
    ensures
        decimal(n).len() >= 1,
        all_digits(decimal(n)),
        decimal(n)[0] == '0' ==> n == 0 && decimal(n).len() == 1,
    decreases n,
{
    if n >= 10 {
        lemma_decimal_shape(n / 10);
        let head = decimal(n / 10);
        assert forall|i: int| 0 <= i < decimal(n).len() implies is_digit(
            #[trigger] decimal(n)[i],
        ) by {
            if i < head.len() {
                assert(decimal(n)[i] == head[i]);
            }
        }
        assert(decimal(n)[0] == head[0]);
    }
}

/// Where every position from `i` on holds a digit, the digits end with the
/// text.
pub proof fn lemma_digits_to_the_end(s: Seq<char>, i: int)
    requires
        0 <= i <= s.len(),
        forall|j: int| i <= j < s.len() ==> is_digit(#[trigger] s[j]),
    ensures
        digits_end(s, i) == s.len(),
    decreases s.len() - i,
{
    if i < s.len() {
        assert(is_digit(s[i]));
        lemma_digits_to_the_end(s, i + 1);
    }
}

/// The decimal rendering of an integer is a JSON number literal.
pub proof fn lemma_integer_text_is_json_number(n: int)
    ensures
        is_json_number(integer_text(n)),
{
    let s = integer_text(n);
    if n < 0 {
        let d = decimal((-n) as nat);
        lemma_decimal_shape((-n) as nat);
        assert forall|j: int| 1 <= j < s.len() implies is_digit(#[trigger] s[j]) by {
            assert(s[j] == d[j - 1]);
        }
        lemma_digits_to_the_end(s, 1);
        assert(s[1] == d[0]);
    } else {
        lemma_decimal_shape(n as nat);
        lemma_digits_to_the_end(s, 0);
    }
}

/// The decimal rendering of `n`.
pub fn wide_integer_to_text(n: i128) -> (r: String)
    ensures
        r@ == integer_text(n as int),
{
    let mut out = String::new();
    let magnitude: u128 = if n == i128::MIN {
        0x8000_0000_0000_0000_0000_0000_0000_0000
    } else if n < 0 {
        (-n) as u128
    } else {
        n as u128
    };
    if n < 0 {
        out.push('-');
    }
    push_decimal(&mut out, magnitude);
    proof {
        assert(out@ =~= integer_text(n as int));
    }
    out
}

/// The decimal rendering of `n`.
pub fn integer_to_text(n: i64) -> (r: String)
    ensures
        r@ == integer_text(n as int),
{
    wide_integer_to_text(n as i128)
}

} // verus!
