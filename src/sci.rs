//! Numbers in exponent notation (`1.5e2`, `25E-1`) and the words `inf`,
//! `infinity` and `nan`.
use vstd::prelude::*;
use vstd::arithmetic::div_mod::lemma_div_denominator;
use vstd::string::StrSliceExecFns;
use crate::fixed::{
    all_digits, decimal_nano, digit_of, digits_value, dot_from, frac_part, int_part, is_decimal,
    is_digit, is_negative, parse_decimal_prefix, pow10, sign_len, Decimal,
};

verus! {

/// Index of the first `e` or `E` at or after `i`, or the length.
pub open spec fn exp_from(s: Seq<char>, i: int) -> int
    decreases s.len() - i,
{
    if i >= s.len() {
        s.len() as int
    } else if s[i] == 'e' || s[i] == 'E' {
        i
    } else {
        exp_from(s, i + 1)
    }
}

pub open spec fn exp_pos(s: Seq<char>) -> int {
    exp_from(s, 0)
}

pub open spec fn has_exponent(s: Seq<char>) -> bool {
    exp_pos(s) < s.len()
}

pub open spec fn mantissa(s: Seq<char>) -> Seq<char> {
    s.take(exp_pos(s))
}

pub open spec fn exponent_text(s: Seq<char>) -> Seq<char> {
    s.skip(exp_pos(s) + 1)
}

/// The digits of an exponent: the text without one leading sign.
pub open spec fn exponent_digits(t: Seq<char>) -> Seq<char> {
    if t.len() > 0 && (t[0] == '+' || t[0] == '-') {
        t.drop_first()
    } else {
        t
    }
}

pub open spec fn is_exponent(t: Seq<char>) -> bool {
    exponent_digits(t).len() > 0 && all_digits(exponent_digits(t))
}

pub open spec fn exponent_value(t: Seq<char>) -> int {
    if t.len() > 0 && t[0] == '-' {
        -digits_value(exponent_digits(t))
    } else {
        digits_value(exponent_digits(t)) as int
    }
}

/// A decimal mantissa followed by `e` or `E` and a signed integer exponent.
pub open spec fn is_scientific(s: Seq<char>) -> bool {
    has_exponent(s) && is_decimal(mantissa(s)) && is_exponent(exponent_text(s))
}

/// All digits of a decimal mantissa, without sign and point.
pub open spec fn mantissa_digits(m: Seq<char>) -> Seq<char> {
    int_part(m) + frac_part(m)
}

/// The magnitude of `m * 10^e` in nano units, rounded down: the mantissa's
/// digits as an integer, times `10^(9 + e - fraction digits)`.
pub open spec fn scaled_nano(m: Seq<char>, e: int) -> nat {
    drop_digits(digits_value(mantissa_digits(m)), frac_part(m).len() - 9 - e)
}

/// `v / 10^k`, rounded down; for negative `k`, `v * 10^-k`.
pub open spec fn drop_digits(v: nat, k: int) -> nat {
    if k <= 0 {
        v * pow10((-k) as nat)
    } else {
        v / pow10(k as nat)
    }
}

pub open spec fn scientific_nano(s: Seq<char>) -> nat {
    scaled_nano(mantissa(s), exponent_value(exponent_text(s)))
}

/// `c` is the lower-case letter `w` or its upper-case form.
pub open spec fn same_letter(c: char, w: char) -> bool {
    c == w || ('A' <= c && c <= 'Z' && c as u32 + 32 == w as u32)
}

/// `t` equals the lower-case `word` when letters are compared without case.
pub open spec fn same_word(t: Seq<char>, word: Seq<char>) -> bool {
    t.len() == word.len() && forall|i: int| 0 <= i < t.len() ==> same_letter(#[trigger] t[i], word[i])
}

/// A plain decimal or a number in exponent notation.
pub open spec fn is_number(s: Seq<char>) -> bool {
    if has_exponent(s) {
        is_scientific(s)
    } else {
        is_decimal(s)
    }
}

/// The magnitude of a number in nano units, rounded down.
pub open spec fn number_nano(s: Seq<char>) -> nat {
    if has_exponent(s) {
        scientific_nano(s)
    } else {
        decimal_nano(s)
    }
}

/// `inf`, `infinity` or `nan`, in any case, with an optional sign.
pub open spec fn is_special(s: Seq<char>) -> bool {
    let w = s.skip(sign_len(s));
    same_word(w, "inf"@) || same_word(w, "infinity"@) || same_word(w, "nan"@)
}

proof fn lemma_pow10_positive(n: nat)
    ensures
        pow10(n) >= 1,
    decreases n,
{
    if n > 0 {
        lemma_pow10_positive((n - 1) as nat);
    }
}

proof fn lemma_pow10_mono(a: nat, b: nat)
    requires
        a <= b,
    ensures
        pow10(a) <= pow10(b),
    decreases b,
{
    if a < b {
        lemma_pow10_mono(a, (b - 1) as nat);
        lemma_pow10_positive((b - 1) as nat);
    }
}

proof fn lemma_digits_below_pow(d: Seq<char>)
    ensures
        digits_value(d) < pow10(d.len()),
    decreases d.len(),
{
    if d.len() > 0 {
        lemma_digits_below_pow(d.drop_last());
        let v = digits_value(d.drop_last());
        let p = pow10((d.len() - 1) as nat);
        assert(digit_of(d.last()) <= 9);
        assert(v * 10 + digit_of(d.last()) < 10 * p) by (nonlinear_arith)
            requires v < p, digit_of(d.last()) <= 9;
    }
}

/// Dropping `k` trailing digits divides by `10^k`.
proof fn lemma_drop_digits(d: Seq<char>, k: nat)
    requires
        k <= d.len(),
    ensures
        digits_value(d) / pow10(k) == digits_value(d.take(d.len() - k)),
    decreases k,
{
    if k == 0 {
        assert(d.take(d.len() as int) =~= d);
        assert(pow10(0) == 1);
    } else {
        let head = d.drop_last();
        lemma_drop_digits(head, (k - 1) as nat);
        assert(head.take(head.len() - (k - 1)) =~= d.take(d.len() - k));
        let v = digits_value(d);
        let h = digits_value(head);
        let l = digit_of(d.last());
        assert(l <= 9);
        assert(v == h * 10 + l);
        assert((h * 10 + l) / 10 == h) by (nonlinear_arith)
            requires l <= 9;
        let p = pow10((k - 1) as nat);
        lemma_pow10_positive((k - 1) as nat);
        lemma_div_denominator(v as int, 10, p as int);
        assert(pow10(k) == 10 * p);
        assert(v / pow10(k) == (v / 10) / p);
        assert(h / p == digits_value(head.take(head.len() - (k - 1))));
        assert(head.len() - (k - 1) == d.len() - k);
    }
}

proof fn lemma_digits_prefix_le(s: Seq<char>, n: int)
    requires
        0 <= n <= s.len(),
    ensures
        digits_value(s) >= digits_value(s.take(n)),
    decreases s.len(),
{
    if n < s.len() {
        assert(s.drop_last().take(n) =~= s.take(n));
        lemma_digits_prefix_le(s.drop_last(), n);
    } else {
        assert(s.take(n) =~= s);
    }
}

/// Position of the first `e`/`E` in the first `end` characters.
fn find_exponent(s: &str, end: usize) -> (r: usize)
    requires
        end <= s@.len(),
    ensures
        r == exp_pos(s@.take(end as int)),
        r <= end,
{
    let ghost t = s@.take(end as int);
    let mut i: usize = 0;
    while i < end && s.get_char(i) != 'e' && s.get_char(i) != 'E'
        invariant
            t == s@.take(end as int),
            end <= s@.len(),
            i <= end,
            exp_from(t, 0) == exp_from(t, i as int),
        decreases end - i,
    {
        assert(t[i as int] == s@[i as int]);
        i = i + 1;
    }
    if i < end {
        assert(t[i as int] == s@[i as int]);
    }
    i
}

/// Position of the first `.` in `[start, end)`, or `end`.
fn find_dot(s: &str, start: usize, end: usize) -> (r: usize)
    requires
        start <= end <= s@.len(),
    ensures
        r == dot_from(s@.take(end as int), start as int),
        start <= r <= end,
{
    let ghost t = s@.take(end as int);
    let mut i: usize = start;
    while i < end && s.get_char(i) != '.'
        invariant
            t == s@.take(end as int),
            end <= s@.len(),
            start <= i <= end,
            dot_from(t, start as int) == dot_from(t, i as int),
        decreases end - i,
    {
        assert(t[i as int] == s@[i as int]);
        i = i + 1;
    }
    if i < end {
        assert(t[i as int] == s@[i as int]);
    }
    i
}

/// Appends the characters of `s` in `[from, to)`.
fn push_range(v: &mut Vec<char>, s: &str, from: usize, to: usize)
    requires
        from <= to <= s@.len(),
    ensures
        final(v)@ == old(v)@ + s@.subrange(from as int, to as int),
{
    let mut i = from;
    while i < to
        invariant
            from <= i <= to <= s@.len(),
            v@ == old(v)@ + s@.subrange(from as int, i as int),
        decreases to - i,
    {
        let c = s.get_char(i);
        v.push(c);
        assert(s@.subrange(from as int, i + 1) =~= s@.subrange(from as int, i as int).push(c));
        i = i + 1;
    }
}

/// The value of a digit string, or `None` when it exceeds `u64::MAX`.
fn digits_to_u64(d: &Vec<char>, n: usize) -> (r: Option<u64>)
    requires
        n <= d@.len(),
    ensures
        r matches Some(v) ==> v == digits_value(d@.take(n as int)),
        r is None ==> digits_value(d@.take(n as int)) > u64::MAX,
{
    let mut v: u64 = 0;
    let mut i: usize = 0;
    while i < n
        invariant
            n <= d@.len(),
            i <= n,
            v == digits_value(d@.take(i as int)),
        decreases n - i,
    {
        let c = d[i];
        let dv: u64 = if '0' <= c && c <= '9' {
            (c as u32 - '0' as u32) as u64
        } else {
            0
        };
        let ghost next = d@.take(i + 1);
        assert(next.drop_last() =~= d@.take(i as int));
        assert(next.last() == c);
        assert(dv == digit_of(c));
        if v > (u64::MAX - dv) / 10 {
            proof {
                lemma_digits_prefix_le(d@.take(n as int), i + 1);
                assert(d@.take(n as int).take(i + 1) =~= next);
            }
            return None;
        }
        v = v * 10 + dv;
        i = i + 1;
    }
    Some(v)
}

/// Magnitude of an exponent text saturated at `cap`, or `None` when it is
/// not a signed integer.
fn read_exponent(s: &str, from: usize, end: usize, cap: u128) -> (r: Option<(bool, u128)>)
    requires
        from <= end <= s@.len(),
    ensures
        ({
            let t = s@.subrange(from as int, end as int);
            match r {
                None => !is_exponent(t),
                Some((neg, m)) => is_exponent(t) && neg == (t[0] == '-') && m <= cap && (m == digits_value(
                    exponent_digits(t),
                ) || (m == cap && digits_value(exponent_digits(t)) >= cap)),
            }
        }),
{
    let ghost t = s@.subrange(from as int, end as int);
    if from == end {
        return None;
    }
    let c0 = s.get_char(from);
    assert(t[0] == c0);
    let neg = c0 == '-';
    let start: usize = if c0 == '-' || c0 == '+' {
        from + 1
    } else {
        from
    };
    let ghost d = exponent_digits(t);
    assert(d =~= s@.subrange(start as int, end as int));
    if start == end {
        return None;
    }
    let mut m: u128 = 0;
    let mut sat = false;
    let mut i = start;
    while i < end
        invariant
            start <= i <= end <= s@.len(),
            d == s@.subrange(start as int, end as int),
            t == s@.subrange(from as int, end as int),
            d == exponent_digits(t),
            t.len() > 0 && neg == (t[0] == '-'),
            d.len() > 0,
            all_digits(d.take(i - start)),
            !sat ==> m == digits_value(d.take(i - start)) && m <= cap,
            sat ==> m == cap && digits_value(d.take(i - start)) >= cap,
        decreases end - i,
    {
        let c = s.get_char(i);
        assert(d[i - start] == c);
        if !('0' <= c && c <= '9') {
            assert(!is_digit(d[i - start]));
            return None;
        }
        let dv = (c as u32 - '0' as u32) as u128;
        let ghost next = d.take(i - start + 1);
        assert(next.drop_last() =~= d.take(i - start));
        assert(next.last() == c);
        assert(dv == digit_of(c));
        if !sat {
            if cap < dv || m > (cap - dv) / 10 {
                m = cap;
                sat = true;
            } else {
                m = m * 10 + dv;
            }
        } else {
            let ghost w = digits_value(d.take(i - start));
            assert(w * 10 + dv >= w) by (nonlinear_arith);
        }
        assert(all_digits(next)) by {
            assert forall|k: int| 0 <= k < next.len() implies is_digit(#[trigger] next[k]) by {
                if k < i - start {
                    assert(next[k] == d.take(i - start)[k]);
                }
            }
        }
        i = i + 1;
    }
    assert(d.take(end - start) =~= d);
    Some((neg, m))
}

fn pow10_u128(j: u64) -> (r: u128)
    requires
        j <= 19,
    ensures
        r == pow10(j as nat),
        r <= 10_000_000_000_000_000_000,
{
    let mut r: u128 = 1;
    let mut i: u64 = 0;
    while i < j
        invariant
            i <= j <= 19,
            r == pow10(i as nat),
            r <= pow10(i as nat),
        decreases j - i,
    {
        proof {
            lemma_pow10_mono((i + 1) as nat, 19);
            reveal_with_fuel(pow10, 20);
        }
        r = r * 10;
        i = i + 1;
    }
    proof {
        lemma_pow10_mono(j as nat, 19);
        reveal_with_fuel(pow10, 20);
    }
    r
}

proof fn lemma_pow10_big(j: nat)
    requires
        j >= 20,
    ensures
        pow10(j) > u64::MAX,
{
    lemma_pow10_mono(20, j);
    reveal_with_fuel(pow10, 21);
}

/// Scales the digits `d` (with `f` of them after the point) by an exponent
/// of sign `eneg` and magnitude `mag`; `a` is the exact magnitude, which
/// may exceed a saturated `mag`.
fn scale_digits(d: &Vec<char>, f: usize, eneg: bool, mag: u128, Ghost(a): Ghost<nat>, bound: usize) -> (r: Option<u64>)
    requires
        d@.len() <= bound,
        f <= bound,
        mag <= bound + 64,
        a >= mag,
        mag < bound + 64 ==> a == mag,
    ensures
        ({
            let e: int = if eneg { -a } else { a as int };
            let val = drop_digits(digits_value(d@), f - 9 - e);
            &&& r matches Some(v) ==> v == val
            &&& r is None ==> val > u64::MAX
        }),
{
    let ghost e: int = if eneg { -a } else { a as int };
    let ghost dv = digits_value(d@);
    let ghost k_true = f - 9 - e;
    let n = d.len();
    let k: i128 = if eneg {
        f as i128 - 9 + mag as i128
    } else {
        f as i128 - 9 - mag as i128
    };
    assert(k >= 0 ==> k_true >= k) by {
        if !eneg && mag == bound + 64 {
            assert(k < 0);
        }
    }
    assert(k < 0 ==> k_true <= k) by {
        if eneg && k < 0 {
            assert(mag < bound + 64);
        }
    }
    if k >= 0 {
        if k >= n as i128 {
            proof {
                lemma_digits_below_pow(d@);
                if k_true > 0 {
                    lemma_pow10_mono(n as nat, k_true as nat);
                    let pk = pow10(k_true as nat);
                    assert(dv / pk == 0) by (nonlinear_arith)
                        requires dv < pk;
                } else {
                    assert(n == 0);
                    assert(dv == 0);
                    assert(dv * pow10((-k_true) as nat) == 0);
                }
            }
            return Some(0);
        }
        proof {
            if eneg && mag == bound + 64 {
                assert(k >= n);
            }
            assert(k_true == k);
            lemma_drop_digits(d@, k as nat);
            if k == 0 {
                assert(pow10(0) == 1);
                assert(dv * 1 == dv);
                assert(d@.take(n as int) =~= d@);
                assert(drop_digits(dv, k_true) == dv);
            } else {
                assert(drop_digits(dv, k_true) == dv / pow10(k as nat));
            }
            assert(drop_digits(dv, k_true) == digits_value(d@.take(n - k)));
        }
        let keep = (n as i128 - k) as usize;
        return digits_to_u64(d, keep);
    }
    let j = (0 - k) as u128;
    assert(d@.take(n as int) =~= d@);
    let v = match digits_to_u64(d, n) {
        None => {
            proof {
                if k_true > 0 {
                    assert(false);
                }
                lemma_pow10_positive((-k_true) as nat);
                assert(dv * pow10((-k_true) as nat) >= dv) by (nonlinear_arith)
                    requires pow10((-k_true) as nat) >= 1;
            }
            return None;
        },
        Some(v) => v,
    };
    if v == 0 {
        proof {
            if k_true > 0 {
                assert(dv / pow10(k_true as nat) == 0) by {
                    lemma_pow10_positive(k_true as nat);
                }
            } else {
                assert(dv == 0);
                let pk = pow10((-k_true) as nat);
                assert(dv * pk == 0) by (nonlinear_arith)
                    requires dv == 0;
            }
        }
        return Some(0);
    }
    if j > 19 {
        proof {
            if k_true > 0 {
                assert(eneg);
                assert(false);
            }
            assert(-k_true >= j);
            lemma_pow10_big((-k_true) as nat);
            assert(dv * pow10((-k_true) as nat) >= pow10((-k_true) as nat)) by (nonlinear_arith)
                requires dv >= 1;
        }
        return None;
    }
    assert(k_true == k);
    let pw = pow10_u128(j as u64);
    assert(v as u128 * pw <= u64::MAX as u128 * 10_000_000_000_000_000_000) by (nonlinear_arith)
        requires pw <= 10_000_000_000_000_000_000;
    let total: u128 = v as u128 * pw;
    if total > u64::MAX as u128 {
        None
    } else {
        Some(total as u64)
    }
}

/// Reads a number in exponent notation held by the first `end` characters
/// of `s` (which hold an `e` or `E`).
pub fn parse_scientific_prefix(s: &str, end: usize) -> (r: Option<Decimal>)
    requires
        end <= s@.len(),
        has_exponent(s@.take(end as int)),
    ensures
        ({
            let t = s@.take(end as int);
            match r {
                None => !is_scientific(t),
                Some(Decimal::Value { negative, nano }) => is_scientific(t) && negative == (t[0]
                    == '-') && nano == scientific_nano(t),
                Some(Decimal::TooLarge { negative }) => is_scientific(t) && negative == (t[0]
                    == '-') && scientific_nano(t) > u64::MAX,
            }
        }),
{
    let ghost t = s@.take(end as int);
    let p = find_exponent(s, end);
    let ghost m = mantissa(t);
    assert(m =~= s@.subrange(0, p as int));
    assert(exponent_text(t) =~= s@.subrange(p + 1, end as int));
    let negative = match parse_decimal_prefix(s, p) {
        None => return None,
        Some(Decimal::Value { negative, nano: _ }) => negative,
        Some(Decimal::TooLarge { negative }) => negative,
    };
    assert(is_decimal(m));
    assert(m.len() > 0);
    assert(m[0] == t[0]);
    let cap: u128 = end as u128 + 64;
    let (eneg, mag) = match read_exponent(s, p + 1, end, cap) {
        None => return None,
        Some(x) => x,
    };
    assert(is_scientific(t));
    let ghost a = digits_value(exponent_digits(exponent_text(t)));
    let c0 = s.get_char(0);
    let start: usize = if c0 == '-' || c0 == '+' {
        1
    } else {
        0
    };
    assert(start == sign_len(m));
    let dp = find_dot(s, start, p);
    assert(s@.take(p as int) =~= m);
    let fstart: usize = if dp < p {
        dp + 1
    } else {
        p
    };
    let mut d: Vec<char> = Vec::new();
    push_range(&mut d, s, start, dp);
    push_range(&mut d, s, fstart, p);
    assert(int_part(m) =~= s@.subrange(start as int, dp as int));
    assert(frac_part(m) =~= s@.subrange(fstart as int, p as int));
    assert(d@ =~= mantissa_digits(m));
    let f = p - fstart;
    match scale_digits(&d, f, eneg, mag, Ghost(a), end) {
        None => Some(Decimal::TooLarge { negative }),
        Some(v) => Some(Decimal::Value { negative, nano: v }),
    }
}

/// Reads the number (plain or in exponent notation) held by the first
/// `end` characters of `s`.
pub fn parse_number_prefix(s: &str, end: usize) -> (r: Option<Decimal>)
    requires
        end <= s@.len(),
    ensures
        ({
            let t = s@.take(end as int);
            match r {
                None => !is_number(t),
                Some(Decimal::Value { negative, nano }) => is_number(t) && negative == is_negative(t)
                    && nano == number_nano(t),
                Some(Decimal::TooLarge { negative }) => is_number(t) && negative == is_negative(t)
                    && number_nano(t) > u64::MAX,
            }
        }),
{
    let ghost t = s@.take(end as int);
    assert(t =~= s@.subrange(0, end as int));
    if find_exponent(s, end) < end {
        parse_scientific_prefix(s, end)
    } else {
        parse_decimal_prefix(s, end)
    }
}

/// The characters of `s` in `[start, end)` spell `word` (lower case),
/// letters compared without case.
fn same_word_at(s: &str, start: usize, end: usize, word: &str) -> (r: bool)
    requires
        start <= end <= s@.len(),
    ensures
        r == same_word(s@.subrange(start as int, end as int), word@),
{
    let ghost t = s@.subrange(start as int, end as int);
    let n = word.unicode_len();
    if end - start != n {
        return false;
    }
    let mut i: usize = 0;
    while i < n
        invariant
            t == s@.subrange(start as int, end as int),
            n == word@.len(),
            end - start == n,
            start <= end <= s@.len(),
            i <= n,
            forall|j: int| 0 <= j < i ==> same_letter(#[trigger] t[j], word@[j]),
        decreases n - i,
    {
        let c = s.get_char(start + i);
        let w = word.get_char(i);
        assert(t[i as int] == c);
        let same = c == w || ('A' <= c && c <= 'Z' && c as u32 + 32 == w as u32);
        if !same {
            return false;
        }
        i = i + 1;
    }
    true
}

/// Whether the first `end` characters of `s` spell `inf`, `infinity` or
/// `nan`, in any case, with an optional sign.
pub fn is_special_prefix(s: &str, end: usize) -> (r: bool)
    requires
        end <= s@.len(),
    ensures
        r == is_special(s@.take(end as int)),
{
    let ghost t = s@.take(end as int);
    let start: usize = if end > 0 && (s.get_char(0) == '-' || s.get_char(0) == '+') {
        1
    } else {
        0
    };
    assert(start == sign_len(t));
    assert(t.skip(start as int) =~= s@.subrange(start as int, end as int));
    same_word_at(s, start, end, "inf") || same_word_at(s, start, end, "infinity")
        || same_word_at(s, start, end, "nan")
}

} // verus!
