//! Fixed-point decimals: nine fractional digits, stored as a `u64` count of
//! billionths ("nano units").
use vstd::prelude::*;
use vstd::string::StrSliceExecFns;

verus! {

/// One whole unit (probability 1.0) in nano units.
pub const ONE: u64 = 1_000_000_000;

pub open spec fn is_digit(c: char) -> bool {
    '0' <= c && c <= '9'
}

pub open spec fn digit_of(c: char) -> nat {
    if is_digit(c) {
        (c as nat - '0' as nat) as nat
    } else {
        0
    }
}

pub open spec fn all_digits(d: Seq<char>) -> bool {
    forall|i: int| 0 <= i < d.len() ==> #[trigger] is_digit(d[i])
}

/// The value of a string of decimal digits, most significant first.
pub open spec fn digits_value(d: Seq<char>) -> nat
    decreases d.len(),
{
    if d.len() == 0 {
        0
    } else {
        digits_value(d.drop_last()) * 10 + digit_of(d.last())
    }
}

pub open spec fn pow10(n: nat) -> nat
    decreases n,
{
    if n == 0 {
        1
    } else {
        10 * pow10((n - 1) as nat)
    }
}

/// The first `w` fractional digits `f` as an integer of `w` digits: missing
/// digits count as zero, digits beyond `w` are cut off.
pub open spec fn frac_scaled(f: Seq<char>, w: nat) -> nat
    decreases w,
{
    if w == 0 {
        0
    } else {
        let head: nat = if f.len() > 0 { digit_of(f[0]) } else { 0 };
        let tail = if f.len() > 0 { f.drop_first() } else { f };
        head * pow10((w - 1) as nat) + frac_scaled(tail, (w - 1) as nat)
    }
}

/// Length of a leading sign character (`+` or `-`), if any.
pub open spec fn sign_len(s: Seq<char>) -> int {
    if s.len() > 0 && (s[0] == '-' || s[0] == '+') {
        1
    } else {
        0
    }
}

pub open spec fn is_negative(s: Seq<char>) -> bool {
    s.len() > 0 && s[0] == '-'
}

/// Index of the first `.` at or after `i`, or the length when there is none.
pub open spec fn dot_from(s: Seq<char>, i: int) -> int
    decreases s.len() - i,
{
    if i >= s.len() {
        s.len() as int
    } else if s[i] == '.' {
        i
    } else {
        dot_from(s, i + 1)
    }
}

pub open spec fn dot_pos(s: Seq<char>) -> int {
    dot_from(s, sign_len(s))
}

pub open spec fn int_part(s: Seq<char>) -> Seq<char> {
    s.subrange(sign_len(s), dot_pos(s))
}

pub open spec fn frac_part(s: Seq<char>) -> Seq<char> {
    if dot_pos(s) < s.len() {
        s.subrange(dot_pos(s) + 1, s.len() as int)
    } else {
        Seq::empty()
    }
}

/// A plain decimal number: an optional sign, digits, and at most one `.`,
/// with at least one digit in all.
pub open spec fn is_decimal(s: Seq<char>) -> bool {
    &&& all_digits(int_part(s))
    &&& all_digits(frac_part(s))
    &&& int_part(s).len() + frac_part(s).len() > 0
}

/// The magnitude of a decimal in nano units, truncated after nine
/// fractional digits.
pub open spec fn decimal_nano(s: Seq<char>) -> nat {
    digits_value(int_part(s)) * (ONE as nat) + frac_scaled(frac_part(s), 9)
}

/// A decimal number read from text.
#[derive(Clone, Copy, Debug, PartialEq, Eq)]
pub enum Decimal {
    /// The magnitude fits in nano units.
    Value { negative: bool, nano: u64 },
    /// The magnitude is beyond `u64::MAX` nano units.
    TooLarge { negative: bool },
}


/// Integer parts above this bound put a decimal beyond `u64::MAX` nano units.
pub const INT_LIMIT: u64 = 100_000_000_000;

pub open spec fn remaining_width(k: int) -> nat {
    if k <= 9 {
        (9 - k) as nat
    } else {
        0
    }
}

pub proof fn lemma_frac_scaled_bound(f: Seq<char>, w: nat)
    ensures
        frac_scaled(f, w) < pow10(w),
    decreases w,
{
    if w > 0 {
        let tail = if f.len() > 0 { f.drop_first() } else { f };
        lemma_frac_scaled_bound(tail, (w - 1) as nat);
        let head: nat = if f.len() > 0 { digit_of(f[0]) } else { 0 };
        assert(head <= 9);
        let p = pow10((w - 1) as nat);
        assert(head * p <= 9 * p) by (nonlinear_arith)
            requires head <= 9;
    }
}

proof fn lemma_frac_scaled_empty(f: Seq<char>, w: nat)
    requires
        f.len() == 0,
    ensures
        frac_scaled(f, w) == 0,
    decreases w,
{
    if w > 0 {
        lemma_frac_scaled_empty(f, (w - 1) as nat);
    }
}

/// Reads the decimal number held by the first `end` characters of `s`.
pub fn parse_decimal_prefix(s: &str, end: usize) -> (r: Option<Decimal>)
    requires
        end <= s@.len(),
    ensures
        ({
            let t = s@.subrange(0, end as int);
            match r {
                None => !is_decimal(t),
                Some(Decimal::Value { negative, nano }) => is_decimal(t) && negative == is_negative(t)
                    && nano == decimal_nano(t),
                Some(Decimal::TooLarge { negative }) => is_decimal(t) && negative == is_negative(t)
                    && decimal_nano(t) > u64::MAX,
            }
        }),
{
    let ghost t = s@.subrange(0, end as int);
    let mut i: usize = 0;
    let mut negative = false;
    if end > 0 {
        let c = s.get_char(0);
        if c == '-' {
            negative = true;
            i = 1;
        } else if c == '+' {
            i = 1;
        }
    }
    let start = i;
    assert(start == sign_len(t));
    assert(negative == is_negative(t));
    let mut int_val: u64 = 0;
    let mut over = false;
    while i < end && s.get_char(i) != '.'
        invariant
            t == s@.subrange(0, end as int),
            end <= s@.len(),
            start == sign_len(t),
            start <= i <= end,
            dot_from(t, start as int) == dot_from(t, i as int),
            all_digits(t.subrange(start as int, i as int)),
            !over ==> int_val == digits_value(t.subrange(start as int, i as int)),
            !over ==> int_val <= INT_LIMIT,
            over ==> digits_value(t.subrange(start as int, i as int)) > INT_LIMIT,
        decreases end - i,
    {
        let c = s.get_char(i);
        assert(t[i as int] == c);
        if !('0' <= c && c <= '9') {
            assert(dot_pos(t) == dot_from(t, i as int)) by {
                assert(t[i as int] != '.');
            }
            proof {
                lemma_dot_from_ge(t, start as int);
                lemma_dot_from_after(t, i as int);
                assert(int_part(t)[i - start] == c);
                assert(!is_digit(int_part(t)[i - start]));
            }
            return None;
        }
        let ghost prev = t.subrange(start as int, i as int);
        let ghost next = t.subrange(start as int, i + 1);
        assert(next.drop_last() =~= prev);
        assert(next.last() == c);
        let d = (c as u32 - '0' as u32) as u64;
        assert(d == digit_of(c));
        if !over {
            int_val = int_val * 10 + d;
            if int_val > INT_LIMIT {
                over = true;
            }
        } else {
            let ghost v = digits_value(prev);
            assert(v * 10 + d >= v) by (nonlinear_arith);
        }
        assert(all_digits(next)) by {
            assert forall|k: int| 0 <= k < next.len() implies is_digit(next[k]) by {
                if k < prev.len() {
                    assert(next[k] == prev[k]);
                }
            }
        }
        i = i + 1;
    }
    assert(dot_pos(t) == i);
    proof {
        lemma_dot_from_ge(t, start as int);
    }
    assert(int_part(t) =~= t.subrange(start as int, i as int));
    let dp = i;
    // fractional digits
    let mut acc: u64 = 0;
    let mut place: u64 = 100_000_000;
    let fstart: usize = if dp < end { dp + 1 } else { end };
    let mut j: usize = fstart;
    let mut taken: usize = 0;
    let ghost f = frac_part(t);
    assert(f =~= t.subrange(j as int, end as int));
    assert(f.skip(0) =~= f);
    proof {
        reveal_with_fuel(pow10, 9);
    }
    assert(place == pow10(8));
    while j < end
        invariant
            t == s@.subrange(0, end as int),
            end <= s@.len(),
            f == frac_part(t),
            fstart <= j <= end,
            f == t.subrange(fstart as int, end as int),
            taken == j - fstart,
            all_digits(f.subrange(0, taken as int)),
            acc + frac_scaled(f.skip(taken as int), remaining_width(taken as int))
                == frac_scaled(f, 9),
            remaining_width(taken as int) > 0 ==> place == pow10(
                (remaining_width(taken as int) - 1) as nat,
            ),
            acc <= frac_scaled(f, 9),
        decreases end - j,
    {
        let ghost k = taken as int;
        let c = s.get_char(j);
        assert(t[j as int] == c);
        assert(f[k] == c);
        if !('0' <= c && c <= '9') {
            assert(!is_digit(f[k]));
            return None;
        }
        let d = (c as u32 - '0' as u32) as u64;
        let ghost w = remaining_width(k);
        let ghost rest = f.skip(k);
        assert(rest.drop_first() =~= f.skip(k + 1));
        assert(rest[0] == c);
        if taken < 9 {
            assert(frac_scaled(rest, w) == d * pow10((w - 1) as nat) + frac_scaled(
                f.skip(k + 1),
                (w - 1) as nat,
            ));
            assert(remaining_width(k + 1) == w - 1);
            proof {
                lemma_frac_scaled_bound(f, 9);
                reveal_with_fuel(pow10, 9);
            }
            assert(frac_scaled(f, 9) < ONE);
            assert(acc + d * place <= frac_scaled(f, 9));
            acc = acc + d * place;
            if taken < 8 {
                assert(pow10((w - 1) as nat) == 10 * pow10((w - 2) as nat));
            }
            place = place / 10;
        } else {
            assert(remaining_width(k + 1) == 0);
        }
        let ghost grown = f.subrange(0, k + 1);
        assert(all_digits(grown)) by {
            assert forall|x: int| 0 <= x < k + 1 implies is_digit(#[trigger] grown[x]) by {
                if x < k {
                    assert(grown[x] == f.subrange(0, k)[x]);
                }
            }
        }
        j = j + 1;
        taken = taken + 1;
    }
    assert(f.subrange(0, f.len() as int) =~= f);
    proof {
        lemma_frac_scaled_empty(f.skip(taken as int), remaining_width(taken as int));
    }
    assert(acc == frac_scaled(f, 9));
    assert(all_digits(f));
    assert(f.len() == taken);
    if dp == start && taken == 0 {
        assert(int_part(t).len() == 0);
        return None;
    }
    assert(is_decimal(t));
    if over {
        let ghost v = digits_value(int_part(t));
        assert(v * (ONE as nat) > u64::MAX) by (nonlinear_arith)
            requires v > INT_LIMIT;
        return Some(Decimal::TooLarge { negative });
    }
    let total: u128 = int_val as u128 * ONE as u128 + acc as u128;
    if total > u64::MAX as u128 {
        Some(Decimal::TooLarge { negative })
    } else {
        Some(Decimal::Value { negative, nano: total as u64 })
    }
}

proof fn lemma_dot_from_after(t: Seq<char>, i: int)
    requires
        0 <= sign_len(t) <= i < t.len(),
        t[i] != '.',
        dot_from(t, sign_len(t)) == dot_from(t, i),
    ensures
        dot_pos(t) > i,
{
    lemma_dot_from_ge(t, i + 1);
}

proof fn lemma_dot_from_ge(t: Seq<char>, i: int)
    requires
        0 <= i <= t.len(),
    ensures
        i <= dot_from(t, i) <= t.len(),
    decreases t.len() - i,
{
    if i < t.len() && t[i] != '.' {
        lemma_dot_from_ge(t, i + 1);
    }
}

} // verus!
