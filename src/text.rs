//! Decimal text of fixed-point values.
use vstd::prelude::*;
use vstd::string::StrSliceExecFns;
use crate::fixed::ONE;

verus! {

/// Relies on `String::push`: appends one character.
#[verifier::external_body]
pub(crate) fn push_char(s: &mut String, c: char)
    ensures
        final(s)@ == old(s)@.push(c),
{
    s.push(c)
}

pub open spec fn digit_char(d: nat) -> char {
    if d == 0 {
        '0'
    } else if d == 1 {
        '1'
    } else if d == 2 {
        '2'
    } else if d == 3 {
        '3'
    } else if d == 4 {
        '4'
    } else if d == 5 {
        '5'
    } else if d == 6 {
        '6'
    } else if d == 7 {
        '7'
    } else if d == 8 {
        '8'
    } else {
        '9'
    }
}

/// Decimal digits of `n`, without leading zeros.
pub open spec fn nat_text(n: nat) -> Seq<char>
    decreases n,
{
    if n < 10 {
        seq![digit_char(n)]
    } else {
        nat_text(n / 10).push(digit_char(n % 10))
    }
}

/// The `w` lowest decimal digits of `n`, padded with leading zeros.
pub open spec fn padded_text(n: nat, w: nat) -> Seq<char>
    decreases w,
{
    if w == 0 {
        Seq::empty()
    } else {
        padded_text(n / 10, (w - 1) as nat).push(digit_char(n % 10))
    }
}

/// `s` without its trailing zeros.
pub open spec fn trim_zeros(s: Seq<char>) -> Seq<char>
    decreases s.len(),
{
    if s.len() > 0 && s.last() == '0' {
        trim_zeros(s.drop_last())
    } else {
        s
    }
}

pub open spec fn zeros(k: nat) -> Seq<char> {
    Seq::new(k, |i: int| '0')
}

/// Fractional digits shown for a precision of `k` digits: the nine stored
/// digits cut (not rounded) to `k`, or padded with zeros beyond nine.
pub open spec fn shown_fraction(frac: Seq<char>, k: nat) -> Seq<char> {
    if k <= 9 {
        frac.take(k as int)
    } else {
        frac + zeros((k - 9) as nat)
    }
}

/// Decimal text of `num` nano units: all significant digits when no
/// precision is given, else exactly `k` fractional digits, truncated.
pub open spec fn fixed_text(num: nat, precision: Option<usize>) -> Seq<char> {
    let whole = nat_text(num / (ONE as nat));
    let frac = padded_text(num % (ONE as nat), 9);
    match precision {
        Some(k) => if k == 0 {
            whole
        } else {
            whole + seq!['.'] + shown_fraction(frac, k as nat)
        },
        None => if num % (ONE as nat) == 0 {
            whole
        } else {
            whole + seq!['.'] + trim_zeros(frac)
        },
    }
}

fn digit_to_char(d: u64) -> (c: char)
    requires
        d < 10,
    ensures
        c == digit_char(d as nat),
{
    if d == 0 {
        '0'
    } else if d == 1 {
        '1'
    } else if d == 2 {
        '2'
    } else if d == 3 {
        '3'
    } else if d == 4 {
        '4'
    } else if d == 5 {
        '5'
    } else if d == 6 {
        '6'
    } else if d == 7 {
        '7'
    } else if d == 8 {
        '8'
    } else {
        '9'
    }
}

pub(crate) fn push_nat(s: &mut String, n: u128)
    ensures
        final(s)@ == old(s)@ + nat_text(n as nat),
    decreases n,
{
    if n >= 10 {
        push_nat(s, n / 10);
    }
    push_char(s, digit_to_char((n % 10) as u64));
    proof {
        if n < 10 {
            assert(old(s)@ + nat_text(n as nat) =~= old(s)@.push(digit_char(n as nat)));
        } else {
            assert(old(s)@ + nat_text(n as nat) =~= (old(s)@ + nat_text((n / 10) as nat)).push(
                digit_char((n % 10) as nat),
            ));
        }
    }
}

fn push_padded(s: &mut String, n: u64, w: u64)
    ensures
        final(s)@ == old(s)@ + padded_text(n as nat, w as nat),
    decreases w,
{
    if w > 0 {
        push_padded(s, n / 10, w - 1);
        push_char(s, digit_to_char(n % 10));
        assert(old(s)@ + padded_text(n as nat, w as nat) =~= (old(s)@ + padded_text(
            (n / 10) as nat,
            (w - 1) as nat,
        )).push(digit_char((n % 10) as nat)));
    } else {
        assert(old(s)@ + padded_text(n as nat, w as nat) =~= old(s)@);
    }
}

proof fn lemma_padded_len(n: nat, w: nat)
    ensures
        padded_text(n, w).len() == w,
    decreases w,
{
    if w > 0 {
        lemma_padded_len(n / 10, (w - 1) as nat);
    }
}

/// Text of a fixed-point value of `num` nano units.
pub fn float_to_string(num: u64, precision: Option<usize>) -> (r: String)
    ensures
        r@ == fixed_text(num as nat, precision),
{
    fixed_to_string(num as u128, precision)
}

/// Text of an amount (a total cost) of `num` nano units, with all
/// significant digits.
pub fn amount_to_string(num: u128) -> (r: String)
    ensures
        r@ == fixed_text(num as nat, None),
{
    fixed_to_string(num, None)
}

fn fixed_to_string(num: u128, precision: Option<usize>) -> (r: String)
    ensures
        r@ == fixed_text(num as nat, precision),
{
    let mut s = String::new();
    push_nat(&mut s, num / ONE as u128);
    let rem = (num % ONE as u128) as u64;
    let mut frac = String::new();
    push_padded(&mut frac, rem, 9);
    proof {
        lemma_padded_len(rem as nat, 9);
    }
    assert(frac@ =~= padded_text(rem as nat, 9));
    let ghost whole = s@;
    match precision {
        Some(k) => {
            if k > 0 {
                push_char(&mut s, '.');
                let shown: usize = if k <= 9 {
                    k
                } else {
                    9
                };
                let mut i: usize = 0;
                while i < shown
                    invariant
                        shown <= 9,
                        frac@.len() == 9,
                        i <= shown,
                        s@ == whole + seq!['.'] + frac@.take(i as int),
                    decreases shown - i,
                {
                    let c = frac.as_str().get_char(i);
                    push_char(&mut s, c);
                    assert(frac@.take(i + 1) =~= frac@.take(i as int).push(c));
                    i = i + 1;
                }
                if k > 9 {
                    assert(frac@.take(9) =~= frac@);
                    let mut j: usize = 9;
                    while j < k
                        invariant
                            9 <= j <= k,
                            frac@.len() == 9,
                            s@ == whole + seq!['.'] + frac@ + zeros((j - 9) as nat),
                        decreases k - j,
                    {
                        push_char(&mut s, '0');
                        assert(zeros((j + 1 - 9) as nat) =~= zeros((j - 9) as nat).push('0'));
                        j = j + 1;
                    }
                }
                assert(s@ =~= whole + seq!['.'] + shown_fraction(frac@, k as nat));
            }
        },
        None => {
            if rem != 0 {
                push_char(&mut s, '.');
                let mut end: usize = 9;
                assert(frac@.take(9) =~= frac@);
                while end > 0 && frac.as_str().get_char(end - 1) == '0'
                    invariant
                        end <= 9,
                        frac@.len() == 9,
                        trim_zeros(frac@.take(end as int)) == trim_zeros(frac@),
                    decreases end,
                {
                    assert(frac@.take(end as int).drop_last() =~= frac@.take(end - 1));
                    end = end - 1;
                }
                assert(trim_zeros(frac@.take(end as int)) == frac@.take(end as int));
                let mut i: usize = 0;
                while i < end
                    invariant
                        end <= 9,
                        frac@.len() == 9,
                        i <= end,
                        s@ == whole + seq!['.'] + frac@.take(i as int),
                    decreases end - i,
                {
                    let c = frac.as_str().get_char(i);
                    push_char(&mut s, c);
                    assert(frac@.take(i + 1) =~= frac@.take(i as int).push(c));
                    i = i + 1;
                }
            }
        },
    }
    s
}

} // verus!
