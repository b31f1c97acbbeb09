//! Probability normalization, formatting and the closed-form series.
use vstd::prelude::*;
use vstd::string::StrSliceExecFns;
use crate::error::{Field, GcalcError};
use crate::fixed::{is_negative, Decimal, ONE};
use crate::sci::{is_number, is_special, is_special_prefix, number_nano, parse_number_prefix};
use crate::models::ProbType;
use crate::text::{fixed_text, float_to_string, push_char};

verus! {

/// A value `v` (in nano units) read as a probability: `v <= 1` is a fraction,
/// `1 < v <= 100` a percentage.
pub open spec fn as_fraction(v: nat) -> nat {
    if v <= ONE {
        v
    } else {
        v / 100
    }
}

pub open spec fn fraction_in_domain(v: nat) -> bool {
    v <= 100 * ONE
}

/// Normalizes a non-negative value to a probability in `[0, ONE]`.
pub fn get_number_as_fraction(number: u64) -> (r: Result<u64, GcalcError>)
    ensures
        fraction_in_domain(number as nat) ==> (r matches Ok(p) && p == as_fraction(number as nat)),
        !fraction_in_domain(number as nat) ==> r matches Err(GcalcError::InvalidProb),
        r matches Ok(p) ==> p <= ONE,
{
    if number <= ONE {
        Ok(number)
    } else if number <= 100 * ONE {
        Ok(number / 100)
    } else {
        Err(GcalcError::InvalidProb)
    }
}

/// The text of a probability with one trailing `%` removed.
pub open spec fn prob_body(s: Seq<char>) -> Seq<char> {
    if s.len() > 0 && s.last() == '%' {
        s.drop_last()
    } else {
        s
    }
}

/// A probability text whose number is negative (and not zero) or above 100.
pub open spec fn prob_out_of_domain(s: Seq<char>) -> bool {
    let b = prob_body(s);
    (is_negative(b) && number_nano(b) > 0) || !fraction_in_domain(number_nano(b))
}

/// A probability text read as a fraction or a percentage: `inf`/`nan` and
/// numbers outside the domain are `InvalidProb`; anything else that is not
/// a number is a parse error of `field`.
pub open spec fn prob_reading(text: Seq<char>, field: Field) -> Result<u64, GcalcError> {
    if is_special(prob_body(text)) {
        Err(GcalcError::InvalidProb)
    } else if !is_number(prob_body(text)) {
        Err(GcalcError::ParseError(field))
    } else if prob_out_of_domain(text) {
        Err(GcalcError::InvalidProb)
    } else {
        Ok(as_fraction(number_nano(prob_body(text))) as u64)
    }
}

/// Reads a probability as leniently as possible: a fraction, a percentage,
/// with or without a trailing `%`, plain or in exponent notation.
pub fn get_prob_alap(number_str: &str) -> (r: Result<u64, GcalcError>)
    ensures
        r == prob_reading(number_str@, Field::Probability),
        r matches Ok(p) ==> p <= ONE,
{
    let len = number_str.unicode_len();
    let end = if len > 0 && number_str.get_char(len - 1) == '%' {
        len - 1
    } else {
        len
    };
    let ghost body = prob_body(number_str@);
    assert(body =~= number_str@.take(end as int));
    if is_special_prefix(number_str, end) {
        return Err(GcalcError::InvalidProb);
    }
    match parse_number_prefix(number_str, end) {
        None => Err(GcalcError::ParseError(Field::Probability)),
        Some(Decimal::TooLarge { negative: _ }) => Err(GcalcError::InvalidProb),
        Some(Decimal::Value { negative, nano }) => {
            if negative && nano > 0 {
                Err(GcalcError::InvalidProb)
            } else {
                get_number_as_fraction(nano)
            }
        },
    }
}

} // verus!

verus! {

/// Unresolved probability mass after `n` trials at a constant success
/// chance `s`, in nano units, rounded down after each trial.
pub open spec fn carry_after_trials(s: nat, n: nat) -> nat
    decreases n,
{
    if n == 0 {
        ONE as nat
    } else {
        carry_after_trials(s, (n - 1) as nat) * ((ONE - s) as nat) / (ONE as nat)
    }
}

/// The geometric series `s + s(1-s) + ... + s(1-s)^(n-1) = 1 - (1-s)^n`:
/// the chance of at least one success in `n` trials.
pub open spec fn series(s: nat, n: nat) -> nat {
    (ONE - carry_after_trials(s, n)) as nat
}

/// One more trial at chance `s` multiplies the carry by `1 - s`.
pub fn next_carry(carry: u64, s: u64) -> (r: u64)
    requires
        carry <= ONE,
        s <= ONE,
    ensures
        r == (carry as nat) * ((ONE - s) as nat) / (ONE as nat),
        r <= carry,
        s > 0 && carry > 0 ==> r < carry,
{
    assert(carry * (ONE - s) <= ONE * ONE) by (nonlinear_arith)
        requires carry <= ONE, s <= ONE;
    let product = carry * (ONE - s);
    assert(product <= carry * ONE) by (nonlinear_arith)
        requires product == carry * (ONE - s), s <= ONE;
    if s > 0 && carry > 0 {
        assert(product < carry * ONE) by (nonlinear_arith)
            requires product == carry * (ONE - s), s > 0, carry > 0;
    }
    product / ONE
}

/// Once the carry is zero it stays zero; at chance zero it stays one.
pub proof fn lemma_carry_settles(s: nat, n: nat, m: nat)
    requires
        s <= ONE,
        n <= m,
        carry_after_trials(s, n) == 0 || s == 0,
    ensures
        carry_after_trials(s, m) == carry_after_trials(s, n),
    decreases m - n,
{
    if n < m {
        lemma_carry_settles(s, n, (m - 1) as nat);
        let c = carry_after_trials(s, (m - 1) as nat);
        if s == 0 {
            assert(c * (ONE as nat) / (ONE as nat) == c) by (nonlinear_arith);
        } else {
            assert(c * ((ONE - s) as nat) / (ONE as nat) == 0) by (nonlinear_arith)
                requires c == 0;
        }
    }
}

/// Chance of at least one success within `count` trials at a constant
/// success chance `probabilty`.
pub fn geometric_series(count: u64, probabilty: u64) -> (r: u64)
    requires
        probabilty <= ONE,
    ensures
        r == series(probabilty as nat, count as nat),
        r <= ONE,
{
    if probabilty == 0 {
        proof {
            lemma_carry_settles(0, 0, count as nat);
        }
        return 0;
    }
    let mut carry: u64 = ONE;
    let mut i: u64 = 0;
    while i < count && carry > 0
        invariant
            i <= count,
            probabilty <= ONE,
            carry == carry_after_trials(probabilty as nat, i as nat),
            carry <= ONE,
        decreases count - i,
    {
        carry = next_carry(carry, probabilty);
        i = i + 1;
    }
    proof {
        if i < count {
            lemma_carry_settles(probabilty as nat, i as nat, count as nat);
        }
    }
    ONE - carry
}

/// The fewest trials at a constant success chance `probabilty` whose
/// cumulative chance reaches `qalification`.
pub fn geometric_series_qual(probabilty: u64, qalification: u64) -> (r: u64)
    requires
        0 < probabilty <= ONE,
        qalification <= ONE,
    ensures
        is_least_reaching(probabilty as nat, qalification as nat, r as nat),
        r == least_trials(probabilty as nat, qalification as nat),
        r <= ONE,
{
    let mut carry: u64 = ONE;
    let mut n: u64 = 0;
    while ONE - carry < qalification
        invariant
            0 < probabilty <= ONE,
            qalification <= ONE,
            carry == carry_after_trials(probabilty as nat, n as nat),
            carry <= ONE,
            n + carry <= ONE,
            forall|m: nat| m < n ==> series(probabilty as nat, m) < qalification,
        decreases carry,
    {
        carry = next_carry(carry, probabilty);
        n = n + 1;
    }
    proof {
        lemma_least_unique(probabilty as nat, qalification as nat, n as nat);
    }
    n
}

/// `n` trials reach `t`, and no fewer do.
pub open spec fn is_least_reaching(s: nat, t: nat, n: nat) -> bool {
    &&& series(s, n) >= t
    &&& forall|m: nat| m < n ==> series(s, m) < t
}

/// The fewest trials at chance `s` that reach `t`.
pub open spec fn least_trials(s: nat, t: nat) -> nat {
    choose|n: nat| is_least_reaching(s, t, n)
}

pub proof fn lemma_least_unique(s: nat, t: nat, n: nat)
    requires
        is_least_reaching(s, t, n),
    ensures
        least_trials(s, t) == n,
{
    let m = least_trials(s, t);
    assert(is_least_reaching(s, t, m));
    if m < n {
        assert(series(s, m) < t);
    } else if n < m {
        assert(series(s, n) < t);
    }
}

} // verus!

verus! {

/// Display text of a probability of `num` nano units.
pub open spec fn prob_text(num: nat, prob_type: ProbType, precision: Option<usize>) -> Seq<char> {
    match prob_type {
        ProbType::Percentage => fixed_text(num * 100, precision).push('%'),
        ProbType::Fraction => fixed_text(num, precision),
    }
}

/// Formats a probability as a fraction or as a percentage, with the given
/// number of decimal digits (truncated) or with all significant digits.
pub fn get_prob_as_formatted(num: u64, prob_type: &ProbType, precision: &Option<usize>) -> (r: String)
    requires
        num <= u64::MAX / 100,
    ensures
        r@ == prob_text(num as nat, *prob_type, *precision),
{
    match prob_type {
        ProbType::Percentage => {
            let mut s = float_to_string(num * 100, *precision);
            push_char(&mut s, '%');
            s
        },
        ProbType::Fraction => float_to_string(num, *precision),
    }
}

} // verus!
