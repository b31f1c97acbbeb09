//! Reading the cells of reference rows and merging them into the step state.
use vstd::prelude::*;
use vstd::string::StrSliceExecFns;
use crate::error::{Field, GcalcError};
use crate::fixed::{all_digits, digit_of, digits_value, is_digit, is_negative, Decimal, ONE};
use crate::models::{CSVInvalidBehaviour, CsvRecordBehaviour, ParameterRow, RecordCursor};
use crate::state::StepState;
use crate::sci::{is_number, number_nano, parse_number_prefix};
use crate::utils::{get_prob_alap, prob_reading};

verus! {

/// A cost cell: empty is zero; otherwise a non-negative number that fits.
pub open spec fn cost_reading(text: Seq<char>) -> Result<u64, GcalcError> {
    if text.len() == 0 {
        Ok(0)
    } else if is_number(text) && (!is_negative(text) || number_nano(text) == 0)
        && number_nano(text) <= u64::MAX {
        Ok(number_nano(text) as u64)
    } else {
        Err(GcalcError::ParseError(Field::Cost))
    }
}

/// The digits of a count cell: the text without one leading `+`.
pub open spec fn count_digits(text: Seq<char>) -> Seq<char> {
    if text.len() > 0 && text[0] == '+' {
        text.drop_first()
    } else {
        text
    }
}

/// A count cell: empty means the current trial; otherwise an unsigned
/// integer, with an optional leading `+`.
pub open spec fn count_reading(text: Seq<char>, trial: nat) -> Result<u64, GcalcError> {
    let d = count_digits(text);
    if text.len() == 0 {
        Ok(trial as u64)
    } else if d.len() > 0 && all_digits(d) && digits_value(d) <= u64::MAX {
        Ok(digits_value(d) as u64)
    } else {
        Err(GcalcError::ParseError(Field::Count))
    }
}

/// Reads a probability-like cell.
pub fn read_probability(text: &str, field: Field) -> (r: Result<u64, GcalcError>)
    ensures
        r == prob_reading(text@, field),
        r matches Ok(p) ==> p <= ONE,
{
    match get_prob_alap(text) {
        Ok(p) => Ok(p),
        Err(GcalcError::ParseError(_)) => Err(GcalcError::ParseError(field)),
        Err(e) => Err(e),
    }
}

/// Reads a cost cell.
pub fn read_cost(text: &str) -> (r: Result<u64, GcalcError>)
    ensures
        r == cost_reading(text@),
{
    let len = text.unicode_len();
    if len == 0 {
        return Ok(0);
    }
    assert(text@.take(len as int) =~= text@);
    match parse_number_prefix(text, len) {
        Some(Decimal::Value { negative, nano }) => {
            if negative && nano > 0 {
                Err(GcalcError::ParseError(Field::Cost))
            } else {
                Ok(nano)
            }
        },
        _ => Err(GcalcError::ParseError(Field::Cost)),
    }
}

/// Reads a count cell, for the given 1-based trial.
pub fn read_count(text: &str, trial: u64) -> (r: Result<u64, GcalcError>)
    ensures
        r == count_reading(text@, trial as nat),
{
    let len = text.unicode_len();
    if len == 0 {
        return Ok(trial);
    }
    let start: usize = if text.get_char(0) == '+' {
        1
    } else {
        0
    };
    let ghost d = count_digits(text@);
    assert(d =~= text@.subrange(start as int, len as int));
    if start == len {
        return Err(GcalcError::ParseError(Field::Count));
    }
    let mut v: u64 = 0;
    let mut i: usize = start;
    while i < len
        invariant
            len == text@.len(),
            start <= i <= len,
            d == text@.subrange(start as int, len as int),
            d == count_digits(text@),
            text@.len() > 0,
            d.len() > 0,
            all_digits(d.take(i - start)),
            v == digits_value(d.take(i - start)),
        decreases len - i,
    {
        let c = text.get_char(i);
        assert(d[i - start] == c);
        if !('0' <= c && c <= '9') {
            assert(!is_digit(d[i - start]));
            return Err(GcalcError::ParseError(Field::Count));
        }
        let dv = (c as u32 - '0' as u32) as u64;
        let ghost next = d.take(i - start + 1);
        assert(next.drop_last() =~= d.take(i - start));
        assert(next.last() == c);
        assert(dv == digit_of(c));
        if v > (u64::MAX - dv) / 10 {
            proof {
                lemma_digits_prefix_grows(d, i - start + 1);
            }
            return Err(GcalcError::ParseError(Field::Count));
        }
        v = v * 10 + dv;
        assert(all_digits(next)) by {
            assert forall|k: int| 0 <= k < next.len() implies is_digit(#[trigger] next[k]) by {
                if k < i - start {
                    assert(next[k] == d.take(i - start)[k]);
                }
            }
        }
        i = i + 1;
    }
    assert(d.take(len - start) =~= d);
    Ok(v)
}

/// The value of a digit string is at least that of any of its prefixes.
proof fn lemma_digits_prefix_grows(s: Seq<char>, n: int)
    requires
        0 <= n <= s.len(),
    ensures
        digits_value(s) >= digits_value(s.take(n)),
    decreases s.len(),
{
    if n < s.len() {
        assert(s.drop_last().take(n) =~= s.take(n));
        lemma_digits_prefix_grows(s.drop_last(), n);
    } else {
        assert(s.take(n) =~= s);
    }
}

/// The value used when a cell cannot be parsed on `trial`: an error naming
/// the cell and the trial, the prior value, or the value fixed at
/// configuration time. Any other error (a number out of its domain) fails
/// whatever the policy.
pub open spec fn fallback(
    behaviour: CSVInvalidBehaviour,
    reading: Result<u64, GcalcError>,
    prior: u64,
    initial: u64,
    trial: u64,
) -> Result<u64, GcalcError> {
    match reading {
        Ok(v) => Ok(v),
        Err(GcalcError::ParseError(field)) => match behaviour {
            CSVInvalidBehaviour::Fail => Err(GcalcError::CsvParseError { field, trial }),
            CSVInvalidBehaviour::Ignore => Ok(prior),
            CSVInvalidBehaviour::Rollback => Ok(initial),
        },
        Err(e) => Err(e),
    }
}

fn apply_fallback(
    behaviour: CSVInvalidBehaviour,
    reading: Result<u64, GcalcError>,
    prior: u64,
    initial: u64,
    trial: u64,
) -> (r: Result<u64, GcalcError>)
    ensures
        r == fallback(behaviour, reading, prior, initial, trial),
{
    match reading {
        Ok(v) => Ok(v),
        Err(GcalcError::ParseError(field)) => match behaviour {
            CSVInvalidBehaviour::Fail => Err(GcalcError::CsvParseError { field, trial }),
            CSVInvalidBehaviour::Ignore => Ok(prior),
            CSVInvalidBehaviour::Rollback => Ok(initial),
        },
        Err(e) => Err(e),
    }
}

/// The state after a row is used: probability, then constant, then cost,
/// each read under the fallback policy; the first unrecoverable cell fails.
pub open spec fn apply_row(
    behaviour: CSVInvalidBehaviour,
    st: StepState,
    row: ParameterRow,
    trial: u64,
) -> Result<
    StepState,
    GcalcError,
> {
    let p = fallback(
        behaviour,
        prob_reading(row.probability@, Field::Probability),
        st.probability,
        st.initial_probability,
        trial,
    );
    let b = fallback(
        behaviour,
        prob_reading(row.constant@, Field::Constant),
        st.bonus,
        st.initial_bonus,
        trial,
    );
    let c = fallback(behaviour, cost_reading(row.cost@), st.cost, st.initial_cost, trial);
    match p {
        Err(e) => Err(e),
        Ok(p) => match b {
            Err(e) => Err(e),
            Ok(b) => match c {
                Err(e) => Err(e),
                Ok(c) => Ok(StepState { probability: p, bonus: b, cost: c, ..st }),
            },
        },
    }
}

/// What the reference source does on `trial` (1-based), with `cursor` the
/// index of the next unused row: the new state and cursor.
///
/// A row whose count names a later trial is left for later (the state is
/// kept); a used row moves the cursor on; when the rows are exhausted the
/// state is kept, or the computation fails in strict mode.
pub open spec fn source_next(
    behaviour: CSVInvalidBehaviour,
    exhaustion: CsvRecordBehaviour,
    rows: Seq<ParameterRow>,
    st: StepState,
    cursor: nat,
    trial: nat,
) -> Result<(StepState, nat), GcalcError> {
    if cursor >= rows.len() {
        match exhaustion {
            CsvRecordBehaviour::Repeat => Ok((st, cursor)),
            CsvRecordBehaviour::Panic => Err(GcalcError::CsvError { trial: trial as u64 }),
        }
    } else {
        match count_reading(rows[cursor as int].count@, trial) {
            Err(_) => Err(GcalcError::CsvParseError { field: Field::Count, trial: trial as u64 }),
            Ok(hint) => if hint > trial {
                Ok((st, cursor))
            } else {
                match apply_row(behaviour, st, rows[cursor as int], trial as u64) {
                    Err(e) => Err(e),
                    Ok(next) => Ok((next, cursor + 1)),
                }
            },
        }
    }
}

/// Merges the row under `cursor` into `st` for `trial`, as [`source_next`]
/// says; tells whether the row was used.
pub fn update_state_from_row(
    behaviour: CSVInvalidBehaviour,
    exhaustion: CsvRecordBehaviour,
    rows: &Vec<ParameterRow>,
    st: &mut StepState,
    cursor: usize,
    trial: u64,
) -> (r: Result<RecordCursor, GcalcError>)
    requires
        old(st).wf(),
    ensures
        match source_next(behaviour, exhaustion, rows@, *old(st), cursor as nat, trial as nat) {
            Err(e) => r == Err::<RecordCursor, GcalcError>(e),
            Ok((next, c)) => {
                &&& *final(st) == next
                &&& (r matches Ok(RecordCursor::Next) ==> c == cursor + 1)
                &&& (r matches Ok(RecordCursor::Stay) ==> c == cursor)
                &&& r is Ok
            },
        },
        final(st).wf(),
        r is Err ==> *final(st) == *old(st),
        r matches Ok(RecordCursor::Next) ==> cursor < rows@.len(),
{
    if cursor >= rows.len() {
        return match exhaustion {
            CsvRecordBehaviour::Repeat => Ok(RecordCursor::Stay),
            CsvRecordBehaviour::Panic => Err(GcalcError::CsvError { trial }),
        };
    }
    let row = &rows[cursor];
    let hint = match read_count(row.count.as_str(), trial) {
        Ok(h) => h,
        Err(_) => return Err(GcalcError::CsvParseError { field: Field::Count, trial }),
    };
    if hint > trial {
        return Ok(RecordCursor::Stay);
    }
    let p = match apply_fallback(
        behaviour,
        read_probability(row.probability.as_str(), Field::Probability),
        st.probability,
        st.initial_probability,
        trial,
    ) {
        Ok(v) => v,
        Err(e) => return Err(e),
    };
    let b = match apply_fallback(
        behaviour,
        read_probability(row.constant.as_str(), Field::Constant),
        st.bonus,
        st.initial_bonus,
        trial,
    ) {
        Ok(v) => v,
        Err(e) => return Err(e),
    };
    let c = match apply_fallback(behaviour, read_cost(row.cost.as_str()), st.cost, st.initial_cost, trial) {
        Ok(v) => v,
        Err(e) => return Err(e),
    };
    st.probability = p;
    st.bonus = b;
    st.cost = c;
    Ok(RecordCursor::Next)
}

} // verus!
