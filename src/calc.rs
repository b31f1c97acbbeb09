//! The calculator: configuration, validation and the trial loop.
use vstd::prelude::*;
use crate::error::{Conditional, Field, GcalcError};
use crate::fixed::ONE;
use crate::models::{
    lower_of, CSVInvalidBehaviour, ColumnMap, CsvRecordBehaviour, CsvRef, OutOption, ParameterRow,
    ProbType, Qualficiation, Record, RecordCursor, RecordView, TableFormat,
};
use crate::source::{source_next, update_state_from_row};
use crate::state::StepState;
use crate::table::{
    columns_line_up, index_column, index_ok, indexed_column, rows_from_columns, rows_match,
    strings_view,
};
use crate::utils::{
    as_fraction, fraction_in_domain, geometric_series, geometric_series_qual,
    get_number_as_fraction, get_prob_as_formatted, least_trials, prob_text, series,
};

verus! {

/// Trials allowed by default before a target- or budget-driven computation
/// gives up.
pub const DEFAULT_TRIAL_LIMIT: u64 = 1_000_000;

/// A probability calculator for repeated independent trials.
///
/// Probabilities, bonuses ("constants"), costs and budgets are fixed-point
/// values in nano units (see [`ONE`]).
pub struct Calculator {
    /// Configured probability, constant and cost; nothing accumulated yet.
    pub state: StepState,
    /// Trials of a range computation.
    pub count: usize,
    /// Extra trials after the primary stop.
    pub offset: Option<usize>,
    pub format: TableFormat,
    pub csv_ref: CsvRef,
    pub csv_no_header: bool,
    pub column_map: ColumnMap,
    pub csv_invalid_behaviour: CSVInvalidBehaviour,
    pub prob_precision: Option<usize>,
    pub budget: Option<u64>,
    pub target_probability: Option<u64>,
    pub prob_type: ProbType,
    /// What to do when the reference rows run out.
    pub record_behaviour: CsvRecordBehaviour,
    pub out_option: OutOption,
    pub plot: bool,
    /// Most trials a target- or budget-driven computation may run before the
    /// primary stop.
    pub trial_limit: u64,
}

/// Progress of a computation after some trials.
pub struct Progress {
    pub state: StepState,
    /// Index of the next unused reference row.
    pub cursor: nat,
    /// Total cost so far, in nano units.
    pub total: nat,
}

impl Calculator {
    pub open spec fn wf(&self) -> bool {
        &&& self.state.wf()
        &&& self.state.cumulative_success == 0
        &&& (self.target_probability matches Some(t) ==> t <= ONE)
    }

    /// Why a target- or budget-driven computation must be refused, if it must.
    pub open spec fn sanity_issue(&self, has_source: bool) -> Option<Conditional> {
        if self.target_probability is None && self.budget is None {
            Some(Conditional::NoCondition)
        } else if !has_source && self.budget is Some && self.state.cost == 0 {
            Some(Conditional::ZeroCostBudget)
        } else if !has_source && self.target_probability is Some && self.state.probability == 0 {
            Some(Conditional::ZeroProbabilityTarget)
        } else if !has_source && self.target_probability == Some(ONE) && self.state.bonus < ONE {
            Some(Conditional::UnreachableTarget)
        } else {
            None
        }
    }

    /// Rejects target- or budget-driven configurations that have no stopping
    /// condition or, without reference rows, can never stop.
    pub fn conditional_sanity_check(&self, has_source: bool) -> (r: Result<(), GcalcError>)
        ensures
            match self.sanity_issue(has_source) {
                Some(issue) => r matches Err(GcalcError::InvalidConditional(i)) && i == issue,
                None => r is Ok,
            },
    {
        if self.target_probability.is_none() && self.budget.is_none() {
            return Err(GcalcError::InvalidConditional(Conditional::NoCondition));
        }
        if !has_source {
            if self.budget.is_some() && self.state.cost == 0 {
                return Err(GcalcError::InvalidConditional(Conditional::ZeroCostBudget));
            }
            if self.target_probability.is_some() && self.state.probability == 0 {
                return Err(GcalcError::InvalidConditional(Conditional::ZeroProbabilityTarget));
            }
            if let Some(t) = self.target_probability {
                if t == ONE && self.state.bonus < ONE {
                    return Err(GcalcError::InvalidConditional(Conditional::UnreachableTarget));
                }
            }
        }
        Ok(())
    }

    pub open spec fn start(&self) -> Progress {
        Progress { state: self.state, cursor: 0, total: 0 }
    }

    /// One trial: read the source (when there is one), run the trial, charge
    /// its cost.
    pub open spec fn trial_step(
        &self,
        rows: Option<Seq<ParameterRow>>,
        p: Progress,
        trial: nat,
    ) -> Result<Progress, GcalcError> {
        let read = match rows {
            None => Ok((p.state, p.cursor)),
            Some(rs) => source_next(
                self.csv_invalid_behaviour,
                self.record_behaviour,
                rs,
                p.state,
                p.cursor,
                trial,
            ),
        };
        match read {
            Err(e) => Err(e),
            Ok((st, cursor)) => Ok(
                Progress { state: st.advanced(), cursor, total: (p.total + st.cost) as nat },
            ),
        }
    }

    pub open spec fn record_of(&self, p: Progress, trial: nat) -> RecordView {
        RecordView {
            count: trial,
            probability_src: p.state.cumulative_success as nat,
            probability: prob_text(
                p.state.cumulative_success as nat,
                self.prob_type,
                self.prob_precision,
            ),
            cost: p.total,
            constant: p.state.bonus as nat,
        }
    }

    /// The primary stop, checked after each trial: the target is passed, the
    /// budget is passed, or (range mode) the count is reached.
    pub open spec fn primary_stop(&self, use_range: bool, p: Progress, trial: nat) -> bool {
        ||| (self.target_probability matches Some(t) && p.state.cumulative_success > t)
        ||| (self.budget matches Some(b) && p.total > b)
        ||| (use_range && trial >= self.count)
    }

    /// Trials from `trial` on until the primary stop, with at most `fuel`
    /// trials left: the progress, the last trial and the records.
    pub open spec fn primary_run(
        &self,
        rows: Option<Seq<ParameterRow>>,
        use_range: bool,
        p: Progress,
        trial: nat,
        acc: Seq<RecordView>,
        fuel: nat,
    ) -> Result<(Progress, nat, Seq<RecordView>), GcalcError>
        decreases fuel,
    {
        if fuel == 0 {
            Err(GcalcError::TrialLimit { limit: self.trial_limit })
        } else {
            match self.trial_step(rows, p, trial) {
                Err(e) => Err(e),
                Ok(next) => {
                    let acc2 = acc.push(self.record_of(next, trial));
                    if self.primary_stop(use_range, next, trial) {
                        Ok((next, trial, acc2))
                    } else {
                        self.primary_run(rows, use_range, next, trial + 1, acc2, (fuel - 1) as nat)
                    }
                },
            }
        }
    }

    /// `k` more trials after trial `trial`, with no stop checked.
    pub open spec fn trailing_run(
        &self,
        rows: Option<Seq<ParameterRow>>,
        p: Progress,
        trial: nat,
        acc: Seq<RecordView>,
        k: nat,
    ) -> Result<Seq<RecordView>, GcalcError>
        decreases k,
    {
        if k == 0 {
            Ok(acc)
        } else {
            match self.trial_step(rows, p, trial + 1) {
                Err(e) => Err(e),
                Ok(next) => self.trailing_run(
                    rows,
                    next,
                    trial + 1,
                    acc.push(self.record_of(next, trial + 1)),
                    (k - 1) as nat,
                ),
            }
        }
    }

    /// Trials the primary phase may run: the count (at least one) in range
    /// mode, else the trial limit.
    pub open spec fn primary_fuel(&self, use_range: bool) -> nat {
        if use_range {
            if self.count == 0 {
                1
            } else {
                self.count as nat
            }
        } else {
            self.trial_limit as nat
        }
    }

    pub open spec fn trailing_trials(&self) -> nat {
        match self.offset {
            Some(k) => k as nat,
            None => 0,
        }
    }

    /// The records of a computation, or the error that ends it.
    pub open spec fn records_outcome(&self, rows: Option<Seq<ParameterRow>>, use_range: bool) -> Result<
        Seq<RecordView>,
        GcalcError,
    > {
        if !use_range && self.sanity_issue(rows is Some) is Some {
            Err(GcalcError::InvalidConditional(self.sanity_issue(rows is Some)->Some_0))
        } else if self.primary_fuel(use_range) + self.trailing_trials() > u64::MAX {
            Err(GcalcError::InvalidArgument(Field::Count))
        } else {
            match self.primary_run(
                rows,
                use_range,
                self.start(),
                1,
                Seq::empty(),
                self.primary_fuel(use_range),
            ) {
                Err(e) => Err(e),
                Ok((p, trial, acc)) => self.trailing_run(rows, p, trial, acc, self.trailing_trials()),
            }
        }
    }
}

pub open spec fn records_view(v: Seq<Record>) -> Seq<RecordView> {
    v.map_values(|r: Record| r@)
}

pub open spec fn rows_view(rows: Option<&Vec<ParameterRow>>) -> Option<Seq<ParameterRow>> {
    match rows {
        Some(v) => Some(v@),
        None => None,
    }
}

proof fn lemma_records_view_push(v: Seq<Record>, r: Record)
    ensures
        records_view(v.push(r)) == records_view(v).push(r@),
{
    assert(records_view(v.push(r)) =~= records_view(v).push(r@));
}

impl Calculator {
    /// Runs trial `trial` in place: the source (if any), the trial, its cost.
    fn run_trial(
        &self,
        rows: Option<&Vec<ParameterRow>>,
        st: &mut StepState,
        cursor: &mut usize,
        total: &mut u128,
        trial: u64,
    ) -> (r: Result<(), GcalcError>)
        requires
            old(st).wf(),
            trial >= 1,
            *old(total) <= (trial - 1) * (u64::MAX as nat),
            rows matches Some(v) ==> *old(cursor) <= v@.len(),
        ensures
            match self.trial_step(
                rows_view(rows),
                Progress { state: *old(st), cursor: *old(cursor) as nat, total: *old(total) as nat },
                trial as nat,
            ) {
                Err(e) => r == Err::<(), GcalcError>(e),
                Ok(p) => {
                    &&& r is Ok
                    &&& *final(st) == p.state
                    &&& *final(cursor) as nat == p.cursor
                    &&& *final(total) as nat == p.total
                },
            },
            final(st).wf(),
            *final(total) <= trial * (u64::MAX as nat),
            rows matches Some(v) ==> *final(cursor) <= v@.len(),
    {
        if let Some(v) = rows {
            match update_state_from_row(
                self.csv_invalid_behaviour,
                self.record_behaviour,
                v,
                st,
                *cursor,
                trial,
            ) {
                Err(e) => {
                    return Err(e);
                },
                Ok(RecordCursor::Next) => {
                    assert(v@.len() == v.len());
                    *cursor = *cursor + 1;
                },
                Ok(RecordCursor::Stay) => {},
            }
        }
        let cost = st.cost;
        st.advance();
        assert((trial - 1) * (u64::MAX as nat) + u64::MAX == trial * (u64::MAX as nat)) by (nonlinear_arith);
        *total = *total + cost as u128;
        Ok(())
    }

    fn make_record(&self, st: &StepState, total: u128, trial: u64) -> (r: Record)
        requires
            st.wf(),
        ensures
            r@ == self.record_of(
                Progress { state: *st, cursor: 0, total: total as nat },
                trial as nat,
            ),
    {
        let text = get_prob_as_formatted(st.cumulative_success, &self.prob_type, &self.prob_precision);
        Record::new(trial, st.cumulative_success, text, total, st.bonus)
    }

    /// Runs the trial loop: in range mode up to the count (at least one
    /// trial), else until the target or budget is passed; then the offset's
    /// extra trials. Any error discards all records.
    pub fn create_records(&self, use_range: bool, rows: Option<&Vec<ParameterRow>>) -> (r: Result<
        Vec<Record>,
        GcalcError,
    >)
        requires
            self.wf(),
        ensures
            match self.records_outcome(rows_view(rows), use_range) {
                Ok(v) => r matches Ok(w) && records_view(w@) == v,
                Err(e) => r == Err::<Vec<Record>, GcalcError>(e),
            },
    {
        let ghost rs = rows_view(rows);
        if !use_range {
            if let Err(e) = self.conditional_sanity_check(rows.is_some()) {
                return Err(e);
            }
        }
        let fuel_wide: u128 = if use_range {
            if self.count == 0 {
                1
            } else {
                self.count as u128
            }
        } else {
            self.trial_limit as u128
        };
        let extra: u128 = match self.offset {
            Some(k) => k as u128,
            None => 0,
        };
        if fuel_wide + extra > u64::MAX as u128 {
            return Err(GcalcError::InvalidArgument(Field::Count));
        }
        let fuel0 = fuel_wide as u64;
        let mut st = self.state;
        let mut cursor: usize = 0;
        let mut total: u128 = 0;
        let mut records: Vec<Record> = Vec::new();
        let mut trial: u64 = 1;
        let mut fuel: u64 = fuel0;
        let ghost whole = self.primary_run(rs, use_range, self.start(), 1, Seq::empty(), fuel0 as nat);
        assert(records_view(records@) =~= Seq::<RecordView>::empty());
        let ghost outcome = self.records_outcome(rs, use_range);
        if fuel0 == 0 {
            return Err(GcalcError::TrialLimit { limit: self.trial_limit });
        }
        assert(outcome == match whole {
            Err(e) => Err(e),
            Ok((p, t, acc)) => self.trailing_run(rs, p, t, acc, self.trailing_trials()),
        });
        loop
            invariant_except_break
                whole == self.primary_run(
                    rs,
                    use_range,
                    Progress { state: st, cursor: cursor as nat, total: total as nat },
                    trial as nat,
                    records_view(records@),
                    fuel as nat,
                ),
                trial + fuel == fuel0 + 1,
                fuel >= 1,
                total <= (trial - 1) * (u64::MAX as nat),
            invariant
                self.wf(),
                rs == rows_view(rows),
                outcome == self.records_outcome(rs, use_range),
                outcome == match whole {
                    Err(e) => Err(e),
                    Ok((p, t, acc)) => self.trailing_run(rs, p, t, acc, self.trailing_trials()),
                },
                st.wf(),
                trial >= 1,
                fuel0 + extra <= u64::MAX,
                extra == self.trailing_trials(),
                rows matches Some(v) ==> cursor <= v@.len(),
            ensures
                whole == Ok::<(Progress, nat, Seq<RecordView>), GcalcError>(
                    (
                        Progress { state: st, cursor: cursor as nat, total: total as nat },
                        trial as nat,
                        records_view(records@),
                    ),
                ),
                total <= trial * (u64::MAX as nat),
                trial <= fuel0,
            decreases fuel,
        {
            if let Err(e) = self.run_trial(rows, &mut st, &mut cursor, &mut total, trial) {
                return Err(e);
            }
            let rec = self.make_record(&st, total, trial);
            proof {
                lemma_records_view_push(records@, rec);
            }
            records.push(rec);
            let passed_target = match self.target_probability {
                Some(t) => st.cumulative_success > t,
                None => false,
            };
            let passed_budget = match self.budget {
                Some(b) => total > b as u128,
                None => false,
            };
            let reached_count = use_range && trial as u128 >= self.count as u128;
            if passed_target || passed_budget || reached_count {
                break;
            }
            fuel = fuel - 1;
            if fuel == 0 {
                assert(self.primary_run(
                    rs,
                    use_range,
                    Progress { state: st, cursor: cursor as nat, total: total as nat },
                    (trial + 1) as nat,
                    records_view(records@),
                    0,
                ) == Err::<(Progress, nat, Seq<RecordView>), GcalcError>(
                    GcalcError::TrialLimit { limit: self.trial_limit },
                ));
                return Err(GcalcError::TrialLimit { limit: self.trial_limit });
            }
            trial = trial + 1;
        }
        let mut left: u64 = extra as u64;
        assert(left == self.trailing_trials());
        let ghost tail = self.trailing_run(
            rs,
            Progress { state: st, cursor: cursor as nat, total: total as nat },
            trial as nat,
            records_view(records@),
            left as nat,
        );
        while left > 0
            invariant
                outcome == self.records_outcome(rs, use_range),
                outcome == tail,
                tail == self.trailing_run(
                    rs,
                    Progress { state: st, cursor: cursor as nat, total: total as nat },
                    trial as nat,
                    records_view(records@),
                    left as nat,
                ),
                rs == rows_view(rows),
                st.wf(),
                trial >= 1,
                trial + left <= u64::MAX,
                total <= trial * (u64::MAX as nat),
                rows matches Some(v) ==> cursor <= v@.len(),
            decreases left,
        {
            trial = trial + 1;
            if let Err(e) = self.run_trial(rows, &mut st, &mut cursor, &mut total, trial) {
                return Err(e);
            }
            let rec = self.make_record(&st, total, trial);
            proof {
                lemma_records_view_push(records@, rec);
            }
            records.push(rec);
            left = left - 1;
        }
        Ok(records)
    }
}

} // verus!

verus! {

proof fn lemma_product_fits(a: u64, b: u64)
    ensures
        (a as nat) * (b as nat) <= u128::MAX,
{
    assert((a as nat) * (b as nat) <= (u64::MAX as nat) * (u64::MAX as nat)) by (nonlinear_arith);
}

proof fn lemma_primary_grows(
    calc: Calculator,
    rows: Option<Seq<ParameterRow>>,
    use_range: bool,
    p: Progress,
    trial: nat,
    acc: Seq<RecordView>,
    fuel: nat,
)
    ensures
        calc.primary_run(rows, use_range, p, trial, acc, fuel) matches Ok((_, _, out)) ==> out.len()
            > acc.len(),
    decreases fuel,
{
    if fuel > 0 {
        if let Ok(next) = calc.trial_step(rows, p, trial) {
            let acc2 = acc.push(calc.record_of(next, trial));
            lemma_primary_grows(calc, rows, use_range, next, trial + 1, acc2, (fuel - 1) as nat);
        }
    }
}

proof fn lemma_trailing_grows(
    calc: Calculator,
    rows: Option<Seq<ParameterRow>>,
    p: Progress,
    trial: nat,
    acc: Seq<RecordView>,
    k: nat,
)
    ensures
        calc.trailing_run(rows, p, trial, acc, k) matches Ok(out) ==> out.len() >= acc.len(),
    decreases k,
{
    if k > 0 {
        if let Ok(next) = calc.trial_step(rows, p, trial + 1) {
            lemma_trailing_grows(
                calc,
                rows,
                next,
                trial + 1,
                acc.push(calc.record_of(next, trial + 1)),
                (k - 1) as nat,
            );
        }
    }
}

/// A computation that succeeds yields at least one record.
pub proof fn lemma_records_nonempty(calc: Calculator, rows: Option<Seq<ParameterRow>>, use_range: bool)
    ensures
        calc.records_outcome(rows, use_range) matches Ok(recs) ==> recs.len() > 0,
{
    lemma_primary_grows(
        calc,
        rows,
        use_range,
        calc.start(),
        1,
        Seq::empty(),
        calc.primary_fuel(use_range),
    );
    if let Ok((p, t, acc)) = calc.primary_run(
        rows,
        use_range,
        calc.start(),
        1,
        Seq::empty(),
        calc.primary_fuel(use_range),
    ) {
        lemma_trailing_grows(calc, rows, p, t, acc, calc.trailing_trials());
    }
}

impl Calculator {
    /// Trials of a closed-form qualification: the fewest whose series at the
    /// base probability (the bonus is not compounded) reaches the target,
    /// cut to what the budget affords when the budget is smaller.
    pub open spec fn closed_form_count(&self) -> nat {
        let s = self.state.probability as nat;
        let cost = self.state.cost as nat;
        match self.target_probability {
            Some(t) => {
                let n0 = least_trials(s, t as nat);
                match self.budget {
                    Some(b) => if n0 * cost > b {
                        b as nat / cost
                    } else {
                        n0
                    },
                    None => n0,
                }
            },
            None => self.budget->Some_0 as nat / cost,
        }
    }

    /// The summary of a target- or budget-driven computation: trials, total
    /// cost and formatted cumulative probability.
    ///
    /// Without reference rows it is computed in closed form: the series runs
    /// at the base probability and the bonus is added to the shown value only.
    /// With rows it is the last record of the trial loop.
    pub open spec fn qualification_outcome(&self, rows: Option<Seq<ParameterRow>>) -> Result<
        (nat, nat, Seq<char>),
        GcalcError,
    > {
        let st = self.state;
        let s = st.probability as nat;
        match self.sanity_issue(rows is Some) {
            Some(i) => Err(GcalcError::InvalidConditional(i)),
            None => match rows {
                Some(_) => match self.records_outcome(rows, false) {
                    Err(e) => Err(e),
                    Ok(recs) => Ok((recs.len(), recs.last().cost, recs.last().probability)),
                },
                None => if st.probability >= ONE {
                    Ok((1, st.cost as nat, prob_text(ONE as nat, self.prob_type, self.prob_precision)))
                } else if self.target_probability is None && st.cost == 0 {
                    Err(GcalcError::InvalidArgument(Field::Cost))
                } else {
                    let n = self.closed_form_count();
                    Ok(
                        (
                            n,
                            n * (st.cost as nat),
                            prob_text(
                                series(s, n) + (st.bonus as nat),
                                self.prob_type,
                                self.prob_precision,
                            ),
                        ),
                    )
                },
            },
        }
    }

    /// Computes the qualification summary (see [`Calculator::qualification_outcome`]).
    pub fn qualification(&self, rows: Option<&Vec<ParameterRow>>) -> (r: Result<
        Qualficiation,
        GcalcError,
    >)
        requires
            self.wf(),
        ensures
            match self.qualification_outcome(rows_view(rows)) {
                Ok((c, cost, text)) => r matches Ok(q) && q.count == c && q.cost == cost
                    && q.probability@ == text,
                Err(e) => r == Err::<Qualficiation, GcalcError>(e),
            },
    {
        if let Err(e) = self.conditional_sanity_check(rows.is_some()) {
            return Err(e);
        }
        if rows.is_some() {
            let records = match self.create_records(false, rows) {
                Ok(v) => v,
                Err(e) => return Err(e),
            };
            proof {
                lemma_records_nonempty(*self, rows_view(rows), false);
            }
            let last = records.len() - 1;
            let rec = &records[last];
            assert(records_view(records@).last() == rec@);
            let text = rec.probability.as_str();
            return Ok(Qualficiation::new(records.len() as u64, rec.cost, text));
        }
        let st = self.state;
        let s = st.probability;
        if st.probability >= ONE {
            let text = get_prob_as_formatted(ONE, &self.prob_type, &self.prob_precision);
            return Ok(Qualficiation::new(1, st.cost as u128, text.as_str()));
        }
        let count: u64 = match self.target_probability {
            Some(t) => {
                let n0 = geometric_series_qual(s, t);
                match self.budget {
                    Some(b) => {
                        proof {
                            lemma_product_fits(n0, st.cost);
                        }
                        if n0 as u128 * st.cost as u128 > b as u128 {
                            b / st.cost
                        } else {
                            n0
                        }
                    },
                    None => n0,
                }
            },
            None => {
                if st.cost == 0 {
                    return Err(GcalcError::InvalidArgument(Field::Cost));
                }
                match self.budget {
                    Some(b) => b / st.cost,
                    None => 0,
                }
            },
        };
        proof {
            lemma_product_fits(count, st.cost);
        }
        let reached = geometric_series(count, s);
        let text = get_prob_as_formatted(reached + st.bonus, &self.prob_type, &self.prob_precision);
        Ok(Qualficiation::new(count, count as u128 * st.cost as u128, text.as_str()))
    }
}

} // verus!

verus! {

/// A computation's result agrees with the outcome the contracts describe.
pub open spec fn outcome_matches(
    r: Result<Vec<Record>, GcalcError>,
    o: Result<Seq<RecordView>, GcalcError>,
) -> bool {
    match o {
        Ok(v) => r matches Ok(w) && records_view(w@) == v,
        Err(e) => r == Err::<Vec<Record>, GcalcError>(e),
    }
}

impl Calculator {
    /// Header names of the selected columns: count, probability, constant, cost.
    pub open spec fn columns_view(&self) -> Seq<Seq<char>> {
        seq![
            self.column_map.count@,
            self.column_map.probability@,
            self.column_map.constant@,
            self.column_map.cost@,
        ]
    }

    /// Header names handed to the reader: the columns themselves for a table
    /// without a header row, else none.
    pub open spec fn headers_view(&self) -> Seq<Seq<char>> {
        if self.csv_no_header {
            self.columns_view()
        } else {
            Seq::empty()
        }
    }

    /// `rows` are the reference rows that the column map selects from `text`.
    pub open spec fn rows_of_text(&self, text: Seq<char>, rows: Seq<ParameterRow>) -> bool {
        rows_match(
            rows,
            indexed_column(text, self.headers_view(), self.column_map.count@),
            indexed_column(text, self.headers_view(), self.column_map.probability@),
            indexed_column(text, self.headers_view(), self.column_map.constant@),
            indexed_column(text, self.headers_view(), self.column_map.cost@),
        )
    }

    /// cindex reads `text` and selects each of the four columns.
    pub open spec fn table_readable(&self, text: Seq<char>) -> bool {
        &&& index_ok(text, self.headers_view(), self.column_map.count@)
        &&& index_ok(text, self.headers_view(), self.column_map.probability@)
        &&& index_ok(text, self.headers_view(), self.column_map.constant@)
        &&& index_ok(text, self.headers_view(), self.column_map.cost@)
    }

    /// The four selections from `text` line up into rows.
    pub open spec fn table_lines_up(&self, text: Seq<char>) -> bool {
        columns_line_up(
            indexed_column(text, self.headers_view(), self.column_map.count@),
            indexed_column(text, self.headers_view(), self.column_map.probability@),
            indexed_column(text, self.headers_view(), self.column_map.constant@),
            indexed_column(text, self.headers_view(), self.column_map.cost@),
        )
    }

    fn column_names(&self) -> (r: Vec<String>)
        ensures
            strings_view(r@) == self.columns_view(),
    {
        let mut v: Vec<String> = Vec::new();
        v.push(self.column_map.count.clone());
        v.push(self.column_map.probability.clone());
        v.push(self.column_map.constant.clone());
        v.push(self.column_map.cost.clone());
        assert(strings_view(v@) =~= self.columns_view());
        v
    }

    /// Reads the reference rows from CSV text; empty text means no rows.
    pub fn index_record_from_value(&self, csv_value: &str) -> (r: Result<
        Option<Vec<ParameterRow>>,
        GcalcError,
    >)
        ensures
            csv_value@.len() == 0 <==> r matches Ok(None),
            r matches Ok(Some(rows)) ==> self.rows_of_text(csv_value@, rows@),
            csv_value@.len() > 0 && !self.table_readable(csv_value@) ==> r matches Err(
                GcalcError::CIndexError(_),
            ),
            csv_value@.len() > 0 && self.table_readable(csv_value@) && !self.table_lines_up(
                csv_value@,
            ) ==> r matches Err(GcalcError::CsvShape { .. }),
            csv_value@.len() > 0 && self.table_readable(csv_value@) && self.table_lines_up(
                csv_value@,
            ) ==> r matches Ok(Some(_)),
    {
        if csv_value.is_empty() {
            return Ok(None);
        }
        let headers = if self.csv_no_header {
            self.column_names()
        } else {
            Vec::new()
        };
        assert(strings_view(headers@) =~= self.headers_view());
        let count = match index_column(csv_value, &headers, &self.column_map.count) {
            Ok(c) => c,
            Err(e) => return Err(GcalcError::CIndexError(e)),
        };
        let probability = match index_column(csv_value, &headers, &self.column_map.probability) {
            Ok(c) => c,
            Err(e) => return Err(GcalcError::CIndexError(e)),
        };
        let constant = match index_column(csv_value, &headers, &self.column_map.constant) {
            Ok(c) => c,
            Err(e) => return Err(GcalcError::CIndexError(e)),
        };
        let cost = match index_column(csv_value, &headers, &self.column_map.cost) {
            Ok(c) => c,
            Err(e) => return Err(GcalcError::CIndexError(e)),
        };
        match rows_from_columns(&count, &probability, &constant, &cost) {
            Ok(rows) => Ok(Some(rows)),
            Err(e) => Err(e),
        }
    }

    /// Runs the trial loop on the rows of CSV text (none when the text is
    /// empty).
    pub fn records_from_value(&self, use_range: bool, csv_value: &str) -> (r: Result<
        Vec<Record>,
        GcalcError,
    >)
        requires
            self.wf(),
        ensures
            csv_value@.len() == 0 ==> outcome_matches(r, self.records_outcome(None, use_range)),
            csv_value@.len() > 0 ==> {
                &&& (!self.table_readable(csv_value@) ==> r matches Err(
                    GcalcError::CIndexError(_),
                ))
                &&& (self.table_readable(csv_value@) && !self.table_lines_up(csv_value@)
                    ==> r matches Err(GcalcError::CsvShape { .. }))
                &&& (self.table_readable(csv_value@) && self.table_lines_up(csv_value@)
                    ==> exists|rows: Seq<ParameterRow>|
                    self.rows_of_text(csv_value@, rows) && outcome_matches(r, #[trigger] self.records_outcome(Some(rows), use_range)))
            },
    {
        match self.index_record_from_value(csv_value) {
            Err(e) => Err(e),
            Ok(None) => self.create_records(use_range, None),
            Ok(Some(rows)) => {
                let r = self.create_records(use_range, Some(&rows));
                assert(rows_view(Some(&rows)) == Some(rows@));
                r
            },
        }
    }

    /// Sets the count (when given) and runs a range computation.
    pub fn range_records(&mut self, count: Option<usize>, csv_value: &str) -> (r: Result<
        Vec<Record>,
        GcalcError,
    >)
        requires
            old(self).wf(),
        ensures
            *final(self) == (match count {
                Some(c) => Calculator { count: c, ..*old(self) },
                None => *old(self),
            }),
            csv_value@.len() == 0 ==> outcome_matches(r, final(self).records_outcome(None, true)),
            csv_value@.len() > 0 ==> {
                &&& (!final(self).table_readable(csv_value@) ==> r matches Err(
                    GcalcError::CIndexError(_),
                ))
                &&& (final(self).table_readable(csv_value@) && !final(self).table_lines_up(csv_value@)
                    ==> r matches Err(GcalcError::CsvShape { .. }))
                &&& (final(self).table_readable(csv_value@) && final(self).table_lines_up(csv_value@)
                    ==> exists|rows: Seq<ParameterRow>|
                    final(self).rows_of_text(csv_value@, rows) && outcome_matches(r, #[trigger] final(self).records_outcome(Some(rows), true)))
            },
    {
        if let Some(c) = count {
            self.count = c;
        }
        self.records_from_value(true, csv_value)
    }

    /// Runs a target- or budget-driven computation.
    pub fn conditional_records(&self, csv_value: &str) -> (r: Result<Vec<Record>, GcalcError>)
        requires
            self.wf(),
        ensures
            csv_value@.len() == 0 ==> outcome_matches(r, self.records_outcome(None, false)),
            csv_value@.len() > 0 ==> {
                &&& (!self.table_readable(csv_value@) ==> r matches Err(
                    GcalcError::CIndexError(_),
                ))
                &&& (self.table_readable(csv_value@) && !self.table_lines_up(csv_value@)
                    ==> r matches Err(GcalcError::CsvShape { .. }))
                &&& (self.table_readable(csv_value@) && self.table_lines_up(csv_value@)
                    ==> exists|rows: Seq<ParameterRow>|
                    self.rows_of_text(csv_value@, rows) && outcome_matches(r, #[trigger] self.records_outcome(Some(rows), false)))
            },
    {
        self.records_from_value(false, csv_value)
    }

    /// The qualification summary on the rows of CSV text (none when empty).
    pub fn qualification_from_value(&self, csv_value: &str) -> (r: Result<
        Qualficiation,
        GcalcError,
    >)
        requires
            self.wf(),
        ensures
            csv_value@.len() == 0 ==> match self.qualification_outcome(None) {
                Ok((c, cost, text)) => r matches Ok(q) && q.count == c && q.cost == cost
                    && q.probability@ == text,
                Err(e) => r == Err::<Qualficiation, GcalcError>(e),
            },
            csv_value@.len() > 0 ==> {
                &&& (!self.table_readable(csv_value@) ==> r matches Err(
                    GcalcError::CIndexError(_),
                ))
                &&& (self.table_readable(csv_value@) && !self.table_lines_up(csv_value@)
                    ==> r matches Err(GcalcError::CsvShape { .. }))
                &&& (self.table_readable(csv_value@) && self.table_lines_up(csv_value@)
                    ==> exists|rows: Seq<ParameterRow>|
                    self.rows_of_text(csv_value@, rows) && match #[trigger] self.qualification_outcome(Some(rows)) {
                        Ok((c, cost, text)) => r matches Ok(q) && q.count == c && q.cost == cost
                            && q.probability@ == text,
                        Err(e) => r == Err::<Qualficiation, GcalcError>(e),
                    })
            },
    {
        match self.index_record_from_value(csv_value) {
            Err(e) => Err(e),
            Ok(None) => self.qualification(None),
            Ok(Some(rows)) => {
                let r = self.qualification(Some(&rows));
                assert(rows_view(Some(&rows)) == Some(rows@));
                r
            },
        }
    }
}

} // verus!

verus! {

impl Calculator {
    /// A calculator with probability 1, no constant, no cost, fraction
    /// display and no stopping condition.
    pub fn new() -> (r: Result<Calculator, GcalcError>)
        ensures
            r matches Ok(c) && c.wf() && c.state == StepState::new_spec(ONE, 0, 0) && c.count == 0
                && c.offset is None && c.csv_ref == CsvRef::Absent && !c.csv_no_header
                && c.csv_invalid_behaviour == CSVInvalidBehaviour::Fail && c.prob_precision is None
                && c.budget is None && c.target_probability is None && c.prob_type
                == ProbType::Fraction && c.record_behaviour == CsvRecordBehaviour::Repeat
                && c.out_option == OutOption::Console && !c.plot && c.format == TableFormat::CSV
                && c.trial_limit == DEFAULT_TRIAL_LIMIT && c.column_map.count@ == "count"@
                && c.column_map.probability@ == "probability"@ && c.column_map.constant@
                == "constant"@ && c.column_map.cost@ == "cost"@,
    {
        Ok(
            Calculator {
                state: StepState::new(ONE, 0, 0),
                count: 0,
                offset: None,
                format: TableFormat::CSV,
                csv_ref: CsvRef::Absent,
                csv_no_header: false,
                column_map: ColumnMap::new(),
                csv_invalid_behaviour: CSVInvalidBehaviour::Fail,
                prob_precision: None,
                budget: None,
                target_probability: None,
                prob_type: ProbType::Fraction,
                record_behaviour: CsvRecordBehaviour::Repeat,
                out_option: OutOption::Console,
                plot: false,
                trial_limit: DEFAULT_TRIAL_LIMIT,
            },
        )
    }

    pub fn no_header(self, tv: bool) -> (r: Calculator)
        ensures
            r == (Calculator { csv_no_header: tv, ..self }),
    {
        Calculator { csv_no_header: tv, ..self }
    }

    pub fn column_map(self, column_map: ColumnMap) -> (r: Calculator)
        ensures
            r == (Calculator { column_map, ..self }),
    {
        Calculator { column_map, ..self }
    }

    /// Strict mode fails when the reference rows run out; otherwise the last
    /// values are repeated.
    pub fn strict_csv(self, tv: bool) -> (r: Calculator)
        ensures
            r == (Calculator {
                record_behaviour: if tv {
                    CsvRecordBehaviour::Panic
                } else {
                    CsvRecordBehaviour::Repeat
                },
                ..self
            }),
    {
        let record_behaviour = if tv {
            CsvRecordBehaviour::Panic
        } else {
            CsvRecordBehaviour::Repeat
        };
        Calculator { record_behaviour, ..self }
    }

    pub fn target_probability(self, target_probability: u64) -> (r: Calculator)
        requires
            target_probability <= ONE,
        ensures
            r == (Calculator { target_probability: Some(target_probability), ..self }),
    {
        Calculator { target_probability: Some(target_probability), ..self }
    }

    pub fn budget(self, budget: u64) -> (r: Calculator)
        ensures
            r == (Calculator { budget: Some(budget), ..self }),
    {
        Calculator { budget: Some(budget), ..self }
    }

    pub fn table_format(self, format: TableFormat) -> (r: Calculator)
        ensures
            r == (Calculator { format, ..self }),
    {
        Calculator { format, ..self }
    }

    pub fn prob_type(self, prob_type: ProbType) -> (r: Calculator)
        ensures
            r == (Calculator { prob_type, ..self }),
    {
        Calculator { prob_type, ..self }
    }

    /// Sets the probability (and its initial value), read as a fraction or a
    /// percentage.
    pub fn probability(self, probability: u64) -> (r: Result<Calculator, GcalcError>)
        ensures
            fraction_in_domain(probability as nat) ==> (r matches Ok(c) && c == (Calculator {
                state: StepState {
                    probability: as_fraction(probability as nat) as u64,
                    initial_probability: as_fraction(probability as nat) as u64,
                    ..self.state
                },
                ..self
            })),
            !fraction_in_domain(probability as nat) ==> r matches Err(GcalcError::InvalidProb),
    {
        let p = match get_number_as_fraction(probability) {
            Ok(p) => p,
            Err(e) => return Err(e),
        };
        Ok(Calculator { state: StepState { probability: p, initial_probability: p, ..self.state }, ..self })
    }

    /// Sets the constant bonus (and its initial value), read as a fraction or
    /// a percentage.
    pub fn constant(self, constant: u64) -> (r: Result<Calculator, GcalcError>)
        ensures
            fraction_in_domain(constant as nat) ==> (r matches Ok(c) && c == (Calculator {
                state: StepState {
                    bonus: as_fraction(constant as nat) as u64,
                    initial_bonus: as_fraction(constant as nat) as u64,
                    ..self.state
                },
                ..self
            })),
            !fraction_in_domain(constant as nat) ==> r matches Err(GcalcError::InvalidProb),
    {
        let b = match get_number_as_fraction(constant) {
            Ok(b) => b,
            Err(e) => return Err(e),
        };
        Ok(Calculator { state: StepState { bonus: b, initial_bonus: b, ..self.state }, ..self })
    }

    pub fn precision(self, precision: usize) -> (r: Calculator)
        ensures
            r == (Calculator { prob_precision: Some(precision), ..self }),
    {
        Calculator { prob_precision: Some(precision), ..self }
    }

    pub fn csv_ref(self, csv_reference: CsvRef) -> (r: Calculator)
        ensures
            r == (Calculator { csv_ref: csv_reference, ..self }),
    {
        Calculator { csv_ref: csv_reference, ..self }
    }

    /// Sets the cost per trial (and its initial value).
    pub fn cost(self, cost: u64) -> (r: Calculator)
        ensures
            r == (Calculator { state: StepState { cost, initial_cost: cost, ..self.state }, ..self }),
    {
        Calculator { state: StepState { cost, initial_cost: cost, ..self.state }, ..self }
    }

    pub fn out_file(self, path: String) -> (r: Calculator)
        ensures
            r == (Calculator { out_option: OutOption::File(path), ..self }),
    {
        Calculator { out_option: OutOption::File(path), ..self }
    }

    pub fn csv_fallback(self, behaviour: &str) -> (r: Result<Calculator, GcalcError>)
        ensures
            match r {
                Ok(c) => c == (Calculator { csv_invalid_behaviour: c.csv_invalid_behaviour, ..self }),
                Err(e) => e is InvalidConversion,
            },
            lower_of(behaviour@) == "rollback"@ ==> (r matches Ok(c) && c.csv_invalid_behaviour
                == CSVInvalidBehaviour::Rollback),
            lower_of(behaviour@) == "ignore"@ ==> (r matches Ok(c) && c.csv_invalid_behaviour
                == CSVInvalidBehaviour::Ignore),
            lower_of(behaviour@) == "none"@ ==> (r matches Ok(c) && c.csv_invalid_behaviour
                == CSVInvalidBehaviour::Fail),
            lower_of(behaviour@) != "rollback"@ && lower_of(behaviour@) != "ignore"@ && lower_of(
                behaviour@,
            ) != "none"@ ==> r is Err,
    {
        match CSVInvalidBehaviour::from_str(behaviour) {
            Ok(b) => Ok(Calculator { csv_invalid_behaviour: b, ..self }),
            Err(e) => Err(e),
        }
    }

    pub fn plot(self, tv: bool) -> (r: Calculator)
        ensures
            r == (Calculator { plot: tv, ..self }),
    {
        Calculator { plot: tv, ..self }
    }

    /// Sets how many trials a target- or budget-driven computation may run.
    pub fn trial_limit(self, limit: u64) -> (r: Calculator)
        ensures
            r == (Calculator { trial_limit: limit, ..self }),
    {
        Calculator { trial_limit: limit, ..self }
    }

    pub fn set_column_map(&mut self, column_map: ColumnMap)
        ensures
            *final(self) == (Calculator { column_map, ..*old(self) }),
    {
        self.column_map = column_map;
    }

    pub fn set_no_header(&mut self, tv: bool)
        ensures
            *final(self) == (Calculator { csv_no_header: tv, ..*old(self) }),
    {
        self.csv_no_header = tv;
    }

    /// Sets the probability, read as a fraction or a percentage; also the
    /// initial value when asked.
    pub fn set_probability(&mut self, probability: u64, update_initial_value: bool) -> (r: Result<
        (),
        GcalcError,
    >)
        ensures
            fraction_in_domain(probability as nat) ==> r is Ok && *final(self) == (Calculator {
                state: StepState {
                    probability: as_fraction(probability as nat) as u64,
                    initial_probability: if update_initial_value {
                        as_fraction(probability as nat) as u64
                    } else {
                        old(self).state.initial_probability
                    },
                    ..old(self).state
                },
                ..*old(self)
            }),
            !fraction_in_domain(probability as nat) ==> (r matches Err(GcalcError::InvalidProb)
                && *final(self) == *old(self)),
    {
        let p = match get_number_as_fraction(probability) {
            Ok(p) => p,
            Err(e) => return Err(e),
        };
        self.state.probability = p;
        if update_initial_value {
            self.state.initial_probability = p;
        }
        Ok(())
    }

    /// Sets the cost per trial; also the initial value when asked.
    pub fn set_cost(&mut self, cost: u64, update_initial_value: bool)
        ensures
            *final(self) == (Calculator {
                state: StepState {
                    cost,
                    initial_cost: if update_initial_value {
                        cost
                    } else {
                        old(self).state.initial_cost
                    },
                    ..old(self).state
                },
                ..*old(self)
            }),
    {
        self.state.cost = cost;
        if update_initial_value {
            self.state.initial_cost = cost;
        }
    }

    /// Sets the constant bonus, read as a fraction or a percentage; also the
    /// initial value when asked.
    pub fn set_constant(&mut self, constant: u64, update_initial_value: bool) -> (r: Result<
        (),
        GcalcError,
    >)
        ensures
            fraction_in_domain(constant as nat) ==> r is Ok && *final(self) == (Calculator {
                state: StepState {
                    bonus: as_fraction(constant as nat) as u64,
                    initial_bonus: if update_initial_value {
                        as_fraction(constant as nat) as u64
                    } else {
                        old(self).state.initial_bonus
                    },
                    ..old(self).state
                },
                ..*old(self)
            }),
            !fraction_in_domain(constant as nat) ==> (r matches Err(GcalcError::InvalidProb)
                && *final(self) == *old(self)),
    {
        let b = match get_number_as_fraction(constant) {
            Ok(b) => b,
            Err(e) => return Err(e),
        };
        self.state.bonus = b;
        if update_initial_value {
            self.state.initial_bonus = b;
        }
        Ok(())
    }

    pub fn set_strict_csv(&mut self, tv: bool)
        ensures
            *final(self) == (Calculator {
                record_behaviour: if tv {
                    CsvRecordBehaviour::Panic
                } else {
                    CsvRecordBehaviour::Repeat
                },
                ..*old(self)
            }),
    {
        if tv {
            self.record_behaviour = CsvRecordBehaviour::Panic;
        } else {
            self.record_behaviour = CsvRecordBehaviour::Repeat;
        }
    }

    /// Sets the target probability, which must lie in `[0, 1]`.
    pub fn set_target_probability(&mut self, target_probability: u64) -> (r: Result<(), GcalcError>)
        ensures
            target_probability <= ONE ==> r is Ok && *final(self) == (Calculator {
                target_probability: Some(target_probability),
                ..*old(self)
            }),
            target_probability > ONE ==> (r matches Err(GcalcError::InvalidArgument(Field::Target))
                && *final(self) == *old(self)),
    {
        if target_probability > ONE {
            return Err(GcalcError::InvalidArgument(Field::Target));
        }
        self.target_probability = Some(target_probability);
        Ok(())
    }

    pub fn set_budget(&mut self, budget: u64)
        ensures
            *final(self) == (Calculator { budget: Some(budget), ..*old(self) }),
    {
        self.budget = Some(budget);
    }

    pub fn set_offset(&mut self, offset: usize)
        ensures
            *final(self) == (Calculator { offset: Some(offset), ..*old(self) }),
    {
        self.offset = Some(offset);
    }

    pub fn set_table_format(&mut self, format: TableFormat)
        ensures
            *final(self) == (Calculator { format, ..*old(self) }),
    {
        self.format = format;
    }

    pub fn set_prob_type(&mut self, prob_type: ProbType)
        ensures
            *final(self) == (Calculator { prob_type, ..*old(self) }),
    {
        self.prob_type = prob_type;
    }

    pub fn set_precision(&mut self, precision: usize)
        ensures
            *final(self) == (Calculator { prob_precision: Some(precision), ..*old(self) }),
    {
        self.prob_precision = Some(precision);
    }

    pub fn set_csv_file(&mut self, csv_reference: CsvRef)
        ensures
            *final(self) == (Calculator { csv_ref: csv_reference, ..*old(self) }),
    {
        self.csv_ref = csv_reference;
    }

    pub fn set_out_file(&mut self, path: String)
        ensures
            *final(self) == (Calculator { out_option: OutOption::File(path), ..*old(self) }),
    {
        self.out_option = OutOption::File(path);
    }

    pub fn set_csv_value_fallback(&mut self, behaviour: &str) -> (r: Result<(), GcalcError>)
        ensures
            match r {
                Ok(()) => *final(self) == (Calculator {
                    csv_invalid_behaviour: final(self).csv_invalid_behaviour,
                    ..*old(self)
                }),
                Err(e) => e is InvalidConversion && *final(self) == *old(self),
            },
            lower_of(behaviour@) == "rollback"@ ==> r is Ok && final(self).csv_invalid_behaviour
                == CSVInvalidBehaviour::Rollback,
            lower_of(behaviour@) == "ignore"@ ==> r is Ok && final(self).csv_invalid_behaviour
                == CSVInvalidBehaviour::Ignore,
            lower_of(behaviour@) == "none"@ ==> r is Ok && final(self).csv_invalid_behaviour
                == CSVInvalidBehaviour::Fail,
            lower_of(behaviour@) != "rollback"@ && lower_of(behaviour@) != "ignore"@ && lower_of(
                behaviour@,
            ) != "none"@ ==> r is Err,
    {
        match CSVInvalidBehaviour::from_str(behaviour) {
            Ok(b) => {
                self.csv_invalid_behaviour = b;
                Ok(())
            },
            Err(e) => Err(e),
        }
    }

    pub fn set_plot(&mut self, tv: bool)
        ensures
            *final(self) == (Calculator { plot: tv, ..*old(self) }),
    {
        self.plot = tv;
    }

    pub fn set_trial_limit(&mut self, limit: u64)
        ensures
            *final(self) == (Calculator { trial_limit: limit, ..*old(self) }),
    {
        self.trial_limit = limit;
    }
}

} // verus!
