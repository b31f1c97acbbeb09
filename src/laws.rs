//! Laws of the engine, proved over the contracts' spec functions.
use vstd::prelude::*;
use crate::calc::{Calculator, Progress};
use crate::fixed::ONE;
use crate::models::{ParameterRow, RecordView};
use crate::error::Field;
use crate::error::GcalcError;
use crate::models::{CSVInvalidBehaviour, CsvRecordBehaviour};
use crate::source::{apply_row, cost_reading, count_reading, source_next};
use crate::utils::prob_reading;
use crate::state::{success_rate, StepState};
use crate::utils::{carry_after_trials, series};

verus! {

/// The state after each `(probability, bonus)` of a schedule is set in turn
/// and a trial is run.
pub open spec fn run_schedule(s: StepState, schedule: Seq<(u64, u64)>) -> StepState
    decreases schedule.len(),
{
    if schedule.len() == 0 {
        s
    } else {
        run_schedule(
            StepState { probability: schedule[0].0, bonus: schedule[0].1, ..s }.advanced(),
            schedule.drop_first(),
        )
    }
}

/// One trial keeps the state well formed and never lowers the cumulative
/// success.
pub proof fn lemma_advance(s: StepState)
    requires
        s.wf(),
    ensures
        s.advanced().wf(),
        s.advanced().cumulative_success >= s.cumulative_success,
        s.advanced().fail_carry <= s.fail_carry,
        s.carry_after() <= s.fail_carry,
        s.advanced().fail_carry == s.carry_after(),
{
    let keep = (ONE - success_rate(s.probability as nat, s.bonus as nat)) as nat;
    let c = s.fail_carry as nat;
    assert(c * keep <= c * (ONE as nat)) by (nonlinear_arith)
        requires keep <= ONE;
    assert(c * keep / (ONE as nat) <= c) by (nonlinear_arith)
        requires c * keep <= c * (ONE as nat);
}

/// Mass conservation: whatever probabilities and bonuses (each within
/// `[0, 1]`) the trials run with, cumulative success and unresolved mass
/// sum to exactly one after every trial.
pub proof fn law_mass_conserved(s: StepState, schedule: Seq<(u64, u64)>)
    requires
        s.wf(),
        forall|i: int|
            0 <= i < schedule.len() ==> (#[trigger] schedule[i]).0 <= ONE && schedule[i].1 <= ONE,
    ensures
        run_schedule(s, schedule).wf(),
        run_schedule(s, schedule).cumulative_success + run_schedule(s, schedule).fail_carry == ONE,
    decreases schedule.len(),
{
    if schedule.len() > 0 {
        let set = StepState { probability: schedule[0].0, bonus: schedule[0].1, ..s };
        assert(set.wf());
        lemma_advance(set);
        let rest = schedule.drop_first();
        assert forall|i: int| 0 <= i < rest.len() implies (#[trigger] rest[i]).0 <= ONE && rest[i].1
            <= ONE by {
            assert(rest[i] == schedule[i + 1]);
        }
        law_mass_conserved(set.advanced(), rest);
    }
}

proof fn lemma_prob_reading_bounded(text: Seq<char>, field: Field)
    ensures
        prob_reading(text, field) matches Ok(v) ==> v <= ONE,
{
}

/// Reading a row changes probability, bonus and cost only, within bounds.
proof fn lemma_source_keeps_mass(
    calc: Calculator,
    rows: Seq<ParameterRow>,
    st: StepState,
    cursor: nat,
    trial: nat,
)
    requires
        st.wf(),
    ensures
        source_next(calc.csv_invalid_behaviour, calc.record_behaviour, rows, st, cursor, trial) matches Ok(
            (next, _),
        ) ==> next.wf() && next.cumulative_success == st.cumulative_success && next.fail_carry
            == st.fail_carry,
{
    if cursor < rows.len() {
        let row = rows[cursor as int];
        lemma_prob_reading_bounded(row.probability@, Field::Probability);
        lemma_prob_reading_bounded(row.constant@, Field::Constant);
    }
}

proof fn lemma_trial_step(calc: Calculator, rows: Option<Seq<ParameterRow>>, p: Progress, trial: nat)
    requires
        p.state.wf(),
    ensures
        calc.trial_step(rows, p, trial) matches Ok(next) ==> {
            &&& next.state.wf()
            &&& next.state.cumulative_success >= p.state.cumulative_success
            &&& next.total >= p.total
        },
{
    if let Some(rs) = rows {
        lemma_source_keeps_mass(calc, rs, p.state, p.cursor, trial);
        if let Ok((st, _)) = source_next(
            calc.csv_invalid_behaviour,
            calc.record_behaviour,
            rs,
            p.state,
            p.cursor,
            trial,
        ) {
            lemma_advance(st);
        }
    } else {
        lemma_advance(p.state);
    }
}

/// Cumulative probabilities and total costs never decrease along records.
pub open spec fn monotone(recs: Seq<RecordView>) -> bool {
    forall|i: int, j: int|
        0 <= i < j < recs.len() ==> (#[trigger] recs[i]).probability_src
            <= (#[trigger] recs[j]).probability_src && recs[i].cost <= recs[j].cost
}

pub open spec fn below(recs: Seq<RecordView>, p: Progress) -> bool {
    recs.len() > 0 ==> recs.last().probability_src <= p.state.cumulative_success && recs.last().cost
        <= p.total
}

proof fn lemma_push_monotone(calc: Calculator, acc: Seq<RecordView>, p: Progress, next: Progress, trial: nat)
    requires
        monotone(acc),
        below(acc, p),
        next.state.cumulative_success >= p.state.cumulative_success,
        next.total >= p.total,
    ensures
        monotone(acc.push(calc.record_of(next, trial))),
        below(acc.push(calc.record_of(next, trial)), next),
{
    let out = acc.push(calc.record_of(next, trial));
    assert forall|i: int, j: int| 0 <= i < j < out.len() implies (#[trigger] out[i]).probability_src
        <= (#[trigger] out[j]).probability_src && out[i].cost <= out[j].cost by {
        if j < acc.len() {
            assert(out[i] == acc[i] && out[j] == acc[j]);
        } else {
            assert(out[i] == acc[i]);
            if i < acc.len() - 1 {
                assert(acc[i].probability_src <= acc.last().probability_src);
            }
        }
    }
}

proof fn lemma_primary_monotone(
    calc: Calculator,
    rows: Option<Seq<ParameterRow>>,
    use_range: bool,
    p: Progress,
    trial: nat,
    acc: Seq<RecordView>,
    fuel: nat,
)
    requires
        p.state.wf(),
        monotone(acc),
        below(acc, p),
    ensures
        calc.primary_run(rows, use_range, p, trial, acc, fuel) matches Ok((q, _, out)) ==> q.state.wf()
            && monotone(out) && below(out, q),
    decreases fuel,
{
    if fuel > 0 {
        lemma_trial_step(calc, rows, p, trial);
        if let Ok(next) = calc.trial_step(rows, p, trial) {
            lemma_push_monotone(calc, acc, p, next, trial);
            lemma_primary_monotone(
                calc,
                rows,
                use_range,
                next,
                trial + 1,
                acc.push(calc.record_of(next, trial)),
                (fuel - 1) as nat,
            );
        }
    }
}

proof fn lemma_trailing_monotone(
    calc: Calculator,
    rows: Option<Seq<ParameterRow>>,
    p: Progress,
    trial: nat,
    acc: Seq<RecordView>,
    k: nat,
)
    requires
        p.state.wf(),
        monotone(acc),
        below(acc, p),
    ensures
        calc.trailing_run(rows, p, trial, acc, k) matches Ok(out) ==> monotone(out),
    decreases k,
{
    if k > 0 {
        lemma_trial_step(calc, rows, p, trial + 1);
        if let Ok(next) = calc.trial_step(rows, p, trial + 1) {
            lemma_push_monotone(calc, acc, p, next, trial + 1);
            lemma_trailing_monotone(
                calc,
                rows,
                next,
                trial + 1,
                acc.push(calc.record_of(next, trial + 1)),
                (k - 1) as nat,
            );
        }
    }
}

/// Monotonicity: along the records of any computation, with or without
/// reference rows, the cumulative probability and the total cost never
/// decrease.
pub proof fn law_records_monotone(calc: Calculator, rows: Option<Seq<ParameterRow>>, use_range: bool)
    requires
        calc.wf(),
    ensures
        calc.records_outcome(rows, use_range) matches Ok(recs) ==> monotone(recs),
{
    let empty = Seq::<RecordView>::empty();
    lemma_primary_monotone(
        calc,
        rows,
        use_range,
        calc.start(),
        1,
        empty,
        calc.primary_fuel(use_range),
    );
    if let Ok((q, t, acc)) = calc.primary_run(
        rows,
        use_range,
        calc.start(),
        1,
        empty,
        calc.primary_fuel(use_range),
    ) {
        lemma_trailing_monotone(calc, rows, q, t, acc, calc.trailing_trials());
    }
}

proof fn lemma_closed_primary(
    calc: Calculator,
    p: Progress,
    trial: nat,
    acc: Seq<RecordView>,
    fuel: nat,
)
    requires
        p.state.wf(),
        p.state.bonus == 0,
        p.state.probability == calc.state.probability,
        p.state.fail_carry == carry_after_trials(calc.state.probability as nat, (trial - 1) as nat),
        calc.target_probability is None,
        calc.budget is None,
        1 <= trial <= calc.count,
        trial + fuel == calc.count + 1,
        acc.len() == trial - 1,
        forall|k: int|
            0 <= k < acc.len() ==> (#[trigger] acc[k]).probability_src == series(
                calc.state.probability as nat,
                (k + 1) as nat,
            ),
    ensures
        calc.primary_run(None, true, p, trial, acc, fuel) matches Ok((_, _, out)) && out.len()
            == calc.count && forall|k: int|
            0 <= k < out.len() ==> (#[trigger] out[k]).probability_src == series(
                calc.state.probability as nat,
                (k + 1) as nat,
            ),
    decreases fuel,
{
    let prob = calc.state.probability as nat;
    lemma_advance(p.state);
    let next = calc.trial_step(None, p, trial)->Ok_0;
    assert(success_rate(prob, 0) == prob);
    assert(carry_after_trials(prob, trial) == carry_after_trials(prob, (trial - 1) as nat) * ((ONE
        - prob) as nat) / (ONE as nat));
    assert(p.state.carry_after() == carry_after_trials(prob, trial));
    assert(next.state.fail_carry == carry_after_trials(prob, trial));
    let acc2 = acc.push(calc.record_of(next, trial));
    assert(next.state.cumulative_success + next.state.fail_carry == ONE);
    assert(acc2[trial - 1].probability_src == series(prob, trial));
    assert forall|k: int| 0 <= k < acc2.len() implies (#[trigger] acc2[k]).probability_src == series(
        prob,
        (k + 1) as nat,
    ) by {
        if k < acc.len() {
            assert(acc2[k] == acc[k]);
        }
    }
    if trial < calc.count {
        lemma_closed_primary(calc, next, trial + 1, acc2, (fuel - 1) as nat);
    }
}

/// Closed-form agreement: with a constant probability, no bonus and no
/// reference rows, the cumulative probability the trial loop reports after
/// `n` trials is the geometric series of `n` trials, for every `n` up to the
/// count.
pub proof fn law_closed_form_agrees(calc: Calculator)
    requires
        calc.wf(),
        calc.state.bonus == 0,
        calc.target_probability is None,
        calc.budget is None,
        calc.offset is None,
        calc.count >= 1,
    ensures
        calc.records_outcome(None, true) matches Ok(recs) && recs.len() == calc.count && forall|
            k: int,
        |
            0 <= k < recs.len() ==> (#[trigger] recs[k]).probability_src == series(
                calc.state.probability as nat,
                (k + 1) as nat,
            ),
{
    assert(calc.state.fail_carry == ONE);
    lemma_closed_primary(calc, calc.start(), 1, Seq::empty(), calc.count as nat);
}

/// Deferred rows: a row whose count names a later trial is not used; the
/// state and the cursor stay as they are, so the same row is offered on
/// the next trial.
pub proof fn law_future_row_waits(
    behaviour: CSVInvalidBehaviour,
    exhaustion: CsvRecordBehaviour,
    rows: Seq<ParameterRow>,
    st: StepState,
    cursor: nat,
    trial: nat,
)
    requires
        cursor < rows.len(),
        count_reading(rows[cursor as int].count@, trial) matches Ok(hint) && hint > trial,
    ensures
        source_next(behaviour, exhaustion, rows, st, cursor, trial) == Ok::<(StepState, nat), GcalcError>(
            (st, cursor),
        ),
{
}

/// Rollback: when a used row's probability cell cannot be parsed and its
/// other cells can be read, the probability returns to the value fixed at
/// configuration time, whatever earlier rows set.
pub proof fn law_rollback_uses_initial(st: StepState, row: ParameterRow, trial: u64)
    requires
        prob_reading(row.probability@, Field::Probability) is Err,
        prob_reading(row.probability@, Field::Probability)->Err_0 is ParseError,
        prob_reading(row.constant@, Field::Constant) is Ok,
        cost_reading(row.cost@) is Ok,
    ensures
        apply_row(CSVInvalidBehaviour::Rollback, st, row, trial) matches Ok(next)
            && next.probability == st.initial_probability && next.initial_probability
            == st.initial_probability,
{
}

} // verus!
