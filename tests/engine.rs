use gcalc::calc::Calculator;
use gcalc::error::{Conditional, Field, GcalcError};
use gcalc::fixed::{parse_decimal_prefix, Decimal, ONE};
use gcalc::models::{
    CSVInvalidBehaviour, ColumnMap, CsvRecordBehaviour, ParameterRow, ProbType, RecordCursor,
    TableFormat,
};
use gcalc::source::{read_cost, read_count, read_probability, update_state_from_row};
use gcalc::state::StepState;
use gcalc::table::rows_from_columns;
use gcalc::text::float_to_string;
use gcalc::utils::{
    geometric_series, geometric_series_qual, get_number_as_fraction, get_prob_alap,
    get_prob_as_formatted,
};

fn nano(whole: u64, frac_millionths: u64) -> u64 {
    whole * ONE + frac_millionths * 1000
}

fn row(count: &str, probability: &str, constant: &str, cost: &str) -> ParameterRow {
    ParameterRow {
        count: count.to_string(),
        probability: probability.to_string(),
        constant: constant.to_string(),
        cost: cost.to_string(),
    }
}

fn calculator(probability: u64) -> Calculator {
    Calculator::new().unwrap().probability(probability).unwrap()
}

#[test]
fn scenario_fixed_count_five_trials() {
    let mut calc = calculator(300_000_000);
    let records = calc.range_records(Some(5), "").unwrap();
    assert_eq!(records.len(), 5);
    assert_eq!(records[4].count, 5);
    // 1 - 0.7^5 = 0.83193
    assert_eq!(records[4].probability_src, 831_930_000);
    assert_eq!(records[4].probability, "0.83193");
    assert_eq!(records[4].cost, 0);
}

#[test]
fn scenario_target_stops_at_twenty_two() {
    let calc = calculator(100_000_000).target_probability(900_000_000);
    assert!(calc.conditional_sanity_check(false).is_ok());
    let records = calc.conditional_records("").unwrap();
    assert_eq!(records.len(), 22);
    assert!(records[21].probability_src > 900_000_000);
    assert!(records[20].probability_src <= 900_000_000);
    for (i, r) in records.iter().enumerate() {
        assert_eq!(r.count, i as u64 + 1);
    }
}

#[test]
fn scenario_sparse_rows_stay_until_their_trial() {
    let rows = vec![row("1", "0.05", "0", ""), row("10", "0.5", "0", "")];
    let mut st = StepState::new(ONE, 0, 0);
    assert_eq!(
        update_state_from_row(CSVInvalidBehaviour::Fail, CsvRecordBehaviour::Repeat, &rows, &mut st, 0, 1).unwrap(),
        RecordCursor::Next
    );
    assert_eq!(st.probability, 50_000_000);
    for trial in 2..10u64 {
        let got = update_state_from_row(
            CSVInvalidBehaviour::Fail,
            CsvRecordBehaviour::Repeat,
            &rows,
            &mut st,
            1,
            trial,
        )
        .unwrap();
        assert_eq!(got, RecordCursor::Stay);
        assert_eq!(st.probability, 50_000_000);
    }
    assert_eq!(
        update_state_from_row(CSVInvalidBehaviour::Fail, CsvRecordBehaviour::Repeat, &rows, &mut st, 1, 10).unwrap(),
        RecordCursor::Next
    );
    assert_eq!(st.probability, 500_000_000);
}

#[test]
fn scenario_sparse_rows_through_the_loop() {
    let rows = vec![row("1", "0.05", "0", ""), row("10", "0.5", "0", "")];
    let calc = Calculator::new().unwrap().target_probability(990_000_000);
    let records = calc.create_records(false, Some(&rows)).unwrap();
    assert_eq!(records[8].probability_src, geometric_series(9, 50_000_000));
    let carry_after_nine = ONE - records[8].probability_src;
    assert_eq!(records[9].probability_src, ONE - carry_after_nine / 2);
}

#[test]
fn scenario_sparse_rows_from_csv_text() {
    let csv = "count,probability,constant,cost\n1,0.05,0,\n10,0.5,0,\n";
    let calc = Calculator::new().unwrap().target_probability(990_000_000);
    let records = calc.conditional_records(csv).unwrap();
    assert_eq!(records[8].probability_src, geometric_series(9, 50_000_000));
    let carry_after_nine = ONE - records[8].probability_src;
    assert_eq!(records[9].probability_src, ONE - carry_after_nine / 2);
    assert_eq!(records.last().unwrap().probability_src > 990_000_000, true);
}

#[test]
fn scenario_zero_cost_budget_is_refused() {
    let calc = calculator(100_000_000).budget(nano(100, 0));
    match calc.conditional_records("") {
        Err(GcalcError::InvalidConditional(Conditional::ZeroCostBudget)) => {}
        other => panic!("unexpected {:?}", other.map(|v| v.len())),
    }
}

#[test]
fn scenario_rollback_uses_initial_snapshot() {
    let calc = calculator(200_000_000);
    let rows = vec![
        row("", "0.2", "0", ""),
        row("", "0.4", "0", ""),
        row("", "abc", "0", ""),
    ];
    let mut st = calc.state;
    for (i, trial) in (1..=3u64).enumerate() {
        update_state_from_row(
            CSVInvalidBehaviour::Rollback,
            CsvRecordBehaviour::Repeat,
            &rows,
            &mut st,
            i,
            trial,
        )
        .unwrap();
        if trial == 2 {
            assert_eq!(st.probability, 400_000_000);
        }
    }
    assert_eq!(st.probability, 200_000_000);
}

#[test]
fn ignore_keeps_previous_value() {
    let rows = vec![row("", "0.4", "0", ""), row("", "", "0", "")];
    let mut st = StepState::new(200_000_000, 0, 0);
    update_state_from_row(CSVInvalidBehaviour::Ignore, CsvRecordBehaviour::Repeat, &rows, &mut st, 0, 1).unwrap();
    update_state_from_row(CSVInvalidBehaviour::Ignore, CsvRecordBehaviour::Repeat, &rows, &mut st, 1, 2).unwrap();
    assert_eq!(st.probability, 400_000_000);
}

#[test]
fn fallback_none_propagates_parse_error() {
    let rows = vec![row("", "", "0", "")];
    let mut st = StepState::new(200_000_000, 0, 0);
    let r = update_state_from_row(CSVInvalidBehaviour::Fail, CsvRecordBehaviour::Repeat, &rows, &mut st, 0, 1);
    assert!(matches!(r, Err(GcalcError::CsvParseError { field: Field::Probability, trial: 1 })));
    assert_eq!(st.probability, 200_000_000);
}

#[test]
fn state_unchanged_when_a_later_cell_fails() {
    let rows = vec![row("", "0.4", "", "")];
    let mut st = StepState::new(200_000_000, 0, 0);
    let r = update_state_from_row(CSVInvalidBehaviour::Fail, CsvRecordBehaviour::Repeat, &rows, &mut st, 0, 3);
    assert!(matches!(r, Err(GcalcError::CsvParseError { field: Field::Constant, trial: 3 })));
    assert_eq!(st, StepState::new(200_000_000, 0, 0));
}

#[test]
fn malformed_cost_names_the_trial() {
    let rows = vec![row("", "0.4", "0", "abc")];
    let mut st = StepState::new(200_000_000, 0, 0);
    let r = update_state_from_row(CSVInvalidBehaviour::Fail, CsvRecordBehaviour::Repeat, &rows, &mut st, 0, 7);
    assert!(matches!(r, Err(GcalcError::CsvParseError { field: Field::Cost, trial: 7 })));
}

#[test]
fn out_of_domain_cell_fails_under_every_policy() {
    let rows = vec![row("", "150", "0", "")];
    for policy in [CSVInvalidBehaviour::Ignore, CSVInvalidBehaviour::Rollback, CSVInvalidBehaviour::Fail] {
        let mut st = StepState::new(200_000_000, 0, 0);
        let r = update_state_from_row(policy, CsvRecordBehaviour::Repeat, &rows, &mut st, 0, 1);
        assert!(matches!(r, Err(GcalcError::InvalidProb)));
    }
}

#[test]
fn malformed_count_cell_names_the_trial() {
    let rows = vec![row("x", "0.4", "0", "")];
    let mut st = StepState::new(200_000_000, 0, 0);
    let r = update_state_from_row(CSVInvalidBehaviour::Ignore, CsvRecordBehaviour::Repeat, &rows, &mut st, 0, 2);
    assert!(matches!(r, Err(GcalcError::CsvParseError { field: Field::Count, trial: 2 })));
}

#[test]
fn exponent_notation() {
    assert_eq!(get_prob_alap("1e2").unwrap(), ONE);
    assert_eq!(get_prob_alap("5e-1").unwrap(), 500_000_000);
    assert_eq!(get_prob_alap("2.5E1%").unwrap(), 250_000_000);
    assert_eq!(get_prob_alap("0.000000000000000000000001e22").unwrap(), 10_000_000);
    assert_eq!(get_prob_alap("1e-30").unwrap(), 0);
    assert!(matches!(get_prob_alap("1e400"), Err(GcalcError::InvalidProb)));
    assert!(matches!(get_prob_alap("1e"), Err(GcalcError::ParseError(Field::Probability))));
    assert!(matches!(get_prob_alap("e5"), Err(GcalcError::ParseError(Field::Probability))));
    assert_eq!(read_cost("1.5e3").unwrap(), 1500 * ONE);
    assert_eq!(read_cost("0e99999999999999999999999").unwrap(), 0);
}

#[test]
fn infinity_and_nan_are_out_of_domain() {
    assert!(matches!(get_prob_alap("inf"), Err(GcalcError::InvalidProb)));
    assert!(matches!(get_prob_alap("-Infinity"), Err(GcalcError::InvalidProb)));
    assert!(matches!(get_prob_alap("NaN"), Err(GcalcError::InvalidProb)));
    assert!(matches!(get_prob_alap("nan%"), Err(GcalcError::InvalidProb)));
    assert!(matches!(get_prob_alap("infx"), Err(GcalcError::ParseError(Field::Probability))));
}

#[test]
fn qualification_bonus_is_shown_not_compounded() {
    let calc = calculator(400_000_000).constant(500_000_000).unwrap().target_probability(500_000_000);
    let q = calc.qualification_from_value("").unwrap();
    assert_eq!(q.count, 2);
    assert_eq!(q.probability, "1.14");
}

#[test]
fn strict_mode_fails_when_rows_run_out() {
    let rows = vec![row("", "0.5", "0", "")];
    let calc = Calculator::new().unwrap().strict_csv(true);
    let mut calc = calc;
    calc.count = 3;
    let r = calc.create_records(true, Some(&rows));
    assert!(matches!(r, Err(GcalcError::CsvError { trial: 2 })));
}

#[test]
fn repeat_mode_keeps_last_row() {
    let rows = vec![row("", "0.5", "0", "1")];
    let mut calc = Calculator::new().unwrap();
    calc.count = 3;
    let records = calc.create_records(true, Some(&rows)).unwrap();
    assert_eq!(records.len(), 3);
    assert_eq!(records[2].probability_src, 875_000_000);
    assert_eq!(records[2].cost, 3 * ONE as u128);
}

#[test]
fn empty_cost_cell_is_zero() {
    assert_eq!(read_cost("").unwrap(), 0);
    assert_eq!(read_cost("2.5").unwrap(), 2_500_000_000);
    assert!(matches!(read_cost("x"), Err(GcalcError::ParseError(Field::Cost))));
    assert!(matches!(read_cost("-1"), Err(GcalcError::ParseError(Field::Cost))));
}

#[test]
fn count_cell_reading() {
    assert_eq!(read_count("", 7).unwrap(), 7);
    assert_eq!(read_count("12", 7).unwrap(), 12);
    assert_eq!(read_count("+5", 7).unwrap(), 5);
    assert!(matches!(read_count("+", 7), Err(GcalcError::ParseError(Field::Count))));
    assert!(matches!(read_count("-5", 7), Err(GcalcError::ParseError(Field::Count))));
    assert!(matches!(read_count("1x", 7), Err(GcalcError::ParseError(Field::Count))));
    assert!(matches!(read_count("99999999999999999999999", 7), Err(GcalcError::ParseError(Field::Count))));
}

#[test]
fn trial_limit_stops_slow_runs() {
    let rows = vec![row("", "0", "0", "")];
    let calc = Calculator::new().unwrap().target_probability(500_000_000).trial_limit(10);
    let r = calc.create_records(false, Some(&rows));
    assert!(matches!(r, Err(GcalcError::TrialLimit { limit: 10 })));
}

#[test]
fn trailing_offset_adds_trials() {
    let mut calc = calculator(500_000_000).target_probability(700_000_000);
    calc.set_offset(2);
    let records = calc.conditional_records("").unwrap();
    assert_eq!(records.len(), 4);
    assert_eq!(records[3].count, 4);
    assert_eq!(records[3].probability_src, 937_500_000);
}

#[test]
fn budget_stops_after_passing() {
    let calc = calculator(10_000_000).cost(ONE).budget(nano(3, 0));
    let records = calc.conditional_records("").unwrap();
    assert_eq!(records.len(), 4);
    assert_eq!(records[3].cost, 4 * ONE as u128);
}

#[test]
fn validator_rejections() {
    let calc = calculator(100_000_000);
    assert!(matches!(calc.conditional_sanity_check(false), Err(GcalcError::InvalidConditional(Conditional::NoCondition))));
    let calc = Calculator::new().unwrap().probability(0).unwrap().target_probability(500_000_000);
    assert!(matches!(calc.conditional_sanity_check(false), Err(GcalcError::InvalidConditional(Conditional::ZeroProbabilityTarget))));
    assert!(calc.conditional_sanity_check(true).is_ok());
    let calc = calculator(100_000_000).target_probability(ONE);
    assert!(matches!(calc.conditional_sanity_check(false), Err(GcalcError::InvalidConditional(Conditional::UnreachableTarget))));
}

#[test]
fn closed_form_matches_loop() {
    for p in [100_000_000u64, 300_000_000, 900_000_000] {
        for n in [1usize, 5, 50] {
            let mut calc = calculator(p);
            let records = calc.range_records(Some(n), "").unwrap();
            assert_eq!(records.len(), n);
            assert_eq!(records[n - 1].probability_src, geometric_series(n as u64, p));
        }
    }
}

#[test]
fn least_trials_to_target() {
    assert_eq!(geometric_series_qual(100_000_000, 900_000_000), 22);
    assert_eq!(geometric_series_qual(ONE, 900_000_000), 1);
    assert_eq!(geometric_series_qual(500_000_000, 0), 0);
}

#[test]
fn geometric_series_values() {
    assert_eq!(geometric_series(0, 300_000_000), 0);
    assert_eq!(geometric_series(2, 500_000_000), 750_000_000);
    assert_eq!(geometric_series(10, 0), 0);
}

#[test]
fn qualification_closed_form() {
    let calc = calculator(100_000_000).target_probability(900_000_000).cost(nano(2, 0));
    let q = calc.qualification_from_value("").unwrap();
    assert_eq!(q.count, 22);
    assert_eq!(q.cost, 44 * ONE as u128);
}

#[test]
fn qualification_budget_caps_count() {
    let calc = calculator(100_000_000).target_probability(900_000_000).cost(nano(2, 0)).budget(nano(10, 0));
    let q = calc.qualification_from_value("").unwrap();
    assert_eq!(q.count, 5);
    assert_eq!(q.cost, 10 * ONE as u128);
    assert_eq!(q.probability, "0.40951");
}

#[test]
fn qualification_certain_success() {
    let calc = Calculator::new().unwrap().target_probability(500_000_000).cost(nano(3, 0));
    let q = calc.qualification_from_value("").unwrap();
    assert_eq!(q.count, 1);
    assert_eq!(q.cost, 3 * ONE as u128);
    assert_eq!(q.probability, "1");
}

#[test]
fn qualification_with_rows_uses_last_record() {
    let csv = "count,probability,constant,cost\n,0.5,0,1\n";
    let calc = Calculator::new().unwrap().target_probability(800_000_000);
    let q = calc.qualification_from_value(csv).unwrap();
    assert_eq!(q.count, 3);
    assert_eq!(q.cost, 3 * ONE as u128);
    assert_eq!(q.probability, "0.875");
}

#[test]
fn csv_without_header() {
    let csv = ",0.5,0,1\n,0.5,0,1\n";
    let calc = Calculator::new().unwrap().target_probability(700_000_000).no_header(true);
    let rows = calc.index_record_from_value(csv).unwrap().unwrap();
    assert_eq!(rows.len(), 2);
    assert_eq!(rows[0].probability, "0.5");
    let records = calc.conditional_records(csv).unwrap();
    assert_eq!(records.len(), 2);
}

#[test]
fn csv_missing_column_is_empty() {
    let csv = "probability,cost\n0.5,1\n";
    let calc = Calculator::new().unwrap();
    let rows = calc.index_record_from_value(csv).unwrap().unwrap();
    assert_eq!(rows.len(), 1);
    assert_eq!(rows[0].count, "");
    assert_eq!(rows[0].probability, "0.5");
    assert_eq!(rows[0].constant, "");
    assert_eq!(rows[0].cost, "1");
}

#[test]
fn misshapen_cells_are_rejected() {
    let one = vec![vec!["1".to_string()]];
    let two = vec![vec!["1".to_string(), "0.5".to_string()]];
    assert!(matches!(rows_from_columns(&one, &two, &one, &one), Err(GcalcError::CsvShape { row: 0 })));
    assert!(matches!(rows_from_columns(&one, &vec![], &one, &one), Err(GcalcError::CsvShape { .. })));
    let rows = rows_from_columns(&one, &one, &one, &one).unwrap();
    assert_eq!(rows[0].cost, "1");
}

#[test]
fn probability_normalization() {
    assert_eq!(get_prob_alap("0.5").unwrap(), 500_000_000);
    assert_eq!(get_prob_alap("50%").unwrap(), 500_000_000);
    assert_eq!(get_prob_alap("50").unwrap(), 500_000_000);
    assert_eq!(get_prob_alap("1").unwrap(), ONE);
    assert_eq!(get_prob_alap("100").unwrap(), ONE);
    assert_eq!(get_prob_alap("2.5%").unwrap(), 25_000_000);
    assert!(matches!(get_prob_alap("101"), Err(GcalcError::InvalidProb)));
    assert!(matches!(get_prob_alap("-0.1"), Err(GcalcError::InvalidProb)));
    assert!(matches!(get_prob_alap("abc"), Err(GcalcError::ParseError(Field::Probability))));
    assert!(matches!(get_prob_alap(""), Err(GcalcError::ParseError(Field::Probability))));
    assert!(matches!(read_probability("", Field::Constant), Err(GcalcError::ParseError(Field::Constant))));
    assert_eq!(get_number_as_fraction(nano(20, 0)).unwrap(), 200_000_000);
    assert!(matches!(get_number_as_fraction(nano(100, 1)), Err(GcalcError::InvalidProb)));
}

#[test]
fn decimal_parsing() {
    let s = "12.3456789019";
    assert_eq!(
        parse_decimal_prefix(s, s.len()),
        Some(Decimal::Value { negative: false, nano: 12_345_678_901 })
    );
    assert_eq!(parse_decimal_prefix("-.5", 3), Some(Decimal::Value { negative: true, nano: 500_000_000 }));
    assert_eq!(parse_decimal_prefix("5.", 2), Some(Decimal::Value { negative: false, nano: 5 * ONE }));
    assert_eq!(parse_decimal_prefix(".", 1), None);
    assert_eq!(parse_decimal_prefix("1.2.3", 5), None);
    assert_eq!(parse_decimal_prefix("1e5", 3), None);
    assert_eq!(parse_decimal_prefix("99999999999", 11), Some(Decimal::TooLarge { negative: false }));
}

#[test]
fn formatting() {
    assert_eq!(float_to_string(831_930_000, None), "0.83193");
    assert_eq!(float_to_string(831_930_000, Some(3)), "0.831");
    assert_eq!(float_to_string(831_939_999, Some(4)), "0.8319");
    assert_eq!(float_to_string(500_000_000, Some(12)), "0.500000000000");
    assert_eq!(float_to_string(ONE, None), "1");
    assert_eq!(float_to_string(ONE, Some(0)), "1");
    assert_eq!(float_to_string(1, None), "0.000000001");
    assert_eq!(get_prob_as_formatted(831_930_000, &ProbType::Percentage, &Some(2)), "83.19%");
    assert_eq!(get_prob_as_formatted(831_930_000, &ProbType::Percentage, &None), "83.193%");
    assert_eq!(get_prob_as_formatted(831_930_000, &ProbType::Fraction, &None), "0.83193");
}

#[test]
fn keywords_in_any_case() {
    assert_eq!(CSVInvalidBehaviour::from_str("ROLLBACK").unwrap(), CSVInvalidBehaviour::Rollback);
    assert_eq!(CSVInvalidBehaviour::from_str("Ignore").unwrap(), CSVInvalidBehaviour::Ignore);
    assert_eq!(CSVInvalidBehaviour::from_str("none").unwrap(), CSVInvalidBehaviour::Fail);
    assert!(matches!(CSVInvalidBehaviour::from_str("x"), Err(GcalcError::InvalidConversion)));
    assert_eq!(ProbType::from_str("Percent").unwrap(), ProbType::Percentage);
    assert_eq!(ProbType::from_str("FLOAT").unwrap(), ProbType::Fraction);
    assert_eq!(TableFormat::from_str("GitHub").unwrap(), TableFormat::GFM);
    assert_eq!(TableFormat::from_str("CSV").unwrap(), TableFormat::CSV);
    assert!(matches!(TableFormat::from_str("xml"), Err(GcalcError::InvalidConversion)));
}

#[test]
fn setters_and_builders() {
    let mut calc = Calculator::new().unwrap();
    assert!(calc.set_target_probability(ONE + 1).is_err());
    assert!(calc.set_target_probability(ONE).is_ok());
    assert_eq!(calc.target_probability, Some(ONE));
    calc.set_probability(nano(40, 0), false).unwrap();
    assert_eq!(calc.state.probability, 400_000_000);
    assert_eq!(calc.state.initial_probability, ONE);
    calc.set_constant(100_000_000, true).unwrap();
    assert_eq!(calc.state.bonus, 100_000_000);
    assert!(calc.set_constant(nano(200, 0), true).is_err());
    calc.set_cost(nano(5, 0), true);
    assert_eq!(calc.state.initial_cost, nano(5, 0));
    calc.set_csv_value_fallback("Rollback").unwrap();
    assert_eq!(calc.csv_invalid_behaviour, CSVInvalidBehaviour::Rollback);
    calc.set_strict_csv(true);
    assert_eq!(calc.record_behaviour, CsvRecordBehaviour::Panic);
    let calc = calc.column_map(ColumnMap::new()).precision(2).prob_type(ProbType::Percentage);
    assert_eq!(calc.prob_precision, Some(2));
}

#[test]
fn percentage_records() {
    let mut calc = calculator(500_000_000).prob_type(ProbType::Percentage).precision(1);
    let records = calc.range_records(Some(2), "").unwrap();
    assert_eq!(records[0].probability, "50.0%");
    assert_eq!(records[1].probability, "75.0%");
}

#[test]
fn range_with_zero_count_runs_one_trial() {
    let mut calc = calculator(500_000_000);
    let records = calc.range_records(Some(0), "").unwrap();
    assert_eq!(records.len(), 1);
}

#[test]
fn mass_is_conserved_on_varying_schedule() {
    let mut st = StepState::new(0, 0, 0);
    for (p, b) in [(100_000_000u64, 0u64), (333_333_333, 333_333_333), (ONE, ONE), (0, 0)] {
        st.probability = p;
        st.bonus = b;
        let before = st.cumulative_success;
        st.advance();
        assert_eq!(st.cumulative_success + st.fail_carry, ONE);
        assert!(st.cumulative_success >= before);
    }
}

#[test]
fn records_are_monotone() {
    let rows = vec![
        row("", "0.1", "0", "2"),
        row("", "0", "0.3", ""),
        row("", "0.9", "0", "1"),
    ];
    let mut calc = Calculator::new().unwrap();
    calc.count = 6;
    let records = calc.create_records(true, Some(&rows)).unwrap();
    for w in records.windows(2) {
        assert!(w[0].probability_src <= w[1].probability_src);
        assert!(w[0].cost <= w[1].cost);
    }
}
