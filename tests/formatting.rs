use gcalc::formatter::{QualFormatter, RecordFormatter};
use gcalc::models::{Qualficiation, Record};
use gcalc::text::amount_to_string;

fn record(count: u64, p: u64, text: &str, cost: u128, constant: u64) -> Record {
    Record::new(count, p, text.to_string(), cost, constant)
}

#[test]
fn record_line_joins_fields() {
    let r = record(3, 500_000_000, "0.5", 2_500_000_000, 100_000_000);
    assert_eq!(r.join_as_csv(), "3,0.5,2.5,0.1");
}

#[test]
fn qualification_line_joins_fields() {
    let q = Qualficiation::new(22, 44_000_000_000, "0.9015");
    assert_eq!(q.join_as_csv(), "22,0.9015,44");
    assert_eq!(QualFormatter::to_csv_table(&q), "22,0.9015,44");
}

#[test]
fn raw_csv_keeps_range() {
    let records = vec![
        record(1, 100_000_000, "0.1", 0, 0),
        record(2, 190_000_000, "0.19", 0, 0),
        record(3, 271_000_000, "0.271", 0, 0),
    ];
    assert_eq!(
        RecordFormatter::to_raw_csv(&records, None),
        "count,probability,cost,constant,value\n1,0.1,0,0\n2,0.19,0,0\n3,0.271,0,0"
    );
    assert_eq!(
        RecordFormatter::to_raw_csv(&records, Some((1, 1))),
        "count,probability,cost,constant,value\n2,0.19,0,0"
    );
    assert_eq!(RecordFormatter::to_raw_csv(&vec![], None), "count,probability,cost,constant,value");
}

#[test]
fn large_amounts() {
    assert_eq!(amount_to_string(123_456_789_000_000_000_000_000_001), "123456789000000000.000000001");
    assert_eq!(amount_to_string(0), "0");
}
