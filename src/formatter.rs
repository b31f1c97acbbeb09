//! CSV text of records and qualifications.
use vstd::prelude::*;
use vstd::string::StringExecFns;
use crate::models::{Qualficiation, Record, RecordView};
use crate::text::{amount_to_string, fixed_text, float_to_string, nat_text, push_char, push_nat};

verus! {

/// One CSV line of a record: count, probability, cost, constant.
pub open spec fn record_line(r: RecordView) -> Seq<char> {
    nat_text(r.count) + seq![','] + r.probability + seq![','] + fixed_text(r.cost, None) + seq![',']
        + fixed_text(r.constant, None)
}

/// One CSV line of a qualification: count, probability, cost.
pub open spec fn qualification_line(count: nat, probability: Seq<char>, cost: nat) -> Seq<char> {
    nat_text(count) + seq![','] + probability + seq![','] + fixed_text(cost, None)
}

pub open spec fn csv_header() -> Seq<char> {
    "count,probability,cost,constant,value"@
}

/// The lines of the records whose 0-based index lies in `[min, max]`, each
/// preceded by a line break.
pub open spec fn csv_body(recs: Seq<RecordView>, min: nat, max: nat) -> Seq<char>
    decreases recs.len(),
{
    if recs.len() == 0 {
        Seq::empty()
    } else {
        let i = (recs.len() - 1) as nat;
        csv_body(recs.drop_last(), min, max) + if min <= i && i <= max {
            seq!['\n'] + record_line(recs.last())
        } else {
            Seq::empty()
        }
    }
}

impl Record {
    pub fn join_as_csv(&self) -> (r: String)
        ensures
            r@ == record_line(self@),
    {
        let mut joined = String::new();
        push_nat(&mut joined, self.count as u128);
        push_char(&mut joined, ',');
        joined.append(self.probability.as_str());
        push_char(&mut joined, ',');
        let cost = amount_to_string(self.cost);
        joined.append(cost.as_str());
        push_char(&mut joined, ',');
        let constant = float_to_string(self.constant, None);
        joined.append(constant.as_str());
        assert(joined@ =~= record_line(self@));
        joined
    }
}

impl Qualficiation {
    pub fn join_as_csv(&self) -> (r: String)
        ensures
            r@ == qualification_line(self.count as nat, self.probability@, self.cost as nat),
    {
        let mut joined = String::new();
        push_nat(&mut joined, self.count as u128);
        push_char(&mut joined, ',');
        joined.append(self.probability.as_str());
        push_char(&mut joined, ',');
        let cost = amount_to_string(self.cost);
        joined.append(cost.as_str());
        assert(joined@ =~= qualification_line(self.count as nat, self.probability@, self.cost as nat));
        joined
    }
}

/// Text of a qualification summary.
pub struct QualFormatter;

impl QualFormatter {
    /// CSV text of a qualification.
    pub fn to_csv_table(qual: &Qualficiation) -> (r: String)
    ensures
        r@ == qualification_line(qual.count as nat, qual.probability@, qual.cost as nat),
    {
        qual.join_as_csv()
    }
}

/// Text of a record table.
pub struct RecordFormatter;

impl RecordFormatter {
    /// CSV text of records: a header line, then the records whose 0-based index
    /// lies in the inclusive range (all records when none is given).
    pub fn to_raw_csv(records: &Vec<Record>, range: Option<(usize, usize)>) -> (r: String)
        ensures
            r@ == csv_header() + csv_body(
                records@.map_values(|x: Record| x@),
                match range {
                    Some((min, _)) => min as nat,
                    None => 0,
                },
                match range {
                    Some((_, max)) => max as nat,
                    None => records@.len(),
                },
            ),
    {
        let (min, max) = match range {
            Some((min, max)) => (min, max),
            None => (0, records.len()),
        };
        let ghost views = records@.map_values(|x: Record| x@);
        let mut data = String::from_str("count,probability,cost,constant,value");
        let mut i: usize = 0;
        assert(views.take(0) =~= Seq::<RecordView>::empty());
        assert(data@ =~= csv_header() + csv_body(views.take(0), min as nat, max as nat));
        while i < records.len()
            invariant
                views == records@.map_values(|x: Record| x@),
                i <= records@.len(),
                data@ == csv_header() + csv_body(views.take(i as int), min as nat, max as nat),
            decreases records@.len() - i,
        {
            let ghost before = data@;
            assert(views.take(i + 1).drop_last() =~= views.take(i as int));
            assert(views.take(i + 1).last() == records@[i as int]@);
            if i >= min && i <= max {
                push_char(&mut data, '\n');
                let line = records[i].join_as_csv();
                data.append(line.as_str());
                assert(data@ =~= before + (seq!['\n'] + record_line(records@[i as int]@)));
            } else {
                assert(data@ =~= before + Seq::<char>::empty());
            }
            i = i + 1;
        }
        assert(views.take(records@.len() as int) =~= views);
        data
    }
}

} // verus!
