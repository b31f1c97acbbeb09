//! Plain data of the calculator: records, rows of the reference table and
//! the option enums.
use vstd::prelude::*;
use vstd::string::StringExecFns;
use crate::error::GcalcError;

verus! {

/// A name for what `str::to_lowercase` returns on a text.
pub uninterp spec fn lower_of(s: Seq<char>) -> Seq<char>;

/// Relies on `str::to_lowercase`: the result depends on the characters alone.
#[verifier::external_body]
fn lowercase(s: &str) -> (r: String)
    ensures
        r@ == lower_of(s@),
{
    s.to_lowercase()
}

proof fn lemma_distinct(a: Seq<char>, b: Seq<char>)
    requires
        a.len() != b.len() || (a.len() > 0 && b.len() > 0 && a[0] != b[0]),
    ensures
        a != b,
{
}

fn is_keyword(text: &String, keyword: &str) -> (r: bool)
    ensures
        r == (text@ == keyword@),
{
    let k = String::from_str(keyword);
    *text == k
}

/// Where the reference rows come from.
#[derive(Clone, Debug, PartialEq, Eq)]
pub enum CsvRef {
    /// The CSV text itself.
    Raw(String),
    /// A path to a CSV file, read by the caller.
    File(String),
    /// No reference rows.
    Absent,
}

/// What happens when a probability, constant or cost cell cannot be used.
#[derive(Clone, Copy, Debug, PartialEq, Eq)]
pub enum CSVInvalidBehaviour {
    /// Fall back to the value fixed at configuration time.
    Rollback,
    /// Keep the value of the previous trial.
    Ignore,
    /// Fail the whole computation (keyword `none`).
    Fail,
}

impl CSVInvalidBehaviour {
    /// Reads a fallback keyword that is already in lower case.
    pub fn from_lowercase(text: &String) -> (r: Result<CSVInvalidBehaviour, GcalcError>)
        ensures
            text@ == "rollback"@ ==> r matches Ok(CSVInvalidBehaviour::Rollback),
            text@ == "ignore"@ ==> r matches Ok(CSVInvalidBehaviour::Ignore),
            text@ == "none"@ ==> r matches Ok(CSVInvalidBehaviour::Fail),
            text@ != "rollback"@ && text@ != "ignore"@ && text@ != "none"@ ==> r matches Err(
                GcalcError::InvalidConversion,
            ),
    {
        proof {
            reveal_strlit("rollback");
            reveal_strlit("ignore");
            reveal_strlit("none");
            lemma_distinct("rollback"@, "ignore"@);
            lemma_distinct("rollback"@, "none"@);
            lemma_distinct("ignore"@, "none"@);
        }
        if is_keyword(text, "rollback") {
            Ok(CSVInvalidBehaviour::Rollback)
        } else if is_keyword(text, "ignore") {
            Ok(CSVInvalidBehaviour::Ignore)
        } else if is_keyword(text, "none") {
            Ok(CSVInvalidBehaviour::Fail)
        } else {
            Err(GcalcError::InvalidConversion)
        }
    }

    /// Reads a fallback keyword in any letter case.
    pub fn from_str(text: &str) -> (r: Result<CSVInvalidBehaviour, GcalcError>)
        ensures
            lower_of(text@) == "rollback"@ ==> r matches Ok(CSVInvalidBehaviour::Rollback),
            lower_of(text@) == "ignore"@ ==> r matches Ok(CSVInvalidBehaviour::Ignore),
            lower_of(text@) == "none"@ ==> r matches Ok(CSVInvalidBehaviour::Fail),
            lower_of(text@) != "rollback"@ && lower_of(text@) != "ignore"@ && lower_of(text@)
                != "none"@ ==> r matches Err(GcalcError::InvalidConversion),
    {
        let lower = lowercase(text);
        CSVInvalidBehaviour::from_lowercase(&lower)
    }
}

/// What happens when the reference rows run out.
#[derive(Clone, Copy, Debug, PartialEq, Eq)]
pub enum CsvRecordBehaviour {
    /// Keep the last values for all remaining trials.
    Repeat,
    /// Fail the computation, naming the trial.
    Panic,
}

/// Where tables are written.
#[derive(Clone, Debug, PartialEq, Eq)]
pub enum OutOption {
    Console,
    File(String),
}

/// What the reference source did on a trial.
#[derive(Clone, Copy, Debug, PartialEq, Eq)]
pub enum RecordCursor {
    /// The row was used; the next trial reads the next row.
    Next,
    /// The row names a later trial; it is offered again on the next trial.
    Stay,
}

/// How cumulative probabilities are shown.
#[derive(Clone, Copy, Debug, PartialEq, Eq)]
pub enum ProbType {
    Percentage,
    Fraction,
}

impl ProbType {
    /// Reads a probability type keyword that is already in lower case.
    pub fn from_lowercase(text: &String) -> (r: Result<ProbType, GcalcError>)
        ensures
            text@ == "percentage"@ || text@ == "percent"@ ==> r matches Ok(ProbType::Percentage),
            text@ == "float"@ || text@ == "fraction"@ ==> r matches Ok(ProbType::Fraction),
            text@ != "percentage"@ && text@ != "percent"@ && text@ != "float"@ && text@
                != "fraction"@ ==> r matches Err(GcalcError::InvalidConversion),
    {
        proof {
            reveal_strlit("percentage");
            reveal_strlit("percent");
            reveal_strlit("float");
            reveal_strlit("fraction");
            lemma_distinct("percentage"@, "percent"@);
            lemma_distinct("percentage"@, "float"@);
            lemma_distinct("percentage"@, "fraction"@);
            lemma_distinct("percent"@, "float"@);
            lemma_distinct("percent"@, "fraction"@);
            lemma_distinct("float"@, "fraction"@);
        }
        if is_keyword(text, "percentage") || is_keyword(text, "percent") {
            Ok(ProbType::Percentage)
        } else if is_keyword(text, "float") || is_keyword(text, "fraction") {
            Ok(ProbType::Fraction)
        } else {
            Err(GcalcError::InvalidConversion)
        }
    }

    /// Reads a probability type keyword in any letter case.
    pub fn from_str(text: &str) -> (r: Result<ProbType, GcalcError>)
        ensures
            lower_of(text@) == "percentage"@ || lower_of(text@) == "percent"@ ==> r matches Ok(
                ProbType::Percentage,
            ),
            lower_of(text@) == "float"@ || lower_of(text@) == "fraction"@ ==> r matches Ok(
                ProbType::Fraction,
            ),
            lower_of(text@) != "percentage"@ && lower_of(text@) != "percent"@ && lower_of(text@)
                != "float"@ && lower_of(text@) != "fraction"@ ==> r matches Err(
                GcalcError::InvalidConversion,
            ),
    {
        let lower = lowercase(text);
        ProbType::from_lowercase(&lower)
    }
}

/// Layout of printed tables.
#[derive(Clone, Copy, Debug, PartialEq, Eq)]
pub enum TableFormat {
    CSV,
    GFM,
    Console,
}

impl TableFormat {
    /// Reads a table format keyword that is already in lower case.
    pub fn from_lowercase(text: &String) -> (r: Result<TableFormat, GcalcError>)
        ensures
            text@ == "console"@ ==> r matches Ok(TableFormat::Console),
            text@ == "gfm"@ || text@ == "github"@ ==> r matches Ok(TableFormat::GFM),
            text@ == "csv"@ ==> r matches Ok(TableFormat::CSV),
            text@ != "console"@ && text@ != "gfm"@ && text@ != "github"@ && text@ != "csv"@
                ==> r matches Err(GcalcError::InvalidConversion),
    {
        proof {
            reveal_strlit("console");
            reveal_strlit("gfm");
            reveal_strlit("github");
            reveal_strlit("csv");
            lemma_distinct("console"@, "gfm"@);
            lemma_distinct("console"@, "github"@);
            lemma_distinct("console"@, "csv"@);
            lemma_distinct("gfm"@, "github"@);
            lemma_distinct("gfm"@, "csv"@);
            lemma_distinct("github"@, "csv"@);
        }
        if is_keyword(text, "console") {
            Ok(TableFormat::Console)
        } else if is_keyword(text, "gfm") || is_keyword(text, "github") {
            Ok(TableFormat::GFM)
        } else if is_keyword(text, "csv") {
            Ok(TableFormat::CSV)
        } else {
            Err(GcalcError::InvalidConversion)
        }
    }

    /// Reads a table format keyword in any letter case.
    pub fn from_str(text: &str) -> (r: Result<TableFormat, GcalcError>)
        ensures
            lower_of(text@) == "console"@ ==> r matches Ok(TableFormat::Console),
            lower_of(text@) == "gfm"@ || lower_of(text@) == "github"@ ==> r matches Ok(
                TableFormat::GFM,
            ),
            lower_of(text@) == "csv"@ ==> r matches Ok(TableFormat::CSV),
            lower_of(text@) != "console"@ && lower_of(text@) != "gfm"@ && lower_of(text@)
                != "github"@ && lower_of(text@) != "csv"@ ==> r matches Err(
                GcalcError::InvalidConversion,
            ),
    {
        let lower = lowercase(text);
        TableFormat::from_lowercase(&lower)
    }
}

/// One row of the reference table: the cells of the count (trial index),
/// probability, constant (bonus) and cost columns; an empty cell is absent.
#[derive(Clone, Debug)]
pub struct ParameterRow {
    pub count: String,
    pub probability: String,
    pub constant: String,
    pub cost: String,
}

/// Header names of the four logical columns of the reference table.
#[derive(Clone, Debug)]
pub struct ColumnMap {
    pub count: String,
    pub probability: String,
    pub constant: String,
    pub cost: String,
}

impl ColumnMap {
    /// The names used by the reference file template.
    pub fn new() -> (r: ColumnMap)
        ensures
            r.count@ == "count"@,
            r.probability@ == "probability"@,
            r.constant@ == "constant"@,
            r.cost@ == "cost"@,
    {
        ColumnMap {
            count: String::from_str("count"),
            probability: String::from_str("probability"),
            constant: String::from_str("constant"),
            cost: String::from_str("cost"),
        }
    }
}

/// The outcome of one trial, as a row of the output table.
#[derive(Clone, Debug)]
pub struct Record {
    /// 1-based trial index.
    pub count: u64,
    /// Cumulative success probability in nano units.
    pub probability_src: u64,
    /// `probability_src` formatted for display.
    pub probability: String,
    /// Total cost of all trials so far, in nano units.
    pub cost: u128,
    /// The bonus in force on this trial, in nano units.
    pub constant: u64,
}

/// Spec-level value of a [`Record`].
pub struct RecordView {
    pub count: nat,
    pub probability_src: nat,
    pub probability: Seq<char>,
    pub cost: nat,
    pub constant: nat,
}

impl View for Record {
    type V = RecordView;

    open spec fn view(&self) -> RecordView {
        RecordView {
            count: self.count as nat,
            probability_src: self.probability_src as nat,
            probability: self.probability@,
            cost: self.cost as nat,
            constant: self.constant as nat,
        }
    }
}

impl Record {
    pub fn new(count: u64, probability_src: u64, probability: String, cost: u128, constant: u64) -> (r: Record)
        ensures
            r.count == count,
            r.probability_src == probability_src,
            r.probability@ == probability@,
            r.cost == cost,
            r.constant == constant,
    {
        Record { count, probability_src, probability, cost, constant }
    }
}

/// The one-line answer of a qualification: trials, total cost and the
/// cumulative probability reached.
#[derive(Clone, Debug)]
pub struct Qualficiation {
    pub count: u64,
    pub probability: String,
    pub cost: u128,
}

impl Qualficiation {
    pub fn new(count: u64, cost: u128, probability: &str) -> (r: Qualficiation)
        ensures
            r.count == count,
            r.cost == cost,
            r.probability@ == probability@,
    {
        Qualficiation { count, cost, probability: String::from_str(probability) }
    }
}

} // verus!
