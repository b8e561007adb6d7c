use vstd::prelude::*;

use crate::error::ErrorKind;

verus! {

/// The two kinds of result table: the term count a decomposition reports,
/// and the wall-clock time it took, in nanoseconds.
#[derive(Clone, Copy, Debug, PartialEq, Eq, Structural)]
pub enum PlotKind {
    TermCount,
    Runtime,
}

impl PlotKind {
    /// The header row of a table of this kind.
    pub fn header(self) -> (r: &'static str)
        ensures
            self == PlotKind::TermCount ==> r@ == "t_count,nterms"@,
            self == PlotKind::Runtime ==> r@ == "t_count,runtime_nanos"@,
    {
        match self {
            PlotKind::TermCount => "t_count,nterms",
            PlotKind::Runtime => "t_count,runtime_nanos",
        }
    }

    /// The start of the file name of a table of this kind; the variant's name
    /// and `.csv` follow.
    pub fn file_prefix(self) -> (r: &'static str)
        ensures
            self == PlotKind::TermCount ==> r@ == "benchmark_alpha_"@,
            self == PlotKind::Runtime ==> r@ == "benchmark_times_"@,
    {
        match self {
            PlotKind::TermCount => "benchmark_alpha_",
            PlotKind::Runtime => "benchmark_times_",
        }
    }

    /// The file name of the chart of this kind.
    pub fn chart_file(self) -> (r: &'static str)
        ensures
            self == PlotKind::TermCount ==> r@ == "nterms_plot.svg"@,
            self == PlotKind::Runtime ==> r@ == "runtime_plot.svg"@,
    {
        match self {
            PlotKind::TermCount => "nterms_plot.svg",
            PlotKind::Runtime => "runtime_plot.svg",
        }
    }

    /// The chart's title.
    pub fn title(self) -> (r: &'static str)
        ensures
            self == PlotKind::TermCount ==> r@ == "Average log(n_terms) vs t_count"@,
            self == PlotKind::Runtime ==> r@ == "Average log(runtime) vs t_count"@,
    {
        match self {
            PlotKind::TermCount => "Average log(n_terms) vs t_count",
            PlotKind::Runtime => "Average log(runtime) vs t_count",
        }
    }

    /// The label of the chart's vertical axis.
    pub fn y_label(self) -> (r: &'static str)
        ensures
            self == PlotKind::TermCount ==> r@ == "log(mean n_terms)"@,
            self == PlotKind::Runtime ==> r@ == "log(runtime in ms)"@,
    {
        match self {
            PlotKind::TermCount => "log(mean n_terms)",
            PlotKind::Runtime => "log(runtime in ms)",
        }
    }

    /// The divisor applied to a mean before its logarithm is taken: runtimes
    /// are charted in milliseconds.
    pub fn scale(self) -> (r: u64)
        ensures
            self == PlotKind::TermCount ==> r == 1,
            self == PlotKind::Runtime ==> r == 1_000_000,
    {
        match self {
            PlotKind::TermCount => 1,
            PlotKind::Runtime => 1_000_000,
        }
    }
}

pub open spec fn is_digit(b: u8) -> bool {
    48 <= b <= 57
}

/// The value of a string of decimal digits.
pub open spec fn decimal_value(s: Seq<u8>) -> nat
    decreases s.len(),
{
    if s.len() == 0 {
        0
    } else {
        decimal_value(s.drop_last()) * 10 + (s.last() - 48) as nat
    }
}

/// A non-empty string of decimal digits whose value fits in a `u64`.
pub open spec fn is_u64_decimal(s: Seq<u8>) -> bool {
    &&& s.len() > 0
    &&& forall|i: int| 0 <= i < s.len() ==> is_digit(#[trigger] s[i])
    &&& decimal_value(s) <= u64::MAX
}

/// The shortest decimal digits of `n`.
pub open spec fn decimal_digits(n: nat) -> Seq<u8>
    decreases n,
{
    if n < 10 {
        seq![(48 + n) as u8]
    } else {
        decimal_digits(n / 10).push((48 + n % 10) as u8)
    }
}

/// The text of one table row: both numbers in decimal, a comma between
/// them, a newline after.
pub open spec fn row_text(complexity: u64, value: u64) -> Seq<u8> {
    decimal_digits(complexity as nat) + seq![44u8] + decimal_digits(value as nat) + seq![10u8]
}

proof fn lemma_decimal_digits(n: nat)
    ensures
        decimal_digits(n).len() > 0,
        forall|i: int| 0 <= i < decimal_digits(n).len() ==> is_digit(#[trigger] decimal_digits(n)[i]),
        decimal_value(decimal_digits(n)) == n,
    decreases n,
{
    let s = decimal_digits(n);
    if n >= 10 {
        lemma_decimal_digits(n / 10);
        assert(s.drop_last() =~= decimal_digits(n / 10));
        assert(s.last() == (48 + n % 10) as u8);
        assert((n / 10) * 10 + n % 10 == n) by (nonlinear_arith);
        assert forall|i: int| 0 <= i < s.len() implies is_digit(#[trigger] s[i]) by {
            if i < s.len() - 1 {
                assert(s[i] == decimal_digits(n / 10)[i]);
            }
        }
    } else {
        assert(s.drop_last() =~= Seq::<u8>::empty());
        assert(s.last() == (48 + n) as u8);
        assert(decimal_value(s.drop_last()) == 0);
    }
}

/// A row's text is a single line, ending in its only newline, and both of
/// its numbers read back as the values written.
pub proof fn lemma_row_text(complexity: u64, value: u64)
    ensures
        row_text(complexity, value).last() == 10,
        forall|i: int|
            0 <= i < row_text(complexity, value).len() - 1 ==> #[trigger] row_text(
                complexity,
                value,
            )[i] != 10,
        is_u64_decimal(decimal_digits(complexity as nat)),
        decimal_value(decimal_digits(complexity as nat)) == complexity,
        is_u64_decimal(decimal_digits(value as nat)),
        decimal_value(decimal_digits(value as nat)) == value,
{
    lemma_decimal_digits(complexity as nat);
    lemma_decimal_digits(value as nat);
    let a = decimal_digits(complexity as nat);
    let b = decimal_digits(value as nat);
    let t = row_text(complexity, value);
    assert forall|i: int| 0 <= i < t.len() - 1 implies #[trigger] t[i] != 10 by {
        if i < a.len() {
            assert(t[i] == a[i]);
        } else if i > a.len() {
            assert(t[i] == b[i - a.len() - 1]);
        }
    }
}

pub(crate) fn push_decimal(n: u64, out: &mut Vec<u8>)
    ensures
        final(out)@ == old(out)@ + decimal_digits(n as nat),
    decreases n,
{
    if n >= 10 {
        push_decimal(n / 10, out);
    }
    out.push(48 + (n % 10) as u8);
    proof {
        assert(final(out)@ =~= old(out)@ + decimal_digits(n as nat));
    }
}

/// One row of a result table, as text.
pub fn row_line(complexity: u64, value: u64) -> (r: Vec<u8>)
    ensures
        r@ == row_text(complexity, value),
{
    let mut out: Vec<u8> = Vec::new();
    push_decimal(complexity, &mut out);
    out.push(44);
    push_decimal(value, &mut out);
    out.push(10);
    proof {
        assert(out@ =~= row_text(complexity, value));
    }
    out
}

proof fn lemma_decimal_prefix_grows(s: Seq<u8>, i: int)
    requires
        0 <= i <= s.len(),
        forall|k: int| 0 <= k < s.len() ==> is_digit(#[trigger] s[k]),
    ensures
        decimal_value(s.take(i)) <= decimal_value(s),
    decreases s.len(),
{
    if i < s.len() {
        let init = s.drop_last();
        assert forall|k: int| 0 <= k < init.len() implies is_digit(#[trigger] init[k]) by {
            assert(init[k] == s[k]);
        }
        lemma_decimal_prefix_grows(init, i);
        assert(init.take(i) =~= s.take(i));
    } else {
        assert(s.take(i) =~= s);
    }
}

/// The value of a decimal field, when it is one that fits in a `u64`.
pub fn parse_decimal(s: &Vec<u8>) -> (r: Option<u64>)
    ensures
        r is Some <==> is_u64_decimal(s@),
        r matches Some(v) ==> v == decimal_value(s@),
{
    if s.len() == 0 {
        return None;
    }
    let mut acc: u64 = 0;
    let mut i: usize = 0;
    while i < s.len()
        invariant
            0 <= i <= s@.len(),
            forall|k: int| 0 <= k < i ==> is_digit(#[trigger] s@[k]),
            acc == decimal_value(s@.take(i as int)),
        decreases s@.len() - i,
    {
        let b = s[i];
        if b < 48 || b > 57 {
            return None;
        }
        let d = (b - 48) as u64;
        proof {
            assert(s@.take(i + 1).drop_last() =~= s@.take(i as int));
        }
        if acc > (u64::MAX - d) / 10 {
            proof {
                assert(decimal_value(s@.take(i + 1)) > u64::MAX);
                if forall|k: int| 0 <= k < s@.len() ==> is_digit(#[trigger] s@[k]) {
                    lemma_decimal_prefix_grows(s@, i + 1);
                }
            }
            return None;
        }
        acc = acc * 10 + d;
        i = i + 1;
    }
    proof {
        assert(s@.take(i as int) =~= s@);
    }
    Some(acc)
}

/// A parsed record is a row when it has at least two fields and its first
/// field is a decimal number that fits in a `u64`. The second field, the
/// measured value, is carried as written: it is read as a number where the
/// mean of a group is taken.
pub open spec fn record_ok(rec: Seq<Seq<u8>>) -> bool {
    rec.len() >= 2 && is_u64_decimal(rec[0])
}

pub open spec fn record_row(rec: Seq<Seq<u8>>) -> (u64, Seq<u8>) {
    (decimal_value(rec[0]) as u64, rec[1])
}

/// The rows that a list of records stands for, when every record is one.
pub open spec fn table_rows(recs: Seq<Seq<Seq<u8>>>) -> Option<Seq<(u64, Seq<u8>)>> {
    if forall|i: int| 0 <= i < recs.len() ==> record_ok(#[trigger] recs[i]) {
        Some(recs.map_values(|rec: Seq<Seq<u8>>| record_row(rec)))
    } else {
        None
    }
}

/// A table's rows as (complexity, value text) pairs of plain sequences.
pub open spec fn rows_view(rows: Seq<(u64, Vec<u8>)>) -> Seq<(u64, Seq<u8>)> {
    rows.map_values(|r: (u64, Vec<u8>)| (r.0, r.1@))
}

pub open spec fn records_view(v: Vec<Vec<Vec<u8>>>) -> Seq<Seq<Seq<u8>>> {
    v@.map_values(|rec: Vec<Vec<u8>>| rec@.map_values(|f: Vec<u8>| f@))
}

/// The (complexity, value text) rows of a table's records; a record that is
/// not a row makes the whole table malformed.
pub fn rows_from_records(recs: &Vec<Vec<Vec<u8>>>) -> (r: Result<Vec<(u64, Vec<u8>)>, ErrorKind>)
    ensures
        r is Ok <==> table_rows(records_view(*recs)) is Some,
        r matches Ok(v) ==> table_rows(records_view(*recs)) == Some(rows_view(v@)),
        r matches Err(e) ==> e == ErrorKind::MalformedRecord,
{
    let ghost rv = records_view(*recs);
    let mut rows: Vec<(u64, Vec<u8>)> = Vec::new();
    let mut i: usize = 0;
    while i < recs.len()
        invariant
            0 <= i <= recs@.len(),
            rv == records_view(*recs),
            rows@.len() == i,
            forall|k: int| 0 <= k < i ==> record_ok(#[trigger] rv[k]),
            forall|k: int| 0 <= k < i ==> (rows@[k].0, rows@[k].1@) == record_row(#[trigger] rv[k]),
        decreases recs@.len() - i,
    {
        let rec = &recs[i];
        proof {
            assert(rv[i as int] == rec@.map_values(|f: Vec<u8>| f@));
        }
        if rec.len() < 2 {
            return Err(ErrorKind::MalformedRecord);
        }
        match parse_decimal(&rec[0]) {
            Some(c) => {
                let value = rec[1].clone();
                proof {
                    assert(value@ =~= rec[1]@);
                }
                rows.push((c, value));
            },
            None => {
                return Err(ErrorKind::MalformedRecord);
            },
        }
        i = i + 1;
    }
    proof {
        assert(rows_view(rows@) =~= rv.map_values(|rec: Seq<Seq<u8>>| record_row(rec)));
    }
    Ok(rows)
}

#[verifier::external_type_specification]
#[verifier::external_body]
pub struct ExCsvError(csv::Error);

/// What the CSV reader makes of a table's bytes: the records after the
/// header row, each as its fields, or nothing when the reader fails.
pub uninterp spec fn csv_records_of(data: Seq<u8>) -> Option<Seq<Seq<Seq<u8>>>>;

/// Relies on csv::Reader::from_reader with its default settings (the first
/// record is a header; every record has as many fields as the header) and
/// on `Reader::byte_records`: the records after the header, each as its
/// fields, or the first error the reader meets.
#[verifier::external_body]
fn csv_records(data: &[u8]) -> (r: Result<Vec<Vec<Vec<u8>>>, csv::Error>)
    ensures
        r is Ok <==> csv_records_of(data@) is Some,
        r matches Ok(v) ==> csv_records_of(data@) == Some(records_view(v)),
{
    let mut reader = csv::Reader::from_reader(data);
    let mut out = Vec::new();
    for record in reader.byte_records() {
        out.push(record?.iter().map(|f| f.to_vec()).collect());
    }
    Ok(out)
}

/// The rows of a stored result table. Text that the CSV reader refuses, and
/// records without a decimal complexity and a value, make the table
/// malformed.
pub fn parse_table(data: &[u8]) -> (r: Result<Vec<(u64, Vec<u8>)>, ErrorKind>)
    ensures
        csv_records_of(data@) is None ==> r == Err::<Vec<(u64, Vec<u8>)>, ErrorKind>(
            ErrorKind::MalformedRecord,
        ),
        csv_records_of(data@) matches Some(recs) ==> {
            &&& r is Ok <==> table_rows(recs) is Some
            &&& r matches Ok(v) ==> table_rows(recs) == Some(rows_view(v@))
            &&& r matches Err(e) ==> e == ErrorKind::MalformedRecord
        },
{
    match csv_records(data) {
        Ok(recs) => rows_from_records(&recs),
        Err(_) => Err(ErrorKind::MalformedRecord),
    }
}

} // verus!
