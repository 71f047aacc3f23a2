//! The benchmark report: a header and one row of text for each sweep point.

use crate::decimal::{decimal_of, decimal_text};
use crate::sweep::SweepPoint;
use vstd::prelude::*;
use vstd::string::*;

verus! {

/// The report's first line.
pub open spec fn header_text() -> Seq<char> {
    "iteration_count,per_iteration_count,prover_time,verifier_time\n"@
}

/// The report's line for a sweep point: the two counts of the point in
/// decimal, then the two elapsed times as they were given, with commas
/// between and a line feed at the end.
pub open spec fn row_text(point: SweepPoint, prover_time: Seq<char>, verifier_time: Seq<char>) -> Seq<
    char,
> {
    decimal_text(point.iteration_count as nat) + seq![','] + decimal_text(
        point.per_iteration_count as nat,
    ) + seq![','] + prover_time + seq![','] + verifier_time + seq!['\n']
}

/// The report's first line.
pub fn report_header() -> (line: String)
    ensures
        line@ == header_text(),
{
    String::from_str("iteration_count,per_iteration_count,prover_time,verifier_time\n")
}

/// The report's line for a sweep point and the elapsed times measured for it.
pub fn report_row(point: SweepPoint, prover_time: &str, verifier_time: &str) -> (line: String)
    ensures
        line@ == row_text(point, prover_time@, verifier_time@),
{
    proof {
        reveal_strlit(",");
        reveal_strlit("\n");
        assert(","@ =~= seq![',']);
        assert("\n"@ =~= seq!['\n']);
    }
    let mut line = decimal_of(point.iteration_count);
    line.append(",");
    line.append(decimal_of(point.per_iteration_count).as_str());
    line.append(",");
    line.append(prover_time);
    line.append(",");
    line.append(verifier_time);
    line.append("\n");
    line
}

} // verus!
