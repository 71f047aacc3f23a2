//! What is said about a step circuit's size.

use crate::decimal::{decimal_of, decimal_text};
use vstd::prelude::*;
use vstd::string::*;

verus! {

/// The four lines that tell the constraints and the variables of a step, each
/// for the primary and for the secondary circuit.
pub open spec fn summary_lines(constraints: (usize, usize), variables: (usize, usize)) -> Seq<
    Seq<char>,
> {
    seq![
        "Number of constraints per step (primary circuit): "@ + decimal_text(constraints.0 as nat),
        "Number of constraints per step (secondary circuit): "@ + decimal_text(
            constraints.1 as nat,
        ),
        "Number of variables per step (primary circuit): "@ + decimal_text(variables.0 as nat),
        "Number of variables per step (secondary circuit): "@ + decimal_text(variables.1 as nat),
    ]
}

/// A label followed by a number in decimal.
fn labelled(label: &str, n: usize) -> (line: String)
    ensures
        line@ == label@ + decimal_text(n as nat),
{
    let mut line = String::from_str(label);
    line.append(decimal_of(n).as_str());
    line
}

/// The lines of the summary of a step circuit's size, from the numbers of
/// constraints and of variables of the primary and the secondary circuit.
pub fn constraints_summary(constraints: (usize, usize), variables: (usize, usize)) -> (lines: Vec<
    String,
>)
    ensures
        lines@.len() == 4,
        forall|i: int|
            0 <= i < 4 ==> (#[trigger] lines@[i])@ == summary_lines(constraints, variables)[i],
{
    let mut lines: Vec<String> = Vec::new();
    lines.push(labelled("Number of constraints per step (primary circuit): ", constraints.0));
    lines.push(labelled("Number of constraints per step (secondary circuit): ", constraints.1));
    lines.push(labelled("Number of variables per step (primary circuit): ", variables.0));
    lines.push(labelled("Number of variables per step (secondary circuit): ", variables.1));
    lines
}

} // verus!
