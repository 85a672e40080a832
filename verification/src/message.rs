//! The lines the tracker says to its user, as exact character sequences.

use crate::store::{Started, StopOutcome};
use vstd::prelude::*;

verus! {

/// The character of a single decimal digit.
pub open spec fn digit(d: int) -> char {
    if d == 0 {
        '0'
    } else if d == 1 {
        '1'
    } else if d == 2 {
        '2'
    } else if d == 3 {
        '3'
    } else if d == 4 {
        '4'
    } else if d == 5 {
        '5'
    } else if d == 6 {
        '6'
    } else if d == 7 {
        '7'
    } else if d == 8 {
        '8'
    } else {
        '9'
    }
}

/// The decimal digits of a natural number, most significant first, without
/// leading zeros.
pub open spec fn digits(n: nat) -> Seq<char>
    decreases n,
{
    if n < 10 {
        seq![digit(n as int)]
    } else {
        digits(n / 10).push(digit((n % 10) as int))
    }
}

/// The decimal numeral of an integer: a minus sign for a negative number,
/// then the digits of its magnitude.
pub open spec fn decimal(n: int) -> Seq<char> {
    if n < 0 {
        seq!['-'] + digits((-n) as nat)
    } else {
        digits(n as nat)
    }
}

/// The confirmation of a start.
pub open spec fn started_text(project: Seq<char>) -> Seq<char> {
    "Started tracking time for project '"@ + project + "'"@
}

/// The confirmation of a stop that closed an entry.
pub open spec fn stopped_text(project: Seq<char>, seconds: int) -> Seq<char> {
    "Stopped tracking for project '"@ + project + "'. Time tracked: "@ + decimal(seconds)
        + " seconds"@
}

/// The note of a stop that found no open entry.
pub open spec fn nothing_to_stop_text() -> Seq<char> {
    "No active project found to stop."@
}

/// The first line of a report.
pub open spec fn report_header_text() -> Seq<char> {
    "Time spent on each project:"@
}

/// One project's line of a report, around the hours already put in words.
pub open spec fn report_line_text(project: Seq<char>, hours: Seq<char>) -> Seq<char> {
    "- "@ + project + ": "@ + hours + " hours"@
}

/// What a stop says: which entry it closed and for how long it ran, or that
/// none was open.
pub open spec fn stop_text(outcome: StopOutcome) -> Seq<char> {
    match outcome {
        StopOutcome::Stopped { project, seconds, .. } => stopped_text(project@, seconds as int),
        StopOutcome::NothingToStop => nothing_to_stop_text(),
    }
}

fn digit_str(d: u128) -> (text: &'static str)
    requires
        d < 10,
    ensures
        text@ == seq![digit(d as int)],
{
    proof {
        reveal_strlit("0");
        reveal_strlit("1");
        reveal_strlit("2");
        reveal_strlit("3");
        reveal_strlit("4");
        reveal_strlit("5");
        reveal_strlit("6");
        reveal_strlit("7");
        reveal_strlit("8");
        reveal_strlit("9");
    }
    if d == 0 {
        "0"
    } else if d == 1 {
        "1"
    } else if d == 2 {
        "2"
    } else if d == 3 {
        "3"
    } else if d == 4 {
        "4"
    } else if d == 5 {
        "5"
    } else if d == 6 {
        "6"
    } else if d == 7 {
        "7"
    } else if d == 8 {
        "8"
    } else {
        "9"
    }
}

/// Writes a natural number in decimal.
pub fn natural_text(n: u128) -> (text: String)
    ensures
        text@ == digits(n as nat),
{
    let mut text = String::from_str(digit_str(n % 10));
    let mut rest: u128 = n / 10;
    while rest > 0
        invariant
            rest == 0 ==> text@ == digits(n as nat),
            rest > 0 ==> digits(n as nat) == digits(rest as nat) + text@,
        decreases rest,
    {
        text = String::from_str(digit_str(rest % 10)).concat(text.as_str());
        rest = rest / 10;
    }
    text
}

/// Writes an integer in decimal, with a leading minus sign if it is negative.
pub fn decimal_text(n: i128) -> (text: String)
    ensures
        text@ == decimal(n as int),
{
    if n >= 0 {
        natural_text(n as u128)
    } else {
        let magnitude: u128 = if n == i128::MIN {
            170141183460469231731687303715884105728u128
        } else {
            (-n) as u128
        };
        proof {
            reveal_strlit("-");
        }
        String::from_str("-").concat(natural_text(magnitude).as_str())
    }
}

/// "Started tracking time for project '<project>'".
pub fn started_message(project: &str) -> (text: String)
    ensures
        text@ == started_text(project@),
{
    String::from_str("Started tracking time for project '").concat(project).concat("'")
}

/// "Stopped tracking for project '<project>'. Time tracked: <seconds> seconds".
pub fn stopped_message(project: &str, seconds: i128) -> (text: String)
    ensures
        text@ == stopped_text(project@, seconds as int),
{
    String::from_str("Stopped tracking for project '").concat(project).concat(
        "'. Time tracked: ",
    ).concat(decimal_text(seconds).as_str()).concat(" seconds")
}

/// "No active project found to stop."
pub fn nothing_to_stop_message() -> (text: String)
    ensures
        text@ == nothing_to_stop_text(),
{
    String::from_str("No active project found to stop.")
}

/// "Time spent on each project:".
pub fn report_header() -> (text: String)
    ensures
        text@ == report_header_text(),
{
    String::from_str("Time spent on each project:")
}

/// "- <project>: <hours> hours", where `hours` is the project's total
/// already written as hours.
pub fn report_line(project: &str, hours: &str) -> (text: String)
    ensures
        text@ == report_line_text(project@, hours@),
{
    String::from_str("- ").concat(project).concat(": ").concat(hours).concat(" hours")
}

/// The line that confirms a start.
pub fn start_message(ack: &Started) -> (text: String)
    ensures
        text@ == started_text(ack.project@),
{
    started_message(ack.project.as_str())
}

/// The line that reports a stop.
pub fn stop_message(outcome: &StopOutcome) -> (text: String)
    ensures
        text@ == stop_text(*outcome),
{
    match outcome {
        StopOutcome::Stopped { project, seconds, .. } => stopped_message(
            project.as_str(),
            *seconds,
        ),
        StopOutcome::NothingToStop => nothing_to_stop_message(),
    }
}

} // verus!
