//! Results of tasks run in parallel, and the status line shown around them.
use vstd::prelude::*;
use crate::text::{append_str, concat_str, decimal, decimal_str};

verus! {

/// Result of a single parallel task.
#[derive(Debug)]
pub struct TaskResult {
    pub name: String,
    pub success: bool,
    /// Combined captured output from the task.
    pub output: String,
}

/// Number of results that report a failure.
pub open spec fn count_failures(rs: Seq<TaskResult>) -> nat
    decreases rs.len(),
{
    if rs.len() == 0 {
        0
    } else {
        count_failures(rs.drop_last()) + if rs.last().success { 0nat } else { 1nat }
    }
}

/// Counts the failed results.
pub fn failure_count(results: &Vec<TaskResult>) -> (n: usize)
    ensures
        n == count_failures(results@),
{
    let mut n: usize = 0;
    let mut i: usize = 0;
    while i < results.len()
        invariant
            i <= results@.len(),
            n == count_failures(results@.subrange(0, i as int)),
            n <= i,
        decreases results@.len() - i,
    {
        assert(results@.subrange(0, i + 1).drop_last() =~= results@.subrange(0, i as int));
        if !results[i].success {
            n = n + 1;
        }
        i = i + 1;
    }
    assert(results@.subrange(0, i as int) =~= results@);
    n
}

/// The text printed before a batch starts: the dimmed label and an ellipsis.
pub open spec fn start_line(label: Seq<char>) -> Seq<char> {
    "\x1b[2m"@ + label + "…\x1b[0m "@
}

/// The text printed when a batch ends: `ok`, or how many tasks failed.
pub open spec fn end_line(failures: nat) -> Seq<char> {
    if failures == 0 {
        "\x1b[32mok\x1b[0m"@
    } else {
        "\x1b[31m"@ + decimal(failures) + " failed\x1b[0m"@
    }
}

/// The status text shown before a batch of tasks runs.
pub fn progress_start(label: &str) -> (r: String)
    ensures
        r@ == start_line(label@),
{
    let mut r = concat_str("\x1b[2m", label);
    append_str(&mut r, "…\x1b[0m ");
    r
}

/// The status text shown once a batch of tasks has run.
pub fn progress_end(results: &Vec<TaskResult>) -> (r: String)
    ensures
        r@ == end_line(count_failures(results@)),
{
    let n = failure_count(results);
    if n == 0 {
        "\x1b[32mok\x1b[0m".to_string()
    } else {
        let d = decimal_str(n);
        let mut r = concat_str("\x1b[31m", d.as_str());
        append_str(&mut r, " failed\x1b[0m");
        r
    }
}

} // verus!
