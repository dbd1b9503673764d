//! The two recurrences as transformations of a line.

use vstd::prelude::*;
use crate::edge::EdgeMode;
use crate::gauss::{gauss_line, lemma_gauss_run_shape};
use crate::line::next_value;

verus! {

/// Which recurrence a sweep runs, and how.
pub enum Kernel {
    /// The second-order recurrence, which reads past the ends of a line by
    /// repeating the end; the level is rounded down, or to the nearest when
    /// `rounded`.
    Next { rounded: bool },
    /// The first-order recurrence under an edge policy.
    Gauss { mode: EdgeMode },
}

/// The line that a sweep of radius `r` makes of `line`.
pub open spec fn swept(kernel: Kernel, r: int, line: Seq<int>) -> Seq<int> {
    match kernel {
        Kernel::Next { rounded } => Seq::new(
            line.len(),
            |i: int| next_value(line, r, i, rounded),
        ),
        Kernel::Gauss { mode } => gauss_line(line, r, mode),
    }
}

/// A sweep leaves a line as long as it was.
pub proof fn lemma_swept_len(kernel: Kernel, r: int, line: Seq<int>)
    requires
        0 <= r,
    ensures
        swept(kernel, r, line).len() == line.len(),
{
    match kernel {
        Kernel::Next { rounded } => {},
        Kernel::Gauss { mode } => {
            lemma_gauss_run_shape(line, r, mode, (line.len() + 2 * r) as nat);
        },
    }
}

} // verus!
