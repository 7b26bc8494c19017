//! The event protocol of the long-lived external build process: how one line
//! of its output is classified into build lifecycle events.

use vstd::prelude::*;
use crate::text::spec_contains;
use crate::text::contains_str;

verus! {

/// A lifecycle event of the external build process, with `BuildFinished`
/// carrying whether the run succeeded.
#[derive(Debug, Clone, Copy, PartialEq, Eq, Structural)]
pub enum LatexmkEvent {
    BuildStarted,
    BuildFinished(bool),
}

/// How one output line is classified: a line naming all targets up to date
/// finishes a build successfully; a line announcing a run number starts one;
/// a line reporting processing errors finishes one with failure; anything
/// else is informational and yields no event.
pub open spec fn spec_classify_line(l: Seq<char>) -> Option<LatexmkEvent> {
    if spec_contains(l, "Latexmk: All targets"@) && spec_contains(l, "are up-to-date"@) {
        Some(LatexmkEvent::BuildFinished(true))
    } else if spec_contains(l, "Latexmk: Run number"@) {
        Some(LatexmkEvent::BuildStarted)
    } else if spec_contains(l, "Errors during processing"@) {
        Some(LatexmkEvent::BuildFinished(false))
    } else {
        None
    }
}

/// Classifies one line of the external build process's output.
pub fn classify_line(line: &str) -> (r: Option<LatexmkEvent>)
    ensures
        r == spec_classify_line(line@),
{
    if contains_str(line, "Latexmk: All targets") && contains_str(line, "are up-to-date") {
        Some(LatexmkEvent::BuildFinished(true))
    } else if contains_str(line, "Latexmk: Run number") {
        Some(LatexmkEvent::BuildStarted)
    } else if contains_str(line, "Errors during processing") {
        Some(LatexmkEvent::BuildFinished(false))
    } else {
        None
    }
}

} // verus!
