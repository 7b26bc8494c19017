//! A labelled timer around a moment captured from the system clock.

use vstd::prelude::*;

verus! {

#[verifier::external_type_specification]
#[verifier::external_body]
pub struct ExInstant(std::time::Instant);

/// Relies on std::time::Instant::now: an opaque moment in time, of which
/// nothing is promised.
#[verifier::external_body]
fn instant_now() -> std::time::Instant {
    std::time::Instant::now()
}

pub struct PerfTimer {
    start: std::time::Instant,
    label: String,
}

impl PerfTimer {
    /// The label the timer was started with.
    pub closed spec fn spec_label(&self) -> Seq<char> {
        self.label@
    }

    /// A timer started now, carrying its label unchanged.
    pub fn start(label: &str) -> (r: Self)
        ensures
            r.spec_label() == label@,
    {
        PerfTimer { start: instant_now(), label: label.to_owned() }
    }
}

} // verus!
