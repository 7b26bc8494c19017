//! The edit-event debouncer: a leading-edge/trailing-edge policy over a
//! fixed quiescence window. An input arriving at least a window after the
//! last forwarded attempt is forwarded immediately; a faster input replaces
//! the held one and is forwarded exactly once when the window elapses with
//! no further input, so the last edit before a pause is never lost.

use vstd::prelude::*;
use crate::compiler_daemon::CompileRequest;

verus! {

pub struct Debouncer {
    pub window_ms: u64,
    pub held: Option<CompileRequest>,
    pub last_forward: Option<u64>,
}

/// Input times never run backwards past the last forwarded attempt.
pub open spec fn spec_time_ok(d: Debouncer, now: u64) -> bool {
    match d.last_forward {
        Some(t) => t <= now,
        None => true,
    }
}

/// The leading edge fires when no attempt was forwarded yet or the window
/// has fully elapsed since the last one.
pub open spec fn spec_ready(d: Debouncer, now: u64) -> bool {
    match d.last_forward {
        Some(t) => now - t >= d.window_ms,
        None => true,
    }
}

/// One input: forwarded at once on the leading edge, else held, replacing
/// any previously held input.
pub open spec fn spec_on_input(d: Debouncer, req: CompileRequest, now: u64) -> (
    Debouncer,
    Option<CompileRequest>,
) {
    if spec_ready(d, now) {
        (Debouncer { window_ms: d.window_ms, held: None, last_forward: Some(now) }, Some(req))
    } else {
        (
            Debouncer { window_ms: d.window_ms, held: Some(req), last_forward: d.last_forward },
            None,
        )
    }
}

/// The quiescence timer elapsing: the held input, if any, is forwarded
/// exactly once.
pub open spec fn spec_on_timer(d: Debouncer, now: u64) -> (Debouncer, Option<CompileRequest>) {
    match d.held {
        Some(h) => (
            Debouncer { window_ms: d.window_ms, held: None, last_forward: Some(now) },
            Some(h),
        ),
        None => (d, None),
    }
}

impl Debouncer {
    /// A debouncer with the given quiescence window, holding nothing.
    pub fn new(window_ms: u64) -> (r: Self)
        ensures
            r.window_ms == window_ms,
            r.held is None,
            r.last_forward is None,
    {
        Debouncer { window_ms, held: None, last_forward: None }
    }

    /// Accepts one input tuple at time `now_ms`.
    pub fn on_input(&mut self, req: CompileRequest, now_ms: u64) -> (r: Option<CompileRequest>)
        requires
            spec_time_ok(*old(self), now_ms),
        ensures
            (*final(self), r) == spec_on_input(*old(self), req, now_ms),
    {
        let ready = match self.last_forward {
            Some(t) => now_ms - t >= self.window_ms,
            None => true,
        };
        if ready {
            self.held = None;
            self.last_forward = Some(now_ms);
            Some(req)
        } else {
            self.held = Some(req);
            None
        }
    }

    /// The quiescence timer elapsed at time `now_ms`.
    pub fn on_timer(&mut self, now_ms: u64) -> (r: Option<CompileRequest>)
        ensures
            (*final(self), r) == spec_on_timer(*old(self), now_ms),
    {
        match self.held.take() {
            Some(h) => {
                self.last_forward = Some(now_ms);
                Some(h)
            },
            None => None,
        }
    }
}

/// The state after a run of inputs.
pub open spec fn spec_run_inputs(d: Debouncer, inputs: Seq<(CompileRequest, u64)>, i: int) -> Debouncer
    decreases inputs.len() - i,
    when 0 <= i
{
    if i >= inputs.len() {
        d
    } else {
        spec_run_inputs(spec_on_input(d, inputs[i].0, inputs[i].1).0, inputs, i + 1)
    }
}

/// No input of the run is forwarded on arrival.
pub open spec fn spec_run_all_held(d: Debouncer, inputs: Seq<(CompileRequest, u64)>, i: int) -> bool
    decreases inputs.len() - i,
    when 0 <= i
{
    if i >= inputs.len() {
        true
    } else {
        spec_on_input(d, inputs[i].0, inputs[i].1).1 is None && spec_run_all_held(
            spec_on_input(d, inputs[i].0, inputs[i].1).0,
            inputs,
            i + 1,
        )
    }
}

/// A burst of inputs all arriving within the quiescence window of the last
/// forwarded attempt results in exactly one forwarded attempt: none of the
/// inputs is forwarded on arrival, and the elapsing timer forwards exactly
/// the last of them.
pub proof fn lemma_burst_forwards_last(
    d0: Debouncer,
    inputs: Seq<(CompileRequest, u64)>,
    t0: u64,
    timer_ms: u64,
)
    requires
        inputs.len() >= 1,
        d0.last_forward == Some(t0),
        forall|i: int|
            0 <= i < inputs.len() ==> t0 <= #[trigger] inputs[i].1 && inputs[i].1 - t0
                < d0.window_ms,
    ensures
        spec_run_all_held(d0, inputs, 0),
        ({
            let dn = spec_run_inputs(d0, inputs, 0);
            spec_on_timer(dn, timer_ms).1 == Some(inputs.last().0) && spec_on_timer(
                dn,
                timer_ms,
            ).0.held is None
        }),
{
    lemma_burst_step(d0, inputs, t0, 0);
}

proof fn lemma_burst_step(d: Debouncer, inputs: Seq<(CompileRequest, u64)>, t0: u64, i: int)
    requires
        0 <= i < inputs.len(),
        d.last_forward == Some(t0),
        forall|j: int|
            i <= j < inputs.len() ==> t0 <= #[trigger] inputs[j].1 && inputs[j].1 - t0
                < d.window_ms,
    ensures
        spec_run_all_held(d, inputs, i),
        spec_run_inputs(d, inputs, i).held == Some(inputs.last().0),
        spec_run_inputs(d, inputs, i).last_forward == Some(t0),
        spec_run_inputs(d, inputs, i).window_ms == d.window_ms,
    decreases inputs.len() - i,
{
    let step = spec_on_input(d, inputs[i].0, inputs[i].1);
    assert(!spec_ready(d, inputs[i].1));
    assert(step.1 is None);
    if i + 1 < inputs.len() {
        lemma_burst_step(step.0, inputs, t0, i + 1);
    } else {
        assert(spec_run_inputs(step.0, inputs, i + 1) == step.0);
        assert(spec_run_all_held(step.0, inputs, i + 1));
        assert(inputs[i] == inputs.last());
    }
    assert(spec_run_all_held(d, inputs, i) == (step.1 is None && spec_run_all_held(
        step.0,
        inputs,
        i + 1,
    )));
    assert(spec_run_inputs(d, inputs, i) == spec_run_inputs(step.0, inputs, i + 1));
}

} // verus!
