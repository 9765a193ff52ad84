//! The scan engine: a sliding-window dispatcher over the input address list.
//! Probes are dispatched in input order, at most `batch_size` are in flight
//! at once, and completions are consumed in dispatch order (FIFO), so the
//! successes come out ordered by input position. The I/O itself — opening
//! sockets, running handshakes, waiting out timeouts — happens outside; the
//! engine decides what to dispatch next and records each completion.
//!
//! Because probes are dispatched in order and awaited in order, the probes
//! in flight are exactly the input positions from `completed` (the progress
//! counter) up to `dispatched`.

use vstd::prelude::*;
use crate::ip::Ipv4;

verus! {

/// The sliding-window scanner state over one input list.
pub struct Scanner {
    /// The input addresses, fixed for the whole scan.
    pub ips: Vec<Ipv4>,
    /// The in-flight cap B.
    pub batch_size: u16,
    /// The per-probe timeout, for the probe runner to apply.
    pub timeout_ms: u64,
    /// How many probes have been dispatched so far.
    pub dispatched: usize,
    /// How many probes have completed so far: the progress counter.
    pub completed: usize,
    /// The input positions of the successful probes, in completion order.
    pub outputs: Vec<usize>,
}

impl Scanner {
    /// How many probes are in flight: dispatched and not yet completed.
    pub open spec fn in_flight(&self) -> int {
        self.dispatched - self.completed
    }

    /// The engine's invariant: completions never pass dispatches, dispatches
    /// never pass the input or run further ahead than the window allows, the
    /// window is refilled eagerly, and the recorded successes are positions
    /// of completed probes, strictly ascending.
    pub open spec fn wf(&self) -> bool {
        &&& self.completed <= self.dispatched <= self.ips@.len()
        &&& self.dispatched == vstd::math::min(
            self.completed + self.batch_size as int,
            self.ips@.len() as int,
        )
        &&& forall|i: int| 0 <= i < self.outputs@.len() ==> self.outputs@[i] < self.completed
        &&& forall|i: int, j: int|
            0 <= i < j < self.outputs@.len() ==> self.outputs@[i] < self.outputs@[j]
    }

    /// Start a scan: the window is primed with the first `min(B, N)` inputs,
    /// nothing has completed, nothing has succeeded.
    pub fn new(ips: Vec<Ipv4>, batch_size: u16, timeout_ms: u64) -> (s: Scanner)
        ensures
            s.wf(),
            s.ips@ == ips@,
            s.batch_size == batch_size,
            s.timeout_ms == timeout_ms,
            s.completed == 0,
            s.outputs@.len() == 0,
            s.dispatched == vstd::math::min(batch_size as int, ips@.len() as int),
    {
        let n = ips.len();
        let prime = if (batch_size as usize) < n {
            batch_size as usize
        } else {
            n
        };
        Scanner {
            ips,
            batch_size,
            timeout_ms,
            dispatched: prime,
            completed: 0,
            outputs: Vec::new(),
        }
    }

    /// The earliest-dispatched probe still in flight: the one whose
    /// completion is consumed next.
    pub fn front(&self) -> (r: Option<usize>)
        requires
            self.wf(),
        ensures
            r == if self.in_flight() > 0 {
                Some(self.completed)
            } else {
                Option::<usize>::None
            },
    {
        if self.completed < self.dispatched {
            Some(self.completed)
        } else {
            None
        }
    }

    /// The scan is over: nothing is in flight, and (for a non-zero window)
    /// that means every input has completed.
    pub fn done(&self) -> (r: bool)
        requires
            self.wf(),
        ensures
            r == (self.in_flight() == 0),
    {
        self.completed == self.dispatched
    }

    /// Consume the completion of the front probe. `success` says whether it
    /// produced output. Returns the input position of the probe to dispatch
    /// in its place, if any input is left: the window refills on completion
    /// and only then, so the in-flight count never grows past the cap.
    pub fn on_complete(&mut self, success: bool) -> (dispatch: Option<usize>)
        requires
            old(self).wf(),
            old(self).in_flight() > 0,
        ensures
            final(self).wf(),
            final(self).ips@ == old(self).ips@,
            final(self).batch_size == old(self).batch_size,
            final(self).timeout_ms == old(self).timeout_ms,
            final(self).completed == old(self).completed + 1,
            final(self).outputs@ == if success {
                old(self).outputs@.push(old(self).completed)
            } else {
                old(self).outputs@
            },
            dispatch == if old(self).dispatched < old(self).ips@.len() {
                Some(old(self).dispatched)
            } else {
                Option::<usize>::None
            },
            final(self).dispatched == if old(self).dispatched < old(self).ips@.len() {
                old(self).dispatched + 1
            } else {
                old(self).dispatched as int
            },
    {
        if success {
            self.outputs.push(self.completed);
        }
        self.completed = self.completed + 1;
        if self.dispatched < self.ips.len() {
            let next = self.dispatched;
            self.dispatched = self.dispatched + 1;
            Some(next)
        } else {
            None
        }
    }

    /// The successful addresses, in input order.
    pub fn output_ips(&self) -> (r: Vec<Ipv4>)
        requires
            self.wf(),
        ensures
            r@.len() == self.outputs@.len(),
            forall|i: int| 0 <= i < r@.len() ==> r@[i] == self.ips@[self.outputs@[i] as int],
    {
        let mut r: Vec<Ipv4> = Vec::new();
        let m = self.outputs.len();
        let mut i: usize = 0;
        while i < m
            invariant
                0 <= i <= m,
                m == self.outputs@.len(),
                self.wf(),
                r@.len() == i,
                forall|j: int| 0 <= j < i ==> r@[j] == self.ips@[self.outputs@[j] as int],
            decreases m - i,
        {
            let idx = self.outputs[i];
            r.push(self.ips[idx]);
            i = i + 1;
        }
        r
    }

    /// Concurrency cap: in every reachable state, the number of probes in
    /// flight is at most the configured batch size.
    pub proof fn lemma_concurrency_cap(&self)
        requires
            self.wf(),
        ensures
            0 <= self.in_flight() <= self.batch_size,
    {
    }

    /// Ordering: the recorded successes are positions into the input list,
    /// strictly ascending — the output is a subsequence of the input list in
    /// input order.
    pub proof fn lemma_outputs_ordered(&self)
        requires
            self.wf(),
        ensures
            forall|i: int| 0 <= i < self.outputs@.len() ==> self.outputs@[i] < self.ips@.len(),
            forall|i: int, j: int|
                0 <= i < j < self.outputs@.len() ==> self.outputs@[i] < self.outputs@[j],
    {
    }

    /// Completion: with a non-zero window, the scan is over exactly when the
    /// progress counter has reached the input length — each completion ticks
    /// it once, so a run over N inputs ticks it exactly N times. (With a
    /// window of zero nothing is ever dispatched and nothing ever ticks.)
    pub proof fn lemma_run_completes(&self)
        requires
            self.wf(),
            self.batch_size >= 1,
        ensures
            (self.in_flight() == 0) <==> (self.completed == self.ips@.len()),
    {
    }
}

} // verus!
