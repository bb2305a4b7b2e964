//! The progress observer a chunked transfer reports to, and a simple
//! recording implementation of it.
//!
//! After each completed chunk the transfer calls `on_progress(done,
//! total)` with the byte count completed *before* that chunk, so the
//! first report of a transfer is always `(0, total)`. Rendering is the
//! observer's business; the transfer only promises the sequence of
//! reports it delivers.

use vstd::prelude::*;

verus! {

/// An observer of chunked-transfer progress.
///
/// A sink is modelled by the sequence of `(done, total)` reports it has
/// received; `on_progress` must do nothing but record (and render) one
/// more report, and must not block the transfer.
pub trait ProgressSink: Sized {
    /// Every report received so far, in order. Verified
    /// implementations override this model; implementations outside
    /// the verifier may leave the default.
    open spec fn reports(&self) -> Seq<(usize, usize)> {
        Seq::empty()
    }

    /// Receives one `(bytes_done, bytes_total)` report.
    fn on_progress(&mut self, done: usize, total: usize)
        ensures
            final(self).reports() == old(self).reports().push((done, total)),
    ;
}

/// A sink that only records the reports it receives.
pub struct ProgressLog {
    entries: Vec<(usize, usize)>,
}

impl ProgressLog {
    /// An empty log.
    pub fn new() -> (log: ProgressLog)
        ensures
            log.reports() == Seq::<(usize, usize)>::empty(),
    {
        ProgressLog { entries: Vec::new() }
    }

    /// The reports received so far.
    pub fn entries(&self) -> (r: &Vec<(usize, usize)>)
        ensures
            r@ == self.reports(),
    {
        &self.entries
    }
}

impl ProgressSink for ProgressLog {
    closed spec fn reports(&self) -> Seq<(usize, usize)> {
        self.entries@
    }

    fn on_progress(&mut self, done: usize, total: usize) {
        self.entries.push((done, total));
    }
}

} // verus!
