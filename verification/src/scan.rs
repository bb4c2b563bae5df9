//! Reading every file of the list in the background, so that moving the cursor
//! through the list never waits on disk: how many readers there are, and how
//! far they have come.

use vstd::prelude::*;

verus! {

/// Upper bound on worker threads. The work is dominated by seeks rather than
/// by the parse, so a few in flight at once hide the latency of a slow disk
/// without swamping it.
pub const MAX_WORKERS: usize = 8;

/// How many workers read `total` files: as many as can run at once, at least
/// one, no more than [`MAX_WORKERS`] and no more than there are files.
pub open spec fn workers_for(available: usize, total: usize) -> usize {
    let n = if available < 1 {
        1
    } else if available > MAX_WORKERS {
        MAX_WORKERS
    } else {
        available
    };
    let most = if total < 1 {
        1
    } else {
        total
    };
    if n < most {
        n
    } else {
        most
    }
}

pub fn worker_count(available: usize, total: usize) -> (r: usize)
    ensures
        r == workers_for(available, total),
        1 <= r <= MAX_WORKERS,
{
    let n: usize = if available < 1 {
        1
    } else if available > MAX_WORKERS {
        MAX_WORKERS
    } else {
        available
    };
    let most: usize = if total < 1 {
        1
    } else {
        total
    };
    if n < most {
        n
    } else {
        most
    }
}

/// How far the background scan has come.
#[derive(Clone, Copy, Debug, PartialEq, Eq, Structural)]
pub struct Scanner {
    pub done: usize,
    pub total: usize,
}

impl Scanner {
    /// A scan of `total` files that has just been started.
    pub fn start(total: usize) -> (s: Scanner)
        ensures
            s == (Scanner { done: 0, total }),
    {
        Scanner { done: 0, total }
    }

    /// The scan after `received` more results have arrived. Once every worker
    /// has finished, nothing more is coming, whatever is missing.
    pub open spec fn drained(self, received: nat, finished: bool) -> Scanner {
        Scanner {
            done: if finished {
                self.total
            } else {
                (self.done + received) as usize
            },
            total: self.total,
        }
    }

    /// Counts the results that have arrived. Returns true when there was at
    /// least one, which is the cue to redraw.
    pub fn drain(&mut self, received: usize, finished: bool) -> (any: bool)
        requires
            old(self).done + received <= usize::MAX,
        ensures
            *final(self) == old(self).drained(received as nat, finished),
            any == (received > 0),
    {
        if finished {
            self.done = self.total;
        } else {
            self.done = self.done + received;
        }
        received > 0
    }

    pub fn in_progress(&self) -> (r: bool)
        ensures
            r == (self.done < self.total),
    {
        self.done < self.total
    }

    pub fn progress(&self) -> (r: (usize, usize))
        ensures
            r == (self.done, self.total),
    {
        (self.done, self.total)
    }
}

} // verus!
