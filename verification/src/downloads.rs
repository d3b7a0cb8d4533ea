//! The queue of image downloads: downloads wait in arrival order and at most four run at once.
use std::collections::VecDeque;

use vstd::prelude::*;

verus! {

/// How many downloads may run at once.
pub const MAX_CONCURRENT_DOWNLOADS: usize = 4;

/// Downloads waiting to start, first come first, and how many are running.
pub struct DownloadQueue {
    pub pending: VecDeque<(String, String)>,
    pub active: usize,
}

impl DownloadQueue {
    /// What the queue holds: the waiting downloads (file id and address) in order.
    pub open spec fn waiting(&self) -> Seq<(String, String)> {
        self.pending@
    }

    /// At most four downloads run at once.
    pub open spec fn wf(&self) -> bool {
        self.active <= MAX_CONCURRENT_DOWNLOADS
    }

    /// An empty queue with nothing running.
    pub fn new() -> (q: Self)
        ensures
            q.wf(),
            q.waiting().len() == 0,
            q.active == 0,
    {
        DownloadQueue { pending: VecDeque::new(), active: 0 }
    }

    /// Starts waiting downloads, oldest first, while fewer than four run; returns those started.
    pub fn process(&mut self) -> (started: Vec<(String, String)>)
        requires
            old(self).wf(),
        ensures
            final(self).wf(),
            started@.len() == if old(self).waiting().len() < MAX_CONCURRENT_DOWNLOADS - old(self).active {
                old(self).waiting().len() as int
            } else {
                MAX_CONCURRENT_DOWNLOADS - old(self).active
            },
            started@ == old(self).waiting().take(started@.len() as int),
            final(self).waiting() == old(self).waiting().skip(started@.len() as int),
            final(self).active == old(self).active + started@.len(),
    {
        let mut started: Vec<(String, String)> = Vec::new();
        let ghost orig = self.pending@;
        while self.active < MAX_CONCURRENT_DOWNLOADS
            invariant_except_break
                self.active <= MAX_CONCURRENT_DOWNLOADS,
                self.active == old(self).active + started@.len(),
                started@.len() <= orig.len(),
                started@ == orig.take(started@.len() as int),
                self.pending@ == orig.skip(started@.len() as int),
                orig == old(self).waiting(),
            ensures
                self.active <= MAX_CONCURRENT_DOWNLOADS,
                self.active == old(self).active + started@.len(),
                started@.len() <= orig.len(),
                started@ == orig.take(started@.len() as int),
                self.pending@ == orig.skip(started@.len() as int),
                orig == old(self).waiting(),
                self.active == MAX_CONCURRENT_DOWNLOADS || self.pending@.len() == 0,
            decreases MAX_CONCURRENT_DOWNLOADS - self.active,
        {
            match self.pending.pop_front() {
                Some(item) => {
                    assert(orig.skip(started@.len() as int)[0] == orig[started@.len() as int]);
                    self.active = self.active + 1;
                    started.push(item);
                    assert(started@ =~= orig.take(started@.len() as int));
                    assert(self.pending@ =~= orig.skip(started@.len() as int));
                },
                None => {
                    break ;
                },
            }
        }
        started
    }

    /// Adds a download at the back of the queue and starts what may start.
    pub fn enqueue(&mut self, file_id: String, url: String) -> (started: Vec<(String, String)>)
        requires
            old(self).wf(),
        ensures
            final(self).wf(),
            started@ + final(self).waiting() == old(self).waiting().push((file_id, url)),
            final(self).active == old(self).active + started@.len(),
            final(self).active == MAX_CONCURRENT_DOWNLOADS || final(self).waiting().len() == 0,
    {
        self.pending.push_back((file_id, url));
        let ghost all = self.pending@;
        let started = self.process();
        assert(started@ + self.pending@ =~= all);
        started
    }

    /// Notes that a download finished and starts what may start.
    pub fn complete(&mut self) -> (started: Vec<(String, String)>)
        requires
            old(self).wf(),
        ensures
            final(self).wf(),
            started@ + final(self).waiting() == old(self).waiting(),
            final(self).active == (if old(self).active > 0 { old(self).active - 1 } else { 0 }) + started@.len(),
    {
        if self.active > 0 {
            self.active = self.active - 1;
        }
        let ghost all = self.pending@;
        let started = self.process();
        assert(started@ + self.pending@ =~= all);
        started
    }
}

/// How many times an image download is tried.
pub const DOWNLOAD_ATTEMPTS: u32 = 3;

/// After attempt `attempt` (counted from 1) failed for a passing reason: the pause in
/// milliseconds before trying again, 500 ms times the attempt, or `None` after the last attempt.
pub fn retry_pause_ms(attempt: u32) -> (r: Option<u64>)
    ensures
        attempt < DOWNLOAD_ATTEMPTS ==> r == Some((500 * attempt) as u64),
        attempt >= DOWNLOAD_ATTEMPTS ==> r is None,
{
    if attempt < DOWNLOAD_ATTEMPTS {
        Some(500 * (attempt as u64))
    } else {
        None
    }
}

} // verus!
