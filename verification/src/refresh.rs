//! The periodic refresh of the thread list, the open thread and the recent posts.
use vstd::prelude::*;

verus! {

/// Seconds between two refreshes of the thread list.
pub const THREAD_REFRESH_SECS: u64 = 5;

/// What the periodic refresh starts in one frame.
#[derive(Debug, Clone, Copy, PartialEq, Eq, Structural)]
pub struct RefreshPlan {
    /// Load the thread list again.
    pub threads: bool,
    /// Load the open thread again.
    pub open_thread: bool,
    /// Load the recent posts again.
    pub recent_posts: bool,
}

/// Whether a refresh is due: never done yet, or done at least `interval` seconds ago.
pub open spec fn due(elapsed_secs: Option<u64>, interval: u64) -> bool {
    match elapsed_secs {
        None => true,
        Some(e) => e >= interval,
    }
}

/// Decides the refreshes of one frame. The thread list is loaded again every five seconds
/// while automatic refresh is on and it is not already loading, together with the open
/// thread when one is shown and not loading; the recent posts are polled every
/// `recent_interval` seconds while they are not loading. `since_refresh` and `since_recent`
/// are the seconds since the last of each, `None` when there was none.
pub fn plan_refresh(
    auto_refresh: bool,
    threads_loading: bool,
    since_refresh: Option<u64>,
    thread_shown_idle: bool,
    recent_loading: bool,
    since_recent: Option<u64>,
    recent_interval: u64,
) -> (p: RefreshPlan)
    ensures
        p.threads == (auto_refresh && !threads_loading && due(since_refresh, THREAD_REFRESH_SECS)),
        p.open_thread == (p.threads && thread_shown_idle),
        p.recent_posts == (!recent_loading && due(since_recent, recent_interval)),
{
    let threads = auto_refresh && !threads_loading && match since_refresh {
        None => true,
        Some(e) => e >= THREAD_REFRESH_SECS,
    };
    let recent_posts = !recent_loading && match since_recent {
        None => true,
        Some(e) => e >= recent_interval,
    };
    RefreshPlan { threads, open_thread: threads && thread_shown_idle, recent_posts }
}

} // verus!
