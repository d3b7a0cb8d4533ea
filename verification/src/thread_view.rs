//! The content of an open thread and how answers from the node change it: a thread that
//! loaded or refreshed, and a post that was published.
use vstd::prelude::*;

use crate::catalog::{append_fresh, fresh_positions, fresh_posts};
use crate::models::{FileResponse, PeerView, PostView, ThreadDetails, ThreadSummary};
use crate::text::text_equals;

verus! {

/// What an open thread holds besides its layouts: the thread, its posts once loaded, the load
/// state, and the reply being written.
pub struct ThreadContent {
    pub summary: ThreadSummary,
    pub details: Option<ThreadDetails>,
    pub is_loading: bool,
    pub error: Option<String>,
    pub new_post_body: String,
    pub new_post_error: Option<String>,
    pub new_post_sending: bool,
}

/// What a thread load did, for the screen around the content.
pub enum ThreadLoaded {
    /// The answer was about another thread: nothing changed.
    Stale,
    /// The load failed; the error is shown.
    Failed,
    /// The first load: the content holds the whole thread now, and the layouts start again.
    Initial,
    /// A refresh: the positions, in the refreshed thread, of the posts that were appended
    /// (their layouts are made anew when there are any), and the peers the node reported.
    Refreshed { fresh: Vec<usize>, peers: Vec<PeerView> },
}

/// What the answer to a published post did.
pub enum PostAnswer {
    /// The answer was about another thread: nothing changed.
    Stale,
    /// The post was refused; the error is shown beside the reply.
    Refused,
    /// The post was published and joined the thread at `position`.
    Published { banner: String, position: usize },
    /// The post was published while the thread's posts were not loaded; it is handed back.
    PublishedAlone { banner: String, post: PostView },
}

fn copy_text(o: &Option<String>) -> (r: Option<String>)
    ensures
        r == *o,
{
    match o {
        Some(t) => Some(t.clone()),
        None => None,
    }
}

fn copy_file(f: &FileResponse) -> (r: FileResponse)
    ensures
        r == *f,
{
    FileResponse {
        id: f.id.clone(),
        post_id: f.post_id.clone(),
        original_name: copy_text(&f.original_name),
        mime: copy_text(&f.mime),
        size_bytes: f.size_bytes,
        checksum: copy_text(&f.checksum),
        blob_id: copy_text(&f.blob_id),
        ticket: copy_text(&f.ticket),
        path: f.path.clone(),
        download_url: copy_text(&f.download_url),
        present: f.present,
    }
}

fn copy_summary(t: &ThreadSummary) -> (r: ThreadSummary)
    ensures
        r == *t,
{
    ThreadSummary {
        id: t.id.clone(),
        title: t.title.clone(),
        creator_peer_id: copy_text(&t.creator_peer_id),
        created_at: t.created_at.clone(),
        pinned: t.pinned,
        sync_status: t.sync_status.clone(),
        first_image_file: match &t.first_image_file {
            Some(f) => Some(copy_file(f)),
            None => None,
        },
    }
}

impl ThreadContent {
    /// A thread, or the error in loading it, arrived for thread `thread_id`. The first load
    /// takes the whole thread; a refresh keeps the posts shown, appends the new ones (by id, in
    /// the order received) and takes the new summary. Answers about another thread change
    /// nothing.
    pub fn on_thread_loaded(&mut self, thread_id: &str, result: Result<ThreadDetails, String>) -> (o: ThreadLoaded)
        ensures
            old(self).summary.id@ != thread_id@ ==> *final(self) == *old(self) && o is Stale,
            old(self).summary.id@ == thread_id@ ==> match result {
                Err(e) => o is Failed && *final(self) == (ThreadContent { is_loading: false, error: Some(e), ..*old(self) }),
                Ok(d) => match old(self).details {
                    None => o is Initial && *final(self) == (ThreadContent {
                        summary: d.thread,
                        details: Some(d),
                        is_loading: false,
                        error: None,
                        ..*old(self)
                    }),
                    Some(cur) => {
                        &&& o matches ThreadLoaded::Refreshed { fresh, peers } && peers == d.peers
                            && fresh@.map_values(|i: usize| i as int) == fresh_positions(cur.posts@, d.posts@, d.posts@.len() as int)
                        &&& final(self).details matches Some(nd) && nd.thread == cur.thread && nd.peers == cur.peers
                            && nd.posts@ == cur.posts@ + fresh_posts(cur.posts@, d.posts@)
                        &&& *final(self) == (ThreadContent {
                            summary: d.thread,
                            details: final(self).details,
                            is_loading: false,
                            error: None,
                            ..*old(self)
                        })
                    },
                },
            },
    {
        if !text_equals(self.summary.id.as_str(), thread_id) {
            return ThreadLoaded::Stale;
        }
        self.is_loading = false;
        match result {
            Err(e) => {
                self.error = Some(e);
                ThreadLoaded::Failed
            },
            Ok(d) => {
                let ThreadDetails { thread, posts, peers } = d;
                match self.details.take() {
                    None => {
                        self.summary = copy_summary(&thread);
                        self.details = Some(ThreadDetails { thread, posts, peers });
                        self.error = None;
                        ThreadLoaded::Initial
                    },
                    Some(mut cur) => {
                        let fresh = append_fresh(&mut cur.posts, posts);
                        self.details = Some(cur);
                        self.summary = thread;
                        self.error = None;
                        ThreadLoaded::Refreshed { fresh, peers }
                    },
                }
            },
        }
    }

    /// The answer to a post published in thread `thread_id`: on success the reply empties and
    /// the post joins the thread's posts (or is handed back when they are not loaded), with the
    /// banner to show; on failure the error is shown beside the reply. Answers about another
    /// thread change nothing.
    pub fn on_post_created(&mut self, thread_id: &str, result: Result<PostView, String>) -> (a: PostAnswer)
        ensures
            old(self).summary.id@ != thread_id@ ==> *final(self) == *old(self) && a is Stale,
            old(self).summary.id@ == thread_id@ ==> match result {
                Err(e) => a is Refused && *final(self) == (ThreadContent {
                    new_post_sending: false,
                    new_post_error: Some(e),
                    ..*old(self)
                }),
                Ok(p) => {
                    &&& final(self).new_post_body@.len() == 0
                    &&& match old(self).details {
                        Some(cur) => {
                            &&& a matches PostAnswer::Published { banner, position } && banner@ == "Post published"@
                                && position == cur.posts@.len()
                            &&& *final(self) == (ThreadContent {
                                details: Some(ThreadDetails { posts: final(self).details->0.posts, ..cur }),
                                new_post_body: final(self).new_post_body,
                                new_post_error: None,
                                new_post_sending: false,
                                ..*old(self)
                            })
                            &&& final(self).details->0.posts@ == cur.posts@.push(p)
                        },
                        None => {
                            &&& a matches PostAnswer::PublishedAlone { banner, post } && banner@ == "Post published"@
                                && post == p
                            &&& *final(self) == (ThreadContent {
                                new_post_body: final(self).new_post_body,
                                new_post_error: None,
                                new_post_sending: false,
                                ..*old(self)
                            })
                        },
                    }
                },
            },
    {
        if !text_equals(self.summary.id.as_str(), thread_id) {
            return PostAnswer::Stale;
        }
        self.new_post_sending = false;
        match result {
            Err(e) => {
                self.new_post_error = Some(e);
                PostAnswer::Refused
            },
            Ok(p) => {
                self.new_post_body = String::new();
                self.new_post_error = None;
                match self.details.take() {
                    Some(mut cur) => {
                        let position = cur.posts.len();
                        cur.posts.push(p);
                        self.details = Some(cur);
                        PostAnswer::Published { banner: "Post published".to_owned(), position }
                    },
                    None => PostAnswer::PublishedAlone { banner: "Post published".to_owned(), post: p },
                }
            },
        }
    }
}

} // verus!
