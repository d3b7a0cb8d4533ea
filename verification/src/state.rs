//! The state that the screens of the application keep between frames.
use vstd::prelude::*;

use crate::text::{concat_text, text_equals};
use crate::models::{
    BlockedPeerView, BlocklistEntryView, BlocklistSubscriptionView, ConversationView, DirectMessageView,
    IpBlockStatsResponse, IpBlockView, PeerView,
};

verus! {

/// The form for a new thread.
pub struct CreateThreadState {
    pub title: String,
    pub body: String,
    pub submitting: bool,
    pub error: Option<String>,
    /// Paths of the files to attach.
    pub files: Vec<String>,
}

impl Default for CreateThreadState {
    fn default() -> (d: Self)
        ensures
            d.title@.len() == 0,
            d.body@.len() == 0,
            !d.submitting,
            d.error is None,
            d.files@.len() == 0,
    {
        CreateThreadState { title: String::new(), body: String::new(), submitting: false, error: None, files: Vec::new() }
    }
}

/// The dialog that imports a thread from an address.
pub struct ImporterState {
    pub open: bool,
    pub url: String,
    pub importing: bool,
    pub error: Option<String>,
}

impl Default for ImporterState {
    fn default() -> (d: Self)
        ensures
            !d.open,
            d.url@.len() == 0,
            !d.importing,
            d.error is None,
    {
        ImporterState { open: false, url: String::new(), importing: false, error: None }
    }
}

/// The form that imports a Reddit thread.
pub struct RedditImporterState {
    pub url: String,
    pub importing: bool,
    pub error: Option<String>,
}

impl Default for RedditImporterState {
    fn default() -> (d: Self)
        ensures
            d.url@.len() == 0,
            !d.importing,
            d.error is None,
    {
        RedditImporterState { url: String::new(), importing: false, error: None }
    }
}

/// How an open thread is shown.
#[derive(Clone, Copy, PartialEq, Eq, Structural, Debug)]
pub enum ThreadDisplayMode {
    List,
    Graph,
    Chronological,
    Sugiyama,
}

impl Default for ThreadDisplayMode {
    fn default() -> (d: Self)
        ensures
            d == ThreadDisplayMode::List,
    {
        ThreadDisplayMode::List
    }
}

/// What the thread view asks of the application after a frame.
pub enum ThreadAction {
    /// Nothing to do.
    NoAction,
    GoBack,
    OpenThread(String),
}

/// An image decoded to RGBA pixels, with its width and height.
#[derive(Clone)]
pub struct LoadedImage {
    pub size: [usize; 2],
    pub pixels: Vec<u8>,
}

/// A direct-message conversation on screen.
pub struct ConversationState {
    pub peer_id: String,
    pub peer_info: Option<PeerView>,
    pub messages: Vec<DirectMessageView>,
    pub messages_loading: bool,
    pub messages_error: Option<String>,
    pub new_message_body: String,
    pub sending: bool,
    pub send_error: Option<String>,
}

impl Default for ConversationState {
    fn default() -> (d: Self)
        ensures
            d.peer_id@.len() == 0,
            d.peer_info is None,
            d.messages@.len() == 0,
            !d.messages_loading,
            d.messages_error is None,
            d.new_message_body@.len() == 0,
            !d.sending,
            d.send_error is None,
    {
        ConversationState {
            peer_id: String::new(),
            peer_info: None,
            messages: Vec::new(),
            messages_loading: false,
            messages_error: None,
            new_message_body: String::new(),
            sending: false,
            send_error: None,
        }
    }
}

/// The list of conversations and the unread count.
pub struct DmState {
    pub conversations: Vec<ConversationView>,
    pub conversations_loading: bool,
    pub conversations_error: Option<String>,
    pub unread_count: usize,
}

impl Default for DmState {
    fn default() -> (d: Self)
        ensures
            d.conversations@.len() == 0,
            !d.conversations_loading,
            d.conversations_error is None,
            d.unread_count == 0,
    {
        DmState { conversations: Vec::new(), conversations_loading: false, conversations_error: None, unread_count: 0 }
    }
}

/// The blocking screen: blocked peers, blocklists, address blocks and their forms; the tab is
/// 0 for peers, 1 for blocklists, 2 for address blocks.
pub struct BlockingState {
    pub blocked_peers: Vec<BlockedPeerView>,
    pub blocked_peers_loading: bool,
    pub blocked_peers_error: Option<String>,
    pub new_block_peer_id: String,
    pub new_block_reason: String,
    pub blocking_in_progress: bool,
    pub block_error: Option<String>,
    pub blocklists: Vec<BlocklistSubscriptionView>,
    pub blocklists_loading: bool,
    pub blocklists_error: Option<String>,
    pub new_blocklist_id: String,
    pub new_blocklist_maintainer: String,
    pub new_blocklist_name: String,
    pub new_blocklist_description: String,
    pub new_blocklist_auto_apply: bool,
    pub subscribing_in_progress: bool,
    pub subscribe_error: Option<String>,
    pub viewing_blocklist_id: Option<String>,
    pub blocklist_entries: Vec<BlocklistEntryView>,
    pub blocklist_entries_loading: bool,
    pub blocklist_entries_error: Option<String>,
    pub ip_blocks: Vec<IpBlockView>,
    pub ip_blocks_loading: bool,
    pub ip_blocks_error: Option<String>,
    pub new_ip_block: String,
    pub new_ip_block_reason: String,
    pub adding_ip_block: bool,
    pub add_ip_block_error: Option<String>,
    pub ip_block_stats: Option<IpBlockStatsResponse>,
    pub ip_block_stats_loading: bool,
    pub import_text: String,
    pub importing_ips: bool,
    pub import_error: Option<String>,
    pub showing_clear_all_confirmation: bool,
    pub current_tab: usize,
}

impl Default for BlockingState {
    fn default() -> (d: Self)
        ensures
            d.blocked_peers@.len() == 0,
            !d.blocked_peers_loading,
            d.blocked_peers_error is None,
            d.new_block_peer_id@.len() == 0,
            d.new_block_reason@.len() == 0,
            !d.blocking_in_progress,
            d.block_error is None,
            d.blocklists@.len() == 0,
            !d.blocklists_loading,
            d.blocklists_error is None,
            d.new_blocklist_id@.len() == 0,
            d.new_blocklist_maintainer@.len() == 0,
            d.new_blocklist_name@.len() == 0,
            d.new_blocklist_description@.len() == 0,
            !d.new_blocklist_auto_apply,
            !d.subscribing_in_progress,
            d.subscribe_error is None,
            d.viewing_blocklist_id is None,
            d.blocklist_entries@.len() == 0,
            !d.blocklist_entries_loading,
            d.blocklist_entries_error is None,
            d.ip_blocks@.len() == 0,
            !d.ip_blocks_loading,
            d.ip_blocks_error is None,
            d.new_ip_block@.len() == 0,
            d.new_ip_block_reason@.len() == 0,
            !d.adding_ip_block,
            d.add_ip_block_error is None,
            d.ip_block_stats is None,
            !d.ip_block_stats_loading,
            d.import_text@.len() == 0,
            !d.importing_ips,
            d.import_error is None,
            !d.showing_clear_all_confirmation,
            d.current_tab == 0,
    {
        BlockingState {
            blocked_peers: Vec::new(),
            blocked_peers_loading: false,
            blocked_peers_error: None,
            new_block_peer_id: String::new(),
            new_block_reason: String::new(),
            blocking_in_progress: false,
            block_error: None,
            blocklists: Vec::new(),
            blocklists_loading: false,
            blocklists_error: None,
            new_blocklist_id: String::new(),
            new_blocklist_maintainer: String::new(),
            new_blocklist_name: String::new(),
            new_blocklist_description: String::new(),
            new_blocklist_auto_apply: false,
            subscribing_in_progress: false,
            subscribe_error: None,
            viewing_blocklist_id: None,
            blocklist_entries: Vec::new(),
            blocklist_entries_loading: false,
            blocklist_entries_error: None,
            ip_blocks: Vec::new(),
            ip_blocks_loading: false,
            ip_blocks_error: None,
            new_ip_block: String::new(),
            new_ip_block_reason: String::new(),
            adding_ip_block: false,
            add_ip_block_error: None,
            ip_block_stats: None,
            ip_block_stats_loading: false,
            import_text: String::new(),
            importing_ips: false,
            import_error: None,
            showing_clear_all_confirmation: false,
            current_tab: 0,
        }
    }
}

impl CreateThreadState {
    /// The new thread was created (the form empties, and the banner to show is returned) or
    /// refused (its error is shown and no banner).
    pub fn on_thread_created(&mut self, result: Result<(), String>) -> (banner: Option<String>)
        ensures
            match result {
                Ok(_) => {
                    &&& banner matches Some(b) && b@ == "Thread created"@
                    &&& final(self).title@.len() == 0
                    &&& final(self).body@.len() == 0
                    &&& final(self).files@.len() == 0
                    &&& *final(self) == (CreateThreadState {
                        title: final(self).title,
                        body: final(self).body,
                        submitting: false,
                        error: None,
                        files: final(self).files,
                    })
                },
                Err(e) => banner is None && *final(self) == (CreateThreadState { submitting: false, error: Some(e), ..*old(self) }),
            },
    {
        match result {
            Ok(_) => {
                *self = CreateThreadState::default();
                Some("Thread created".to_owned())
            },
            Err(e) => {
                self.submitting = false;
                self.error = Some(e);
                None
            },
        }
    }
}

impl ImporterState {
    /// An import finished: on success the dialog closes and empties, and the imported thread's
    /// id is returned to be focused; on failure the error is shown.
    pub fn on_import_finished(&mut self, result: Result<String, String>) -> (focus: Option<String>)
        ensures
            !final(self).importing,
            match result {
                Ok(id) => {
                    &&& focus == Some(id)
                    &&& final(self).url@.len() == 0
                    &&& *final(self) == (ImporterState {
                        open: false,
                        url: final(self).url,
                        importing: false,
                        error: None,
                    })
                },
                Err(e) => focus is None && *final(self) == (ImporterState {
                    importing: false,
                    error: Some(e),
                    ..*old(self)
                }),
            },
    {
        self.importing = false;
        match result {
            Ok(id) => {
                self.open = false;
                self.url = String::new();
                self.error = None;
                Some(id)
            },
            Err(e) => {
                self.error = Some(e);
                None
            },
        }
    }

    /// A thread was imported: the dialog closes and empties.
    pub fn on_thread_imported(&mut self)
        ensures
            !final(self).open,
            !final(self).importing,
            final(self).url@.len() == 0,
            final(self).error is None,
    {
        self.importing = false;
        self.error = None;
        self.url = String::new();
        self.open = false;
    }

    /// An import failed with `error`.
    pub fn on_import_error(&mut self, error: String)
        ensures
            *final(self) == (ImporterState { importing: false, error: Some(error), ..*old(self) }),
    {
        self.importing = false;
        self.error = Some(error);
    }
}

impl DmState {
    /// The conversations arrived, or the error in loading them.
    pub fn on_conversations_loaded(&mut self, result: Result<Vec<ConversationView>, String>)
        ensures
            match result {
                Ok(c) => *final(self) == (DmState {
                    conversations_loading: false,
                    conversations: c,
                    conversations_error: None,
                    ..*old(self)
                }),
                Err(e) => *final(self) == (DmState {
                    conversations_loading: false,
                    conversations_error: Some(e),
                    ..*old(self)
                }),
            },
    {
        self.conversations_loading = false;
        match result {
            Ok(c) => {
                self.conversations = c;
                self.conversations_error = None;
            },
            Err(e) => {
                self.conversations_error = Some(e);
            },
        }
    }
}

impl ConversationState {
    /// The messages with `peer_id` arrived, or the error; answers about another peer change
    /// nothing.
    pub fn on_messages_loaded(&mut self, peer_id: &str, result: Result<Vec<DirectMessageView>, String>)
        ensures
            old(self).peer_id@ != peer_id@ ==> *final(self) == *old(self),
            old(self).peer_id@ == peer_id@ ==> match result {
                Ok(m) => *final(self) == (ConversationState {
                    messages_loading: false,
                    messages: m,
                    messages_error: None,
                    ..*old(self)
                }),
                Err(e) => *final(self) == (ConversationState {
                    messages_loading: false,
                    messages_error: Some(e),
                    ..*old(self)
                }),
            },
    {
        if !text_equals(self.peer_id.as_str(), peer_id) {
            return;
        }
        self.messages_loading = false;
        match result {
            Ok(m) => {
                self.messages = m;
                self.messages_error = None;
            },
            Err(e) => {
                self.messages_error = Some(e);
            },
        }
    }

    /// A message to `to_peer_id` was sent (it joins the conversation and the draft empties) or
    /// failed; returns whether the conversations should load again. Answers about another
    /// peer change nothing.
    pub fn on_dm_sent(&mut self, to_peer_id: &str, result: Result<DirectMessageView, String>) -> (reload: bool)
        ensures
            old(self).peer_id@ != to_peer_id@ ==> *final(self) == *old(self) && !reload,
            old(self).peer_id@ == to_peer_id@ ==> match result {
                Ok(m) => {
                    &&& reload
                    &&& final(self).messages@ == old(self).messages@.push(m)
                    &&& final(self).new_message_body@.len() == 0
                    &&& *final(self) == (ConversationState {
                        sending: false,
                        messages: final(self).messages,
                        new_message_body: final(self).new_message_body,
                        send_error: None,
                        ..*old(self)
                    })
                },
                Err(e) => !reload && *final(self) == (ConversationState {
                    sending: false,
                    send_error: Some(e),
                    ..*old(self)
                }),
            },
    {
        if !text_equals(self.peer_id.as_str(), to_peer_id) {
            return false;
        }
        self.sending = false;
        match result {
            Ok(m) => {
                self.messages.push(m);
                self.new_message_body = String::new();
                self.send_error = None;
                true
            },
            Err(e) => {
                self.send_error = Some(e);
                false
            },
        }
    }
}

/// The identity screen: the local peer, the profile form and the form that adds a friend. The
/// avatar cropper, which holds a decoded image, is kept by the window that draws it.
pub struct IdentityState {
    pub local_peer: Option<PeerView>,
    pub avatar_path: Option<String>,
    pub uploading: bool,
    pub error: Option<String>,
    pub username_input: String,
    pub bio_input: String,
    pub initialized_inputs: bool,
    pub inspected_peer: Option<PeerView>,
    pub friendcode_input: String,
    pub adding_peer: bool,
}

impl Default for IdentityState {
    fn default() -> (d: Self)
        ensures
            d.local_peer is None,
            d.avatar_path is None,
            !d.uploading,
            d.error is None,
            d.username_input@.len() == 0,
            d.bio_input@.len() == 0,
            !d.initialized_inputs,
            d.inspected_peer is None,
            d.friendcode_input@.len() == 0,
            !d.adding_peer,
    {
        IdentityState {
            local_peer: None,
            avatar_path: None,
            uploading: false,
            error: None,
            username_input: String::new(),
            bio_input: String::new(),
            initialized_inputs: false,
            inspected_peer: None,
            friendcode_input: String::new(),
            adding_peer: false,
        }
    }
}

/// Whether `error` holds the text `prefix` followed by `detail`.
pub open spec fn error_reads(error: Option<String>, prefix: Seq<char>, detail: Seq<char>) -> bool {
    error matches Some(m) && m@ == prefix + detail
}

/// The name under which an added peer is announced: its user name, or `Unknown`.
pub open spec fn peer_display_name(peer: PeerView) -> Seq<char> {
    match peer.username {
        Some(u) => u@,
        None => "Unknown"@,
    }
}

impl IdentityState {
    /// The local peer arrived, or the error in loading it.
    pub fn on_identity_loaded(&mut self, result: Result<PeerView, String>)
        ensures
            match result {
                Ok(peer) => *final(self) == (IdentityState { local_peer: Some(peer), error: None, ..*old(self) }),
                Err(e) => {
                    &&& error_reads(final(self).error, "Failed to load identity: "@, e@)
                    &&& *final(self) == (IdentityState { error: final(self).error, ..*old(self) })
                },
            },
    {
        match result {
            Ok(peer) => {
                self.local_peer = Some(peer);
                self.error = None;
            },
            Err(e) => {
                self.error = Some(concat_text("Failed to load identity: ", e.as_str()));
            },
        }
    }

    /// The avatar upload finished; returns whether the local peer should load again (it does
    /// after a success, to learn the new avatar).
    pub fn on_avatar_uploaded(&mut self, result: Result<(), String>) -> (reload: bool)
        ensures
            reload == (result is Ok),
            match result {
                Ok(_) => *final(self) == (IdentityState { uploading: false, avatar_path: None, ..*old(self) }),
                Err(e) => {
                    &&& error_reads(final(self).error, "Failed to upload avatar: "@, e@)
                    &&& *final(self) == (IdentityState { uploading: false, error: final(self).error, ..*old(self) })
                },
            },
    {
        self.uploading = false;
        match result {
            Ok(_) => {
                self.avatar_path = None;
                true
            },
            Err(e) => {
                self.error = Some(concat_text("Failed to upload avatar: ", e.as_str()));
                false
            },
        }
    }

    /// The profile change finished; returns whether the local peer should load again.
    pub fn on_profile_updated(&mut self, result: Result<(), String>) -> (reload: bool)
        ensures
            reload == (result is Ok),
            match result {
                Ok(_) => *final(self) == (IdentityState { uploading: false, ..*old(self) }),
                Err(e) => {
                    &&& error_reads(final(self).error, "Failed to update profile: "@, e@)
                    &&& *final(self) == (IdentityState { uploading: false, error: final(self).error, ..*old(self) })
                },
            },
    {
        self.uploading = false;
        match result {
            Ok(_) => true,
            Err(e) => {
                self.error = Some(concat_text("Failed to update profile: ", e.as_str()));
                false
            },
        }
    }

    /// A friend was added (the friend-code field empties and the banner to show is returned)
    /// or refused (the error is shown). The caller keeps the peer in its cache.
    pub fn on_peer_added(&mut self, result: &Result<PeerView, String>) -> (banner: Option<String>)
        ensures
            match result {
                Ok(peer) => {
                    &&& banner matches Some(b) && b@ == "Added peer: "@ + peer_display_name(*peer)
                    &&& final(self).friendcode_input@.len() == 0
                    &&& *final(self) == (IdentityState {
                        adding_peer: false,
                        friendcode_input: final(self).friendcode_input,
                        error: None,
                        ..*old(self)
                    })
                },
                Err(e) => {
                    &&& banner is None
                    &&& error_reads(final(self).error, "Failed to add peer: "@, e@)
                    &&& *final(self) == (IdentityState { adding_peer: false, error: final(self).error, ..*old(self) })
                },
            },
    {
        self.adding_peer = false;
        match result {
            Ok(peer) => {
                let name: &str = match &peer.username {
                    Some(u) => u.as_str(),
                    None => "Unknown",
                };
                self.friendcode_input = String::new();
                self.error = None;
                Some(concat_text("Added peer: ", name))
            },
            Err(e) => {
                self.error = Some(concat_text("Failed to add peer: ", e.as_str()));
                None
            },
        }
    }
}

/// A search on screen: its query, the results that came back, and the error if it failed.
pub struct SearchState<R> {
    pub query: String,
    pub results: Vec<R>,
    pub is_loading: bool,
    pub error: Option<String>,
}

impl<R> Default for SearchState<R> {
    fn default() -> (d: Self)
        ensures
            d.query@.len() == 0,
            d.results@.len() == 0,
            !d.is_loading,
            d.error is None,
    {
        SearchState { query: String::new(), results: Vec::new(), is_loading: false, error: None }
    }
}

impl<R> SearchState<R> {
    /// The results of the search for `query` arrived, or the error (which clears the results);
    /// answers to another query change nothing.
    pub fn on_search_completed(&mut self, query: &str, result: Result<Vec<R>, String>)
        ensures
            old(self).query@ != query@ ==> *final(self) == *old(self),
            old(self).query@ == query@ ==> match result {
                Ok(r) => *final(self) == (SearchState { is_loading: false, results: r, error: None, ..*old(self) }),
                Err(e) => {
                    &&& final(self).results@.len() == 0
                    &&& *final(self) == (SearchState {
                        is_loading: false,
                        results: final(self).results,
                        error: Some(e),
                        ..*old(self)
                    })
                },
            },
    {
        if !text_equals(self.query.as_str(), query) {
            return;
        }
        self.is_loading = false;
        match result {
            Ok(r) => {
                self.results = r;
                self.error = None;
            },
            Err(e) => {
                self.error = Some(e);
                self.results = Vec::new();
            },
        }
    }
}

} // verus!
