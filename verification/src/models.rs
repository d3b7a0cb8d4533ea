//! Plain records exchanged with the backend node.
use std::collections::HashMap;

use vstd::prelude::*;

verus! {

/// A thread as listed in a catalog.
#[derive(Debug, Clone, Default)]
pub struct ThreadSummary {
    pub id: String,
    pub title: String,
    pub creator_peer_id: Option<String>,
    pub created_at: String,
    pub pinned: bool,
    pub sync_status: String,
    pub first_image_file: Option<FileResponse>,
}

/// Value of `sync_status` for a thread whose record does not name one.
pub fn default_sync_status() -> (s: String)
    ensures
        s@ == "downloaded"@,
{
    String::from_str("downloaded")
}

/// A thread with all of its posts and the peers that took part.
#[derive(Debug, Clone)]
pub struct ThreadDetails {
    pub thread: ThreadSummary,
    pub posts: Vec<PostView>,
    pub peers: Vec<PeerView>,
}

/// One post of a thread; `parent_post_ids` are the posts it replies to.
#[derive(Debug, Clone)]
pub struct PostView {
    pub id: String,
    pub thread_id: String,
    pub author_peer_id: Option<String>,
    pub author_short_friendcode: Option<String>,
    pub body: String,
    pub created_at: String,
    pub updated_at: Option<String>,
    pub parent_post_ids: Vec<String>,
    pub files: Vec<FileResponse>,
}

/// Request body for a new thread.
#[derive(Debug, Clone, Default)]
pub struct CreateThreadInput {
    pub title: String,
    pub body: Option<String>,
    pub creator_peer_id: Option<String>,
    pub pinned: Option<bool>,
    /// Timestamp for imported threads; the backend uses the current time when absent.
    pub created_at: Option<String>,
    /// Topics on which the thread is announced.
    pub topics: Vec<String>,
    pub visibility: Option<String>,
}

/// Request body for a new post.
#[derive(Debug, Clone, Default)]
pub struct CreatePostInput {
    pub thread_id: String,
    pub author_peer_id: Option<String>,
    pub body: String,
    pub parent_post_ids: Vec<String>,
    /// Timestamp for imported posts; the backend uses the current time when absent.
    pub created_at: Option<String>,
    /// Whether the node rebroadcasts the thread to its peers (host mode).
    pub rebroadcast: bool,
}

/// Value of `rebroadcast` for a post request that does not name one: host mode.
pub fn default_rebroadcast() -> (b: bool)
    ensures
        b,
{
    true
}

/// The backend's answer to a new post.
#[derive(Debug, Clone)]
pub struct PostResponse {
    pub post: PostView,
}

/// A file attached to a post.
#[derive(Debug, Clone)]
pub struct FileResponse {
    pub id: String,
    pub post_id: String,
    pub original_name: Option<String>,
    pub mime: Option<String>,
    pub size_bytes: Option<i64>,
    pub checksum: Option<String>,
    pub blob_id: Option<String>,
    pub ticket: Option<String>,
    pub path: String,
    pub download_url: Option<String>,
    pub present: bool,
}

/// One entry of a file listing.
#[derive(Debug, Clone)]
pub struct FileListEntry(pub FileResponse);

/// A known peer.
#[derive(Debug, Clone)]
pub struct PeerView {
    pub id: String,
    pub alias: Option<String>,
    pub username: Option<String>,
    pub bio: Option<String>,
    pub friendcode: Option<String>,
    pub short_friendcode: Option<String>,
    pub iroh_peer_id: Option<String>,
    pub gpg_fingerprint: Option<String>,
    pub last_seen: Option<String>,
    pub avatar_file_id: Option<String>,
    pub trust_state: String,
}

/// Request body for a profile change.
#[derive(Debug, Clone)]
pub struct UpdateProfileRequest {
    pub username: Option<String>,
    pub bio: Option<String>,
}

/// Request body for following a peer by friend code.
#[derive(Debug, Clone)]
pub struct AddPeerRequest {
    pub friendcode: String,
}

/// Reactions on a post, with a count per emoji.
#[derive(Debug, Clone)]
pub struct ReactionsResponse {
    pub reactions: Vec<ReactionView>,
    pub counts: HashMap<String, usize>,
}

/// One reaction of one peer.
#[derive(Debug, Clone)]
pub struct ReactionView {
    pub emoji: String,
    pub reactor_peer_id: String,
    pub created_at: String,
}

/// A direct-message conversation with one peer.
#[derive(Debug, Clone)]
pub struct ConversationView {
    pub id: String,
    pub peer_id: String,
    pub peer_username: Option<String>,
    pub peer_alias: Option<String>,
    pub last_message_at: Option<String>,
    pub last_message_preview: Option<String>,
    pub unread_count: u32,
}

/// One direct message.
#[derive(Debug, Clone)]
pub struct DirectMessageView {
    pub id: String,
    pub conversation_id: String,
    pub from_peer_id: String,
    pub to_peer_id: String,
    pub body: String,
    pub created_at: String,
    pub read_at: Option<String>,
}

/// Request body for a direct message.
#[derive(Debug, Clone)]
pub struct SendDmRequest {
    pub to_peer_id: String,
    pub body: String,
}

/// Number of unread direct messages.
#[derive(Debug, Clone)]
pub struct UnreadCountResponse {
    pub count: usize,
}

/// A peer blocked on this node.
#[derive(Debug, Clone)]
pub struct BlockedPeerView {
    pub peer_id: String,
    pub peer_username: Option<String>,
    pub peer_alias: Option<String>,
    pub reason: Option<String>,
    pub blocked_at: String,
}

/// A subscription to a blocklist kept by another peer.
#[derive(Debug, Clone)]
pub struct BlocklistSubscriptionView {
    pub id: String,
    pub maintainer_peer_id: String,
    pub name: String,
    pub description: Option<String>,
    pub auto_apply: bool,
    pub last_synced_at: Option<String>,
    pub entry_count: usize,
}

/// One entry of a blocklist.
#[derive(Debug, Clone)]
pub struct BlocklistEntryView {
    pub peer_id: String,
    pub peer_username: Option<String>,
    pub peer_alias: Option<String>,
    pub reason: Option<String>,
    pub added_at: String,
}

/// Request body for blocking a peer.
#[derive(Debug, Clone)]
pub struct BlockPeerRequest {
    pub reason: Option<String>,
}

/// Request body for subscribing to a blocklist.
#[derive(Debug, Clone)]
pub struct SubscribeBlocklistRequest {
    pub maintainer_peer_id: String,
    pub name: String,
    pub description: Option<String>,
    pub auto_apply: bool,
}

/// Value of `auto_apply` for a subscription request that does not name one.
pub fn default_auto_apply() -> (b: bool)
    ensures
        b,
{
    true
}

/// An address or address range blocked on this node.
#[derive(Debug, Clone)]
pub struct IpBlockView {
    pub id: i64,
    pub ip_or_range: String,
    pub block_type: String,
    pub blocked_at: i64,
    pub reason: Option<String>,
    pub hit_count: i64,
}

/// Counts over the address blocks of this node.
#[derive(Debug, Clone)]
pub struct IpBlockStatsResponse {
    pub total_blocks: i64,
    pub active_blocks: i64,
    pub total_hits: i64,
    pub exact_ip_blocks: i64,
    pub range_blocks: i64,
}

/// A post of the cross-thread feed, with its thread's title.
#[derive(Debug, Clone)]
pub struct RecentPostView {
    pub post: PostView,
    pub thread_title: String,
    pub files: Vec<FileResponse>,
}

/// The cross-thread feed.
#[derive(Debug, Clone)]
pub struct RecentPostsResponse {
    pub posts: Vec<RecentPostView>,
}

} // verus!
