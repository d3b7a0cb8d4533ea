use graphchan_frontend::refresh::plan_refresh;
use graphchan_frontend::blocking::{peer_ip_block_failed_banner, peer_ip_blocked_banner};
use graphchan_frontend::models::{BlockedPeerView, BlocklistSubscriptionView, DirectMessageView, IpBlockView, PeerView};
use graphchan_frontend::state::{
    BlockingState, ConversationState, CreateThreadState, DmState, IdentityState, ImporterState, SearchState,
};

fn blocked(id: &str) -> BlockedPeerView {
    BlockedPeerView {
        peer_id: id.to_string(),
        peer_username: None,
        peer_alias: None,
        reason: None,
        blocked_at: "now".to_string(),
    }
}

fn ip_block(id: i64) -> IpBlockView {
    IpBlockView {
        id,
        ip_or_range: format!("10.0.0.{}", id),
        block_type: "exact".to_string(),
        blocked_at: 0,
        reason: None,
        hit_count: 0,
    }
}

fn subscription(id: &str) -> BlocklistSubscriptionView {
    BlocklistSubscriptionView {
        id: id.to_string(),
        maintainer_peer_id: "m".to_string(),
        name: "n".to_string(),
        description: None,
        auto_apply: true,
        last_synced_at: None,
        entry_count: 0,
    }
}

#[test]
fn blocking_peers_updates_the_list_and_form() {
    let mut s = BlockingState::default();
    s.blocked_peers_loading = true;
    s.on_blocked_peers_loaded(Ok(vec![blocked("a"), blocked("b")]));
    assert!(!s.blocked_peers_loading);
    assert_eq!(s.blocked_peers.len(), 2);
    s.new_block_peer_id = "c".to_string();
    s.blocking_in_progress = true;
    s.on_peer_blocked(Ok(blocked("c")));
    assert_eq!(s.blocked_peers.len(), 3);
    assert!(s.new_block_peer_id.is_empty());
    assert!(!s.blocking_in_progress);
    s.on_peer_unblocked("a", Ok(()));
    let ids: Vec<_> = s.blocked_peers.iter().map(|p| p.peer_id.clone()).collect();
    assert_eq!(ids, vec!["b".to_string(), "c".to_string()]);
    s.on_peer_unblocked("b", Err("offline".to_string()));
    assert_eq!(s.blocked_peers_error.as_deref(), Some("offline"));
    assert_eq!(s.blocked_peers.len(), 2);
    s.on_peer_blocked(Err("no".to_string()));
    assert_eq!(s.block_error.as_deref(), Some("no"));
}

#[test]
fn blocklist_subscriptions_come_and_go() {
    let mut s = BlockingState::default();
    s.new_blocklist_name = "x".to_string();
    s.new_blocklist_auto_apply = true;
    s.on_blocklist_subscribed(Ok(subscription("l1")));
    s.on_blocklist_subscribed(Ok(subscription("l2")));
    assert_eq!(s.blocklists.len(), 2);
    assert!(s.new_blocklist_name.is_empty());
    assert!(!s.new_blocklist_auto_apply);
    s.on_blocklist_unsubscribed("l1", Ok(()));
    assert_eq!(s.blocklists.len(), 1);
    assert_eq!(s.blocklists[0].id, "l2");
    s.on_blocklists_loaded(Err("down".to_string()));
    assert_eq!(s.blocklists_error.as_deref(), Some("down"));
}

#[test]
fn address_blocks_reload_after_changes() {
    let mut s = BlockingState::default();
    s.on_ip_blocks_loaded(Ok(vec![ip_block(1), ip_block(2), ip_block(1)]));
    let r = s.on_ip_block_removed(1, Ok(()));
    assert!(!r.ip_blocks && r.ip_block_stats);
    assert_eq!(s.ip_blocks.len(), 1);
    assert_eq!(s.ip_blocks[0].id, 2);
    s.new_ip_block = "1.2.3.4".to_string();
    let r = s.on_ip_block_added(Ok(()));
    assert!(r.ip_blocks && r.ip_block_stats);
    assert!(s.new_ip_block.is_empty());
    let r = s.on_ip_block_added(Err("bad".to_string()));
    assert!(!r.ip_blocks && !r.ip_block_stats);
    assert_eq!(s.add_ip_block_error.as_deref(), Some("bad"));
    s.import_text = "x".to_string();
    let r = s.on_ip_blocks_imported(Ok(()));
    assert!(r.ip_blocks);
    assert!(s.import_text.is_empty());
    let r = s.on_ip_blocks_cleared(Ok(()));
    assert!(s.ip_blocks.is_empty() && r.ip_block_stats);
}

#[test]
fn banners_for_address_blocking() {
    let (banner, reloads) = peer_ip_blocked_banner("p", 3);
    assert_eq!(banner, "Blocked 3 IP(s) for peer p");
    assert!(reloads.ip_blocks && reloads.ip_block_stats);
    assert_eq!(peer_ip_block_failed_banner("p", "boom"), "Failed to block IPs for peer p: boom");
}

fn message(id: &str) -> DirectMessageView {
    DirectMessageView {
        id: id.to_string(),
        conversation_id: "c".to_string(),
        from_peer_id: "me".to_string(),
        to_peer_id: "p".to_string(),
        body: "hi".to_string(),
        created_at: "now".to_string(),
        read_at: None,
    }
}

#[test]
fn conversations_take_answers_for_their_peer_only() {
    let mut c = ConversationState::default();
    c.peer_id = "p".to_string();
    c.messages_loading = true;
    c.on_messages_loaded("q", Ok(vec![message("x")]));
    assert!(c.messages.is_empty() && c.messages_loading);
    c.on_messages_loaded("p", Ok(vec![message("m1")]));
    assert_eq!(c.messages.len(), 1);
    c.new_message_body = "draft".to_string();
    assert!(c.on_dm_sent("p", Ok(message("m2"))));
    assert_eq!(c.messages.len(), 2);
    assert!(c.new_message_body.is_empty());
    assert!(!c.on_dm_sent("q", Ok(message("m3"))));
    assert!(!c.on_dm_sent("p", Err("fail".to_string())));
    assert_eq!(c.send_error.as_deref(), Some("fail"));
    let mut d = DmState::default();
    d.on_conversations_loaded(Err("x".to_string()));
    assert_eq!(d.conversations_error.as_deref(), Some("x"));
}

#[test]
fn importer_and_thread_forms_reset() {
    let mut i = ImporterState::default();
    i.open = true;
    i.url = "u".to_string();
    i.importing = true;
    assert_eq!(i.on_import_finished(Ok("t1".to_string())), Some("t1".to_string()));
    assert!(!i.open && i.url.is_empty() && !i.importing);
    assert_eq!(i.on_import_finished(Err("e".to_string())), None);
    assert_eq!(i.error.as_deref(), Some("e"));
    i.on_import_error("later".to_string());
    assert_eq!(i.error.as_deref(), Some("later"));
    i.on_thread_imported();
    assert!(i.error.is_none());
    let mut c = CreateThreadState::default();
    c.title = "t".to_string();
    c.submitting = true;
    assert!(c.on_thread_created(Err("no".to_string())).is_none());
    assert_eq!(c.error.as_deref(), Some("no"));
    assert_eq!(c.title, "t");
    assert_eq!(c.on_thread_created(Ok(())).as_deref(), Some("Thread created"));
    assert!(c.title.is_empty() && c.error.is_none() && !c.submitting);
}

fn known_peer(id: &str, username: Option<&str>) -> PeerView {
    PeerView {
        id: id.to_string(),
        alias: None,
        username: username.map(|u| u.to_string()),
        bio: None,
        friendcode: None,
        short_friendcode: None,
        iroh_peer_id: None,
        gpg_fingerprint: None,
        last_seen: None,
        avatar_file_id: None,
        trust_state: "trusted".to_string(),
    }
}

#[test]
fn identity_load_sets_the_local_peer_or_the_error() {
    let mut state = IdentityState::default();
    state.on_identity_loaded(Err("offline".to_string()));
    assert_eq!(state.error.as_deref(), Some("Failed to load identity: offline"));
    state.on_identity_loaded(Ok(known_peer("me", Some("alice"))));
    assert_eq!(state.local_peer.as_ref().map(|p| p.id.as_str()), Some("me"));
    assert!(state.error.is_none());
}

#[test]
fn avatar_and_profile_answers_ask_for_a_reload_on_success() {
    let mut state = IdentityState::default();
    state.uploading = true;
    state.avatar_path = Some("/tmp/a.png".to_string());
    assert!(state.on_avatar_uploaded(Ok(())));
    assert!(!state.uploading);
    assert!(state.avatar_path.is_none());

    state.uploading = true;
    assert!(!state.on_profile_updated(Err("denied".to_string())));
    assert!(!state.uploading);
    assert_eq!(state.error.as_deref(), Some("Failed to update profile: denied"));

    state.avatar_path = Some("/tmp/b.png".to_string());
    assert!(!state.on_avatar_uploaded(Err("too big".to_string())));
    assert_eq!(state.error.as_deref(), Some("Failed to upload avatar: too big"));
    assert_eq!(state.avatar_path.as_deref(), Some("/tmp/b.png"));
}

#[test]
fn added_peer_is_announced_by_name_or_as_unknown() {
    let mut state = IdentityState::default();
    state.adding_peer = true;
    state.friendcode_input = "code".to_string();
    let banner = state.on_peer_added(&Ok(known_peer("p1", Some("bob"))));
    assert_eq!(banner.as_deref(), Some("Added peer: bob"));
    assert!(state.friendcode_input.is_empty());
    assert!(!state.adding_peer);

    let banner = state.on_peer_added(&Ok(known_peer("p2", None)));
    assert_eq!(banner.as_deref(), Some("Added peer: Unknown"));

    state.friendcode_input = "bad".to_string();
    let banner = state.on_peer_added(&Err("no such peer".to_string()));
    assert!(banner.is_none());
    assert_eq!(state.error.as_deref(), Some("Failed to add peer: no such peer"));
    assert_eq!(state.friendcode_input, "bad");
}

#[test]
fn search_answers_for_the_current_query_only() {
    let mut state: SearchState<u32> = SearchState::default();
    state.query = "rust".to_string();
    state.is_loading = true;
    state.on_search_completed("go", Ok(vec![9]));
    assert!(state.is_loading);
    assert!(state.results.is_empty());

    state.on_search_completed("rust", Ok(vec![1, 2]));
    assert!(!state.is_loading);
    assert_eq!(state.results, vec![1, 2]);

    state.on_search_completed("rust", Err("index offline".to_string()));
    assert!(state.results.is_empty());
    assert_eq!(state.error.as_deref(), Some("index offline"));
}

#[test]
fn refreshes_run_on_their_own_clocks() {
    let p = plan_refresh(true, false, None, true, false, None, 30);
    assert!(p.threads && p.open_thread && p.recent_posts);
    let p = plan_refresh(true, false, Some(4), true, false, Some(29), 30);
    assert!(!p.threads && !p.open_thread && !p.recent_posts);
    let p = plan_refresh(true, false, Some(5), false, false, Some(30), 30);
    assert!(p.threads && !p.open_thread && p.recent_posts);
    let p = plan_refresh(false, false, Some(60), true, true, Some(60), 30);
    assert!(!p.threads && !p.open_thread && !p.recent_posts);
    let p = plan_refresh(true, true, Some(60), true, false, Some(0), 30);
    assert!(!p.threads && !p.recent_posts);
}
