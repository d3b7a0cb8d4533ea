//! The blocking screen's state as answers from the backend arrive: blocked peers, blocklist
//! subscriptions and address blocks, and which lists to load again afterwards.
use vstd::prelude::*;

use crate::mcp::{append_decimal, decimal};
use crate::models::{BlockedPeerView, BlocklistEntryView, BlocklistSubscriptionView, IpBlockStatsResponse, IpBlockView};
use crate::state::BlockingState;
use crate::text::{append_text, text_equals};

verus! {

/// Which lists to load again after an answer.
pub struct Reloads {
    pub ip_blocks: bool,
    pub ip_block_stats: bool,
}

/// The blocked peers other than `peer_id`, in order.
pub open spec fn peers_without(peers: Seq<BlockedPeerView>, peer_id: Seq<char>) -> Seq<BlockedPeerView>
    decreases peers.len(),
{
    if peers.len() == 0 {
        Seq::empty()
    } else {
        let rest = peers_without(peers.drop_last(), peer_id);
        if peers.last().peer_id@ == peer_id {
            rest
        } else {
            rest.push(peers.last())
        }
    }
}

/// The subscriptions other than `id`, in order.
pub open spec fn lists_without(lists: Seq<BlocklistSubscriptionView>, id: Seq<char>) -> Seq<BlocklistSubscriptionView>
    decreases lists.len(),
{
    if lists.len() == 0 {
        Seq::empty()
    } else {
        let rest = lists_without(lists.drop_last(), id);
        if lists.last().id@ == id {
            rest
        } else {
            rest.push(lists.last())
        }
    }
}

/// The address blocks other than `id`, in order.
pub open spec fn blocks_without(blocks: Seq<IpBlockView>, id: i64) -> Seq<IpBlockView>
    decreases blocks.len(),
{
    if blocks.len() == 0 {
        Seq::empty()
    } else {
        let rest = blocks_without(blocks.drop_last(), id);
        if blocks.last().id == id {
            rest
        } else {
            rest.push(blocks.last())
        }
    }
}

/// The banner after a peer's addresses were blocked.
pub open spec fn blocked_banner(peer_id: Seq<char>, count: nat) -> Seq<char> {
    "Blocked "@ + decimal(count) + " IP(s) for peer "@ + peer_id
}

/// The banner after blocking a peer's addresses failed.
pub open spec fn block_failed_banner(peer_id: Seq<char>, error: Seq<char>) -> Seq<char> {
    "Failed to block IPs for peer "@ + peer_id + ": "@ + error
}

fn dup_text(o: &Option<String>) -> (r: Option<String>)
    ensures
        r == *o,
{
    match o {
        Some(s) => Some(s.clone()),
        None => None,
    }
}

fn dup_peer(p: &BlockedPeerView) -> (r: BlockedPeerView)
    ensures
        r == *p,
{
    BlockedPeerView {
        peer_id: p.peer_id.clone(),
        peer_username: dup_text(&p.peer_username),
        peer_alias: dup_text(&p.peer_alias),
        reason: dup_text(&p.reason),
        blocked_at: p.blocked_at.clone(),
    }
}

fn dup_list(b: &BlocklistSubscriptionView) -> (r: BlocklistSubscriptionView)
    ensures
        r == *b,
{
    BlocklistSubscriptionView {
        id: b.id.clone(),
        maintainer_peer_id: b.maintainer_peer_id.clone(),
        name: b.name.clone(),
        description: dup_text(&b.description),
        auto_apply: b.auto_apply,
        last_synced_at: dup_text(&b.last_synced_at),
        entry_count: b.entry_count,
    }
}

fn dup_block(b: &IpBlockView) -> (r: IpBlockView)
    ensures
        r == *b,
{
    IpBlockView {
        id: b.id,
        ip_or_range: b.ip_or_range.clone(),
        block_type: b.block_type.clone(),
        blocked_at: b.blocked_at,
        reason: dup_text(&b.reason),
        hit_count: b.hit_count,
    }
}

impl BlockingState {
    /// The blocked peers arrived, or the error in loading them.
    pub fn on_blocked_peers_loaded(&mut self, result: Result<Vec<BlockedPeerView>, String>)
        ensures
            match result {
                Ok(peers) => *final(self) == (BlockingState {
                    blocked_peers_loading: false,
                    blocked_peers: peers,
                    blocked_peers_error: None,
                    ..*old(self)
                }),
                Err(e) => *final(self) == (BlockingState {
                    blocked_peers_loading: false,
                    blocked_peers_error: Some(e),
                    ..*old(self)
                }),
            },
    {
        self.blocked_peers_loading = false;
        match result {
            Ok(peers) => {
                self.blocked_peers = peers;
                self.blocked_peers_error = None;
            },
            Err(e) => {
                self.blocked_peers_error = Some(e);
            },
        }
    }

    /// A peer was blocked (it joins the list and the form empties), or the error in blocking it.
    pub fn on_peer_blocked(&mut self, result: Result<BlockedPeerView, String>)
        ensures
            final(self).blocking_in_progress == false,
            match result {
                Ok(b) => {
                    &&& final(self).blocked_peers@ == old(self).blocked_peers@.push(b)
                    &&& final(self).new_block_peer_id@.len() == 0
                    &&& final(self).new_block_reason@.len() == 0
                    &&& *final(self) == (BlockingState {
                        blocking_in_progress: false,
                        blocked_peers: final(self).blocked_peers,
                        new_block_peer_id: final(self).new_block_peer_id,
                        new_block_reason: final(self).new_block_reason,
                        block_error: None,
                        ..*old(self)
                    })
                },
                Err(e) => *final(self) == (BlockingState {
                    blocking_in_progress: false,
                    block_error: Some(e),
                    ..*old(self)
                }),
            },
    {
        self.blocking_in_progress = false;
        match result {
            Ok(b) => {
                self.blocked_peers.push(b);
                self.new_block_peer_id = String::new();
                self.new_block_reason = String::new();
                self.block_error = None;
            },
            Err(e) => {
                self.block_error = Some(e);
            },
        }
    }

    /// A peer was unblocked (it leaves the list), or the error in unblocking it.
    pub fn on_peer_unblocked(&mut self, peer_id: &str, result: Result<(), String>)
        ensures
            match result {
                Ok(_) => {
                    &&& final(self).blocked_peers@ == peers_without(old(self).blocked_peers@, peer_id@)
                    &&& *final(self) == (BlockingState { blocked_peers: final(self).blocked_peers, ..*old(self) })
                },
                Err(e) => *final(self) == (BlockingState { blocked_peers_error: Some(e), ..*old(self) }),
            },
    {
        match result {
            Ok(_) => {
                let mut kept: Vec<BlockedPeerView> = Vec::new();
                let mut i: usize = 0;
                while i < self.blocked_peers.len()
                    invariant
                        i <= self.blocked_peers@.len(),
                        self.blocked_peers@ == old(self).blocked_peers@,
                        *self == *old(self),
                        kept@ == peers_without(self.blocked_peers@.take(i as int), peer_id@),
                    decreases self.blocked_peers@.len() - i,
                {
                    assert(self.blocked_peers@.take(i + 1).drop_last() =~= self.blocked_peers@.take(i as int));
                    if !text_equals(self.blocked_peers[i].peer_id.as_str(), peer_id) {
                        kept.push(dup_peer(&self.blocked_peers[i]));
                    }
                    i = i + 1;
                }
                assert(self.blocked_peers@.take(self.blocked_peers@.len() as int) =~= self.blocked_peers@);
                self.blocked_peers = kept;
            },
            Err(e) => {
                self.blocked_peers_error = Some(e);
            },
        }
    }

    /// The blocklist subscriptions arrived, or the error in loading them.
    pub fn on_blocklists_loaded(&mut self, result: Result<Vec<BlocklistSubscriptionView>, String>)
        ensures
            match result {
                Ok(lists) => *final(self) == (BlockingState {
                    blocklists_loading: false,
                    blocklists: lists,
                    blocklists_error: None,
                    ..*old(self)
                }),
                Err(e) => *final(self) == (BlockingState {
                    blocklists_loading: false,
                    blocklists_error: Some(e),
                    ..*old(self)
                }),
            },
    {
        self.blocklists_loading = false;
        match result {
            Ok(lists) => {
                self.blocklists = lists;
                self.blocklists_error = None;
            },
            Err(e) => {
                self.blocklists_error = Some(e);
            },
        }
    }

    /// A subscription was made (it joins the list and the form resets), or the error.
    pub fn on_blocklist_subscribed(&mut self, result: Result<BlocklistSubscriptionView, String>)
        ensures
            final(self).subscribing_in_progress == false,
            match result {
                Ok(s) => {
                    &&& final(self).blocklists@ == old(self).blocklists@.push(s)
                    &&& final(self).new_blocklist_id@.len() == 0
                    &&& final(self).new_blocklist_maintainer@.len() == 0
                    &&& final(self).new_blocklist_name@.len() == 0
                    &&& final(self).new_blocklist_description@.len() == 0
                    &&& *final(self) == (BlockingState {
                        subscribing_in_progress: false,
                        blocklists: final(self).blocklists,
                        new_blocklist_id: final(self).new_blocklist_id,
                        new_blocklist_maintainer: final(self).new_blocklist_maintainer,
                        new_blocklist_name: final(self).new_blocklist_name,
                        new_blocklist_description: final(self).new_blocklist_description,
                        new_blocklist_auto_apply: false,
                        subscribe_error: None,
                        ..*old(self)
                    })
                },
                Err(e) => *final(self) == (BlockingState {
                    subscribing_in_progress: false,
                    subscribe_error: Some(e),
                    ..*old(self)
                }),
            },
    {
        self.subscribing_in_progress = false;
        match result {
            Ok(s) => {
                self.blocklists.push(s);
                self.new_blocklist_id = String::new();
                self.new_blocklist_maintainer = String::new();
                self.new_blocklist_name = String::new();
                self.new_blocklist_description = String::new();
                self.new_blocklist_auto_apply = false;
                self.subscribe_error = None;
            },
            Err(e) => {
                self.subscribe_error = Some(e);
            },
        }
    }

    /// A subscription ended (it leaves the list), or the error.
    pub fn on_blocklist_unsubscribed(&mut self, blocklist_id: &str, result: Result<(), String>)
        ensures
            match result {
                Ok(_) => {
                    &&& final(self).blocklists@ == lists_without(old(self).blocklists@, blocklist_id@)
                    &&& *final(self) == (BlockingState { blocklists: final(self).blocklists, ..*old(self) })
                },
                Err(e) => *final(self) == (BlockingState { blocklists_error: Some(e), ..*old(self) }),
            },
    {
        match result {
            Ok(_) => {
                let mut kept: Vec<BlocklistSubscriptionView> = Vec::new();
                let mut i: usize = 0;
                while i < self.blocklists.len()
                    invariant
                        i <= self.blocklists@.len(),
                        *self == *old(self),
                        kept@ == lists_without(self.blocklists@.take(i as int), blocklist_id@),
                    decreases self.blocklists@.len() - i,
                {
                    assert(self.blocklists@.take(i + 1).drop_last() =~= self.blocklists@.take(i as int));
                    if !text_equals(self.blocklists[i].id.as_str(), blocklist_id) {
                        kept.push(dup_list(&self.blocklists[i]));
                    }
                    i = i + 1;
                }
                assert(self.blocklists@.take(self.blocklists@.len() as int) =~= self.blocklists@);
                self.blocklists = kept;
            },
            Err(e) => {
                self.blocklists_error = Some(e);
            },
        }
    }

    /// The entries of the blocklist being viewed arrived, or the error.
    pub fn on_blocklist_entries_loaded(&mut self, result: Result<Vec<BlocklistEntryView>, String>)
        ensures
            match result {
                Ok(entries) => *final(self) == (BlockingState {
                    blocklist_entries_loading: false,
                    blocklist_entries: entries,
                    blocklist_entries_error: None,
                    ..*old(self)
                }),
                Err(e) => *final(self) == (BlockingState {
                    blocklist_entries_loading: false,
                    blocklist_entries_error: Some(e),
                    ..*old(self)
                }),
            },
    {
        self.blocklist_entries_loading = false;
        match result {
            Ok(entries) => {
                self.blocklist_entries = entries;
                self.blocklist_entries_error = None;
            },
            Err(e) => {
                self.blocklist_entries_error = Some(e);
            },
        }
    }

    /// The address blocks arrived, or the error.
    pub fn on_ip_blocks_loaded(&mut self, result: Result<Vec<IpBlockView>, String>)
        ensures
            match result {
                Ok(blocks) => *final(self) == (BlockingState {
                    ip_blocks_loading: false,
                    ip_blocks: blocks,
                    ip_blocks_error: None,
                    ..*old(self)
                }),
                Err(e) => *final(self) == (BlockingState {
                    ip_blocks_loading: false,
                    ip_blocks_error: Some(e),
                    ..*old(self)
                }),
            },
    {
        self.ip_blocks_loading = false;
        match result {
            Ok(blocks) => {
                self.ip_blocks = blocks;
                self.ip_blocks_error = None;
            },
            Err(e) => {
                self.ip_blocks_error = Some(e);
            },
        }
    }

    /// The address block counts arrived; an error leaves the counts as they were.
    pub fn on_ip_block_stats_loaded(&mut self, result: Result<IpBlockStatsResponse, String>)
        ensures
            match result {
                Ok(stats) => *final(self) == (BlockingState {
                    ip_block_stats_loading: false,
                    ip_block_stats: Some(stats),
                    ..*old(self)
                }),
                Err(_) => *final(self) == (BlockingState { ip_block_stats_loading: false, ..*old(self) }),
            },
    {
        self.ip_block_stats_loading = false;
        match result {
            Ok(stats) => {
                self.ip_block_stats = Some(stats);
            },
            Err(_) => {},
        }
    }

    /// An address block was added (the form empties; the blocks and counts load again), or the
    /// error.
    pub fn on_ip_block_added(&mut self, result: Result<(), String>) -> (r: Reloads)
        ensures
            match result {
                Ok(_) => {
                    &&& r.ip_blocks && r.ip_block_stats
                    &&& final(self).new_ip_block@.len() == 0
                    &&& final(self).new_ip_block_reason@.len() == 0
                    &&& *final(self) == (BlockingState {
                        adding_ip_block: false,
                        new_ip_block: final(self).new_ip_block,
                        new_ip_block_reason: final(self).new_ip_block_reason,
                        add_ip_block_error: None,
                        ..*old(self)
                    })
                },
                Err(e) => {
                    &&& !r.ip_blocks && !r.ip_block_stats
                    &&& *final(self) == (BlockingState {
                        adding_ip_block: false,
                        add_ip_block_error: Some(e),
                        ..*old(self)
                    })
                },
            },
    {
        self.adding_ip_block = false;
        match result {
            Ok(_) => {
                self.new_ip_block = String::new();
                self.new_ip_block_reason = String::new();
                self.add_ip_block_error = None;
                Reloads { ip_blocks: true, ip_block_stats: true }
            },
            Err(e) => {
                self.add_ip_block_error = Some(e);
                Reloads { ip_blocks: false, ip_block_stats: false }
            },
        }
    }

    /// An address block was removed (it leaves the list; the counts load again), or the error.
    pub fn on_ip_block_removed(&mut self, block_id: i64, result: Result<(), String>) -> (r: Reloads)
        ensures
            !r.ip_blocks,
            match result {
                Ok(_) => {
                    &&& r.ip_block_stats
                    &&& final(self).ip_blocks@ == blocks_without(old(self).ip_blocks@, block_id)
                    &&& *final(self) == (BlockingState { ip_blocks: final(self).ip_blocks, ..*old(self) })
                },
                Err(e) => !r.ip_block_stats && *final(self) == (BlockingState {
                    ip_blocks_error: Some(e),
                    ..*old(self)
                }),
            },
    {
        match result {
            Ok(_) => {
                let mut kept: Vec<IpBlockView> = Vec::new();
                let mut i: usize = 0;
                while i < self.ip_blocks.len()
                    invariant
                        i <= self.ip_blocks@.len(),
                        *self == *old(self),
                        kept@ == blocks_without(self.ip_blocks@.take(i as int), block_id),
                    decreases self.ip_blocks@.len() - i,
                {
                    assert(self.ip_blocks@.take(i + 1).drop_last() =~= self.ip_blocks@.take(i as int));
                    if self.ip_blocks[i].id != block_id {
                        kept.push(dup_block(&self.ip_blocks[i]));
                    }
                    i = i + 1;
                }
                assert(self.ip_blocks@.take(self.ip_blocks@.len() as int) =~= self.ip_blocks@);
                self.ip_blocks = kept;
                Reloads { ip_blocks: false, ip_block_stats: true }
            },
            Err(e) => {
                self.ip_blocks_error = Some(e);
                Reloads { ip_blocks: false, ip_block_stats: false }
            },
        }
    }

    /// Address blocks were imported (the import text empties; blocks and counts load again), or
    /// the error.
    pub fn on_ip_blocks_imported(&mut self, result: Result<(), String>) -> (r: Reloads)
        ensures
            match result {
                Ok(_) => {
                    &&& r.ip_blocks && r.ip_block_stats
                    &&& final(self).import_text@.len() == 0
                    &&& *final(self) == (BlockingState {
                        importing_ips: false,
                        import_text: final(self).import_text,
                        import_error: None,
                        ..*old(self)
                    })
                },
                Err(e) => {
                    &&& !r.ip_blocks && !r.ip_block_stats
                    &&& *final(self) == (BlockingState { importing_ips: false, import_error: Some(e), ..*old(self) })
                },
            },
    {
        self.importing_ips = false;
        match result {
            Ok(_) => {
                self.import_text = String::new();
                self.import_error = None;
                Reloads { ip_blocks: true, ip_block_stats: true }
            },
            Err(e) => {
                self.import_error = Some(e);
                Reloads { ip_blocks: false, ip_block_stats: false }
            },
        }
    }

    /// All address blocks were cleared (the counts load again), or the error.
    pub fn on_ip_blocks_cleared(&mut self, result: Result<(), String>) -> (r: Reloads)
        ensures
            !r.ip_blocks,
            match result {
                Ok(_) => {
                    &&& r.ip_block_stats
                    &&& final(self).ip_blocks@.len() == 0
                    &&& *final(self) == (BlockingState { ip_blocks: final(self).ip_blocks, ..*old(self) })
                },
                Err(e) => !r.ip_block_stats && *final(self) == (BlockingState {
                    ip_blocks_error: Some(e),
                    ..*old(self)
                }),
            },
    {
        match result {
            Ok(_) => {
                self.ip_blocks = Vec::new();
                Reloads { ip_blocks: false, ip_block_stats: true }
            },
            Err(e) => {
                self.ip_blocks_error = Some(e);
                Reloads { ip_blocks: false, ip_block_stats: false }
            },
        }
    }
}

/// After a peer's addresses were blocked: the banner, and the blocks and counts load again.
pub fn peer_ip_blocked_banner(peer_id: &str, blocked: usize) -> (r: (String, Reloads))
    ensures
        r.0@ == blocked_banner(peer_id@, blocked as nat),
        r.1.ip_blocks && r.1.ip_block_stats,
{
    let mut s = "Blocked ".to_owned();
    append_decimal(&mut s, blocked as u64);
    append_text(&mut s, " IP(s) for peer ");
    append_text(&mut s, peer_id);
    (s, Reloads { ip_blocks: true, ip_block_stats: true })
}

/// After blocking a peer's addresses failed: the banner.
pub fn peer_ip_block_failed_banner(peer_id: &str, error: &str) -> (r: String)
    ensures
        r@ == block_failed_banner(peer_id@, error@),
{
    let mut s = "Failed to block IPs for peer ".to_owned();
    append_text(&mut s, peer_id);
    append_text(&mut s, ": ");
    append_text(&mut s, error);
    s
}

} // verus!
