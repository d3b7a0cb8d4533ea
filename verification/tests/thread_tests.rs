use graphchan_frontend::hierarchy::{assign_ranks, order_layers, sugiyama_layers};
use graphchan_frontend::models::PostView;
use graphchan_frontend::navigation::{navigate, ArrowLayout, NavKeys, NavState, NavigationMode};
use graphchan_frontend::rings::{compute_ring_depths, radial_slots, try_compute_ring_depths, RadialSlot};
use graphchan_frontend::thread::{post_answers, post_position, replies_of};
use graphchan_frontend::timeline::{create_time_bins, format_timestamp};

fn post(id: &str, created_at: &str, parents: &[&str]) -> PostView {
    PostView {
        id: id.to_string(),
        thread_id: "t".to_string(),
        author_peer_id: None,
        author_short_friendcode: None,
        body: String::new(),
        created_at: created_at.to_string(),
        updated_at: None,
        parent_post_ids: parents.iter().map(|s| s.to_string()).collect(),
        files: vec![],
    }
}

fn keys() -> NavKeys {
    NavKeys {
        tab: false,
        shift_tab: false,
        space: false,
        u: false,
        i: false,
        o: false,
        p: false,
        j: false,
        k: false,
        l: false,
        semicolon: false,
        left: false,
        right: false,
        up: false,
        down: false,
        enter: false,
        escape: false,
    }
}

fn state(selected: Option<&str>) -> NavState {
    NavState {
        selected_post: selected.map(|s| s.to_string()),
        secondary_selected_post: None,
        parent_cursor_index: 0,
        reply_cursor_index: 0,
        last_navigation_mode: NavigationMode::Idle,
    }
}

#[test]
fn replies_come_oldest_first() {
    let posts = vec![
        post("op", "2024-01-01T00:00:00Z", &[]),
        post("late", "2024-01-03T00:00:00Z", &["op"]),
        post("early", "2024-01-02T00:00:00Z", &["op"]),
        post("other", "2024-01-01T12:00:00Z", &["late"]),
    ];
    assert_eq!(replies_of(&posts, "op"), vec!["early".to_string(), "late".to_string()]);
    assert!(post_answers(&posts[3], "late"));
    assert!(!post_answers(&posts[3], "op"));
    assert_eq!(post_position(&posts, "early"), Some(2));
    assert_eq!(post_position(&posts, "missing"), None);
}

#[test]
fn tab_and_shift_tab_cycle_through_the_thread() {
    let posts = vec![post("a", "1", &[]), post("b", "2", &["a"]), post("c", "3", &["b"])];
    let mut k = keys();
    k.tab = true;
    let out = navigate(&posts, &state(Some("c")), k, false, &ArrowLayout::Unmoved);
    assert_eq!(out.state.selected_post.as_deref(), Some("a"));
    assert_eq!(out.center_on.as_deref(), Some("a"));
    assert!(out.handled);
    let mut k = keys();
    k.shift_tab = true;
    let out = navigate(&posts, &state(Some("a")), k, false, &ArrowLayout::Unmoved);
    assert_eq!(out.state.selected_post.as_deref(), Some("c"));
}

#[test]
fn tab_then_shift_tab_returns_to_start() {
    let posts = vec![post("a", "1", &[]), post("b", "2", &["a"]), post("c", "3", &["b"])];
    let mut forward = keys();
    forward.tab = true;
    let mut back = keys();
    back.shift_tab = true;
    for start in ["a", "b", "c"] {
        let mid = navigate(&posts, &state(Some(start)), forward, false, &ArrowLayout::Unmoved);
        let end = navigate(&posts, &mid.state, back, false, &ArrowLayout::Unmoved);
        assert_eq!(end.state.selected_post.as_deref(), Some(start));
    }
}

#[test]
fn first_key_selects_the_first_post() {
    let posts = vec![post("a", "1", &[]), post("b", "2", &["a"])];
    let mut k = keys();
    k.j = true;
    let out = navigate(&posts, &state(None), k, false, &ArrowLayout::Unmoved);
    assert_eq!(out.state.selected_post.as_deref(), Some("a"));
    assert!(out.auto_selected);
    let out = navigate(&posts, &state(None), keys(), false, &ArrowLayout::Unmoved);
    assert!(out.state.selected_post.is_none());
    assert!(!out.handled);
}

#[test]
fn space_follows_the_reply_cursor() {
    let posts = vec![post("a", "1", &[]), post("b", "3", &["a"]), post("c", "2", &["a"])];
    let mut k = keys();
    k.space = true;
    let out = navigate(&posts, &state(Some("a")), k, false, &ArrowLayout::Unmoved);
    assert_eq!(out.state.selected_post.as_deref(), Some("c"));
    let mut k = keys();
    k.semicolon = true;
    let out = navigate(&posts, &state(Some("a")), k, false, &ArrowLayout::Unmoved);
    assert_eq!(out.state.reply_cursor_index, 1);
    assert_eq!(out.state.last_navigation_mode, NavigationMode::Reply);
}

#[test]
fn ring_depths_follow_the_deepest_parent() {
    let posts = vec![
        post("op", "1", &[]),
        post("a", "2", &["op"]),
        post("b", "3", &["a"]),
        post("c", "4", &["a", "b"]),
        post("d", "5", &[]),
        post("e", "6", &["nowhere"]),
    ];
    assert_eq!(compute_ring_depths(&posts, "op"), vec![0, 1, 2, 3, 1, 2]);
}

#[test]
fn ring_depths_fail_on_a_circle() {
    let posts = vec![post("op", "1", &[]), post("x", "2", &["y"]), post("y", "3", &["x"])];
    assert!(try_compute_ring_depths(&posts, "op").is_none());
}

#[test]
fn radial_slots_share_rings_oldest_first() {
    let posts = vec![post("op", "1", &[]), post("b", "3", &["op"]), post("a", "2", &["op"])];
    let slots = radial_slots(&posts).unwrap();
    assert_eq!(slots[0], RadialSlot { ring: 0, slot: 0, ring_size: 1 });
    assert_eq!(slots[1], RadialSlot { ring: 1, slot: 1, ring_size: 2 });
    assert_eq!(slots[2], RadialSlot { ring: 1, slot: 0, ring_size: 2 });
    assert!(radial_slots(&vec![]).unwrap().is_empty());
}

#[test]
fn time_bins_group_by_bin_start() {
    let posts = vec![
        post("a", "2024-01-01T10:03:00Z", &[]),
        post("b", "2024-01-01T10:01:00Z", &[]),
        post("c", "2024-01-01T10:07:30Z", &[]),
        post("d", "not a time", &[]),
    ];
    let bins = create_time_bins(&posts, 300);
    assert_eq!(bins.len(), 2);
    assert_eq!(bins[0].start, 1704103200);
    assert_eq!(bins[0].posts, vec![1, 0]);
    assert_eq!(bins[1].start, 1704103500);
    assert_eq!(bins[1].posts, vec![2]);
}

#[test]
fn timestamps_show_their_utc_minute() {
    assert_eq!(format_timestamp("2024-01-01T10:03:59+02:00"), "2024-01-01 08:03 UTC");
    assert_eq!(format_timestamp("yesterday"), "yesterday");
}

#[test]
fn ranks_count_replies_from_the_roots() {
    let posts = vec![
        post("A", "1", &[]),
        post("B", "2", &["A"]),
        post("C", "3", &["A"]),
        post("D", "4", &["B", "C"]),
        post("E", "5", &["Z"]),
    ];
    assert_eq!(assign_ranks(&posts), vec![Some(0), Some(1), Some(1), Some(2), None]);
}

#[test]
fn layers_follow_parent_places() {
    let posts = vec![
        post("A", "1", &[]),
        post("B", "2", &[]),
        post("C", "3", &["B"]),
        post("D", "4", &["A"]),
        post("E", "5", &["C", "D"]),
    ];
    assert_eq!(sugiyama_layers(&posts), vec![vec![0, 1], vec![3, 2], vec![4]]);
}

#[test]
fn oldest_post_is_the_root_when_every_post_answers() {
    let posts = vec![post("X", "2", &["Y"]), post("Y", "1", &["X"])];
    assert_eq!(assign_ranks(&posts), vec![Some(1), Some(0)]);
    assert_eq!(sugiyama_layers(&posts), vec![vec![1], vec![0]]);
    assert!(sugiyama_layers(&vec![]).is_empty());
}

#[test]
fn layers_from_given_ranks() {
    let posts = vec![post("A", "1", &[]), post("B", "2", &["A"]), post("A", "3", &["B"])];
    let ranks = vec![Some(0), Some(1), Some(0)];
    assert_eq!(order_layers(&posts, &ranks), vec![vec![0], vec![1]]);
}

#[test]
fn tabs_cycle_back_to_the_start() {
    let posts = vec![post("a", "1", &[]), post("b", "2", &["a"]), post("c", "3", &["b"]), post("d", "4", &[])];
    let mut forward = keys();
    forward.tab = true;
    let mut nav = state(Some("b"));
    let mut seen = Vec::new();
    for _ in 0..posts.len() {
        nav = navigate(&posts, &nav, forward, false, &ArrowLayout::Unmoved).state;
        seen.push(nav.selected_post.clone().unwrap());
    }
    assert_eq!(seen, vec!["c".to_string(), "d".to_string(), "a".to_string(), "b".to_string()]);
}

#[test]
fn arrows_move_along_and_between_the_layers() {
    // a is the opening post; b and c answer it; d answers b.
    let posts = vec![
        post("a", "2024-01-01T00:00:00Z", &[]),
        post("b", "2024-01-01T00:01:00Z", &["a"]),
        post("c", "2024-01-01T00:02:00Z", &["a"]),
        post("d", "2024-01-01T00:03:00Z", &["b"]),
    ];
    let layers = sugiyama_layers(&posts);
    assert_eq!(layers, vec![vec![0], vec![1, 2], vec![3]]);
    let layout = ArrowLayout::Rows(layers);
    let press = |f: fn(&mut NavKeys)| {
        let mut k = keys();
        f(&mut k);
        k
    };
    let right = press(|k| k.right = true);
    let left = press(|k| k.left = true);
    let up = press(|k| k.up = true);
    let down = press(|k| k.down = true);
    let out = navigate(&posts, &state(Some("b")), right, false, &layout);
    assert_eq!(out.state.selected_post.as_deref(), Some("c"));
    assert_eq!(out.center_on.as_deref(), Some("c"));
    assert!(out.handled);
    let out = navigate(&posts, &state(Some("b")), left, false, &layout);
    assert_eq!(out.state.selected_post.as_deref(), Some("c"));
    let out = navigate(&posts, &state(Some("c")), down, false, &layout);
    assert_eq!(out.state.selected_post.as_deref(), Some("d"));
    let out = navigate(&posts, &state(Some("d")), up, false, &layout);
    assert_eq!(out.state.selected_post.as_deref(), Some("b"));
    let out = navigate(&posts, &state(Some("a")), up, false, &layout);
    assert_eq!(out.state.selected_post.as_deref(), Some("a"));
    assert!(!out.handled);
    // In the list view the arrows move nothing.
    let out = navigate(&posts, &state(Some("b")), right, false, &ArrowLayout::Unmoved);
    assert_eq!(out.state.selected_post.as_deref(), Some("b"));
}

#[test]
fn arrows_follow_the_time_bins() {
    let posts = vec![
        post("a", "2024-01-01T00:00:10Z", &[]),
        post("b", "2024-01-01T00:00:20Z", &["a"]),
        post("c", "2024-01-01T00:05:00Z", &["a"]),
    ];
    let rows: Vec<Vec<usize>> = create_time_bins(&posts, 60).into_iter().map(|b| b.posts).collect();
    assert_eq!(rows, vec![vec![0, 1], vec![2]]);
    let layout = ArrowLayout::Rows(rows);
    let mut k = keys();
    k.down = true;
    let out = navigate(&posts, &state(Some("b")), k, false, &layout);
    assert_eq!(out.state.selected_post.as_deref(), Some("c"));
    let mut k = keys();
    k.right = true;
    let out = navigate(&posts, &state(Some("a")), k, false, &layout);
    assert_eq!(out.state.selected_post.as_deref(), Some("b"));
}

#[test]
fn arrows_walk_a_ring_of_the_radial_view() {
    let posts = vec![
        post("op", "2024-01-01T00:00:00Z", &[]),
        post("x", "2024-01-01T00:01:00Z", &["op"]),
        post("y", "2024-01-01T00:02:00Z", &["op"]),
        post("z", "2024-01-01T00:03:00Z", &["op"]),
    ];
    let slots = radial_slots(&posts).unwrap();
    let layout = ArrowLayout::Rings(slots);
    let mut right = keys();
    right.right = true;
    let mut left = keys();
    left.left = true;
    let mut up = keys();
    up.up = true;
    let out = navigate(&posts, &state(Some("x")), right, true, &layout);
    assert_eq!(out.state.selected_post.as_deref(), Some("y"));
    let out = navigate(&posts, &state(Some("z")), right, true, &layout);
    assert_eq!(out.state.selected_post.as_deref(), Some("x"));
    let out = navigate(&posts, &state(Some("x")), left, true, &layout);
    assert_eq!(out.state.selected_post.as_deref(), Some("z"));
    let out = navigate(&posts, &state(Some("op")), right, true, &layout);
    assert_eq!(out.state.selected_post.as_deref(), Some("op"));
    let out = navigate(&posts, &state(Some("x")), up, true, &layout);
    assert_eq!(out.state.selected_post.as_deref(), Some("x"));
}

#[test]
fn escape_clears_the_selection() {
    let posts = vec![post("a", "1", &[]), post("b", "2", &["a"])];
    let mut k = keys();
    k.escape = true;
    let mut s = state(Some("b"));
    s.secondary_selected_post = Some("a".to_string());
    s.reply_cursor_index = 1;
    let out = navigate(&posts, &s, k, false, &ArrowLayout::Unmoved);
    assert!(out.state.selected_post.is_none());
    assert!(out.state.secondary_selected_post.is_none());
    assert_eq!(out.state.reply_cursor_index, 0);
    assert!(out.handled);
    k.tab = true;
    let out = navigate(&posts, &state(None), k, false, &ArrowLayout::Unmoved);
    assert!(out.state.selected_post.is_none());
    assert!(!out.handled);
}

#[test]
fn enter_brings_the_selected_post_into_view() {
    let posts = vec![post("a", "1", &[]), post("b", "2", &["a"])];
    let mut k = keys();
    k.enter = true;
    let out = navigate(&posts, &state(Some("b")), k, false, &ArrowLayout::Unmoved);
    assert_eq!(out.center_on.as_deref(), Some("b"));
    assert_eq!(out.state.selected_post.as_deref(), Some("b"));
    assert!(out.handled);
    k.tab = true;
    let out = navigate(&posts, &state(Some("a")), k, false, &ArrowLayout::Unmoved);
    assert_eq!(out.center_on.as_deref(), Some("b"));
    let mut k = keys();
    k.enter = true;
    let out = navigate(&posts, &state(None), k, false, &ArrowLayout::Unmoved);
    assert!(out.state.selected_post.is_none());
    assert!(!out.handled);
}
