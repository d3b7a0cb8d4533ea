//! Keyboard navigation through the posts of a thread.
//!
//! Tab and Shift+Tab walk the thread in order; `u`/`p` (and `o`) move a cursor over the parents
//! of the selected post and `i` marks the parent under it; `j`/`;` (and `l`) move a cursor over
//! its replies and `k` marks the reply under it; Space selects the post that the last used
//! cursor points at. The arrow keys move the selection through the layout on screen (along a
//! row or ring, or to the row above or below), Enter brings the selected post into view, and
//! Escape clears the selection.
use vstd::prelude::*;

use crate::models::PostView;
use crate::rings::RadialSlot;
use crate::thread::{ids_of, parents_of, position_of, post_position, replies_of, reply_ids};

verus! {

/// Which cursor the reader moved last.
#[derive(Debug, Clone, Copy, PartialEq, Eq, Structural, Default)]
pub enum NavigationMode {
    /// No cursor moved yet: Space goes to the first reply.
    #[default]
    Idle,
    /// The parent cursor moved last.
    Parent,
    /// The reply cursor moved last.
    Reply,
}

/// The navigation part of a thread view's state.
#[derive(Debug, Clone)]
pub struct NavState {
    pub selected_post: Option<String>,
    pub secondary_selected_post: Option<String>,
    pub parent_cursor_index: usize,
    pub reply_cursor_index: usize,
    pub last_navigation_mode: NavigationMode,
}

/// The navigation keys pressed in one frame.
#[derive(Debug, Clone, Copy)]
pub struct NavKeys {
    pub tab: bool,
    pub shift_tab: bool,
    pub space: bool,
    pub u: bool,
    pub i: bool,
    pub o: bool,
    pub p: bool,
    pub j: bool,
    pub k: bool,
    pub l: bool,
    pub semicolon: bool,
    pub left: bool,
    pub right: bool,
    pub up: bool,
    pub down: bool,
    pub enter: bool,
    pub escape: bool,
}

/// One of the four arrow keys.
#[derive(Debug, Clone, Copy, PartialEq, Eq, Structural)]
pub enum ArrowKey {
    Left,
    Right,
    Up,
    Down,
}

/// How the arrow keys move the selection in the view on screen.
#[derive(Debug, Clone)]
pub enum ArrowLayout {
    /// The arrow keys move nothing (the list and graph views).
    Unmoved,
    /// Rows of post positions, top to bottom, each from left to right: the layers of the
    /// hierarchical view or the time bins of the chronological view. Left and Right move along
    /// the row, cycling; Up and Down move to the row above or below, to the same place in it or
    /// to its last post when it is shorter.
    Rows(Vec<Vec<usize>>),
    /// The radial view, with the slot of each post: Left and Right move to the neighbouring
    /// slot of the same ring, cycling.
    Rings(Vec<RadialSlot>),
}

/// An arrow layout as values.
pub enum LayoutModel {
    Unmoved,
    Rows(Seq<Seq<usize>>),
    Rings(Seq<RadialSlot>),
}

impl View for ArrowLayout {
    type V = LayoutModel;

    open spec fn view(&self) -> LayoutModel {
        match self {
            ArrowLayout::Unmoved => LayoutModel::Unmoved,
            ArrowLayout::Rows(rows) => LayoutModel::Rows(rows@.map_values(|v: Vec<usize>| v@)),
            ArrowLayout::Rings(slots) => LayoutModel::Rings(slots@),
        }
    }
}

/// What one frame of key handling did.
#[derive(Debug, Clone)]
pub struct NavOutcome {
    pub state: NavState,
    /// Posts to bring into view at once, in order (from `i` and `k`).
    pub centers: Vec<String>,
    /// The post to bring into view once all keys are handled.
    pub center_on: Option<String>,
    /// Whether some key changed the state or the view.
    pub handled: bool,
    /// Whether the first post was selected because nothing was selected yet.
    pub auto_selected: bool,
}

pub open spec fn opt_view(o: Option<String>) -> Option<Seq<char>> {
    match o {
        Some(s) => Some(s@),
        None => None,
    }
}

/// The navigation state as values.
pub struct NavModel {
    pub selected: Option<Seq<char>>,
    pub secondary: Option<Seq<char>>,
    pub parent_cursor: int,
    pub reply_cursor: int,
    pub mode: NavigationMode,
}

/// The state of a frame in progress as values.
pub struct FrameModel {
    pub nav: NavModel,
    pub centers: Seq<Seq<char>>,
    pub center_on: Option<Seq<char>>,
    pub handled: bool,
}

impl View for NavState {
    type V = NavModel;

    open spec fn view(&self) -> NavModel {
        NavModel {
            selected: opt_view(self.selected_post),
            secondary: opt_view(self.secondary_selected_post),
            parent_cursor: self.parent_cursor_index as int,
            reply_cursor: self.reply_cursor_index as int,
            mode: self.last_navigation_mode,
        }
    }
}

pub open spec fn any_key(keys: NavKeys) -> bool {
    keys.tab || keys.shift_tab || keys.space || keys.u || keys.i || keys.o || keys.p || keys.j
        || keys.k || keys.l || keys.semicolon || keys.left || keys.right || keys.up || keys.down
}

pub open spec fn seq_get(s: Seq<Seq<char>>, i: int) -> Option<Seq<char>> {
    if 0 <= i < s.len() {
        Some(s[i])
    } else {
        None
    }
}

/// Selects `id` as the main post: clears the marked post and both cursors and brings it into view.
pub open spec fn select_post(f: FrameModel, id: Seq<char>) -> FrameModel {
    FrameModel {
        nav: NavModel {
            selected: Some(id),
            secondary: None,
            parent_cursor: 0,
            reply_cursor: 0,
            mode: f.nav.mode,
        },
        centers: f.centers,
        center_on: Some(id),
        handled: true,
    }
}

/// One step to the left on a cycle of `len` places.
pub open spec fn cycle_back(c: int, len: int) -> int {
    if c == 0 {
        len - 1
    } else {
        c - 1
    }
}

pub open spec fn with_parent_cursor(f: FrameModel, c: int) -> FrameModel {
    FrameModel {
        nav: NavModel { parent_cursor: c, mode: NavigationMode::Parent, ..f.nav },
        handled: true,
        ..f
    }
}

pub open spec fn with_reply_cursor(f: FrameModel, c: int) -> FrameModel {
    FrameModel {
        nav: NavModel { reply_cursor: c, mode: NavigationMode::Reply, ..f.nav },
        handled: true,
        ..f
    }
}

pub open spec fn mark_post(f: FrameModel, id: Seq<char>, mode: NavigationMode) -> FrameModel {
    FrameModel {
        nav: NavModel { secondary: Some(id), mode, ..f.nav },
        centers: f.centers.push(id),
        handled: true,
        ..f
    }
}

/// Tab: the next post of the thread, after the last the first.
#[verifier::opaque]
pub open spec fn on_tab(posts: Seq<PostView>, idx: int, keys: NavKeys, f: FrameModel) -> FrameModel {
    if keys.tab {
        select_post(f, ids_of(posts)[(idx + 1) % (posts.len() as int)])
    } else {
        f
    }
}

/// Shift+Tab: the previous post of the thread, before the first the last.
#[verifier::opaque]
pub open spec fn on_shift_tab(posts: Seq<PostView>, idx: int, keys: NavKeys, f: FrameModel) -> FrameModel {
    if keys.shift_tab {
        select_post(f, ids_of(posts)[cycle_back(idx, posts.len() as int)])
    } else {
        f
    }
}

/// Space: in the radial view, bring the selected post back into view; elsewhere select the post
/// under the cursor that moved last (the first reply when none moved).
#[verifier::opaque]
pub open spec fn on_space(
    cur: Seq<char>,
    parents: Seq<Seq<char>>,
    replies: Seq<Seq<char>>,
    keys: NavKeys,
    radial: bool,
    f: FrameModel,
) -> FrameModel {
    if keys.space {
        if radial {
            FrameModel { center_on: Some(cur), handled: true, ..f }
        } else {
            let target = match f.nav.mode {
                NavigationMode::Parent => seq_get(parents, f.nav.parent_cursor),
                NavigationMode::Reply => seq_get(replies, f.nav.reply_cursor),
                NavigationMode::Idle => seq_get(replies, 0),
            };
            match target {
                Some(t) => {
                    let g = select_post(f, t);
                    FrameModel { nav: NavModel { mode: NavigationMode::Idle, ..g.nav }, ..g }
                },
                None => f,
            }
        }
    } else {
        f
    }
}

/// Moves the parent cursor one place back (`back`) or forward, cycling; nothing without parents.
#[verifier::opaque]
pub open spec fn move_parent_cursor(pressed: bool, back: bool, np: int, f: FrameModel) -> FrameModel {
    if pressed && np > 0 {
        with_parent_cursor(
            f,
            if back {
                cycle_back(f.nav.parent_cursor, np)
            } else {
                (f.nav.parent_cursor + 1) % np
            },
        )
    } else {
        f
    }
}

/// Moves the reply cursor one place back (`back`) or forward, cycling; nothing without replies.
#[verifier::opaque]
pub open spec fn move_reply_cursor(pressed: bool, back: bool, nr: int, f: FrameModel) -> FrameModel {
    if pressed && nr > 0 {
        with_reply_cursor(
            f,
            if back {
                cycle_back(f.nav.reply_cursor, nr)
            } else {
                (f.nav.reply_cursor + 1) % nr
            },
        )
    } else {
        f
    }
}

/// `i`: marks the parent under the parent cursor and brings it into view.
#[verifier::opaque]
pub open spec fn mark_parent(pressed: bool, parents: Seq<Seq<char>>, f: FrameModel) -> FrameModel {
    if pressed {
        match seq_get(parents, f.nav.parent_cursor) {
            Some(t) => mark_post(f, t, NavigationMode::Parent),
            None => f,
        }
    } else {
        f
    }
}

/// `k`: marks the reply under the reply cursor and brings it into view.
#[verifier::opaque]
pub open spec fn mark_reply(pressed: bool, replies: Seq<Seq<char>>, f: FrameModel) -> FrameModel {
    if pressed {
        match seq_get(replies, f.nav.reply_cursor) {
            Some(t) => mark_post(f, t, NavigationMode::Reply),
            None => f,
        }
    } else {
        f
    }
}

/// The first place, at or after `c`, of `x` in `row`.
pub open spec fn first_at(row: Seq<usize>, x: int, c: int) -> Option<int>
    decreases row.len() - c,
{
    if 0 <= c < row.len() {
        if row[c] == x {
            Some(c)
        } else {
            first_at(row, x, c + 1)
        }
    } else {
        None
    }
}

/// The first row, at or after `r`, that holds `x`, with the first place of `x` in it.
pub open spec fn locate(rows: Seq<Seq<usize>>, x: int, r: int) -> Option<(int, int)>
    decreases rows.len() - r,
{
    if 0 <= r < rows.len() {
        match first_at(rows[r], x, 0) {
            Some(c) => Some((r, c)),
            None => locate(rows, x, r + 1),
        }
    } else {
        None
    }
}

/// The post in row `r` at place `c`, or at its last place when the row is shorter; nothing when
/// there is no such row or it is empty.
pub open spec fn row_entry(rows: Seq<Seq<usize>>, r: int, c: int) -> Option<int> {
    if 0 <= r < rows.len() && rows[r].len() > 0 {
        Some(rows[r][if c < rows[r].len() { c } else { rows[r].len() - 1 }] as int)
    } else {
        None
    }
}

/// Where an arrow key leads from the post at position `x` in rows.
pub open spec fn row_target(rows: Seq<Seq<usize>>, x: int, key: ArrowKey) -> Option<int> {
    match locate(rows, x, 0) {
        None => None,
        Some((r, c)) => {
            let len = rows[r].len() as int;
            match key {
                ArrowKey::Left => Some(rows[r][cycle_back(c, len)] as int),
                ArrowKey::Right => Some(rows[r][(c + 1) % len] as int),
                ArrowKey::Up => if r > 0 {
                    row_entry(rows, r - 1, c)
                } else {
                    None
                },
                ArrowKey::Down => row_entry(rows, r + 1, c),
            }
        },
    }
}

/// The first post, at or after position `j`, whose slot is `slot` on ring `ring`.
pub open spec fn slot_holder(slots: Seq<RadialSlot>, ring: usize, slot: int, j: int) -> Option<int>
    decreases slots.len() - j,
{
    if 0 <= j < slots.len() {
        if slots[j].ring == ring && slots[j].slot == slot {
            Some(j)
        } else {
            slot_holder(slots, ring, slot, j + 1)
        }
    } else {
        None
    }
}

/// Where Left or Right leads from the post at position `x` in the radial view: the post in the
/// slot before or after its own on the same ring, cycling. Up and Down lead nowhere here.
pub open spec fn ring_target(slots: Seq<RadialSlot>, x: int, key: ArrowKey) -> Option<int> {
    if 0 <= x < slots.len() && slots[x].ring_size > 0 {
        let s = slots[x];
        let n = s.ring_size as int;
        let m = s.slot as int % n;
        match key {
            ArrowKey::Left => slot_holder(slots, s.ring, cycle_back(m, n), 0),
            ArrowKey::Right => slot_holder(slots, s.ring, (m + 1) % n, 0),
            _ => None,
        }
    } else {
        None
    }
}

/// Where an arrow key leads from the post at position `x` in the layout.
pub open spec fn arrow_target(layout: LayoutModel, x: int, key: ArrowKey) -> Option<int> {
    match layout {
        LayoutModel::Unmoved => None,
        LayoutModel::Rows(rows) => row_target(rows, x, key),
        LayoutModel::Rings(slots) => ring_target(slots, x, key),
    }
}

/// An arrow key selects `id`: the marked post is cleared, the cursors stay, the post comes
/// into view.
pub open spec fn arrow_select(f: FrameModel, id: Seq<char>) -> FrameModel {
    FrameModel {
        nav: NavModel { selected: Some(id), secondary: None, ..f.nav },
        center_on: Some(id),
        handled: true,
        ..f
    }
}

/// An arrow key, when pressed, selects the post it leads to from the post at `idx`.
#[verifier::opaque]
pub open spec fn on_arrow(
    posts: Seq<PostView>,
    idx: int,
    pressed: bool,
    key: ArrowKey,
    layout: LayoutModel,
    f: FrameModel,
) -> FrameModel {
    if pressed {
        match arrow_target(layout, idx, key) {
            Some(t) => if 0 <= t < posts.len() {
                arrow_select(f, posts[t].id@)
            } else {
                f
            },
            None => f,
        }
    } else {
        f
    }
}

/// Enter: brings the post selected so far in the frame into view.
#[verifier::opaque]
pub open spec fn on_enter(pressed: bool, f: FrameModel) -> FrameModel {
    if pressed {
        match f.nav.selected {
            Some(id) => FrameModel { center_on: Some(id), handled: true, ..f },
            None => f,
        }
    } else {
        f
    }
}

/// The frame after the keys are handled in their fixed order (Tab, Shift+Tab, Space, u, p, i,
/// j, ;, k, o, l, Left, Right, Up, Down, Enter) for the post at `idx`, whose parents and replies are
/// `parents` and `replies`; each arrow leads from the post at `idx`.
pub open spec fn handle_keys(
    posts: Seq<PostView>,
    idx: int,
    parents: Seq<Seq<char>>,
    replies: Seq<Seq<char>>,
    keys: NavKeys,
    radial: bool,
    layout: LayoutModel,
    start: FrameModel,
) -> FrameModel {
    let np = parents.len() as int;
    let nr = replies.len() as int;
    let f3 = on_space(
        ids_of(posts)[idx],
        parents,
        replies,
        keys,
        radial,
        on_shift_tab(posts, idx, keys, on_tab(posts, idx, keys, start)),
    );
    let f6 = mark_parent(
        keys.i,
        parents,
        move_parent_cursor(keys.p, false, np, move_parent_cursor(keys.u, true, np, f3)),
    );
    let f9 = mark_reply(
        keys.k,
        replies,
        move_reply_cursor(keys.semicolon, false, nr, move_reply_cursor(keys.j, true, nr, f6)),
    );
    let f11 = move_reply_cursor(keys.l, false, nr, move_parent_cursor(keys.o, false, np, f9));
    on_enter(keys.enter, on_arrow(
        posts,
        idx,
        keys.down,
        ArrowKey::Down,
        layout,
        on_arrow(
            posts,
            idx,
            keys.up,
            ArrowKey::Up,
            layout,
            on_arrow(
                posts,
                idx,
                keys.right,
                ArrowKey::Right,
                layout,
                on_arrow(posts, idx, keys.left, ArrowKey::Left, layout, f11),
            ),
        ),
    ))
}

/// Escape: the selection, the marked post and the cursors are cleared.
pub open spec fn deselect_frame(nav: NavModel) -> FrameModel {
    FrameModel {
        nav: NavModel { selected: None, secondary: None, parent_cursor: 0, reply_cursor: 0, mode: NavigationMode::Idle },
        centers: Seq::empty(),
        center_on: None,
        handled: true,
    }
}

/// The frame in which nothing happens.
pub open spec fn idle_frame(nav: NavModel) -> FrameModel {
    FrameModel { nav, centers: Seq::empty(), center_on: None, handled: false }
}

/// What one frame of navigation does to the state: Escape clears the selection, if any, and
/// nothing else happens in that frame; otherwise nothing for an empty thread; with no post
/// selected, any navigation key selects the first post; otherwise the keys act on the selected
/// post, if it is in the thread.
pub open spec fn navigation_frame(
    posts: Seq<PostView>,
    start: NavModel,
    keys: NavKeys,
    radial: bool,
    layout: LayoutModel,
) -> (FrameModel, bool) {
    if keys.escape {
        if start.selected is Some {
            (deselect_frame(start), false)
        } else {
            (idle_frame(start), false)
        }
    } else if posts.len() == 0 {
        (idle_frame(start), false)
    } else {
        match start.selected {
            None => if any_key(keys) {
                (
                    FrameModel {
                        nav: NavModel {
                            selected: Some(posts[0].id@),
                            secondary: None,
                            parent_cursor: 0,
                            reply_cursor: 0,
                            mode: start.mode,
                        },
                        centers: Seq::empty(),
                        center_on: None,
                        handled: false,
                    },
                    true,
                )
            } else {
                (idle_frame(start), false)
            },
            Some(cur) => match position_of(posts, cur) {
                None => (idle_frame(start), false),
                Some(idx) => (
                    handle_keys(
                        posts,
                        idx,
                        parents_of(posts[idx]),
                        reply_ids(posts, cur),
                        keys,
                        radial,
                        layout,
                        idle_frame(start),
                    ),
                    false,
                ),
            },
        }
    }
}

impl View for NavOutcome {
    type V = (FrameModel, bool);

    open spec fn view(&self) -> (FrameModel, bool) {
        (
            FrameModel {
                nav: self.state@,
                centers: self.centers@.map_values(|s: String| s@),
                center_on: opt_view(self.center_on),
                handled: self.handled,
            },
            self.auto_selected,
        )
    }
}

fn select_in(out: &mut NavOutcome, id: &String)
    ensures
        final(out)@.1 == old(out)@.1,
        final(out)@.0 == select_post(old(out)@.0, id@),
        final(out).state.parent_cursor_index == 0,
        final(out).state.reply_cursor_index == 0,
{
    out.state.selected_post = Some(id.clone());
    out.state.secondary_selected_post = None;
    out.state.parent_cursor_index = 0;
    out.state.reply_cursor_index = 0;
    out.center_on = Some(id.clone());
    out.handled = true;
}

fn mark_in(out: &mut NavOutcome, id: &String, mode: NavigationMode)
    ensures
        final(out)@.1 == old(out)@.1,
        final(out)@.0 == mark_post(old(out)@.0, id@, mode),
        final(out).state.parent_cursor_index == old(out).state.parent_cursor_index,
        final(out).state.reply_cursor_index == old(out).state.reply_cursor_index,
{
    out.state.secondary_selected_post = Some(id.clone());
    out.state.last_navigation_mode = mode;
    out.centers.push(id.clone());
    out.handled = true;
    assert(final(out)@.0.centers =~= old(out)@.0.centers.push(id@));
}

fn copy_text(o: &Option<String>) -> (r: Option<String>)
    ensures
        opt_view(r) == opt_view(*o),
{
    match o {
        Some(s) => Some(s.clone()),
        None => None,
    }
}

fn copy_state(s: &NavState) -> (r: NavState)
    ensures
        r@ == s@,
        r.parent_cursor_index == s.parent_cursor_index,
        r.reply_cursor_index == s.reply_cursor_index,
{
    NavState {
        selected_post: copy_text(&s.selected_post),
        secondary_selected_post: copy_text(&s.secondary_selected_post),
        parent_cursor_index: s.parent_cursor_index,
        reply_cursor_index: s.reply_cursor_index,
        last_navigation_mode: s.last_navigation_mode,
    }
}

/// The texts as values.
pub open spec fn texts(v: Seq<String>) -> Seq<Seq<char>> {
    v.map_values(|s: String| s@)
}

fn step_tab(out: &mut NavOutcome, posts: &Vec<PostView>, idx: usize, keys: NavKeys)
    requires
        idx < posts@.len(),
        old(out).state.parent_cursor_index < usize::MAX,
        old(out).state.reply_cursor_index < usize::MAX,
    ensures
        final(out)@.1 == old(out)@.1,
        final(out)@.0 == on_shift_tab(posts@, idx as int, keys, on_tab(posts@, idx as int, keys, old(out)@.0)),
        final(out).state.parent_cursor_index < usize::MAX,
        final(out).state.reply_cursor_index < usize::MAX,
{
    reveal(on_tab);
    reveal(on_shift_tab);
    let n = posts.len();
    if keys.tab {
        select_in(out, &posts[(idx + 1) % n].id);
    }
    if keys.shift_tab {
        let prev = if idx == 0 {
            n - 1
        } else {
            idx - 1
        };
        select_in(out, &posts[prev].id);
    }
}

fn step_space(
    out: &mut NavOutcome,
    cur: &String,
    parent_ids: &Vec<String>,
    reply_list: &Vec<String>,
    keys: NavKeys,
    radial: bool,
)
    requires
        old(out).state.parent_cursor_index < usize::MAX,
        old(out).state.reply_cursor_index < usize::MAX,
    ensures
        final(out)@.1 == old(out)@.1,
        final(out)@.0 == on_space(cur@, texts(parent_ids@), texts(reply_list@), keys, radial, old(out)@.0),
        final(out).state.parent_cursor_index < usize::MAX,
        final(out).state.reply_cursor_index < usize::MAX,
{
    reveal(on_space);
    if !keys.space {
        return;
    }
    if radial {
        out.center_on = Some(cur.clone());
        out.handled = true;
        return;
    }
    let np = parent_ids.len();
    let nr = reply_list.len();
    let target: Option<&String> = match out.state.last_navigation_mode {
        NavigationMode::Parent => if out.state.parent_cursor_index < np {
            Some(&parent_ids[out.state.parent_cursor_index])
        } else {
            None
        },
        NavigationMode::Reply => if out.state.reply_cursor_index < nr {
            Some(&reply_list[out.state.reply_cursor_index])
        } else {
            None
        },
        NavigationMode::Idle => if nr > 0 {
            Some(&reply_list[0])
        } else {
            None
        },
    };
    match target {
        Some(t) => {
            let t = t.clone();
            select_in(out, &t);
            out.state.last_navigation_mode = NavigationMode::Idle;
        },
        None => {},
    }
}

fn step_parent_cursor(out: &mut NavOutcome, pressed: bool, back: bool, np: usize)
    requires
        old(out).state.parent_cursor_index < usize::MAX,
        old(out).state.reply_cursor_index < usize::MAX,
    ensures
        final(out)@.1 == old(out)@.1,
        final(out)@.0 == move_parent_cursor(pressed, back, np as int, old(out)@.0),
        final(out).state.parent_cursor_index < usize::MAX,
        final(out).state.reply_cursor_index < usize::MAX,
{
    reveal(move_parent_cursor);
    if pressed && np > 0 {
        let c = out.state.parent_cursor_index;
        out.state.parent_cursor_index = if back {
            if c == 0 {
                np - 1
            } else {
                c - 1
            }
        } else {
            (c + 1) % np
        };
        out.state.last_navigation_mode = NavigationMode::Parent;
        out.handled = true;
    }
}

fn step_reply_cursor(out: &mut NavOutcome, pressed: bool, back: bool, nr: usize)
    requires
        old(out).state.parent_cursor_index < usize::MAX,
        old(out).state.reply_cursor_index < usize::MAX,
    ensures
        final(out)@.1 == old(out)@.1,
        final(out)@.0 == move_reply_cursor(pressed, back, nr as int, old(out)@.0),
        final(out).state.parent_cursor_index < usize::MAX,
        final(out).state.reply_cursor_index < usize::MAX,
{
    reveal(move_reply_cursor);
    if pressed && nr > 0 {
        let c = out.state.reply_cursor_index;
        out.state.reply_cursor_index = if back {
            if c == 0 {
                nr - 1
            } else {
                c - 1
            }
        } else {
            (c + 1) % nr
        };
        out.state.last_navigation_mode = NavigationMode::Reply;
        out.handled = true;
    }
}

fn step_mark(out: &mut NavOutcome, pressed: bool, list: &Vec<String>, parent: bool)
    requires
        old(out).state.parent_cursor_index < usize::MAX,
        old(out).state.reply_cursor_index < usize::MAX,
    ensures
        final(out)@.1 == old(out)@.1,
        final(out)@.0 == if parent {
            mark_parent(pressed, texts(list@), old(out)@.0)
        } else {
            mark_reply(pressed, texts(list@), old(out)@.0)
        },
        final(out).state.parent_cursor_index < usize::MAX,
        final(out).state.reply_cursor_index < usize::MAX,
{
    reveal(mark_parent);
    reveal(mark_reply);
    if !pressed {
        return;
    }
    let c = if parent {
        out.state.parent_cursor_index
    } else {
        out.state.reply_cursor_index
    };
    if c < list.len() {
        let t = list[c].clone();
        mark_in(out, &t, if parent { NavigationMode::Parent } else { NavigationMode::Reply });
    }
}

proof fn lemma_first_at(row: Seq<usize>, x: int, c0: int)
    requires
        0 <= c0,
    ensures
        first_at(row, x, c0) matches Some(c) ==> c0 <= c < row.len() && row[c] == x,
    decreases row.len() - c0,
{
    if c0 < row.len() && row[c0] != x {
        lemma_first_at(row, x, c0 + 1);
    }
}

proof fn lemma_locate(rows: Seq<Seq<usize>>, x: int, r0: int)
    requires
        0 <= r0,
    ensures
        locate(rows, x, r0) matches Some((r, c)) ==> r0 <= r < rows.len() && first_at(rows[r], x, 0) == Some(c)
            && 0 <= c < rows[r].len() && rows[r][c] == x,
    decreases rows.len() - r0,
{
    if r0 < rows.len() {
        lemma_first_at(rows[r0], x, 0);
        if first_at(rows[r0], x, 0) is None {
            lemma_locate(rows, x, r0 + 1);
        }
    }
}

fn first_in_row(row: &Vec<usize>, x: usize) -> (r: Option<usize>)
    ensures
        match r {
            Some(c) => first_at(row@, x as int, 0) == Some(c as int),
            None => first_at(row@, x as int, 0) is None,
        },
{
    let mut c: usize = 0;
    while c < row.len()
        invariant
            c <= row@.len(),
            first_at(row@, x as int, 0) == first_at(row@, x as int, c as int),
        decreases row@.len() - c,
    {
        if row[c] == x {
            return Some(c);
        }
        c = c + 1;
    }
    None
}

fn locate_in(rows: &Vec<Vec<usize>>, x: usize) -> (r: Option<(usize, usize)>)
    ensures
        match r {
            Some((a, b)) => locate(rows@.map_values(|v: Vec<usize>| v@), x as int, 0) == Some((a as int, b as int)),
            None => locate(rows@.map_values(|v: Vec<usize>| v@), x as int, 0) is None,
        },
{
    let ghost rv = rows@.map_values(|v: Vec<usize>| v@);
    let mut r: usize = 0;
    while r < rows.len()
        invariant
            r <= rows@.len(),
            rv == rows@.map_values(|v: Vec<usize>| v@),
            locate(rv, x as int, 0) == locate(rv, x as int, r as int),
        decreases rows@.len() - r,
    {
        assert(rv[r as int] == rows@[r as int]@);
        match first_in_row(&rows[r], x) {
            Some(c) => {
                return Some((r, c));
            },
            None => {},
        }
        r = r + 1;
    }
    None
}

fn find_slot_holder(slots: &Vec<RadialSlot>, ring: usize, slot: usize) -> (r: Option<usize>)
    ensures
        match r {
            Some(j) => slot_holder(slots@, ring, slot as int, 0) == Some(j as int),
            None => slot_holder(slots@, ring, slot as int, 0) is None,
        },
{
    let mut j: usize = 0;
    while j < slots.len()
        invariant
            j <= slots@.len(),
            slot_holder(slots@, ring, slot as int, 0) == slot_holder(slots@, ring, slot as int, j as int),
        decreases slots@.len() - j,
    {
        if slots[j].ring == ring && slots[j].slot == slot {
            return Some(j);
        }
        j = j + 1;
    }
    None
}

/// Where an arrow key leads from the post at position `x` in the layout.
fn arrow_target_of(layout: &ArrowLayout, x: usize, key: ArrowKey) -> (r: Option<usize>)
    ensures
        match r {
            Some(t) => arrow_target(layout@, x as int, key) == Some(t as int),
            None => arrow_target(layout@, x as int, key) is None,
        },
{
    match layout {
        ArrowLayout::Unmoved => None,
        ArrowLayout::Rows(rows) => {
            let ghost rv = rows@.map_values(|v: Vec<usize>| v@);
            match locate_in(rows, x) {
                None => None,
                Some((r, c)) => {
                    proof {
                        lemma_locate(rv, x as int, 0);
                        assert(rv[r as int] == rows@[r as int]@);
                        assert(rv.len() == rows@.len());
                        assert((r as int) < rv.len());
                    }
                    let len = rows[r].len();
                    match key {
                        ArrowKey::Left => Some(rows[r][if c == 0 { len - 1 } else { c - 1 }]),
                        ArrowKey::Right => Some(rows[r][(c + 1) % len]),
                        ArrowKey::Up => {
                            if r > 0 && rows[r - 1].len() > 0 {
                                assert(rv[r - 1] == rows@[r - 1]@);
                                let m = rows[r - 1].len();
                                Some(rows[r - 1][if c < m { c } else { m - 1 }])
                            } else {
                                None
                            }
                        },
                        ArrowKey::Down => {
                            if r < rows.len() - 1 && rows[r + 1].len() > 0 {
                                assert(rv[r + 1] == rows@[r + 1]@);
                                let m = rows[r + 1].len();
                                Some(rows[r + 1][if c < m { c } else { m - 1 }])
                            } else {
                                None
                            }
                        },
                    }
                },
            }
        },
        ArrowLayout::Rings(slots) => {
            if x < slots.len() && slots[x].ring_size > 0 {
                let s = slots[x];
                let n = s.ring_size;
                let m = s.slot % n;
                match key {
                    ArrowKey::Left => find_slot_holder(slots, s.ring, if m == 0 { n - 1 } else { m - 1 }),
                    ArrowKey::Right => find_slot_holder(slots, s.ring, (m + 1) % n),
                    _ => None,
                }
            } else {
                None
            }
        },
    }
}

fn step_arrow(out: &mut NavOutcome, posts: &Vec<PostView>, idx: usize, pressed: bool, key: ArrowKey, layout: &ArrowLayout)
    requires
        old(out).state.parent_cursor_index < usize::MAX,
        old(out).state.reply_cursor_index < usize::MAX,
    ensures
        final(out)@.1 == old(out)@.1,
        final(out)@.0 == on_arrow(posts@, idx as int, pressed, key, layout@, old(out)@.0),
        final(out).state.parent_cursor_index < usize::MAX,
        final(out).state.reply_cursor_index < usize::MAX,
{
    reveal(on_arrow);
    if !pressed {
        return;
    }
    match arrow_target_of(layout, idx, key) {
        Some(t) => {
            if t < posts.len() {
                let id = posts[t].id.clone();
                out.state.selected_post = Some(id.clone());
                out.state.secondary_selected_post = None;
                out.center_on = Some(id);
                out.handled = true;
            }
        },
        None => {},
    }
}

fn step_enter(out: &mut NavOutcome, pressed: bool)
    requires
        old(out).state.parent_cursor_index < usize::MAX,
        old(out).state.reply_cursor_index < usize::MAX,
    ensures
        final(out)@.1 == old(out)@.1,
        final(out)@.0 == on_enter(pressed, old(out)@.0),
        final(out).state.parent_cursor_index < usize::MAX,
        final(out).state.reply_cursor_index < usize::MAX,
{
    reveal(on_enter);
    if pressed {
        match &out.state.selected_post {
            Some(id) => {
                let id = id.clone();
                out.center_on = Some(id);
                out.handled = true;
            },
            None => {},
        }
    }
}

#[verifier::rlimit(40)]
fn handle_selected(
    out: &mut NavOutcome,
    posts: &Vec<PostView>,
    idx: usize,
    cur: &String,
    parent_ids: &Vec<String>,
    reply_list: &Vec<String>,
    keys: NavKeys,
    radial: bool,
    layout: &ArrowLayout,
)
    requires
        idx < posts@.len(),
        posts@[idx as int].id@ == cur@,
        old(out).state.parent_cursor_index < usize::MAX,
        old(out).state.reply_cursor_index < usize::MAX,
    ensures
        final(out)@.1 == old(out)@.1,
        final(out)@.0 == handle_keys(
            posts@,
            idx as int,
            texts(parent_ids@),
            texts(reply_list@),
            keys,
            radial,
            layout@,
            old(out)@.0,
        ),
{
    let np = parent_ids.len();
    let nr = reply_list.len();
    let ghost parents = texts(parent_ids@);
    let ghost replies = texts(reply_list@);
    assert(parents.len() == np && replies.len() == nr);
    assert(ids_of(posts@)[idx as int] == cur@);
    step_tab(out, posts, idx, keys);
    step_space(out, cur, parent_ids, reply_list, keys, radial);
    let ghost f3 = out@.0;
    step_parent_cursor(out, keys.u, true, np);
    step_parent_cursor(out, keys.p, false, np);
    step_mark(out, keys.i, parent_ids, true);
    let ghost f6 = out@.0;
    assert(f6 == mark_parent(
        keys.i,
        parents,
        move_parent_cursor(keys.p, false, np as int, move_parent_cursor(keys.u, true, np as int, f3)),
    ));
    step_reply_cursor(out, keys.j, true, nr);
    step_reply_cursor(out, keys.semicolon, false, nr);
    step_mark(out, keys.k, reply_list, false);
    let ghost f9 = out@.0;
    assert(f9 == mark_reply(
        keys.k,
        replies,
        move_reply_cursor(keys.semicolon, false, nr as int, move_reply_cursor(keys.j, true, nr as int, f6)),
    ));
    step_parent_cursor(out, keys.o, false, np);
    step_reply_cursor(out, keys.l, false, nr);
    let ghost f11 = out@.0;
    assert(f11 == move_reply_cursor(keys.l, false, nr as int, move_parent_cursor(keys.o, false, np as int, f9)));
    step_arrow(out, posts, idx, keys.left, ArrowKey::Left, layout);
    step_arrow(out, posts, idx, keys.right, ArrowKey::Right, layout);
    step_arrow(out, posts, idx, keys.up, ArrowKey::Up, layout);
    step_arrow(out, posts, idx, keys.down, ArrowKey::Down, layout);
    step_enter(out, keys.enter);
}

/// Handles the navigation keys of one frame for the thread `posts`; `radial` tells whether the
/// thread is shown in the radial view, and `layout` how the arrow keys move in the view shown.
pub fn navigate(
    posts: &Vec<PostView>,
    state: &NavState,
    keys: NavKeys,
    radial: bool,
    layout: &ArrowLayout,
) -> (out: NavOutcome)
    requires
        state.parent_cursor_index < usize::MAX,
        state.reply_cursor_index < usize::MAX,
    ensures
        out@ == navigation_frame(posts@, state@, keys, radial, layout@),
{
    let mut out = NavOutcome {
        state: copy_state(state),
        centers: Vec::new(),
        center_on: None,
        handled: false,
        auto_selected: false,
    };
    assert(out@.0.centers =~= Seq::<Seq<char>>::empty());
    assert(out@.0 == idle_frame(state@));
    if keys.escape {
        if state.selected_post.is_some() {
            out.state = NavState {
                selected_post: None,
                secondary_selected_post: None,
                parent_cursor_index: 0,
                reply_cursor_index: 0,
                last_navigation_mode: NavigationMode::Idle,
            };
            out.handled = true;
        }
        return out;
    }
    if posts.len() == 0 {
        return out;
    }
    let cur = match &state.selected_post {
        None => {
            if keys.tab || keys.shift_tab || keys.space || keys.u || keys.i || keys.o || keys.p
                || keys.j || keys.k || keys.l || keys.semicolon || keys.left || keys.right || keys.up
                || keys.down {
                out.state.selected_post = Some(posts[0].id.clone());
                out.state.secondary_selected_post = None;
                out.state.parent_cursor_index = 0;
                out.state.reply_cursor_index = 0;
                out.auto_selected = true;
            }
            return out;
        },
        Some(c) => c,
    };
    let idx = match post_position(posts.as_slice(), cur.as_str()) {
        None => {
            return out;
        },
        Some(i) => i,
    };
    let parent_ids = &posts[idx].parent_post_ids;
    let reply_list = replies_of(posts, cur.as_str());
    let np = parent_ids.len();
    let nr = reply_list.len();
    assert(texts(parent_ids@) == parents_of(posts@[idx as int]));
    handle_selected(&mut out, posts, idx, cur, parent_ids, &reply_list, keys, radial, layout);
    out
}

proof fn lemma_arrows_unpressed()
    ensures
        forall|posts: Seq<PostView>, idx: int, key: ArrowKey, layout: LayoutModel, f: FrameModel|
            #[trigger] on_arrow(posts, idx, false, key, layout, f) == f,
{
    reveal(on_arrow);
}

proof fn lemma_enter_unpressed()
    ensures
        forall|f: FrameModel| #[trigger] on_enter(false, f) == f,
{
    reveal(on_enter);
}

/// The keys of a frame in which only `tab` (and Shift+Tab when `back`) is pressed.
pub open spec fn tab_keys(back: bool) -> NavKeys {
    NavKeys {
        tab: !back,
        shift_tab: back,
        space: false,
        u: false,
        i: false,
        o: false,
        p: false,
        j: false,
        k: false,
        l: false,
        semicolon: false,
        left: false,
        right: false,
        up: false,
        down: false,
        enter: false,
        escape: false,
    }
}

proof fn lemma_position_distinct(posts: Seq<PostView>, k: int)
    requires
        ids_of(posts).no_duplicates(),
        0 <= k < posts.len(),
    ensures
        position_of(posts, posts[k].id@) == Some(k),
{
    let id = posts[k].id@;
    let ids = ids_of(posts);
    crate::thread::lemma_position_of(posts, id);
    let w = position_of(posts, id)->0;
    if w < k {
        assert(ids[w] == id);
        assert(ids[k] == id);
    }
}

/// Tab and, in the next frame, Shift+Tab bring the reader back to the post it started from,
/// when no two posts of the thread share an id.
pub proof fn lemma_tab_then_shift_tab(posts: Seq<PostView>, start: NavModel, radial: bool, layout: LayoutModel)
    requires
        ids_of(posts).no_duplicates(),
        start.selected matches Some(cur) && position_of(posts, cur) is Some,
    ensures
        navigation_frame(
            posts,
            navigation_frame(posts, start, tab_keys(false), radial, layout).0.nav,
            tab_keys(true),
            radial,
            layout,
        ).0.nav.selected == start.selected,
{
    reveal(on_tab);
    reveal(on_shift_tab);
    reveal(on_space);
    reveal(move_parent_cursor);
    reveal(move_reply_cursor);
    reveal(mark_parent);
    reveal(mark_reply);
    lemma_arrows_unpressed();
    lemma_enter_unpressed();
    let cur = start.selected->0;
    let idx = position_of(posts, cur)->0;
    crate::thread::lemma_position_of(posts, cur);
    let n = posts.len() as int;
    let next = (idx + 1) % n;
    if idx + 1 < n {
        assert((idx + 1) % n == idx + 1) by (nonlinear_arith)
            requires 0 <= idx, idx + 1 < n;
    } else {
        assert((idx + 1) % n == 0) by (nonlinear_arith)
            requires idx + 1 == n, n > 0;
    }
    let mid = navigation_frame(posts, start, tab_keys(false), radial, layout).0.nav;
    assert(mid.selected == Some(posts[next].id@));
    lemma_position_distinct(posts, next);
    assert(cycle_back(next, n) == idx);
}

/// The state after `k` frames in each of which only Tab is pressed.
pub open spec fn after_tabs(posts: Seq<PostView>, start: NavModel, k: nat) -> NavModel
    decreases k,
{
    if k == 0 {
        start
    } else {
        navigation_frame(posts, after_tabs(posts, start, (k - 1) as nat), tab_keys(false), false, LayoutModel::Unmoved).0.nav
    }
}

#[verifier::rlimit(50)]
proof fn lemma_tabs_walk(posts: Seq<PostView>, start: NavModel, idx: int, k: nat)
    requires
        ids_of(posts).no_duplicates(),
        0 <= idx < posts.len(),
        start.selected == Some(posts[idx].id@),
    ensures
        after_tabs(posts, start, k).selected == Some(posts[(idx + k) % (posts.len() as int)].id@),
    decreases k,
{
    reveal(on_tab);
    reveal(on_shift_tab);
    reveal(on_space);
    reveal(move_parent_cursor);
    reveal(move_reply_cursor);
    reveal(mark_parent);
    reveal(mark_reply);
    lemma_arrows_unpressed();
    lemma_enter_unpressed();
    let n = posts.len() as int;
    if k == 0 {
        vstd::arithmetic::div_mod::lemma_small_mod(idx as nat, n as nat);
    } else {
        lemma_tabs_walk(posts, start, idx, (k - 1) as nat);
        let j = (idx + k - 1) % n;
        assert(0 <= j < n) by (nonlinear_arith)
            requires n > 0, j == (idx + k - 1) % n;
        lemma_position_distinct(posts, j);
        vstd::arithmetic::div_mod::lemma_add_mod_noop(idx + k - 1, 1, n);
        if n > 1 {
            vstd::arithmetic::div_mod::lemma_small_mod(1, n as nat);
        } else {
            assert((j + 1) % n == 0 && (idx + k) % n == 0) by (nonlinear_arith)
                requires n == 1;
        }
    }
}

/// Pressing Tab, once a frame, as many times as the thread has posts comes back to the post it
/// started from, when no two posts share an id.
pub proof fn lemma_tab_cycle(posts: Seq<PostView>, start: NavModel)
    requires
        ids_of(posts).no_duplicates(),
        start.selected matches Some(cur) && position_of(posts, cur) is Some,
    ensures
        after_tabs(posts, start, posts.len()).selected == start.selected,
{
    let cur = start.selected->0;
    crate::thread::lemma_position_of(posts, cur);
    let idx = position_of(posts, cur)->0;
    lemma_tabs_walk(posts, start, idx, posts.len());
    let n = posts.len() as int;
    vstd::arithmetic::div_mod::lemma_mod_add_multiples_vanish(idx, n);
    vstd::arithmetic::div_mod::lemma_small_mod(idx as nat, n as nat);
}

/// The keys of a frame in which only the arrow `key` is pressed.
pub open spec fn arrow_keys(key: ArrowKey) -> NavKeys {
    NavKeys {
        tab: false,
        shift_tab: false,
        space: false,
        u: false,
        i: false,
        o: false,
        p: false,
        j: false,
        k: false,
        l: false,
        semicolon: false,
        left: key == ArrowKey::Left,
        right: key == ArrowKey::Right,
        up: key == ArrowKey::Up,
        down: key == ArrowKey::Down,
        enter: false,
        escape: false,
    }
}

/// An arrow key moves the selection to the post it leads to, when no two posts share an id:
/// the selection changes to that post whenever it is another post.
pub proof fn lemma_arrow_moves(posts: Seq<PostView>, start: NavModel, x: int, key: ArrowKey, radial: bool, layout: LayoutModel)
    requires
        ids_of(posts).no_duplicates(),
        0 <= x < posts.len(),
        start.selected == Some(posts[x].id@),
        arrow_target(layout, x, key) matches Some(t) && 0 <= t < posts.len(),
    ensures
        navigation_frame(posts, start, arrow_keys(key), radial, layout).0.nav.selected == Some(
            posts[arrow_target(layout, x, key)->0].id@,
        ),
        arrow_target(layout, x, key)->0 != x ==> navigation_frame(posts, start, arrow_keys(key), radial, layout).0.nav.selected
            != start.selected,
{
    reveal(on_tab);
    reveal(on_shift_tab);
    reveal(on_space);
    reveal(move_parent_cursor);
    reveal(move_reply_cursor);
    reveal(mark_parent);
    reveal(mark_reply);
    reveal(on_arrow);
    lemma_enter_unpressed();
    lemma_position_distinct(posts, x);
    let t = arrow_target(layout, x, key)->0;
    if t != x {
        let ids = ids_of(posts);
        assert(ids[t] == posts[t].id@ && ids[x] == posts[x].id@);
    }
}

/// Left and Right along a row of two or more distinct posts lead to another post of the row.
pub proof fn lemma_row_neighbour_differs(rows: Seq<Seq<usize>>, x: int, key: ArrowKey)
    requires
        locate(rows, x, 0) matches Some((r, c)) && rows[r].len() >= 2 && rows[r].no_duplicates(),
        key == ArrowKey::Left || key == ArrowKey::Right,
    ensures
        row_target(rows, x, key) matches Some(t) && t != x,
{
    lemma_locate(rows, x, 0);
    let (r, c) = locate(rows, x, 0)->0;
    let len = rows[r].len() as int;
    let d = if key == ArrowKey::Left {
        cycle_back(c, len)
    } else {
        (c + 1) % len
    };
    if key == ArrowKey::Right {
        assert(0 <= d < len && d != c) by (nonlinear_arith)
            requires d == (c + 1) % len, 0 <= c < len, len >= 2;
    }
    assert(rows[r][d] != rows[r][c]);
}

/// In the radial view, Left and Right on a ring of two or more posts lead to another post.
pub proof fn lemma_ring_neighbour_differs(slots: Seq<RadialSlot>, x: int, key: ArrowKey)
    requires
        0 <= x < slots.len(),
        slots[x].ring_size >= 2,
        slots[x].slot < slots[x].ring_size,
        key == ArrowKey::Left || key == ArrowKey::Right,
    ensures
        ring_target(slots, x, key) matches Some(t) ==> t != x,
{
    let s = slots[x];
    let n = s.ring_size as int;
    let m = s.slot as int % n;
    assert(m == s.slot) by (nonlinear_arith)
        requires m == s.slot as int % n, 0 <= s.slot < n;
    let d = if key == ArrowKey::Left {
        cycle_back(m, n)
    } else {
        (m + 1) % n
    };
    if key == ArrowKey::Right {
        assert(d != m) by (nonlinear_arith)
            requires d == (m + 1) % n, 0 <= m < n, n >= 2;
    }
    lemma_slot_holder_finds(slots, s.ring, d, 0);
}

proof fn lemma_slot_holder_finds(slots: Seq<RadialSlot>, ring: usize, slot: int, j0: int)
    requires
        0 <= j0,
    ensures
        slot_holder(slots, ring, slot, j0) matches Some(j) ==> slots[j].slot == slot && slots[j].ring == ring,
    decreases slots.len() - j0,
{
    if j0 < slots.len() {
        lemma_slot_holder_finds(slots, ring, slot, j0 + 1);
    }
}

/// The keys of a frame in which only the cursor letters given are pressed.
pub open spec fn cursor_keys(u: bool, p: bool, o: bool, j: bool, semicolon: bool, l: bool) -> NavKeys {
    NavKeys {
        tab: false,
        shift_tab: false,
        space: false,
        u,
        i: false,
        o,
        p,
        j,
        k: false,
        l,
        semicolon,
        left: false,
        right: false,
        up: false,
        down: false,
        enter: false,
        escape: false,
    }
}

proof fn lemma_step_mod(c: int, n: int)
    requires
        0 <= c < n,
    ensures
        (c + 1) % n == if c + 1 < n { c + 1 } else { 0 },
        (c + n - 1) % n == if c == 0 { n - 1 } else { c - 1 },
        0 <= (c + 1) % n < n,
{
    if c + 1 < n {
        vstd::arithmetic::div_mod::lemma_small_mod((c + 1) as nat, n as nat);
    } else {
        vstd::arithmetic::div_mod::lemma_mod_self_0(n);
    }
    if c == 0 {
        vstd::arithmetic::div_mod::lemma_small_mod((n - 1) as nat, n as nat);
    } else {
        vstd::arithmetic::div_mod::lemma_mod_add_multiples_vanish(c - 1, n);
        vstd::arithmetic::div_mod::lemma_small_mod((c - 1) as nat, n as nat);
    }
}

/// The parent cursor of the selected post, which answers `np > 0` posts: `p` and `o` move it
/// one place forward and `u` one place back, cycling; `u` in one frame and `p` in the next
/// (or the other way round) leave it where it was. The selection does not change.
pub proof fn lemma_parent_cursor(posts: Seq<PostView>, start: NavModel, radial: bool, layout: LayoutModel)
    requires
        start.selected matches Some(cur) && position_of(posts, cur) matches Some(idx)
            && 0 <= start.parent_cursor < parents_of(posts[idx]).len(),
    ensures
        ({
            let idx = position_of(posts, start.selected->0)->0;
            let np = parents_of(posts[idx]).len() as int;
            let c = start.parent_cursor;
            let fp = navigation_frame(posts, start, cursor_keys(false, true, false, false, false, false), radial, layout).0.nav;
            let fo = navigation_frame(posts, start, cursor_keys(false, false, true, false, false, false), radial, layout).0.nav;
            let fu = navigation_frame(posts, start, cursor_keys(true, false, false, false, false, false), radial, layout).0.nav;
            &&& fp.parent_cursor == (c + 1) % np && fp.selected == start.selected
            &&& fo.parent_cursor == (c + 1) % np && fo.selected == start.selected
            &&& fu.parent_cursor == (c + np - 1) % np && fu.selected == start.selected
            &&& navigation_frame(posts, fu, cursor_keys(false, true, false, false, false, false), radial, layout).0.nav.parent_cursor == c
            &&& navigation_frame(posts, fp, cursor_keys(true, false, false, false, false, false), radial, layout).0.nav.parent_cursor == c
        }),
{
    reveal(on_tab);
    reveal(on_shift_tab);
    reveal(on_space);
    reveal(move_parent_cursor);
    reveal(move_reply_cursor);
    reveal(mark_parent);
    reveal(mark_reply);
    lemma_arrows_unpressed();
    lemma_enter_unpressed();
    let idx = position_of(posts, start.selected->0)->0;
    let np = parents_of(posts[idx]).len() as int;
    let c = start.parent_cursor;
    lemma_step_mod(c, np);
    let fp = navigation_frame(posts, start, cursor_keys(false, true, false, false, false, false), radial, layout).0.nav;
    let fu = navigation_frame(posts, start, cursor_keys(true, false, false, false, false, false), radial, layout).0.nav;
    lemma_step_mod(fp.parent_cursor, np);
    lemma_step_mod(fu.parent_cursor, np);
}

/// The reply cursor of the selected post, which has `nr > 0` replies: `;` and `l` move it one
/// place forward and `j` one place back, cycling; `j` in one frame and `;` in the next (or the
/// other way round) leave it where it was. The selection does not change.
pub proof fn lemma_reply_cursor(posts: Seq<PostView>, start: NavModel, radial: bool, layout: LayoutModel)
    requires
        start.selected matches Some(cur) && position_of(posts, cur) is Some
            && 0 <= start.reply_cursor < reply_ids(posts, cur).len(),
    ensures
        ({
            let nr = reply_ids(posts, start.selected->0).len() as int;
            let c = start.reply_cursor;
            let fs = navigation_frame(posts, start, cursor_keys(false, false, false, false, true, false), radial, layout).0.nav;
            let fl = navigation_frame(posts, start, cursor_keys(false, false, false, false, false, true), radial, layout).0.nav;
            let fj = navigation_frame(posts, start, cursor_keys(false, false, false, true, false, false), radial, layout).0.nav;
            &&& fs.reply_cursor == (c + 1) % nr && fs.selected == start.selected
            &&& fl.reply_cursor == (c + 1) % nr && fl.selected == start.selected
            &&& fj.reply_cursor == (c + nr - 1) % nr && fj.selected == start.selected
            &&& navigation_frame(posts, fj, cursor_keys(false, false, false, false, true, false), radial, layout).0.nav.reply_cursor == c
            &&& navigation_frame(posts, fs, cursor_keys(false, false, false, true, false, false), radial, layout).0.nav.reply_cursor == c
        }),
{
    reveal(on_tab);
    reveal(on_shift_tab);
    reveal(on_space);
    reveal(move_parent_cursor);
    reveal(move_reply_cursor);
    reveal(mark_parent);
    reveal(mark_reply);
    lemma_arrows_unpressed();
    lemma_enter_unpressed();
    let nr = reply_ids(posts, start.selected->0).len() as int;
    let c = start.reply_cursor;
    lemma_step_mod(c, nr);
    let fs = navigation_frame(posts, start, cursor_keys(false, false, false, false, true, false), radial, layout).0.nav;
    let fj = navigation_frame(posts, start, cursor_keys(false, false, false, true, false, false), radial, layout).0.nav;
    lemma_step_mod(fs.reply_cursor, nr);
    lemma_step_mod(fj.reply_cursor, nr);
}

/// Whether no post position appears twice in the rows.
pub open spec fn rows_distinct(rows: Seq<Seq<usize>>) -> bool {
    forall|r1: int, c1: int, r2: int, c2: int|
        0 <= r1 < rows.len() && 0 <= c1 < rows[r1].len() && 0 <= r2 < rows.len() && 0 <= c2 < rows[r2].len()
            && #[trigger] rows[r1][c1] == #[trigger] rows[r2][c2] ==> r1 == r2 && c1 == c2
}

proof fn lemma_first_at_finds(row: Seq<usize>, x: int, c0: int, c: int)
    requires
        0 <= c0 <= c < row.len(),
        row[c] == x,
    ensures
        first_at(row, x, c0) is Some,
    decreases c - c0,
{
    if row[c0] != x {
        lemma_first_at_finds(row, x, c0 + 1, c);
    }
}

proof fn lemma_locate_finds(rows: Seq<Seq<usize>>, x: int, r0: int, r: int, c: int)
    requires
        0 <= r0 <= r < rows.len(),
        0 <= c < rows[r].len(),
        rows[r][c] == x,
    ensures
        locate(rows, x, r0) is Some,
    decreases r - r0,
{
    if r0 == r {
        lemma_first_at_finds(rows[r], x, 0, c);
    } else if first_at(rows[r0], x, 0) is None {
        lemma_locate_finds(rows, x, r0 + 1, r, c);
    }
}

proof fn lemma_locate_distinct(rows: Seq<Seq<usize>>, r: int, c: int)
    requires
        rows_distinct(rows),
        0 <= r < rows.len(),
        0 <= c < rows[r].len(),
    ensures
        locate(rows, rows[r][c] as int, 0) == Some((r, c)),
{
    let x = rows[r][c] as int;
    lemma_locate_finds(rows, x, 0, r, c);
    lemma_locate(rows, x, 0);
    let (r2, c2) = locate(rows, x, 0)->0;
    assert(rows[r2][c2] == rows[r][c]);
}

/// In rows where no post appears twice, Left undoes Right and Right undoes Left: moving along a
/// row and back returns to the post one started from.
pub proof fn lemma_row_left_right(rows: Seq<Seq<usize>>, r: int, c: int)
    requires
        rows_distinct(rows),
        0 <= r < rows.len(),
        0 <= c < rows[r].len(),
    ensures
        ({
            let x = rows[r][c] as int;
            &&& row_target(rows, x, ArrowKey::Right) matches Some(t) && row_target(rows, t, ArrowKey::Left) == Some(x)
            &&& row_target(rows, x, ArrowKey::Left) matches Some(t) && row_target(rows, t, ArrowKey::Right) == Some(x)
        }),
{
    let n = rows[r].len() as int;
    lemma_locate_distinct(rows, r, c);
    lemma_step_mod(c, n);
    let cr = (c + 1) % n;
    let cl = cycle_back(c, n);
    lemma_locate_distinct(rows, r, cr);
    lemma_locate_distinct(rows, r, cl);
    lemma_step_mod(cl, n);
}

/// The keys of a frame in which only `i`, `k` or Space, as given, are pressed.
pub open spec fn mark_keys(i: bool, k: bool, space: bool) -> NavKeys {
    NavKeys {
        tab: false,
        shift_tab: false,
        space,
        u: false,
        i,
        o: false,
        p: false,
        j: false,
        k,
        l: false,
        semicolon: false,
        left: false,
        right: false,
        up: false,
        down: false,
        enter: false,
        escape: false,
    }
}

/// Outside the radial view, `i` marks the parent under the parent cursor (and `k` the reply
/// under the reply cursor) without moving the selection, and Space in the next frame selects
/// the post that was marked.
pub proof fn lemma_mark_then_select(posts: Seq<PostView>, start: NavModel, layout: LayoutModel)
    requires
        start.selected matches Some(cur) && position_of(posts, cur) matches Some(idx)
            && 0 <= start.parent_cursor < parents_of(posts[idx]).len()
            && 0 <= start.reply_cursor < reply_ids(posts, cur).len(),
    ensures
        ({
            let cur = start.selected->0;
            let idx = position_of(posts, cur)->0;
            let fi = navigation_frame(posts, start, mark_keys(true, false, false), false, layout).0;
            let fk = navigation_frame(posts, start, mark_keys(false, true, false), false, layout).0;
            &&& fi.nav.selected == start.selected
            &&& fi.nav.secondary == Some(parents_of(posts[idx])[start.parent_cursor])
            &&& navigation_frame(posts, fi.nav, mark_keys(false, false, true), false, layout).0.nav.selected == fi.nav.secondary
            &&& fk.nav.selected == start.selected
            &&& fk.nav.secondary == Some(reply_ids(posts, cur)[start.reply_cursor])
            &&& navigation_frame(posts, fk.nav, mark_keys(false, false, true), false, layout).0.nav.selected == fk.nav.secondary
        }),
{
    reveal(on_tab);
    reveal(on_shift_tab);
    reveal(on_space);
    reveal(move_parent_cursor);
    reveal(move_reply_cursor);
    reveal(mark_parent);
    reveal(mark_reply);
    lemma_arrows_unpressed();
    lemma_enter_unpressed();
}

} // verus!
