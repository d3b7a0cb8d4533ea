//! The chronological view: posts ordered by creation time and grouped into time bins.
use vstd::prelude::*;

use crate::models::PostView;
use crate::order::{
    key_order, lemma_stable_sorted_members, lemma_stable_sorted_ordered, ordered_by, stable_sort, stable_sorted,
    strict_weak_on, OrderKey,
};

verus! {

/// The instant that an RFC 3339 timestamp names: seconds since the Unix epoch and the
/// nanoseconds part (at or above one second's worth during a leap second); `None` when the text
/// is not a valid timestamp.
pub uninterp spec fn rfc3339_instant(text: Seq<char>) -> Option<(int, int)>;

/// Parses an RFC 3339 timestamp with chrono's `DateTime::parse_from_rfc3339` and reads the
/// instant back with `timestamp` and `timestamp_subsec_nanos`. The contract names the result and
/// claims only that the call depends on the text alone.
#[verifier::external_body]
fn parse_rfc3339(text: &str) -> (r: Option<(i64, u32)>)
    ensures
        match r {
            Some((s, n)) => rfc3339_instant(text@) == Some((s as int, n as int)),
            None => rfc3339_instant(text@) is None,
        },
{
    match chrono::DateTime::parse_from_rfc3339(text) {
        Ok(dt) => Some((dt.timestamp(), dt.timestamp_subsec_nanos())),
        Err(_) => None,
    }
}

/// The minute of the instant `secs` (seconds since the epoch) written as
/// `YYYY-MM-DD HH:MM UTC`, or `None` when the instant is out of chrono's range.
pub uninterp spec fn utc_minute_text(secs: int) -> Option<Seq<char>>;

/// Writes the instant with chrono's `DateTime::from_timestamp` and `format("%Y-%m-%d %H:%M UTC")`.
/// The contract names the result and claims only that it depends on the seconds alone.
#[verifier::external_body]
fn utc_minute_label(secs: i64) -> (r: Option<String>)
    ensures
        match r {
            Some(t) => utc_minute_text(secs as int) == Some(t@),
            None => utc_minute_text(secs as int) is None,
        },
{
    match chrono::DateTime::from_timestamp(secs, 0) {
        Some(dt) => Some(dt.format("%Y-%m-%d %H:%M UTC").to_string()),
        None => None,
    }
}

/// How a timestamp is shown: its minute in UTC, or the text as it is when it is not a valid
/// RFC 3339 timestamp.
pub open spec fn timestamp_label(ts: Seq<char>) -> Seq<char> {
    match rfc3339_instant(ts) {
        Some((secs, _)) => match utc_minute_text(secs) {
            Some(t) => t,
            None => ts,
        },
        None => ts,
    }
}

/// The label of a timestamp: its minute in UTC, or the text itself when it does not parse.
pub fn format_timestamp(ts: &str) -> (r: String)
    ensures
        r@ == timestamp_label(ts@),
{
    match parse_rfc3339(ts) {
        Some((secs, _)) => match utc_minute_label(secs) {
            Some(t) => t,
            None => ts.to_owned(),
        },
        None => ts.to_owned(),
    }
}

impl OrderKey for (i64, u32) {
    open spec fn key_lt(&self, other: &Self) -> bool {
        self.0 < other.0 || (self.0 == other.0 && self.1 < other.1)
    }

    fn less(&self, other: &Self) -> (r: bool) {
        self.0 < other.0 || (self.0 == other.0 && self.1 < other.1)
    }
}

/// The start, in seconds since the epoch, of the time bin of the instant `secs`: the bins split
/// each UTC hour into runs of `|bin_seconds|` seconds, the last run cut short by the hour's end.
pub open spec fn bin_start(secs: int, bin_seconds: int) -> int {
    let within = secs % 3600;
    let width = if bin_seconds < 0 {
        -bin_seconds
    } else {
        bin_seconds
    };
    secs - within + (within / width) * width
}

/// A time bin and the posts (positions in the thread) created in it, oldest first.
#[derive(Debug, Clone)]
pub struct TimeBin {
    pub start: i128,
    pub posts: Vec<usize>,
}

/// Groups `order` into runs of items that share a key, in order.
pub open spec fn group_runs(key: spec_fn(int) -> int, order: Seq<int>) -> Seq<(int, Seq<int>)>
    decreases order.len(),
{
    if order.len() == 0 {
        Seq::empty()
    } else {
        let g = group_runs(key, order.drop_last());
        let x = order.last();
        if g.len() > 0 && g.last().0 == key(x) {
            g.update(g.len() - 1, (g.last().0, g.last().1.push(x)))
        } else {
            g.push((key(x), seq![x]))
        }
    }
}

/// The positions, below `n` and in thread order, of the posts whose timestamps parse.
pub open spec fn stamped_positions(posts: Seq<PostView>, n: int) -> Seq<int>
    decreases n,
{
    if n <= 0 {
        Seq::empty()
    } else if rfc3339_instant(posts[n - 1].created_at@) is Some {
        stamped_positions(posts, n - 1).push(n - 1)
    } else {
        stamped_positions(posts, n - 1)
    }
}

/// Order of posts by the instant of their timestamps.
pub open spec fn instant_order(posts: Seq<PostView>) -> spec_fn(int, int) -> bool {
    |a: int, b: int|
        {
            match (rfc3339_instant(posts[a].created_at@), rfc3339_instant(posts[b].created_at@)) {
                (Some((xs, xn)), Some((ys, yn))) => xs < ys || (xs == ys && xn < yn),
                _ => false,
            }
        }
}

/// The whole seconds of a timestamp's instant.
pub open spec fn instant_seconds(text: Seq<char>) -> int {
    match rfc3339_instant(text) {
        Some((s, _)) => s,
        None => 0,
    }
}

/// The time bin of each post.
pub open spec fn bin_of(posts: Seq<PostView>, bin_seconds: int) -> spec_fn(int) -> int {
    |i: int| bin_start(instant_seconds(posts[i].created_at@), bin_seconds)
}

/// The time bins of a thread: posts whose timestamps parse, ordered by instant (ties in thread
/// order), grouped into runs that fall in the same bin.
pub open spec fn time_bins(posts: Seq<PostView>, bin_seconds: int) -> Seq<(int, Seq<int>)> {
    group_runs(
        bin_of(posts, bin_seconds),
        stable_sorted(instant_order(posts), stamped_positions(posts, posts.len() as int)),
    )
}

pub open spec fn bins_view(bins: Seq<TimeBin>) -> Seq<(int, Seq<int>)> {
    bins.map_values(|b: TimeBin| (b.start as int, b.posts@.map_values(|x: usize| x as int)))
}

fn bin_start_of(secs: i64, bin_seconds: i64) -> (r: i128)
    requires
        bin_seconds != 0,
    ensures
        r as int == bin_start(secs as int, bin_seconds as int),
{
    let within = match secs.checked_rem_euclid(3600) {
        Some(w) => w,
        None => {
            assert(false);
            0
        },
    };
    let width: i128 = if bin_seconds < 0 {
        -(bin_seconds as i128)
    } else {
        bin_seconds as i128
    };
    let w = within as i128;
    assert(0 <= w < 3600);
    let q = w / width;
    assert(0 <= q * width <= w) by (nonlinear_arith)
        requires
            0 <= w < 3600,
            width > 0,
            q == w / width,
    ;
    let binned = q * width;
    secs as i128 - w + binned
}

/// Orders the posts of a thread by creation time and groups them into time bins of
/// `bin_seconds` seconds; posts whose timestamps do not parse are left out.
pub fn create_time_bins(posts: &Vec<PostView>, bin_seconds: i64) -> (bins: Vec<TimeBin>)
    requires
        bin_seconds != 0,
    ensures
        bins_view(bins@) == time_bins(posts@, bin_seconds as int),
{
    let n = posts.len();
    let mut stamps: Vec<(i64, u32)> = Vec::new();
    let mut kept: Vec<usize> = Vec::new();
    let mut i: usize = 0;
    while i < n
        invariant
            n == posts@.len(),
            i <= n,
            stamps@.len() == i,
            forall|k: int|
                0 <= k < i && #[trigger] rfc3339_instant(posts@[k].created_at@) is Some ==> rfc3339_instant(
                    posts@[k].created_at@,
                ) == Some((stamps@[k].0 as int, stamps@[k].1 as int)),
            kept@.map_values(|x: usize| x as int) == stamped_positions(posts@, i as int),
            forall|p: int| 0 <= p < kept@.len() ==> #[trigger] kept@[p] < i,
        decreases n - i,
    {
        match parse_rfc3339(posts[i].created_at.as_str()) {
            Some(st) => {
                stamps.push(st);
                kept.push(i);
                assert(kept@.map_values(|x: usize| x as int) =~= stamped_positions(posts@, i as int).push(i as int));
            },
            None => {
                stamps.push((0, 0));
            },
        }
        i = i + 1;
    }
    let order = stable_sort(&stamps, &kept, false);
    let ghost items = kept@.map_values(|x: usize| x as int);
    let ghost so = stable_sorted(instant_order(posts@), items);
    proof {
        assert(forall|p: int| 0 <= p < items.len() ==> #[trigger] items[p] == kept@[p] as int);
        assert forall|p: int| 0 <= p < items.len() implies rfc3339_instant(posts@[#[trigger] items[p]].created_at@) is Some by {
            lemma_stamped(posts@, n as int, p);
        }
        assert forall|x: int, y: int| items.contains(x) && items.contains(y) implies key_order(stamps@, false)(x, y)
            == instant_order(posts@)(x, y) by {
            let a = choose|a: int| 0 <= a < items.len() && items[a] == x;
            let b = choose|b: int| 0 <= b < items.len() && items[b] == y;
            assert(rfc3339_instant(posts@[x].created_at@) is Some);
            assert(rfc3339_instant(posts@[y].created_at@) is Some);
        }
        crate::order::lemma_stable_sorted_congruent(key_order(stamps@, false), instant_order(posts@), items);
        lemma_stable_sorted_members(instant_order(posts@), items);
    }
    let mut bins: Vec<TimeBin> = Vec::new();
    let mut cur_start: i128 = 0;
    let mut cur_posts: Vec<usize> = Vec::new();
    let mut has_cur = false;
    let mut k: usize = 0;
    while k < order.len()
        invariant
            n == posts@.len(),
            bin_seconds != 0,
            stamps@.len() == n,
            order@.map_values(|x: usize| x as int) == so,
            so == stable_sorted(instant_order(posts@), items),
            so.len() == items.len(),
            forall|p: int| 0 <= p < items.len() ==> items.contains(#[trigger] so[p]),
            forall|p: int| 0 <= p < items.len() ==> 0 <= #[trigger] items[p] < n && rfc3339_instant(posts@[items[p]].created_at@) is Some,
            forall|m: int|
                0 <= m < n && #[trigger] rfc3339_instant(posts@[m].created_at@) is Some ==> rfc3339_instant(
                    posts@[m].created_at@,
                ) == Some((stamps@[m].0 as int, stamps@[m].1 as int)),
            k <= order@.len(),
            has_cur == (k > 0),
            has_cur ==> bins_view(bins@).push((cur_start as int, cur_posts@.map_values(|x: usize| x as int)))
                == group_runs(bin_of(posts@, bin_seconds as int), so.subrange(0, k as int)),
            !has_cur ==> bins@.len() == 0,
        decreases order@.len() - k,
    {
        let x = order[k];
        let ghost sx = so[k as int];
        assert(sx == x as int);
        assert(items.contains(sx));
        proof {
            let w = choose|w: int| 0 <= w < items.len() && items[w] == sx;
            assert(0 <= items[w] < n);
        }
        let key = bin_start_of(stamps[x].0, bin_seconds);
        assert(key as int == bin_of(posts@, bin_seconds as int)(x as int));
        let ghost before = group_runs(bin_of(posts@, bin_seconds as int), so.subrange(0, k as int));
        proof {
            assert(so.subrange(0, k + 1).drop_last() =~= so.subrange(0, k as int));
            assert(so.subrange(0, k + 1).last() == x as int);
        }
        if has_cur && cur_start == key {
            let ghost old_cp = cur_posts@.map_values(|y: usize| y as int);
            cur_posts.push(x);
            proof {
                assert(cur_posts@.map_values(|y: usize| y as int) =~= old_cp.push(x as int));
                assert(before.last() == (cur_start as int, old_cp));
                assert(bins_view(bins@).push((cur_start as int, cur_posts@.map_values(|y: usize| y as int))) =~= before.update(
                    before.len() - 1,
                    (before.last().0, before.last().1.push(x as int)),
                ));
            }
        } else {
            if has_cur {
                let done = TimeBin { start: cur_start, posts: cur_posts };
                bins.push(done);
            }
            cur_start = key;
            cur_posts = Vec::new();
            cur_posts.push(x);
            proof {
                if k == 0 {
                    assert(so.subrange(0, 0) =~= Seq::<int>::empty());
                }
                assert(cur_posts@.map_values(|y: usize| y as int) =~= seq![x as int]);
                assert(bins_view(bins@).push((cur_start as int, cur_posts@.map_values(|y: usize| y as int))) =~= before.push(
                    (key as int, seq![x as int]),
                ));
            }
            has_cur = true;
        }
        k = k + 1;
    }
    if has_cur {
        bins.push(TimeBin { start: cur_start, posts: cur_posts });
    }
    proof {
        assert(so.subrange(0, k as int) =~= so);
        if !has_cur {
            assert(so.len() == 0);
            assert(bins_view(bins@) =~= Seq::<(int, Seq<int>)>::empty());
        }
    }
    bins
}

proof fn lemma_stamped(posts: Seq<PostView>, n: int, p: int)
    requires
        0 <= p < stamped_positions(posts, n).len(),
    ensures
        0 <= stamped_positions(posts, n)[p] < n,
        rfc3339_instant(posts[stamped_positions(posts, n)[p]].created_at@) is Some,
    decreases n,
{
    if n > 0 {
        let s = stamped_positions(posts, n - 1);
        if rfc3339_instant(posts[n - 1].created_at@) is Some {
            if p < s.len() {
                lemma_stamped(posts, n - 1, p);
                assert(s.push(n - 1)[p] == s[p]);
            }
        } else {
            lemma_stamped(posts, n - 1, p);
        }
    }
}

proof fn lemma_bin_start_mono(s1: int, s2: int, b: int)
    requires
        s1 <= s2,
        b != 0,
    ensures
        bin_start(s1, b) <= bin_start(s2, b),
{
    let w = if b < 0 {
        -b
    } else {
        b
    };
    let h1 = s1 / 3600;
    let h2 = s2 / 3600;
    let r1 = s1 % 3600;
    let r2 = s2 % 3600;
    assert(s1 == h1 * 3600 + r1 && 0 <= r1 < 3600) by (nonlinear_arith)
        requires h1 == s1 / 3600, r1 == s1 % 3600;
    assert(s2 == h2 * 3600 + r2 && 0 <= r2 < 3600) by (nonlinear_arith)
        requires h2 == s2 / 3600, r2 == s2 % 3600;
    let q1 = r1 / w;
    let q2 = r2 / w;
    assert(0 <= q1 * w <= r1) by (nonlinear_arith)
        requires 0 <= r1, w > 0, q1 == r1 / w;
    assert(0 <= q2 * w <= r2) by (nonlinear_arith)
        requires 0 <= r2, w > 0, q2 == r2 / w;
    if h1 == h2 {
        assert(r1 <= r2);
        assert(q1 <= q2) by (nonlinear_arith)
            requires r1 <= r2, w > 0, q1 == r1 / w, q2 == r2 / w;
        assert(q1 * w <= q2 * w) by (nonlinear_arith)
            requires q1 <= q2, w > 0;
    } else {
        assert(h1 < h2) by (nonlinear_arith)
            requires s1 <= s2, s1 == h1 * 3600 + r1, s2 == h2 * 3600 + r2, 0 <= r1 < 3600, 0 <= r2 < 3600, h1 != h2;
        assert(h1 * 3600 + 3600 <= h2 * 3600) by (nonlinear_arith)
            requires h1 < h2;
    }
}

proof fn lemma_group_runs_shape(key: spec_fn(int) -> int, order: Seq<int>)
    ensures
        (group_runs(key, order).len() == 0) == (order.len() == 0),
        order.len() > 0 ==> group_runs(key, order).last().0 == key(order.last()),
        forall|j: int|
            0 <= j < group_runs(key, order).len() ==> exists|p: int|
                0 <= p < order.len() && #[trigger] group_runs(key, order)[j].0 == key(order[p]),
    decreases order.len(),
{
    if order.len() > 0 {
        let init = order.drop_last();
        lemma_group_runs_shape(key, init);
        let g = group_runs(key, init);
        let x = order.last();
        let h = group_runs(key, order);
        assert forall|j: int| 0 <= j < h.len() implies exists|p: int|
            0 <= p < order.len() && #[trigger] h[j].0 == key(order[p]) by {
            if j < g.len() {
                let p = choose|p: int| 0 <= p < init.len() && #[trigger] g[j].0 == key(init[p]);
                assert(order[p] == init[p]);
                assert(h[j].0 == g[j].0);
            } else {
                assert(h[j].0 == key(order[order.len() - 1]));
            }
        }
    }
}

proof fn lemma_group_runs_increasing(key: spec_fn(int) -> int, order: Seq<int>)
    requires
        forall|p: int, q: int| 0 <= p < q < order.len() ==> key(#[trigger] order[p]) <= key(#[trigger] order[q]),
    ensures
        forall|j: int, k: int|
            0 <= j < k < group_runs(key, order).len() ==> #[trigger] group_runs(key, order)[j].0
                < #[trigger] group_runs(key, order)[k].0,
    decreases order.len(),
{
    if order.len() > 0 {
        let init = order.drop_last();
        assert forall|p: int, q: int| 0 <= p < q < init.len() implies key(#[trigger] init[p]) <= key(#[trigger] init[q]) by {
            assert(init[p] == order[p] && init[q] == order[q]);
        }
        lemma_group_runs_increasing(key, init);
        lemma_group_runs_shape(key, init);
        let g = group_runs(key, init);
        let x = order.last();
        let h = group_runs(key, order);
        if !(g.len() > 0 && g.last().0 == key(x)) {
            assert forall|j: int| 0 <= j < g.len() implies #[trigger] g[j].0 < key(x) by {
                let p = choose|p: int| 0 <= p < init.len() && #[trigger] g[j].0 == key(init[p]);
                assert(init[p] == order[p]);
                assert(key(order[p]) <= key(order[order.len() - 1]));
                if j < g.len() - 1 {
                    assert(g[j].0 < g[g.len() - 1].0);
                }
                assert(g[g.len() - 1].0 == key(init.last()));
                assert(init.last() == order[order.len() - 2]);
            }
            assert forall|j: int, k: int| 0 <= j < k < h.len() implies #[trigger] h[j].0 < #[trigger] h[k].0 by {
                if k < g.len() {
                    assert(h[j] == g[j] && h[k] == g[k]);
                } else {
                    assert(h[j] == g[j]);
                }
            }
        } else {
            assert forall|j: int, k: int| 0 <= j < k < h.len() implies #[trigger] h[j].0 < #[trigger] h[k].0 by {
                assert(h[j].0 == g[j].0 && h[k].0 == g[k].0);
            }
        }
    }
}

/// The time bins come in time order: each starts later than the one before.
pub proof fn lemma_time_bins_in_order(posts: Seq<PostView>, bin_seconds: int)
    requires
        bin_seconds != 0,
    ensures
        forall|j: int, k: int|
            0 <= j < k < time_bins(posts, bin_seconds).len() ==> #[trigger] time_bins(posts, bin_seconds)[j].0
                < #[trigger] time_bins(posts, bin_seconds)[k].0,
{
    let items = stamped_positions(posts, posts.len() as int);
    let before = instant_order(posts);
    assert forall|x: int| #[trigger] items.contains(x) implies rfc3339_instant(posts[x].created_at@) is Some by {
        let p = choose|p: int| 0 <= p < items.len() && items[p] == x;
        lemma_stamped(posts, posts.len() as int, p);
    }
    assert(strict_weak_on(before, items));
    lemma_stable_sorted_ordered(before, items);
    lemma_stable_sorted_members(before, items);
    let order = stable_sorted(before, items);
    let key = bin_of(posts, bin_seconds);
    assert forall|p: int, q: int| 0 <= p < q < order.len() implies key(#[trigger] order[p]) <= key(#[trigger] order[q]) by {
        assert(items.contains(order[p]));
        assert(items.contains(order[q]));
        assert(!before(order[q], order[p]));
        lemma_bin_start_mono(
            instant_seconds(posts[order[p]].created_at@),
            instant_seconds(posts[order[q]].created_at@),
            bin_seconds,
        );
    }
    lemma_group_runs_increasing(key, order);
}

} // verus!
