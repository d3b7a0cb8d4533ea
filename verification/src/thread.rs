//! The reply structure of a thread: which posts answer which, and in what order.
use vstd::prelude::*;

use crate::models::PostView;
use crate::order::{
    key_order, lemma_stable_sorted_congruent, lemma_stable_sorted_ordered, lemma_text_lt_strict_weak, ordered_by,
    stable_sort, stable_sorted, text_lt,
};
use crate::text::text_equals;

verus! {

/// The ids of the posts, in thread order.
pub open spec fn ids_of(posts: Seq<PostView>) -> Seq<Seq<char>> {
    posts.map_values(|p: PostView| p.id@)
}

/// The ids of the posts that `p` answers.
pub open spec fn parents_of(p: PostView) -> Seq<Seq<char>> {
    p.parent_post_ids@.map_values(|s: String| s@)
}

/// Whether post `p` answers the post with id `id`.
pub open spec fn answers(p: PostView, id: Seq<char>) -> bool {
    parents_of(p).contains(id)
}

/// The positions, below `n` and in thread order, of the posts that answer `id`.
pub open spec fn answer_positions(posts: Seq<PostView>, id: Seq<char>, n: int) -> Seq<int>
    decreases n,
{
    if n <= 0 {
        Seq::empty()
    } else if answers(posts[n - 1], id) {
        answer_positions(posts, id, n - 1).push(n - 1)
    } else {
        answer_positions(posts, id, n - 1)
    }
}

/// Order of posts by creation time, compared as text.
pub open spec fn created_order(posts: Seq<PostView>) -> spec_fn(int, int) -> bool {
    |a: int, b: int| text_lt(posts[a].created_at@, posts[b].created_at@)
}

/// The ids of the replies to `id`, oldest first; replies created at the same time keep their
/// thread order.
pub open spec fn reply_ids(posts: Seq<PostView>, id: Seq<char>) -> Seq<Seq<char>> {
    stable_sorted(created_order(posts), answer_positions(posts, id, posts.len() as int)).map_values(
        |i: int| posts[i].id@,
    )
}

/// The position of the first post with the given id, if any.
pub open spec fn position_of(posts: Seq<PostView>, id: Seq<char>) -> Option<int> {
    if exists|i: int| 0 <= i < posts.len() && posts[i].id@ == id {
        Some(choose|i: int| 0 <= i < posts.len() && posts[i].id@ == id && forall|j: int| 0 <= j < i ==> posts[j].id@ != id)
    } else {
        None
    }
}

/// Some post with id `id` at or before `i` is the first such post.
pub proof fn lemma_first_match_exists(posts: Seq<PostView>, id: Seq<char>, i: int)
    requires
        0 <= i < posts.len(),
        posts[i].id@ == id,
    ensures
        exists|k: int| 0 <= k < posts.len() && posts[k].id@ == id && forall|j: int| 0 <= j < k ==> posts[j].id@ != id,
    decreases i,
{
    if exists|j: int| 0 <= j < i && posts[j].id@ == id {
        let j = choose|j: int| 0 <= j < i && posts[j].id@ == id;
        lemma_first_match_exists(posts, id, j);
    } else {
        assert(forall|j: int| 0 <= j < i ==> posts[j].id@ != id);
    }
}

/// What a lookup of the first post with an id finds.
pub proof fn lemma_position_of(posts: Seq<PostView>, id: Seq<char>)
    ensures
        match position_of(posts, id) {
            Some(k) => 0 <= k < posts.len() && posts[k].id@ == id && forall|j: int| 0 <= j < k ==> posts[j].id@ != id,
            None => forall|i: int| 0 <= i < posts.len() ==> posts[i].id@ != id,
        },
{
    if exists|i: int| 0 <= i < posts.len() && posts[i].id@ == id {
        let i = choose|i: int| 0 <= i < posts.len() && posts[i].id@ == id;
        lemma_first_match_exists(posts, id, i);
    }
}

proof fn lemma_answer_positions_bounds(posts: Seq<PostView>, id: Seq<char>, n: int)
    ensures
        forall|p: int|
            0 <= p < answer_positions(posts, id, n).len() ==> 0 <= #[trigger] answer_positions(
                posts,
                id,
                n,
            )[p] < n,
    decreases n,
{
    if n > 0 {
        lemma_answer_positions_bounds(posts, id, n - 1);
        let s = answer_positions(posts, id, n - 1);
        if answers(posts[n - 1], id) {
            assert forall|p: int| 0 <= p < s.push(n - 1).len() implies 0 <= #[trigger] s.push(
                n - 1,
            )[p] < n by {
                if p < s.len() {
                    assert(s.push(n - 1)[p] == s[p]);
                }
            }
        }
    }
}

/// Whether `p` answers the post with id `id`.
pub fn post_answers(p: &PostView, id: &str) -> (r: bool)
    ensures
        r == answers(*p, id@),
{
    let mut i: usize = 0;
    while i < p.parent_post_ids.len()
        invariant
            i <= p.parent_post_ids@.len(),
            forall|k: int| 0 <= k < i ==> p.parent_post_ids@[k]@ != id@,
        decreases p.parent_post_ids@.len() - i,
    {
        if text_equals(p.parent_post_ids[i].as_str(), id) {
            assert(parents_of(*p)[i as int] == id@);
            return true;
        }
        i = i + 1;
    }
    assert(!parents_of(*p).contains(id@)) by {
        if parents_of(*p).contains(id@) {
            let k = choose|k: int| 0 <= k < parents_of(*p).len() && parents_of(*p)[k] == id@;
            assert(p.parent_post_ids@[k]@ == id@);
        }
    }
    false
}

/// The position of the first post with the given id.
pub fn post_position(posts: &[PostView], id: &str) -> (r: Option<usize>)
    ensures
        match r {
            Some(i) => position_of(posts@, id@) == Some(i as int) && i < posts@.len()
                && posts@[i as int].id@ == id@,
            None => position_of(posts@, id@) is None,
        },
{
    let mut i: usize = 0;
    while i < posts.len()
        invariant
            i <= posts@.len(),
            forall|k: int| 0 <= k < i ==> posts@[k].id@ != id@,
        decreases posts@.len() - i,
    {
        if text_equals(posts[i].id.as_str(), id) {
            let ghost w = choose|j: int|
                0 <= j < posts@.len() && posts@[j].id@ == id@ && forall|k: int|
                    0 <= k < j ==> posts@[k].id@ != id@;
            assert(0 <= i < posts@.len() && posts@[i as int].id@ == id@);
            proof {
                if w < i {
                } else if w > i {
                    assert(posts@[i as int].id@ != id@);
                }
            }
            return Some(i);
        }
        i = i + 1;
    }
    None
}

/// The ids of the replies to the post with id `id`, oldest first.
pub fn replies_of(posts: &Vec<PostView>, id: &str) -> (r: Vec<String>)
    ensures
        r@.map_values(|s: String| s@) == reply_ids(posts@, id@),
{
    let mut positions: Vec<usize> = Vec::new();
    let mut keys: Vec<String> = Vec::new();
    let mut i: usize = 0;
    while i < posts.len()
        invariant
            i <= posts@.len(),
            keys@.len() == i,
            forall|k: int| 0 <= k < i ==> #[trigger] keys@[k]@ == posts@[k].created_at@,
            positions@.map_values(|x: usize| x as int) == answer_positions(posts@, id@, i as int),
            forall|p: int| 0 <= p < positions@.len() ==> #[trigger] positions@[p] < i,
        decreases posts@.len() - i,
    {
        if post_answers(&posts[i], id) {
            positions.push(i);
            assert(positions@.map_values(|x: usize| x as int) =~= answer_positions(
                posts@,
                id@,
                i as int,
            ).push(i as int));
        }
        keys.push(posts[i].created_at.clone());
        i = i + 1;
    }
    let order = stable_sort(&keys, &positions, false);
    let ghost items = positions@.map_values(|x: usize| x as int);
    proof {
        lemma_answer_positions_bounds(posts@, id@, posts@.len() as int);
        assert forall|x: int, y: int| items.contains(x) && items.contains(y) implies key_order(
            keys@,
            false,
        )(x, y) == created_order(posts@)(x, y) by {
            let a = choose|a: int| 0 <= a < items.len() && items[a] == x;
            let b = choose|b: int| 0 <= b < items.len() && items[b] == y;
            assert(positions@[a] < posts@.len());
            assert(positions@[b] < posts@.len());
        }
        lemma_stable_sorted_congruent(key_order(keys@, false), created_order(posts@), items);
        crate::order::lemma_stable_sorted_members(created_order(posts@), items);
    }
    let mut r: Vec<String> = Vec::new();
    let mut j: usize = 0;
    while j < order.len()
        invariant
            j <= order@.len(),
            order@.map_values(|x: usize| x as int) == stable_sorted(created_order(posts@), items),
            items == answer_positions(posts@, id@, posts@.len() as int),
            forall|p: int| 0 <= p < items.len() ==> 0 <= #[trigger] items[p] < posts@.len(),
            forall|p: int|
                0 <= p < items.len() ==> items.contains(
                    #[trigger] stable_sorted(created_order(posts@), items)[p],
                ),
            stable_sorted(created_order(posts@), items).len() == items.len(),
            r@.len() == j,
            forall|k: int| 0 <= k < j ==> #[trigger] r@[k]@ == posts@[order@[k] as int].id@,
        decreases order@.len() - j,
    {
        let ghost q = stable_sorted(created_order(posts@), items)[j as int];
        assert(order@[j as int] as int == q);
        assert(items.contains(q));
        let idx = order[j];
        r.push(posts[idx].id.clone());
        j = j + 1;
    }
    assert(r@.map_values(|s: String| s@) =~= reply_ids(posts@, id@));
    r
}

/// Replies come oldest first: no reply is listed after one created later than it.
pub proof fn lemma_replies_oldest_first(posts: Seq<PostView>, id: Seq<char>)
    ensures
        ordered_by(created_order(posts), stable_sorted(created_order(posts), answer_positions(posts, id, posts.len() as int))),
{
    let before = created_order(posts);
    let items = answer_positions(posts, id, posts.len() as int);
    assert forall|x: int, y: int|
        #![trigger before(x, y), before(y, x)]
        items.contains(x) && items.contains(y) && before(x, y) implies !before(y, x) by {
        lemma_text_lt_strict_weak(posts[x].created_at@, posts[y].created_at@, posts[y].created_at@);
    }
    assert forall|x: int, y: int, z: int|
        #![trigger before(x, z), before(x, y), before(y, z)]
        items.contains(x) && items.contains(y) && items.contains(z) && before(x, z) implies before(x, y) || before(y, z) by {
        lemma_text_lt_strict_weak(posts[x].created_at@, posts[y].created_at@, posts[z].created_at@);
    }
    lemma_stable_sorted_ordered(before, items);
}
} // verus!
