//! Ring depths of a thread's posts for the radial view: the opening post sits at ring 0 and
//! every other post one ring further out than the deepest post it answers.
use vstd::prelude::*;

use crate::models::PostView;
use crate::text::{chars_equal, chars_of};
use crate::order::{
    first_least, first_least_index, key_order, lemma_first_least_congruent, lemma_sorted_distinct,
    lemma_sorted_index_of, lemma_stable_sorted_congruent, lemma_stable_sorted_members, stable_sort,
    stable_sorted,
};
use crate::thread::{created_order, parents_of};

verus! {

/// The last position of a post with the given id: a lookup by id finds the latest such post.
#[verifier::opaque]
pub open spec fn last_position(posts: Seq<PostView>, id: Seq<char>) -> Option<int> {
    if exists|i: int| 0 <= i < posts.len() && posts[i].id@ == id {
        Some(
            choose|i: int|
                0 <= i < posts.len() && posts[i].id@ == id && forall|j: int|
                    i < j < posts.len() ==> posts[j].id@ != id,
        )
    } else {
        None
    }
}

/// The ring of the post with id `id`, following replies at most `fuel` levels up: the opening
/// post is at ring 0; a post that is not in the thread, or answers nothing, at ring 1; any other
/// post one ring beyond the deepest post it answers. `None` when `fuel` does not reach the top.
pub open spec fn depth_within(posts: Seq<PostView>, op: Seq<char>, id: Seq<char>, fuel: nat) -> Option<nat>
    decreases fuel, 0nat,
{
    if id == op {
        Some(0)
    } else {
        match last_position(posts, id) {
            None => Some(1),
            Some(j) => {
                let ps = parents_of(posts[j]);
                if ps.len() == 0 {
                    Some(1)
                } else if fuel == 0 {
                    None
                } else {
                    match deepest_within(posts, op, ps, (fuel - 1) as nat) {
                        Some(m) => Some(m + 1),
                        None => None,
                    }
                }
            },
        }
    }
}

/// The deepest ring among the posts `ps` (0 for none), within `fuel` levels.
pub open spec fn deepest_within(posts: Seq<PostView>, op: Seq<char>, ps: Seq<Seq<char>>, fuel: nat) -> Option<nat>
    decreases fuel, ps.len() + 1,
{
    if ps.len() == 0 {
        Some(0)
    } else {
        match (deepest_within(posts, op, ps.drop_last(), fuel), depth_within(posts, op, ps.last(), fuel)) {
            (Some(a), Some(b)) => Some(if a >= b { a } else { b }),
            _ => None,
        }
    }
}

/// What a lookup by id finds.
pub proof fn lemma_last_position(posts: Seq<PostView>, id: Seq<char>)
    ensures
        match last_position(posts, id) {
            Some(k) => 0 <= k < posts.len() && posts[k].id@ == id && forall|j: int|
                k < j < posts.len() ==> posts[j].id@ != id,
            None => forall|i: int| 0 <= i < posts.len() ==> posts[i].id@ != id,
        },
{
    reveal(last_position);
    if exists|i: int| 0 <= i < posts.len() && posts[i].id@ == id {
        let i = choose|i: int| 0 <= i < posts.len() && posts[i].id@ == id;
        let mut k = i;
        // the last matching position exists
        assert(exists|k: int|
            0 <= k < posts.len() && posts[k].id@ == id && forall|j: int|
                k < j < posts.len() ==> posts[j].id@ != id) by {
            lemma_last_match_exists(posts, id, i, posts.len() as int);
        }
    }
}

proof fn lemma_last_match_exists(posts: Seq<PostView>, id: Seq<char>, i: int, hi: int)
    requires
        0 <= i < hi <= posts.len(),
        posts[i].id@ == id,
        forall|j: int| hi <= j < posts.len() ==> posts[j].id@ != id,
    ensures
        exists|k: int|
            0 <= k < posts.len() && posts[k].id@ == id && forall|j: int|
                k < j < posts.len() ==> posts[j].id@ != id,
    decreases hi - i,
{
    if posts[hi - 1].id@ == id {
        assert(forall|j: int| hi - 1 < j < posts.len() ==> posts[j].id@ != id);
    } else {
        lemma_last_match_exists(posts, id, i, hi - 1);
    }
}

/// The ring rule, one step at a time.
pub proof fn lemma_depth_unfold(posts: Seq<PostView>, op: Seq<char>, id: Seq<char>, fuel: nat)
    ensures
        depth_within(posts, op, id, fuel) == if id == op {
            Some(0nat)
        } else {
            match last_position(posts, id) {
                None => Some(1nat),
                Some(j) => {
                    let ps = parents_of(posts[j]);
                    if ps.len() == 0 {
                        Some(1nat)
                    } else if fuel == 0 {
                        None
                    } else {
                        match deepest_within(posts, op, ps, (fuel - 1) as nat) {
                            Some(m) => Some(m + 1),
                            None => None,
                        }
                    }
                },
            }
        },
{
}

/// The deepest ring of a list, one element at a time.
pub proof fn lemma_deepest_unfold(posts: Seq<PostView>, op: Seq<char>, ps: Seq<Seq<char>>, fuel: nat)
    ensures
        deepest_within(posts, op, ps, fuel) == if ps.len() == 0 {
            Some(0nat)
        } else {
            match (deepest_within(posts, op, ps.drop_last(), fuel), depth_within(posts, op, ps.last(), fuel)) {
                (Some(a), Some(b)) => Some(if a >= b { a } else { b }),
                _ => None,
            }
        },
{
}

/// Whether following replies upward from `id` reaches the top: false exactly when a chain of
/// replies from `id` runs in a circle.
pub open spec fn depth_defined(posts: Seq<PostView>, op: Seq<char>, id: Seq<char>) -> bool {
    exists|f: nat| #[trigger] depth_within(posts, op, id, f) is Some
}

/// The ring of the post with id `id`.
pub open spec fn ring_depth(posts: Seq<PostView>, op: Seq<char>, id: Seq<char>) -> nat {
    depth_within(posts, op, id, choose|f: nat| #[trigger] depth_within(posts, op, id, f) is Some)->0
}

proof fn lemma_deepest_bounds(posts: Seq<PostView>, op: Seq<char>, ps: Seq<Seq<char>>, f: nat, t: int)
    requires
        deepest_within(posts, op, ps, f) is Some,
        0 <= t < ps.len(),
    ensures
        depth_within(posts, op, ps[t], f) is Some,
        depth_within(posts, op, ps[t], f)->0 <= deepest_within(posts, op, ps, f)->0,
    decreases ps.len(),
{
    lemma_deepest_unfold(posts, op, ps, f);
    if t < ps.len() - 1 {
        lemma_deepest_bounds(posts, op, ps.drop_last(), f, t);
        assert(ps.drop_last()[t] == ps[t]);
    }
}

/// A reply lies at least one ring further out than each post it answers: when a post other
/// than the opening post has a ring, so has each post it answers, and its ring is larger.
pub proof fn lemma_reply_outside(posts: Seq<PostView>, op: Seq<char>, id: Seq<char>, t: int)
    requires
        depth_defined(posts, op, id),
        id != op,
        last_position(posts, id) matches Some(j) && 0 <= t < parents_of(posts[j]).len(),
    ensures
        depth_defined(posts, op, parents_of(posts[last_position(posts, id)->0])[t]),
        ring_depth(posts, op, id) >= ring_depth(posts, op, parents_of(posts[last_position(posts, id)->0])[t]) + 1,
{
    let f = choose|f: nat| #[trigger] depth_within(posts, op, id, f) is Some;
    let j = last_position(posts, id)->0;
    let ps = parents_of(posts[j]);
    lemma_depth_unfold(posts, op, id, f);
    let g = (f - 1) as nat;
    lemma_deepest_bounds(posts, op, ps, g, t);
    lemma_ring_depth_is(posts, op, ps[t], g);
    lemma_ring_depth_is(posts, op, id, f);
}

/// Whether every post of the thread has a ring.
pub open spec fn all_depths_defined(posts: Seq<PostView>, op: Seq<char>) -> bool {
    forall|i: int| 0 <= i < posts.len() ==> depth_defined(posts, op, #[trigger] posts[i].id@)
}

/// More fuel never changes a ring that is already known.
pub proof fn lemma_depth_within_mono(posts: Seq<PostView>, op: Seq<char>, id: Seq<char>, f1: nat, f2: nat)
    requires
        f1 <= f2,
        depth_within(posts, op, id, f1) is Some,
    ensures
        depth_within(posts, op, id, f2) == depth_within(posts, op, id, f1),
    decreases f1, 0nat,
{
    lemma_depth_unfold(posts, op, id, f1);
    lemma_depth_unfold(posts, op, id, f2);
    if id != op {
        match last_position(posts, id) {
            None => {},
            Some(j) => {
                let ps = parents_of(posts[j]);
                if ps.len() > 0 {
                    lemma_deepest_within_mono(posts, op, ps, (f1 - 1) as nat, (f2 - 1) as nat);
                }
            },
        }
    }
}

pub proof fn lemma_deepest_within_mono(
    posts: Seq<PostView>,
    op: Seq<char>,
    ps: Seq<Seq<char>>,
    f1: nat,
    f2: nat,
)
    requires
        f1 <= f2,
        deepest_within(posts, op, ps, f1) is Some,
    ensures
        deepest_within(posts, op, ps, f2) == deepest_within(posts, op, ps, f1),
    decreases f1, ps.len() + 1,
{
    lemma_deepest_unfold(posts, op, ps, f1);
    lemma_deepest_unfold(posts, op, ps, f2);
    if ps.len() > 0 {
        lemma_deepest_within_mono(posts, op, ps.drop_last(), f1, f2);
        lemma_depth_within_mono(posts, op, ps.last(), f1, f2);
    }
}

/// A ring is the same whichever sufficient fuel finds it.
pub proof fn lemma_ring_depth_is(posts: Seq<PostView>, op: Seq<char>, id: Seq<char>, f: nat)
    requires
        depth_within(posts, op, id, f) is Some,
    ensures
        depth_defined(posts, op, id),
        ring_depth(posts, op, id) == depth_within(posts, op, id, f)->0,
{
    let g = choose|g: nat| #[trigger] depth_within(posts, op, id, g) is Some;
    if g <= f {
        lemma_depth_within_mono(posts, op, id, g, f);
    } else {
        lemma_depth_within_mono(posts, op, id, f, g);
    }
}

proof fn lemma_deepest_none(posts: Seq<PostView>, op: Seq<char>, ps: Seq<Seq<char>>, f: nat, t: int)
    requires
        0 <= t < ps.len(),
        depth_within(posts, op, ps[t], f) is None,
    ensures
        deepest_within(posts, op, ps, f) is None,
    decreases ps.len(),
{
    lemma_deepest_unfold(posts, op, ps, f);
    if t < ps.len() - 1 {
        lemma_deepest_none(posts, op, ps.drop_last(), f, t);
    }
}

/// How a parent id of a post resolves.
#[derive(Debug, Clone, Copy, PartialEq, Eq, Structural)]
pub enum ParentLink {
    /// The opening post.
    Op,
    /// No post of the thread.
    Unknown,
    /// The last post of the thread with that id.
    Post(usize),
}

pub open spec fn link_of(posts: Seq<PostView>, op: Seq<char>, p: Seq<char>) -> ParentLink {
    if p == op {
        ParentLink::Op
    } else {
        match last_position(posts, p) {
            None => ParentLink::Unknown,
            Some(k) => ParentLink::Post(k as usize),
        }
    }
}

proof fn lemma_link_post(posts: Seq<PostView>, op: Seq<char>, p: Seq<char>, k: usize)
    requires
        posts.len() <= usize::MAX,
        link_of(posts, op, p) == ParentLink::Post(k),
    ensures
        p != op,
        k < posts.len(),
        last_position(posts, p) == Some(k as int),
        posts[k as int].id@ == p,
{
    lemma_last_position(posts, p);
}

/// The last position at which `ids` holds `target`.
fn last_index_in(posts: &Vec<PostView>, ids: &Vec<Vec<char>>, target: &[char]) -> (r: Option<usize>)
    requires
        ids@.len() == posts@.len(),
        forall|i: int| 0 <= i < ids@.len() ==> #[trigger] ids@[i]@ == posts@[i].id@,
    ensures
        match r {
            Some(k) => k < posts@.len() && last_position(posts@, target@) == Some(k as int)
                && posts@[k as int].id@ == target@,
            None => last_position(posts@, target@) is None,
        },
{
    reveal(last_position);
    let mut i: usize = ids.len();
    while i > 0
        invariant
            i <= ids@.len(),
            ids@.len() == posts@.len(),
            forall|k: int| 0 <= k < ids@.len() ==> #[trigger] ids@[k]@ == posts@[k].id@,
            forall|k: int| i <= k < posts@.len() ==> posts@[k].id@ != target@,
        decreases i,
    {
        if chars_equal(ids[i - 1].as_slice(), target) {
            let k = i - 1;
            proof {
                let P = |j: int|
                    0 <= j < posts@.len() && posts@[j].id@ == target@ && forall|m: int|
                        j < m < posts@.len() ==> posts@[m].id@ != target@;
                assert(P(k as int));
                assert(exists|j: int| 0 <= j < posts@.len() && posts@[j].id@ == target@);
                let w = choose|j: int|
                    0 <= j < posts@.len() && posts@[j].id@ == target@ && forall|m: int|
                        j < m < posts@.len() ==> posts@[m].id@ != target@;
                assert(P(w));
                if w < k {
                    assert(posts@[k as int].id@ != target@);
                }
                assert(w == k);
                reveal(last_position);
                assert(last_position(posts@, target@) == Some(w));
            }
            return Some(k);
        }
        i = i - 1;
    }
    None
}

/// Facts about the rings found so far: each found ring is the ring of a canonical post that is
/// not the opening post, and is at most one more than the number of rings found.
spec fn found_ok(posts: Seq<PostView>, op: Seq<char>, val: Seq<Option<usize>>, count: nat) -> bool {
    &&& val.len() == posts.len()
    &&& count <= posts.len()
    &&& count == Set::new(|q: int| 0 <= q < val.len() && val[q] is Some).len()
    &&& forall|j: int|
        0 <= j < val.len() && #[trigger] val[j] is Some ==> {
            &&& last_position(posts, posts[j].id@) == Some(j)
            &&& posts[j].id@ != op
            &&& exists|f: nat| depth_within(posts, op, posts[j].id@, f) == Some(val[j]->0 as nat)
            &&& val[j]->0 <= count + 1
        }
}

/// The post whose links are `ls` answers a canonical post whose ring is not found yet.
spec fn stuck(val: Seq<Option<usize>>, ls: Seq<ParentLink>) -> bool {
    exists|t: int| 0 <= t < ls.len() && #[trigger] ls[t] is Post && val[ls[t]->0 as int] is None
}

pub proof fn lemma_found_grows(val: Seq<Option<usize>>, j: int, v: usize)
    requires
        0 <= j < val.len(),
        val[j] is None,
    ensures
        Set::new(|q: int| 0 <= q < val.len() && val.update(j, Some(v))[q] is Some) == Set::new(
            |q: int| 0 <= q < val.len() && val[q] is Some,
        ).insert(j),
        Set::new(|q: int| 0 <= q < val.len() && val[q] is Some).finite(),
        Set::new(|q: int| 0 <= q < val.len() && val[q] is Some).len() < val.len(),
{
    let s = Set::new(|q: int| 0 <= q < val.len() && val[q] is Some);
    let r = vstd::set_lib::set_int_range(0, val.len() as int);
    vstd::set_lib::lemma_int_range(0, val.len() as int);
    assert(s.subset_of(r));
    vstd::set_lib::lemma_len_subset(s.insert(j), r);
    assert(Set::new(|q: int| 0 <= q < val.len() && val.update(j, Some(v))[q] is Some) =~= s.insert(j));
}

pub proof fn lemma_none_found(n: nat)
    ensures
        Set::new(|q: int| 0 <= q < n && Seq::<Option<usize>>::new(n, |k: int| None)[q] is Some).len() == 0,
{
    assert(Set::new(|q: int| 0 <= q < n && Seq::<Option<usize>>::new(n, |k: int| None)[q] is Some) =~= Set::empty());
}

/// Tries to find the ring of canonical post `j` from the rings found so far.
fn try_finalize(
    posts: &Vec<PostView>,
    op_id: &str,
    val: &Vec<Option<usize>>,
    ls: &Vec<ParentLink>,
    j: usize,
    count: usize,
) -> (r: Option<usize>)
    requires
        posts@.len() < usize::MAX,
        j < posts@.len(),
        count < posts@.len(),
        found_ok(posts@, op_id@, val@, count as nat),
        last_position(posts@, posts@[j as int].id@) == Some(j as int),
        posts@[j as int].id@ != op_id@,
        ls@.len() == parents_of(posts@[j as int]).len(),
        forall|t: int|
            0 <= t < ls@.len() ==> #[trigger] ls@[t] == link_of(
                posts@,
                op_id@,
                parents_of(posts@[j as int])[t],
            ),
        forall|t: int| 0 <= t < ls@.len() ==> (#[trigger] ls@[t] matches ParentLink::Post(m) ==> m < posts@.len()),
    ensures
        match r {
            Some(v) => v <= count + 2 && exists|f: nat| depth_within(posts@, op_id@, posts@[j as int].id@, f) == Some(v as nat),
            None => stuck(val@, ls@),
        },
{
    let ghost ps = parents_of(posts@[j as int]);
    let ghost id = posts@[j as int].id@;
    if ls.len() == 0 {
        assert(depth_within(posts@, op_id@, id, 0) == Some(1nat));
        return Some(1);
    }
    let mut m: usize = 0;
    let ghost mut fuel: nat = 0;
    let mut t: usize = 0;
    assert(ps.subrange(0, 0) =~= Seq::<Seq<char>>::empty());
    while t < ls.len()
        invariant
            t <= ls@.len(),
            ls@.len() == ps.len(),
            ps == parents_of(posts@[j as int]),
            count < posts@.len(),
            posts@.len() < usize::MAX,
            found_ok(posts@, op_id@, val@, count as nat),
            forall|q: int|
                0 <= q < ls@.len() ==> #[trigger] ls@[q] == link_of(posts@, op_id@, ps[q]),
            forall|q: int| 0 <= q < ls@.len() ==> (#[trigger] ls@[q] matches ParentLink::Post(k) ==> k < posts@.len()),
            m <= count + 1,
            deepest_within(posts@, op_id@, ps.subrange(0, t as int), fuel) == Some(m as nat),
        decreases ls@.len() - t,
    {
        let ghost pt = ps[t as int];
        let v: usize = match ls[t] {
            ParentLink::Op => {
                assert(depth_within(posts@, op_id@, pt, fuel) == Some(0nat));
                0
            },
            ParentLink::Unknown => {
                assert(depth_within(posts@, op_id@, pt, fuel) == Some(1nat));
                1
            },
            ParentLink::Post(k) => {
                match val[k] {
                    Some(v) => {
                        proof {
                            lemma_link_post(posts@, op_id@, pt, k);
                            assert(posts@[k as int].id@ == pt);
                            assert(val@[k as int] is Some);
                            let g = choose|g: nat| depth_within(posts@, op_id@, posts@[k as int].id@, g) == Some(v as nat);
                            if g <= fuel {
                                lemma_depth_within_mono(posts@, op_id@, pt, g, fuel);
                            } else {
                                lemma_deepest_within_mono(posts@, op_id@, ps.subrange(0, t as int), fuel, g);
                                fuel = g;
                            }
                        }
                        v
                    },
                    None => {
                        assert(ls@[t as int] is Post && val@[ls@[t as int]->0 as int] is None);
                        return None;
                    },
                }
            },
        };
        assert(depth_within(posts@, op_id@, pt, fuel) == Some(v as nat));
        assert(ps.subrange(0, t + 1).drop_last() =~= ps.subrange(0, t as int));
        assert(ps.subrange(0, t + 1).last() == pt);
        if v > m {
            m = v;
        }
        t = t + 1;
    }
    assert(ps.subrange(0, t as int) =~= ps);
    assert(depth_within(posts@, op_id@, id, fuel + 1) == Some((m + 1) as nat));
    Some(m + 1)
}

proof fn lemma_stuck_never_reaches(
    posts: Seq<PostView>,
    op: Seq<char>,
    val: Seq<Option<usize>>,
    links: Seq<Vec<ParentLink>>,
    canon: Seq<usize>,
    is_op: Seq<bool>,
    f: nat,
    q: int,
)
    requires
        posts.len() <= usize::MAX,
        val.len() == posts.len(),
        links.len() == posts.len(),
        canon.len() == posts.len(),
        is_op.len() == posts.len(),
        forall|k: int| 0 <= k < posts.len() ==> #[trigger] is_op[k] == (posts[k].id@ == op),
        forall|k: int|
            0 <= k < posts.len() ==> #[trigger] canon[k] < posts.len() && last_position(posts, posts[k].id@)
                == Some(canon[k] as int),
        forall|k: int|
            0 <= k < posts.len() ==> (#[trigger] links[k])@.len() == parents_of(posts[k]).len()
                && forall|t: int|
                0 <= t < links[k]@.len() ==> #[trigger] links[k]@[t] == link_of(posts, op, parents_of(posts[k])[t]),
        forall|k: int, t: int|
            0 <= k < posts.len() && 0 <= t < links[k]@.len() ==> (#[trigger] links[k]@[t] matches ParentLink::Post(m) ==> m < posts.len()),
        forall|k: int|
            0 <= k < posts.len() && val[k] is None && canon[k] == k && !is_op[k] ==> stuck(val, #[trigger] links[k]@),
        0 <= q < posts.len(),
        val[q] is None,
        canon[q] == q,
        !is_op[q],
    ensures
        depth_within(posts, op, posts[q].id@, f) is None,
    decreases f,
{
    let ls = links[q]@;
    assert(stuck(val, ls));
    let t = choose|t: int| 0 <= t < ls.len() && #[trigger] ls[t] is Post && val[ls[t]->0 as int] is None;
    let k = ls[t]->0 as int;
    let ps = parents_of(posts[q]);
    let p = ps[t];
    assert(ls[t] == link_of(posts, op, p));
    lemma_link_post(posts, op, p, k as usize);
    assert(p != op);
    assert(last_position(posts, p) == Some(k));
    assert(posts[k].id@ == p);
    assert(0 <= k < posts.len());
    assert(canon[k] == k);
    assert(!is_op[k]);
    if f > 0 {
        lemma_stuck_never_reaches(posts, op, val, links, canon, is_op, (f - 1) as nat, k);
        lemma_deepest_none(posts, op, ps, (f - 1) as nat, t);
    }
}

/// Computes the rings of all posts, or `None` when some post answers, directly or through other
/// posts, a chain of replies that runs in a circle.
pub fn try_compute_ring_depths(posts: &Vec<PostView>, op_id: &str) -> (r: Option<Vec<usize>>)
    requires
        posts@.len() < usize::MAX,
    ensures
        match r {
            Some(d) => all_depths_defined(posts@, op_id@) && d@.len() == posts@.len() && forall|i: int|
                0 <= i < posts@.len() ==> d@[i] as nat == ring_depth(posts@, op_id@, #[trigger] posts@[i].id@),
            None => !all_depths_defined(posts@, op_id@),
        },
{
    let n = posts.len();
    let op = chars_of(op_id);
    let mut ids: Vec<Vec<char>> = Vec::new();
    let mut i: usize = 0;
    while i < n
        invariant
            n == posts@.len(),
            i <= n,
            ids@.len() == i,
            forall|k: int| 0 <= k < i ==> #[trigger] ids@[k]@ == posts@[k].id@,
        decreases n - i,
    {
        ids.push(chars_of(posts[i].id.as_str()));
        i = i + 1;
    }
    // canonical position and parent links of each post
    let mut canon: Vec<usize> = Vec::new();
    let mut links: Vec<Vec<ParentLink>> = Vec::new();
    let mut i: usize = 0;
    while i < n
        invariant
            n == posts@.len(),
            ids@.len() == n,
            forall|k: int| 0 <= k < n ==> #[trigger] ids@[k]@ == posts@[k].id@,
            op@ == op_id@,
            i <= n,
            canon@.len() == i,
            links@.len() == i,
            forall|k: int|
                0 <= k < i ==> #[trigger] canon@[k] < n && last_position(posts@, posts@[k].id@)
                    == Some(canon@[k] as int) && posts@[canon@[k] as int].id@ == posts@[k].id@,
            forall|k: int|
                0 <= k < i ==> (#[trigger] links@[k])@.len() == parents_of(posts@[k]).len()
                    && forall|t: int|
                    0 <= t < links@[k]@.len() ==> #[trigger] links@[k]@[t] == link_of(
                        posts@,
                        op_id@,
                        parents_of(posts@[k])[t],
                    ),
            forall|k: int, t: int|
                0 <= k < i && 0 <= t < links@[k]@.len() ==> (#[trigger] links@[k]@[t] matches ParentLink::Post(m) ==> m < n),
        decreases n - i,
    {
        let c = last_index_in(posts, &ids, ids[i].as_slice());
        let c = match c {
            Some(c) => c,
            None => {
                proof {
                    lemma_last_position(posts@, ids@[i as int]@);
                    assert(posts@[i as int].id@ == ids@[i as int]@);
                }
                assert(false);
                0
            },
        };
        canon.push(c);
        let mut ls: Vec<ParentLink> = Vec::new();
        let parents = &posts[i].parent_post_ids;
        let mut t: usize = 0;
        while t < parents.len()
            invariant
                n == posts@.len(),
                ids@.len() == n,
                forall|k: int| 0 <= k < n ==> #[trigger] ids@[k]@ == posts@[k].id@,
                op@ == op_id@,
                i < n,
                parents@ == posts@[i as int].parent_post_ids@,
                t <= parents@.len(),
                ls@.len() == t,
                forall|q: int|
                    0 <= q < t ==> #[trigger] ls@[q] == link_of(
                        posts@,
                        op_id@,
                        parents_of(posts@[i as int])[q],
                    ),
                forall|q: int| 0 <= q < t ==> (#[trigger] ls@[q] matches ParentLink::Post(m) ==> m < n),
            decreases parents@.len() - t,
        {
            let pc = chars_of(parents[t].as_str());
            assert(parents_of(posts@[i as int])[t as int] == pc@);
            let l = if chars_equal(pc.as_slice(), op.as_slice()) {
                ParentLink::Op
            } else {
                match last_index_in(posts, &ids, pc.as_slice()) {
                    None => ParentLink::Unknown,
                    Some(k) => ParentLink::Post(k),
                }
            };
            ls.push(l);
            t = t + 1;
        }
        links.push(ls);
        i = i + 1;
    }
    let mut is_op: Vec<bool> = Vec::new();
    let mut i: usize = 0;
    while i < n
        invariant
            n == posts@.len(),
            ids@.len() == n,
            forall|k: int| 0 <= k < n ==> #[trigger] ids@[k]@ == posts@[k].id@,
            op@ == op_id@,
            i <= n,
            is_op@.len() == i,
            forall|k: int| 0 <= k < i ==> #[trigger] is_op@[k] == (posts@[k].id@ == op_id@),
        decreases n - i,
    {
        is_op.push(chars_equal(ids[i].as_slice(), op.as_slice()));
        i = i + 1;
    }
    let mut val: Vec<Option<usize>> = Vec::new();
    let mut i: usize = 0;
    while i < n
        invariant
            i <= n,
            val@.len() == i,
            forall|k: int| 0 <= k < i ==> #[trigger] val@[k] is None,
        decreases n - i,
    {
        val.push(None);
        i = i + 1;
    }
    proof {
        assert(val@ =~= Seq::<Option<usize>>::new(n as nat, |k: int| None));
        lemma_none_found(n as nat);
    }
    let mut count: usize = 0;
    loop
        invariant
            n == posts@.len(),
            canon@.len() == n,
            links@.len() == n,
            is_op@.len() == n,
            forall|k: int| 0 <= k < n ==> #[trigger] is_op@[k] == (posts@[k].id@ == op_id@),
            forall|k: int|
                0 <= k < n ==> #[trigger] canon@[k] < n && last_position(posts@, posts@[k].id@)
                    == Some(canon@[k] as int) && posts@[canon@[k] as int].id@ == posts@[k].id@,
            forall|k: int|
                0 <= k < n ==> (#[trigger] links@[k])@.len() == parents_of(posts@[k]).len()
                    && forall|t: int|
                    0 <= t < links@[k]@.len() ==> #[trigger] links@[k]@[t] == link_of(
                        posts@,
                        op_id@,
                        parents_of(posts@[k])[t],
                    ),
            forall|k: int, t: int|
                0 <= k < n && 0 <= t < links@[k]@.len() ==> (#[trigger] links@[k]@[t] matches ParentLink::Post(m) ==> m < n),
            found_ok(posts@, op_id@, val@, count as nat),
            posts@.len() < usize::MAX,
        ensures
            found_ok(posts@, op_id@, val@, count as nat),
            forall|q: int|
                0 <= q < n && #[trigger] val@[q] is None && canon@[q] == q && !is_op@[q] ==> stuck(
                    val@,
                    links@[q]@,
                ),
        decreases n - count,
    {
        let before = count;
        let mut j: usize = 0;
        while j < n
            invariant
                n == posts@.len(),
                canon@.len() == n,
                links@.len() == n,
                is_op@.len() == n,
                forall|k: int| 0 <= k < n ==> #[trigger] is_op@[k] == (posts@[k].id@ == op_id@),
                forall|k: int|
                    0 <= k < n ==> #[trigger] canon@[k] < n && last_position(posts@, posts@[k].id@)
                        == Some(canon@[k] as int) && posts@[canon@[k] as int].id@ == posts@[k].id@,
                forall|k: int|
                    0 <= k < n ==> (#[trigger] links@[k])@.len() == parents_of(posts@[k]).len()
                        && forall|t: int|
                        0 <= t < links@[k]@.len() ==> #[trigger] links@[k]@[t] == link_of(
                            posts@,
                            op_id@,
                            parents_of(posts@[k])[t],
                        ),
                forall|k: int, t: int|
                    0 <= k < n && 0 <= t < links@[k]@.len() ==> (#[trigger] links@[k]@[t] matches ParentLink::Post(m) ==> m < n),
                found_ok(posts@, op_id@, val@, count as nat),
                posts@.len() < usize::MAX,
                before <= count,
                j <= n,
                count == before ==> forall|q: int|
                    0 <= q < j && #[trigger] val@[q] is None && canon@[q] == q && !is_op@[q] ==> stuck(
                        val@,
                        links@[q]@,
                    ),
            decreases n - j,
        {
            if val[j].is_none() && canon[j] == j && !is_op[j] {
                proof {
                    lemma_found_grows(val@, j as int, 0);
                }
                let r = try_finalize(posts, op_id, &val, &links[j], j, count);
                match r {
                    Some(v) => {
                        proof {
                            let nv = val@.update(j as int, Some(v));
                            lemma_found_grows(val@, j as int, v);
                            assert forall|q: int| 0 <= q < nv.len() && #[trigger] nv[q] is Some implies {
                                &&& last_position(posts@, posts@[q].id@) == Some(q)
                                &&& posts@[q].id@ != op_id@
                                &&& exists|f: nat| depth_within(posts@, op_id@, posts@[q].id@, f) == Some(nv[q]->0 as nat)
                                &&& nv[q]->0 <= count + 2
                            } by {
                                if q != j {
                                    assert(val@[q] is Some);
                                } else {
                                    assert(canon@[q] == q);
                                }
                            }
                            assert(found_ok(posts@, op_id@, nv, (count + 1) as nat));
                        }
                        val.set(j, Some(v));
                        count = count + 1;
                    },
                    None => {},
                }
            }
            j = j + 1;
        }
        if count == before {
            break ;
        }
    }
    proof {
        assert forall|q: int, f: nat| 0 <= q < n && val@[q] is None && canon@[q] == q && !is_op@[q]
            implies #[trigger] depth_within(posts@, op_id@, posts@[q].id@, f) is None by {
            lemma_stuck_never_reaches(posts@, op_id@, val@, links@, canon@, is_op@, f, q);
        }
    }
    // assemble
    let mut out: Vec<usize> = Vec::new();
    let mut i: usize = 0;
    while i < n
        invariant
            n == posts@.len(),
            canon@.len() == n,
            is_op@.len() == n,
            val@.len() == n,
            forall|k: int| 0 <= k < n ==> #[trigger] is_op@[k] == (posts@[k].id@ == op_id@),
            forall|k: int|
                0 <= k < n ==> #[trigger] canon@[k] < n && last_position(posts@, posts@[k].id@)
                    == Some(canon@[k] as int) && posts@[canon@[k] as int].id@ == posts@[k].id@,
            found_ok(posts@, op_id@, val@, count as nat),
            forall|q: int, f: nat| 0 <= q < n && val@[q] is None && canon@[q] == q && !is_op@[q]
                ==> #[trigger] depth_within(posts@, op_id@, posts@[q].id@, f) is None,
            i <= n,
            out@.len() == i,
            forall|k: int| 0 <= k < i ==> depth_defined(posts@, op_id@, #[trigger] posts@[k].id@),
            forall|k: int| 0 <= k < i ==> #[trigger] out@[k] as nat == ring_depth(posts@, op_id@, posts@[k].id@),
        decreases n - i,
    {
        if is_op[i] {
            proof {
                lemma_ring_depth_is(posts@, op_id@, posts@[i as int].id@, 0);
            }
            out.push(0);
        } else {
            let c = canon[i];
            match val[c] {
                Some(v) => {
                    proof {
                        assert(val@[c as int] is Some);
                        let f = choose|f: nat| depth_within(posts@, op_id@, posts@[c as int].id@, f) == Some(v as nat);
                        lemma_ring_depth_is(posts@, op_id@, posts@[i as int].id@, f);
                    }
                    out.push(v);
                },
                None => {
                    proof {
                        assert(canon@[c as int] == c) by {
                            assert(last_position(posts@, posts@[c as int].id@) == Some(c as int));
                        }
                        assert(!is_op@[c as int]);
                        assert forall|f: nat| !(#[trigger] depth_within(posts@, op_id@, posts@[i as int].id@, f) is Some) by {
                            assert(depth_within(posts@, op_id@, posts@[c as int].id@, f) is None);
                        }
                        assert(!depth_defined(posts@, op_id@, posts@[i as int].id@));
                    }
                    return None;
                },
            }
        }
        i = i + 1;
    }
    Some(out)
}

/// Computes the ring of every post (see `ring_depth`), for a thread in which following replies
/// upward always reaches the top.
pub fn compute_ring_depths(posts: &Vec<PostView>, op_id: &str) -> (d: Vec<usize>)
    requires
        posts@.len() < usize::MAX,
        all_depths_defined(posts@, op_id@),
    ensures
        d@.len() == posts@.len(),
        forall|i: int| 0 <= i < posts@.len() ==> d@[i] as nat == ring_depth(posts@, op_id@, #[trigger] posts@[i].id@),
{
    match try_compute_ring_depths(posts, op_id) {
        Some(d) => d,
        None => {
            assert(false);
            Vec::new()
        },
    }
}

/// Where a post sits in the radial view: its ring, its place among the posts of that ring
/// (oldest first), and how many posts share the ring.
#[derive(Debug, Clone, Copy, PartialEq, Eq, Structural)]
pub struct RadialSlot {
    pub ring: usize,
    pub slot: usize,
    pub ring_size: usize,
}

/// The rings of all posts, in thread order.
pub open spec fn rings_of(posts: Seq<PostView>, op: Seq<char>) -> Seq<usize> {
    Seq::new(posts.len(), |i: int| ring_depth(posts, op, posts[i].id@) as usize)
}

/// The positions below `n`, in thread order, whose ring in `d` is `r`.
pub open spec fn ring_members(d: Seq<usize>, r: int, n: int) -> Seq<int>
    decreases n,
{
    if n <= 0 {
        Seq::empty()
    } else if d[n - 1] == r {
        ring_members(d, r, n - 1).push(n - 1)
    } else {
        ring_members(d, r, n - 1)
    }
}

/// The opening post of a thread: the first of its oldest posts.
pub open spec fn opening_position(posts: Seq<PostView>) -> int {
    first_least(created_order(posts), posts.len() as int)
}

/// The radial place of post `i` given the rings `d` of all posts.
pub open spec fn slot_fits(posts: Seq<PostView>, d: Seq<usize>, i: int, s: RadialSlot) -> bool {
    let members = ring_members(d, d[i] as int, d.len() as int);
    &&& s.ring == d[i]
    &&& s.ring_size == members.len()
    &&& 0 <= s.slot < members.len()
    &&& stable_sorted(created_order(posts), members)[s.slot as int] == i
}

proof fn lemma_ring_members(d: Seq<usize>, r: int, n: int)
    requires
        0 <= n <= d.len(),
    ensures
        forall|p: int| 0 <= p < ring_members(d, r, n).len() ==> 0 <= #[trigger] ring_members(d, r, n)[p] < n && d[ring_members(d, r, n)[p]] == r,
        forall|j: int| 0 <= j < n && d[j] == r ==> #[trigger] ring_members(d, r, n).contains(j),
        forall|p: int, q: int| 0 <= p < q < ring_members(d, r, n).len() ==> ring_members(d, r, n)[p] < ring_members(d, r, n)[q],
    decreases n,
{
    if n > 0 {
        lemma_ring_members(d, r, n - 1);
        let s = ring_members(d, r, n - 1);
        if d[n - 1] == r {
            let t = s.push(n - 1);
            assert forall|p: int| 0 <= p < t.len() implies 0 <= #[trigger] t[p] < n && d[t[p]] == r by {
                if p < s.len() {
                    assert(t[p] == s[p]);
                }
            }
            assert forall|j: int| 0 <= j < n && d[j] == r implies #[trigger] t.contains(j) by {
                if j < n - 1 {
                    assert(s.contains(j));
                    let p = choose|p: int| 0 <= p < s.len() && s[p] == j;
                    assert(t[p] == j);
                } else {
                    assert(t[s.len() as int] == j);
                }
            }
            assert forall|p: int, q: int| 0 <= p < q < t.len() implies t[p] < t[q] by {
                if q < s.len() {
                    assert(t[p] == s[p] && t[q] == s[q]);
                } else {
                    assert(t[p] == s[p]);
                }
            }
        }
    }
}

fn members_of(d: &Vec<usize>, r: usize) -> (m: Vec<usize>)
    ensures
        m@.map_values(|x: usize| x as int) == ring_members(d@, r as int, d@.len() as int),
        forall|p: int| 0 <= p < m@.len() ==> #[trigger] m@[p] < d@.len(),
{
    let mut m: Vec<usize> = Vec::new();
    let mut j: usize = 0;
    while j < d.len()
        invariant
            j <= d@.len(),
            m@.map_values(|x: usize| x as int) == ring_members(d@, r as int, j as int),
            forall|p: int| 0 <= p < m@.len() ==> #[trigger] m@[p] < j,
        decreases d@.len() - j,
    {
        if d[j] == r {
            m.push(j);
            assert(m@.map_values(|x: usize| x as int) =~= ring_members(d@, r as int, j as int).push(j as int));
        }
        j = j + 1;
    }
    m
}

/// Places every post in the radial view: the opening post is the first of the oldest posts;
/// `None` when some chain of replies runs in a circle.
pub fn radial_slots(posts: &Vec<PostView>) -> (r: Option<Vec<RadialSlot>>)
    requires
        posts@.len() < usize::MAX,
    ensures
        posts@.len() == 0 ==> r is Some && r->0@.len() == 0,
        posts@.len() > 0 ==> {
            let op = posts@[opening_position(posts@)].id@;
            match r {
                Some(v) => all_depths_defined(posts@, op) && v@.len() == posts@.len() && forall|i: int|
                    0 <= i < posts@.len() ==> slot_fits(posts@, rings_of(posts@, op), i, #[trigger] v@[i]),
                None => !all_depths_defined(posts@, op),
            }
        },
{
    let n = posts.len();
    let mut keys: Vec<String> = Vec::new();
    let mut i: usize = 0;
    while i < n
        invariant
            n == posts@.len(),
            i <= n,
            keys@.len() == i,
            forall|k: int| 0 <= k < i ==> #[trigger] keys@[k]@ == posts@[k].created_at@,
        decreases n - i,
    {
        keys.push(posts[i].created_at.clone());
        i = i + 1;
    }
    let op_index = match first_least_index(&keys) {
        None => {
            return Some(Vec::new());
        },
        Some(k) => k,
    };
    proof {
        lemma_first_least_congruent(key_order(keys@, false), created_order(posts@), n as int);
        crate::order::lemma_first_least_bounds(created_order(posts@), n as int);
    }
    let d = match try_compute_ring_depths(posts, posts[op_index].id.as_str()) {
        None => {
            return None;
        },
        Some(d) => d,
    };
    let mut out: Vec<RadialSlot> = Vec::new();
    let mut assigned: Vec<bool> = Vec::new();
    let mut i: usize = 0;
    while i < n
        invariant
            n == posts@.len(),
            i <= n,
            out@.len() == i,
            assigned@.len() == i,
            forall|k: int| 0 <= k < i ==> !#[trigger] assigned@[k],
        decreases n - i,
    {
        out.push(RadialSlot { ring: 0, slot: 0, ring_size: 0 });
        assigned.push(false);
        i = i + 1;
    }
    let mut i: usize = 0;
    while i < n
        invariant
            n == posts@.len(),
            d@.len() == n,
            keys@.len() == n,
            forall|k: int| 0 <= k < n ==> #[trigger] keys@[k]@ == posts@[k].created_at@,
            i <= n,
            out@.len() == n,
            assigned@.len() == n,
            forall|j: int| 0 <= j < n ==> (#[trigger] assigned@[j] <==> exists|k: int| 0 <= k < i && d@[k] == d@[j]),
            forall|j: int| 0 <= j < n && #[trigger] assigned@[j] ==> slot_fits(posts@, d@, j, out@[j]),
        decreases n - i,
    {
        if !assigned[i] {
            let r = d[i];
            let members = members_of(&d, r);
            let sorted = stable_sort(&keys, &members, false);
            let ghost ms = members@.map_values(|x: usize| x as int);
            proof {
                lemma_ring_members(d@, r as int, n as int);
                assert forall|x: int, y: int| ms.contains(x) && ms.contains(y) implies key_order(keys@, false)(x, y) == created_order(posts@)(x, y) by {
                    let a = choose|a: int| 0 <= a < ms.len() && ms[a] == x;
                    let b = choose|b: int| 0 <= b < ms.len() && ms[b] == y;
                    assert(members@[a] < n && members@[b] < n);
                }
                lemma_stable_sorted_congruent(key_order(keys@, false), created_order(posts@), ms);
                lemma_stable_sorted_members(created_order(posts@), ms);
            }
            let ghost so = stable_sorted(created_order(posts@), ms);
            let mut s: usize = 0;
            while s < sorted.len()
                invariant
                    n == posts@.len(),
                    d@.len() == n,
                    out@.len() == n,
                    assigned@.len() == n,
                    r == d@[i as int],
                    i < n,
                    ms == ring_members(d@, r as int, n as int),
                    ms == members@.map_values(|x: usize| x as int),
                    so == stable_sorted(created_order(posts@), ms),
                    sorted@.map_values(|x: usize| x as int) == so,
                    so.len() == ms.len(),
                    forall|p: int| 0 <= p < ms.len() ==> ms.contains(#[trigger] so[p]),
                    forall|p: int| 0 <= p < ms.len() ==> 0 <= #[trigger] ms[p] < n && d@[ms[p]] == r,
                    s <= sorted@.len(),
                    forall|j: int| 0 <= j < n && d@[j] != r ==> (#[trigger] assigned@[j] <==> exists|k: int| 0 <= k < i && d@[k] == d@[j]),
                    forall|j: int| 0 <= j < n && #[trigger] assigned@[j] && d@[j] != r ==> slot_fits(posts@, d@, j, out@[j]),
                    forall|p: int| 0 <= p < s ==> #[trigger] assigned@[so[p]] && slot_fits(posts@, d@, so[p], out@[so[p]]),
                    forall|j: int| 0 <= j < n && d@[j] == r && #[trigger] assigned@[j] ==> exists|p: int| 0 <= p < s && so[p] == j,
                decreases sorted@.len() - s,
            {
                let m = sorted[s];
                assert(so[s as int] == m as int);
                assert(ms.contains(m as int));
                proof {
                    let w = choose|w: int| 0 <= w < ms.len() && ms[w] == m as int;
                    assert(0 <= ms[w] < n);
                }
                out.set(m, RadialSlot { ring: r, slot: s, ring_size: members.len() });
                assigned.set(m, true);
                proof {
                    assert(members@.len() == ms.len());
                    assert(ms.no_duplicates()) by {
                        lemma_ring_members(d@, r as int, n as int);
                    }
                    assert forall|p: int, q: int| 0 <= p < q < so.len() implies so[p] != so[q] by {
                        lemma_sorted_distinct(created_order(posts@), ms, p, q);
                    }
                }
                s = s + 1;
            }
            proof {
                assert forall|j: int| 0 <= j < n implies (#[trigger] assigned@[j] <==> exists|k: int| 0 <= k < i + 1 && d@[k] == d@[j]) by {
                    if d@[j] == r {
                        assert(ms.contains(j));
                        let p = choose|p: int| 0 <= p < ms.len() && ms[p] == j;
                        lemma_sorted_index_of(created_order(posts@), ms, j);
                        let q = choose|q: int| 0 <= q < so.len() && so[q] == j;
                        assert(assigned@[so[q]]);
                    }
                }
            }
        } else {
            proof {
                assert forall|j: int| 0 <= j < n implies (#[trigger] assigned@[j] <==> exists|k: int| 0 <= k < i + 1 && d@[k] == d@[j]) by {
                    if exists|k: int| 0 <= k < i + 1 && d@[k] == d@[j] {
                        let k = choose|k: int| 0 <= k < i + 1 && d@[k] == d@[j];
                        if k == i {
                            let k2 = choose|k2: int| 0 <= k2 < i && d@[k2] == d@[i as int];
                            assert(d@[k2] == d@[j]);
                        }
                    }
                }
            }
        }
        i = i + 1;
    }
    proof {
        let op = posts@[op_index as int].id@;
        assert forall|j: int| 0 <= j < n implies slot_fits(posts@, d@, j, #[trigger] out@[j]) by {
            assert(assigned@[j]);
        }
        assert(d@ =~= rings_of(posts@, op));
    }
    Some(out)
}

} // verus!
