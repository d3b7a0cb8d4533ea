//! The hierarchical (layered) view of a thread: posts are ranked by their distance from the
//! posts that answer nothing, and each layer is ordered after the layer above it.
use vstd::prelude::*;

use crate::models::PostView;
use crate::order::{
    first_least, first_least_index, key_order, lemma_first_least_bounds, lemma_first_least_congruent,
    lemma_sorted_distinct, lemma_stable_sorted_congruent, lemma_stable_sorted_members, lemma_stable_sorted_ordered, stable_sort,
    stable_sorted,
};
use crate::rings::{lemma_found_grows, lemma_none_found};
use crate::text::{chars_equal, chars_of};
use crate::thread::{answers, created_order, parents_of, position_of};

verus! {

/// Whether some post of the thread answers nothing.
pub open spec fn has_root(posts: Seq<PostView>) -> bool {
    exists|j: int| 0 <= j < posts.len() && #[trigger] parents_of(posts[j]).len() == 0
}

/// The ids at rank 0: the posts that answer nothing, or, when every post answers something, the
/// first of the oldest posts.
pub open spec fn is_source(posts: Seq<PostView>, v: Seq<char>) -> bool {
    if has_root(posts) {
        exists|j: int| 0 <= j < posts.len() && posts[j].id@ == v && #[trigger] parents_of(posts[j]).len() == 0
    } else {
        posts.len() > 0 && v == posts[first_least(created_order(posts), posts.len() as int)].id@
    }
}

/// Whether some post with id `v` answers `x`.
pub open spec fn feeds(posts: Seq<PostView>, x: Seq<char>, v: Seq<char>) -> bool {
    exists|j: int| 0 <= j < posts.len() && posts[j].id@ == v && #[trigger] answers(posts[j], x)
}

/// Whether `v` is at most `k` replies away from a rank-0 id.
pub open spec fn reached(posts: Seq<PostView>, v: Seq<char>, k: nat) -> bool
    decreases k,
{
    is_source(posts, v) || (k > 0 && (reached(posts, v, (k - 1) as nat) || exists|x: Seq<char>|
        #[trigger] feeds(posts, x, v) && reached(posts, x, (k - 1) as nat)))
}

/// Whether `d` is the rank of `v`: the fewest replies that lead to `v` from a rank-0 id.
pub open spec fn has_rank(posts: Seq<PostView>, v: Seq<char>, d: nat) -> bool {
    reached(posts, v, d) && (d == 0 || !reached(posts, v, (d - 1) as nat))
}

/// The rank of `v`, if a chain of replies leads to it from a rank-0 id.
pub open spec fn rank_of(posts: Seq<PostView>, v: Seq<char>) -> Option<nat> {
    if exists|d: nat| has_rank(posts, v, d) {
        Some(choose|d: nat| has_rank(posts, v, d))
    } else {
        None
    }
}

/// The rank of every post's id, by position.
pub open spec fn rank_table(posts: Seq<PostView>) -> Seq<Option<usize>> {
    Seq::new(
        posts.len(),
        |i: int|
            match rank_of(posts, posts[i].id@) {
                Some(d) => Some(d as usize),
                None => None,
            },
    )
}

/// An id has at most one rank.
pub proof fn lemma_rank_unique(posts: Seq<PostView>, v: Seq<char>, d1: nat, d2: nat)
    requires
        has_rank(posts, v, d1),
        has_rank(posts, v, d2),
    ensures
        d1 == d2,
{
    if d1 < d2 {
        lemma_reached_mono(posts, v, d1, (d2 - 1) as nat);
    } else if d2 < d1 {
        lemma_reached_mono(posts, v, d2, (d1 - 1) as nat);
    }
}

pub proof fn lemma_reached_mono(posts: Seq<PostView>, v: Seq<char>, k1: nat, k2: nat)
    requires
        k1 <= k2,
        reached(posts, v, k1),
    ensures
        reached(posts, v, k2),
    decreases k2,
{
    if k1 < k2 {
        lemma_reached_mono(posts, v, k1, (k2 - 1) as nat);
    }
}

proof fn lemma_reached_is_post(posts: Seq<PostView>, v: Seq<char>, k: nat)
    requires
        reached(posts, v, k),
    ensures
        exists|j: int| 0 <= j < posts.len() && posts[j].id@ == v,
    decreases k,
{
    if !is_source(posts, v) {
        if reached(posts, v, (k - 1) as nat) {
            lemma_reached_is_post(posts, v, (k - 1) as nat);
        } else {
            let x = choose|x: Seq<char>| #[trigger] feeds(posts, x, v) && reached(posts, x, (k - 1) as nat);
            let j = choose|j: int| 0 <= j < posts.len() && posts[j].id@ == v && #[trigger] answers(posts[j], x);
        }
    } else if has_root(posts) {
        let j = choose|j: int| 0 <= j < posts.len() && posts[j].id@ == v && #[trigger] parents_of(posts[j]).len() == 0;
    } else {
        lemma_first_least_bounds(created_order(posts), posts.len() as int);
    }
}

proof fn lemma_reached_stable(posts: Seq<PostView>, k: nat, m: nat, w: Seq<char>)
    requires
        k <= m,
        forall|u: Seq<char>| #[trigger] reached(posts, u, k + 1) ==> reached(posts, u, k),
        reached(posts, w, m),
    ensures
        reached(posts, w, k),
    decreases m,
{
    if m > k {
        if reached(posts, w, (m - 1) as nat) {
            lemma_reached_stable(posts, k, (m - 1) as nat, w);
        } else if !is_source(posts, w) {
            let x = choose|x: Seq<char>| #[trigger] feeds(posts, x, w) && reached(posts, x, (m - 1) as nat);
            lemma_reached_stable(posts, k, (m - 1) as nat, x);
            assert(reached(posts, w, k + 1));
        }
    }
}

/// The first position at which `ids` holds `target`.
fn first_index_in(posts: &Vec<PostView>, ids: &Vec<Vec<char>>, target: &[char]) -> (r: Option<usize>)
    requires
        ids@.len() == posts@.len(),
        forall|i: int| 0 <= i < ids@.len() ==> #[trigger] ids@[i]@ == posts@[i].id@,
    ensures
        match r {
            Some(k) => k < posts@.len() && position_of(posts@, target@) == Some(k as int)
                && posts@[k as int].id@ == target@,
            None => position_of(posts@, target@) is None,
        },
{
    let mut i: usize = 0;
    while i < ids.len()
        invariant
            i <= ids@.len(),
            ids@.len() == posts@.len(),
            forall|k: int| 0 <= k < ids@.len() ==> #[trigger] ids@[k]@ == posts@[k].id@,
            forall|k: int| 0 <= k < i ==> posts@[k].id@ != target@,
        decreases ids@.len() - i,
    {
        if chars_equal(ids[i].as_slice(), target) {
            proof {
                let w = choose|j: int|
                    0 <= j < posts@.len() && posts@[j].id@ == target@ && forall|m: int|
                        0 <= m < j ==> posts@[m].id@ != target@;
                assert(posts@[i as int].id@ == target@);
                if w < i {
                } else if w > i {
                    assert(posts@[i as int].id@ != target@);
                }
            }
            return Some(i);
        }
        i = i + 1;
    }
    None
}

/// `first[q]` is the position of the first post whose id is that of post `q`.
#[verifier::opaque]
spec fn canonical(posts: Seq<PostView>, first: Seq<usize>) -> bool {
    &&& first.len() == posts.len()
    &&& forall|q: int|
        0 <= q < posts.len() ==> #[trigger] first[q] < posts.len() && position_of(posts, posts[q].id@) == Some(
            first[q] as int,
        ) && posts[first[q] as int].id@ == posts[q].id@
}

/// `links[q][t]` is the position of the first post whose id is the `t`-th parent of post `q`.
#[verifier::opaque]
spec fn links_ok(posts: Seq<PostView>, links: Seq<Vec<Option<usize>>>) -> bool {
    &&& links.len() == posts.len()
    &&& forall|q: int|
        0 <= q < posts.len() ==> (#[trigger] links[q])@.len() == parents_of(posts[q]).len() && forall|t: int|
            0 <= t < links[q]@.len() ==> match #[trigger] links[q]@[t] {
                Some(c) => c < posts.len() && position_of(posts, parents_of(posts[q])[t]) == Some(c as int)
                    && posts[c as int].id@ == parents_of(posts[q])[t],
                None => position_of(posts, parents_of(posts[q])[t]) is None,
            }
}

spec fn ranked_count(rank: Seq<Option<usize>>) -> nat {
    Set::new(|q: int| 0 <= q < rank.len() && rank[q] is Some).len()
}

#[verifier::opaque]
spec fn ranks_ok(posts: Seq<PostView>, first: Seq<usize>, rank: Seq<Option<usize>>, k: nat) -> bool {
    &&& rank.len() == posts.len()
    &&& forall|q: int| 0 <= q < rank.len() && #[trigger] rank[q] is Some ==> first[q] == q
    &&& forall|q: int|
        0 <= q < rank.len() && first[q] == q ==> match #[trigger] rank[q] {
            Some(d) => d <= k && has_rank(posts, posts[q].id@, d as nat),
            None => !reached(posts, posts[q].id@, k),
        }
}

fn canonical_positions(posts: &Vec<PostView>, ids: &Vec<Vec<char>>) -> (first: Vec<usize>)
    requires
        ids@.len() == posts@.len(),
        forall|k: int| 0 <= k < ids@.len() ==> #[trigger] ids@[k]@ == posts@[k].id@,
    ensures
        canonical(posts@, first@),
{
    let n = posts.len();
    let mut first: Vec<usize> = Vec::new();
    let mut i: usize = 0;
    while i < n
        invariant
            n == posts@.len(),
            ids@.len() == n,
            forall|k: int| 0 <= k < n ==> #[trigger] ids@[k]@ == posts@[k].id@,
            i <= n,
            first@.len() == i,
            forall|k: int|
                0 <= k < i ==> #[trigger] first@[k] < n && position_of(posts@, posts@[k].id@) == Some(
                    first@[k] as int,
                ) && posts@[first@[k] as int].id@ == posts@[k].id@,
        decreases n - i,
    {
        let c = match first_index_in(posts, ids, ids[i].as_slice()) {
            Some(c) => c,
            None => {
                proof {
                    lemma_position_found(posts@, i as int);
                }
                0
            },
        };
        first.push(c);
        i = i + 1;
    }
    proof {
        reveal(canonical);
    }
    first
}

fn parent_links(posts: &Vec<PostView>, ids: &Vec<Vec<char>>) -> (links: Vec<Vec<Option<usize>>>)
    requires
        ids@.len() == posts@.len(),
        forall|k: int| 0 <= k < ids@.len() ==> #[trigger] ids@[k]@ == posts@[k].id@,
    ensures
        links_ok(posts@, links@),
{
    let n = posts.len();
    let mut links: Vec<Vec<Option<usize>>> = Vec::new();
    let mut i: usize = 0;
    while i < n
        invariant
            n == posts@.len(),
            ids@.len() == n,
            forall|k: int| 0 <= k < n ==> #[trigger] ids@[k]@ == posts@[k].id@,
            i <= n,
            links@.len() == i,
            forall|k: int|
                0 <= k < i ==> (#[trigger] links@[k])@.len() == parents_of(posts@[k]).len()
                    && forall|t: int|
                    0 <= t < links@[k]@.len() ==> match #[trigger] links@[k]@[t] {
                        Some(c) => c < n && position_of(posts@, parents_of(posts@[k])[t]) == Some(c as int)
                            && posts@[c as int].id@ == parents_of(posts@[k])[t],
                        None => position_of(posts@, parents_of(posts@[k])[t]) is None,
                    },
        decreases n - i,
    {
        let parents = &posts[i].parent_post_ids;
        let mut ls: Vec<Option<usize>> = Vec::new();
        let mut t: usize = 0;
        while t < parents.len()
            invariant
                n == posts@.len(),
                ids@.len() == n,
                forall|k: int| 0 <= k < n ==> #[trigger] ids@[k]@ == posts@[k].id@,
                i < n,
                parents@ == posts@[i as int].parent_post_ids@,
                t <= parents@.len(),
                ls@.len() == t,
                forall|q: int|
                    0 <= q < t ==> match #[trigger] ls@[q] {
                        Some(c) => c < n && position_of(posts@, parents_of(posts@[i as int])[q]) == Some(c as int)
                            && posts@[c as int].id@ == parents_of(posts@[i as int])[q],
                        None => position_of(posts@, parents_of(posts@[i as int])[q]) is None,
                    },
            decreases parents@.len() - t,
        {
            let pc = chars_of(parents[t].as_str());
            assert(parents_of(posts@[i as int])[t as int] == pc@);
            ls.push(first_index_in(posts, ids, pc.as_slice()));
            t = t + 1;
        }
        links.push(ls);
        i = i + 1;
    }
    proof {
        reveal(links_ok);
    }
    links
}

/// Rank 0: the canonical positions of the posts that answer nothing, or of the first oldest post.
#[verifier::rlimit(60)]
fn initial_ranks(posts: &Vec<PostView>, first: &Vec<usize>, keys: &Vec<String>) -> (r: (Vec<Option<usize>>, usize))
    requires
        canonical(posts@, first@),
        keys@.len() == posts@.len(),
        forall|k: int| 0 <= k < keys@.len() ==> #[trigger] keys@[k]@ == posts@[k].created_at@,
    ensures
        ranks_ok(posts@, first@, r.0@, 0),
        r.0@.len() == posts@.len(),
        posts@.len() > 0 ==> r.1 > 0,
        r.1 as nat == ranked_count(r.0@),
        r.1 <= posts@.len(),
{
    let n = posts.len();
    let mut rank: Vec<Option<usize>> = Vec::new();
    let mut i: usize = 0;
    while i < n
        invariant
            i <= n,
            rank@.len() == i,
            forall|k: int| 0 <= k < i ==> #[trigger] rank@[k] is None,
        decreases n - i,
    {
        rank.push(None);
        i = i + 1;
    }
    let mut count: usize = 0;
    proof {
        assert(rank@ =~= Seq::<Option<usize>>::new(n as nat, |k: int| None));
        lemma_none_found(n as nat);
    }
    let mut any_root = false;
    proof {
        lemma_canonical_len(posts@, first@);
    }
    let mut i: usize = 0;
    while i < n
        invariant
            n == posts@.len(),
            canonical(posts@, first@),
            first@.len() == n,
            forall|q: int| 0 <= q < n ==> #[trigger] first@[q] < n,
            i <= n,
            rank@.len() == n,
            count as nat == ranked_count(rank@),
            count <= n,
            count == 0 ==> forall|q: int| 0 <= q < n ==> #[trigger] rank@[q] is None,
            any_root ==> count > 0,
            any_root == exists|j: int| 0 <= j < i && #[trigger] parents_of(posts@[j]).len() == 0,
            forall|q: int| 0 <= q < n && #[trigger] rank@[q] is Some ==> first@[q] == q && rank@[q] == Some(0usize)
                && exists|j: int| 0 <= j < i && posts@[j].id@ == posts@[q].id@ && #[trigger] parents_of(posts@[j]).len() == 0,
            forall|j: int| 0 <= j < i && #[trigger] parents_of(posts@[j]).len() == 0 ==> rank@[first@[j] as int] is Some,
        decreases n - i,
    {
        assert(parents_of(posts@[i as int]).len() == posts@[i as int].parent_post_ids@.len());
        proof {
            lemma_canonical_at(posts@, first@, i as int);
        }
        if posts[i].parent_post_ids.len() == 0 {
            any_root = true;
            let c = first[i];
            if rank[c].is_none() {
                proof {
                    lemma_found_grows(rank@, c as int, 0);
                }
                rank.set(c, Some(0));
                count = count + 1;
            }
        }
        i = i + 1;
    }
    if !any_root && n > 0 {
        let o = match first_least_index(keys) {
            Some(o) => o,
            None => 0,
        };
        proof {
            lemma_first_least_congruent(key_order(keys@, false), created_order(posts@), n as int);
            lemma_first_least_bounds(created_order(posts@), n as int);
        }
        proof {
            lemma_canonical_at(posts@, first@, o as int);
        }
        let c = first[o];
        proof {
            lemma_found_grows(rank@, c as int, 0);
        }
        rank.set(c, Some(0));
        count = count + 1;
    }
    proof {
        reveal(ranks_ok);
        assert forall|q: int| 0 <= q < rank@.len() && first@[q] == q implies match #[trigger] rank@[q] {
            Some(d) => d <= 0 && has_rank(posts@, posts@[q].id@, d as nat),
            None => !reached(posts@, posts@[q].id@, 0),
        } by {
            lemma_canonical_at(posts@, first@, q);
            if any_root {
                assert(has_root(posts@));
                if rank@[q] is None {
                    if is_source(posts@, posts@[q].id@) {
                        let j = choose|j: int| 0 <= j < posts@.len() && posts@[j].id@ == posts@[q].id@ && #[trigger] parents_of(posts@[j]).len() == 0;
                        lemma_canonical_at(posts@, first@, j);
                        assert(rank@[first@[j] as int] is Some);
                        assert(first@[j] == first@[q]);
                    }
                } else {
                    let j = choose|j: int| 0 <= j < n && posts@[j].id@ == posts@[q].id@ && #[trigger] parents_of(posts@[j]).len() == 0;
                    assert(is_source(posts@, posts@[q].id@));
                }
            } else {
                assert(!has_root(posts@));
            }
        }
    }
    (rank, count)
}

/// Whether link `l` points at a post ranked `k` or less.
spec fn link_ranked(l: Option<usize>, rank: Seq<Option<usize>>, k: usize) -> bool {
    match l {
        Some(c) => match rank[c as int] {
            Some(d) => d <= k,
            None => false,
        },
        None => false,
    }
}

/// Whether some link points at a post ranked `k` or less.
fn links_ranked(ls: &Vec<Option<usize>>, rank: &Vec<Option<usize>>, k: usize) -> (r: bool)
    requires
        forall|t: int| 0 <= t < ls@.len() ==> (#[trigger] ls@[t] matches Some(c) ==> c < rank@.len()),
    ensures
        r == exists|t: int| 0 <= t < ls@.len() && link_ranked(#[trigger] ls@[t], rank@, k),
{
    let mut t: usize = 0;
    while t < ls.len()
        invariant
            t <= ls@.len(),
            forall|q: int| 0 <= q < ls@.len() ==> (#[trigger] ls@[q] matches Some(c) ==> c < rank@.len()),
            forall|q: int| 0 <= q < t ==> !link_ranked(#[trigger] ls@[q], rank@, k),
        decreases ls@.len() - t,
    {
        match ls[t] {
            Some(p) => {
                match rank[p] {
                    Some(d) => {
                        if d <= k {
                            return true;
                        }
                    },
                    None => {},
                }
            },
            None => {},
        }
        t = t + 1;
    }
    false
}

/// One round: ranks `k + 1` every canonical post, not ranked yet, that answers a post ranked `k` or
/// less. Returns whether any was.
#[verifier::rlimit(60)]
fn rank_round(
    posts: &Vec<PostView>,
    first: &Vec<usize>,
    links: &Vec<Vec<Option<usize>>>,
    rank: &mut Vec<Option<usize>>,
    count: &mut usize,
    k: usize,
) -> (grew: bool)
    requires
        canonical(posts@, first@),
        links_ok(posts@, links@),
        ranks_ok(posts@, first@, old(rank)@, k as nat),
        old(rank)@.len() == posts@.len(),
        *old(count) as nat == ranked_count(old(rank)@),
        *old(count) <= posts@.len(),
        k <= posts@.len(),
        posts@.len() < usize::MAX,
    ensures
        ranks_ok(posts@, first@, final(rank)@, (k + 1) as nat),
        final(rank)@.len() == posts@.len(),
        !grew ==> final(rank)@ == old(rank)@,
        *final(count) as nat == ranked_count(final(rank)@),
        *final(count) <= posts@.len(),
        grew ==> *final(count) > *old(count),
        !grew ==> forall|u: Seq<char>| #[trigger] reached(posts@, u, (k + 1) as nat) ==> reached(posts@, u, k as nat),
{
    let n = posts.len();
    let before = *count;
    let ghost start = rank@;
    proof {
        lemma_canonical_len(posts@, first@);
    }
    let mut j: usize = 0;
    while j < n
        invariant
            n == posts@.len(),
            n < usize::MAX,
            k <= n,
            canonical(posts@, first@),
            first@.len() == n,
            forall|q: int| 0 <= q < n ==> #[trigger] first@[q] < n,
            links_ok(posts@, links@),
            ranks_ok(posts@, first@, start, k as nat),
            start.len() == n,
            rank@.len() == n,
            *count as nat == ranked_count(rank@),
            *count <= n,
            before <= *count,
            j <= n,
            forall|q: int| 0 <= q < n && #[trigger] start[q] is Some ==> rank@[q] == start[q],
            forall|q: int|
                0 <= q < n && #[trigger] rank@[q] is Some && start[q] is None ==> first@[q] == q && rank@[q] == Some((k + 1) as usize)
                    && has_rank(posts@, posts@[q].id@, (k + 1) as nat),
            (*count == before) == (forall|q: int| 0 <= q < n ==> #[trigger] rank@[q] == start[q]),
            forall|q: int| 0 <= q < j && #[trigger] answers_ranked(links@, start, q) ==> rank@[first@[q] as int] is Some,
        decreases n - j,
    {
        proof {
            lemma_canonical_at(posts@, first@, j as int);
            lemma_link_at(posts@, links@, j as int, 0);
        }
        let c = first[j];
        if rank[c].is_none() {
            let ls = &links[j];
            proof {
                assert forall|t: int| 0 <= t < ls@.len() implies (#[trigger] ls@[t] matches Some(p) ==> p < rank@.len()) by {
                    lemma_link_at(posts@, links@, j as int, t);
                }
            }
            let found = links_ranked(ls, rank, k);
            proof {
                assert forall|t: int| 0 <= t < ls@.len() implies
                    (link_ranked(#[trigger] ls@[t], rank@, k) <==> link_to_ranked(ls@[t], start)) by {
                    lemma_link_at(posts@, links@, j as int, t);
                    if ls@[t] is Some {
                        let p = ls@[t]->0 as int;
                        lemma_rank_at(posts@, first@, start, k as nat, p);
                    }
                }
                if found {
                    let q = choose|q: int| 0 <= q < ls@.len() && link_ranked(#[trigger] ls@[q], rank@, k);
                    assert(link_to_ranked(links@[j as int]@[q], start));
                } else if answers_ranked(links@, start, j as int) {
                    let q = choose|q: int| 0 <= q < links@[j as int]@.len() && link_to_ranked(#[trigger] links@[j as int]@[q], start);
                    assert(link_ranked(ls@[q], rank@, k));
                }
                assert(found == answers_ranked(links@, start, j as int));
            }
            if found {
                proof {
                    assert(start[c as int] is None);
                    lemma_new_rank(posts@, first@, links@, start, k as nat, j as int);
                    lemma_found_grows(rank@, c as int, (k + 1) as usize);
                }
                rank.set(c, Some(k + 1));
                *count = *count + 1;
                assert(rank@[c as int] != start[c as int]);
            }
        }
        j = j + 1;
    }
    proof {
        reveal(ranks_ok);
        assert forall|q: int| 0 <= q < rank@.len() && first@[q] == q implies match #[trigger] rank@[q] {
            Some(d) => d <= k + 1 && has_rank(posts@, posts@[q].id@, d as nat),
            None => !reached(posts@, posts@[q].id@, (k + 1) as nat),
        } by {
            if rank@[q] is None {
                assert(start[q] is None);
                if reached(posts@, posts@[q].id@, (k + 1) as nat) {
                    lemma_missing_parent(posts@, first@, links@, start, k as nat, q);
                    let j2 = choose|j2: int| 0 <= j2 < n && first@[j2] == q && #[trigger] answers_ranked(links@, start, j2);
                    assert(rank@[first@[j2] as int] is Some);
                }
            } else if start[q] is Some {
                assert(rank@[q] == start[q]);
            }
        }
    }
    if *count == before {
        proof {
            assert(rank@ =~= start);
            assert forall|u: Seq<char>| #[trigger] reached(posts@, u, (k + 1) as nat) implies reached(posts@, u, k as nat) by {
                lemma_reached_is_post(posts@, u, (k + 1) as nat);
                let j2 = choose|j2: int| 0 <= j2 < posts@.len() && posts@[j2].id@ == u;
                let c2 = first@[j2] as int;
                lemma_canonical_at(posts@, first@, j2);
                assert(posts@[c2].id@ == u);
                lemma_rank_at(posts@, first@, start, k as nat, c2);
                if start[c2] is Some {
                    lemma_reached_mono(posts@, u, start[c2]->0 as nat, k as nat);
                }
            }
        }
        false
    } else {
        true
    }
}

/// Ranks every post: the rank of its id, or `None` when no chain of replies leads to it from a
/// rank-0 id.
pub fn assign_ranks(posts: &Vec<PostView>) -> (r: Vec<Option<usize>>)
    requires
        posts@.len() < usize::MAX,
    ensures
        r@.len() == posts@.len(),
        forall|i: int|
            0 <= i < posts@.len() ==> match #[trigger] r@[i] {
                Some(d) => d < posts@.len() && has_rank(posts@, posts@[i].id@, d as nat),
                None => forall|k: nat| !#[trigger] reached(posts@, posts@[i].id@, k),
            },
        r@ == rank_table(posts@),
{
    let n = posts.len();
    let mut ids: Vec<Vec<char>> = Vec::new();
    let mut keys: Vec<String> = Vec::new();
    let mut i: usize = 0;
    while i < n
        invariant
            n == posts@.len(),
            i <= n,
            ids@.len() == i,
            keys@.len() == i,
            forall|k: int| 0 <= k < i ==> #[trigger] ids@[k]@ == posts@[k].id@,
            forall|k: int| 0 <= k < i ==> #[trigger] keys@[k]@ == posts@[k].created_at@,
        decreases n - i,
    {
        ids.push(chars_of(posts[i].id.as_str()));
        keys.push(posts[i].created_at.clone());
        i = i + 1;
    }
    let first = canonical_positions(posts, &ids);
    let links = parent_links(posts, &ids);
    let (mut rank, mut count) = initial_ranks(posts, &first, &keys);
    if n == 0 {
        return Vec::new();
    }
    let mut k: usize = 0;
    loop
        invariant
            n == posts@.len(),
            0 < n < usize::MAX,
            canonical(posts@, first@),
            links_ok(posts@, links@),
            ranks_ok(posts@, first@, rank@, k as nat),
            rank@.len() == n,
            count as nat == ranked_count(rank@),
            count <= n,
            k < count,
        ensures
            ranks_ok(posts@, first@, rank@, k as nat),
            rank@.len() == n,
            k < n,
            forall|u: Seq<char>| #[trigger] reached(posts@, u, (k + 1) as nat) ==> reached(posts@, u, k as nat),
        decreases n - count,
    {
        let grew = rank_round(posts, &first, &links, &mut rank, &mut count, k);
        if !grew {
            break ;
        }
        k = k + 1;
    }
    let mut out: Vec<Option<usize>> = Vec::new();
    proof {
        lemma_canonical_len(posts@, first@);
    }
    let mut i: usize = 0;
    while i < n
        invariant
            n == posts@.len(),
            canonical(posts@, first@),
            first@.len() == n,
            rank@.len() == n,
            k < n,
            ranks_ok(posts@, first@, rank@, k as nat),
            forall|u: Seq<char>| #[trigger] reached(posts@, u, (k + 1) as nat) ==> reached(posts@, u, k as nat),
            i <= n,
            out@.len() == i,
            forall|q: int|
                0 <= q < i ==> match #[trigger] out@[q] {
                    Some(d) => d < n && has_rank(posts@, posts@[q].id@, d as nat),
                    None => forall|m: nat| !#[trigger] reached(posts@, posts@[q].id@, m),
                },
        decreases n - i,
    {
        let c = first[i];
        proof {
            lemma_canonical_at(posts@, first@, i as int);
            lemma_rank_at(posts@, first@, rank@, k as nat, c as int);
            if rank@[c as int] is None {
                assert forall|m: nat| !#[trigger] reached(posts@, posts@[i as int].id@, m) by {
                    if reached(posts@, posts@[i as int].id@, m) {
                        if m <= k {
                            lemma_reached_mono(posts@, posts@[i as int].id@, m, k as nat);
                        } else {
                            lemma_reached_stable(posts@, k as nat, m, posts@[i as int].id@);
                        }
                    }
                }
            }
        }
        out.push(rank[c]);
        i = i + 1;
    }
    proof {
        assert forall|q: int| 0 <= q < n implies #[trigger] out@[q] == rank_table(posts@)[q] by {
            let v = posts@[q].id@;
            match out@[q] {
                Some(d) => {
                    assert(has_rank(posts@, v, d as nat));
                    let c = choose|e: nat| has_rank(posts@, v, e);
                    lemma_rank_unique(posts@, v, d as nat, c);
                },
                None => {
                    if exists|e: nat| has_rank(posts@, v, e) {
                        let c = choose|e: nat| has_rank(posts@, v, e);
                        assert(reached(posts@, v, c));
                    }
                },
            }
        }
        assert(out@ =~= rank_table(posts@));
    }
    out
}

/// The layers of the hierarchical view of a thread, from rank 0 down, each holding positions of
/// posts (the first post of each id).
pub fn sugiyama_layers(posts: &Vec<PostView>) -> (r: Vec<Vec<usize>>)
    requires
        posts@.len() < usize::MAX,
    ensures
        r@.len() == top_rank(posts@, rank_table(posts@), posts@.len() as int) + 1,
        forall|d: int|
            0 <= d < r@.len() ==> (#[trigger] r@[d])@.map_values(|i: usize| i as int) == layer_at(
                posts@,
                rank_table(posts@),
                d as nat,
            ),
{
    let ranks = assign_ranks(posts);
    order_layers(posts, &ranks)
}

/// Whether post `q` is the first post with its id.
#[verifier::opaque]
pub open spec fn is_first(posts: Seq<PostView>, q: int) -> bool {
    position_of(posts, posts[q].id@) == Some(q)
}

/// The positions below `n`, in thread order, of the first posts of their ids that `ranks` puts at
/// rank `d`.
pub open spec fn rank_members(posts: Seq<PostView>, ranks: Seq<Option<usize>>, d: int, n: int) -> Seq<int>
    decreases n,
{
    if n <= 0 {
        Seq::empty()
    } else if is_first(posts, n - 1) && ranks[n - 1] == Some(d as usize) {
        rank_members(posts, ranks, d, n - 1).push(n - 1)
    } else {
        rank_members(posts, ranks, d, n - 1)
    }
}

/// The highest rank that `ranks` gives the first post of an id among the first `n` posts, or -1.
pub open spec fn top_rank(posts: Seq<PostView>, ranks: Seq<Option<usize>>, n: int) -> int
    decreases n,
{
    if n <= 0 {
        -1
    } else {
        let m = top_rank(posts, ranks, n - 1);
        match ranks[n - 1] {
            Some(d) => if is_first(posts, n - 1) && d > m {
                d as int
            } else {
                m
            },
            None => m,
        }
    }
}

/// The ids that the first `n` posts with id `v` answer, in thread order.
pub open spec fn all_parents(posts: Seq<PostView>, v: Seq<char>, n: int) -> Seq<Seq<char>>
    decreases n,
{
    if n <= 0 {
        Seq::empty()
    } else if posts[n - 1].id@ == v {
        all_parents(posts, v, n - 1) + parents_of(posts[n - 1])
    } else {
        all_parents(posts, v, n - 1)
    }
}

/// The first place among the first `m` entries of `layer` that holds a post with id `x`.
pub open spec fn place_in(posts: Seq<PostView>, layer: Seq<int>, x: Seq<char>, m: int) -> Option<int>
    decreases m,
{
    if m <= 0 {
        None
    } else {
        match place_in(posts, layer, x, m - 1) {
            Some(i) => Some(i),
            None => if posts[layer[m - 1]].id@ == x {
                Some(m - 1)
            } else {
                None
            },
        }
    }
}

/// The sum of the places in `layer` of the ids in `xs`; an id that the layer lacks adds nothing.
pub open spec fn place_sum(posts: Seq<PostView>, layer: Seq<int>, xs: Seq<Seq<char>>) -> int
    decreases xs.len(),
{
    if xs.len() == 0 {
        0
    } else {
        place_sum(posts, layer, xs.drop_last()) + match place_in(posts, layer, xs.last(), layer.len() as int) {
            Some(i) => i,
            None => 0,
        }
    }
}

/// The key by which post `q` is placed in its layer: the mean place, in the layer above, of the
/// ids its id answers (rounded down, 0 when it answers nothing).
pub open spec fn layer_key(posts: Seq<PostView>, prev: Seq<int>, q: int) -> int {
    let ps = all_parents(posts, posts[q].id@, posts.len() as int);
    if ps.len() == 0 {
        0
    } else {
        place_sum(posts, prev, ps) / (ps.len() as int)
    }
}

/// Layer `d`: rank 0 in thread order; each later rank stably ordered by `layer_key` against the
/// layer above it.
pub open spec fn layer_at(posts: Seq<PostView>, ranks: Seq<Option<usize>>, d: nat) -> Seq<int>
    decreases d,
{
    let members = rank_members(posts, ranks, d as int, posts.len() as int);
    if d == 0 {
        members
    } else {
        let prev = layer_at(posts, ranks, (d - 1) as nat);
        stable_sorted(|a: int, b: int| layer_key(posts, prev, a) < layer_key(posts, prev, b), members)
    }
}

proof fn lemma_rank_members_bounds(posts: Seq<PostView>, ranks: Seq<Option<usize>>, d: int, n: int)
    ensures
        forall|p: int| 0 <= p < rank_members(posts, ranks, d, n).len() ==> 0 <= #[trigger] rank_members(posts, ranks, d, n)[p] < n,
        rank_members(posts, ranks, d, n).len() <= if n < 0 { 0 } else { n },
    decreases n,
{
    if n > 0 {
        lemma_rank_members_bounds(posts, ranks, d, n - 1);
    }
}

proof fn lemma_layer_bounds(posts: Seq<PostView>, ranks: Seq<Option<usize>>, d: nat)
    ensures
        forall|p: int| 0 <= p < layer_at(posts, ranks, d).len() ==> 0 <= #[trigger] layer_at(posts, ranks, d)[p] < posts.len(),
{
    let members = rank_members(posts, ranks, d as int, posts.len() as int);
    lemma_rank_members_bounds(posts, ranks, d as int, posts.len() as int);
    if d > 0 {
        let prev = layer_at(posts, ranks, (d - 1) as nat);
        let before = |a: int, b: int| layer_key(posts, prev, a) < layer_key(posts, prev, b);
        lemma_stable_sorted_members(before, members);
        assert forall|p: int| 0 <= p < layer_at(posts, ranks, d).len() implies 0 <= #[trigger] layer_at(posts, ranks, d)[p] < posts.len() by {
            assert(members.contains(stable_sorted(before, members)[p]));
        }
    }
}

/// The positions of the first posts of their ids at rank `d`, in thread order.
#[verifier::rlimit(40)]
fn members_at(posts: &Vec<PostView>, first: &Vec<usize>, ranks: &Vec<Option<usize>>, d: usize) -> (r: Vec<usize>)
    requires
        canonical(posts@, first@),
        ranks@.len() == posts@.len(),
    ensures
        r@.map_values(|i: usize| i as int) == rank_members(posts@, ranks@, d as int, posts@.len() as int),
{
    let n = posts.len();
    proof {
        lemma_canonical_len(posts@, first@);
    }
    let mut r: Vec<usize> = Vec::new();
    let mut q: usize = 0;
    while q < n
        invariant
            n == posts@.len(),
            ranks@.len() == n,
            canonical(posts@, first@),
            first@.len() == n,
            q <= n,
            r@.map_values(|i: usize| i as int) == rank_members(posts@, ranks@, d as int, q as int),
        decreases n - q,
    {
        proof {
            lemma_canonical_at(posts@, first@, q as int);
        }
        let hit = match ranks[q] {
            Some(e) => e == d,
            None => false,
        };
        let ghost prior = r@;
        let ghost cond = is_first(posts@, q as int) && ranks@[q as int] == Some(d);
        proof {
            lemma_is_first(posts@, first@, q as int);
        }
        assert((first@[q as int] == q && hit) == cond);
        assert(rank_members(posts@, ranks@, d as int, q + 1) == if cond {
            rank_members(posts@, ranks@, d as int, q as int).push(q as int)
        } else {
            rank_members(posts@, ranks@, d as int, q as int)
        });
        if first[q] == q && hit {
            r.push(q);
            assert(r@.map_values(|i: usize| i as int) =~= prior.map_values(|i: usize| i as int).push(q as int));
        }
        q = q + 1;
    }
    r
}

/// The highest rank of a first post of its id, if any.
#[verifier::spinoff_prover]
#[verifier::rlimit(40)]
fn highest_rank(posts: &Vec<PostView>, first: &Vec<usize>, ranks: &Vec<Option<usize>>) -> (r: Option<usize>)
    requires
        canonical(posts@, first@),
        ranks@.len() == posts@.len(),
    ensures
        match r {
            Some(m) => top_rank(posts@, ranks@, posts@.len() as int) == m,
            None => top_rank(posts@, ranks@, posts@.len() as int) == -1,
        },
{
    let n = posts.len();
    proof {
        lemma_canonical_len(posts@, first@);
    }
    let mut r: Option<usize> = None;
    let mut q: usize = 0;
    while q < n
        invariant
            n == posts@.len(),
            ranks@.len() == n,
            canonical(posts@, first@),
            first@.len() == n,
            q <= n,
            match r {
                Some(m) => top_rank(posts@, ranks@, q as int) == m,
                None => top_rank(posts@, ranks@, q as int) == -1,
            },
        decreases n - q,
    {
        proof {
            lemma_canonical_at(posts@, first@, q as int);
            lemma_is_first(posts@, first@, q as int);
        }
        if first[q] == q {
            match ranks[q] {
                Some(d) => {
                    match r {
                        Some(m) => {
                            if d > m {
                                r = Some(d);
                            }
                        },
                        None => {
                            r = Some(d);
                        },
                    }
                },
                None => {},
            }
        }
        q = q + 1;
    }
    r
}

/// The ids that the posts with id `v` answer, in thread order.
fn parents_named(posts: &Vec<PostView>, ids: &Vec<Vec<char>>, v: &[char]) -> (r: Vec<Vec<char>>)
    requires
        ids@.len() == posts@.len(),
        forall|k: int| 0 <= k < ids@.len() ==> #[trigger] ids@[k]@ == posts@[k].id@,
    ensures
        r@.map_values(|c: Vec<char>| c@) == all_parents(posts@, v@, posts@.len() as int),
{
    let n = posts.len();
    let mut r: Vec<Vec<char>> = Vec::new();
    let mut j: usize = 0;
    while j < n
        invariant
            n == posts@.len(),
            ids@.len() == n,
            forall|k: int| 0 <= k < n ==> #[trigger] ids@[k]@ == posts@[k].id@,
            j <= n,
            r@.map_values(|c: Vec<char>| c@) == all_parents(posts@, v@, j as int),
        decreases n - j,
    {
        if chars_equal(ids[j].as_slice(), v) {
            let parents = &posts[j].parent_post_ids;
            let ghost base = r@.map_values(|c: Vec<char>| c@);
            let mut t: usize = 0;
            while t < parents.len()
                invariant
                    j < n,
                    n == posts@.len(),
                    parents@ == posts@[j as int].parent_post_ids@,
                    t <= parents@.len(),
                    r@.map_values(|c: Vec<char>| c@) == base + parents_of(posts@[j as int]).subrange(0, t as int),
                decreases parents@.len() - t,
            {
                let c = chars_of(parents[t].as_str());
                assert(c@ == parents_of(posts@[j as int])[t as int]);
                let ghost prior = r@;
                r.push(c);
                assert(r@.map_values(|c: Vec<char>| c@) =~= prior.map_values(|c: Vec<char>| c@).push(c@));
                assert(parents_of(posts@[j as int]).subrange(0, t + 1) =~= parents_of(posts@[j as int]).subrange(0, t as int).push(c@));
                assert(r@.map_values(|c: Vec<char>| c@) =~= base + parents_of(posts@[j as int]).subrange(0, t + 1));
                t = t + 1;
            }
            assert(parents_of(posts@[j as int]).subrange(0, t as int) =~= parents_of(posts@[j as int]));
        }
        j = j + 1;
    }
    r
}

/// The first place in `layer` that holds a post with id `x`.
fn place_of(posts: &Vec<PostView>, ids: &Vec<Vec<char>>, layer: &Vec<usize>, x: &[char]) -> (r: Option<usize>)
    requires
        ids@.len() == posts@.len(),
        forall|k: int| 0 <= k < ids@.len() ==> #[trigger] ids@[k]@ == posts@[k].id@,
        forall|p: int| 0 <= p < layer@.len() ==> #[trigger] layer@[p] < posts@.len(),
    ensures
        match r {
            Some(i) => place_in(posts@, layer@.map_values(|i: usize| i as int), x@, layer@.len() as int) == Some(i as int),
            None => place_in(posts@, layer@.map_values(|i: usize| i as int), x@, layer@.len() as int) is None,
        },
{
    let ghost lay = layer@.map_values(|i: usize| i as int);
    let mut m: usize = 0;
    while m < layer.len()
        invariant
            lay == layer@.map_values(|i: usize| i as int),
            ids@.len() == posts@.len(),
            forall|k: int| 0 <= k < ids@.len() ==> #[trigger] ids@[k]@ == posts@[k].id@,
            forall|p: int| 0 <= p < layer@.len() ==> #[trigger] layer@[p] < posts@.len(),
            m <= layer@.len(),
            place_in(posts@, lay, x@, m as int) is None,
        decreases layer@.len() - m,
    {
        if chars_equal(ids[layer[m]].as_slice(), x) {
            proof {
                lemma_place_found(posts@, lay, x@, m as int, layer@.len() as int);
            }
            return Some(m);
        }
        m = m + 1;
    }
    None
}

proof fn lemma_place_found(posts: Seq<PostView>, layer: Seq<int>, x: Seq<char>, i: int, m: int)
    requires
        0 <= i < m,
        place_in(posts, layer, x, i) is None,
        posts[layer[i]].id@ == x,
    ensures
        place_in(posts, layer, x, m) == Some(i),
    decreases m,
{
    if m > i + 1 {
        lemma_place_found(posts, layer, x, i, m - 1);
    }
}

/// The layer key of every post against the layer `prev` above.
fn layer_keys(posts: &Vec<PostView>, ids: &Vec<Vec<char>>, prev: &Vec<usize>) -> (r: Vec<usize>)
    requires
        ids@.len() == posts@.len(),
        forall|k: int| 0 <= k < ids@.len() ==> #[trigger] ids@[k]@ == posts@[k].id@,
        forall|p: int| 0 <= p < prev@.len() ==> #[trigger] prev@[p] < posts@.len(),
    ensures
        r@.len() == posts@.len(),
        forall|q: int| 0 <= q < posts@.len() ==> #[trigger] r@[q] as int == layer_key(posts@, prev@.map_values(|i: usize| i as int), q),
{
    let n = posts.len();
    let ghost lay = prev@.map_values(|i: usize| i as int);
    let mut r: Vec<usize> = Vec::new();
    let mut q: usize = 0;
    while q < n
        invariant
            n == posts@.len(),
            lay == prev@.map_values(|i: usize| i as int),
            ids@.len() == n,
            forall|k: int| 0 <= k < n ==> #[trigger] ids@[k]@ == posts@[k].id@,
            forall|p: int| 0 <= p < prev@.len() ==> #[trigger] prev@[p] < n,
            q <= n,
            r@.len() == q,
            forall|k: int| 0 <= k < q ==> #[trigger] r@[k] as int == layer_key(posts@, lay, k),
        decreases n - q,
    {
        let ps = parents_named(posts, ids, ids[q].as_slice());
        let ghost xs = ps@.map_values(|c: Vec<char>| c@);
        let plen = prev.len();
        let count = ps.len();
        let mut sum: u128 = 0;
        let mut t: usize = 0;
        while t < count
            invariant
                n == posts@.len(),
                lay == prev@.map_values(|i: usize| i as int),
                ids@.len() == n,
                forall|k: int| 0 <= k < n ==> #[trigger] ids@[k]@ == posts@[k].id@,
                forall|p: int| 0 <= p < prev@.len() ==> #[trigger] prev@[p] < n,
                xs == ps@.map_values(|c: Vec<char>| c@),
                plen == prev@.len(),
                count == ps@.len(),
                t <= count,
                sum as int == place_sum(posts@, lay, xs.subrange(0, t as int)),
                sum <= t * plen,
            decreases count - t,
        {
            let found = place_of(posts, ids, prev, ps[t].as_slice());
            proof {
                assert(xs.subrange(0, t + 1).drop_last() =~= xs.subrange(0, t as int));
                assert(xs.subrange(0, t + 1).last() == ps@[t as int]@);
                assert((t + 1) * plen == t * plen + plen) by (nonlinear_arith);
                assert(t * plen <= usize::MAX * usize::MAX) by (nonlinear_arith)
                    requires t <= usize::MAX, plen <= usize::MAX;
            }
            match found {
                Some(i) => {
                    proof {
                        lemma_place_bound(posts@, lay, ps@[t as int]@, plen as int);
                    }
                    sum = sum + i as u128;
                },
                None => {},
            }
            t = t + 1;
        }
        proof {
            assert(xs.subrange(0, t as int) =~= xs);
            assert(xs == all_parents(posts@, posts@[q as int].id@, n as int));
        }
        let key: usize = if count == 0 {
            0
        } else {
            let avg = sum / (count as u128);
            proof {
                vstd::arithmetic::div_mod::lemma_div_is_ordered(sum as int, count * plen, count as int);
                vstd::arithmetic::div_mod::lemma_div_multiples_vanish(plen as int, count as int);
            }
            avg as usize
        };
        r.push(key);
        q = q + 1;
    }
    r
}

proof fn lemma_is_first(posts: Seq<PostView>, first: Seq<usize>, q: int)
    requires
        canonical(posts, first),
        0 <= q < posts.len(),
    ensures
        is_first(posts, q) == (first[q] == q),
{
    reveal(is_first);
    lemma_canonical_at(posts, first, q);
}

proof fn lemma_top_rank_bound(posts: Seq<PostView>, ranks: Seq<Option<usize>>, n: int)
    requires
        n <= ranks.len(),
        forall|q: int| 0 <= q < ranks.len() ==> (#[trigger] ranks[q] matches Some(d) ==> d < posts.len()),
    ensures
        top_rank(posts, ranks, n) < posts.len(),
    decreases n,
{
    if n > 0 {
        lemma_top_rank_bound(posts, ranks, n - 1);
        assert(ranks[n - 1] matches Some(d) ==> d < posts.len());
    }
}

proof fn lemma_place_bound(posts: Seq<PostView>, layer: Seq<int>, x: Seq<char>, m: int)
    ensures
        place_in(posts, layer, x, m) matches Some(i) ==> 0 <= i < m,
    decreases m,
{
    if m > 0 {
        lemma_place_bound(posts, layer, x, m - 1);
    }
}

/// The layers of the hierarchical view, from rank 0 down: layer `d` holds the first post of each
/// id that `ranks` puts at rank `d`; rank 0 is in thread order and each later layer is stably
/// ordered by the mean place of its parents in the layer above.
pub fn order_layers(posts: &Vec<PostView>, ranks: &Vec<Option<usize>>) -> (r: Vec<Vec<usize>>)
    requires
        ranks@.len() == posts@.len(),
        forall|q: int| 0 <= q < ranks@.len() ==> (#[trigger] ranks@[q] matches Some(d) ==> d < posts@.len()),
    ensures
        r@.len() == top_rank(posts@, ranks@, posts@.len() as int) + 1,
        forall|d: int| 0 <= d < r@.len() ==> (#[trigger] r@[d])@.map_values(|i: usize| i as int) == layer_at(posts@, ranks@, d as nat),
{
    let n = posts.len();
    let mut ids: Vec<Vec<char>> = Vec::new();
    let mut i: usize = 0;
    while i < n
        invariant
            n == posts@.len(),
            i <= n,
            ids@.len() == i,
            forall|k: int| 0 <= k < i ==> #[trigger] ids@[k]@ == posts@[k].id@,
        decreases n - i,
    {
        ids.push(chars_of(posts[i].id.as_str()));
        i = i + 1;
    }
    let first = canonical_positions(posts, &ids);
    let mut out: Vec<Vec<usize>> = Vec::new();
    let top = match highest_rank(posts, &first, ranks) {
        Some(m) => m,
        None => {
            return out;
        },
    };
    proof {
        lemma_top_rank_bound(posts@, ranks@, n as int);
    }
    let mut d: usize = 0;
    while d <= top
        invariant
            n == posts@.len(),
            top < n,
            ranks@.len() == n,
            ids@.len() == n,
            forall|k: int| 0 <= k < n ==> #[trigger] ids@[k]@ == posts@[k].id@,
            canonical(posts@, first@),
            top_rank(posts@, ranks@, n as int) == top,
            d <= top + 1,
            out@.len() == d,
            forall|e: int| 0 <= e < d ==> (#[trigger] out@[e])@.map_values(|i: usize| i as int) == layer_at(posts@, ranks@, e as nat),
            forall|e: int, p: int| 0 <= e < d && 0 <= p < out@[e]@.len() ==> #[trigger] out@[e]@[p] < n,
        decreases top + 1 - d,
    {
        let members = members_at(posts, &first, ranks, d);
        let ghost mem = members@.map_values(|i: usize| i as int);
        proof {
            lemma_rank_members_bounds(posts@, ranks@, d as int, n as int);
            assert forall|p: int| 0 <= p < members@.len() implies #[trigger] members@[p] < n by {
                assert(mem[p] == members@[p] as int);
            }
        }
        let layer: Vec<usize>;
        if d == 0 {
            layer = members;
        } else {
            let prev = &out[d - 1];
            let keys = layer_keys(posts, &ids, prev);
            let sorted = stable_sort(&keys, &members, false);
            proof {
                let lay = prev@.map_values(|i: usize| i as int);
                assert(lay == layer_at(posts@, ranks@, (d - 1) as nat));
                let spec_before = |a: int, b: int| layer_key(posts@, lay, a) < layer_key(posts@, lay, b);
                assert forall|x: int, y: int| mem.contains(x) && mem.contains(y) implies key_order(keys@, false)(x, y) == spec_before(x, y) by {
                    let px = choose|px: int| 0 <= px < mem.len() && mem[px] == x;
                    let py = choose|py: int| 0 <= py < mem.len() && mem[py] == y;
                    assert(mem[px] == members@[px] as int);
                    assert(mem[py] == members@[py] as int);
                    assert(keys@[x] as int == layer_key(posts@, lay, x));
                    assert(keys@[y] as int == layer_key(posts@, lay, y));
                }
                lemma_stable_sorted_congruent(key_order(keys@, false), spec_before, mem);
            }
            layer = sorted;
        }
        proof {
            assert(layer@.map_values(|i: usize| i as int) == layer_at(posts@, ranks@, d as nat));
            lemma_layer_bounds(posts@, ranks@, d as nat);
            assert forall|p: int| 0 <= p < layer@.len() implies #[trigger] layer@[p] < n by {
                assert(layer@.map_values(|i: usize| i as int)[p] == layer@[p] as int);
            }
        }
        out.push(layer);
        proof {
            assert(out@[d as int] == layer);
        }
        d = d + 1;
    }
    out
}

proof fn lemma_rank_at(posts: Seq<PostView>, first: Seq<usize>, rank: Seq<Option<usize>>, k: nat, q: int)
    requires
        ranks_ok(posts, first, rank, k),
        0 <= q < posts.len(),
    ensures
        rank.len() == posts.len(),
        rank[q] is Some ==> first[q] == q,
        first[q] == q ==> match rank[q] {
            Some(d) => d <= k && has_rank(posts, posts[q].id@, d as nat),
            None => !reached(posts, posts[q].id@, k),
        },
{
    reveal(ranks_ok);
}

proof fn lemma_position_found(posts: Seq<PostView>, i: int)
    requires
        0 <= i < posts.len(),
    ensures
        position_of(posts, posts[i].id@) is Some,
{
    assert(posts[i].id@ == posts[i].id@);
}

proof fn lemma_canonical_at(posts: Seq<PostView>, first: Seq<usize>, q: int)
    requires
        canonical(posts, first),
        0 <= q < posts.len(),
    ensures
        first.len() == posts.len(),
        first[q] < posts.len(),
        position_of(posts, posts[q].id@) == Some(first[q] as int),
        posts[first[q] as int].id@ == posts[q].id@,
        first[first[q] as int] == first[q],
{
    reveal(canonical);
    let c = first[q] as int;
    assert(posts[c].id@ == posts[q].id@);
    assert(position_of(posts, posts[c].id@) == Some(first[c] as int));
}

proof fn lemma_canonical_len(posts: Seq<PostView>, first: Seq<usize>)
    requires
        canonical(posts, first),
    ensures
        first.len() == posts.len(),
        forall|q: int| 0 <= q < posts.len() ==> #[trigger] first[q] < posts.len(),
{
    reveal(canonical);
}

proof fn lemma_link_at(posts: Seq<PostView>, links: Seq<Vec<Option<usize>>>, q: int, t: int)
    requires
        links_ok(posts, links),
        0 <= q < posts.len(),
    ensures
        links.len() == posts.len(),
        links[q]@.len() == parents_of(posts[q]).len(),
        0 <= t < links[q]@.len() ==> match links[q]@[t] {
            Some(c) => c < posts.len() && position_of(posts, parents_of(posts[q])[t]) == Some(c as int)
                && posts[c as int].id@ == parents_of(posts[q])[t],
            None => position_of(posts, parents_of(posts[q])[t]) is None,
        },
{
    reveal(links_ok);
}

/// Whether link `l` points at a post that `start` ranks.
spec fn link_to_ranked(l: Option<usize>, start: Seq<Option<usize>>) -> bool {
    match l {
        Some(c) => start[c as int] is Some,
        None => false,
    }
}

/// Whether post `q` answers, by one of its links, a post that `start` ranks.
spec fn answers_ranked(links: Seq<Vec<Option<usize>>>, start: Seq<Option<usize>>, q: int) -> bool {
    exists|t: int| 0 <= t < links[q]@.len() && link_to_ranked(#[trigger] links[q]@[t], start)
}

proof fn lemma_new_rank(
    posts: Seq<PostView>,
    first: Seq<usize>,
    links: Seq<Vec<Option<usize>>>,
    start: Seq<Option<usize>>,
    k: nat,
    j: int,
)
    requires
        ranks_ok(posts, first, start, k),
        canonical(posts, first),
        links_ok(posts, links),
        0 <= j < posts.len(),
        answers_ranked(links, start, j),
        start[first[j] as int] is None,
    ensures
        has_rank(posts, posts[first[j] as int].id@, k + 1),
{
    let t = choose|t: int| 0 <= t < links[j]@.len() && link_to_ranked(#[trigger] links[j]@[t], start);
    lemma_link_at(posts, links, j, t);
    let p = links[j]@[t]->0 as int;
    lemma_canonical_at(posts, first, j);
    lemma_rank_at(posts, first, start, k, p);
    let c = first[j] as int;
    let v = posts[j].id@;
    let x = posts[p].id@;
    lemma_rank_at(posts, first, start, k, c);
    let d = start[p]->0;
    lemma_reached_mono(posts, x, d as nat, k);
    assert(parents_of(posts[j])[t] == x);
    assert(answers(posts[j], x));
    assert(feeds(posts, x, v));
    assert(reached(posts, v, k + 1));
    assert(posts[c].id@ == v);
}

proof fn lemma_missing_parent(
    posts: Seq<PostView>,
    first: Seq<usize>,
    links: Seq<Vec<Option<usize>>>,
    start: Seq<Option<usize>>,
    k: nat,
    q: int,
)
    requires
        ranks_ok(posts, first, start, k),
        canonical(posts, first),
        links_ok(posts, links),
        0 <= q < posts.len(),
        first[q] == q,
        start[q] is None,
        reached(posts, posts[q].id@, k + 1),
    ensures
        exists|j2: int| 0 <= j2 < posts.len() && first[j2] == q && #[trigger] answers_ranked(links, start, j2),
{
    let v = posts[q].id@;
    lemma_rank_at(posts, first, start, k, q);
    assert(!reached(posts, v, k));
    assert(!is_source(posts, v));
    let x = choose|x: Seq<char>| #[trigger] feeds(posts, x, v) && reached(posts, x, k);
    let j2 = choose|j2: int| 0 <= j2 < posts.len() && posts[j2].id@ == v && #[trigger] answers(posts[j2], x);
    lemma_canonical_at(posts, first, j2);
    lemma_canonical_at(posts, first, q);
    assert(first[j2] == q);
    let t = choose|t: int| 0 <= t < parents_of(posts[j2]).len() && parents_of(posts[j2])[t] == x;
    lemma_reached_is_post(posts, x, k);
    let i2 = choose|i2: int| 0 <= i2 < posts.len() && posts[i2].id@ == x;
    assert(position_of(posts, x) is Some);
    lemma_link_at(posts, links, j2, t);
    let l = links[j2]@[t];
    assert(l is Some);
    let c = l->0 as int;
    assert(posts[c].id@ == x);
    lemma_canonical_at(posts, first, i2);
    lemma_canonical_at(posts, first, c);
    assert(first[c] == c);
    lemma_rank_at(posts, first, start, k, c);
    lemma_rank_at(posts, first, start, k, c);
    if start[c] is None {
        assert(!reached(posts, x, k));
    }
    assert(link_to_ranked(links[j2]@[t], start));
    assert(answers_ranked(links, start, j2));
}

proof fn lemma_rank_members_exact(posts: Seq<PostView>, ranks: Seq<Option<usize>>, d: int, n: int)
    ensures
        forall|q: int|
            #![trigger rank_members(posts, ranks, d, n).contains(q)]
            rank_members(posts, ranks, d, n).contains(q) <==> (0 <= q < n && is_first(posts, q) && ranks[q] == Some(
                d as usize,
            )),
        forall|p: int, r: int|
            0 <= p < r < rank_members(posts, ranks, d, n).len() ==> #[trigger] rank_members(posts, ranks, d, n)[p]
                < #[trigger] rank_members(posts, ranks, d, n)[r],
    decreases n,
{
    if n > 0 {
        lemma_rank_members_exact(posts, ranks, d, n - 1);
        lemma_rank_members_bounds(posts, ranks, d, n - 1);
        let prev = rank_members(posts, ranks, d, n - 1);
        let cur = rank_members(posts, ranks, d, n);
        assert forall|q: int| #![trigger cur.contains(q)]
            cur.contains(q) <==> (0 <= q < n && is_first(posts, q) && ranks[q] == Some(d as usize)) by {
            if cur.contains(q) && q != n - 1 {
                let k = choose|k: int| 0 <= k < cur.len() && cur[k] == q;
                if is_first(posts, n - 1) && ranks[n - 1] == Some(d as usize) {
                    assert(k < prev.len());
                    assert(prev[k] == q);
                    assert(prev.contains(q));
                } else {
                    assert(prev.contains(q));
                }
            }
            if 0 <= q < n && is_first(posts, q) && ranks[q] == Some(d as usize) {
                if q == n - 1 {
                    assert(cur[cur.len() - 1] == q);
                } else {
                    assert(prev.contains(q));
                    let k = choose|k: int| 0 <= k < prev.len() && prev[k] == q;
                    assert(cur[k] == q);
                }
            }
        }
    } else {
        assert(rank_members(posts, ranks, d, n) =~= Seq::<int>::empty());
    }
}

/// Layer `d` holds, once each, exactly the first posts of their ids that the ranks put at
/// rank `d`.
pub proof fn lemma_layer_members(posts: Seq<PostView>, ranks: Seq<Option<usize>>, d: nat, q: int)
    ensures
        layer_at(posts, ranks, d).contains(q) <==> (0 <= q < posts.len() && is_first(posts, q) && ranks[q] == Some(
            d as usize,
        )),
        layer_at(posts, ranks, d).no_duplicates(),
{
    let n = posts.len() as int;
    let members = rank_members(posts, ranks, d as int, n);
    lemma_rank_members_exact(posts, ranks, d as int, n);
    assert(members.no_duplicates()) by {
        assert forall|p: int, r: int| 0 <= p < members.len() && 0 <= r < members.len() && p != r implies members[p]
            != members[r] by {
            if p < r {
                assert(members[p] < members[r]);
            } else {
                assert(members[r] < members[p]);
            }
        }
    }
    if d > 0 {
        let prev = layer_at(posts, ranks, (d - 1) as nat);
        let before = |a: int, b: int| layer_key(posts, prev, a) < layer_key(posts, prev, b);
        let sorted = stable_sorted(before, members);
        assert(layer_at(posts, ranks, d) == sorted);
        lemma_stable_sorted_members(before, members);
        broadcast use vstd::seq_lib::group_to_multiset_ensures;

        assert(sorted.contains(q) <==> members.contains(q)) by {
            assert(sorted.to_multiset().count(q) == members.to_multiset().count(q));
        }
        assert forall|p: int, r: int| 0 <= p < sorted.len() && 0 <= r < sorted.len() && p != r implies sorted[p]
            != sorted[r] by {
            if p < r {
                lemma_sorted_distinct(before, members, p, r);
            } else {
                lemma_sorted_distinct(before, members, r, p);
            }
        }
    }
}

proof fn lemma_place_in_bound(posts: Seq<PostView>, layer: Seq<int>, x: Seq<char>, m: int)
    ensures
        place_in(posts, layer, x, m) matches Some(i) ==> 0 <= i < m,
    decreases m,
{
    if m > 0 {
        lemma_place_in_bound(posts, layer, x, m - 1);
    }
}

proof fn lemma_place_sum_bound(posts: Seq<PostView>, layer: Seq<int>, xs: Seq<Seq<char>>)
    ensures
        0 <= place_sum(posts, layer, xs),
        layer.len() > 0 ==> place_sum(posts, layer, xs) <= xs.len() * (layer.len() - 1),
    decreases xs.len(),
{
    if xs.len() > 0 {
        let d = xs.drop_last();
        lemma_place_sum_bound(posts, layer, d);
        lemma_place_in_bound(posts, layer, xs.last(), layer.len() as int);
        if layer.len() > 0 {
            let n = xs.len() as int;
            let w = layer.len() - 1;
            let s0 = place_sum(posts, layer, d);
            assert(s0 + w <= n * w) by (nonlinear_arith)
                requires s0 <= (n - 1) * w, n >= 1, w >= 0;
        }
    }
}

/// The key of a post in a lower layer is the mean place, rounded down, of the ids it answers in
/// the layer above: with `k >= 1` such ids, `k * key <= (sum of their places) < k * (key + 1)`;
/// it is 0 for a post that answers nothing, and it always names a place of a non-empty layer
/// above (`0 <= key < |layer above|`).
pub proof fn lemma_layer_key_is_mean(posts: Seq<PostView>, prev: Seq<int>, q: int)
    ensures
        ({
            let ps = all_parents(posts, posts[q].id@, posts.len() as int);
            let key = layer_key(posts, prev, q);
            let sum = place_sum(posts, prev, ps);
            &&& ps.len() == 0 ==> key == 0
            &&& ps.len() > 0 ==> ps.len() * key <= sum < ps.len() * (key + 1)
            &&& 0 <= key
            &&& prev.len() > 0 ==> key < prev.len()
        }),
{
    let ps = all_parents(posts, posts[q].id@, posts.len() as int);
    let key = layer_key(posts, prev, q);
    let sum = place_sum(posts, prev, ps);
    lemma_place_sum_bound(posts, prev, ps);
    if ps.len() > 0 {
        let k = ps.len() as int;
        assert(key == sum / k);
        vstd::arithmetic::div_mod::lemma_fundamental_div_mod(sum, k);
        vstd::arithmetic::div_mod::lemma_mod_bound(sum, k);
        assert(k * key <= sum < k * (key + 1)) by (nonlinear_arith)
            requires sum == k * (sum / k) + sum % k, 0 <= sum % k < k, key == sum / k;
        assert(0 <= key) by (nonlinear_arith)
            requires k * key <= sum, sum < k * (key + 1), 0 <= sum, k > 0;
        if prev.len() > 0 {
            let w = prev.len() - 1;
            assert(key <= w) by (nonlinear_arith)
                requires k * key <= sum, sum <= k * w, k > 0;
        }
    }
}

/// Every lower layer is ordered by key: no post comes after a post with a larger key (the
/// floor of the mean place of its parents in the layer above).
pub proof fn lemma_layer_sorted(posts: Seq<PostView>, ranks: Seq<Option<usize>>, d: nat)
    requires
        d >= 1,
    ensures
        ({
            let prev = layer_at(posts, ranks, (d - 1) as nat);
            let layer = layer_at(posts, ranks, d);
            forall|p: int, q: int|
                0 <= p < q < layer.len() ==> layer_key(posts, prev, #[trigger] layer[p]) <= layer_key(posts, prev, #[trigger] layer[q])
        }),
{
    let prev = layer_at(posts, ranks, (d - 1) as nat);
    let members = rank_members(posts, ranks, d as int, posts.len() as int);
    let before = |a: int, b: int| layer_key(posts, prev, a) < layer_key(posts, prev, b);
    lemma_stable_sorted_ordered(before, members);
    let layer = layer_at(posts, ranks, d);
    assert(layer == stable_sorted(before, members));
    assert forall|p: int, q: int| 0 <= p < q < layer.len() implies layer_key(posts, prev, #[trigger] layer[p]) <= layer_key(posts, prev, #[trigger] layer[q]) by {
        assert(!before(layer[q], layer[p]));
    }
}

proof fn lemma_reached_has_rank(posts: Seq<PostView>, x: Seq<char>, k: nat)
    requires
        reached(posts, x, k),
    ensures
        exists|e: nat| e <= k && #[trigger] has_rank(posts, x, e),
    decreases k,
{
    if k > 0 && reached(posts, x, (k - 1) as nat) {
        lemma_reached_has_rank(posts, x, (k - 1) as nat);
        let e = choose|e: nat| e <= k - 1 && #[trigger] has_rank(posts, x, e);
        assert(has_rank(posts, x, e));
    } else {
        assert(has_rank(posts, x, k));
    }
}

/// Ranks are distances by replies: an id has rank 0 exactly when it is a rank-0 id (a post
/// that answers nothing); an id of rank `d > 0` answers some id of rank `d - 1`; and an id that
/// answers an id of rank `e` has a rank of at most `e + 1`.
pub proof fn lemma_rank_is_reply_distance(posts: Seq<PostView>, v: Seq<char>, d: nat)
    requires
        has_rank(posts, v, d),
    ensures
        is_source(posts, v) <==> d == 0,
        d > 0 ==> exists|x: Seq<char>| #[trigger] feeds(posts, x, v) && has_rank(posts, x, (d - 1) as nat),
        forall|x: Seq<char>, e: nat| #[trigger] feeds(posts, x, v) && #[trigger] has_rank(posts, x, e) ==> d <= e + 1,
{
    if is_source(posts, v) {
        assert(has_rank(posts, v, 0));
        lemma_rank_unique(posts, v, 0, d);
    }
    if d > 0 {
        let x = choose|x: Seq<char>| #[trigger] feeds(posts, x, v) && reached(posts, x, (d - 1) as nat);
        lemma_reached_has_rank(posts, x, (d - 1) as nat);
        let e = choose|e: nat| e <= d - 1 && #[trigger] has_rank(posts, x, e);
        if e < d - 1 {
            assert(reached(posts, v, e + 1));
            lemma_reached_mono(posts, v, e + 1, (d - 1) as nat);
        }
        assert(feeds(posts, x, v) && has_rank(posts, x, (d - 1) as nat));
    }
    assert forall|x: Seq<char>, e: nat| #[trigger] feeds(posts, x, v) && #[trigger] has_rank(posts, x, e) implies d <= e + 1 by {
        if d > e + 1 {
            assert(reached(posts, v, e + 1));
            lemma_reached_mono(posts, v, e + 1, (d - 1) as nat);
        }
    }
}

} // verus!
