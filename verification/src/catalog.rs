//! Keeping the thread list and an open thread up to date: the list newest first, the posts
//! that a refresh brings, and the images to fetch for a thread.
use vstd::prelude::*;

use crate::models::{FileResponse, PostView, ThreadSummary};
use crate::order::{
    key_order, lemma_stable_sorted_congruent, lemma_stable_sorted_ordered, lemma_text_lt_strict_weak, ordered_by,
    stable_sort, stable_sorted, text_lt,
};
use crate::text::{text_equals, text_starts_with};
use crate::urls::{download_url_spec, resolve_blob_url, resolve_download_url, resolve_file_url};

verus! {

/// Newest first: `a` goes before `b` when it was created strictly later (times compared as
/// text).
pub open spec fn thread_newer(threads: Seq<ThreadSummary>) -> spec_fn(int, int) -> bool {
    |a: int, b: int| text_lt(threads[b].created_at@, threads[a].created_at@)
}

/// The order in which the thread list is shown: newest first, threads created at the same time
/// in the order received.
pub fn newest_first_order(threads: &Vec<ThreadSummary>) -> (r: Vec<usize>)
    ensures
        r@.map_values(|i: usize| i as int) == stable_sorted(thread_newer(threads@), Seq::new(threads@.len(), |i: int| i)),
{
    let n = threads.len();
    let mut keys: Vec<String> = Vec::new();
    let mut items: Vec<usize> = Vec::new();
    let mut i: usize = 0;
    while i < n
        invariant
            n == threads@.len(),
            i <= n,
            keys@.len() == i,
            items@.len() == i,
            forall|k: int| 0 <= k < i ==> #[trigger] keys@[k]@ == threads@[k].created_at@,
            forall|k: int| 0 <= k < i ==> #[trigger] items@[k] == k,
        decreases n - i,
    {
        keys.push(threads[i].created_at.clone());
        items.push(i);
        i = i + 1;
    }
    let order = stable_sort(&keys, &items, true);
    proof {
        let all = items@.map_values(|i: usize| i as int);
        assert(all =~= Seq::new(threads@.len(), |i: int| i));
        assert forall|x: int, y: int| all.contains(x) && all.contains(y) implies key_order(keys@, true)(x, y)
            == thread_newer(threads@)(x, y) by {
            let px = choose|px: int| 0 <= px < all.len() && all[px] == x;
            let py = choose|py: int| 0 <= py < all.len() && all[py] == y;
            assert(keys@[x]@ == threads@[x].created_at@);
            assert(keys@[y]@ == threads@[y].created_at@);
        }
        lemma_stable_sorted_congruent(key_order(keys@, true), thread_newer(threads@), all);
    }
    order
}

/// The position of the first thread with id `id`.
pub open spec fn thread_position(threads: Seq<ThreadSummary>, id: Seq<char>, n: int) -> Option<int>
    decreases n,
{
    if n <= 0 {
        None
    } else {
        match thread_position(threads, id, n - 1) {
            Some(i) => Some(i),
            None => if threads[n - 1].id@ == id {
                Some(n - 1)
            } else {
                None
            },
        }
    }
}

/// The position of the first thread with id `id`, if any.
pub fn find_thread(threads: &Vec<ThreadSummary>, id: &str) -> (r: Option<usize>)
    ensures
        match r {
            Some(i) => thread_position(threads@, id@, threads@.len() as int) == Some(i as int),
            None => thread_position(threads@, id@, threads@.len() as int) is None,
        },
{
    let mut i: usize = 0;
    while i < threads.len()
        invariant
            i <= threads@.len(),
            thread_position(threads@, id@, i as int) is None,
        decreases threads@.len() - i,
    {
        if text_equals(threads[i].id.as_str(), id) {
            proof {
                lemma_thread_found(threads@, id@, i as int, threads@.len() as int);
            }
            return Some(i);
        }
        i = i + 1;
    }
    None
}

proof fn lemma_thread_found(threads: Seq<ThreadSummary>, id: Seq<char>, i: int, n: int)
    requires
        0 <= i < n,
        thread_position(threads, id, i) is None,
        threads[i].id@ == id,
    ensures
        thread_position(threads, id, n) == Some(i),
    decreases n,
{
    if n > i + 1 {
        lemma_thread_found(threads, id, i, n - 1);
    }
}

/// Whether some post of `posts` has id `id`.
pub open spec fn has_post(posts: Seq<PostView>, id: Seq<char>) -> bool {
    exists|k: int| 0 <= k < posts.len() && posts[k].id@ == id
}

/// The positions below `n`, in order, of the posts of `incoming` whose id no post of `existing`
/// has.
pub open spec fn fresh_positions(existing: Seq<PostView>, incoming: Seq<PostView>, n: int) -> Seq<int>
    decreases n,
{
    if n <= 0 {
        Seq::empty()
    } else if has_post(existing, incoming[n - 1].id@) {
        fresh_positions(existing, incoming, n - 1)
    } else {
        fresh_positions(existing, incoming, n - 1).push(n - 1)
    }
}

fn knows_post(posts: &Vec<PostView>, id: &str) -> (r: bool)
    ensures
        r == has_post(posts@, id@),
{
    let mut k: usize = 0;
    while k < posts.len()
        invariant
            k <= posts@.len(),
            forall|j: int| 0 <= j < k ==> posts@[j].id@ != id@,
        decreases posts@.len() - k,
    {
        if text_equals(posts[k].id.as_str(), id) {
            return true;
        }
        k = k + 1;
    }
    false
}

/// Which posts of a refreshed thread are new: the positions in `incoming`, in order, of the
/// posts whose id the thread shown does not have yet.
pub fn new_post_positions(existing: &Vec<PostView>, incoming: &Vec<PostView>) -> (r: Vec<usize>)
    ensures
        r@.map_values(|i: usize| i as int) == fresh_positions(existing@, incoming@, incoming@.len() as int),
{
    let mut r: Vec<usize> = Vec::new();
    let mut q: usize = 0;
    while q < incoming.len()
        invariant
            q <= incoming@.len(),
            r@.map_values(|i: usize| i as int) == fresh_positions(existing@, incoming@, q as int),
        decreases incoming@.len() - q,
    {
        if !knows_post(existing, incoming[q].id.as_str()) {
            let ghost before = r@.map_values(|i: usize| i as int);
            r.push(q);
            assert(r@.map_values(|i: usize| i as int) =~= before.push(q as int));
        }
        q = q + 1;
    }
    r
}

/// A refresh that brings nothing new adds nothing: once the new posts are appended, the same
/// refresh finds no more new posts.
pub proof fn lemma_refresh_settles(existing: Seq<PostView>, incoming: Seq<PostView>)
    ensures
        fresh_positions(
            existing + fresh_positions(existing, incoming, incoming.len() as int).map_values(|q: int| incoming[q]),
            incoming,
            incoming.len() as int,
        ).len() == 0,
{
    let added = fresh_positions(existing, incoming, incoming.len() as int).map_values(|q: int| incoming[q]);
    lemma_fresh_covered(existing, incoming, incoming.len() as int, existing + added);
    lemma_fresh_empty(existing + added, incoming, incoming.len() as int);
}

proof fn lemma_fresh_bounds(existing: Seq<PostView>, incoming: Seq<PostView>, n: int)
    ensures
        forall|p: int| 0 <= p < fresh_positions(existing, incoming, n).len() ==> {
            &&& 0 <= #[trigger] fresh_positions(existing, incoming, n)[p] < n
            &&& !has_post(existing, incoming[fresh_positions(existing, incoming, n)[p]].id@)
        },
    decreases n,
{
    if n > 0 {
        lemma_fresh_bounds(existing, incoming, n - 1);
    }
}

proof fn lemma_fresh_increasing(existing: Seq<PostView>, incoming: Seq<PostView>, n: int)
    ensures
        forall|p: int, q: int|
            0 <= p < q < fresh_positions(existing, incoming, n).len() ==> #[trigger] fresh_positions(existing, incoming, n)[p]
                < #[trigger] fresh_positions(existing, incoming, n)[q],
    decreases n,
{
    if n > 0 {
        lemma_fresh_increasing(existing, incoming, n - 1);
        lemma_fresh_bounds(existing, incoming, n - 1);
    }
}

/// The posts of `incoming` whose id `existing` does not have yet, in order.
pub open spec fn fresh_posts(existing: Seq<PostView>, incoming: Seq<PostView>) -> Seq<PostView> {
    fresh_positions(existing, incoming, incoming.len() as int).map_values(|q: int| incoming[q])
}

/// Appends to `existing` the posts of `incoming` whose id it does not have yet, in order, and
/// returns their positions in `incoming`.
pub fn append_fresh(existing: &mut Vec<PostView>, incoming: Vec<PostView>) -> (fresh: Vec<usize>)
    ensures
        fresh@.map_values(|i: usize| i as int) == fresh_positions(old(existing)@, incoming@, incoming@.len() as int),
        final(existing)@ == old(existing)@ + fresh_posts(old(existing)@, incoming@),
{
    let fresh = new_post_positions(existing, &incoming);
    let ghost fr = fresh_positions(old(existing)@, incoming@, incoming@.len() as int);
    let ghost inc = incoming@;
    proof {
        lemma_fresh_bounds(old(existing)@, incoming@, incoming@.len() as int);
        lemma_fresh_increasing(old(existing)@, incoming@, incoming@.len() as int);
        assert(fresh@.len() == fr.len());
        assert forall|j: int| 0 <= j < fr.len() implies fresh@[j] as int == fr[j] by {
            assert(fresh@.map_values(|i: usize| i as int)[j] == fr[j]);
        }
    }
    let mut rest = incoming;
    let mut picked: Vec<PostView> = Vec::new();
    let mut k: usize = fresh.len();
    assert(rest@ =~= inc.take(inc.len() as int));
    while k > 0
        invariant
            k <= fresh@.len(),
            fresh@.len() == fr.len(),
            forall|j: int| 0 <= j < fr.len() ==> fresh@[j] as int == fr[j],
            forall|j: int| 0 <= j < fr.len() ==> 0 <= #[trigger] fr[j] < inc.len(),
            forall|p: int, q: int| 0 <= p < q < fr.len() ==> #[trigger] fr[p] < #[trigger] fr[q],
            rest@ == inc.take(if k < fr.len() { fr[k as int] } else { inc.len() as int }),
            picked@.len() == fr.len() - k,
            forall|j: int| 0 <= j < picked@.len() ==> #[trigger] picked@[j] == inc[fr[fr.len() - 1 - j]],
        decreases k,
    {
        k = k - 1;
        let pos = fresh[k];
        assert(0 <= fr[k as int] < inc.len());
        assert(fr[k as int] < (if k + 1 < fr.len() { fr[k + 1] } else { inc.len() as int }));
        assert(rest@.len() == (if k + 1 < fr.len() { fr[k + 1] } else { inc.len() as int }));
        let rest_len = rest.len();
        assert(pos < rest_len);
        rest.truncate(pos + 1);
        match rest.pop() {
            Some(p) => {
                picked.push(p);
            },
            None => {},
        }
        assert(rest@ =~= inc.take(fr[k as int]));
    }
    let ghost base = old(existing)@;
    let mut m: usize = 0;
    while picked.len() > 0
        invariant
            fresh@.len() == fr.len(),
            picked@.len() + m == fr.len(),
            forall|j: int| 0 <= j < picked@.len() ==> #[trigger] picked@[j] == inc[fr[fr.len() - 1 - j]],
            existing@ == base + Seq::new(m as nat, |j: int| inc[fr[j]]),
        decreases picked@.len(),
    {
        assert(m < fresh.len());
        match picked.pop() {
            Some(p) => {
                existing.push(p);
            },
            None => {},
        }
        assert(existing@ =~= base + Seq::new((m + 1) as nat, |j: int| inc[fr[j]]));
        m = m + 1;
    }
    assert(Seq::new(m as nat, |j: int| inc[fr[j]]) =~= fresh_posts(base, inc));
    fresh
}

/// Every post of `incoming` below `n` is known to `all` when `all` holds `existing` and the
/// fresh posts.
proof fn lemma_fresh_covered(existing: Seq<PostView>, incoming: Seq<PostView>, n: int, all: Seq<PostView>)
    requires
        n <= incoming.len(),
        all == existing + fresh_positions(existing, incoming, incoming.len() as int).map_values(|q: int| incoming[q]),
    ensures
        forall|q: int| 0 <= q < n ==> has_post(all, #[trigger] incoming[q].id@),
    decreases n,
{
    if n > 0 {
        lemma_fresh_covered(existing, incoming, n - 1, all);
        let q = n - 1;
        let fr = fresh_positions(existing, incoming, incoming.len() as int);
        if has_post(existing, incoming[q].id@) {
            let k = choose|k: int| 0 <= k < existing.len() && existing[k].id@ == incoming[q].id@;
            assert(all[k] == existing[k]);
        } else {
            lemma_fresh_member(existing, incoming, incoming.len() as int, q);
            let p = choose|p: int| 0 <= p < fr.len() && fr[p] == q;
            assert(all[existing.len() + p] == incoming[q]);
        }
    }
}

proof fn lemma_fresh_member(existing: Seq<PostView>, incoming: Seq<PostView>, n: int, q: int)
    requires
        0 <= q < n,
        !has_post(existing, incoming[q].id@),
    ensures
        exists|p: int| 0 <= p < fresh_positions(existing, incoming, n).len() && fresh_positions(existing, incoming, n)[p] == q,
    decreases n,
{
    let fr = fresh_positions(existing, incoming, n);
    if q == n - 1 {
        assert(fr[fr.len() - 1] == q);
    } else {
        lemma_fresh_member(existing, incoming, n - 1, q);
        let prev = fresh_positions(existing, incoming, n - 1);
        let p = choose|p: int| 0 <= p < prev.len() && prev[p] == q;
        assert(fr[p] == q);
    }
}

proof fn lemma_fresh_empty(all: Seq<PostView>, incoming: Seq<PostView>, n: int)
    requires
        n <= incoming.len(),
        forall|q: int| 0 <= q < n ==> has_post(all, #[trigger] incoming[q].id@),
    ensures
        fresh_positions(all, incoming, n).len() == 0,
    decreases n,
{
    if n > 0 {
        assert(has_post(all, incoming[n - 1].id@));
        lemma_fresh_empty(all, incoming, n - 1);
    }
}

/// Whether a file is an image, by its declared type.
pub open spec fn image_file(mime: Option<String>) -> bool {
    match mime {
        Some(m) => "image/"@.is_prefix_of(m@),
        None => false,
    }
}

/// Where an image file is fetched from: its blob when it names one, the file endpoint
/// otherwise.
pub open spec fn fetch_address(f: FileResponse, base: Seq<char>) -> Seq<char> {
    match f.blob_id {
        Some(b) => base + "/blobs/"@ + b@,
        None => base + "/files/"@ + f.id@,
    }
}

/// The images among `files` to fetch (file id and address), in order.
pub open spec fn file_fetches(files: Seq<FileResponse>, base: Seq<char>) -> Seq<(Seq<char>, Seq<char>)>
    decreases files.len(),
{
    if files.len() == 0 {
        Seq::empty()
    } else {
        let rest = file_fetches(files.drop_last(), base);
        let f = files.last();
        if image_file(f.mime) {
            rest.push((f.id@, fetch_address(f, base)))
        } else {
            rest
        }
    }
}

/// The images to fetch for the first `n` posts, in post and file order.
pub open spec fn image_fetches(posts: Seq<PostView>, base: Seq<char>, n: int) -> Seq<(Seq<char>, Seq<char>)>
    decreases n,
{
    if n <= 0 {
        Seq::empty()
    } else {
        image_fetches(posts, base, n - 1) + file_fetches(posts[n - 1].files@, base)
    }
}

pub open spec fn pairs_view(v: Seq<(String, String)>) -> Seq<(Seq<char>, Seq<char>)> {
    v.map_values(|p: (String, String)| (p.0@, p.1@))
}

/// The images to fetch when a thread is shown (file id and address), in post and file order.
pub fn image_downloads(posts: &Vec<PostView>, base_url: &str) -> (r: Vec<(String, String)>)
    ensures
        pairs_view(r@) == image_fetches(posts@, base_url@, posts@.len() as int),
{
    let mut r: Vec<(String, String)> = Vec::new();
    let mut i: usize = 0;
    while i < posts.len()
        invariant
            i <= posts@.len(),
            pairs_view(r@) == image_fetches(posts@, base_url@, i as int),
        decreases posts@.len() - i,
    {
        let files = &posts[i].files;
        let ghost start = pairs_view(r@);
        let mut j: usize = 0;
        while j < files.len()
            invariant
                files@ == posts@[i as int].files@,
                j <= files@.len(),
                pairs_view(r@) == start + file_fetches(files@.take(j as int), base_url@),
            decreases files@.len() - j,
        {
            let f = &files[j];
            let ghost before = pairs_view(r@);
            assert(files@.take(j + 1).drop_last() =~= files@.take(j as int));
            let image = match &f.mime {
                Some(m) => text_starts_with(m.as_str(), "image/"),
                None => false,
            };
            if image {
                let url = match &f.blob_id {
                    Some(b) => resolve_blob_url(base_url, b.as_str()),
                    None => resolve_file_url(base_url, f.id.as_str()),
                };
                r.push((f.id.clone(), url));
                assert(pairs_view(r@) =~= before.push((f.id@, fetch_address(*f, base_url@))));
            }
            assert(pairs_view(r@) =~= start + file_fetches(files@.take(j + 1), base_url@));
            j = j + 1;
        }
        assert(files@.take(files@.len() as int) =~= files@);
        i = i + 1;
    }
    r
}

/// The attachments to fetch as images (file id and address), in order: files held by the node,
/// declared as images, and not already fetched (`fetched[k]` for file `k`); each is fetched from
/// the link it carries, resolved against the base address.
pub open spec fn attachment_fetches(
    files: Seq<FileResponse>,
    fetched: Seq<bool>,
    base: Seq<char>,
    n: int,
) -> Seq<(Seq<char>, Seq<char>)>
    decreases n,
{
    if n <= 0 {
        Seq::empty()
    } else {
        let rest = attachment_fetches(files, fetched, base, n - 1);
        let f = files[n - 1];
        if f.present && image_file(f.mime) && !fetched[n - 1] {
            rest.push(
                (
                    f.id@,
                    download_url_spec(
                        base,
                        match f.download_url {
                            Some(u) => Some(u@),
                            None => None,
                        },
                        f.id@,
                    ),
                ),
            )
        } else {
            rest
        }
    }
}

/// The attachments of a post to fetch as images once its file list arrives.
pub fn attachment_downloads(files: &Vec<FileResponse>, fetched: &Vec<bool>, base_url: &str) -> (r: Vec<(String, String)>)
    requires
        fetched@.len() == files@.len(),
    ensures
        pairs_view(r@) == attachment_fetches(files@, fetched@, base_url@, files@.len() as int),
{
    let mut r: Vec<(String, String)> = Vec::new();
    let mut k: usize = 0;
    while k < files.len()
        invariant
            fetched@.len() == files@.len(),
            k <= files@.len(),
            pairs_view(r@) == attachment_fetches(files@, fetched@, base_url@, k as int),
        decreases files@.len() - k,
    {
        let f = &files[k];
        let image = match &f.mime {
            Some(m) => text_starts_with(m.as_str(), "image/"),
            None => false,
        };
        if f.present && image && !fetched[k] {
            let ghost before = pairs_view(r@);
            let link = match &f.download_url {
                Some(u) => Some(u.as_str()),
                None => None,
            };
            let url = resolve_download_url(base_url, link, f.id.as_str());
            r.push((f.id.clone(), url));
            assert(pairs_view(r@) =~= before.push(
                (
                    f.id@,
                    download_url_spec(
                        base_url@,
                        match f.download_url {
                            Some(u) => Some(u@),
                            None => None,
                        },
                        f.id@,
                    ),
                ),
            ));
        }
        k = k + 1;
    }
    r
}

/// The thread list is newest first: no thread is shown after one created before it.
pub proof fn lemma_thread_list_newest_first(threads: Seq<ThreadSummary>)
    ensures
        ordered_by(thread_newer(threads), stable_sorted(thread_newer(threads), Seq::new(threads.len(), |i: int| i))),
{
    let before = thread_newer(threads);
    let items = Seq::new(threads.len(), |i: int| i);
    assert forall|x: int, y: int|
        #![trigger before(x, y), before(y, x)]
        items.contains(x) && items.contains(y) && before(x, y) implies !before(y, x) by {
        lemma_text_lt_strict_weak(threads[y].created_at@, threads[x].created_at@, threads[x].created_at@);
        lemma_text_lt_strict_weak(threads[x].created_at@, threads[y].created_at@, threads[y].created_at@);
    }
    assert forall|x: int, y: int, z: int|
        #![trigger before(x, z), before(x, y), before(y, z)]
        items.contains(x) && items.contains(y) && items.contains(z) && before(x, z) implies before(x, y) || before(y, z) by {
        lemma_text_lt_strict_weak(threads[z].created_at@, threads[y].created_at@, threads[x].created_at@);
        lemma_text_lt_strict_weak(threads[x].created_at@, threads[y].created_at@, threads[z].created_at@);
    }
    lemma_stable_sorted_ordered(before, items);
}

/// Whether a thread is the reader's own: created here or downloaded.
pub open spec fn is_mine(t: ThreadSummary) -> bool {
    t.sync_status@ == "downloaded"@
}

/// Whether a thread was created by peer `peer_id`.
pub open spec fn authored_by(t: ThreadSummary, peer_id: Seq<char>) -> bool {
    t.creator_peer_id matches Some(c) && c@ == peer_id
}

/// The positions below `n`, in order, of the threads for which `keep` holds (or fails, when
/// `keep_failing`).
pub open spec fn threads_where(threads: Seq<ThreadSummary>, keep: spec_fn(ThreadSummary) -> bool, keep_failing: bool, n: int) -> Seq<int>
    decreases n,
{
    if n <= 0 {
        Seq::empty()
    } else {
        let rest = threads_where(threads, keep, keep_failing, n - 1);
        if keep(threads[n - 1]) != keep_failing {
            rest.push(n - 1)
        } else {
            rest
        }
    }
}

/// The catalog's columns: the reader's threads and the threads announced by the network
/// (positions in the list, in order).
pub fn split_catalog(threads: &Vec<ThreadSummary>) -> (r: (Vec<usize>, Vec<usize>))
    ensures
        r.0@.map_values(|i: usize| i as int) == threads_where(threads@, |t: ThreadSummary| is_mine(t), false, threads@.len() as int),
        r.1@.map_values(|i: usize| i as int) == threads_where(threads@, |t: ThreadSummary| is_mine(t), true, threads@.len() as int),
{
    let ghost keep = |t: ThreadSummary| is_mine(t);
    let mut mine: Vec<usize> = Vec::new();
    let mut others: Vec<usize> = Vec::new();
    let mut i: usize = 0;
    while i < threads.len()
        invariant
            i <= threads@.len(),
            keep == (|t: ThreadSummary| is_mine(t)),
            mine@.map_values(|i: usize| i as int) == threads_where(threads@, keep, false, i as int),
            others@.map_values(|i: usize| i as int) == threads_where(threads@, keep, true, i as int),
        decreases threads@.len() - i,
    {
        let ghost m0 = mine@.map_values(|i: usize| i as int);
        let ghost o0 = others@.map_values(|i: usize| i as int);
        if text_equals(threads[i].sync_status.as_str(), "downloaded") {
            mine.push(i);
            assert(mine@.map_values(|i: usize| i as int) =~= m0.push(i as int));
        } else {
            others.push(i);
            assert(others@.map_values(|i: usize| i as int) =~= o0.push(i as int));
        }
        i = i + 1;
    }
    (mine, others)
}

/// A friend's catalog: the threads that peer `peer_id` created and the others (positions in
/// the list, in order).
pub fn split_by_author(threads: &Vec<ThreadSummary>, peer_id: &str) -> (r: (Vec<usize>, Vec<usize>))
    ensures
        r.0@.map_values(|i: usize| i as int) == threads_where(
            threads@,
            |t: ThreadSummary| authored_by(t, peer_id@),
            false,
            threads@.len() as int,
        ),
        r.1@.map_values(|i: usize| i as int) == threads_where(
            threads@,
            |t: ThreadSummary| authored_by(t, peer_id@),
            true,
            threads@.len() as int,
        ),
{
    let ghost keep = |t: ThreadSummary| authored_by(t, peer_id@);
    let mut theirs: Vec<usize> = Vec::new();
    let mut others: Vec<usize> = Vec::new();
    let mut i: usize = 0;
    while i < threads.len()
        invariant
            i <= threads@.len(),
            keep == (|t: ThreadSummary| authored_by(t, peer_id@)),
            theirs@.map_values(|i: usize| i as int) == threads_where(threads@, keep, false, i as int),
            others@.map_values(|i: usize| i as int) == threads_where(threads@, keep, true, i as int),
        decreases threads@.len() - i,
    {
        let ghost m0 = theirs@.map_values(|i: usize| i as int);
        let ghost o0 = others@.map_values(|i: usize| i as int);
        let by_them = match &threads[i].creator_peer_id {
            Some(c) => text_equals(c.as_str(), peer_id),
            None => false,
        };
        if by_them {
            theirs.push(i);
            assert(theirs@.map_values(|i: usize| i as int) =~= m0.push(i as int));
        } else {
            others.push(i);
            assert(others@.map_values(|i: usize| i as int) =~= o0.push(i as int));
        }
        i = i + 1;
    }
    (theirs, others)
}

proof fn lemma_threads_where_members(threads: Seq<ThreadSummary>, keep: spec_fn(ThreadSummary) -> bool, keep_failing: bool, n: int, q: int)
    ensures
        threads_where(threads, keep, keep_failing, n).contains(q) <==> (0 <= q < n && keep(threads[q]) != keep_failing),
        threads_where(threads, keep, keep_failing, n).no_duplicates(),
        forall|p: int| 0 <= p < threads_where(threads, keep, keep_failing, n).len() ==> 0 <= #[trigger] threads_where(threads, keep, keep_failing, n)[p] < n,
    decreases n,
{
    if n > 0 {
        lemma_threads_where_members(threads, keep, keep_failing, n - 1, q);
        let rest = threads_where(threads, keep, keep_failing, n - 1);
        let cur = threads_where(threads, keep, keep_failing, n);
        if keep(threads[n - 1]) != keep_failing {
            assert(cur == rest.push(n - 1));
            if rest.contains(q) {
                let k = choose|k: int| 0 <= k < rest.len() && rest[k] == q;
                assert(cur[k] == q);
            }
            if q == n - 1 {
                assert(cur[rest.len() as int] == q);
            }
            if cur.contains(q) && q != n - 1 {
                let k = choose|k: int| 0 <= k < cur.len() && cur[k] == q;
                assert(k < rest.len());
                assert(rest[k] == q);
            }
            assert forall|a: int, b: int| 0 <= a < b < cur.len() implies cur[a] != cur[b] by {
                if b == cur.len() - 1 {
                    assert(rest[a] < n - 1);
                }
            }
        }
    } else {
        assert(threads_where(threads, keep, keep_failing, n) =~= Seq::<int>::empty());
    }
}

/// Each thread of the list appears in exactly one of the two columns of a catalog, once.
pub proof fn lemma_columns_partition(threads: Seq<ThreadSummary>, keep: spec_fn(ThreadSummary) -> bool, q: int)
    requires
        0 <= q < threads.len(),
    ensures
        threads_where(threads, keep, false, threads.len() as int).contains(q) != threads_where(
            threads,
            keep,
            true,
            threads.len() as int,
        ).contains(q),
        threads_where(threads, keep, false, threads.len() as int).no_duplicates(),
        threads_where(threads, keep, true, threads.len() as int).no_duplicates(),
{
    lemma_threads_where_members(threads, keep, false, threads.len() as int, q);
    lemma_threads_where_members(threads, keep, true, threads.len() as int, q);
}

} // verus!
