//! Orders used to arrange posts: text keys compared byte by byte, integer keys, and the
//! stable sort and first-minimum search built on them.
use vstd::prelude::*;
use vstd::utf8::encode_utf8;

verus! {

/// Lexicographic order on byte strings: a proper prefix comes first.
pub open spec fn bytes_lt(a: Seq<u8>, b: Seq<u8>) -> bool
    decreases a.len(),
{
    if a.len() == 0 {
        b.len() > 0
    } else if b.len() == 0 {
        false
    } else if a[0] != b[0] {
        a[0] < b[0]
    } else {
        bytes_lt(a.drop_first(), b.drop_first())
    }
}

/// Order on texts: by their UTF-8 bytes, which is how `str` compares.
pub open spec fn text_lt(a: Seq<char>, b: Seq<char>) -> bool {
    bytes_lt(encode_utf8(a), encode_utf8(b))
}

/// Whether `a` comes strictly before `b`, comparing their UTF-8 bytes.
pub fn text_less(a: &str, b: &str) -> (r: bool)
    ensures
        r == text_lt(a@, b@),
{
    let x = a.as_bytes();
    let y = b.as_bytes();
    let mut i: usize = 0;
    assert(x@.skip(0) =~= x@);
    assert(y@.skip(0) =~= y@);
    while i < x.len() && i < y.len()
        invariant
            x@ == encode_utf8(a@),
            y@ == encode_utf8(b@),
            i <= x@.len(),
            i <= y@.len(),
            bytes_lt(x@, y@) == bytes_lt(x@.skip(i as int), y@.skip(i as int)),
        decreases x@.len() - i,
    {
        let ghost xs = x@.skip(i as int);
        let ghost ys = y@.skip(i as int);
        if x[i] != y[i] {
            assert(xs[0] == x@[i as int] && ys[0] == y@[i as int]);
            return x[i] < y[i];
        }
        assert(xs.drop_first() =~= x@.skip(i + 1));
        assert(ys.drop_first() =~= y@.skip(i + 1));
        i = i + 1;
    }
    assert(x@.skip(i as int).len() == x@.len() - i);
    i == x.len() && i < y.len()
}

/// A key by which items are ordered, with a strict order on its values.
pub trait OrderKey: Sized {
    spec fn key_lt(&self, other: &Self) -> bool;

    fn less(&self, other: &Self) -> (r: bool)
        ensures
            r == self.key_lt(other),
    ;
}

impl OrderKey for String {
    open spec fn key_lt(&self, other: &Self) -> bool {
        text_lt(self@, other@)
    }

    fn less(&self, other: &Self) -> (r: bool) {
        text_less(self.as_str(), other.as_str())
    }
}

impl OrderKey for i128 {
    open spec fn key_lt(&self, other: &Self) -> bool {
        *self < *other
    }

    fn less(&self, other: &Self) -> (r: bool) {
        *self < *other
    }
}

impl OrderKey for usize {
    open spec fn key_lt(&self, other: &Self) -> bool {
        *self < *other
    }

    fn less(&self, other: &Self) -> (r: bool) {
        *self < *other
    }
}

impl OrderKey for u64 {
    open spec fn key_lt(&self, other: &Self) -> bool {
        *self < *other
    }

    fn less(&self, other: &Self) -> (r: bool) {
        *self < *other
    }
}

/// Whether the item with key `a` goes before the item with key `b`: in ascending order when
/// `descending` is false, in descending order otherwise.
pub open spec fn goes_before<K: OrderKey>(a: K, b: K, descending: bool) -> bool {
    if descending {
        b.key_lt(&a)
    } else {
        a.key_lt(&b)
    }
}

/// The order on item indices that the keys in `keys` give.
pub open spec fn key_order<K: OrderKey>(keys: Seq<K>, descending: bool) -> spec_fn(int, int) -> bool {
    |a: int, b: int| goes_before(keys[a], keys[b], descending)
}

/// Where `x` is inserted into the already ordered `sorted`: after every item that `x` does not
/// go before, so that items that tie keep their order.
pub open spec fn insertion_point(before: spec_fn(int, int) -> bool, sorted: Seq<int>, x: int) -> int
    decreases sorted.len(),
{
    if sorted.len() == 0 {
        0
    } else if before(x, sorted.last()) {
        insertion_point(before, sorted.drop_last(), x)
    } else {
        sorted.len() as int
    }
}

/// The items in stable order: each item is placed after the items before it that it does not
/// go before.
pub open spec fn stable_sorted(before: spec_fn(int, int) -> bool, items: Seq<int>) -> Seq<int>
    decreases items.len(),
{
    if items.len() == 0 {
        Seq::empty()
    } else {
        let rest = stable_sorted(before, items.drop_last());
        rest.insert(insertion_point(before, rest, items.last()), items.last())
    }
}

proof fn lemma_insertion_point_bounds(before: spec_fn(int, int) -> bool, sorted: Seq<int>, x: int)
    ensures
        0 <= insertion_point(before, sorted, x) <= sorted.len(),
    decreases sorted.len(),
{
    if sorted.len() > 0 {
        lemma_insertion_point_bounds(before, sorted.drop_last(), x);
    }
}

/// Two orders that agree on every pair of items place the items alike.
pub proof fn lemma_stable_sorted_congruent(
    b1: spec_fn(int, int) -> bool,
    b2: spec_fn(int, int) -> bool,
    items: Seq<int>,
)
    requires
        forall|x: int, y: int| items.contains(x) && items.contains(y) ==> b1(x, y) == b2(x, y),
    ensures
        stable_sorted(b1, items) == stable_sorted(b2, items),
    decreases items.len(),
{
    if items.len() > 0 {
        let init = items.drop_last();
        assert forall|x: int, y: int| init.contains(x) && init.contains(y) implies b1(x, y) == b2(
            x,
            y,
        ) by {
            let i = choose|i: int| 0 <= i < init.len() && init[i] == x;
            let j = choose|j: int| 0 <= j < init.len() && init[j] == y;
            assert(init[i] == items[i] && init[j] == items[j]);
            assert(items.contains(x));
            assert(items.contains(y));
        }
        lemma_stable_sorted_congruent(b1, b2, init);
        let rest = stable_sorted(b1, init);
        lemma_stable_sorted_members(b1, init);
        lemma_insertion_point_congruent(b1, b2, rest, items.last(), items);
    }
}

proof fn lemma_insertion_point_congruent(
    b1: spec_fn(int, int) -> bool,
    b2: spec_fn(int, int) -> bool,
    sorted: Seq<int>,
    x: int,
    items: Seq<int>,
)
    requires
        items.contains(x),
        forall|p: int| 0 <= p < sorted.len() ==> items.contains(#[trigger] sorted[p]),
        forall|a: int, b: int| items.contains(a) && items.contains(b) ==> b1(a, b) == b2(a, b),
    ensures
        insertion_point(b1, sorted, x) == insertion_point(b2, sorted, x),
    decreases sorted.len(),
{
    if sorted.len() > 0 {
        assert(items.contains(sorted[sorted.len() - 1]));
        lemma_insertion_point_congruent(b1, b2, sorted.drop_last(), x, items);
    }
}

/// The stable order holds exactly the given items, each as often as it is given.
pub proof fn lemma_stable_sorted_members(before: spec_fn(int, int) -> bool, items: Seq<int>)
    ensures
        stable_sorted(before, items).len() == items.len(),
        stable_sorted(before, items).to_multiset() == items.to_multiset(),
        forall|p: int|
            0 <= p < items.len() ==> items.contains(#[trigger] stable_sorted(before, items)[p]),
    decreases items.len(),
{
    if items.len() == 0 {
        assert(items =~= Seq::<int>::empty());
    } else {
        let init = items.drop_last();
        let rest = stable_sorted(before, init);
        lemma_stable_sorted_members(before, init);
        lemma_insertion_point_bounds(before, rest, items.last());
        let pos = insertion_point(before, rest, items.last());
        let s = rest.insert(pos, items.last());
        broadcast use vstd::seq_lib::group_to_multiset_ensures;

        assert(items =~= init.push(items.last()));
        assert(init.push(items.last()).to_multiset() =~= init.to_multiset().insert(items.last()));
        assert(s.remove(pos) =~= rest);
        assert(s[pos] == items.last());
        assert(s.to_multiset().count(items.last()) > 0);
        assert(s.to_multiset() =~= rest.to_multiset().insert(items.last())) by {
            assert(rest.to_multiset() =~= s.to_multiset().remove(items.last()));
        }
        assert forall|p: int| 0 <= p < items.len() implies items.contains(#[trigger] s[p]) by {
            if p == pos {
                assert(items[items.len() - 1] == s[p]);
            } else {
                let q = if p < pos { p } else { p - 1 };
                assert(s[p] == rest[q]);
                assert(init.contains(rest[q]));
                let k = choose|k: int| 0 <= k < init.len() && init[k] == rest[q];
                assert(items[k] == rest[q]);
            }
        }
    }
}

/// Whether the item at `a` goes before the item at `b`.
fn precedes<K: OrderKey>(keys: &Vec<K>, a: usize, b: usize, descending: bool) -> (r: bool)
    requires
        a < keys@.len(),
        b < keys@.len(),
    ensures
        r == goes_before(keys@[a as int], keys@[b as int], descending),
{
    if descending {
        keys[b].less(&keys[a])
    } else {
        keys[a].less(&keys[b])
    }
}

/// Orders `items` (indices into `keys`) stably by their keys.
pub fn stable_sort<K: OrderKey>(keys: &Vec<K>, items: &Vec<usize>, descending: bool) -> (r: Vec<usize>)
    requires
        forall|p: int| 0 <= p < items@.len() ==> #[trigger] items@[p] < keys@.len(),
    ensures
        r@.map_values(|i: usize| i as int) == stable_sorted(
            key_order(keys@, descending),
            items@.map_values(|i: usize| i as int),
        ),
{
    let ghost all = items@.map_values(|i: usize| i as int);
    let ghost before = key_order(keys@, descending);
    let mut r: Vec<usize> = Vec::new();
    let mut n: usize = 0;
    while n < items.len()
        invariant
            n <= items@.len(),
            all == items@.map_values(|i: usize| i as int),
            before == key_order(keys@, descending),
            forall|p: int| 0 <= p < items@.len() ==> #[trigger] items@[p] < keys@.len(),
            r@.map_values(|i: usize| i as int) == stable_sorted(before, all.subrange(0, n as int)),
            forall|p: int| 0 <= p < r@.len() ==> #[trigger] r@[p] < keys@.len(),
        decreases items@.len() - n,
    {
        let x = items[n];
        let ghost sorted_before = r@.map_values(|i: usize| i as int);
        let mut pos: usize = r.len();
        assert(sorted_before.subrange(0, pos as int) =~= sorted_before);
        while pos > 0 && precedes(keys, x, r[pos - 1], descending)
            invariant
                pos <= r@.len(),
                x < keys@.len(),
                before == key_order(keys@, descending),
                forall|p: int| 0 <= p < r@.len() ==> #[trigger] r@[p] < keys@.len(),
                sorted_before == r@.map_values(|i: usize| i as int),
                insertion_point(before, sorted_before, x as int) == insertion_point(
                    before,
                    sorted_before.subrange(0, pos as int),
                    x as int,
                ),
            decreases pos,
        {
            let ghost sub = sorted_before.subrange(0, pos as int);
            assert(sub.drop_last() =~= sorted_before.subrange(0, pos - 1));
            assert(sub.last() == r@[pos - 1] as int);
            pos = pos - 1;
        }
        proof {
            let sub = sorted_before.subrange(0, pos as int);
            if pos > 0 {
                assert(sub.last() == r@[pos - 1] as int);
            }
        }
        r.insert(pos, x);
        proof {
            let prefix = all.subrange(0, n + 1);
            assert(prefix.drop_last() =~= all.subrange(0, n as int));
            assert(prefix.last() == x as int);
            assert(r@.map_values(|i: usize| i as int) =~= sorted_before.insert(pos as int, x as int));
        }
        n = n + 1;
    }
    assert(all.subrange(0, n as int) =~= all);
    r
}

/// The first index whose item is least under `before`: an item replaces the current least
/// only when it goes strictly before it.
pub open spec fn first_least(before: spec_fn(int, int) -> bool, n: int) -> int
    decreases n,
{
    if n <= 1 {
        0
    } else {
        let m = first_least(before, n - 1);
        if before(n - 1, m) {
            n - 1
        } else {
            m
        }
    }
}

pub proof fn lemma_first_least_bounds(before: spec_fn(int, int) -> bool, n: int)
    requires
        n >= 1,
    ensures
        0 <= first_least(before, n) < n,
    decreases n,
{
    if n > 1 {
        lemma_first_least_bounds(before, n - 1);
    }
}

/// The index of the first least key, or `None` for no keys.
pub fn first_least_index<K: OrderKey>(keys: &Vec<K>) -> (r: Option<usize>)
    ensures
        keys@.len() == 0 ==> r is None,
        keys@.len() > 0 ==> r == Some(first_least(key_order(keys@, false), keys@.len() as int) as usize),
{
    if keys.len() == 0 {
        return None;
    }
    let ghost before = key_order(keys@, false);
    let mut m: usize = 0;
    let mut i: usize = 1;
    while i < keys.len()
        invariant
            1 <= i <= keys@.len(),
            before == key_order(keys@, false),
            m as int == first_least(before, i as int),
            m < i,
        decreases keys@.len() - i,
    {
        if keys[i].less(&keys[m]) {
            m = i;
        }
        i = i + 1;
    }
    Some(m)
}

/// Two orders that agree on the first `n` indices pick the same first least index.
pub proof fn lemma_first_least_congruent(b1: spec_fn(int, int) -> bool, b2: spec_fn(int, int) -> bool, n: int)
    requires
        forall|x: int, y: int| 0 <= x < n && 0 <= y < n ==> #[trigger] b1(x, y) == #[trigger] b2(x, y),
    ensures
        first_least(b1, n) == first_least(b2, n),
    decreases n,
{
    if n > 1 {
        lemma_first_least_congruent(b1, b2, n - 1);
        lemma_first_least_bounds(b1, n - 1);
    }
}

/// A stable order of distinct items holds each item once.
pub proof fn lemma_sorted_distinct(before: spec_fn(int, int) -> bool, items: Seq<int>, p: int, q: int)
    requires
        items.no_duplicates(),
        0 <= p < q < items.len(),
    ensures
        stable_sorted(before, items)[p] != stable_sorted(before, items)[q],
{
    let so = stable_sorted(before, items);
    lemma_stable_sorted_members(before, items);
    items.lemma_multiset_has_no_duplicates();
    assert forall|x: int| so.to_multiset().contains(x) implies so.to_multiset().count(x) == 1 by {
    }
    so.lemma_multiset_has_no_duplicates_conv();
}

/// Every item has a place in the stable order.
pub proof fn lemma_sorted_index_of(before: spec_fn(int, int) -> bool, items: Seq<int>, x: int)
    requires
        items.contains(x),
    ensures
        exists|q: int| 0 <= q < stable_sorted(before, items).len() && stable_sorted(before, items)[q] == x,
{
    broadcast use vstd::seq_lib::group_to_multiset_ensures;

    let so = stable_sorted(before, items);
    lemma_stable_sorted_members(before, items);
    assert(items.to_multiset().count(x) > 0);
    assert(so.to_multiset().count(x) > 0);
    assert(so.contains(x));
}

// --- the orders are strict weak orders, and stable sorting sorts --------------------------

proof fn lemma_bytes_lt_asym(a: Seq<u8>, b: Seq<u8>)
    ensures
        bytes_lt(a, b) ==> !bytes_lt(b, a),
    decreases a.len(),
{
    if a.len() > 0 && b.len() > 0 && a[0] == b[0] {
        lemma_bytes_lt_asym(a.drop_first(), b.drop_first());
    }
}

proof fn lemma_bytes_lt_trans(a: Seq<u8>, b: Seq<u8>, c: Seq<u8>)
    ensures
        bytes_lt(a, b) && bytes_lt(b, c) ==> bytes_lt(a, c),
    decreases a.len(),
{
    if a.len() > 0 && b.len() > 0 && c.len() > 0 && a[0] == b[0] && b[0] == c[0] {
        lemma_bytes_lt_trans(a.drop_first(), b.drop_first(), c.drop_first());
    }
}

proof fn lemma_bytes_lt_total(a: Seq<u8>, b: Seq<u8>)
    ensures
        a != b ==> bytes_lt(a, b) || bytes_lt(b, a),
    decreases a.len(),
{
    if a.len() == 0 && b.len() == 0 {
        assert(a =~= b);
    } else if a.len() > 0 && b.len() > 0 && a[0] == b[0] {
        lemma_bytes_lt_total(a.drop_first(), b.drop_first());
        if a.drop_first() == b.drop_first() {
            assert(a.drop_first().len() == b.drop_first().len());
            assert(a =~= b) by {
                assert forall|i: int| 0 <= i < a.len() implies a[i] == b[i] by {
                    if i > 0 {
                        assert(a[i] == a.drop_first()[i - 1]);
                        assert(b[i] == b.drop_first()[i - 1]);
                    }
                }
            }
        }
    }
}

/// Whether `before` is a strict weak order on the items of `items`: no item goes before an item
/// that goes before it, and when `x` goes before `z`, every `y` goes after `x` or before `z`.
pub open spec fn strict_weak_on(before: spec_fn(int, int) -> bool, items: Seq<int>) -> bool {
    &&& forall|x: int, y: int|
        #![trigger before(x, y), before(y, x)]
        items.contains(x) && items.contains(y) && before(x, y) ==> !before(y, x)
    &&& forall|x: int, y: int, z: int|
        #![trigger before(x, z), before(x, y), before(y, z)]
        items.contains(x) && items.contains(y) && items.contains(z) && before(x, z) ==> before(x, y) || before(y, z)
}

/// Text order is a strict weak order.
pub proof fn lemma_text_lt_strict_weak(a: Seq<char>, b: Seq<char>, c: Seq<char>)
    ensures
        text_lt(a, b) ==> !text_lt(b, a),
        text_lt(a, c) ==> text_lt(a, b) || text_lt(b, c),
{
    let x = encode_utf8(a);
    let y = encode_utf8(b);
    let z = encode_utf8(c);
    lemma_bytes_lt_asym(x, y);
    lemma_bytes_lt_asym(x, z);
    lemma_bytes_lt_asym(y, z);
    lemma_bytes_lt_total(x, y);
    lemma_bytes_lt_total(y, z);
    lemma_bytes_lt_trans(y, x, z);
    lemma_bytes_lt_trans(x, z, y);
    lemma_bytes_lt_trans(z, y, x);
    lemma_bytes_lt_trans(y, z, x);
    lemma_bytes_lt_trans(z, x, y);
}

proof fn lemma_insertion_point_facts(before: spec_fn(int, int) -> bool, sorted: Seq<int>, x: int)
    ensures
        0 <= insertion_point(before, sorted, x) <= sorted.len(),
        forall|k: int|
            insertion_point(before, sorted, x) <= k < sorted.len() ==> #[trigger] before(x, sorted[k]),
        insertion_point(before, sorted, x) > 0 ==> !before(x, sorted[insertion_point(before, sorted, x) - 1]),
    decreases sorted.len(),
{
    if sorted.len() > 0 && before(x, sorted.last()) {
        lemma_insertion_point_facts(before, sorted.drop_last(), x);
        let i = insertion_point(before, sorted, x);
        assert forall|k: int| i <= k < sorted.len() implies #[trigger] before(x, sorted[k]) by {
            if k < sorted.len() - 1 {
                assert(sorted.drop_last()[k] == sorted[k]);
            }
        }
        if i > 0 {
            assert(sorted.drop_last()[i - 1] == sorted[i - 1]);
        }
    }
}

/// Whether no item of `s` goes before an item placed ahead of it.
pub open spec fn ordered_by(before: spec_fn(int, int) -> bool, s: Seq<int>) -> bool {
    forall|p: int, q: int| 0 <= p < q < s.len() ==> !before(#[trigger] s[q], #[trigger] s[p])
}

/// Stable sorting by a strict weak order sorts: no item ends up after an item that it goes
/// before.
pub proof fn lemma_stable_sorted_ordered(before: spec_fn(int, int) -> bool, items: Seq<int>)
    requires
        strict_weak_on(before, items),
    ensures
        ordered_by(before, stable_sorted(before, items)),
    decreases items.len(),
{
    if items.len() > 0 {
        let init = items.drop_last();
        let x = items.last();
        assert(strict_weak_on(before, init)) by {
            assert forall|a: int| init.contains(a) implies items.contains(a) by {
                let k = choose|k: int| 0 <= k < init.len() && init[k] == a;
                assert(items[k] == a);
            }
        }
        lemma_stable_sorted_ordered(before, init);
        let rest = stable_sorted(before, init);
        lemma_stable_sorted_members(before, init);
        lemma_insertion_point_facts(before, rest, x);
        let i = insertion_point(before, rest, x);
        let s = rest.insert(i, x);
        assert(items.contains(x)) by {
            assert(items[items.len() - 1] == x);
        }
        assert forall|k: int| 0 <= k < rest.len() implies items.contains(#[trigger] rest[k]) by {
            assert(init.contains(rest[k]));
            let j = choose|j: int| 0 <= j < init.len() && init[j] == rest[k];
            assert(items[j] == rest[k]);
        }
        assert forall|p: int, q: int| 0 <= p < q < s.len() implies !before(#[trigger] s[q], #[trigger] s[p]) by {
            if q < i {
                assert(s[p] == rest[p] && s[q] == rest[q]);
            } else if p > i {
                assert(s[p] == rest[p - 1] && s[q] == rest[q - 1]);
            } else if p == i {
                assert(s[p] == x && s[q] == rest[q - 1]);
                assert(before(x, rest[q - 1]));
                assert(items.contains(rest[q - 1]));
            } else if q == i {
                assert(s[q] == x && s[p] == rest[p]);
                assert(!before(x, rest[i - 1]));
                assert(items.contains(rest[p]));
                assert(items.contains(rest[i - 1]));
                if p < i - 1 {
                    assert(!before(rest[i - 1], rest[p]));
                }
            } else {
                assert(p < i && q > i);
                assert(s[p] == rest[p] && s[q] == rest[q - 1]);
            }
        }
    }
}

} // verus!
