//! Stable sorting of names and of values that carry a path.
use vstd::prelude::*;
use crate::order::is_total_preorder;
use crate::file::path_order::{path_order, path_order_chars, lemma_path_order_total};
use crate::text::chars_of;
use crate::file::natural::{path_sort_order, natural_order_chars, lemma_path_sort_order_total};

verus! {

broadcast use vstd::seq_lib::group_to_multiset_ensures;

/// The order by which values are sorted.
#[derive(Clone, Copy, PartialEq, Eq, Structural, Debug)]
pub enum KeyOrder {
    /// The order of paths, component by component.
    Path,
    /// Natural order, then the order of paths (the order of `sort_path`).
    Natural,
}

/// The order `o` on sort keys: -1, 0 or 1.
pub open spec fn key_order(o: KeyOrder, a: Seq<char>, b: Seq<char>) -> int {
    match o {
        KeyOrder::Path => path_order(a, b),
        KeyOrder::Natural => path_sort_order(a, b),
    }
}

/// Law: each order on sort keys is a total preorder.
pub proof fn lemma_key_order_total(o: KeyOrder)
    ensures
        is_total_preorder(|a: Seq<char>, b: Seq<char>| key_order(o, a, b)),
{
    lemma_path_sort_order_total();
    lemma_path_order_total();
    let f = |a: Seq<char>, b: Seq<char>| key_order(o, a, b);
    let p = |a: Seq<char>, b: Seq<char>| path_sort_order(a, b);
    match o {
        KeyOrder::Path => {},
        KeyOrder::Natural => assert(f =~= p),
    }
}

/// Compares two sort keys in the order `o`.
pub fn exec_key_order(o: KeyOrder, a: &Vec<char>, b: &Vec<char>) -> (res: i8)
    ensures
        res == key_order(o, a@, b@),
{
    match o {
        KeyOrder::Path => path_order_chars(a, b),
        KeyOrder::Natural => {
            let c = natural_order_chars(a, b);
            if c != 0 {
                c
            } else {
                path_order_chars(a, b)
            }
        },
    }
}

/// A value sorted by a key made of characters.
pub trait SortKey {
    spec fn sort_key(&self) -> Seq<char>;

    fn sort_key_chars(&self) -> (res: Vec<char>)
        ensures
            res@ == self.sort_key(),
    ;
}

impl SortKey for String {
    open spec fn sort_key(&self) -> Seq<char> {
        self@
    }

    fn sort_key_chars(&self) -> (res: Vec<char>) {
        chars_of(self.as_str())
    }
}

/// Where a stable insertion puts `x` in `s`: before the first element,
/// from index `k` on, whose key comes strictly after the key of `x`.
pub open spec fn insert_pos_from<T: SortKey>(s: Seq<T>, x: T, o: KeyOrder, k: int) -> int
    decreases s.len() - k,
{
    if k >= s.len() || k < 0 {
        s.len() as int
    } else if key_order(o, x.sort_key(), s[k].sort_key()) < 0 {
        k
    } else {
        insert_pos_from(s, x, o, k + 1)
    }
}

/// `s` with `x` inserted after every element whose key does not come after
/// the key of `x`.
pub open spec fn insert_sorted<T: SortKey>(s: Seq<T>, x: T, o: KeyOrder) -> Seq<T> {
    s.insert(insert_pos_from(s, x, o, 0), x)
}

/// Stable insertion sort: the elements of `s` in the order `o`, elements
/// with equal keys in their original order.
pub open spec fn sorted_by_key<T: SortKey>(s: Seq<T>, o: KeyOrder) -> Seq<T>
    decreases s.len(),
{
    if s.len() == 0 {
        s
    } else {
        insert_sorted(sorted_by_key(s.drop_last(), o), s.last(), o)
    }
}

/// The keys of `s` do not go down in the order `o`.
pub open spec fn is_sorted_by_key<T: SortKey>(s: Seq<T>, o: KeyOrder) -> bool {
    forall|i: int, j: int|
        0 <= i < j < s.len() ==> key_order(o, #[trigger] s[i].sort_key(), #[trigger] s[j].sort_key())
            <= 0
}

proof fn lemma_insert_pos_bounds<T: SortKey>(s: Seq<T>, x: T, o: KeyOrder, k: int)
    requires
        0 <= k <= s.len(),
    ensures
        k <= insert_pos_from(s, x, o, k) <= s.len(),
        forall|m: int|
            k <= m < insert_pos_from(s, x, o, k) ==> key_order(o, x.sort_key(), #[trigger] s[m].sort_key())
                >= 0,
        insert_pos_from(s, x, o, k) < s.len() ==> key_order(
            o,
            x.sort_key(),
            s[insert_pos_from(s, x, o, k)].sort_key(),
        ) < 0,
    decreases s.len() - k,
{
    if k < s.len() && key_order(o, x.sort_key(), s[k].sort_key()) >= 0 {
        lemma_insert_pos_bounds(s, x, o, k + 1);
    }
}

proof fn lemma_insert_sorted_sorted<T: SortKey>(s: Seq<T>, x: T, o: KeyOrder)
    requires
        is_sorted_by_key(s, o),
    ensures
        is_sorted_by_key(insert_sorted(s, x, o), o),
{
    lemma_key_order_total(o);
    let f = |a: Seq<char>, b: Seq<char>| key_order(o, a, b);
    lemma_insert_pos_bounds(s, x, o, 0);
    let p = insert_pos_from(s, x, o, 0);
    let r = insert_sorted(s, x, o);
    assert(r.len() == s.len() + 1);
    assert forall|i: int, j: int| 0 <= i < j < r.len() implies key_order(
        o,
        #[trigger] r[i].sort_key(),
        #[trigger] r[j].sort_key(),
    ) <= 0 by {
        let ki = r[i].sort_key();
        let kj = r[j].sort_key();
        let kx = x.sort_key();
        if i < p && j < p {
            assert(r[i] == s[i] && r[j] == s[j]);
        } else if i < p && j == p {
            assert(r[i] == s[i] && r[j] == x);
            assert(f(kx, ki) >= 0);
            assert(f(ki, kx) == -f(kx, ki));
        } else if i < p && j > p {
            assert(r[i] == s[i] && r[j] == s[j - 1]);
        } else if i == p {
            assert(r[i] == x && r[j] == s[j - 1]);
            // x < s[p] <= s[j - 1]
            assert(f(kx, s[p].sort_key()) < 0);
            if j - 1 > p {
                assert(f(s[p].sort_key(), kj) <= 0);
            }
            assert(f(kx, s[p].sort_key()) <= 0 && f(s[p].sort_key(), kj) <= 0 ==> f(kx, kj) <= 0);
        } else {
            assert(r[i] == s[i - 1] && r[j] == s[j - 1]);
        }
    }
}

/// Law: the stable insertion sort sorts.
pub proof fn lemma_sorted_by_key_sorted<T: SortKey>(s: Seq<T>, o: KeyOrder)
    ensures
        is_sorted_by_key(sorted_by_key(s, o), o),
    decreases s.len(),
{
    if s.len() > 0 {
        lemma_sorted_by_key_sorted(s.drop_last(), o);
        lemma_insert_sorted_sorted(sorted_by_key(s.drop_last(), o), s.last(), o);
    }
}

/// Law: the stable insertion sort neither loses nor adds an element.
pub proof fn lemma_sorted_by_key_permutes<T: SortKey>(s: Seq<T>, o: KeyOrder)
    ensures
        sorted_by_key(s, o).to_multiset() == s.to_multiset(),
        sorted_by_key(s, o).len() == s.len(),
    decreases s.len(),
{
    if s.len() > 0 {
        let r = sorted_by_key(s.drop_last(), o);
        lemma_sorted_by_key_permutes(s.drop_last(), o);
        lemma_insert_pos_bounds(r, s.last(), o, 0);
        vstd::seq_lib::to_multiset_insert(r, insert_pos_from(r, s.last(), o, 0), s.last());
        vstd::seq_lib::to_multiset_build(s.drop_last(), s.last());
        assert(s.drop_last().push(s.last()) =~= s);
    }
}

/// The index of the element the stable sort puts first: the earliest one
/// whose key no key of the others comes strictly before.
pub open spec fn first_sorted_index<T: SortKey>(s: Seq<T>, o: KeyOrder) -> int
    decreases s.len(),
{
    if s.len() <= 1 {
        0
    } else {
        let j = first_sorted_index(s.drop_last(), o);
        if key_order(o, s.last().sort_key(), s[j].sort_key()) < 0 {
            s.len() - 1
        } else {
            j
        }
    }
}

/// The first element of the sorted sequence is the one `first_sorted_index`
/// names.
pub proof fn lemma_sorted_first<T: SortKey>(s: Seq<T>, o: KeyOrder)
    requires
        s.len() > 0,
    ensures
        0 <= first_sorted_index(s, o) < s.len(),
        sorted_by_key(s, o)[0] == s[first_sorted_index(s, o)],
    decreases s.len(),
{
    let r = sorted_by_key(s.drop_last(), o);
    lemma_sorted_by_key_permutes(s.drop_last(), o);
    lemma_insert_pos_bounds(r, s.last(), o, 0);
    if s.len() > 1 {
        lemma_sorted_first(s.drop_last(), o);
        let j = first_sorted_index(s.drop_last(), o);
        assert(s.drop_last()[j] == s[j]);
        assert(r[0] == s[j]);
        let p = insert_pos_from(r, s.last(), o, 0);
        if key_order(o, s.last().sort_key(), s[j].sort_key()) < 0 {
            assert(p == 0);
        } else {
            assert(p > 0);
        }
    }
}

/// Sorts `items` by their keys in the order `o`, keeping items with equal
/// keys in their original order.
pub fn sort_by_key<T: SortKey>(items: Vec<T>, o: KeyOrder) -> (res: Vec<T>)
    ensures
        res@ == sorted_by_key(items@, o),
        is_sorted_by_key(res@, o),
        res@.to_multiset() == items@.to_multiset(),
{
    let ghost orig = items@;
    let n = items.len();
    let mut rest = items;
    let mut out: Vec<T> = Vec::new();
    let mut keys: Vec<Vec<char>> = Vec::new();
    let mut k: usize = 0;
    proof {
        assert(orig.take(0) =~= Seq::<T>::empty());
        assert(orig.skip(0) =~= orig);
    }
    while rest.len() > 0
        invariant
            k <= orig.len(),
            orig.len() == n,
            rest@ == orig.skip(k as int),
            out@ == sorted_by_key(orig.take(k as int), o),
            keys@.len() == out@.len(),
            forall|m: int| 0 <= m < keys@.len() ==> (#[trigger] keys@[m])@ == out@[m].sort_key(),
        decreases rest@.len(),
    {
        let x = rest.remove(0);
        let kx = x.sort_key_chars();
        let ghost s = out@;
        let mut p: usize = 0;
        while p < keys.len() && exec_key_order(o, &kx, &keys[p]) >= 0
            invariant
                p <= keys@.len(),
                keys@.len() == s.len(),
                forall|m: int| 0 <= m < keys@.len() ==> (#[trigger] keys@[m])@ == s[m].sort_key(),
                kx@ == x.sort_key(),
                insert_pos_from(s, x, o, 0) == insert_pos_from(s, x, o, p as int),
            decreases keys@.len() - p,
        {
            p = p + 1;
        }
        proof {
            assert(orig[k as int] == x);
            assert(orig.take(k + 1).drop_last() =~= orig.take(k as int));
            assert(orig.take(k + 1).last() == x);
            assert(rest@ =~= orig.skip(k + 1));
        }
        out.insert(p, x);
        keys.insert(p, kx);
        k = k + 1;
        proof {
            assert forall|m: int| 0 <= m < keys@.len() implies (#[trigger] keys@[m])@
                == out@[m].sort_key() by {}
        }
    }
    proof {
        assert(orig.take(k as int) =~= orig);
        lemma_sorted_by_key_sorted(orig, o);
        lemma_sorted_by_key_permutes(orig, o);
    }
    out
}

/// Sorts paths in natural order, paths that the natural order finds equal in
/// the order of paths.
pub fn sort_path(paths: &Vec<String>) -> (res: Vec<String>)
    ensures
        res@ == sorted_by_key(paths@, KeyOrder::Natural),
        is_sorted_by_key(res@, KeyOrder::Natural),
        res@.to_multiset() == paths@.to_multiset(),
{
    let temp_paths = paths.clone();
    sort_by_key(temp_paths, KeyOrder::Natural)
}

/// The keys of `s`, in order.
pub open spec fn keys_of<T: SortKey>(s: Seq<T>) -> Seq<Seq<char>> {
    s.map_values(|x: T| x.sort_key())
}

/// Where a stable insertion puts key `x` among the keys `s`, from index `k` on.
pub open spec fn key_insert_pos_from(s: Seq<Seq<char>>, x: Seq<char>, o: KeyOrder, k: int) -> int
    decreases s.len() - k,
{
    if k >= s.len() || k < 0 {
        s.len() as int
    } else if key_order(o, x, s[k]) < 0 {
        k
    } else {
        key_insert_pos_from(s, x, o, k + 1)
    }
}

/// Stable insertion sort of keys.
pub open spec fn sorted_keys(s: Seq<Seq<char>>, o: KeyOrder) -> Seq<Seq<char>>
    decreases s.len(),
{
    if s.len() == 0 {
        s
    } else {
        let r = sorted_keys(s.drop_last(), o);
        r.insert(key_insert_pos_from(r, s.last(), o, 0), s.last())
    }
}

proof fn lemma_insert_pos_keys<T: SortKey>(s: Seq<T>, x: T, o: KeyOrder, k: int)
    requires
        0 <= k <= s.len(),
    ensures
        insert_pos_from(s, x, o, k) == key_insert_pos_from(keys_of(s), x.sort_key(), o, k),
    decreases s.len() - k,
{
    if k < s.len() {
        lemma_insert_pos_keys(s, x, o, k + 1);
    }
}

/// Sorting values by key sorts their keys the same way.
pub proof fn lemma_sorted_by_key_keys<T: SortKey>(s: Seq<T>, o: KeyOrder)
    ensures
        keys_of(sorted_by_key(s, o)) == sorted_keys(keys_of(s), o),
    decreases s.len(),
{
    if s.len() > 0 {
        let r = sorted_by_key(s.drop_last(), o);
        lemma_sorted_by_key_keys(s.drop_last(), o);
        assert(keys_of(s.drop_last()) =~= keys_of(s).drop_last());
        lemma_insert_pos_keys(r, s.last(), o, 0);
        lemma_sorted_by_key_permutes(s.drop_last(), o);
        lemma_insert_pos_bounds(r, s.last(), o, 0);
        let p = insert_pos_from(r, s.last(), o, 0);
        assert(keys_of(r.insert(p, s.last())) =~= keys_of(r).insert(p, s.last().sort_key()));
    }
}

/// Where a stable insertion puts `x` among views `s` ordered by `key`.
pub open spec fn view_insert_pos_from<V>(s: Seq<V>, x: V, key: spec_fn(V) -> Seq<char>, o: KeyOrder, k: int) -> int
    decreases s.len() - k,
{
    if k >= s.len() || k < 0 {
        s.len() as int
    } else if key_order(o, key(x), key(s[k])) < 0 {
        k
    } else {
        view_insert_pos_from(s, x, key, o, k + 1)
    }
}

/// Stable insertion sort of views by `key`.
pub open spec fn sorted_views<V>(s: Seq<V>, key: spec_fn(V) -> Seq<char>, o: KeyOrder) -> Seq<V>
    decreases s.len(),
{
    if s.len() == 0 {
        s
    } else {
        let r = sorted_views(s.drop_last(), key, o);
        r.insert(view_insert_pos_from(r, s.last(), key, o, 0), s.last())
    }
}

proof fn lemma_insert_pos_views<T: SortKey + View>(
    s: Seq<T>,
    x: T,
    key: spec_fn(T::V) -> Seq<char>,
    o: KeyOrder,
    k: int,
)
    requires
        0 <= k <= s.len(),
        forall|y: T| #[trigger] y.sort_key() == key(y@),
    ensures
        insert_pos_from(s, x, o, k) == view_insert_pos_from(
            s.map_values(|y: T| y@),
            x@,
            key,
            o,
            k,
        ),
    decreases s.len() - k,
{
    assert(x.sort_key() == key(x@));
    if k < s.len() {
        assert(s[k].sort_key() == key(s[k]@));
        lemma_insert_pos_views(s, x, key, o, k + 1);
    }
}

/// Sorting values by key sorts their views the same way, when the key is a
/// function of the view.
pub proof fn lemma_sorted_by_key_views<T: SortKey + View>(
    s: Seq<T>,
    key: spec_fn(T::V) -> Seq<char>,
    o: KeyOrder,
)
    requires
        forall|y: T| #[trigger] y.sort_key() == key(y@),
    ensures
        sorted_by_key(s, o).map_values(|y: T| y@) == sorted_views(
            s.map_values(|y: T| y@),
            key,
            o,
        ),
    decreases s.len(),
{
    if s.len() > 0 {
        let r = sorted_by_key(s.drop_last(), o);
        lemma_sorted_by_key_views(s.drop_last(), key, o);
        assert(s.drop_last().map_values(|y: T| y@) =~= s.map_values(|y: T| y@).drop_last());
        lemma_insert_pos_views(r, s.last(), key, o, 0);
        lemma_sorted_by_key_permutes(s.drop_last(), o);
        lemma_insert_pos_bounds(r, s.last(), o, 0);
        let p = insert_pos_from(r, s.last(), o, 0);
        assert(r.insert(p, s.last()).map_values(|y: T| y@) =~= r.map_values(|y: T| y@).insert(
            p,
            s.last()@,
        ));
    }
}

/// The views `s` are in the order `o` of their keys.
pub open spec fn is_sorted_views<V>(s: Seq<V>, key: spec_fn(V) -> Seq<char>, o: KeyOrder) -> bool {
    forall|i: int, j: int|
        0 <= i < j < s.len() ==> key_order(o, key(#[trigger] s[i]), key(#[trigger] s[j])) <= 0
}

proof fn lemma_view_insert_pos<V>(s: Seq<V>, x: V, key: spec_fn(V) -> Seq<char>, o: KeyOrder, k: int)
    requires
        0 <= k <= s.len(),
    ensures
        k <= view_insert_pos_from(s, x, key, o, k) <= s.len(),
        forall|m: int|
            k <= m < view_insert_pos_from(s, x, key, o, k) ==> key_order(o, key(x), key(#[trigger] s[m]))
                >= 0,
        view_insert_pos_from(s, x, key, o, k) < s.len() ==> key_order(
            o,
            key(x),
            key(s[view_insert_pos_from(s, x, key, o, k)]),
        ) < 0,
    decreases s.len() - k,
{
    if k < s.len() && key_order(o, key(x), key(s[k])) >= 0 {
        lemma_view_insert_pos(s, x, key, o, k + 1);
    }
}

/// Law: sorting views by their keys puts them in the order of their keys.
pub proof fn lemma_sorted_views_sorted<V>(s: Seq<V>, key: spec_fn(V) -> Seq<char>, o: KeyOrder)
    ensures
        is_sorted_views(sorted_views(s, key, o), key, o),
        sorted_views(s, key, o).len() == s.len(),
    decreases s.len(),
{
    if s.len() > 0 {
        lemma_sorted_views_sorted(s.drop_last(), key, o);
        lemma_key_order_total(o);
        let f = |a: Seq<char>, b: Seq<char>| key_order(o, a, b);
        let r = sorted_views(s.drop_last(), key, o);
        let x = s.last();
        lemma_view_insert_pos(r, x, key, o, 0);
        let p = view_insert_pos_from(r, x, key, o, 0);
        let t = r.insert(p, x);
        assert forall|i: int, j: int| 0 <= i < j < t.len() implies key_order(
            o,
            key(#[trigger] t[i]),
            key(#[trigger] t[j]),
        ) <= 0 by {
            let kx = key(x);
            if i < p && j < p {
                assert(t[i] == r[i] && t[j] == r[j]);
            } else if i < p && j == p {
                assert(t[i] == r[i] && t[j] == x);
                assert(f(kx, key(r[i])) >= 0);
                assert(f(key(r[i]), kx) == -f(kx, key(r[i])));
            } else if i < p && j > p {
                assert(t[i] == r[i] && t[j] == r[j - 1]);
            } else if i == p {
                assert(t[i] == x && t[j] == r[j - 1]);
                assert(f(kx, key(r[p])) < 0);
                if j - 1 > p {
                    assert(f(key(r[p]), key(r[j - 1])) <= 0);
                }
                assert(f(kx, key(r[p])) <= 0 && f(key(r[p]), key(r[j - 1])) <= 0 ==> f(
                    kx,
                    key(r[j - 1]),
                ) <= 0);
            } else {
                assert(t[i] == r[i - 1] && t[j] == r[j - 1]);
            }
        }
    }
}

} // verus!
