//! Three-way orders used by the library: an order is a spec function that
//! answers -1, 0 or 1, and the lexicographic extension of an order to
//! sequences.
use vstd::prelude::*;

verus! {

/// `elem` is a total order whose "equal" answer means identical values.
pub open spec fn is_total_order<A>(elem: spec_fn(A, A) -> int) -> bool {
    &&& forall|x: A, y: A| #[trigger] elem(x, y) == -1 || elem(x, y) == 0 || elem(x, y) == 1
    &&& forall|x: A, y: A| #[trigger] elem(x, y) == -elem(y, x)
    &&& forall|x: A, y: A| #[trigger] elem(x, y) == 0 ==> x == y
    &&& forall|x: A| #[trigger] elem(x, x) == 0
    &&& forall|x: A, y: A, z: A|
        #![trigger elem(x, y), elem(y, z)]
        elem(x, y) <= 0 && elem(y, z) <= 0 ==> elem(x, z) <= 0
}

/// `elem` is a total preorder given as a three-way comparison: -1, 0 or 1,
/// reversed by swapping, 0 on equal values, and transitive. Unlike a total
/// order, different values may compare as 0.
pub open spec fn is_total_preorder<A>(elem: spec_fn(A, A) -> int) -> bool {
    &&& forall|x: A, y: A| #[trigger] elem(x, y) == -1 || elem(x, y) == 0 || elem(x, y) == 1
    &&& forall|x: A, y: A| #[trigger] elem(x, y) == -elem(y, x)
    &&& forall|x: A| #[trigger] elem(x, x) == 0
    &&& forall|x: A, y: A, z: A|
        #![trigger elem(x, y), elem(y, z)]
        elem(x, y) <= 0 && elem(y, z) <= 0 ==> elem(x, z) <= 0
}

/// Lexicographic order on sequences: the first differing element decides, and
/// a proper prefix comes first.
pub open spec fn seq_order<A>(a: Seq<A>, b: Seq<A>, elem: spec_fn(A, A) -> int) -> int
    decreases a.len(),
{
    if a.len() == 0 {
        if b.len() == 0 {
            0
        } else {
            -1
        }
    } else if b.len() == 0 {
        1
    } else if elem(a[0], b[0]) != 0 {
        elem(a[0], b[0])
    } else {
        seq_order(a.drop_first(), b.drop_first(), elem)
    }
}

/// The lexicographic extension of a total order is a total order.
pub proof fn lemma_seq_order_total<A>(elem: spec_fn(A, A) -> int)
    requires
        is_total_order(elem),
    ensures
        is_total_order(|a: Seq<A>, b: Seq<A>| seq_order(a, b, elem)),
{
    let o = |a: Seq<A>, b: Seq<A>| seq_order(a, b, elem);
    assert forall|a: Seq<A>, b: Seq<A>|
        #[trigger] o(a, b) == -1 || o(a, b) == 0 || o(a, b) == 1 by {
        lemma_seq_order_range(a, b, elem);
    }
    assert forall|a: Seq<A>, b: Seq<A>| #[trigger] o(a, b) == -o(b, a) by {
        lemma_seq_order_antisym(a, b, elem);
    }
    assert forall|a: Seq<A>, b: Seq<A>| #[trigger] o(a, b) == 0 implies a == b by {
        lemma_seq_order_eq(a, b, elem);
    }
    assert forall|a: Seq<A>| #[trigger] o(a, a) == 0 by {
        lemma_seq_order_refl(a, elem);
    }
    assert forall|a: Seq<A>, b: Seq<A>, c: Seq<A>|
        #![trigger o(a, b), o(b, c)]
        o(a, b) <= 0 && o(b, c) <= 0 implies o(a, c) <= 0 by {
        lemma_seq_order_trans(a, b, c, elem);
    }
}

pub proof fn lemma_seq_order_range<A>(a: Seq<A>, b: Seq<A>, elem: spec_fn(A, A) -> int)
    requires
        is_total_order(elem),
    ensures
        seq_order(a, b, elem) == -1 || seq_order(a, b, elem) == 0 || seq_order(a, b, elem) == 1,
    decreases a.len(),
{
    if a.len() > 0 && b.len() > 0 && elem(a[0], b[0]) == 0 {
        lemma_seq_order_range(a.drop_first(), b.drop_first(), elem);
    }
}

pub proof fn lemma_seq_order_antisym<A>(a: Seq<A>, b: Seq<A>, elem: spec_fn(A, A) -> int)
    requires
        is_total_order(elem),
    ensures
        seq_order(a, b, elem) == -seq_order(b, a, elem),
    decreases a.len(),
{
    if a.len() > 0 && b.len() > 0 {
        assert(elem(a[0], b[0]) == -elem(b[0], a[0]));
        if elem(a[0], b[0]) == 0 {
            lemma_seq_order_antisym(a.drop_first(), b.drop_first(), elem);
        }
    }
}

pub proof fn lemma_seq_order_eq<A>(a: Seq<A>, b: Seq<A>, elem: spec_fn(A, A) -> int)
    requires
        is_total_order(elem),
        seq_order(a, b, elem) == 0,
    ensures
        a == b,
    decreases a.len(),
{
    if a.len() > 0 && b.len() > 0 {
        assert(elem(a[0], b[0]) == 0);
        lemma_seq_order_eq(a.drop_first(), b.drop_first(), elem);
        assert(a =~= seq![a[0]] + a.drop_first());
        assert(b =~= seq![b[0]] + b.drop_first());
    }
}

pub proof fn lemma_seq_order_refl<A>(a: Seq<A>, elem: spec_fn(A, A) -> int)
    requires
        is_total_order(elem),
    ensures
        seq_order(a, a, elem) == 0,
    decreases a.len(),
{
    if a.len() > 0 {
        assert(elem(a[0], a[0]) == 0);
        lemma_seq_order_refl(a.drop_first(), elem);
    }
}

pub proof fn lemma_seq_order_trans<A>(
    a: Seq<A>,
    b: Seq<A>,
    c: Seq<A>,
    elem: spec_fn(A, A) -> int,
)
    requires
        is_total_order(elem),
        seq_order(a, b, elem) <= 0,
        seq_order(b, c, elem) <= 0,
    ensures
        seq_order(a, c, elem) <= 0,
    decreases a.len(),
{
    if a.len() > 0 && b.len() > 0 && c.len() > 0 {
        let (x, y, z) = (a[0], b[0], c[0]);
        assert(elem(x, y) <= 0);
        assert(elem(y, z) <= 0);
        assert(elem(x, z) <= 0);
        if elem(x, y) == 0 && elem(y, z) == 0 {
            lemma_seq_order_trans(a.drop_first(), b.drop_first(), c.drop_first(), elem);
        } else if elem(x, z) == 0 {
            // x == z, so elem(x, y) and elem(y, x) are both at most 0
            assert(x == z);
            assert(elem(y, x) == -elem(x, y));
            assert(elem(x, y) == 0);
            assert(x == y);
            assert(false);
        }
    } else if a.len() > 0 && b.len() > 0 && c.len() == 0 {
        assert(false);
    }
}

/// The order of characters by their code point.
pub open spec fn char_order(x: char, y: char) -> int {
    if x < y {
        -1
    } else if x == y {
        0
    } else {
        1
    }
}

pub proof fn lemma_char_order_total()
    ensures
        is_total_order(|x: char, y: char| char_order(x, y)),
{
}

/// Lexicographic order of character sequences, the order of `str`.
pub open spec fn text_order(a: Seq<char>, b: Seq<char>) -> int {
    seq_order(a, b, |x: char, y: char| char_order(x, y))
}

pub proof fn lemma_text_order_total()
    ensures
        is_total_order(|a: Seq<char>, b: Seq<char>| text_order(a, b)),
{
    lemma_char_order_total();
    lemma_seq_order_total(|x: char, y: char| char_order(x, y));
    let f = |a: Seq<char>, b: Seq<char>| seq_order(a, b, |x: char, y: char| char_order(x, y));
    let g = |a: Seq<char>, b: Seq<char>| text_order(a, b);
    assert(f =~= g);
}

} // verus!
