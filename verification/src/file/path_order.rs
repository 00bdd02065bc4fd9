//! The order of paths, as `std::path::Path` compares them on Unix: component
//! by component. A path's components are the root (when it starts with '/'),
//! a "." when the path starts with "." followed by '/' or nothing, and then
//! the runs between separators, where empty runs and "." runs are skipped.
//! The root comes before ".", which comes before "..", which comes before
//! any other name; names compare as strings, and a path whose components
//! are a prefix of another's comes first.
use vstd::prelude::*;
use crate::order::{
    is_total_order, seq_order, text_order, lemma_seq_order_total, lemma_text_order_total,
};
use crate::text::order_ranges;

verus! {

/// A run between separators as a component: none when it is empty or ".".
pub open spec fn run_part(run: Seq<char>) -> Seq<Seq<char>> {
    if run.len() == 0 || run == seq!['.'] {
        Seq::empty()
    } else {
        seq![run]
    }
}

/// The components of `p` from the run that starts at `s`, whose characters
/// before `i` have been read, on.
pub open spec fn parts_from(p: Seq<char>, s: int, i: int) -> Seq<Seq<char>>
    decreases p.len() - i,
{
    if i >= p.len() {
        run_part(p.subrange(s, p.len() as int))
    } else if p[i] == '/' {
        run_part(p.subrange(s, i)) + parts_from(p, i + 1, i + 1)
    } else {
        parts_from(p, s, i + 1)
    }
}

/// The root component, written "/".
pub open spec fn root_part() -> Seq<char> {
    seq!['/']
}

/// The components of a path: "/" for the root, "." for a leading current
/// directory, ".." for a parent directory, and the names.
pub open spec fn path_parts(p: Seq<char>) -> Seq<Seq<char>> {
    if p.len() > 0 && p[0] == '/' {
        seq![root_part()] + parts_from(p, 0, 0)
    } else if p.len() > 0 && p[0] == '.' && (p.len() == 1 || p[1] == '/') {
        seq![seq!['.']] + parts_from(p, 0, 0)
    } else {
        parts_from(p, 0, 0)
    }
}

/// The kind of a component, in the order of `std::path::Component`: the
/// root, ".", "..", then names.
pub open spec fn part_rank(x: Seq<char>) -> int {
    if x == root_part() {
        0
    } else if x == seq!['.'] {
        1
    } else if x == seq!['.', '.'] {
        2
    } else {
        3
    }
}

/// The order of components: by kind, then as strings.
pub open spec fn part_order(x: Seq<char>, y: Seq<char>) -> int {
    if part_rank(x) < part_rank(y) {
        -1
    } else if part_rank(x) > part_rank(y) {
        1
    } else {
        text_order(x, y)
    }
}

/// The order of paths: their components compared in turn.
pub open spec fn path_order(a: Seq<char>, b: Seq<char>) -> int {
    seq_order(path_parts(a), path_parts(b), |x: Seq<char>, y: Seq<char>| part_order(x, y))
}

pub proof fn lemma_part_order_total()
    ensures
        is_total_order(|x: Seq<char>, y: Seq<char>| part_order(x, y)),
{
    lemma_text_order_total();
    let t = |a: Seq<char>, b: Seq<char>| text_order(a, b);
    let f = |x: Seq<char>, y: Seq<char>| part_order(x, y);
    assert forall|x: Seq<char>, y: Seq<char>| #[trigger] f(x, y) == -1 || f(x, y) == 0 || f(x, y)
        == 1 by {
        assert(t(x, y) == -1 || t(x, y) == 0 || t(x, y) == 1);
    }
    assert forall|x: Seq<char>, y: Seq<char>| #[trigger] f(x, y) == -f(y, x) by {
        assert(t(x, y) == -t(y, x));
    }
    assert forall|x: Seq<char>, y: Seq<char>| #[trigger] f(x, y) == 0 implies x == y by {
        assert(t(x, y) == 0 ==> x == y);
    }
    assert forall|x: Seq<char>| #[trigger] f(x, x) == 0 by {
        assert(t(x, x) == 0);
    }
    assert forall|x: Seq<char>, y: Seq<char>, z: Seq<char>|
        #![trigger f(x, y), f(y, z)]
        f(x, y) <= 0 && f(y, z) <= 0 implies f(x, z) <= 0 by {
        assert(t(x, y) <= 0 && t(y, z) <= 0 ==> t(x, z) <= 0);
    }
}

/// Law: paths are ordered as a total order on their components; two paths
/// are equal in this order exactly when they have the same components.
pub proof fn lemma_path_order_total()
    ensures
        forall|a: Seq<char>| #[trigger] path_order(a, a) == 0,
        forall|a: Seq<char>, b: Seq<char>| #[trigger] path_order(a, b) == -1 || path_order(a, b)
            == 0 || path_order(a, b) == 1,
        forall|a: Seq<char>, b: Seq<char>| #[trigger] path_order(a, b) == -path_order(b, a),
        forall|a: Seq<char>, b: Seq<char>|
            #[trigger] path_order(a, b) == 0 <==> path_parts(a) == path_parts(b),
        forall|a: Seq<char>, b: Seq<char>, c: Seq<char>|
            #![trigger path_order(a, b), path_order(b, c)]
            path_order(a, b) <= 0 && path_order(b, c) <= 0 ==> path_order(a, c) <= 0,
{
    lemma_part_order_total();
    let e = |x: Seq<char>, y: Seq<char>| part_order(x, y);
    lemma_seq_order_total(e);
    let s = |a: Seq<Seq<char>>, b: Seq<Seq<char>>| seq_order(a, b, e);
    assert forall|a: Seq<char>, b: Seq<char>| #[trigger] path_order(a, b) == 0 <==> path_parts(a)
        == path_parts(b) by {
        assert(s(path_parts(a), path_parts(b)) == 0 ==> path_parts(a) == path_parts(b));
        assert(s(path_parts(a), path_parts(a)) == 0);
    }
    assert forall|a: Seq<char>, b: Seq<char>| #[trigger] path_order(a, b) == -1 || path_order(a, b)
        == 0 || path_order(a, b) == 1 by {
        assert(s(path_parts(a), path_parts(b)) == -1 || s(path_parts(a), path_parts(b)) == 0
            || s(path_parts(a), path_parts(b)) == 1);
    }
    assert forall|a: Seq<char>, b: Seq<char>| #[trigger] path_order(a, b) == -path_order(b, a) by {
        assert(s(path_parts(a), path_parts(b)) == -s(path_parts(b), path_parts(a)));
    }
    assert forall|a: Seq<char>| #[trigger] path_order(a, a) == 0 by {
        assert(s(path_parts(a), path_parts(a)) == 0);
    }
    assert forall|a: Seq<char>, b: Seq<char>, c: Seq<char>|
        #![trigger path_order(a, b), path_order(b, c)]
        path_order(a, b) <= 0 && path_order(b, c) <= 0 implies path_order(a, c) <= 0 by {
        assert(s(path_parts(a), path_parts(b)) <= 0 && s(path_parts(b), path_parts(c)) <= 0 ==> s(
            path_parts(a),
            path_parts(c),
        ) <= 0);
    }
}

/// The views of some character vectors.
pub open spec fn char_views(v: Seq<Vec<char>>) -> Seq<Seq<char>> {
    v.map_values(|x: Vec<char>| x@)
}

/// The components of a path.
pub(crate) fn parts_of(p: &Vec<char>) -> (res: Vec<Vec<char>>)
    ensures
        char_views(res@) == path_parts(p@),
{
    let n = p.len();
    let mut res: Vec<Vec<char>> = Vec::new();
    if n > 0 && p[0] == '/' {
        let mut root: Vec<char> = Vec::new();
        root.push('/');
        res.push(root);
    } else if n > 0 && p[0] == '.' && (n == 1 || p[1] == '/') {
        let mut cur: Vec<char> = Vec::new();
        cur.push('.');
        res.push(cur);
    }
    proof {
        assert(char_views(res@) + parts_from(p@, 0, 0) =~= path_parts(p@));
    }
    let ghost target = path_parts(p@);
    let mut start: usize = 0;
    let mut i: usize = 0;
    while i < n
        invariant
            n == p@.len(),
            start <= i <= n,
            char_views(res@) + parts_from(p@, start as int, i as int) == target,
        decreases n - i,
    {
        if p[i] == '/' {
            push_part(&mut res, p, start, i);
            proof {
                let run = p@.subrange(start as int, i as int);
                assert(char_views(res@) + parts_from(p@, i + 1, i + 1) =~= target);
            }
            start = i + 1;
        }
        i = i + 1;
    }
    push_part(&mut res, p, start, n);
    proof {
        assert(char_views(res@) =~= target);
    }
    res
}

/// Appends the run `p[lo..hi]` to `parts` when it is a component.
fn push_part(parts: &mut Vec<Vec<char>>, p: &Vec<char>, lo: usize, hi: usize)
    requires
        lo <= hi <= p@.len(),
    ensures
        char_views(final(parts)@) == char_views(old(parts)@) + run_part(p@.subrange(lo as int, hi as int)),
{
    let ghost run = p@.subrange(lo as int, hi as int);
    let len = hi - lo;
    let skip = len == 0 || (len == 1 && p[lo] == '.');
    proof {
        if len == 1 {
            assert(run[0] == p@[lo as int]);
            if p@[lo as int] == '.' {
                assert(run =~= seq!['.']);
            }
        }
        if run == seq!['.'] {
            assert(run.len() == seq!['.'].len());
            assert(run[0] == p@[lo as int]);
        }
        assert(skip == (run.len() == 0 || run == seq!['.']));
    }
    if skip {
        assert(char_views(parts@) =~= char_views(parts@) + run_part(run));
        return;
    }
    let mut part: Vec<char> = Vec::new();
    let mut k = lo;
    while k < hi
        invariant
            lo <= k <= hi <= p@.len(),
            part@ == p@.subrange(lo as int, k as int),
        decreases hi - k,
    {
        part.push(p[k]);
        k = k + 1;
        proof {
            assert(part@ =~= p@.subrange(lo as int, k as int));
        }
    }
    let ghost before = parts@;
    parts.push(part);
    proof {
        assert(char_views(parts@) =~= char_views(before).push(run));
        assert(char_views(parts@) =~= char_views(before) + run_part(run));
    }
}

/// The order of two components.
pub(crate) fn part_order_exec(x: &Vec<char>, y: &Vec<char>) -> (res: i8)
    ensures
        res == part_order(x@, y@),
{
    let rx = rank_of(x);
    let ry = rank_of(y);
    if rx < ry {
        -1
    } else if rx > ry {
        1
    } else {
        proof {
            assert(x@.subrange(0, x@.len() as int) =~= x@);
            assert(y@.subrange(0, y@.len() as int) =~= y@);
        }
        order_ranges(x, 0, x.len(), y, 0, y.len())
    }
}

/// The kind of a component.
fn rank_of(x: &Vec<char>) -> (res: u8)
    ensures
        res == part_rank(x@),
{
    if x.len() == 1 && x[0] == '/' {
        assert(x@ =~= root_part());
        0
    } else if x.len() == 1 && x[0] == '.' {
        assert(x@ =~= seq!['.']);
        proof {
            assert(x@ != root_part()) by {
                assert(root_part()[0] == '/');
            }
        }
        1
    } else if x.len() == 2 && x[0] == '.' && x[1] == '.' {
        assert(x@ =~= seq!['.', '.']);
        2
    } else {
        proof {
            if x@ == root_part() {
                assert(x@[0] == '/');
            }
            if x@ == seq!['.'] {
                assert(x@[0] == '.');
            }
            if x@ == seq!['.', '.'] {
                assert(x@[0] == '.' && x@[1] == '.');
            }
        }
        3
    }
}

/// Compares two paths component by component: -1, 0 or 1.
pub fn path_order_chars(a: &Vec<char>, b: &Vec<char>) -> (res: i8)
    ensures
        res == path_order(a@, b@),
{
    let pa = parts_of(a);
    let pb = parts_of(b);
    let ghost e = |x: Seq<char>, y: Seq<char>| part_order(x, y);
    let ghost va = char_views(pa@);
    let ghost vb = char_views(pb@);
    let mut k: usize = 0;
    proof {
        assert(va.skip(0) =~= va);
        assert(vb.skip(0) =~= vb);
    }
    while k < pa.len() && k < pb.len()
        invariant
            k <= pa@.len(),
            k <= pb@.len(),
            va == char_views(pa@),
            vb == char_views(pb@),
            va == path_parts(a@),
            vb == path_parts(b@),
            e == (|x: Seq<char>, y: Seq<char>| part_order(x, y)),
            seq_order(va.skip(k as int), vb.skip(k as int), e) == seq_order(va, vb, e),
        decreases pa@.len() - k,
    {
        let c = part_order_exec(&pa[k], &pb[k]);
        proof {
            assert(va.skip(k as int)[0] == va[k as int]);
            assert(vb.skip(k as int)[0] == vb[k as int]);
        }
        if c != 0 {
            return c;
        }
        proof {
            assert(va.skip(k as int).drop_first() =~= va.skip(k + 1));
            assert(vb.skip(k as int).drop_first() =~= vb.skip(k + 1));
        }
        k = k + 1;
    }
    if k < pa.len() {
        1
    } else if k < pb.len() {
        -1
    } else {
        0
    }
}

} // verus!
