//! Paths. The library holds a path as a string whose components are
//! separated by '/', and reads it as `std::path::Path` does on Unix: empty
//! components and "." components at the end are ignored, ".." names no file.
use vstd::prelude::*;
use crate::text::{chars_of, string_from_range};
use crate::file::path_order::{
    path_parts, run_part, parts_of, part_order_exec, part_order, char_views, lemma_part_order_total,
};

verus! {

/// The view of an optional string.
pub open spec fn opt_view(o: Option<String>) -> Option<Seq<char>> {
    match o {
        Some(s) => Some(s@),
        None => None,
    }
}

/// `p` without trailing separators and trailing "." components.
pub open spec fn strip_tail(p: Seq<char>) -> Seq<char>
    decreases p.len(),
{
    if p.len() > 0 && p.last() == '/' {
        strip_tail(p.drop_last())
    } else if p.len() >= 2 && p.last() == '.' && p[p.len() - 2] == '/' {
        strip_tail(p.drop_last())
    } else {
        p
    }
}

/// The index of the last separator in `p`, or -1.
pub open spec fn last_sep(p: Seq<char>) -> int
    decreases p.len(),
{
    if p.len() == 0 {
        -1
    } else if p.last() == '/' {
        p.len() - 1
    } else {
        last_sep(p.drop_last())
    }
}

/// The last component of a path, unless it is "." or "..", or the path has
/// none (`Path::file_name`).
pub open spec fn path_file_name(p: Seq<char>) -> Option<Seq<char>> {
    let t = strip_tail(p);
    let name = t.skip(last_sep(t) + 1);
    if name.len() == 0 || name == seq!['.'] || name == seq!['.', '.'] {
        None
    } else {
        Some(name)
    }
}

/// The path without its last component (`Path::parent`): `None` for an empty
/// path and for the root.
pub open spec fn path_parent(p: Seq<char>) -> Option<Seq<char>> {
    let t = strip_tail(p);
    if t.len() == 0 {
        None
    } else if last_sep(t) < 0 {
        Some(Seq::empty())
    } else {
        let h = strip_tail(t.take(last_sep(t)));
        if h.len() == 0 {
            Some(seq!['/'])
        } else {
            Some(h)
        }
    }
}

/// The index of the last '.' in `s`, or -1.
pub open spec fn last_dot(s: Seq<char>) -> int
    decreases s.len(),
{
    if s.len() == 0 {
        -1
    } else if s.last() == '.' {
        s.len() - 1
    } else {
        last_dot(s.drop_last())
    }
}

/// Where `last_dot` finds a dot, there is one, and it lies inside `s`.
pub proof fn lemma_last_dot_is_dot(s: Seq<char>)
    ensures
        -1 <= last_dot(s) < s.len(),
        last_dot(s) >= 0 ==> s[last_dot(s)] == '.',
        forall|i: int| last_dot(s) < i < s.len() ==> s[i] != '.',
    decreases s.len(),
{
    if s.len() > 0 && s.last() != '.' {
        lemma_last_dot_is_dot(s.drop_last());
        assert forall|i: int| last_dot(s) < i < s.len() implies s[i] != '.' by {
            if i < s.len() - 1 {
                assert(s[i] == s.drop_last()[i]);
            }
        }
    }
}

/// The extension of a file name: what follows its last '.', unless that dot
/// starts the name.
pub open spec fn name_extension(name: Seq<char>) -> Option<Seq<char>> {
    if last_dot(name) <= 0 {
        None
    } else {
        Some(name.skip(last_dot(name) + 1))
    }
}

/// The extension of the file a path names (`Path::extension`).
pub open spec fn path_extension(p: Seq<char>) -> Option<Seq<char>> {
    match path_file_name(p) {
        Some(name) => name_extension(name),
        None => None,
    }
}

/// A file name without its extension (`Path::file_stem`).
pub open spec fn name_stem(name: Seq<char>) -> Seq<char> {
    if last_dot(name) <= 0 {
        name
    } else {
        name.take(last_dot(name))
    }
}

/// The path starts with a component that is no run between separators: the
/// root, or a leading ".".
pub open spec fn has_lead(p: Seq<char>) -> bool {
    p.len() > 0 && (p[0] == '/' || (p[0] == '.' && (p.len() == 1 || p[1] == '/')))
}

/// Scanning `p` as `parts_from` does (the current run starts at `s`, the
/// characters before `i` are read), the index where the text after the next
/// `n` runs that are components begins; the length when there are fewer.
pub open spec fn consumed_end(p: Seq<char>, s: int, i: int, n: nat) -> int
    decreases p.len() - i,
{
    if n == 0 {
        s
    } else if i >= p.len() {
        p.len() as int
    } else if p[i] == '/' {
        if run_part(p.subrange(s, i)).len() > 0 {
            consumed_end(p, i + 1, i + 1, (n - 1) as nat)
        } else {
            consumed_end(p, i + 1, i + 1, n)
        }
    } else {
        consumed_end(p, s, i + 1, n)
    }
}

/// `s` without leading separators and leading "." components.
pub open spec fn trim_lead(s: Seq<char>) -> Seq<char>
    decreases s.len(),
{
    if s.len() > 0 && s[0] == '/' {
        trim_lead(s.drop_first())
    } else if s.len() == 1 && s[0] == '.' {
        Seq::empty()
    } else if s.len() >= 2 && s[0] == '.' && s[1] == '/' {
        trim_lead(s.skip(2))
    } else {
        s
    }
}

/// `p` without trailing separators and trailing "." components, keeping a
/// root that is all that is left.
pub open spec fn keep_body(p: Seq<char>) -> Seq<char> {
    if strip_tail(p).len() == 0 && p.len() > 0 && p[0] == '/' {
        seq!['/']
    } else {
        strip_tail(p)
    }
}

/// `p` relative to `base` (`Path::strip_prefix`): `None` unless the
/// components of `base` are the first components of `p`; else the text of
/// `p` after them, without leading separators and "." components, and
/// without trailing ones.
pub open spec fn path_strip_prefix(p: Seq<char>, base: Seq<char>) -> Option<Seq<char>> {
    let pp = path_parts(p);
    let bp = path_parts(base);
    if bp.len() > pp.len() || pp.take(bp.len() as int) != bp {
        None
    } else if bp.len() == 0 {
        Some(keep_body(p))
    } else {
        let runs = if has_lead(p) {
            (bp.len() - 1) as nat
        } else {
            bp.len()
        };
        Some(strip_tail(trim_lead(p.skip(consumed_end(p, 0, 0, runs)))))
    }
}

/// The end of `chars[..end]` once trailing separators and "." components are
/// removed.
fn strip_tail_end(chars: &Vec<char>, end: usize) -> (res: usize)
    requires
        end <= chars@.len(),
    ensures
        res <= end,
        chars@.take(res as int) == strip_tail(chars@.take(end as int)),
{
    let mut e = end;
    while e > 0 && (chars[e - 1] == '/' || (e >= 2 && chars[e - 1] == '.' && chars[e - 2] == '/'))
        invariant
            e <= end <= chars@.len(),
            strip_tail(chars@.take(e as int)) == strip_tail(chars@.take(end as int)),
        decreases e,
    {
        proof {
            assert(chars@.take(e as int).drop_last() =~= chars@.take(e - 1));
        }
        e = e - 1;
    }
    proof {
        let t = chars@.take(e as int);
        if e >= 2 {
            assert(t[t.len() - 2] == chars@[e - 2]);
        }
    }
    e
}

/// The index of the last separator in `chars[..end]`, as one past it: 0 when
/// there is none.
fn last_sep_after(chars: &Vec<char>, end: usize) -> (res: usize)
    requires
        end <= chars@.len(),
    ensures
        res <= end,
        res == last_sep(chars@.take(end as int)) + 1,
{
    let mut e = end;
    while e > 0 && chars[e - 1] != '/'
        invariant
            e <= end <= chars@.len(),
            last_sep(chars@.take(e as int)) == last_sep(chars@.take(end as int)),
        decreases e,
    {
        proof {
            assert(chars@.take(e as int).drop_last() =~= chars@.take(e - 1));
        }
        e = e - 1;
    }
    e
}

/// The bounds of the file name of `chars`, if it has one.
fn file_name_range(chars: &Vec<char>) -> (res: Option<(usize, usize)>)
    ensures
        match res {
            Some((lo, hi)) => lo <= hi <= chars@.len() && path_file_name(chars@) == Some(
                chars@.subrange(lo as int, hi as int),
            ),
            None => path_file_name(chars@) is None,
        },
{
    let hi = strip_tail_end(chars, chars.len());
    let lo = last_sep_after(chars, hi);
    proof {
        assert(chars@.take(chars@.len() as int) =~= chars@);
        let t = chars@.take(hi as int);
        assert(t.skip(lo as int) =~= chars@.subrange(lo as int, hi as int));
    }
    let n = hi - lo;
    if n == 0 || (n == 1 && chars[lo] == '.') || (n == 2 && chars[lo] == '.' && chars[lo + 1]
        == '.') {
        proof {
            let name = chars@.subrange(lo as int, hi as int);
            if n == 1 {
                assert(name =~= seq!['.']);
            }
            if n == 2 {
                assert(name =~= seq!['.', '.']);
            }
        }
        None
    } else {
        proof {
            let name = chars@.subrange(lo as int, hi as int);
            if name == seq!['.'] {
                assert(name[0] == chars@[lo as int]);
            }
            if name == seq!['.', '.'] {
                assert(name[0] == chars@[lo as int]);
                assert(name[1] == chars@[lo + 1]);
            }
        }
        Some((lo, hi))
    }
}

/// The file name of a path.
pub fn file_name(path: &str) -> (res: Option<String>)
    ensures
        opt_view(res) == path_file_name(path@),
{
    let chars = chars_of(path);
    match file_name_range(&chars) {
        Some((lo, hi)) => Some(string_from_range(&chars, lo, hi)),
        None => None,
    }
}

/// The index one past the last '.' of `chars[lo..hi]`, or 0 when there is none
/// (indices relative to `lo`).
fn last_dot_after(chars: &Vec<char>, lo: usize, hi: usize) -> (res: usize)
    requires
        lo <= hi <= chars@.len(),
    ensures
        res <= hi - lo,
        res == last_dot(chars@.subrange(lo as int, hi as int)) + 1,
{
    let mut e = hi;
    while e > lo && chars[e - 1] != '.'
        invariant
            lo <= e <= hi <= chars@.len(),
            last_dot(chars@.subrange(lo as int, e as int)) == last_dot(
                chars@.subrange(lo as int, hi as int),
            ),
        decreases e,
    {
        proof {
            assert(chars@.subrange(lo as int, e as int).drop_last() =~= chars@.subrange(
                lo as int,
                e - 1,
            ));
        }
        e = e - 1;
    }
    e - lo
}

/// The extension of the file a path names.
pub fn extension(path: &str) -> (res: Option<String>)
    ensures
        opt_view(res) == path_extension(path@),
{
    let chars = chars_of(path);
    match file_name_range(&chars) {
        Some((lo, hi)) => {
            let d = last_dot_after(&chars, lo, hi);
            if d <= 1 {
                None
            } else {
                proof {
                    assert(chars@.subrange(lo as int, hi as int).skip(d as int) =~= chars@.subrange(
                        lo + d,
                        hi as int,
                    ));
                }
                Some(string_from_range(&chars, lo + d, hi))
            }
        },
        None => None,
    }
}

/// A file name without its extension.
pub fn file_stem(name: &str) -> (res: String)
    ensures
        res@ == name_stem(name@),
{
    let chars = chars_of(name);
    let d = last_dot_after(&chars, 0, chars.len());
    proof {
        assert(chars@.subrange(0, chars@.len() as int) =~= chars@);
    }
    if d <= 1 {
        string_from_range(&chars, 0, chars.len())
    } else {
        proof {
            assert(chars@.take(d - 1) =~= chars@.subrange(0, d - 1));
        }
        string_from_range(&chars, 0, d - 1)
    }
}

/// The parent of a path.
pub fn parent(path: &str) -> (res: Option<String>)
    ensures
        opt_view(res) == path_parent(path@),
{
    let chars = chars_of(path);
    let t = strip_tail_end(&chars, chars.len());
    proof {
        assert(chars@.take(chars@.len() as int) =~= chars@);
    }
    if t == 0 {
        return None;
    }
    let s = last_sep_after(&chars, t);
    if s == 0 {
        return Some(String::new());
    }
    let h = strip_tail_end(&chars, s - 1);
    proof {
        let tt = chars@.take(t as int);
        assert(tt.take(s - 1) =~= chars@.take(s - 1));
        assert(chars@.take(h as int) =~= chars@.subrange(0, h as int));
    }
    if h == 0 {
        let mut root = String::new();
        crate::text::string_push(&mut root, '/');
        proof {
            assert(root@ =~= seq!['/']);
        }
        Some(root)
    } else {
        Some(string_from_range(&chars, 0, h))
    }
}

/// `p` relative to `base`, or `None`.
pub fn strip_prefix(path: &str, base: &str) -> (res: Option<String>)
    ensures
        opt_view(res) == path_strip_prefix(path@, base@),
{
    let p = chars_of(path);
    let b = chars_of(base);
    let pp = parts_of(&p);
    let bp = parts_of(&b);
    let ghost vp = char_views(pp@);
    let ghost vb = char_views(bp@);
    if bp.len() > pp.len() {
        return None;
    }
    proof {
        lemma_part_order_total();
        let f = |x: Seq<char>, y: Seq<char>| part_order(x, y);
        assert forall|x: Seq<char>, y: Seq<char>| #[trigger] part_order(x, y) == 0 <==> x == y by {
            assert(f(x, y) == part_order(x, y));
            assert(f(x, x) == part_order(x, x));
        }
    }
    let mut k: usize = 0;
    while k < bp.len()
        invariant
            k <= bp@.len() <= pp@.len(),
            vp == char_views(pp@),
            vb == char_views(bp@),
            vp == path_parts(path@),
            vb == path_parts(base@),
            forall|x: Seq<char>, y: Seq<char>| #[trigger] part_order(x, y) == 0 <==> x == y,
            forall|m: int| 0 <= m < k ==> vp[m] == vb[m],
        decreases bp@.len() - k,
    {
        if part_order_exec(&pp[k], &bp[k]) != 0 {
            proof {
                assert(vp.take(vb.len() as int)[k as int] == vp[k as int]);
                assert(part_order(vp[k as int], vb[k as int]) != 0);
                assert(vp[k as int] != vb[k as int]);
                assert(vp.take(vb.len() as int) != vb);
            }
            return None;
        }
        k = k + 1;
    }
    proof {
        assert(vp.take(vb.len() as int) =~= vb);
    }
    if bp.len() == 0 {
        let t = strip_tail_end(&p, p.len());
        proof {
            assert(p@.take(p@.len() as int) =~= p@);
            assert(p@.take(t as int) =~= p@.subrange(0, t as int));
        }
        if t == 0 && p.len() > 0 && p[0] == '/' {
            let mut root = String::new();
            crate::text::string_push(&mut root, '/');
            proof {
                assert(root@ =~= seq!['/']);
            }
            return Some(root);
        }
        return Some(string_from_range(&p, 0, t));
    }
    let n = p.len();
    let lead = n > 0 && (p[0] == '/' || (p[0] == '.' && (n == 1 || p[1] == '/')));
    let mut runs: usize = if lead {
        bp.len() - 1
    } else {
        bp.len()
    };
    let ghost target = consumed_end(p@, 0, 0, runs as nat);
    let mut start: usize = 0;
    let mut i: usize = 0;
    while runs > 0 && i < n
        invariant
            n == p@.len(),
            start <= i <= n,
            consumed_end(p@, start as int, i as int, runs as nat) == target,
        decreases n - i,
    {
        if p[i] == '/' {
            let len = i - start;
            let skip = len == 0 || (len == 1 && p[start] == '.');
            proof {
                let run = p@.subrange(start as int, i as int);
                if len == 1 {
                    assert(run[0] == p@[start as int]);
                    if p@[start as int] == '.' {
                        assert(run =~= seq!['.']);
                    }
                }
                if run == seq!['.'] {
                    assert(run.len() == seq!['.'].len());
                    assert(run[0] == p@[start as int]);
                }
                assert(skip == (run_part(run).len() == 0));
            }
            if !skip {
                runs = runs - 1;
            }
            start = i + 1;
        }
        i = i + 1;
    }
    let e = if runs == 0 {
        start
    } else {
        n
    };
    let mut a = e;
    proof {
        assert(a == target);
    }
    while a < n && (p[a] == '/' || (p[a] == '.' && (a + 1 == n || p[a + 1] == '/')))
        invariant
            e <= a <= n,
            n == p@.len(),
            trim_lead(p@.skip(a as int)) == trim_lead(p@.skip(e as int)),
        decreases n - a,
    {
        let ghost rest = p@.skip(a as int);
        if p[a] == '/' {
            proof {
                assert(rest.drop_first() =~= p@.skip(a + 1));
            }
            a = a + 1;
        } else if a + 1 == n {
            proof {
                assert(rest.len() == 1);
                assert(p@.skip(n as int) =~= Seq::<char>::empty());
            }
            a = n;
        } else {
            proof {
                assert(rest.skip(2) =~= p@.skip(a + 2));
            }
            a = a + 2;
        }
    }
    proof {
        let rest = p@.skip(a as int);
        if a < n {
            assert(rest[0] == p@[a as int]);
            if rest.len() >= 2 {
                assert(rest[1] == p@[a + 1]);
            }
        }
        assert(trim_lead(rest) == rest);
    }
    let mut q: Vec<char> = Vec::new();
    let mut c = a;
    while c < n
        invariant
            a <= c <= n,
            n == p@.len(),
            q@ == p@.subrange(a as int, c as int),
        decreases n - c,
    {
        q.push(p[c]);
        c = c + 1;
        proof {
            assert(q@ =~= p@.subrange(a as int, c as int));
        }
    }
    let h = strip_tail_end(&q, q.len());
    proof {
        assert(q@ =~= p@.skip(a as int));
        assert(q@.take(q@.len() as int) =~= q@);
        assert(q@.take(h as int) =~= q@.subrange(0, h as int));
    }
    Some(string_from_range(&q, 0, h))
}

} // verus!
