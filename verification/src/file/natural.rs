//! Natural order of names: runs of digits compare by their value, the text
//! between them compares as strings, so "page2" comes before "page10".
use vstd::prelude::*;
use crate::file::path_order::{path_order, path_parts, lemma_path_order_total};
use crate::order::{
    is_total_preorder, is_total_order, seq_order, text_order, lemma_seq_order_total, lemma_text_order_total,
    lemma_seq_order_refl, lemma_seq_order_antisym, lemma_seq_order_trans, lemma_seq_order_eq,
};
use crate::text::{chars_of, order_ranges};
use crate::file::number::{
    is_digit, number_value, digit_prefix_len, text_prefix_len, suffix, range, read_number, read_text,
    lemma_digit_prefix_len_bounds, lemma_text_prefix_len_bounds,
};
use std::cmp::Ordering;

verus! {

/// A maximal run of a name: a number (the value of a run of digits) or a
/// piece of text (a run of non-digits).
pub ghost enum NaturalToken {
    Number(nat),
    Text(Seq<char>),
}

/// The runs of a name, from left to right.
pub open spec fn tokens(s: Seq<char>) -> Seq<NaturalToken>
    decreases s.len(),
{
    if s.len() == 0 {
        Seq::empty()
    } else if is_digit(s[0]) {
        let n = digit_prefix_len(s);
        proof {
            lemma_digit_prefix_len_bounds(s);
        }
        seq![NaturalToken::Number(number_value(s.take(n)))] + tokens(s.skip(n))
    } else {
        let n = text_prefix_len(s);
        proof {
            lemma_text_prefix_len_bounds(s);
        }
        seq![NaturalToken::Text(s.take(n))] + tokens(s.skip(n))
    }
}

/// The order of runs: every number comes before every piece of text (an empty
/// text, which is what a run of digits reads as text, is smaller than any
/// other), numbers compare by value and texts as strings.
pub open spec fn token_order(x: NaturalToken, y: NaturalToken) -> int {
    match (x, y) {
        (NaturalToken::Number(a), NaturalToken::Number(b)) => {
            if a < b {
                -1
            } else if a == b {
                0
            } else {
                1
            }
        },
        (NaturalToken::Number(_), NaturalToken::Text(_)) => -1,
        (NaturalToken::Text(_), NaturalToken::Number(_)) => 1,
        (NaturalToken::Text(a), NaturalToken::Text(b)) => text_order(a, b),
    }
}

/// The natural order of two names: -1, 0 or 1.
pub open spec fn natural_order(a: Seq<char>, b: Seq<char>) -> int {
    seq_order(tokens(a), tokens(b), |x: NaturalToken, y: NaturalToken| token_order(x, y))
}

/// The order of `sort_path`: the natural order, and between names that it
/// finds equal, the order of paths.
pub open spec fn path_sort_order(a: Seq<char>, b: Seq<char>) -> int {
    if natural_order(a, b) != 0 {
        natural_order(a, b)
    } else {
        path_order(a, b)
    }
}

/// The three-way answer as an `Ordering`.
pub open spec fn ordering_of(c: int) -> Ordering {
    if c < 0 {
        Ordering::Less
    } else if c == 0 {
        Ordering::Equal
    } else {
        Ordering::Greater
    }
}

pub proof fn lemma_token_order_total()
    ensures
        is_total_order(|x: NaturalToken, y: NaturalToken| token_order(x, y)),
{
    lemma_text_order_total();
    let t = |a: Seq<char>, b: Seq<char>| text_order(a, b);
    assert forall|x: NaturalToken, y: NaturalToken|
        #[trigger] token_order(x, y) == -1 || token_order(x, y) == 0 || token_order(x, y) == 1 by {
        if let (NaturalToken::Text(a), NaturalToken::Text(b)) = (x, y) {
            assert(t(a, b) == text_order(a, b));
        }
    }
    assert forall|x: NaturalToken, y: NaturalToken|
        #[trigger] token_order(x, y) == -token_order(y, x) by {
        if let (NaturalToken::Text(a), NaturalToken::Text(b)) = (x, y) {
            assert(t(a, b) == -t(b, a));
        }
    }
    assert forall|x: NaturalToken, y: NaturalToken| #[trigger] token_order(x, y) == 0 implies x
        == y by {
        if let (NaturalToken::Text(a), NaturalToken::Text(b)) = (x, y) {
            assert(t(a, b) == 0);
        }
    }
    assert forall|x: NaturalToken| #[trigger] token_order(x, x) == 0 by {
        if let NaturalToken::Text(a) = x {
            assert(t(a, a) == 0);
        }
    }
    assert forall|x: NaturalToken, y: NaturalToken, z: NaturalToken|
        #![trigger token_order(x, y), token_order(y, z)]
        token_order(x, y) <= 0 && token_order(y, z) <= 0 implies token_order(x, z) <= 0 by {
        if let (NaturalToken::Text(a), NaturalToken::Text(b), NaturalToken::Text(c)) = (x, y, z) {
            assert(t(a, b) <= 0 && t(b, c) <= 0 ==> t(a, c) <= 0);
        }
    }
}

/// Law: the natural order is a total order whose "equal" means the two names
/// have the same runs.
pub proof fn lemma_natural_order_total()
    ensures
        forall|a: Seq<char>| #[trigger] natural_order(a, a) == 0,
        forall|a: Seq<char>, b: Seq<char>| #[trigger]
            natural_order(a, b) == -natural_order(b, a),
        forall|a: Seq<char>, b: Seq<char>|
            #[trigger] natural_order(a, b) == 0 ==> tokens(a) == tokens(b),
        forall|a: Seq<char>, b: Seq<char>, c: Seq<char>|
            #![trigger natural_order(a, b), natural_order(b, c)]
            natural_order(a, b) <= 0 && natural_order(b, c) <= 0 ==> natural_order(a, c) <= 0,
{
    let e = |x: NaturalToken, y: NaturalToken| token_order(x, y);
    lemma_token_order_total();
    assert forall|a: Seq<char>| #[trigger] natural_order(a, a) == 0 by {
        lemma_seq_order_refl(tokens(a), e);
    }
    assert forall|a: Seq<char>, b: Seq<char>| #[trigger]
        natural_order(a, b) == -natural_order(b, a) by {
        lemma_seq_order_antisym(tokens(a), tokens(b), e);
    }
    assert forall|a: Seq<char>, b: Seq<char>| #[trigger] natural_order(a, b) == 0 implies tokens(a)
        == tokens(b) by {
        lemma_seq_order_eq(tokens(a), tokens(b), e);
    }
    assert forall|a: Seq<char>, b: Seq<char>, c: Seq<char>|
        #![trigger natural_order(a, b), natural_order(b, c)]
        natural_order(a, b) <= 0 && natural_order(b, c) <= 0 implies natural_order(a, c) <= 0 by {
        lemma_seq_order_trans(tokens(a), tokens(b), tokens(c), e);
    }
}

/// Law: the order of `sort_path` is a total preorder; names it finds equal
/// have the same runs and the same path components.
pub proof fn lemma_path_sort_order_total()
    ensures
        is_total_preorder(|a: Seq<char>, b: Seq<char>| path_sort_order(a, b)),
        forall|a: Seq<char>, b: Seq<char>| #[trigger] path_sort_order(a, b) == 0 ==> tokens(a)
            == tokens(b) && path_parts(a) == path_parts(b),
{
    lemma_natural_order_total();
    lemma_path_order_total();
    let p = |a: Seq<char>, b: Seq<char>| path_sort_order(a, b);
    assert forall|a: Seq<char>, b: Seq<char>|
        #[trigger] p(a, b) == -1 || p(a, b) == 0 || p(a, b) == 1 by {
        assert(path_order(a, b) == -1 || path_order(a, b) == 0 || path_order(a, b) == 1);
        lemma_token_order_total();
        crate::order::lemma_seq_order_range(
            tokens(a),
            tokens(b),
            |x: NaturalToken, y: NaturalToken| token_order(x, y),
        );
    }
    assert forall|a: Seq<char>, b: Seq<char>| #[trigger] p(a, b) == -p(b, a) by {
        assert(path_order(a, b) == -path_order(b, a));
        assert(natural_order(a, b) == -natural_order(b, a));
    }
    assert forall|a: Seq<char>| #[trigger] p(a, a) == 0 by {
        assert(path_order(a, a) == 0);
        assert(natural_order(a, a) == 0);
    }
    assert forall|a: Seq<char>, b: Seq<char>, c: Seq<char>|
        #![trigger p(a, b), p(b, c)]
        p(a, b) <= 0 && p(b, c) <= 0 implies p(a, c) <= 0 by {
        assert(natural_order(a, b) <= 0 && natural_order(b, c) <= 0 ==> natural_order(a, c) <= 0);
        assert(natural_order(a, b) == -natural_order(b, a));
        assert(natural_order(b, c) == -natural_order(c, b));
        assert(natural_order(a, c) == -natural_order(c, a));
        assert(path_order(a, b) <= 0 && path_order(b, c) <= 0 ==> path_order(a, c) <= 0);
        assert(natural_order(a, b) == 0 ==> tokens(a) == tokens(b));
        assert(natural_order(b, c) == 0 ==> tokens(b) == tokens(c));
    }
    assert forall|a: Seq<char>, b: Seq<char>| #[trigger] p(a, b) == 0 implies tokens(a) == tokens(
        b,
    ) && path_parts(a) == path_parts(b) by {
        assert(natural_order(a, b) == 0 ==> tokens(a) == tokens(b));
        assert(path_order(a, b) == 0 ==> path_parts(a) == path_parts(b));
    }
}

/// The runs of `s[i..]` are the run that starts at `i` followed by the runs
/// of what comes after it.
proof fn lemma_tokens_head(s: Seq<char>, i: usize)
    requires
        i < s.len(),
    ensures
        is_digit(s[i as int]) ==> ({
            let n = digit_prefix_len(suffix(s, i));
            &&& 1 <= n <= s.len() - i
            &&& tokens(suffix(s, i)) == seq![
                NaturalToken::Number(number_value(s.subrange(i as int, i + n))),
            ] + tokens(s.skip(i + n))
        }),
        !is_digit(s[i as int]) ==> ({
            let n = text_prefix_len(suffix(s, i));
            &&& 1 <= n <= s.len() - i
            &&& tokens(suffix(s, i)) == seq![NaturalToken::Text(s.subrange(i as int, i + n))]
                + tokens(s.skip(i + n))
        }),
{
    let x = suffix(s, i);
    assert(x[0] == s[i as int]);
    lemma_digit_prefix_len_bounds(x);
    lemma_text_prefix_len_bounds(x);
    if is_digit(s[i as int]) {
        let n = digit_prefix_len(x);
        assert(x.take(n) =~= s.subrange(i as int, i + n));
        assert(x.skip(n) =~= s.skip(i + n));
    } else {
        let n = text_prefix_len(x);
        assert(x.take(n) =~= s.subrange(i as int, i + n));
        assert(x.skip(n) =~= s.skip(i + n));
    }
}

/// The run token of a number read into a `u64`.
pub open spec fn number_token(v: u64) -> NaturalToken {
    NaturalToken::Number(v as nat)
}

proof fn lemma_tokens_step(s: Seq<char>, i: usize, i2: usize, h: NaturalToken)
    requires
        i <= i2 <= s.len(),
        tokens(suffix(s, i)) == seq![h] + tokens(s.skip(i2 as int)),
    ensures
        tokens(suffix(s, i))[0] == h,
        tokens(suffix(s, i)).drop_first() == tokens(suffix(s, i2)),
        tokens(suffix(s, i)).len() > 0,
{
    assert((seq![h] + tokens(s.skip(i2 as int))).drop_first() =~= tokens(s.skip(i2 as int)));
}

proof fn lemma_seq_order_step(
    r1: Seq<NaturalToken>,
    r2: Seq<NaturalToken>,
    h: NaturalToken,
    e: spec_fn(NaturalToken, NaturalToken) -> int,
)
    requires
        e == (|x: NaturalToken, y: NaturalToken| token_order(x, y)),
    ensures
        seq_order(seq![h] + r1, seq![h] + r2, e) == seq_order(r1, r2, e),
{
    lemma_token_order_total();
    assert(e(h, h) == 0);
    assert((seq![h] + r1).drop_first() =~= r1);
    assert((seq![h] + r2).drop_first() =~= r2);
}

/// Compares two names, given as characters, in natural order: -1, 0 or 1.
pub fn natural_order_chars(ac: &Vec<char>, bc: &Vec<char>) -> (res: i8)
    ensures
        res == natural_order(ac@, bc@),
{
    let ghost e = |x: NaturalToken, y: NaturalToken| token_order(x, y);
    let mut i: usize = 0;
    let mut j: usize = 0;
    proof {
        assert(suffix(ac@, 0) =~= ac@);
        assert(suffix(bc@, 0) =~= bc@);
    }
    loop
        invariant
            i <= ac@.len(),
            j <= bc@.len(),
            e == (|x: NaturalToken, y: NaturalToken| token_order(x, y)),
            natural_order(ac@, bc@) == seq_order(tokens(suffix(ac@, i)), tokens(suffix(bc@, j)), e),
        decreases ac@.len() - i + bc@.len() - j,
    {
        proof {
            if i == ac@.len() {
                assert(suffix(ac@, i) =~= Seq::<char>::empty());
            }
            if j == bc@.len() {
                assert(suffix(bc@, j) =~= Seq::<char>::empty());
            }
        }
        if i == ac.len() && j == bc.len() {
            return 0;
        }
        if i == ac.len() {
            proof {
                lemma_tokens_head(bc@, j);
            }
            return -1;
        }
        if j == bc.len() {
            proof {
                lemma_tokens_head(ac@, i);
            }
            return 1;
        }
        let x = ac[i];
        let y = bc[j];
        proof {
            lemma_tokens_head(ac@, i);
            lemma_tokens_head(bc@, j);
        }
        if '0' <= x && x <= '9' && '0' <= y && y <= '9' {
            let (va, i2) = read_number(&ac, i);
            let (vb, j2) = read_number(&bc, j);
            if va < vb {
                return -1;
            } else if va > vb {
                return 1;
            }
            proof {
                let ha = number_token(va);
                lemma_tokens_step(ac@, i, i2, ha);
                lemma_tokens_step(bc@, j, j2, ha);
                lemma_seq_order_step(tokens(suffix(ac@, i2)), tokens(suffix(bc@, j2)), ha, e);
            }
            i = i2;
            j = j2;
        } else {
            let i2 = read_text(&ac, i);
            let j2 = read_text(&bc, j);
            proof {
                lemma_text_prefix_len_bounds(suffix(ac@, i));
                lemma_text_prefix_len_bounds(suffix(bc@, j));
                assert(suffix(ac@, i)[0] == x);
                assert(suffix(bc@, j)[0] == y);
            }
            let c = order_ranges(&ac, i, i2, &bc, j, j2);
            let ghost ta = range(ac@, i, i2);
            let ghost tb = range(bc@, j, j2);
            proof {
                lemma_text_order_total();
                let t = |p: Seq<char>, q: Seq<char>| text_order(p, q);
                assert(t(ta, tb) == c);
                if ta.len() == 0 {
                    assert(ta =~= Seq::<char>::empty());
                }
                if tb.len() == 0 {
                    assert(tb =~= Seq::<char>::empty());
                }
            }
            if c < 0 {
                return -1;
            } else if c > 0 {
                return 1;
            }
            proof {
                let t = |p: Seq<char>, q: Seq<char>| text_order(p, q);
                assert(t(ta, tb) == 0);
                assert(ta == tb);
                let ha = NaturalToken::Text(ta);
                lemma_tokens_step(ac@, i, i2, ha);
                lemma_tokens_step(bc@, j, j2, ha);
                lemma_seq_order_step(tokens(suffix(ac@, i2)), tokens(suffix(bc@, j2)), ha, e);
            }
            i = i2;
            j = j2;
        }
    }
}

/// Compares two names in natural order.
pub fn cmp_natural(a: &str, b: &str) -> (res: Ordering)
    ensures
        res == ordering_of(natural_order(a@, b@)),
{
    let ac = chars_of(a);
    let bc = chars_of(b);
    let c = natural_order_chars(&ac, &bc);
    if c < 0 {
        Ordering::Less
    } else if c == 0 {
        Ordering::Equal
    } else {
        Ordering::Greater
    }
}

} // verus!
