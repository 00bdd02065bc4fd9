//! Runs of decimal digits inside names, read as numbers.
use vstd::prelude::*;

verus! {

/// One more than the largest `u64`: numbers are read modulo this value, as
/// the wrapping `u64` arithmetic of a release build does.
pub open spec fn number_modulus() -> nat {
    0x1_0000_0000_0000_0000
}

/// An ASCII decimal digit (`char::is_ascii_digit`).
pub open spec fn is_digit(c: char) -> bool {
    '0' <= c && c <= '9'
}

/// The value of a decimal digit.
pub open spec fn digit_value(c: char) -> nat {
    (c as nat - '0' as nat) as nat
}

/// The value of a run of digits, accumulated as `n * 10 + d` in wrapping
/// `u64` arithmetic.
pub open spec fn number_value(s: Seq<char>) -> nat
    decreases s.len(),
{
    if s.len() == 0 {
        0
    } else {
        (number_value(s.drop_last()) * 10 + digit_value(s.last())) % number_modulus()
    }
}

/// The length of the run of digits at the start of `s`.
pub open spec fn digit_prefix_len(s: Seq<char>) -> int
    decreases s.len(),
{
    if s.len() > 0 && is_digit(s[0]) {
        1 + digit_prefix_len(s.drop_first())
    } else {
        0
    }
}

/// The length of the run of non-digits at the start of `s`.
pub open spec fn text_prefix_len(s: Seq<char>) -> int
    decreases s.len(),
{
    if s.len() > 0 && !is_digit(s[0]) {
        1 + text_prefix_len(s.drop_first())
    } else {
        0
    }
}

/// `s[i..]` for an index held in a `usize`.
pub open spec fn suffix(s: Seq<char>, i: usize) -> Seq<char> {
    s.skip(i as int)
}

pub proof fn lemma_digit_prefix_len_bounds(s: Seq<char>)
    ensures
        0 <= digit_prefix_len(s) <= s.len(),
        s.len() > 0 && is_digit(s[0]) ==> digit_prefix_len(s) >= 1,
        forall|k: int| 0 <= k < digit_prefix_len(s) ==> is_digit(#[trigger] s[k]),
        digit_prefix_len(s) < s.len() ==> !is_digit(s[digit_prefix_len(s)]),
    decreases s.len(),
{
    if s.len() > 0 && is_digit(s[0]) {
        lemma_digit_prefix_len_bounds(s.drop_first());
        assert forall|k: int| 0 <= k < digit_prefix_len(s) implies is_digit(#[trigger] s[k]) by {
            if k > 0 {
                assert(s[k] == s.drop_first()[k - 1]);
            }
        }
    }
}

pub proof fn lemma_text_prefix_len_bounds(s: Seq<char>)
    ensures
        0 <= text_prefix_len(s) <= s.len(),
        s.len() > 0 && !is_digit(s[0]) ==> text_prefix_len(s) >= 1,
        forall|k: int| 0 <= k < text_prefix_len(s) ==> !is_digit(#[trigger] s[k]),
        text_prefix_len(s) < s.len() ==> is_digit(s[text_prefix_len(s)]),
    decreases s.len(),
{
    if s.len() > 0 && !is_digit(s[0]) {
        lemma_text_prefix_len_bounds(s.drop_first());
        assert forall|k: int| 0 <= k < text_prefix_len(s) implies !is_digit(#[trigger] s[k]) by {
            if k > 0 {
                assert(s[k] == s.drop_first()[k - 1]);
            }
        }
    }
}

/// `s[lo..hi]` for indices held in `usize`s.
pub open spec fn range(s: Seq<char>, lo: usize, hi: usize) -> Seq<char> {
    s.subrange(lo as int, hi as int)
}

/// Reading one more character of a run extends the run by one.
proof fn lemma_suffix_step(s: Seq<char>, i: usize)
    requires
        i < s.len(),
    ensures
        suffix(s, i).drop_first() == s.skip(i + 1),
        suffix(s, i)[0] == s[i as int],
{
    assert(suffix(s, i).drop_first() =~= s.skip(i + 1));
}

/// Reads the run of digits that starts at `start`: returns its value and the
/// index just past it.
pub fn read_number(chars: &Vec<char>, start: usize) -> (res: (u64, usize))
    requires
        start <= chars@.len(),
    ensures
        res.1 == start + digit_prefix_len(suffix(chars@, start)),
        res.0 == number_value(chars@.subrange(start as int, res.1 as int)),
{
    let mut num: u64 = 0;
    let mut i = start;
    proof {
        assert(chars@.subrange(start as int, start as int) =~= Seq::<char>::empty());
    }
    while i < chars.len() && '0' <= chars[i] && chars[i] <= '9'
        invariant
            start <= i <= chars@.len(),
            digit_prefix_len(suffix(chars@, start)) == (i - start) + digit_prefix_len(
                suffix(chars@, i),
            ),
            num == number_value(chars@.subrange(start as int, i as int)),
        decreases chars@.len() - i,
    {
        let c = chars[i];
        let d: u64 = ((c as u32) - ('0' as u32)) as u64;
        proof {
            lemma_suffix_step(chars@, i);
            let sub = chars@.subrange(start as int, i + 1);
            assert(sub.drop_last() =~= chars@.subrange(start as int, i as int));
            assert(sub.last() == c);
            assert(d == digit_value(c));
            let m = number_modulus() as int;
            vstd::arithmetic::div_mod::lemma_add_mod_noop(num * 10, d as int, m);
            assert((d as int) % m == d);
        }
        num = num.wrapping_mul(10).wrapping_add(d);
        i = i + 1;
        proof {
            assert(suffix(chars@, (i - 1) as usize).drop_first() == suffix(chars@, i));
        }
    }
    (num, i)
}

/// Reads the run of non-digits that starts at `start`: returns the index just
/// past it.
pub fn read_text(chars: &Vec<char>, start: usize) -> (end: usize)
    requires
        start <= chars@.len(),
    ensures
        end == start + text_prefix_len(suffix(chars@, start)),
{
    let mut i = start;
    while i < chars.len() && !('0' <= chars[i] && chars[i] <= '9')
        invariant
            start <= i <= chars@.len(),
            text_prefix_len(suffix(chars@, start)) == (i - start) + text_prefix_len(
                suffix(chars@, i),
            ),
        decreases chars@.len() - i,
    {
        proof {
            lemma_suffix_step(chars@, i);
        }
        i = i + 1;
        proof {
            assert(suffix(chars@, (i - 1) as usize).drop_first() == suffix(chars@, i));
        }
    }
    i
}

} // verus!
