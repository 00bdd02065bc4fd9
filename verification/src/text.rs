//! Characters and strings: conversions between `str` and character vectors,
//! and the comparison of character ranges.
use vstd::prelude::*;
use crate::order::{char_order, text_order};

verus! {

/// The characters of a string, in order.
pub fn chars_of(s: &str) -> (res: Vec<char>)
    ensures
        res@ == s@,
{
    let mut res: Vec<char> = Vec::new();
    for c in it: s.chars()
        invariant
            res@ == it.seq().take(it.index() as int),
    {
        res.push(c);
    }
    res
}

/// Appends one character to a string (`String::push`).
#[verifier::external_body]
pub(crate) fn string_push(s: &mut String, c: char)
    ensures
        final(s)@ == old(s)@.push(c),
{
    s.push(c);
}

/// The string made of the characters `chars[lo..hi]`.
pub fn string_from_range(chars: &Vec<char>, lo: usize, hi: usize) -> (res: String)
    requires
        lo <= hi <= chars@.len(),
    ensures
        res@ == chars@.subrange(lo as int, hi as int),
{
    let mut res = String::new();
    for i in lo..hi
        invariant
            hi <= chars@.len(),
            res@ == chars@.subrange(lo as int, i as int),
    {
        string_push(&mut res, chars[i]);
        assert(chars@.subrange(lo as int, i + 1) == chars@.subrange(lo as int, i as int).push(
            chars@[i as int],
        ));
    }
    res
}

proof fn lemma_text_order_step(a: Seq<char>, b: Seq<char>)
    requires
        a.len() > 0,
        b.len() > 0,
        a[0] == b[0],
    ensures
        text_order(a, b) == text_order(a.drop_first(), b.drop_first()),
{
    assert(char_order(a[0], b[0]) == 0);
}

/// Compares `a[a_lo..a_hi]` with `b[b_lo..b_hi]` in the order of `str`:
/// -1 if the first comes first, 0 if they are equal, 1 otherwise.
pub fn order_ranges(
    a: &Vec<char>,
    a_lo: usize,
    a_hi: usize,
    b: &Vec<char>,
    b_lo: usize,
    b_hi: usize,
) -> (res: i8)
    requires
        a_lo <= a_hi <= a@.len(),
        b_lo <= b_hi <= b@.len(),
    ensures
        res == text_order(
            a@.subrange(a_lo as int, a_hi as int),
            b@.subrange(b_lo as int, b_hi as int),
        ),
{
    let ghost whole = text_order(
        a@.subrange(a_lo as int, a_hi as int),
        b@.subrange(b_lo as int, b_hi as int),
    );
    let mut i = a_lo;
    let mut j = b_lo;
    while i < a_hi && j < b_hi
        invariant
            a_lo <= i <= a_hi <= a@.len(),
            b_lo <= j <= b_hi <= b@.len(),
            whole == text_order(
                a@.subrange(a_lo as int, a_hi as int),
                b@.subrange(b_lo as int, b_hi as int),
            ),
            whole == text_order(
                a@.subrange(i as int, a_hi as int),
                b@.subrange(j as int, b_hi as int),
            ),
        decreases a_hi - i,
    {
        let x = a[i];
        let y = b[j];
        let ghost sa = a@.subrange(i as int, a_hi as int);
        let ghost sb = b@.subrange(j as int, b_hi as int);
        assert(sa[0] == x && sb[0] == y);
        if x < y {
            assert(char_order(x, y) == -1);
            assert(whole == -1);
            return -1;
        } else if x > y {
            assert(char_order(x, y) == 1);
            assert(whole == 1);
            return 1;
        }
        proof {
            lemma_text_order_step(sa, sb);
            assert(sa.drop_first() == a@.subrange(i + 1, a_hi as int));
            assert(sb.drop_first() == b@.subrange(j + 1, b_hi as int));
        }
        i = i + 1;
        j = j + 1;
    }
    if i < a_hi {
        1
    } else if j < b_hi {
        -1
    } else {
        0
    }
}

/// Whether a character has the Unicode White_Space property (the property
/// `char::is_whitespace` answers): tab through carriage return, space, next
/// line, no-break space, ogham space mark, en quad through hair space, line
/// and paragraph separators, narrow no-break space, medium mathematical space
/// and ideographic space.
pub open spec fn white_space(c: char) -> bool {
    let u = c as u32;
    ||| 0x09 <= u <= 0x0D
    ||| u == 0x20
    ||| u == 0x85
    ||| u == 0xA0
    ||| u == 0x1680
    ||| 0x2000 <= u <= 0x200A
    ||| u == 0x2028
    ||| u == 0x2029
    ||| u == 0x202F
    ||| u == 0x205F
    ||| u == 0x3000
}

/// Whether a character has the Unicode White_Space property.
fn char_is_whitespace(c: char) -> (res: bool)
    ensures
        res == white_space(c),
{
    let u = c as u32;
    (0x09 <= u && u <= 0x0D) || u == 0x20 || u == 0x85 || u == 0xA0 || u == 0x1680 || (0x2000
        <= u && u <= 0x200A) || u == 0x2028 || u == 0x2029 || u == 0x202F || u == 0x205F || u
        == 0x3000
}

/// `s` without leading white space.
pub open spec fn trim_front(s: Seq<char>) -> Seq<char>
    decreases s.len(),
{
    if s.len() > 0 && white_space(s[0]) {
        trim_front(s.drop_first())
    } else {
        s
    }
}

/// `s` without trailing white space.
pub open spec fn trim_back(s: Seq<char>) -> Seq<char>
    decreases s.len(),
{
    if s.len() > 0 && white_space(s.last()) {
        trim_back(s.drop_last())
    } else {
        s
    }
}

/// `s` without leading and trailing white space (`str::trim`).
pub open spec fn trimmed(s: Seq<char>) -> Seq<char> {
    trim_back(trim_front(s))
}

/// `s` without leading and trailing white space.
pub fn trim(s: &str) -> (res: String)
    ensures
        res@ == trimmed(s@),
{
    let chars = chars_of(s);
    let n = chars.len();
    let mut lo: usize = 0;
    proof {
        assert(chars@.subrange(0, n as int) =~= chars@);
    }
    while lo < n && char_is_whitespace(chars[lo])
        invariant
            lo <= n,
            n == chars@.len(),
            trim_front(s@) == trim_front(chars@.subrange(lo as int, n as int)),
            chars@ == s@,
        decreases n - lo,
    {
        proof {
            assert(chars@.subrange(lo as int, n as int).drop_first() =~= chars@.subrange(
                lo + 1,
                n as int,
            ));
        }
        lo = lo + 1;
    }
    let mut hi: usize = n;
    proof {
        assert(trim_front(s@) == chars@.subrange(lo as int, n as int));
    }
    while hi > lo && char_is_whitespace(chars[hi - 1])
        invariant
            lo <= hi <= n,
            n == chars@.len(),
            trimmed(s@) == trim_back(chars@.subrange(lo as int, hi as int)),
        decreases hi,
    {
        proof {
            assert(chars@.subrange(lo as int, hi as int).drop_last() =~= chars@.subrange(
                lo as int,
                hi - 1,
            ));
        }
        hi = hi - 1;
    }
    string_from_range(&chars, lo, hi)
}

/// The string `a` followed by the string `b`.
pub fn concat(a: &str, b: &str) -> (res: String)
    ensures
        res@ == a@ + b@,
{
    let mut r = String::from_str(a);
    r.append(b);
    r
}

/// Whether two strings are equal.
pub fn str_equal(a: &str, b: &str) -> (res: bool)
    ensures
        res == (a@ == b@),
{
    let ac = chars_of(a);
    let bc = chars_of(b);
    proof {
        assert(ac@.subrange(0, ac@.len() as int) =~= ac@);
        assert(bc@.subrange(0, bc@.len() as int) =~= bc@);
    }
    let c = order_ranges(&ac, 0, ac.len(), &bc, 0, bc.len());
    proof {
        crate::order::lemma_text_order_total();
        let t = |p: Seq<char>, q: Seq<char>| text_order(p, q);
        assert(t(a@, b@) == c);
        assert(t(a@, a@) == 0);
    }
    c == 0
}

/// The decimal digit of a number below ten.
pub open spec fn digit_char(d: nat) -> char {
    (('0' as u32) + d) as char
}

/// The decimal writing of a number, without leading zeros.
pub open spec fn decimal_text(n: nat) -> Seq<char>
    decreases n,
{
    if n < 10 {
        seq![digit_char(n)]
    } else {
        decimal_text(n / 10).push(digit_char(n % 10))
    }
}

/// Appends the decimal writing of `n` to `s`.
pub fn push_decimal(s: &mut String, n: usize)
    ensures
        final(s)@ == old(s)@ + decimal_text(n as nat),
    decreases n,
{
    if n >= 10 {
        push_decimal(s, n / 10);
    }
    let d: u8 = (n % 10) as u8;
    let code: u8 = 48u8 + d;
    let c: char = code as char;
    assert(c == digit_char((n % 10) as nat)) by {
        assert(code as u32 == ('0' as u32) + (n % 10));
    }
    string_push(s, c);
    assert(s@ =~= old(s)@ + decimal_text(n as nat));
}

/// `s` with every occurrence of `pat` removed, scanning from the left and
/// skipping past each occurrence (`str::replace(pat, "")`); `s` itself when
/// `pat` is empty.
pub open spec fn removed(s: Seq<char>, pat: Seq<char>) -> Seq<char>
    decreases s.len(),
{
    if s.len() == 0 {
        s
    } else if pat.len() > 0 && pat.len() <= s.len() && s.take(pat.len() as int) == pat {
        removed(s.skip(pat.len() as int), pat)
    } else {
        seq![s[0]] + removed(s.drop_first(), pat)
    }
}

/// Whether `pat` occurs in `s` at index `i`.
fn occurs_at(s: &Vec<char>, pat: &Vec<char>, i: usize) -> (res: bool)
    requires
        i <= s@.len(),
    ensures
        res == (pat@.len() <= s@.len() - i && s@.skip(i as int).take(pat@.len() as int) == pat@),
{
    if pat.len() > s.len() - i {
        return false;
    }
    let sl = s.len();
    let mut k: usize = 0;
    while k < pat.len()
        invariant
            sl == s@.len(),
            i <= s@.len(),
            k <= pat@.len(),
            pat@.len() <= s@.len() - i,
            forall|m: int| 0 <= m < k ==> s@[i + m] == pat@[m],
        decreases pat@.len() - k,
    {
        if s[i + k] != pat[k] {
            proof {
                assert(s@.skip(i as int).take(pat@.len() as int)[k as int] == s@[i + k]);
            }
            return false;
        }
        k = k + 1;
    }
    assert(s@.skip(i as int).take(pat@.len() as int) =~= pat@);
    true
}

/// `s` with every occurrence of `pat` removed (`str::replace(pat, "")`).
pub fn remove_all(s: &str, pat: &str) -> (res: String)
    ensures
        res@ == removed(s@, pat@),
{
    let sc = chars_of(s);
    let pc = chars_of(pat);
    let n = sc.len();
    let mut out = String::new();
    let mut i: usize = 0;
    proof {
        assert(sc@.skip(0) =~= sc@);
    }
    while i < n
        invariant
            i <= n,
            n == sc@.len(),
            sc@ == s@,
            pc@ == pat@,
            out@ + removed(sc@.skip(i as int), pat@) == removed(s@, pat@),
        decreases n - i,
    {
        let ghost rest = sc@.skip(i as int);
        if pc.len() > 0 && occurs_at(&sc, &pc, i) {
            proof {
                assert(rest.skip(pat@.len() as int) =~= sc@.skip(i + pat@.len()));
            }
            i = i + pc.len();
        } else {
            let ghost before = out@;
            string_push(&mut out, sc[i]);
            proof {
                assert(rest[0] == sc@[i as int]);
                assert(rest.drop_first() =~= sc@.skip(i + 1));
                assert(out@ + removed(sc@.skip(i + 1), pat@) =~= before + (seq![rest[0]] + removed(
                    rest.drop_first(),
                    pat@,
                )));
            }
            i = i + 1;
        }
    }
    proof {
        assert(sc@.skip(n as int) =~= Seq::<char>::empty());
        assert(out@ + removed(Seq::<char>::empty(), pat@) =~= out@);
    }
    out
}

} // verus!
