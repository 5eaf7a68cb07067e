//! Character-level text operations with their mathematical meaning.
//!
//! Strings are modelled as `Seq<char>` (the view of `str` and `String`).
use vstd::prelude::*;
use vstd::std_specs::iter::IteratorSpec;

verus! {

broadcast use vstd::string::group_string_axioms;

/// The Unicode `White_Space` property, which `char::is_whitespace` tests.
pub open spec fn is_white_space(c: char) -> bool {
    let u = c as u32;
    ||| 0x09 <= u <= 0x0D
    ||| u == 0x20
    ||| u == 0x85
    ||| u == 0xA0
    ||| u == 0x1680
    ||| 0x2000 <= u <= 0x200A
    ||| u == 0x2028
    ||| u == 0x2029
    ||| u == 0x202F
    ||| u == 0x205F
    ||| u == 0x3000
}

/// `s` without its leading white space.
pub open spec fn trim_start_ws(s: Seq<char>) -> Seq<char>
    decreases s.len(),
{
    if s.len() > 0 && is_white_space(s[0]) {
        trim_start_ws(s.drop_first())
    } else {
        s
    }
}

/// `s` without its trailing white space.
pub open spec fn trim_end_ws(s: Seq<char>) -> Seq<char>
    decreases s.len(),
{
    if s.len() > 0 && is_white_space(s.last()) {
        trim_end_ws(s.drop_last())
    } else {
        s
    }
}

/// `s` without leading and trailing white space (`str::trim`).
pub open spec fn trim_ws(s: Seq<char>) -> Seq<char> {
    trim_end_ws(trim_start_ws(s))
}

/// `s` with every leading `c` removed (`str::trim_start_matches` with a char).
pub open spec fn trim_start_char(s: Seq<char>, c: char) -> Seq<char>
    decreases s.len(),
{
    if s.len() > 0 && s[0] == c {
        trim_start_char(s.drop_first(), c)
    } else {
        s
    }
}

/// `s` with every trailing `c` removed.
pub open spec fn trim_end_char(s: Seq<char>, c: char) -> Seq<char>
    decreases s.len(),
{
    if s.len() > 0 && s.last() == c {
        trim_end_char(s.drop_last(), c)
    } else {
        s
    }
}

/// `s` with every leading and trailing `c` removed (`str::trim_matches` with a char).
pub open spec fn trim_char(s: Seq<char>, c: char) -> Seq<char> {
    trim_end_char(trim_start_char(s, c), c)
}

/// What follows the prefix `p` in `s`, if `s` starts with `p` (`str::strip_prefix`).
pub open spec fn strip_prefix(s: Seq<char>, p: Seq<char>) -> Option<Seq<char>> {
    if p.len() <= s.len() && s.take(p.len() as int) == p {
        Some(s.skip(p.len() as int))
    } else {
        None
    }
}

/// Whether `s` starts with `p` (`str::starts_with`).
pub open spec fn starts_with(s: Seq<char>, p: Seq<char>) -> bool {
    p.len() <= s.len() && s.take(p.len() as int) == p
}

/// A line as `str::lines` yields it: a `\r` before the `\n` that ends it is dropped.
pub open spec fn strip_cr(line: Seq<char>) -> Seq<char> {
    if line.len() > 0 && line.last() == '\r' {
        line.drop_last()
    } else {
        line
    }
}

/// The lines of `s`, where `cur` is the part of the current line already read.
/// A line ends at `\n`; a final line without `\n` is kept as it is, and an empty
/// one is not a line.
pub open spec fn lines_from(s: Seq<char>, cur: Seq<char>) -> Seq<Seq<char>>
    decreases s.len(),
{
    if s.len() == 0 {
        if cur.len() == 0 {
            Seq::empty()
        } else {
            seq![cur]
        }
    } else if s[0] == '\n' {
        seq![strip_cr(cur)] + lines_from(s.drop_first(), Seq::empty())
    } else {
        lines_from(s.drop_first(), cur.push(s[0]))
    }
}

/// The lines of `s`, as `str::lines` yields them.
pub open spec fn lines(s: Seq<char>) -> Seq<Seq<char>> {
    lines_from(s, Seq::empty())
}

/// The number of non-overlapping occurrences of a non-empty `p` in `s`, found
/// from the left (`str::matches(..).count()`); an empty `p` is given 0, which is
/// not what std does and is never used.
pub open spec fn count_matches(s: Seq<char>, p: Seq<char>) -> nat
    recommends
        p.len() > 0,
    decreases s.len(),
{
    if p.len() == 0 || s.len() < p.len() {
        0
    } else if s.take(p.len() as int) == p {
        1 + count_matches(s.skip(p.len() as int), p)
    } else {
        count_matches(s.drop_first(), p)
    }
}

/// `s` with every non-overlapping occurrence of a non-empty `p`, found from the
/// left, replaced by `r` (`str::replace`); an empty `p` leaves `s` as it is,
/// which is not what std does and is never used.
pub open spec fn replace_all(s: Seq<char>, p: Seq<char>, r: Seq<char>) -> Seq<char>
    recommends
        p.len() > 0,
    decreases s.len(),
{
    if p.len() == 0 || s.len() < p.len() {
        s
    } else if s.take(p.len() as int) == p {
        r + replace_all(s.skip(p.len() as int), p, r)
    } else {
        seq![s[0]] + replace_all(s.drop_first(), p, r)
    }
}

/// Appends a character to a string (std's `String::push`).
#[verifier::external_body]
pub(crate) fn push_char(s: &mut String, c: char)
    ensures
        final(s)@ == old(s)@.push(c),
{
    s.push(c);
}

/// Whether `c` is white space (`char::is_whitespace`).
pub fn char_is_white_space(c: char) -> (b: bool)
    ensures
        b == is_white_space(c),
{
    let u = c as u32;
    (0x09 <= u && u <= 0x0D) || u == 0x20 || u == 0x85 || u == 0xA0 || u == 0x1680 || (0x2000
        <= u && u <= 0x200A) || u == 0x2028 || u == 0x2029 || u == 0x202F || u == 0x205F || u
        == 0x3000
}

/// The characters of `s`, in order.
pub fn chars_of(s: &str) -> (v: Vec<char>)
    ensures
        v@ == s@,
{
    let mut v: Vec<char> = Vec::new();
    for c in it: s.chars()
        invariant
            it.seq() == s@,
            v@ == s@.take(it.index() as int),
    {
        v.push(c);
    }
    v
}

/// Whether two character sequences are equal.
pub fn chars_equal(a: &Vec<char>, b: &Vec<char>) -> (r: bool)
    ensures
        r == (a@ == b@),
{
    if a.len() != b.len() {
        return false;
    }
    let mut i: usize = 0;
    while i < a.len()
        invariant
            a.len() == b.len(),
            i <= a.len(),
            forall|t: int| 0 <= t < i ==> a@[t] == b@[t],
        decreases a.len() - i,
    {
        if a[i] != b[i] {
            return false;
        }
        i = i + 1;
    }
    proof {
        assert(a@ =~= b@);
    }
    true
}

/// Whether two strings are equal.
pub fn str_equal(a: &str, b: &str) -> (r: bool)
    ensures
        r == (a@ == b@),
{
    let ac = chars_of(a);
    let bc = chars_of(b);
    chars_equal(&ac, &bc)
}

/// The string made of `s[lo..hi]`.
pub fn string_of(s: &Vec<char>, lo: usize, hi: usize) -> (r: String)
    requires
        lo <= hi <= s.len(),
    ensures
        r@ == s@.subrange(lo as int, hi as int),
{
    let mut r = String::new();
    let mut i = lo;
    while i < hi
        invariant
            lo <= i <= hi <= s.len(),
            r@ == s@.subrange(lo as int, i as int),
        decreases hi - i,
    {
        push_char(&mut r, s[i]);
        proof {
            assert(s@.subrange(lo as int, i + 1) =~= s@.subrange(lo as int, i as int).push(s@[i as int]));
        }
        i = i + 1;
    }
    r
}

/// Appends the characters of `t` to `r`.
pub fn push_all(r: &mut String, t: &Vec<char>)
    ensures
        final(r)@ == old(r)@ + t@,
{
    let mut i: usize = 0;
    while i < t.len()
        invariant
            i <= t.len(),
            r@ == old(r)@ + t@.take(i as int),
        decreases t.len() - i,
    {
        push_char(r, t[i]);
        proof {
            assert(t@.take(i + 1) =~= t@.take(i as int).push(t@[i as int]));
        }
        i = i + 1;
    }
    proof {
        assert(t@.take(t.len() as int) =~= t@);
    }
}

/// The first index from `lo` on where `s[lo..hi]` has no leading white space.
pub fn skip_ws_forward(s: &Vec<char>, lo: usize, hi: usize) -> (k: usize)
    requires
        lo <= hi <= s.len(),
    ensures
        lo <= k <= hi,
        trim_start_ws(s@.subrange(lo as int, hi as int)) == s@.subrange(k as int, hi as int),
{
    let mut k = lo;
    while k < hi && char_is_white_space(s[k])
        invariant
            lo <= k <= hi <= s.len(),
            trim_start_ws(s@.subrange(lo as int, hi as int)) == trim_start_ws(
                s@.subrange(k as int, hi as int),
            ),
        decreases hi - k,
    {
        proof {
            assert(s@.subrange(k as int, hi as int).drop_first() =~= s@.subrange(k + 1, hi as int));
        }
        k = k + 1;
    }
    k
}

/// The last index up to `hi` where `s[lo..hi]` has no trailing white space.
pub fn skip_ws_backward(s: &Vec<char>, lo: usize, hi: usize) -> (k: usize)
    requires
        lo <= hi <= s.len(),
    ensures
        lo <= k <= hi,
        trim_end_ws(s@.subrange(lo as int, hi as int)) == s@.subrange(lo as int, k as int),
{
    let mut k = hi;
    while k > lo && char_is_white_space(s[k - 1])
        invariant
            lo <= k <= hi <= s.len(),
            trim_end_ws(s@.subrange(lo as int, hi as int)) == trim_end_ws(
                s@.subrange(lo as int, k as int),
            ),
        decreases k - lo,
    {
        proof {
            assert(s@.subrange(lo as int, k as int).drop_last() =~= s@.subrange(lo as int, k - 1));
        }
        k = k - 1;
    }
    k
}

/// The first index from `lo` on where `s[lo..hi]` does not start with `c`.
pub fn skip_char_forward(s: &Vec<char>, lo: usize, hi: usize, c: char) -> (k: usize)
    requires
        lo <= hi <= s.len(),
    ensures
        lo <= k <= hi,
        trim_start_char(s@.subrange(lo as int, hi as int), c) == s@.subrange(k as int, hi as int),
{
    let mut k = lo;
    while k < hi && s[k] == c
        invariant
            lo <= k <= hi <= s.len(),
            trim_start_char(s@.subrange(lo as int, hi as int), c) == trim_start_char(
                s@.subrange(k as int, hi as int),
                c,
            ),
        decreases hi - k,
    {
        proof {
            assert(s@.subrange(k as int, hi as int).drop_first() =~= s@.subrange(k + 1, hi as int));
        }
        k = k + 1;
    }
    k
}

/// The last index up to `hi` where `s[lo..hi]` does not end with `c`.
pub fn skip_char_backward(s: &Vec<char>, lo: usize, hi: usize, c: char) -> (k: usize)
    requires
        lo <= hi <= s.len(),
    ensures
        lo <= k <= hi,
        trim_end_char(s@.subrange(lo as int, hi as int), c) == s@.subrange(lo as int, k as int),
{
    let mut k = hi;
    while k > lo && s[k - 1] == c
        invariant
            lo <= k <= hi <= s.len(),
            trim_end_char(s@.subrange(lo as int, hi as int), c) == trim_end_char(
                s@.subrange(lo as int, k as int),
                c,
            ),
        decreases k - lo,
    {
        proof {
            assert(s@.subrange(lo as int, k as int).drop_last() =~= s@.subrange(lo as int, k - 1));
        }
        k = k - 1;
    }
    k
}

/// Whether `p` occurs in `s` at index `i`, ending at or before `hi`.
pub fn matches_at(s: &Vec<char>, i: usize, hi: usize, p: &Vec<char>) -> (b: bool)
    requires
        i <= hi <= s.len(),
    ensures
        b == (p.len() <= hi - i && s@.subrange(i as int, i + p.len()) == p@),
{
    if p.len() > hi - i {
        return false;
    }
    let mut j: usize = 0;
    while j < p.len()
        invariant
            p.len() <= hi - i,
            hi <= s.len(),
            j <= p.len(),
            forall|t: int| 0 <= t < j ==> s@[i + t] == p@[t],
        decreases p.len() - j,
    {
        if s[i + j] != p[j] {
            proof {
                assert(s@.subrange(i as int, i + p.len())[j as int] != p@[j as int]);
            }
            return false;
        }
        j = j + 1;
    }
    proof {
        assert(s@.subrange(i as int, i + p.len()) =~= p@);
    }
    true
}

/// `s` with every non-overlapping occurrence of `p`, found from the left, replaced
/// by `r`, and the number of occurrences replaced.
pub fn replace_and_count(s: &Vec<char>, p: &Vec<char>, r: &Vec<char>) -> (res: (String, usize))
    requires
        p.len() > 0,
    ensures
        res.0@ == replace_all(s@, p@, r@),
        res.1 == count_matches(s@, p@),
{
    let n = s.len();
    let mut out = String::new();
    let mut count: usize = 0;
    let mut i: usize = 0;
    proof {
        assert(s@.subrange(0, n as int) =~= s@);
    }
    while i < n
        invariant
            i <= n == s.len(),
            count <= i,
            p.len() > 0,
            replace_all(s@, p@, r@) == out@ + replace_all(s@.subrange(i as int, n as int), p@, r@),
            count_matches(s@, p@) == count + count_matches(s@.subrange(i as int, n as int), p@),
        decreases n - i,
    {
        let ghost t = s@.subrange(i as int, n as int);
        if matches_at(s, i, n, p) {
            proof {
                assert(t.take(p.len() as int) =~= s@.subrange(i as int, i + p.len()));
                assert(t.skip(p.len() as int) =~= s@.subrange(i + p.len(), n as int));
            }
            push_all(&mut out, r);
            count = count + 1;
            i = i + p.len();
        } else {
            proof {
                assert(t.drop_first() =~= s@.subrange(i + 1, n as int));
                if t.len() >= p.len() {
                    assert(t.take(p.len() as int) =~= s@.subrange(i as int, i + p.len()));
                } else {
                    assert(t =~= seq![t[0]] + t.drop_first());
                }
            }
            push_char(&mut out, s[i]);
            i = i + 1;
        }
    }
    proof {
        assert(s@.subrange(n as int, n as int) =~= Seq::<char>::empty());
        assert(out@ + Seq::<char>::empty() =~= out@);
    }
    (out, count)
}

} // verus!
