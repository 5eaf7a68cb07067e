//! What rewriting a manifest does to its lines, and hence to its version.
use vstd::prelude::*;
use crate::text::{count_matches, is_white_space, lines, lines_from, replace_all, strip_cr, strip_prefix, trim_end_char, trim_end_ws, trim_start_char, trim_start_ws, trim_ws};
use crate::version::{bump_outcome, first_version, line_version, manifest_version, version_assignment, version_key};

verus! {

/// `s` holds no line feed.
pub open spec fn no_newline(s: Seq<char>) -> bool {
    forall|i: int| 0 <= i < s.len() ==> #[trigger] s[i] != '\n'
}

/// The first line feed in `s`, if any.
proof fn first_newline(s: Seq<char>) -> (r: Option<int>)
    ensures
        match r {
            Some(i) => 0 <= i < s.len() && s[i] == '\n' && no_newline(s.take(i)),
            None => no_newline(s),
        },
    decreases s.len(),
{
    if s.len() == 0 {
        None
    } else if s[0] == '\n' {
        assert(s.take(0).len() == 0);
        Some(0)
    } else {
        match first_newline(s.drop_first()) {
            Some(i) => {
                assert forall|j: int| 0 <= j < i + 1 implies #[trigger] s.take(i + 1)[j] != '\n' by {
                    if j > 0 {
                        assert(s.take(i + 1)[j] == s.drop_first().take(i)[j - 1]);
                    }
                }
                Some(i + 1)
            },
            None => {
                assert forall|j: int| 0 <= j < s.len() implies #[trigger] s[j] != '\n' by {
                    if j > 0 {
                        assert(s[j] == s.drop_first()[j - 1]);
                    }
                }
                None
            },
        }
    }
}

/// A replacement whose pattern holds no line feed works line by line.
proof fn lemma_replace_splits_at_newline(a: Seq<char>, b: Seq<char>, p: Seq<char>, r: Seq<char>)
    requires
        p.len() > 0,
        no_newline(p),
    ensures
        replace_all(a + seq!['\n'] + b, p, r) == replace_all(a, p, r) + seq!['\n'] + replace_all(b, p, r),
    decreases a.len(),
{
    let s = a + seq!['\n'] + b;
    let n = p.len() as int;
    assert(s[a.len() as int] == '\n');
    if s.len() < n {
    } else if s.take(n) == p {
        if a.len() < n {
            assert(s.take(n)[a.len() as int] == '\n');
            assert(false);
        }
        assert(a.take(n) =~= s.take(n));
        assert(s.skip(n) =~= a.skip(n) + seq!['\n'] + b);
        lemma_replace_splits_at_newline(a.skip(n), b, p, r);
        assert(replace_all(s, p, r) =~= replace_all(a, p, r) + seq!['\n'] + replace_all(b, p, r));
    } else if a.len() == 0 {
        assert(s.drop_first() =~= b);
        assert(a =~= Seq::<char>::empty());
        assert(replace_all(s, p, r) =~= replace_all(a, p, r) + seq!['\n'] + replace_all(b, p, r));
    } else {
        assert(s.drop_first() =~= a.drop_first() + seq!['\n'] + b);
        lemma_replace_splits_at_newline(a.drop_first(), b, p, r);
        if a.len() >= n {
            assert(a.take(n) =~= s.take(n));
        } else {
            assert(a =~= seq![a[0]] + a.drop_first());
        }
        assert(replace_all(s, p, r) =~= replace_all(a, p, r) + seq!['\n'] + replace_all(b, p, r));
    }
}

/// Replacing with a text free of line feeds adds none.
proof fn lemma_replace_keeps_no_newline(a: Seq<char>, p: Seq<char>, r: Seq<char>)
    requires
        p.len() > 0,
        no_newline(a),
        no_newline(r),
    ensures
        no_newline(replace_all(a, p, r)),
    decreases a.len(),
{
    let n = p.len() as int;
    if a.len() < n {
    } else if a.take(n) == p {
        assert(no_newline(a.skip(n))) by {
            assert forall|i: int| 0 <= i < a.skip(n).len() implies #[trigger] a.skip(n)[i] != '\n' by {
                assert(a.skip(n)[i] == a[i + n]);
            }
        }
        lemma_replace_keeps_no_newline(a.skip(n), p, r);
        let t = replace_all(a.skip(n), p, r);
        assert forall|i: int| 0 <= i < (r + t).len() implies #[trigger] (r + t)[i] != '\n' by {
            if i >= r.len() {
                assert((r + t)[i] == t[i - r.len()]);
            }
        }
    } else {
        assert(no_newline(a.drop_first())) by {
            assert forall|i: int| 0 <= i < a.drop_first().len() implies #[trigger] a.drop_first()[i] != '\n' by {
                assert(a.drop_first()[i] == a[i + 1]);
            }
        }
        lemma_replace_keeps_no_newline(a.drop_first(), p, r);
        let t = replace_all(a.drop_first(), p, r);
        assert forall|i: int| 0 <= i < (seq![a[0]] + t).len() implies #[trigger] (seq![a[0]] + t)[i] != '\n' by {
            if i >= 1 {
                assert((seq![a[0]] + t)[i] == t[i - 1]);
            }
        }
    }
}

/// Replacing with a non-empty text leaves a non-empty text non-empty, and the
/// last character of the result is the last of the text or of the replacement.
proof fn lemma_replace_ends(a: Seq<char>, p: Seq<char>, r: Seq<char>)
    requires
        p.len() > 0,
        r.len() > 0,
    ensures
        a.len() == 0 ==> replace_all(a, p, r).len() == 0,
        a.len() > 0 ==> replace_all(a, p, r).len() > 0,
        a.len() > 0 ==> (replace_all(a, p, r).last() == a.last() || replace_all(a, p, r).last()
            == r.last()),
    decreases a.len(),
{
    let n = p.len() as int;
    if a.len() < n {
    } else if a.take(n) == p {
        lemma_replace_ends(a.skip(n), p, r);
        let t = replace_all(a.skip(n), p, r);
        if t.len() > 0 {
            assert(a.skip(n).last() == a.last());
            assert((r + t).last() == t.last());
        } else {
            assert((r + t).last() == r.last());
        }
    } else {
        lemma_replace_ends(a.drop_first(), p, r);
        let t = replace_all(a.drop_first(), p, r);
        if t.len() > 0 {
            assert(a.drop_first().last() == a.last());
            assert((seq![a[0]] + t).last() == t.last());
        } else {
            assert(a.len() == 1);
            assert((seq![a[0]] + t).last() == a[0]);
        }
    }
}

/// A last character that no occurrence can end with is left in place.
proof fn lemma_replace_append_char(a: Seq<char>, c: char, p: Seq<char>, r: Seq<char>)
    requires
        p.len() > 0,
        p.last() != c,
    ensures
        replace_all(a + seq![c], p, r) == replace_all(a, p, r) + seq![c],
    decreases a.len(),
{
    let s = a + seq![c];
    let n = p.len() as int;
    if s.len() < n {
    } else if s.take(n) == p {
        if a.len() < n {
            assert(s.take(n)[n - 1] == c);
            assert(false);
        }
        assert(a.take(n) =~= s.take(n));
        assert(s.skip(n) =~= a.skip(n) + seq![c]);
        lemma_replace_append_char(a.skip(n), c, p, r);
        assert(replace_all(s, p, r) =~= replace_all(a, p, r) + seq![c]);
    } else if a.len() == 0 {
        assert(s.drop_first() =~= Seq::<char>::empty());
        assert(a =~= Seq::<char>::empty());
        assert(s[0] == c);
        assert(replace_all(Seq::<char>::empty(), p, r) =~= Seq::<char>::empty());
        assert(replace_all(s, p, r) =~= replace_all(a, p, r) + seq![c]);
    } else {
        assert(s.drop_first() =~= a.drop_first() + seq![c]);
        lemma_replace_append_char(a.drop_first(), c, p, r);
        if a.len() >= n {
            assert(a.take(n) =~= s.take(n));
        } else {
            assert(a =~= seq![a[0]] + a.drop_first());
        }
        assert(replace_all(s, p, r) =~= replace_all(a, p, r) + seq![c]);
    }
}

/// Dropping the carriage return that ends a line commutes with the replacement.
proof fn lemma_strip_cr_commutes(a: Seq<char>, p: Seq<char>, r: Seq<char>)
    requires
        p.len() > 0,
        p.last() != '\r',
        r.len() > 0,
        r.last() != '\r',
    ensures
        strip_cr(replace_all(a, p, r)) == replace_all(strip_cr(a), p, r),
{
    if a.len() > 0 && a.last() == '\r' {
        assert(a =~= a.drop_last() + seq!['\r']);
        lemma_replace_append_char(a.drop_last(), '\r', p, r);
        let t = replace_all(a.drop_last(), p, r);
        assert((t + seq!['\r']).drop_last() =~= t);
    } else {
        lemma_replace_ends(a, p, r);
    }
}

/// The lines of a text without line feeds: the text itself, if it is not empty.
proof fn lemma_lines_without_newline(a: Seq<char>, cur: Seq<char>)
    requires
        no_newline(a),
    ensures
        lines_from(a, cur) == (if (cur + a).len() == 0 {
            Seq::<Seq<char>>::empty()
        } else {
            seq![cur + a]
        }),
    decreases a.len(),
{
    if a.len() == 0 {
        assert(cur + a =~= cur);
    } else {
        assert(no_newline(a.drop_first())) by {
            assert forall|i: int| 0 <= i < a.drop_first().len() implies #[trigger] a.drop_first()[i] != '\n' by {
                assert(a.drop_first()[i] == a[i + 1]);
            }
        }
        lemma_lines_without_newline(a.drop_first(), cur.push(a[0]));
        assert(cur.push(a[0]) + a.drop_first() =~= cur + a);
    }
}

/// The lines of a text that has a line feed: the line before it, then the lines
/// after it.
proof fn lemma_lines_at_newline(a: Seq<char>, b: Seq<char>, cur: Seq<char>)
    requires
        no_newline(a),
    ensures
        lines_from(a + seq!['\n'] + b, cur) == seq![strip_cr(cur + a)] + lines(b),
    decreases a.len(),
{
    let s = a + seq!['\n'] + b;
    if a.len() == 0 {
        assert(s[0] == '\n');
        assert(s.drop_first() =~= b);
        assert(cur + a =~= cur);
    } else {
        assert(s[0] == a[0]);
        assert(s.drop_first() =~= a.drop_first() + seq!['\n'] + b);
        assert(no_newline(a.drop_first())) by {
            assert forall|i: int| 0 <= i < a.drop_first().len() implies #[trigger] a.drop_first()[i] != '\n' by {
                assert(a.drop_first()[i] == a[i + 1]);
            }
        }
        lemma_lines_at_newline(a.drop_first(), b, cur.push(a[0]));
        assert(cur.push(a[0]) + a.drop_first() =~= cur + a);
    }
}

/// A replacement between texts free of line feeds, whose pattern and
/// replacement end in no carriage return, works on each line.
pub proof fn lemma_lines_of_replace(s: Seq<char>, p: Seq<char>, r: Seq<char>)
    requires
        p.len() > 0,
        no_newline(p),
        p.last() != '\r',
        r.len() > 0,
        no_newline(r),
        r.last() != '\r',
    ensures
        lines(replace_all(s, p, r)) == lines(s).map_values(|l: Seq<char>| replace_all(l, p, r)),
    decreases s.len(),
{
    match first_newline(s) {
        None => {
            lemma_lines_without_newline(s, Seq::empty());
            lemma_replace_keeps_no_newline(s, p, r);
            let t = replace_all(s, p, r);
            lemma_lines_without_newline(t, Seq::empty());
            lemma_replace_ends(s, p, r);
            assert(Seq::<char>::empty() + s =~= s);
            assert(Seq::<char>::empty() + t =~= t);
            assert(lines(t) =~= lines(s).map_values(|l: Seq<char>| replace_all(l, p, r)));
        },
        Some(i) => {
            let a = s.take(i);
            let b = s.skip(i + 1);
            assert(s =~= a + seq!['\n'] + b);
            lemma_replace_splits_at_newline(a, b, p, r);
            let ra = replace_all(a, p, r);
            let rb = replace_all(b, p, r);
            lemma_replace_keeps_no_newline(a, p, r);
            lemma_lines_at_newline(a, b, Seq::empty());
            lemma_lines_at_newline(ra, rb, Seq::empty());
            assert(Seq::<char>::empty() + a =~= a);
            assert(Seq::<char>::empty() + ra =~= ra);
            lemma_lines_of_replace(b, p, r);
            lemma_strip_cr_commutes(a, p, r);
            assert(lines(replace_all(s, p, r)) =~= lines(s).map_values(
                |l: Seq<char>| replace_all(l, p, r),
            ));
        },
    }
}

/// The part of a line that decides whether it assigns `version`: it starts with
/// `version`, and after optional white space comes `=`.
pub open spec fn version_head(t: Seq<char>) -> bool {
    strip_prefix(t, version_key()) matches Some(rest) && strip_prefix(
        trim_start_ws(rest),
        seq!['='],
    ) is Some
}

/// Trimming leading white space drops a prefix of white space.
proof fn lemma_trim_start_is_suffix(z: Seq<char>) -> (k: int)
    ensures
        0 <= k <= z.len(),
        trim_start_ws(z) == z.skip(k),
        forall|j: int| 0 <= j < k ==> is_white_space(#[trigger] z[j]),
        k < z.len() ==> !is_white_space(z[k]),
    decreases z.len(),
{
    if z.len() > 0 && is_white_space(z[0]) {
        let k = lemma_trim_start_is_suffix(z.drop_first());
        assert(z.drop_first().skip(k) =~= z.skip(k + 1));
        assert forall|j: int| 0 <= j < k + 1 implies is_white_space(#[trigger] z[j]) by {
            if j > 0 {
                assert(z[j] == z.drop_first()[j - 1]);
            }
        }
        k + 1
    } else {
        assert(z.skip(0) =~= z);
        0
    }
}

/// Trimming trailing white space drops a suffix of white space.
proof fn lemma_trim_end_is_prefix(z: Seq<char>) -> (k: int)
    ensures
        0 <= k <= z.len(),
        trim_end_ws(z) == z.take(k),
        forall|j: int| k <= j < z.len() ==> is_white_space(#[trigger] z[j]),
        k > 0 ==> !is_white_space(z[k - 1]),
    decreases z.len(),
{
    if z.len() > 0 && is_white_space(z.last()) {
        let k = lemma_trim_end_is_prefix(z.drop_last());
        assert(z.drop_last().take(k) =~= z.take(k));
        assert forall|j: int| k <= j < z.len() implies is_white_space(#[trigger] z[j]) by {
            if j < z.len() - 1 {
                assert(z[j] == z.drop_last()[j]);
            }
        }
        k
    } else {
        assert(z.take(z.len() as int) =~= z);
        z.len() as int
    }
}

/// Two texts that agree up to a character that is not white space drop the same
/// amount of leading white space.
proof fn lemma_trim_start_shared(x: Seq<char>, y: Seq<char>, m: int, i: int) -> (k: int)
    requires
        m <= x.len(),
        m <= y.len(),
        x.take(m) == y.take(m),
        0 <= i < m,
        !is_white_space(x[i]),
    ensures
        0 <= k <= i,
        trim_start_ws(x) == x.skip(k),
        trim_start_ws(y) == y.skip(k),
    decreases i,
{
    assert(x[0] == x.take(m)[0]);
    assert(y[0] == y.take(m)[0]);
    if !is_white_space(x[0]) {
        assert(x.skip(0) =~= x);
        assert(y.skip(0) =~= y);
        0
    } else {
        assert(x.drop_first().take(m - 1) =~= x.take(m).drop_first());
        assert(y.drop_first().take(m - 1) =~= y.take(m).drop_first());
        assert(x.drop_first()[i - 1] == x[i]);
        let k = lemma_trim_start_shared(x.drop_first(), y.drop_first(), m - 1, i - 1);
        assert(x.drop_first().skip(k) =~= x.skip(k + 1));
        assert(y.drop_first().skip(k) =~= y.skip(k + 1));
        k + 1
    }
}

/// Whether a line starts like a `version` assignment depends only on its
/// characters up to one that is not white space, past the key.
proof fn lemma_head_shared(x: Seq<char>, y: Seq<char>, m: int, i: int)
    requires
        m <= x.len(),
        m <= y.len(),
        x.take(m) == y.take(m),
        7 <= i < m,
        !is_white_space(x[i]),
    ensures
        version_head(x) == version_head(y),
{
    assert(x.take(7) =~= x.take(m).take(7));
    assert(y.take(7) =~= y.take(m).take(7));
    if x.take(7) == version_key() {
        let rx = x.skip(7);
        let ry = y.skip(7);
        assert(rx.take(m - 7) =~= x.take(m).skip(7));
        assert(ry.take(m - 7) =~= y.take(m).skip(7));
        assert(rx[i - 7] == x[i]);
        let k = lemma_trim_start_shared(rx, ry, m - 7, i - 7);
        assert(rx[k] == x.take(m)[k + 7]);
        assert(ry[k] == y.take(m)[k + 7]);
        let tx = trim_start_ws(rx);
        let ty = trim_start_ws(ry);
        assert(tx[0] == ty[0]);
        assert(tx.take(1) =~= seq![tx[0]]);
        assert(ty.take(1) =~= seq![ty[0]]);
    }
}

/// Where a line that starts like a `version` assignment has its `=`.
proof fn lemma_head_equals_sign(x: Seq<char>) -> (i: int)
    requires
        version_head(x),
    ensures
        7 <= i < x.len(),
        x[i] == '=',
{
    let rest = x.skip(7);
    let k = lemma_trim_start_is_suffix(rest);
    let t = trim_start_ws(rest);
    assert(t.take(1)[0] == '=');
    assert(t[0] == rest[k]);
    k + 7
}

/// Trailing white space does not change whether a line starts like a `version`
/// assignment.
proof fn lemma_head_ignores_trailing_ws(x: Seq<char>)
    ensures
        version_head(trim_end_ws(x)) == version_head(x),
    decreases x.len(),
{
    if x.len() > 0 && is_white_space(x.last()) {
        let d = x.drop_last();
        lemma_head_ignores_trailing_ws(d);
        let m = x.len() - 1;
        assert(x.take(m) =~= d.take(m));
        if version_head(x) {
            let i = lemma_head_equals_sign(x);
            assert(i != m);
            lemma_head_shared(x, d, m, i);
        } else if version_head(d) {
            let i = lemma_head_equals_sign(d);
            lemma_head_shared(d, x, m, i);
        }
    }
}

/// Replacing `version = "<a>"` by `version = "<b>"` keeps, in front of the first
/// replaced place, the text and the shared `version = "` that follows.
proof fn lemma_replace_shares_prefix(l: Seq<char>, p: Seq<char>, r: Seq<char>) -> (q: Option<int>)
    requires
        p.len() >= 11,
        r.len() >= 11,
        p.take(11) == r.take(11),
    ensures
        match q {
            None => replace_all(l, p, r) == l,
            Some(q) => 0 <= q && q + p.len() <= l.len() && q + 11 <= replace_all(l, p, r).len()
                && replace_all(l, p, r).take(q + 11) == l.take(q + 11) && l.skip(q).take(
                p.len() as int,
            ) == p,
        },
    decreases l.len(),
{
    let n = p.len() as int;
    if l.len() < n {
        None
    } else if l.take(n) == p {
        let t = replace_all(l.skip(n), p, r);
        assert((r + t).take(11) =~= r.take(11));
        assert(l.take(11) =~= p.take(11));
        assert(l.skip(0) =~= l);
        Some(0)
    } else {
        let d = l.drop_first();
        let t = replace_all(d, p, r);
        match lemma_replace_shares_prefix(d, p, r) {
            None => {
                assert(seq![l[0]] + d =~= l);
                None
            },
            Some(q) => {
                assert((seq![l[0]] + t).take(q + 12) =~= seq![l[0]] + t.take(q + 11));
                assert(l.take(q + 12) =~= seq![l[0]] + d.take(q + 11));
                assert(l.skip(q + 1) =~= d.skip(q));
                Some(q + 1)
            },
        }
    }
}

/// A line that does not assign `version` still does not once rewritten.
proof fn lemma_rewrite_keeps_other_lines(l: Seq<char>, old: Seq<char>, new: Seq<char>)
    requires
        line_version(l) is None,
    ensures
        line_version(replace_all(l, version_assignment(old), version_assignment(new))) is None,
{
    let p = version_assignment(old);
    let r = version_assignment(new);
    let f = replace_all(l, p, r);
    assert(p.take(11) =~= r.take(11));
    match lemma_replace_shares_prefix(l, p, r) {
        None => {},
        Some(q) => {
            let m = q + 11;
            assert(l[q] == l.skip(q).take(p.len() as int)[0]);
            assert(l[q + 8] == l.skip(q).take(p.len() as int)[8]);
            assert(f.take(m) == l.take(m));
            let k = lemma_trim_start_shared(l, f, m, q);
            let x = l.skip(k);
            let y = f.skip(k);
            assert(x.take(m - k) =~= l.take(m).skip(k));
            assert(y.take(m - k) =~= f.take(m).skip(k));
            if q - k >= 7 {
                assert(x[q - k] == l[q]);
                lemma_head_shared(x, y, m - k, q - k);
            } else {
                assert(x[q - k + 8] == l[q + 8]);
                lemma_head_shared(x, y, m - k, q - k + 8);
            }
            lemma_head_ignores_trailing_ws(x);
            lemma_head_ignores_trailing_ws(y);
        },
    }
}

/// All characters of `w` are white space.
pub open spec fn all_white_space(w: Seq<char>) -> bool {
    forall|i: int| 0 <= i < w.len() ==> is_white_space(#[trigger] w[i])
}

/// Leading white space is kept by a replacement whose pattern starts otherwise.
proof fn lemma_replace_after_ws(w: Seq<char>, x: Seq<char>, p: Seq<char>, r: Seq<char>)
    requires
        p.len() > 0,
        !is_white_space(p[0]),
        all_white_space(w),
    ensures
        replace_all(w + x, p, r) == w + replace_all(x, p, r),
    decreases w.len(),
{
    let s = w + x;
    let n = p.len() as int;
    if w.len() > 0 {
        assert(s[0] == w[0]);
        if s.len() >= n {
            assert(s.take(n)[0] == s[0]);
        } else {
            assert(replace_all(x, p, r) == x);
        }
        assert(s.drop_first() =~= w.drop_first() + x);
        assert(all_white_space(w.drop_first())) by {
            assert forall|i: int| 0 <= i < w.drop_first().len() implies is_white_space(#[trigger] w.drop_first()[i]) by {
                assert(w.drop_first()[i] == w[i + 1]);
            }
        }
        lemma_replace_after_ws(w.drop_first(), x, p, r);
        assert(replace_all(s, p, r) =~= w + replace_all(x, p, r));
    } else {
        assert(s =~= x);
        assert(w + replace_all(x, p, r) =~= replace_all(x, p, r));
    }
}

/// A text without the first character of the pattern is left as it is.
proof fn lemma_replace_absent(x: Seq<char>, p: Seq<char>, r: Seq<char>)
    requires
        p.len() > 0,
        forall|i: int| 0 <= i < x.len() ==> #[trigger] x[i] != p[0],
    ensures
        replace_all(x, p, r) == x,
    decreases x.len(),
{
    let n = p.len() as int;
    if x.len() >= n {
        assert(x.take(n)[0] == x[0]);
        lemma_replace_absent(x.drop_first(), p, r);
        assert(seq![x[0]] + x.drop_first() =~= x);
    }
}

/// Leading white space in front of a text that starts otherwise is trimmed away.
proof fn lemma_trim_start_of_ws_prefix(w: Seq<char>, y: Seq<char>)
    requires
        all_white_space(w),
        y.len() == 0 || !is_white_space(y[0]),
    ensures
        trim_start_ws(w + y) == y,
    decreases w.len(),
{
    if w.len() > 0 {
        assert((w + y)[0] == w[0]);
        assert((w + y).drop_first() =~= w.drop_first() + y);
        assert(all_white_space(w.drop_first())) by {
            assert forall|i: int| 0 <= i < w.drop_first().len() implies is_white_space(#[trigger] w.drop_first()[i]) by {
                assert(w.drop_first()[i] == w[i + 1]);
            }
        }
        lemma_trim_start_of_ws_prefix(w.drop_first(), y);
    } else {
        assert(w + y =~= y);
    }
}

/// Trailing white space behind a text that ends otherwise is trimmed away.
proof fn lemma_trim_end_of_ws_suffix(y: Seq<char>, w: Seq<char>)
    requires
        all_white_space(w),
        y.len() == 0 || !is_white_space(y.last()),
    ensures
        trim_end_ws(y + w) == y,
    decreases w.len(),
{
    if w.len() > 0 {
        assert((y + w).last() == w.last());
        assert((y + w).drop_last() =~= y + w.drop_last());
        assert(all_white_space(w.drop_last())) by {
            assert forall|i: int| 0 <= i < w.drop_last().len() implies is_white_space(#[trigger] w.drop_last()[i]) by {
                assert(w.drop_last()[i] == w[i]);
            }
        }
        lemma_trim_end_of_ws_suffix(y, w.drop_last());
    } else {
        assert(y + w =~= y);
    }
}

/// The value of an exact assignment `version = "<v>"` is `v`, when `v` neither
/// starts nor ends with a double quote.
proof fn lemma_assignment_value(v: Seq<char>)
    requires
        v.len() > 0 ==> v[0] != '"' && v.last() != '"',
    ensures
        line_version(version_assignment(v)) == Some(v),
{
    let a = version_assignment(v);
    lemma_trim_start_of_ws_prefix(Seq::empty(), a);
    assert(Seq::<char>::empty() + a =~= a);
    lemma_trim_end_of_ws_suffix(a, Seq::empty());
    assert(a + Seq::<char>::empty() =~= a);
    assert(trim_ws(a) == a);
    assert(a.take(7) =~= version_key());
    let rest = a.skip(7);
    assert(rest =~= seq![' ', '=', ' ', '"'] + v + seq!['"']);
    assert(rest.drop_first() =~= seq!['=', ' ', '"'] + v + seq!['"']);
    assert(trim_start_ws(rest) == trim_start_ws(rest.drop_first()));
    let e = rest.drop_first();
    assert(trim_start_ws(e) == e);
    assert(e.take(1) =~= seq!['=']);
    let value = e.skip(1);
    assert(value =~= seq![' ', '"'] + v + seq!['"']);
    let quoted = seq!['"'] + v + seq!['"'];
    assert(value.drop_first() =~= quoted);
    assert(trim_start_ws(value) == trim_start_ws(quoted));
    assert(trim_start_ws(quoted) == quoted);
    assert(trim_end_ws(quoted) == quoted);
    let inner = v + seq!['"'];
    assert(quoted.drop_first() =~= inner);
    assert(trim_start_char(quoted, '"') == trim_start_char(inner, '"'));
    if v.len() > 0 {
        assert(inner[0] == v[0]);
        assert(trim_start_char(inner, '"') == inner);
    } else {
        assert(inner =~= seq!['"']);
        assert(inner.drop_first() =~= Seq::<char>::empty());
        assert(trim_start_char(inner.drop_first(), '"') == inner.drop_first());
    }
    assert(inner.drop_last() =~= v);
    assert(trim_end_char(inner, '"') == trim_end_char(v, '"'));
    if v.len() > 0 {
        assert(trim_end_char(v, '"') == v);
    } else {
        assert(trim_end_char(Seq::<char>::empty(), '"') == Seq::<char>::empty());
    }
}

/// The line that reads exactly `version = "<old>"` reads `version = "<new>"` once
/// rewritten, so it assigns `new`.
#[verifier::rlimit(40)]
proof fn lemma_rewrite_sets_exact_line(l: Seq<char>, old: Seq<char>, new: Seq<char>)
    requires
        trim_ws(l) == version_assignment(old),
        new.len() > 0 ==> new[0] != '"' && new.last() != '"',
    ensures
        line_version(replace_all(l, version_assignment(old), version_assignment(new))) == Some(new),
{
    let p = version_assignment(old);
    let r = version_assignment(new);
    let k1 = lemma_trim_start_is_suffix(l);
    let t = l.skip(k1);
    let k2 = lemma_trim_end_is_prefix(t);
    let w1 = l.take(k1);
    let w2 = t.skip(k2);
    assert(t.take(k2) == p);
    assert(l =~= w1 + (p + w2));
    assert(all_white_space(w1)) by {
        assert forall|i: int| 0 <= i < w1.len() implies is_white_space(#[trigger] w1[i]) by {
            assert(w1[i] == l[i]);
        }
    }
    assert(all_white_space(w2)) by {
        assert forall|i: int| 0 <= i < w2.len() implies is_white_space(#[trigger] w2[i]) by {
            assert(w2[i] == t[i + k2]);
        }
    }
    assert(p[0] == 'v');
    lemma_replace_after_ws(w1, p + w2, p, r);
    let n = p.len() as int;
    assert((p + w2).take(n) =~= p);
    assert((p + w2).skip(n) =~= w2);
    assert forall|i: int| 0 <= i < w2.len() implies #[trigger] w2[i] != p[0] by {
        assert(is_white_space(w2[i]));
    }
    lemma_replace_absent(w2, p, r);
    assert(replace_all(p + w2, p, r) == r + w2);
    let f = replace_all(l, p, r);
    assert(f == w1 + (r + w2));
    assert(r[0] == 'v');
    lemma_trim_start_of_ws_prefix(w1, r + w2);
    assert((r + w2)[0] == r[0]);
    assert(r.last() == '"');
    lemma_trim_end_of_ws_suffix(r, w2);
    assert(trim_ws(f) == r);
    lemma_assignment_value(new);
    lemma_trim_start_of_ws_prefix(Seq::empty(), r);
    assert(Seq::<char>::empty() + r =~= r);
    lemma_trim_end_of_ws_suffix(r, Seq::empty());
    assert(r + Seq::<char>::empty() =~= r);
}

/// No line holds a line feed.
proof fn lemma_lines_have_no_newline(s: Seq<char>, cur: Seq<char>)
    requires
        no_newline(cur),
    ensures
        forall|i: int| 0 <= i < lines_from(s, cur).len() ==> no_newline(#[trigger] lines_from(s, cur)[i]),
    decreases s.len(),
{
    let ls = lines_from(s, cur);
    if s.len() == 0 {
        if cur.len() > 0 {
            assert(ls =~= seq![cur]);
            assert forall|i: int| 0 <= i < ls.len() implies no_newline(#[trigger] ls[i]) by {
                assert(ls[i] == cur);
            }
        }
    } else if s[0] == '\n' {
        let rest = lines_from(s.drop_first(), Seq::empty());
        assert(ls == seq![strip_cr(cur)] + rest);
        lemma_lines_have_no_newline(s.drop_first(), Seq::empty());
        assert(no_newline(strip_cr(cur))) by {
            assert forall|j: int| 0 <= j < strip_cr(cur).len() implies #[trigger] strip_cr(cur)[j] != '\n' by {
                assert(strip_cr(cur)[j] == cur[j]);
            }
        }
        assert forall|i: int| 0 <= i < ls.len() implies no_newline(#[trigger] ls[i]) by {
            if i > 0 {
                assert(ls[i] == rest[i - 1]);
            } else {
                assert(ls[i] == strip_cr(cur));
            }
        }
    } else {
        let c = cur.push(s[0]);
        assert(no_newline(c)) by {
            assert forall|j: int| 0 <= j < c.len() implies #[trigger] c[j] != '\n' by {
                if j < cur.len() {
                    assert(c[j] == cur[j]);
                }
            }
        }
        lemma_lines_have_no_newline(s.drop_first(), c);
        assert(ls == lines_from(s.drop_first(), c));
    }
}

/// Rewriting every line: when the first `version` line reads exactly
/// `version = "<old>"`, the first `version` line afterwards assigns `new`.
proof fn lemma_first_version_after_rewrite(ls: Seq<Seq<char>>, k: int, old: Seq<char>, new: Seq<char>)
    requires
        0 <= k < ls.len(),
        forall|j: int| 0 <= j < k ==> line_version(#[trigger] ls[j]) is None,
        trim_ws(ls[k]) == version_assignment(old),
        new.len() > 0 ==> new[0] != '"' && new.last() != '"',
    ensures
        first_version(
            ls.map_values(
                |l: Seq<char>| replace_all(l, version_assignment(old), version_assignment(new)),
            ),
        ) == Some(new),
    decreases k,
{
    let f = |l: Seq<char>| replace_all(l, version_assignment(old), version_assignment(new));
    let mapped = ls.map_values(f);
    assert(mapped[0] == f(ls[0]));
    if k == 0 {
        lemma_rewrite_sets_exact_line(ls[0], old, new);
    } else {
        assert(line_version(ls[0]) is None);
        lemma_rewrite_keeps_other_lines(ls[0], old, new);
        let tail = ls.drop_first();
        assert(mapped.drop_first() =~= tail.map_values(f));
        assert forall|j: int| 0 <= j < k - 1 implies line_version(#[trigger] tail[j]) is None by {
            assert(tail[j] == ls[j + 1]);
        }
        lemma_first_version_after_rewrite(tail, k - 1, old, new);
    }
}

/// The line that sets the current version reads exactly `version = "<current>"`
/// (apart from surrounding white space).
pub open spec fn version_line_is_exact(manifest: Seq<char>) -> bool {
    exists|k: int|
        0 <= k < lines(manifest).len() && (forall|j: int|
            0 <= j < k ==> line_version(#[trigger] lines(manifest)[j]) is None) && trim_ws(
            lines(manifest)[k],
        ) == version_assignment(manifest_version(manifest)->0)
}

/// After a rewrite, the manifest's version is the requested one: provided the
/// line that set the old version read exactly `version = "<old>"`, and the
/// requested version holds no line feed and neither starts nor ends with a
/// double quote.
pub proof fn law_rewrite_sets_requested_version(manifest: Seq<char>, version: Seq<char>)
    requires
        crate::version::bump_outcome(manifest, version) is Rewritten,
        version_line_is_exact(manifest),
        no_newline(version),
        version.len() > 0 ==> version[0] != '"' && version.last() != '"',
    ensures
        manifest_version(crate::version::bump_outcome(manifest, version)->manifest) == Some(version),
{
    let old = manifest_version(manifest)->0;
    let p = version_assignment(old);
    let r = version_assignment(version);
    let ls = lines(manifest);
    let k = choose|k: int|
        0 <= k < lines(manifest).len() && (forall|j: int|
            0 <= j < k ==> line_version(#[trigger] lines(manifest)[j]) is None) && trim_ws(
            lines(manifest)[k],
        ) == version_assignment(manifest_version(manifest)->0);
    lemma_lines_have_no_newline(manifest, Seq::empty());
    assert(no_newline(ls[k]));
    let k1 = lemma_trim_start_is_suffix(ls[k]);
    let k2 = lemma_trim_end_is_prefix(ls[k].skip(k1));
    assert(no_newline(p)) by {
        assert forall|j: int| 0 <= j < p.len() implies #[trigger] p[j] != '\n' by {
            assert(p[j] == ls[k].skip(k1).take(k2)[j]);
            assert(p[j] == ls[k][j + k1]);
        }
    }
    assert(no_newline(r)) by {
        assert forall|j: int| 0 <= j < r.len() implies #[trigger] r[j] != '\n' by {
            if 11 <= j < r.len() - 1 {
                assert(r[j] == version[j - 11]);
            }
        }
    }
    assert(p.last() == '"');
    assert(r.last() == '"');
    lemma_lines_of_replace(manifest, p, r);
    lemma_first_version_after_rewrite(ls, k, old, version);
}

/// Bumping to the version a rewrite just set changes nothing more (under the
/// same provisions as `law_rewrite_sets_requested_version`).
pub proof fn law_second_bump_is_unchanged(manifest: Seq<char>, version: Seq<char>)
    requires
        crate::version::bump_outcome(manifest, version) is Rewritten,
        version_line_is_exact(manifest),
        no_newline(version),
        version.len() > 0 ==> version[0] != '"' && version.last() != '"',
    ensures
        crate::version::bump_outcome(
            crate::version::bump_outcome(manifest, version)->manifest,
            version,
        ) == (crate::version::BumpOutcome::Unchanged { version }),
{
    law_rewrite_sets_requested_version(manifest, version);
}

/// The `len` characters of `s` from `i` on.
pub open spec fn window(s: Seq<char>, i: int, len: int) -> Seq<char> {
    s.subrange(i, i + len)
}

/// `p` occurs somewhere in `s`.
pub open spec fn occurs_in(s: Seq<char>, p: Seq<char>) -> bool {
    exists|i: int| 0 <= i && i + p.len() <= s.len() && #[trigger] window(s, i, p.len() as int) == p
}

/// No proper suffix of `q` is also a prefix of it, so two occurrences of `q`
/// cannot overlap.
pub open spec fn border_free(q: Seq<char>) -> bool {
    forall|k: int| 0 < k < q.len() ==> #[trigger] q.skip(k) != q.take(q.len() - k)
}

/// The first place where a replacement happens, if any: the text before it is
/// kept, and the replacement stands there.
proof fn lemma_replace_first(l: Seq<char>, p: Seq<char>, r: Seq<char>) -> (m: Option<int>)
    requires
        p.len() > 0,
    ensures
        match m {
            None => replace_all(l, p, r) == l && count_matches(l, p) == 0,
            Some(m) => 0 <= m && m + p.len() <= l.len() && m + r.len() <= replace_all(l, p, r).len()
                && replace_all(l, p, r).take(m) == l.take(m) && replace_all(l, p, r).subrange(
                m,
                m + r.len(),
            ) == r,
        },
    decreases l.len(),
{
    let n = p.len() as int;
    if l.len() < n {
        None
    } else if l.take(n) == p {
        let t = replace_all(l.skip(n), p, r);
        assert((r + t).subrange(0, r.len() as int) =~= r);
        assert((r + t).take(0) =~= l.take(0));
        Some(0)
    } else {
        let d = l.drop_first();
        let t = replace_all(d, p, r);
        match lemma_replace_first(d, p, r) {
            None => {
                assert(seq![l[0]] + d =~= l);
                None
            },
            Some(m) => {
                assert((seq![l[0]] + t).take(m + 1) =~= seq![l[0]] + t.take(m));
                assert(l.take(m + 1) =~= seq![l[0]] + d.take(m));
                assert((seq![l[0]] + t).subrange(m + 1, m + 1 + r.len()) =~= t.subrange(
                    m,
                    m + r.len(),
                ));
                Some(m + 1)
            },
        }
    }
}

/// A text in which `q` does not occur is left as it is by replacing `q`.
proof fn lemma_replace_absent_pattern(x: Seq<char>, q: Seq<char>, p: Seq<char>)
    requires
        q.len() > 0,
        !occurs_in(x, q),
    ensures
        replace_all(x, q, p) == x,
    decreases x.len(),
{
    let n = q.len() as int;
    if x.len() >= n {
        assert(x.take(n) =~= x.subrange(0, n));
        if x.take(n) == q {
            assert(window(x, 0, n) == q);
        }
        let d = x.drop_first();
        assert(!occurs_in(d, q)) by {
            if occurs_in(d, q) {
                let i = choose|i: int| 0 <= i && i + q.len() <= d.len() && #[trigger] window(d, i, q.len() as int) == q;
                assert(window(x, i + 1, n) =~= window(d, i, n));
            }
        }
        lemma_replace_absent_pattern(d, q, p);
        assert(x.take(n) != q);
        assert(replace_all(x, q, p) == seq![x[0]] + replace_all(d, q, p));
        assert(seq![x[0]] + d =~= x);
    } else {
        assert(replace_all(x, q, p) == x);
    }
}

/// Where a pattern occurs, at least one occurrence is counted.
proof fn lemma_occurs_counts(s: Seq<char>, p: Seq<char>)
    requires
        p.len() > 0,
        occurs_in(s, p),
    ensures
        count_matches(s, p) > 0,
    decreases s.len(),
{
    let n = p.len() as int;
    let i = choose|i: int| 0 <= i && i + p.len() <= s.len() && #[trigger] window(s, i, p.len() as int) == p;
    assert(s.len() >= n);
    if s.take(n) != p {
        if i == 0 {
            assert(s.take(n) =~= window(s, 0, n));
        }
        let d = s.drop_first();
        assert(window(d, i - 1, n) =~= window(s, i, n));
        lemma_occurs_counts(d, p);
    }
}

/// Replacing `p` by `q`, then `q` by `p`, gives back the text, when `q` did not
/// occur in it and cannot overlap itself.
proof fn lemma_replace_back(s: Seq<char>, p: Seq<char>, q: Seq<char>)
    requires
        p.len() > 0,
        q.len() > 0,
        border_free(q),
        !occurs_in(s, q),
    ensures
        replace_all(replace_all(s, p, q), q, p) == s,
    decreases s.len(),
{
    let n = p.len() as int;
    let nq = q.len() as int;
    if s.len() < n {
        lemma_replace_absent_pattern(s, q, p);
    } else if s.take(n) == p {
        let rest = s.skip(n);
        assert(!occurs_in(rest, q)) by {
            if occurs_in(rest, q) {
                let i = choose|i: int| 0 <= i && i + q.len() <= rest.len() && #[trigger] window(rest, i, q.len() as int) == q;
                assert(window(s, i + n, nq) =~= window(rest, i, nq));
            }
        }
        lemma_replace_back(rest, p, q);
        let t = replace_all(rest, p, q);
        assert((q + t).take(nq) =~= q);
        assert((q + t).skip(nq) =~= t);
        assert(p + rest =~= s);
    } else {
        let d = s.drop_first();
        let c = s[0];
        assert(!occurs_in(d, q)) by {
            if occurs_in(d, q) {
                let i = choose|i: int| 0 <= i && i + q.len() <= d.len() && #[trigger] window(d, i, q.len() as int) == q;
                assert(window(s, i + 1, nq) =~= window(d, i, nq));
            }
        }
        lemma_replace_back(d, p, q);
        let t = replace_all(d, p, q);
        let u = seq![c] + t;
        assert(u.drop_first() =~= t);
        assert(u[0] == c);
        if u.len() >= nq {
            assert(u.take(nq) != q) by {
                if u.take(nq) == q {
                    match lemma_replace_first(d, p, q) {
                        None => {
                            assert(s.subrange(0, nq) =~= u.take(nq));
                            assert(window(s, 0, nq) == q);
                        },
                        Some(m) => {
                            if m + 1 >= nq {
                                assert(s.subrange(0, nq) =~= u.take(nq)) by {
                                    assert forall|j: int| 0 <= j < nq implies #[trigger] s.subrange(0, nq)[j] == u.take(nq)[j] by {
                                        if j > 0 {
                                            assert(t.take(m)[j - 1] == d.take(m)[j - 1]);
                                        }
                                    }
                                }
                                assert(window(s, 0, nq) == q);
                            } else {
                                let k = m + 1;
                                assert(q.skip(k) =~= q.take(nq - k)) by {
                                    assert forall|j: int| 0 <= j < nq - k implies #[trigger] q.skip(k)[j] == q.take(nq - k)[j] by {
                                        assert(q.skip(k)[j] == u.take(nq)[k + j]);
                                        assert(u[k + j] == t[m + j]);
                                        assert(t.subrange(m, m + nq)[j] == q[j]);
                                    }
                                }
                                assert(q.skip(k) != q.take(nq - k));
                            }
                        },
                    }
                }
            }
        } else {
            assert(d.len() < nq);
        }
        if u.len() < nq {
            lemma_replace_absent_pattern(t, q, p);
        }
        assert(seq![c] + d =~= s);
    }
}

/// Bumping to a new version and back to the old one restores the manifest:
/// provided the line that set the old version read exactly `version = "<old>"`,
/// the manifest held no `version = "<new>"`, and the new version holds no line
/// feed, neither starts nor ends with a double quote, and its assignment cannot
/// overlap itself.
pub proof fn law_bump_back_restores(manifest: Seq<char>, version: Seq<char>)
    requires
        bump_outcome(manifest, version) is Rewritten,
        version_line_is_exact(manifest),
        no_newline(version),
        version.len() > 0 ==> version[0] != '"' && version.last() != '"',
        border_free(version_assignment(version)),
        !occurs_in(manifest, version_assignment(version)),
    ensures
        ({
            let old = manifest_version(manifest)->0;
            let bumped = bump_outcome(manifest, version)->manifest;
            &&& bump_outcome(bumped, old) is Rewritten
            &&& bump_outcome(bumped, old)->manifest == manifest
        }),
{
    let old = manifest_version(manifest)->0;
    let pa = version_assignment(old);
    let pb = version_assignment(version);
    let bumped = bump_outcome(manifest, version)->manifest;
    law_rewrite_sets_requested_version(manifest, version);
    assert(bumped == replace_all(manifest, pa, pb));
    match lemma_replace_first(manifest, pa, pb) {
        None => {
            assert(false);
        },
        Some(m) => {
            assert(window(bumped, m, pb.len() as int) == pb);
            lemma_occurs_counts(bumped, pb);
        },
    }
    lemma_replace_back(manifest, pa, pb);
}


/// A bump leaves the manifest unchanged only when its current version is the
/// requested one; when the current version differs and its exact assignment
/// `version = "<current>"` occurs in the manifest, the manifest is rewritten,
/// and the rewrite replaces that assignment by `version = "<requested>"`.
pub proof fn law_unchanged_only_at_requested_version(manifest: Seq<char>, version: Seq<char>)
    ensures
        bump_outcome(manifest, version) is Unchanged ==> manifest_version(manifest) == Some(version),
        bump_outcome(manifest, version) is Rewritten ==> manifest_version(manifest) is Some
            && manifest_version(manifest)->0 != version,
        ({
            let current = manifest_version(manifest)->0;
            let assignment = seq!['v', 'e', 'r', 's', 'i', 'o', 'n', ' ', '=', ' ', '"'] + current
                + seq!['"'];
            manifest_version(manifest) is Some && current != version && occurs_in(manifest, assignment)
                ==> bump_outcome(manifest, version) is Rewritten && bump_outcome(
                manifest,
                version,
            )->manifest == replace_all(
                manifest,
                assignment,
                seq!['v', 'e', 'r', 's', 'i', 'o', 'n', ' ', '=', ' ', '"'] + version + seq!['"'],
            )
        }),
{
    if let Some(current) = manifest_version(manifest) {
        let p = seq!['v', 'e', 'r', 's', 'i', 'o', 'n', ' ', '=', ' ', '"'] + current + seq!['"'];
        assert(p =~= version_assignment(current));
        assert(seq!['v', 'e', 'r', 's', 'i', 'o', 'n', ' ', '=', ' ', '"'] + version + seq!['"']
            =~= version_assignment(version));
        if current != version && occurs_in(manifest, p) {
            lemma_occurs_counts(manifest, p);
        }
    }
}

} // verus!
