//! Rewriting the workspace version in a Cargo manifest.
//!
//! The current version is the value of the first manifest line of the form
//! `version = "<value>"` (spaces and quotes are optional); the rewrite replaces
//! every exact `version = "<current>"` assignment by the requested version.
use vstd::prelude::*;
use crate::text::{
    chars_of, lines, lines_from, skip_char_backward, skip_char_forward,
    skip_ws_backward, skip_ws_forward, string_of, strip_cr, strip_prefix, trim_char,
    trim_start_char, trim_start_ws, trim_ws, matches_at, replace_and_count, count_matches,
    replace_all, chars_equal,
};

verus! {

/// The key `version`.
pub open spec fn version_key() -> Seq<char> {
    seq!['v', 'e', 'r', 's', 'i', 'o', 'n']
}

/// The value that a manifest line assigns to `version`, if it assigns one: once
/// trimmed, the line starts with `version`, then optional white space and `=`;
/// the value is the rest, trimmed, with its surrounding double quotes removed.
pub open spec fn line_version(line: Seq<char>) -> Option<Seq<char>> {
    match strip_prefix(trim_ws(line), version_key()) {
        Some(rest) => match strip_prefix(trim_start_ws(rest), seq!['=']) {
            Some(value) => Some(trim_char(trim_ws(value), '"')),
            None => None,
        },
        None => None,
    }
}

/// The value of the first line in `lines` that assigns `version`.
pub open spec fn first_version(lines: Seq<Seq<char>>) -> Option<Seq<char>>
    decreases lines.len(),
{
    if lines.len() == 0 {
        None
    } else {
        match line_version(lines[0]) {
            Some(v) => Some(v),
            None => first_version(lines.drop_first()),
        }
    }
}

/// The current version of a manifest: the value of its first `version` line.
pub open spec fn manifest_version(manifest: Seq<char>) -> Option<Seq<char>> {
    first_version(lines(manifest))
}

/// A requested version as it is used: trimmed, without leading `v`s.
pub open spec fn normalized_version(requested: Seq<char>) -> Seq<char> {
    trim_start_char(trim_ws(requested), 'v')
}

/// The exact assignment `version = "<v>"`.
pub open spec fn version_assignment(v: Seq<char>) -> Seq<char> {
    seq!['v', 'e', 'r', 's', 'i', 'o', 'n', ' ', '=', ' ', '"'] + v + seq!['"']
}

/// What a version bump amounts to.
#[derive(Debug)]
pub enum VersionBump {
    /// The manifest already has the requested version; nothing is to be written.
    Unchanged { version: String },
    /// The manifest with every assignment of the previous version rewritten.
    Rewritten { previous: String, version: String, manifest: String, occurrences: usize },
}

/// Why a version bump cannot be made.
#[derive(Debug, PartialEq, Eq)]
pub enum BumpError {
    /// The requested version is empty once normalized.
    EmptyVersion,
    /// No manifest line assigns `version`.
    CurrentVersionNotFound,
    /// The manifest holds no exact `version = "<current>"` assignment.
    AssignmentNotFound { assignment: String },
}

/// Normalizes a requested version: trims it and strips its leading `v`s.
/// Fails when nothing is left.
pub fn normalize_version(requested: &str) -> (r: Result<String, BumpError>)
    ensures
        normalized_version(requested@).len() == 0 <==> r is Err,
        r matches Err(e) ==> e == BumpError::EmptyVersion,
        r matches Ok(v) ==> v@ == normalized_version(requested@),
{
    let s = chars_of(requested);
    let n = s.len();
    proof {
        assert(s@.subrange(0, n as int) =~= s@);
    }
    let a = skip_ws_forward(&s, 0, n);
    let b = skip_ws_backward(&s, a, n);
    let c = skip_char_forward(&s, a, b, 'v');
    if c == b {
        proof {
            assert(s@.subrange(c as int, b as int).len() == 0);
        }
        Err(BumpError::EmptyVersion)
    } else {
        Ok(string_of(&s, c, b))
    }
}

/// The characters of `version = "<v>"`.
fn assignment_chars(v: &Vec<char>) -> (r: Vec<char>)
    ensures
        r@ == version_assignment(v@),
{
    let mut r: Vec<char> = Vec::new();
    r.push('v');
    r.push('e');
    r.push('r');
    r.push('s');
    r.push('i');
    r.push('o');
    r.push('n');
    r.push(' ');
    r.push('=');
    r.push(' ');
    r.push('"');
    let mut i: usize = 0;
    while i < v.len()
        invariant
            i <= v.len(),
            r@ == seq!['v', 'e', 'r', 's', 'i', 'o', 'n', ' ', '=', ' ', '"'] + v@.take(i as int),
        decreases v.len() - i,
    {
        r.push(v[i]);
        proof {
            assert(v@.take(i + 1) =~= v@.take(i as int).push(v@[i as int]));
        }
        i = i + 1;
    }
    r.push('"');
    proof {
        assert(v@.take(v.len() as int) =~= v@);
    }
    r
}

/// Where the value assigned to `version` lies in the line `s[lo..hi]`, if the line
/// assigns one.
fn line_version_range(s: &Vec<char>, lo: usize, hi: usize) -> (r: Option<(usize, usize)>)
    requires
        lo <= hi <= s.len(),
    ensures
        match r {
            Some((f, g)) => f <= g <= s.len() && line_version(s@.subrange(lo as int, hi as int))
                == Some(s@.subrange(f as int, g as int)),
            None => line_version(s@.subrange(lo as int, hi as int)) is None,
        },
{
    let ghost line = s@.subrange(lo as int, hi as int);
    let a = skip_ws_forward(s, lo, hi);
    let b = skip_ws_backward(s, a, hi);
    assert(trim_ws(line) == s@.subrange(a as int, b as int));
    let key: Vec<char> = vec!['v', 'e', 'r', 's', 'i', 'o', 'n'];
    assert(key@ == version_key());
    let ghost t = s@.subrange(a as int, b as int);
    if !matches_at(s, a, b, &key) {
        proof {
            if 7 <= t.len() {
                assert(t.take(7) =~= s@.subrange(a as int, a + 7));
            }
        }
        return None;
    }
    assert(t.take(7) =~= s@.subrange(a as int, a + 7));
    assert(t.skip(7) =~= s@.subrange(a + 7, b as int));
    let c = skip_ws_forward(s, a + 7, b);
    let ghost u = s@.subrange(c as int, b as int);
    if c < b && s[c] == '=' {
        assert(u.take(1) =~= seq!['=']);
        assert(u.skip(1) =~= s@.subrange(c + 1, b as int));
        let d = skip_ws_forward(s, c + 1, b);
        let e = skip_ws_backward(s, d, b);
        let f = skip_char_forward(s, d, e, '"');
        let g = skip_char_backward(s, f, e, '"');
        Some((f, g))
    } else {
        proof {
            if u.len() >= 1 {
                assert(u.take(1)[0] == s@[c as int]);
            }
        }
        None
    }
}

/// Where the current version of the manifest `s` lies in it, if it has one.
fn manifest_version_range(s: &Vec<char>) -> (r: Option<(usize, usize)>)
    ensures
        match r {
            Some((f, g)) => f <= g <= s.len() && manifest_version(s@) == Some(
                s@.subrange(f as int, g as int),
            ),
            None => manifest_version(s@) is None,
        },
{
    let n = s.len();
    let mut start: usize = 0;
    let mut i: usize = 0;
    proof {
        assert(s@.subrange(0, n as int) =~= s@);
        assert(s@.subrange(0, 0) =~= Seq::<char>::empty());
    }
    while i < n
        invariant
            start <= i <= n,
            n == s.len(),
            manifest_version(s@) == first_version(
                lines_from(s@.subrange(i as int, n as int), s@.subrange(start as int, i as int)),
            ),
        decreases n - i,
    {
        let ghost rest = s@.subrange(i as int, n as int);
        let ghost cur = s@.subrange(start as int, i as int);
        assert(rest[0] == s@[i as int]);
        assert(rest.drop_first() =~= s@.subrange(i + 1, n as int));
        if s[i] == '\n' {
            let end = if i > start && s[i - 1] == '\r' {
                i - 1
            } else {
                i
            };
            assert(strip_cr(cur) =~= s@.subrange(start as int, end as int));
            let ghost tail = lines_from(s@.subrange(i + 1, n as int), Seq::empty());
            assert((seq![strip_cr(cur)] + tail)[0] == strip_cr(cur));
            assert((seq![strip_cr(cur)] + tail).drop_first() =~= tail);
            let r = line_version_range(s, start, end);
            if r.is_some() {
                return r;
            }
            start = i + 1;
            assert(s@.subrange(start as int, i + 1) =~= Seq::<char>::empty());
        } else {
            assert(cur.push(s@[i as int]) =~= s@.subrange(start as int, i + 1));
        }
        i = i + 1;
    }
    let ghost cur = s@.subrange(start as int, n as int);
    assert(s@.subrange(n as int, n as int).len() == 0);
    if start < n {
        assert(s@.subrange(n as int, n as int) =~= Seq::<char>::empty());
        assert(lines_from(s@.subrange(n as int, n as int), cur) == seq![cur]);
        assert(seq![cur][0] == cur);
        assert(seq![cur].drop_first() =~= Seq::<Seq<char>>::empty());
        assert(first_version(Seq::<Seq<char>>::empty()) is None);
        assert(first_version(seq![cur]) == line_version(cur));
        line_version_range(s, start, n)
    } else {
        None
    }
}

/// The current version of a manifest, if a line assigns one.
pub fn find_manifest_version(manifest: &str) -> (r: Option<String>)
    ensures
        match r {
            Some(v) => manifest_version(manifest@) == Some(v@),
            None => manifest_version(manifest@) is None,
        },
{
    let s = chars_of(manifest);
    match manifest_version_range(&s) {
        Some((f, g)) => Some(string_of(&s, f, g)),
        None => None,
    }
}

/// The characters of `s[lo..hi]`.
fn sub_chars(s: &Vec<char>, lo: usize, hi: usize) -> (r: Vec<char>)
    requires
        lo <= hi <= s.len(),
    ensures
        r@ == s@.subrange(lo as int, hi as int),
{
    let mut r: Vec<char> = Vec::new();
    let mut i = lo;
    while i < hi
        invariant
            lo <= i <= hi <= s.len(),
            r@ == s@.subrange(lo as int, i as int),
        decreases hi - i,
    {
        r.push(s[i]);
        proof {
            assert(s@.subrange(lo as int, i + 1) =~= s@.subrange(lo as int, i as int).push(s@[i as int]));
        }
        i = i + 1;
    }
    r
}

/// The outcome of a version bump, over the views of its parts.
pub enum BumpOutcome {
    Unchanged { version: Seq<char> },
    Rewritten { previous: Seq<char>, version: Seq<char>, manifest: Seq<char>, occurrences: nat },
    EmptyVersion,
    CurrentVersionNotFound,
    AssignmentNotFound { assignment: Seq<char> },
}

/// The outcome that a planned bump stands for.
pub open spec fn planned(r: Result<VersionBump, BumpError>) -> BumpOutcome {
    match r {
        Ok(VersionBump::Unchanged { version }) => BumpOutcome::Unchanged { version: version@ },
        Ok(VersionBump::Rewritten { previous, version, manifest, occurrences }) => {
            BumpOutcome::Rewritten {
                previous: previous@,
                version: version@,
                manifest: manifest@,
                occurrences: occurrences as nat,
            }
        },
        Err(BumpError::EmptyVersion) => BumpOutcome::EmptyVersion,
        Err(BumpError::CurrentVersionNotFound) => BumpOutcome::CurrentVersionNotFound,
        Err(BumpError::AssignmentNotFound { assignment }) => BumpOutcome::AssignmentNotFound {
            assignment: assignment@,
        },
    }
}

/// Setting the version of `manifest` to `version`: nothing to do when it already
/// is `version`; otherwise every exact `version = "<current>"` is rewritten, which
/// fails when there is none.
pub open spec fn bump_outcome(manifest: Seq<char>, version: Seq<char>) -> BumpOutcome {
    match manifest_version(manifest) {
        None => BumpOutcome::CurrentVersionNotFound,
        Some(current) => if current == version {
            BumpOutcome::Unchanged { version }
        } else if count_matches(manifest, version_assignment(current)) == 0 {
            BumpOutcome::AssignmentNotFound { assignment: version_assignment(current) }
        } else {
            BumpOutcome::Rewritten {
                previous: current,
                version,
                manifest: replace_all(
                    manifest,
                    version_assignment(current),
                    version_assignment(version),
                ),
                occurrences: count_matches(manifest, version_assignment(current)),
            }
        },
    }
}

/// The whole bump request: the requested version is normalized first, and an
/// empty one is refused before the manifest is looked at.
pub open spec fn bump_request_outcome(manifest: Seq<char>, requested: Seq<char>) -> BumpOutcome {
    if normalized_version(requested).len() == 0 {
        BumpOutcome::EmptyVersion
    } else {
        bump_outcome(manifest, normalized_version(requested))
    }
}

/// Plans setting the manifest's version to `version`: finds the current version,
/// and unless it already is `version`, rewrites every exact assignment
/// `version = "<current>"` into `version = "<version>"`.
pub fn plan_version_bump(manifest: &str, version: &str) -> (r: Result<VersionBump, BumpError>)
    ensures
        planned(r) == bump_outcome(manifest@, version@),
{
    let s = chars_of(manifest);
    let (f, g) = match manifest_version_range(&s) {
        Some(range) => range,
        None => {
            return Err(BumpError::CurrentVersionNotFound);
        },
    };
    let current = sub_chars(&s, f, g);
    let wanted = chars_of(version);
    assert(wanted@.subrange(0, wanted.len() as int) =~= wanted@);
    assert(current@.subrange(0, current.len() as int) =~= current@);
    if chars_equal(&current, &wanted) {
        return Ok(VersionBump::Unchanged { version: string_of(&wanted, 0, wanted.len()) });
    }
    let from = assignment_chars(&current);
    let to = assignment_chars(&wanted);
    assert(from@.subrange(0, from.len() as int) =~= from@);
    let (rewritten, occurrences) = replace_and_count(&s, &from, &to);
    if occurrences == 0 {
        return Err(
            BumpError::AssignmentNotFound { assignment: string_of(&from, 0, from.len()) },
        );
    }
    Ok(
        VersionBump::Rewritten {
            previous: string_of(&current, 0, current.len()),
            version: string_of(&wanted, 0, wanted.len()),
            manifest: rewritten,
            occurrences,
        },
    )
}

/// Requesting the version the manifest already has (once normalized) changes
/// nothing.
pub proof fn law_current_version_is_unchanged(manifest: Seq<char>, requested: Seq<char>)
    requires
        normalized_version(requested).len() > 0,
        manifest_version(manifest) == Some(normalized_version(requested)),
    ensures
        bump_request_outcome(manifest, requested) == (BumpOutcome::Unchanged {
            version: normalized_version(requested),
        }),
{
}

/// A rewrite replaces at least one assignment, and only a manifest that has a
/// current version other than the requested one is rewritten.
pub proof fn law_rewrite_replaces_something(manifest: Seq<char>, version: Seq<char>)
    requires
        bump_outcome(manifest, version) is Rewritten,
    ensures
        bump_outcome(manifest, version)->occurrences >= 1,
        manifest_version(manifest) == Some(bump_outcome(manifest, version)->previous),
        bump_outcome(manifest, version)->previous != version,
{
}


/// Stripping a character from the front keeps a suffix.
proof fn lemma_trim_start_char_is_suffix(s: Seq<char>, c: char) -> (k: int)
    ensures
        0 <= k <= s.len(),
        trim_start_char(s, c) == s.skip(k),
    decreases s.len(),
{
    if s.len() > 0 && s[0] == c {
        let k = lemma_trim_start_char_is_suffix(s.drop_first(), c);
        assert(s.drop_first().skip(k) =~= s.skip(k + 1));
        k + 1
    } else {
        assert(s.skip(0) =~= s);
        0
    }
}

/// Normalizing only removes surrounding white space and leading `v`s: the
/// normalized version is an end piece of the trimmed request, and a request
/// with neither is kept as it is, to the last character.
pub proof fn law_normalize_keeps_the_version(requested: Seq<char>)
    ensures
        normalized_version(requested) == trim_ws(requested).skip(
            trim_ws(requested).len() - normalized_version(requested).len(),
        ),
        normalized_version(requested).len() <= trim_ws(requested).len(),
        (requested.len() > 0 && !crate::text::is_white_space(requested[0])
            && !crate::text::is_white_space(requested.last()) && requested[0] != 'v')
            ==> normalized_version(requested) == requested,
{
    let t = trim_ws(requested);
    let k = lemma_trim_start_char_is_suffix(t, 'v');
    assert(t.skip(k).len() == t.len() - k);
    if requested.len() > 0 && !crate::text::is_white_space(requested[0])
        && !crate::text::is_white_space(requested.last()) && requested[0] != 'v' {
        assert(trim_start_ws(requested) == requested);
        assert(crate::text::trim_end_ws(requested) == requested);
    }
}

} // verus!
