//! Asset paths, written with `/` separators.
use vstd::prelude::*;

use crate::text::{chars_of, slice_chars, string_from};

verus! {

/// A path separator: `/` or `\`.
pub open spec fn is_sep(c: char) -> bool {
    c == '/' || c == '\\'
}

/// `s` without leading separators.
pub open spec fn strip_sep_start(s: Seq<char>) -> Seq<char>
    decreases s.len(),
{
    if s.len() > 0 && is_sep(s[0]) {
        strip_sep_start(s.drop_first())
    } else {
        s
    }
}

/// `s` without trailing separators.
pub open spec fn strip_sep_end(s: Seq<char>) -> Seq<char>
    decreases s.len(),
{
    if s.len() > 0 && is_sep(s.last()) {
        strip_sep_end(s.drop_last())
    } else {
        s
    }
}

/// `s` without separators at either end (`trim_matches(['/', '\\'])`).
pub open spec fn sep_trimmed(s: Seq<char>) -> Seq<char> {
    strip_sep_end(strip_sep_start(s))
}

/// The asset path of `file` inside `dir`: both are stripped of separators
/// at their ends and joined with `/`; an empty directory gives the file alone.
pub open spec fn joined_asset_path(dir: Seq<char>, file: Seq<char>) -> Seq<char> {
    let d = sep_trimmed(dir);
    let f = sep_trimmed(file);
    if d.len() == 0 {
        f
    } else {
        d + seq!['/'] + f
    }
}

fn trim_seps(v: &[char]) -> (r: Vec<char>)
    ensures
        r@ == sep_trimmed(v@),
{
    let n = v.len();
    let mut i: usize = 0;
    proof {
        assert(v@.subrange(0, n as int) == v@);
    }
    while i < n && (v[i] == '/' || v[i] == '\\')
        invariant
            i <= n == v@.len(),
            strip_sep_start(v@) == strip_sep_start(v@.subrange(i as int, n as int)),
        decreases n - i,
    {
        proof {
            assert(v@.subrange(i as int, n as int).drop_first() == v@.subrange(i + 1, n as int));
        }
        i = i + 1;
    }
    proof {
        assert(strip_sep_start(v@.subrange(i as int, n as int)) == v@.subrange(i as int, n as int));
    }
    let mut j: usize = n;
    while j > i && (v[j - 1] == '/' || v[j - 1] == '\\')
        invariant
            i <= j <= n == v@.len(),
            strip_sep_end(v@.subrange(i as int, n as int)) == strip_sep_end(v@.subrange(i as int, j as int)),
        decreases j,
    {
        proof {
            assert(v@.subrange(i as int, j as int).drop_last() == v@.subrange(i as int, j - 1));
        }
        j = j - 1;
    }
    proof {
        assert(strip_sep_end(v@.subrange(i as int, j as int)) == v@.subrange(i as int, j as int));
    }
    slice_chars(v, i, j)
}

/// Joins an asset directory and a file name with `/`.
pub fn path_join_asset(dir: &str, file: &str) -> (r: String)
    ensures
        r@ == joined_asset_path(dir@, file@),
{
    let dv = chars_of(dir);
    let fv = chars_of(file);
    let d = trim_seps(dv.as_slice());
    let f = trim_seps(fv.as_slice());
    if d.len() == 0 {
        return string_from(f.as_slice());
    }
    let mut out = d;
    out.push('/');
    let ghost start = out@;
    let mut i: usize = 0;
    while i < f.len()
        invariant
            i <= f@.len(),
            start == sep_trimmed(dir@).push('/'),
            out@ == start + f@.take(i as int),
        decreases f@.len() - i,
    {
        out.push(f[i]);
        proof {
            assert(f@.take(i + 1) == f@.take(i as int).push(f@[i as int]));
        }
        i = i + 1;
    }
    proof {
        assert(f@.take(f@.len() as int) == f@);
        assert(sep_trimmed(dir@).push('/') == sep_trimmed(dir@) + seq!['/']);
    }
    string_from(out.as_slice())
}

} // verus!

verus! {

proof fn lemma_strip_sep_start(s: Seq<char>)
    ensures
        strip_sep_start(s).len() <= s.len(),
        s.subrange(s.len() - strip_sep_start(s).len(), s.len() as int) == strip_sep_start(s),
        strip_sep_start(s).len() > 0 ==> !is_sep(strip_sep_start(s)[0]),
    decreases s.len(),
{
    if s.len() > 0 && is_sep(s[0]) {
        lemma_strip_sep_start(s.drop_first());
        let r = strip_sep_start(s.drop_first());
        assert(s.subrange(s.len() - r.len(), s.len() as int) =~= s.drop_first().subrange(
            s.drop_first().len() - r.len(),
            s.drop_first().len() as int,
        ));
    } else {
        assert(s.subrange(0, s.len() as int) =~= s);
    }
}

proof fn lemma_strip_sep_end(s: Seq<char>)
    ensures
        strip_sep_end(s).len() <= s.len(),
        s.subrange(0, strip_sep_end(s).len() as int) == strip_sep_end(s),
        strip_sep_end(s).len() > 0 ==> !is_sep(strip_sep_end(s).last()),
    decreases s.len(),
{
    if s.len() > 0 && is_sep(s.last()) {
        lemma_strip_sep_end(s.drop_last());
        let r = strip_sep_end(s.drop_last());
        assert(s.subrange(0, r.len() as int) =~= s.drop_last().subrange(0, r.len() as int));
    } else {
        assert(s.subrange(0, s.len() as int) =~= s);
    }
}

/// What `sep_trimmed` leaves starts and ends with something other than a separator.
proof fn lemma_sep_trimmed_ends(s: Seq<char>)
    ensures
        sep_trimmed(s).len() > 0 ==> !is_sep(sep_trimmed(s)[0]) && !is_sep(sep_trimmed(s).last()),
{
    let u = strip_sep_start(s);
    lemma_strip_sep_start(s);
    lemma_strip_sep_end(u);
    let t = strip_sep_end(u);
    if t.len() > 0 {
        assert(t[0] == u.subrange(0, t.len() as int)[0]);
    }
}

/// A sequence that neither starts nor ends with a separator is its own trim.
proof fn lemma_sep_trimmed_fixed(s: Seq<char>)
    requires
        s.len() > 0 ==> !is_sep(s[0]) && !is_sep(s.last()),
    ensures
        sep_trimmed(s) == s,
{
}

/// Joining with a file that is more than separators gives a path that
/// neither starts nor ends with a separator, ends with the trimmed file
/// name, and is left as it is when joined again under an empty directory.
pub proof fn lemma_joined_path_normal(dir: Seq<char>, file: Seq<char>)
    requires
        sep_trimmed(file).len() > 0,
    ensures
        ({
            let r = joined_asset_path(dir, file);
            let f = sep_trimmed(file);
            &&& r.len() >= f.len() > 0
            &&& !is_sep(r[0])
            &&& !is_sep(r.last())
            &&& r.subrange(r.len() - f.len(), r.len() as int) == f
            &&& joined_asset_path(Seq::empty(), r) == r
        }),
{
    let d = sep_trimmed(dir);
    let f = sep_trimmed(file);
    let r = joined_asset_path(dir, file);
    lemma_sep_trimmed_ends(dir);
    lemma_sep_trimmed_ends(file);
    if d.len() == 0 {
        assert(r.subrange(0, r.len() as int) =~= r);
    } else {
        assert(r =~= d + seq!['/'] + f);
        assert(r[0] == d[0]);
        assert(r.last() == f.last());
        assert(r.subrange(r.len() - f.len(), r.len() as int) =~= f);
    }
    lemma_sep_trimmed_fixed(r);
    assert(sep_trimmed(Seq::<char>::empty()) == Seq::<char>::empty());
}

} // verus!
