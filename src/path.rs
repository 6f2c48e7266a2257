//! Paths as byte strings, as the host platform stores them.
use vstd::prelude::*;

verus! {

/// The path separator.
pub const SEPARATOR: u8 = 47;

/// `pre` is a byte prefix of `s`.
pub open spec fn is_byte_prefix(pre: Seq<u8>, s: Seq<u8>) -> bool {
    pre.len() <= s.len() && s.subrange(0, pre.len() as int) == pre
}

/// `path` is `dir` itself, or lies below it.
///
/// Both paths are taken in canonical form (absolute, no `.` or `..`
/// segments, no repeated or trailing separators), which is what path
/// resolution produces. On such paths the segments of `dir` are a prefix of
/// those of `path` exactly when `dir` is a byte prefix of `path` that ends
/// at a segment boundary: the end of `path`, a separator in `path`, or a
/// separator that closes `dir` (the root).
pub open spec fn nested_under(path: Seq<u8>, dir: Seq<u8>) -> bool {
    &&& is_byte_prefix(dir, path)
    &&& {
        ||| path.len() == dir.len()
        ||| path[dir.len() as int] == SEPARATOR
        ||| (dir.len() > 0 && dir.last() == SEPARATOR)
    }
}

/// The path obtained by appending `seg` to `base`.
///
/// An absolute `seg` replaces `base`; otherwise a separator is put between
/// the two unless `base` is empty or already ends with one.
pub open spec fn joined(base: Seq<u8>, seg: Seq<u8>) -> Seq<u8> {
    if seg.len() > 0 && seg[0] == SEPARATOR {
        seg
    } else if base.len() == 0 || base.last() == SEPARATOR {
        base + seg
    } else {
        base + seq![SEPARATOR] + seg
    }
}

/// Appends the bytes of `src` to `dst`.
pub fn append_bytes(dst: &mut Vec<u8>, src: &[u8])
    ensures
        final(dst)@ == old(dst)@ + src@,
{
    let mut i: usize = 0;
    while i < src.len()
        invariant
            i <= src@.len(),
            dst@ == old(dst)@ + src@.subrange(0, i as int),
        decreases src@.len() - i,
    {
        dst.push(src[i]);
        i = i + 1;
        assert(src@.subrange(0, i as int) == src@.subrange(0, i - 1) + seq![src@[i - 1]]);
    }
    assert(src@.subrange(0, src@.len() as int) == src@);
}

/// Appends the path segment `seg` to `base`, as path joining does.
pub fn push_segment(base: &mut Vec<u8>, seg: &[u8])
    ensures
        final(base)@ == joined(old(base)@, seg@),
{
    if seg.len() > 0 && seg[0] == SEPARATOR {
        base.clear();
    } else if base.len() > 0 && base[base.len() - 1] != SEPARATOR {
        base.push(SEPARATOR);
    }
    append_bytes(base, seg);
    assert(final(base)@ == joined(old(base)@, seg@));
}

/// Whether `pre` is a byte prefix of `s`.
pub fn starts_with_bytes(s: &[u8], pre: &[u8]) -> (r: bool)
    ensures
        r == is_byte_prefix(pre@, s@),
{
    if pre.len() > s.len() {
        return false;
    }
    let mut i: usize = 0;
    while i < pre.len()
        invariant
            pre@.len() <= s@.len(),
            i <= pre@.len(),
            forall|k: int| 0 <= k < i ==> s@[k] == pre@[k],
        decreases pre@.len() - i,
    {
        if s[i] != pre[i] {
            assert(s@.subrange(0, pre@.len() as int)[i as int] != pre@[i as int]);
            return false;
        }
        i = i + 1;
    }
    assert(s@.subrange(0, pre@.len() as int) =~= pre@);
    true
}

/// Whether the resolved `path` is the resolved `dir` or lies below it.
///
/// Either argument is `None` where resolving it failed; the answer is then
/// `false`.
pub fn path_under_directory(path: &Option<Vec<u8>>, dir: &Option<Vec<u8>>) -> (r: bool)
    ensures
        r == (path.is_some() && dir.is_some() && nested_under(
            path.unwrap()@,
            dir.unwrap()@,
        )),
{
    match (path, dir) {
        (Some(p), Some(d)) => {
            if !starts_with_bytes(p.as_slice(), d.as_slice()) {
                return false;
            }
            p.len() == d.len() || p[d.len()] == SEPARATOR || (d.len() > 0 && d[d.len() - 1]
                == SEPARATOR)
        },
        _ => false,
    }
}

/// A directory holds itself.
pub proof fn lemma_directory_holds_itself(dir: Seq<u8>)
    ensures
        nested_under(dir, dir),
{
    assert(dir.subrange(0, dir.len() as int) =~= dir);
}

/// Matching is on segment boundaries, not on raw bytes: a path whose last
/// segment merely extends the directory's last segment (`/a/proj` and
/// `/a/project/f`) is not below it, while the same directory followed by a
/// separator and anything (`/a/proj/f`) is.
pub proof fn lemma_segment_boundary(dir: Seq<u8>, rest: Seq<u8>)
    requires
        dir.len() > 0,
        dir.last() != SEPARATOR,
    ensures
        rest.len() > 0 && rest[0] != SEPARATOR ==> !nested_under(dir + rest, dir),
        nested_under(dir + seq![SEPARATOR] + rest, dir),
{
    assert((dir + rest).subrange(0, dir.len() as int) =~= dir);
    assert((dir + seq![SEPARATOR] + rest).subrange(0, dir.len() as int) =~= dir);
    assert((dir + seq![SEPARATOR] + rest)[dir.len() as int] == SEPARATOR);
    if rest.len() > 0 {
        assert((dir + rest)[dir.len() as int] == rest[0]);
    }
}

} // verus!
