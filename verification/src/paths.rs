//! Plain-value path handling: joining a directory path with an entry name,
//! and taking the final component of a symlink target.

use vstd::prelude::*;

verus! {

/// ASCII path separator.
pub const SLASH: u8 = 47;

/// ASCII dot, the hidden-file marker.
pub const DOT: u8 = 46;

/// A directory path joined with an entry name.
pub open spec fn join(dir: Seq<u8>, name: Seq<u8>) -> Seq<u8> {
    dir + seq![SLASH] + name
}

/// The final path component: what remains after the last separator, or the
/// whole path when it has none. A path ending in a separator has an empty
/// final component.
pub open spec fn last_component(p: Seq<u8>) -> Seq<u8>
    decreases p.len(),
{
    if p.len() == 0 {
        p
    } else if p[0] == SLASH {
        last_component(p.skip(1))
    } else if p.skip(1).contains(SLASH) {
        last_component(p.skip(1))
    } else {
        p
    }
}

/// A valid profile name: non-empty, not hidden, and usable as a single
/// filesystem entry name (no separator inside it).
pub open spec fn name_ok(name: Seq<u8>) -> bool {
    &&& name.len() > 0
    &&& name[0] != DOT
    &&& !name.contains(SLASH)
}

/// Appends the bytes of `src` to `dst`.
pub fn extend_bytes(dst: &mut Vec<u8>, src: &Vec<u8>)
    ensures
        final(dst)@ == old(dst)@ + src@,
{
    let mut i: usize = 0;
    proof {
        assert(dst@ =~= dst@ + src@.subrange(0, 0));
    }
    while i < src.len()
        invariant
            i <= src.len(),
            dst@ == old(dst)@ + src@.subrange(0, i as int),
        decreases src.len() - i,
    {
        dst.push(src[i]);
        proof {
            assert(old(dst)@ + src@.subrange(0, i as int) + seq![src@[i as int]] =~= old(
                dst,
            )@ + src@.subrange(0, i + 1));
        }
        i = i + 1;
    }
    proof {
        assert(src@.subrange(0, src@.len() as int) =~= src@);
    }
}

/// A fresh copy of a byte vector.
pub fn copy_bytes(src: &Vec<u8>) -> (r: Vec<u8>)
    ensures
        r@ == src@,
{
    let mut r: Vec<u8> = Vec::new();
    extend_bytes(&mut r, src);
    proof {
        assert(Seq::<u8>::empty() + src@ =~= src@);
    }
    r
}

/// Joins a directory path and an entry name with a separator.
pub fn join_path(dir: &Vec<u8>, name: &Vec<u8>) -> (r: Vec<u8>)
    ensures
        r@ == join(dir@, name@),
{
    let mut r = copy_bytes(dir);
    r.push(SLASH);
    extend_bytes(&mut r, name);
    proof {
        assert(dir@.push(SLASH) =~= dir@ + seq![SLASH]);
    }
    r
}

/// The final component of a path that has no separator is the path itself.
proof fn lemma_last_component_no_slash(p: Seq<u8>)
    requires
        !p.contains(SLASH),
    ensures
        last_component(p) == p,
    decreases p.len(),
{
    if p.len() > 0 {
        assert(p[0] != SLASH);
        assert(!p.skip(1).contains(SLASH)) by {
            assert forall|i: int| 0 <= i < p.skip(1).len() implies p.skip(1)[i] != SLASH by {
                assert(p.skip(1)[i] == p[i + 1]);
            }
        }
    }
}

/// Dropping the first byte of a path that still has a separator later on
/// does not change the final component.
proof fn lemma_last_component_step(p: Seq<u8>)
    requires
        p.len() > 0,
        p[0] == SLASH || p.skip(1).contains(SLASH),
    ensures
        last_component(p) == last_component(p.skip(1)),
{
}

/// The final component of a joined path is the name that was joined on,
/// for any well-formed name.
pub proof fn lemma_last_component_join(dir: Seq<u8>, name: Seq<u8>)
    requires
        name_ok(name),
    ensures
        last_component(join(dir, name)) == name,
    decreases dir.len(),
{
    let p = join(dir, name);
    if dir.len() == 0 {
        assert(p[0] == SLASH);
        assert(p.skip(1) =~= name);
        lemma_last_component_no_slash(name);
    } else {
        assert(p.skip(1) =~= join(dir.skip(1), name));
        assert(p.skip(1)[dir.skip(1).len() as int] == SLASH);
        assert(p.skip(1).contains(SLASH));
        lemma_last_component_step(p);
        lemma_last_component_join(dir.skip(1), name);
    }
}

/// Computes the final component of a path: the bytes after the last
/// separator, or all of them when there is none.
pub fn last_component_of(path: &Vec<u8>) -> (r: Vec<u8>)
    ensures
        r@ == last_component(path@),
{
    let mut start: usize = 0;
    let mut i: usize = 0;
    while i < path.len()
        invariant
            start <= i <= path.len(),
            forall|j: int| start <= j < i ==> path@[j] != SLASH,
            start > 0 ==> path@[start - 1] == SLASH,
        decreases path.len() - i,
    {
        if path[i] == SLASH {
            start = i + 1;
        }
        i = i + 1;
    }
    let mut r: Vec<u8> = Vec::new();
    let mut k: usize = start;
    while k < path.len()
        invariant
            start <= k <= path.len(),
            r@ == path@.subrange(start as int, k as int),
        decreases path.len() - k,
    {
        r.push(path[k]);
        proof {
            assert(path@.subrange(start as int, k as int).push(path@[k as int]) =~= path@.subrange(
                start as int,
                k + 1,
            ));
        }
        k = k + 1;
    }
    proof {
        lemma_last_component_suffix(path@, start as int);
    }
    r
}

/// The final component of a path equals its suffix after position `start`,
/// whenever the byte before `start` (if any) is a separator and no separator
/// follows.
proof fn lemma_last_component_suffix(p: Seq<u8>, start: int)
    requires
        0 <= start <= p.len(),
        forall|j: int| start <= j < p.len() ==> p[j] != SLASH,
        start > 0 ==> p[start - 1] == SLASH,
    ensures
        last_component(p) == p.subrange(start, p.len() as int),
    decreases p.len(),
{
    let suffix = p.subrange(start, p.len() as int);
    if start == 0 {
        assert(!p.contains(SLASH)) by {
            assert forall|i: int| 0 <= i < p.len() implies p[i] != SLASH by {}
        }
        lemma_last_component_no_slash(p);
        assert(suffix =~= p);
    } else {
        if start == 1 {
            assert(p[0] == SLASH);
        } else {
            assert(p.skip(1).contains(SLASH)) by {
                assert(p.skip(1)[start - 2] == p[start - 1]);
            }
        }
        lemma_last_component_step(p);
        lemma_last_component_suffix(p.skip(1), start - 1);
        assert(p.skip(1).subrange(start - 1, p.skip(1).len() as int) =~= suffix);
    }
}

} // verus!
