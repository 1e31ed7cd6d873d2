//! Paths into a device tree: `/`-separated names, read as bytes.

use vstd::prelude::*;

verus! {

/// The byte that separates the names of a path.
pub const SEPARATOR: u8 = 0x2f;

/// The index of the first separator of `p` at or after `i`, or the length
/// of `p` where there is none.
pub open spec fn next_separator(p: Seq<u8>, i: int) -> int
    decreases p.len() - i,
{
    if i < 0 || i >= p.len() {
        p.len() as int
    } else if p[i] == SEPARATOR {
        i
    } else {
        next_separator(p, i + 1)
    }
}

/// `next_separator` lies between its start and the end.
pub proof fn lemma_next_separator(p: Seq<u8>, i: int)
    requires
        0 <= i <= p.len(),
    ensures
        i <= next_separator(p, i) <= p.len(),
        i < p.len() && p[i] != SEPARATOR ==> i < next_separator(p, i),
    decreases p.len() - i,
{
    if i < p.len() && p[i] != SEPARATOR {
        lemma_next_separator(p, i + 1);
    }
}

/// The names of the path `p` from `i` on: the maximal runs of bytes other
/// than the separator. Separators that follow each other, or that end the
/// path, separate nothing.
pub open spec fn segments_from(p: Seq<u8>, i: int) -> Seq<Seq<u8>>
    decreases p.len() - i,
{
    if i < 0 || i >= p.len() {
        Seq::empty()
    } else if p[i] == SEPARATOR {
        segments_from(p, i + 1)
    } else {
        proof {
            lemma_next_separator(p, i);
        }
        seq![p.subrange(i, next_separator(p, i))] + segments_from(p, next_separator(p, i))
    }
}

/// Whether the path `p` starts at the root.
pub open spec fn is_absolute(p: Seq<u8>) -> bool {
    p.len() > 0 && p[0] == SEPARATOR
}

/// Finds the next name of `path` at or after `from`: where it starts and
/// where it ends.
pub fn next_segment(path: &[u8], from: usize) -> (r: Option<(usize, usize)>)
    requires
        from <= path@.len(),
    ensures
        match r {
            Some((start, end)) => from <= start < end <= path@.len() && segments_from(
                path@,
                from as int,
            ) == seq![path@.subrange(start as int, end as int)] + segments_from(
                path@,
                end as int,
            ),
            None => segments_from(path@, from as int).len() == 0,
        },
{
    let len = path.len();
    let mut start = from;
    while start < len && path[start] == SEPARATOR
        invariant
            len == path@.len(),
            from <= start <= len,
            segments_from(path@, start as int) == segments_from(path@, from as int),
        decreases len - start,
    {
        start += 1;
    }
    if start >= len {
        return None;
    }
    let mut end = start + 1;
    proof {
        lemma_next_separator(path@, start as int);
    }
    while end < len && path[end] != SEPARATOR
        invariant
            len == path@.len(),
            start < end <= len,
            next_separator(path@, end as int) == next_separator(path@, start as int),
        decreases len - end,
    {
        end += 1;
    }
    Some((start, end))
}

/// Whether two byte strings are equal.
pub fn bytes_eq(a: &[u8], b: &[u8]) -> (r: bool)
    ensures
        r == (a@ == b@),
{
    if a.len() != b.len() {
        return false;
    }
    let mut i: usize = 0;
    while i < a.len()
        invariant
            a@.len() == b@.len(),
            i <= a@.len(),
            forall|k: int| 0 <= k < i ==> a@[k] == b@[k],
        decreases a@.len() - i,
    {
        if a[i] != b[i] {
            return false;
        }
        i += 1;
    }
    assert(a@ =~= b@);
    true
}

} // verus!
