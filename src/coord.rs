//! Coordinate resolution: where a local bit position lands in the grid.

use vstd::prelude::*;

verus! {

/// Absolute coordinate along one dimension: `offset + (mirror ? -1 : 1) * local`.
pub open spec fn abs_dim(offset: int, mirror: bool, local: int) -> int {
    if mirror {
        offset - local
    } else {
        offset + local
    }
}

/// Absolute coordinate of a local position, dimension by dimension.
pub open spec fn abs_coord(offset: Seq<usize>, mirror: Seq<bool>, local: Seq<isize>) -> Seq<int> {
    Seq::new(local.len(), |d: int| abs_dim(offset[d] as int, mirror[d], local[d] as int))
}

/// Every component of `c` is a valid grid index.
pub open spec fn fits_usize(c: Seq<int>) -> bool {
    forall|d: int| 0 <= d < c.len() ==> 0 <= #[trigger] c[d] <= usize::MAX
}

/// Absolute coordinate along one dimension, or `None` where it is negative
/// or does not fit in `usize`.
pub fn resolve_dim(offset: usize, mirror: bool, local: isize) -> (r: Option<usize>)
    ensures
        match r {
            Some(v) => v as int == abs_dim(offset as int, mirror, local as int),
            None => !(0 <= abs_dim(offset as int, mirror, local as int) <= usize::MAX),
        },
{
    let o: i128 = offset as i128;
    let l: i128 = local as i128;
    let v: i128 = if mirror {
        o - l
    } else {
        o + l
    };
    if v < 0 || v > usize::MAX as i128 {
        None
    } else {
        Some(v as usize)
    }
}

/// Absolute coordinate of a local position; `None` where some component is
/// negative or does not fit in `usize`.
pub fn resolve(offset: &[usize], mirror: &[bool], local: &[isize]) -> (r: Option<Vec<usize>>)
    requires
        offset@.len() == local@.len(),
        mirror@.len() == local@.len(),
    ensures
        match r {
            Some(c) => c@.len() == local@.len() && forall|d: int|
                0 <= d < c@.len() ==> #[trigger] c@[d] as int == abs_coord(
                    offset@,
                    mirror@,
                    local@,
                )[d],
            None => !fits_usize(abs_coord(offset@, mirror@, local@)),
        },
{
    let mut out: Vec<usize> = Vec::new();
    let mut d: usize = 0;
    while d < local.len()
        invariant
            offset@.len() == local@.len(),
            mirror@.len() == local@.len(),
            d <= local@.len(),
            out@.len() == d,
            forall|e: int|
                0 <= e < d ==> #[trigger] out@[e] as int == abs_coord(offset@, mirror@, local@)[e],
        decreases local@.len() - d,
    {
        match resolve_dim(offset[d], mirror[d], local[d]) {
            Some(v) => out.push(v),
            None => {
                assert(!(0 <= abs_coord(offset@, mirror@, local@)[d as int] <= usize::MAX));
                return None;
            },
        }
        d = d + 1;
    }
    Some(out)
}

/// Moving the offset by `k` moves the absolute coordinate by `k`, whatever
/// the mirroring.
pub proof fn lemma_translate_offset(offset: int, mirror: bool, local: int, k: int)
    ensures
        abs_dim(offset + k, mirror, local) == abs_dim(offset, mirror, local) + k,
{
}

/// Moving the local position by `k` moves the absolute coordinate by `k`
/// without mirroring and by `-k` with it.
pub proof fn lemma_translate_local(offset: int, mirror: bool, local: int, k: int)
    ensures
        !mirror ==> abs_dim(offset, mirror, local + k) == abs_dim(offset, mirror, local) + k,
        mirror ==> abs_dim(offset, mirror, local + k) == abs_dim(offset, mirror, local) - k,
{
}

/// Placing a sub-layout at base `base` with extra mirroring `flip`, inside a
/// layout placed at `offset` with mirroring `mirror`, is the same as placing
/// the sub-layout's local position `base + (flip ? -1 : 1) * local` directly:
/// a nested layout can be flattened into its parent.
pub proof fn lemma_compose(offset: int, mirror: bool, base: int, flip: bool, local: int)
    ensures
        abs_dim(abs_dim(offset, mirror, base), mirror != flip, local) == abs_dim(
            offset,
            mirror,
            abs_dim(base, flip, local),
        ),
{
}

} // verus!
