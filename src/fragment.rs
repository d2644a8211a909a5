//! Fragment codecs: pattern-valued fields placed on a grid of fuses.
//!
//! A layout lists its fields in declaration order. Each field names a
//! pattern and, for every canonical bit of that pattern, where the bit
//! lives: a fixed value that is never stored, or a position local to the
//! layout's origin, possibly inverted. Arrays and nested layouts are
//! flattened into fields by the builders, which compose their offsets.

use vstd::prelude::*;
use crate::coord::{abs_coord, fits_usize, resolve};
use crate::error::CodecError;
use crate::grid::{cell_count, coord_view, in_bounds, lemma_linear_bounds, lemma_linear_injective, linear, Grid};
use crate::pattern::{encode_bits, PatternSchema};

verus! {

/// Where one canonical bit of a field lives.
pub enum BitPos {
    /// Not stored: decoding reads this constant.
    Fixed(bool),
    /// Stored at this position, one component per dimension, relative to the
    /// layout's origin.
    Local(Vec<isize>),
}

/// Placement of one canonical bit, and whether the stored fuse holds its
/// complement.
pub struct BitPlacement {
    pub pos: BitPos,
    pub invert: bool,
}

/// How a field came to be in a flattened layout.
#[derive(Clone, Copy, Debug, PartialEq, Eq, Structural)]
pub enum FieldKind {
    /// A pattern-valued member.
    Pattern,
    /// A member of a nested layout.
    Fragment,
    /// One element of an array of patterns.
    PatternArray,
    /// A member of one element of an array of nested layouts.
    FragmentArray,
}

/// One pattern-valued field: its documentation, the index of its pattern
/// in the layout's pattern table, and one placement per canonical bit of
/// the pattern, in position order.
pub struct FieldLayout {
    pub name: String,
    pub desc: String,
    pub kind: FieldKind,
    pub pattern: usize,
    pub bits: Vec<BitPlacement>,
}

/// A layout over a grid of `dims` dimensions: the patterns its fields use,
/// and its fields in declaration order.
pub struct FragmentLayout {
    pub dims: usize,
    pub patterns: Vec<PatternSchema>,
    pub fields: Vec<FieldLayout>,
}

/// The bit is stored in the grid.
pub open spec fn is_local(b: BitPlacement) -> bool {
    b.pos is Local
}

/// Local position of a stored bit.
pub open spec fn local_of(b: BitPlacement) -> Seq<isize> {
    match b.pos {
        BitPos::Local(v) => v@,
        BitPos::Fixed(_) => Seq::empty(),
    }
}

/// Constant of a bit that is not stored.
pub open spec fn fixed_of(b: BitPlacement) -> bool {
    match b.pos {
        BitPos::Fixed(v) => v,
        BitPos::Local(_) => false,
    }
}

/// Absolute coordinate of a stored bit for a given offset and mirroring.
pub open spec fn placed(b: BitPlacement, offset: Seq<usize>, mirror: Seq<bool>) -> Seq<int> {
    abs_coord(offset, mirror, local_of(b))
}

impl FieldLayout {
    /// One placement per canonical bit, each stored position with `dims`
    /// components, over a well-formed pattern.
    pub open spec fn wf(&self, dims: nat, pat: PatternSchema) -> bool {
        &&& pat.wf()
        &&& self.bits@.len() == pat.bits_count()
        &&& self.bits_dims_ok(dims)
    }

    /// Every stored position has `dims` components.
    pub open spec fn bits_dims_ok(&self, dims: nat) -> bool {
        forall|p: int|
            0 <= p < self.bits@.len() && is_local(#[trigger] self.bits@[p]) ==> local_of(self.bits@[p]).len()
                == dims
    }

    /// Every stored bit lands inside the grid.
    pub open spec fn coords_ok(&self, shape: Seq<usize>, offset: Seq<usize>, mirror: Seq<bool>) -> bool {
        forall|p: int|
            0 <= p < self.bits@.len() && is_local(#[trigger] self.bits@[p]) ==> in_bounds(
                shape,
                placed(self.bits@[p], offset, mirror),
            )
    }

    /// Logical value of canonical bit `p` as read from `cells`.
    pub open spec fn read_bit(
        &self,
        shape: Seq<usize>,
        cells: Seq<bool>,
        offset: Seq<usize>,
        mirror: Seq<bool>,
        p: int,
    ) -> bool {
        let b = self.bits@[p];
        if is_local(b) {
            cells[linear(shape, placed(b, offset, mirror))] != b.invert
        } else {
            fixed_of(b) != b.invert
        }
    }

    /// The canonical bit vector read from `cells`.
    pub open spec fn read_buffer(
        &self,
        shape: Seq<usize>,
        cells: Seq<bool>,
        offset: Seq<usize>,
        mirror: Seq<bool>,
    ) -> Seq<bool> {
        Seq::new(self.bits@.len(), |p: int| self.read_bit(shape, cells, offset, mirror, p))
    }

    /// Result of decoding this field from `cells`.
    pub open spec fn decode_spec(
        &self,
        pat: PatternSchema,
        shape: Seq<usize>,
        cells: Seq<bool>,
        offset: Seq<usize>,
        mirror: Seq<bool>,
    ) -> Result<int, CodecError> {
        if !self.coords_ok(shape, offset, mirror) {
            Err(CodecError::OutOfRange)
        } else {
            match pat.decode_spec(self.read_buffer(shape, cells, offset, mirror)) {
                Some(v) => Ok(v),
                None => Err(CodecError::NoMatchingVariant),
            }
        }
    }

    /// `cells` after writing the first `n` canonical bits of `enc`.
    pub open spec fn write_upto(
        &self,
        shape: Seq<usize>,
        cells: Seq<bool>,
        enc: Seq<bool>,
        offset: Seq<usize>,
        mirror: Seq<bool>,
        n: int,
    ) -> Seq<bool>
        decreases n,
    {
        if n <= 0 {
            cells
        } else {
            let before = self.write_upto(shape, cells, enc, offset, mirror, n - 1);
            let b = self.bits@[n - 1];
            let i = linear(shape, placed(b, offset, mirror));
            if is_local(b) && 0 <= i < before.len() {
                before.update(i, enc[n - 1] != b.invert)
            } else {
                before
            }
        }
    }

    /// `cells` after encoding variant `v` into this field.
    pub open spec fn write(
        &self,
        pat: PatternSchema,
        shape: Seq<usize>,
        cells: Seq<bool>,
        v: int,
        offset: Seq<usize>,
        mirror: Seq<bool>,
    ) -> Seq<bool> {
        self.write_upto(
            shape,
            cells,
            encode_bits(pat.bits_of(v)),
            offset,
            mirror,
            self.bits@.len() as int,
        )
    }

    /// What decoding reads back after encoding variant `v`: the encoded bit
    /// where it is stored, the constant where it is not.
    pub open spec fn recovered(&self, pat: PatternSchema, v: int) -> Seq<bool> {
        Seq::new(
            self.bits@.len(),
            |p: int|
                if is_local(self.bits@[p]) {
                    encode_bits(pat.bits_of(v))[p]
                } else {
                    fixed_of(self.bits@[p]) != self.bits@[p].invert
                },
        )
    }

    /// Variant `v` survives a trip through this field.
    pub open spec fn recovers(&self, pat: PatternSchema, v: int) -> bool {
        pat.decode_spec(self.recovered(pat, v)) == Some(v)
    }
}

impl FragmentLayout {
    /// Pattern of field `k`.
    pub open spec fn pattern_of(&self, k: int) -> PatternSchema {
        self.patterns@[self.fields@[k].pattern as int]
    }

    /// Every pattern of the table is well formed, and every field refers to
    /// one of them and is well formed for this layout's dimensions.
    pub open spec fn wf(&self) -> bool {
        &&& forall|i: int| 0 <= i < self.patterns@.len() ==> (#[trigger] self.patterns@[i]).wf()
        &&& forall|k: int|
            0 <= k < self.fields@.len() ==> #[trigger] self.fields@[k].pattern < self.patterns@.len()
                && self.fields@[k].wf(self.dims as nat, self.pattern_of(k))
    }

    /// One variant index per field, each in range.
    pub open spec fn values_ok(&self, values: Seq<usize>) -> bool {
        &&& values.len() == self.fields@.len()
        &&& forall|k: int|
            0 <= k < values.len() ==> #[trigger] values[k] < self.pattern_of(k).variant_count()
    }

    /// Every stored bit of every field lands inside the grid.
    pub open spec fn coords_ok(&self, shape: Seq<usize>, offset: Seq<usize>, mirror: Seq<bool>) -> bool {
        forall|k: int| 0 <= k < self.fields@.len() ==> #[trigger] self.fields@[k].coords_ok(shape, offset, mirror)
    }

    /// `cells` after encoding the first `k` fields.
    pub open spec fn write_fields(
        &self,
        shape: Seq<usize>,
        cells: Seq<bool>,
        values: Seq<usize>,
        offset: Seq<usize>,
        mirror: Seq<bool>,
        k: int,
    ) -> Seq<bool>
        decreases k,
    {
        if k <= 0 {
            cells
        } else {
            self.fields@[k - 1].write(
                self.pattern_of(k - 1),
                shape,
                self.write_fields(shape, cells, values, offset, mirror, k - 1),
                values[k - 1] as int,
                offset,
                mirror,
            )
        }
    }

    /// `cells` after encoding every field.
    pub open spec fn encode_spec(
        &self,
        shape: Seq<usize>,
        cells: Seq<bool>,
        values: Seq<usize>,
        offset: Seq<usize>,
        mirror: Seq<bool>,
    ) -> Seq<bool> {
        self.write_fields(shape, cells, values, offset, mirror, self.fields@.len() as int)
    }
}

/// A coordinate inside the grid resolves without overflow.
proof fn lemma_in_bounds_fits(shape: Seq<usize>, c: Seq<int>)
    requires
        in_bounds(shape, c),
    ensures
        fits_usize(c),
{
    assert forall|d: int| 0 <= d < c.len() implies 0 <= #[trigger] c[d] <= usize::MAX by {
        assert(0 <= c[d] < shape[d]);
    }
}

/// Resolved grid coordinate of a stored bit, or `None` where it lies
/// outside the grid.
fn locate(b: &BitPlacement, grid: &Grid, offset: &[usize], mirror: &[bool]) -> (r: Option<Vec<usize>>)
    requires
        grid.wf(),
        is_local(*b),
        local_of(*b).len() == offset@.len(),
        mirror@.len() == offset@.len(),
    ensures
        match r {
            Some(c) => in_bounds(grid.shape@, placed(*b, offset@, mirror@)) && coord_view(c@)
                == placed(*b, offset@, mirror@),
            None => !in_bounds(grid.shape@, placed(*b, offset@, mirror@)),
        },
{
    match &b.pos {
        BitPos::Local(loc) => {
            match resolve(offset, mirror, loc.as_slice()) {
                Some(c) => {
                    assert(coord_view(c@) =~= placed(*b, offset@, mirror@));
                    match grid.index_of(c.as_slice()) {
                        Some(_) => Some(c),
                        None => None,
                    }
                },
                None => {
                    proof {
                        if in_bounds(grid.shape@, placed(*b, offset@, mirror@)) {
                            lemma_in_bounds_fits(grid.shape@, placed(*b, offset@, mirror@));
                        }
                    }
                    None
                },
            }
        },
        BitPos::Fixed(_) => None,
    }
}

impl FieldLayout {
    /// Every stored bit lands inside the grid.
    pub fn check_coords(&self, grid: &Grid, offset: &[usize], mirror: &[bool]) -> (r: bool)
        requires
            self.bits_dims_ok(offset@.len()),
            grid.wf(),
            mirror@.len() == offset@.len(),
        ensures
            r == self.coords_ok(grid.shape@, offset@, mirror@),
    {
        let mut p: usize = 0;
        while p < self.bits.len()
            invariant
                self.bits_dims_ok(offset@.len()),
                grid.wf(),
                mirror@.len() == offset@.len(),
                p <= self.bits@.len(),
                forall|q: int|
                    0 <= q < p && is_local(#[trigger] self.bits@[q]) ==> in_bounds(
                        grid.shape@,
                        placed(self.bits@[q], offset@, mirror@),
                    ),
            decreases self.bits@.len() - p,
        {
            let b = &self.bits[p];
            if let BitPos::Local(_) = &b.pos {
                if locate(b, grid, offset, mirror).is_none() {
                    return false;
                }
            }
            p = p + 1;
        }
        true
    }

    /// Encodes variant `v` into the grid: writes each stored canonical bit
    /// of its encoding, through the inversion, at its resolved coordinate,
    /// in position order. Fixed bits are not written. Where some stored bit
    /// lies outside the grid, nothing is written and `OutOfRange` returned.
    pub fn encode(
        &self,
        pat: &PatternSchema,
        v: usize,
        grid: &mut Grid,
        offset: &[usize],
        mirror: &[bool],
    ) -> (r: Result<(), CodecError>)
        requires
            self.wf(offset@.len(), *pat),
            old(grid).wf(),
            mirror@.len() == offset@.len(),
            v < pat.variant_count(),
        ensures
            final(grid).wf(),
            final(grid).shape == old(grid).shape,
            r is Ok <==> self.coords_ok(old(grid).shape@, offset@, mirror@),
            r is Ok ==> final(grid).cells@ == self.write(
                *pat,
                old(grid).shape@,
                old(grid).cells@,
                v as int,
                offset@,
                mirror@,
            ),
            r is Err ==> r == Err::<(), CodecError>(CodecError::OutOfRange) && final(grid).cells@
                == old(grid).cells@,
    {
        if !self.check_coords(grid, offset, mirror) {
            return Err(CodecError::OutOfRange);
        }
        let enc = pat.encode(v);
        let ghost shape = grid.shape@;
        let ghost start = grid.cells@;
        let mut p: usize = 0;
        while p < self.bits.len()
            invariant
                self.wf(offset@.len(), *pat),
                grid.wf(),
                mirror@.len() == offset@.len(),
                shape == grid.shape@,
                grid.shape == old(grid).shape,
                self.coords_ok(shape, offset@, mirror@),
                enc@ == encode_bits(pat.bits_of(v as int)),
                enc@.len() == self.bits@.len(),
                v < pat.variant_count(),
                p <= self.bits@.len(),
                grid.cells@ == self.write_upto(shape, start, enc@, offset@, mirror@, p as int),
            decreases self.bits@.len() - p,
        {
            let b = &self.bits[p];
            if let BitPos::Local(_) = &b.pos {
                match locate(b, grid, offset, mirror) {
                    Some(c) => {
                        proof {
                            lemma_linear_bounds(shape, coord_view(c@), shape.len() as int);
                        }
                        grid.set(c.as_slice(), enc[p] != b.invert);
                    },
                    None => {
                        assert(false);
                    },
                }
            }
            p = p + 1;
        }
        Ok(())
    }

    /// Decodes this field from the grid: reads each canonical bit (stored
    /// bits at their resolved coordinate, fixed bits as their constant, both
    /// through the inversion) and decodes the result with the pattern.
    pub fn decode(&self, pat: &PatternSchema, grid: &Grid, offset: &[usize], mirror: &[bool]) -> (r:
        Result<usize, CodecError>)
        requires
            self.wf(offset@.len(), *pat),
            grid.wf(),
            mirror@.len() == offset@.len(),
        ensures
            match r {
                Ok(v) => self.decode_spec(*pat, grid.shape@, grid.cells@, offset@, mirror@) == Ok::<
                    int,
                    CodecError,
                >(v as int),
                Err(e) => self.decode_spec(*pat, grid.shape@, grid.cells@, offset@, mirror@) == Err::<
                    int,
                    CodecError,
                >(e),
            },
    {
        let ghost shape = grid.shape@;
        let ghost cells = grid.cells@;
        let mut buf: Vec<bool> = Vec::new();
        let mut p: usize = 0;
        while p < self.bits.len()
            invariant
                self.wf(offset@.len(), *pat),
                grid.wf(),
                mirror@.len() == offset@.len(),
                shape == grid.shape@,
                cells == grid.cells@,
                p <= self.bits@.len(),
                buf@.len() == p,
                forall|q: int|
                    0 <= q < p && is_local(#[trigger] self.bits@[q]) ==> in_bounds(
                        shape,
                        placed(self.bits@[q], offset@, mirror@),
                    ),
                forall|q: int|
                    0 <= q < p ==> #[trigger] buf@[q] == self.read_bit(shape, cells, offset@, mirror@, q),
            decreases self.bits@.len() - p,
        {
            let b = &self.bits[p];
            match &b.pos {
                BitPos::Fixed(v) => {
                    buf.push(*v != b.invert);
                },
                BitPos::Local(_) => {
                    match locate(b, grid, offset, mirror) {
                        Some(c) => {
                            let cell = grid.get(c.as_slice());
                            match cell {
                                Some(x) => buf.push(x != b.invert),
                                None => {
                                    return Err(CodecError::OutOfRange);
                                },
                            }
                        },
                        None => {
                            return Err(CodecError::OutOfRange);
                        },
                    }
                },
            }
            p = p + 1;
        }
        assert(buf@ =~= self.read_buffer(shape, cells, offset@, mirror@));
        match pat.decode(buf.as_slice()) {
            Ok(v) => Ok(v),
            Err(e) => Err(e),
        }
    }
}

impl FragmentLayout {
    /// Result of decoding field `k` from `cells`.
    pub open spec fn field_result(
        &self,
        shape: Seq<usize>,
        cells: Seq<bool>,
        offset: Seq<usize>,
        mirror: Seq<bool>,
        k: int,
    ) -> Result<int, CodecError> {
        self.fields@[k].decode_spec(self.pattern_of(k), shape, cells, offset, mirror)
    }

    /// Number of fields.
    pub fn field_count(&self) -> (r: usize)
        ensures
            r == self.fields@.len(),
    {
        self.fields.len()
    }

    /// Name of field `i`.
    pub fn field_name(&self, i: usize) -> (r: &str)
        requires
            i < self.fields@.len(),
        ensures
            r@ == self.fields@[i as int].name@,
    {
        self.fields[i].name.as_str()
    }

    /// Description of field `i`.
    pub fn field_desc(&self, i: usize) -> (r: &str)
        requires
            i < self.fields@.len(),
        ensures
            r@ == self.fields@[i as int].desc@,
    {
        self.fields[i].desc.as_str()
    }

    /// Kind of field `i`.
    pub fn field_kind(&self, i: usize) -> (r: FieldKind)
        requires
            i < self.fields@.len(),
        ensures
            r == self.fields@[i as int].kind,
    {
        self.fields[i].kind
    }

    /// Encodes one variant index per field, fields in declaration order.
    /// Where some stored bit of some field lies outside the grid, nothing is
    /// written and `OutOfRange` is returned.
    pub fn encode(&self, values: &[usize], grid: &mut Grid, offset: &[usize], mirror: &[bool]) -> (r:
        Result<(), CodecError>)
        requires
            self.wf(),
            self.values_ok(values@),
            old(grid).wf(),
            offset@.len() == self.dims,
            mirror@.len() == self.dims,
        ensures
            final(grid).wf(),
            final(grid).shape == old(grid).shape,
            r is Ok <==> self.coords_ok(old(grid).shape@, offset@, mirror@),
            r is Ok ==> final(grid).cells@ == self.encode_spec(
                old(grid).shape@,
                old(grid).cells@,
                values@,
                offset@,
                mirror@,
            ),
            r is Err ==> r == Err::<(), CodecError>(CodecError::OutOfRange) && final(grid).cells@
                == old(grid).cells@,
    {
        let mut k: usize = 0;
        while k < self.fields.len()
            invariant
                self.wf(),
                grid.wf(),
                offset@.len() == self.dims,
                mirror@.len() == self.dims,
                k <= self.fields@.len(),
                forall|j: int|
                    0 <= j < k ==> #[trigger] self.fields@[j].coords_ok(grid.shape@, offset@, mirror@),
            decreases self.fields@.len() - k,
        {
            assert(self.fields@[k as int].wf(self.dims as nat, self.pattern_of(k as int)));
            if !self.fields[k].check_coords(grid, offset, mirror) {
                return Err(CodecError::OutOfRange);
            }
            k = k + 1;
        }
        let ghost shape = grid.shape@;
        let ghost start = grid.cells@;
        let mut k: usize = 0;
        while k < self.fields.len()
            invariant
                self.wf(),
                self.values_ok(values@),
                grid.wf(),
                offset@.len() == self.dims,
                mirror@.len() == self.dims,
                shape == grid.shape@,
                grid.shape == old(grid).shape,
                self.coords_ok(shape, offset@, mirror@),
                k <= self.fields@.len(),
                grid.cells@ == self.write_fields(shape, start, values@, offset@, mirror@, k as int),
            decreases self.fields@.len() - k,
        {
            assert(self.fields@[k as int].wf(self.dims as nat, self.pattern_of(k as int)));
            assert(self.fields@[k as int].coords_ok(shape, offset@, mirror@));
            assert(values@[k as int] < self.pattern_of(k as int).variant_count());
            let f = &self.fields[k];
            let _ = f.encode(&self.patterns[f.pattern], values[k], grid, offset, mirror);
            k = k + 1;
        }
        Ok(())
    }

    /// Decodes one variant index per field, fields in declaration order.
    /// The first field that fails aborts the decode with its error.
    pub fn decode(&self, grid: &Grid, offset: &[usize], mirror: &[bool]) -> (r: Result<
        Vec<usize>,
        CodecError,
    >)
        requires
            self.wf(),
            grid.wf(),
            offset@.len() == self.dims,
            mirror@.len() == self.dims,
        ensures
            match r {
                Ok(vals) => vals@.len() == self.fields@.len() && forall|k: int|
                    0 <= k < vals@.len() ==> #[trigger] self.field_result(
                        grid.shape@,
                        grid.cells@,
                        offset@,
                        mirror@,
                        k,
                    ) == Ok::<int, CodecError>(vals@[k] as int),
                Err(e) => exists|k: int|
                    0 <= k < self.fields@.len() && #[trigger] self.field_result(
                        grid.shape@,
                        grid.cells@,
                        offset@,
                        mirror@,
                        k,
                    ) == Err::<int, CodecError>(e) && forall|j: int|
                        0 <= j < k ==> (#[trigger] self.field_result(
                            grid.shape@,
                            grid.cells@,
                            offset@,
                            mirror@,
                            j,
                        )) is Ok,
            },
    {
        let mut vals: Vec<usize> = Vec::new();
        let mut k: usize = 0;
        while k < self.fields.len()
            invariant
                self.wf(),
                grid.wf(),
                offset@.len() == self.dims,
                mirror@.len() == self.dims,
                k <= self.fields@.len(),
                vals@.len() == k,
                forall|j: int|
                    0 <= j < k ==> #[trigger] self.field_result(grid.shape@, grid.cells@, offset@, mirror@, j)
                        == Ok::<int, CodecError>(vals@[j] as int),
            decreases self.fields@.len() - k,
        {
            assert(self.fields@[k as int].wf(self.dims as nat, self.pattern_of(k as int)));
            let f = &self.fields[k];
            match f.decode(&self.patterns[f.pattern], grid, offset, mirror) {
                Ok(v) => vals.push(v),
                Err(e) => {
                    assert(self.field_result(grid.shape@, grid.cells@, offset@, mirror@, k as int)
                        == Err::<int, CodecError>(e));
                    return Err(e);
                },
            }
            k = k + 1;
        }
        Ok(vals)
    }
}

impl FragmentLayout {
    /// No two stored bits, of one field or of two, share a local position.
    pub open spec fn disjoint(&self) -> bool {
        forall|j: int, q: int, k: int, p: int|
            0 <= j < self.fields@.len() && 0 <= k < self.fields@.len() && 0 <= q
                < self.fields@[j].bits@.len() && 0 <= p < self.fields@[k].bits@.len() && (j != k || q
                != p) && is_local(self.fields@[j].bits@[q]) && is_local(self.fields@[k].bits@[p])
                ==> #[trigger] local_of(self.fields@[j].bits@[q]) != #[trigger] local_of(
                self.fields@[k].bits@[p],
            )
    }

    /// Encoding one variant per field into a grid and decoding from the same
    /// offset and mirroring gives back every variant, provided that no two
    /// stored bits share a position, that every stored bit lands inside the
    /// grid, and that each field recovers its variant (no fixed bit
    /// contradicts it and no earlier variant of its pattern shadows it).
    pub proof fn lemma_round_trip(
        &self,
        shape: Seq<usize>,
        cells: Seq<bool>,
        values: Seq<usize>,
        offset: Seq<usize>,
        mirror: Seq<bool>,
    )
        requires
            self.wf(),
            self.disjoint(),
            self.values_ok(values),
            cells.len() == cell_count(shape),
            offset.len() == self.dims,
            mirror.len() == self.dims,
            self.coords_ok(shape, offset, mirror),
            forall|k: int|
                0 <= k < values.len() ==> #[trigger] self.fields@[k].recovers(
                    self.pattern_of(k),
                    values[k] as int,
                ),
        ensures
            forall|k: int|
                0 <= k < self.fields@.len() ==> #[trigger] self.field_result(
                    shape,
                    self.encode_spec(shape, cells, values, offset, mirror),
                    offset,
                    mirror,
                    k,
                ) == Ok::<int, CodecError>(values[k] as int),
    {
        let n = self.fields@.len() as int;
        let out = self.encode_spec(shape, cells, values, offset, mirror);
        assert forall|k: int| 0 <= k < n implies #[trigger] self.field_result(
            shape,
            out,
            offset,
            mirror,
            k,
        ) == Ok::<int, CodecError>(values[k] as int) by {
            let f = self.fields@[k];
            let pat = self.pattern_of(k);
            assert(f.wf(self.dims as nat, pat));
            assert(f.coords_ok(shape, offset, mirror));
            assert forall|p: int| 0 <= p < f.bits@.len() implies #[trigger] f.read_buffer(
                shape,
                out,
                offset,
                mirror,
            )[p] == f.recovered(pat, values[k] as int)[p] by {
                if is_local(f.bits@[p]) {
                    self.lemma_cell_after(shape, cells, values, offset, mirror, n, k, p);
                }
            }
            assert(f.read_buffer(shape, out, offset, mirror) =~= f.recovered(pat, values[k] as int));
            assert(f.recovers(pat, values[k] as int));
        }
    }

    /// After encoding the first `n` fields, the cell of stored bit `p` of
    /// field `k < n` holds that bit's encoded value through the inversion.
    proof fn lemma_cell_after(
        &self,
        shape: Seq<usize>,
        cells: Seq<bool>,
        values: Seq<usize>,
        offset: Seq<usize>,
        mirror: Seq<bool>,
        n: int,
        k: int,
        p: int,
    )
        requires
            self.wf(),
            self.disjoint(),
            self.values_ok(values),
            cells.len() == cell_count(shape),
            offset.len() == self.dims,
            mirror.len() == self.dims,
            self.coords_ok(shape, offset, mirror),
            0 <= k < n <= self.fields@.len(),
            0 <= p < self.fields@[k].bits@.len(),
            is_local(self.fields@[k].bits@[p]),
        ensures
            ({
                let f = self.fields@[k];
                let b = f.bits@[p];
                self.write_fields(shape, cells, values, offset, mirror, n)[linear(
                    shape,
                    placed(b, offset, mirror),
                )] == (encode_bits(self.pattern_of(k).bits_of(values[k] as int))[p] != b.invert)
            }),
        decreases n,
    {
        let f = self.fields@[k];
        let b = f.bits@[p];
        let target = linear(shape, placed(b, offset, mirror));
        let before = self.write_fields(shape, cells, values, offset, mirror, n - 1);
        self.lemma_write_fields_len(shape, cells, values, offset, mirror, n - 1);
        assert(f.wf(self.dims as nat, self.pattern_of(k)));
        assert(f.coords_ok(shape, offset, mirror));
        if n - 1 == k {
            assert forall|q: int|
                p < q < f.bits@.len() && is_local(#[trigger] f.bits@[q]) implies linear(
                shape,
                placed(f.bits@[q], offset, mirror),
            ) != target by {
                assert(local_of(self.fields@[k].bits@[q]) != local_of(self.fields@[k].bits@[p]));
                lemma_distinct_cells(shape, f.bits@[q], b, offset, mirror);
            }
            lemma_linear_bounds(shape, placed(b, offset, mirror), shape.len() as int);
            f.lemma_write_hit(
                shape,
                before,
                encode_bits(self.pattern_of(k).bits_of(values[k] as int)),
                offset,
                mirror,
                f.bits@.len() as int,
                p,
            );
        } else {
            let g = self.fields@[n - 1];
            assert(g.wf(self.dims as nat, self.pattern_of(n - 1)));
            assert(g.coords_ok(shape, offset, mirror));
            assert forall|q: int|
                0 <= q < g.bits@.len() && is_local(#[trigger] g.bits@[q]) implies linear(
                shape,
                placed(g.bits@[q], offset, mirror),
            ) != target by {
                assert(local_of(self.fields@[n - 1].bits@[q]) != local_of(self.fields@[k].bits@[p]));
                lemma_distinct_cells(shape, g.bits@[q], b, offset, mirror);
            }
            lemma_linear_bounds(shape, placed(b, offset, mirror), shape.len() as int);
            g.lemma_write_frame(
                shape,
                before,
                encode_bits(self.pattern_of(n - 1).bits_of(values[n - 1] as int)),
                offset,
                mirror,
                g.bits@.len() as int,
                target,
            );
            self.lemma_cell_after(shape, cells, values, offset, mirror, n - 1, k, p);
        }
    }

    /// Encoding keeps the number of cells.
    proof fn lemma_write_fields_len(
        &self,
        shape: Seq<usize>,
        cells: Seq<bool>,
        values: Seq<usize>,
        offset: Seq<usize>,
        mirror: Seq<bool>,
        n: int,
    )
        ensures
            self.write_fields(shape, cells, values, offset, mirror, n).len() == cells.len(),
        decreases n,
    {
        if n > 0 {
            self.lemma_write_fields_len(shape, cells, values, offset, mirror, n - 1);
            let f = self.fields@[n - 1];
            f.lemma_write_len(
                shape,
                self.write_fields(shape, cells, values, offset, mirror, n - 1),
                encode_bits(self.pattern_of(n - 1).bits_of(values[n - 1] as int)),
                offset,
                mirror,
                f.bits@.len() as int,
            );
        }
    }
}

impl FieldLayout {
    /// Writing keeps the number of cells.
    proof fn lemma_write_len(
        &self,
        shape: Seq<usize>,
        cells: Seq<bool>,
        enc: Seq<bool>,
        offset: Seq<usize>,
        mirror: Seq<bool>,
        n: int,
    )
        ensures
            self.write_upto(shape, cells, enc, offset, mirror, n).len() == cells.len(),
        decreases n,
    {
        if n > 0 {
            self.lemma_write_len(shape, cells, enc, offset, mirror, n - 1);
        }
    }

    /// Writing the first `n` bits leaves a cell that none of them hits alone.
    proof fn lemma_write_frame(
        &self,
        shape: Seq<usize>,
        cells: Seq<bool>,
        enc: Seq<bool>,
        offset: Seq<usize>,
        mirror: Seq<bool>,
        n: int,
        i: int,
    )
        requires
            0 <= n <= self.bits@.len(),
            0 <= i < cells.len(),
            forall|q: int|
                0 <= q < n && is_local(#[trigger] self.bits@[q]) ==> linear(
                    shape,
                    placed(self.bits@[q], offset, mirror),
                ) != i,
        ensures
            self.write_upto(shape, cells, enc, offset, mirror, n)[i] == cells[i],
        decreases n,
    {
        if n > 0 {
            self.lemma_write_len(shape, cells, enc, offset, mirror, n - 1);
            self.lemma_write_frame(shape, cells, enc, offset, mirror, n - 1, i);
        }
    }

    /// After writing the first `n` bits, the cell of stored bit `p < n`
    /// holds its value, when no later bit among them hits the same cell.
    proof fn lemma_write_hit(
        &self,
        shape: Seq<usize>,
        cells: Seq<bool>,
        enc: Seq<bool>,
        offset: Seq<usize>,
        mirror: Seq<bool>,
        n: int,
        p: int,
    )
        requires
            0 <= p < n <= self.bits@.len(),
            is_local(self.bits@[p]),
            0 <= linear(shape, placed(self.bits@[p], offset, mirror)) < cells.len(),
            forall|q: int|
                p < q < n && is_local(#[trigger] self.bits@[q]) ==> linear(
                    shape,
                    placed(self.bits@[q], offset, mirror),
                ) != linear(shape, placed(self.bits@[p], offset, mirror)),
        ensures
            self.write_upto(shape, cells, enc, offset, mirror, n)[linear(
                shape,
                placed(self.bits@[p], offset, mirror),
            )] == (enc[p] != self.bits@[p].invert),
        decreases n,
    {
        self.lemma_write_len(shape, cells, enc, offset, mirror, n - 1);
        if n - 1 > p {
            self.lemma_write_hit(shape, cells, enc, offset, mirror, n - 1, p);
        }
    }
}

/// Two stored bits with distinct local positions, both inside the grid,
/// occupy distinct cells.
proof fn lemma_distinct_cells(
    shape: Seq<usize>,
    a: BitPlacement,
    b: BitPlacement,
    offset: Seq<usize>,
    mirror: Seq<bool>,
)
    requires
        local_of(a).len() == offset.len(),
        local_of(b).len() == offset.len(),
        mirror.len() == offset.len(),
        in_bounds(shape, placed(a, offset, mirror)),
        in_bounds(shape, placed(b, offset, mirror)),
        local_of(a) != local_of(b),
    ensures
        linear(shape, placed(a, offset, mirror)) != linear(shape, placed(b, offset, mirror)),
{
    if linear(shape, placed(a, offset, mirror)) == linear(shape, placed(b, offset, mirror)) {
        lemma_linear_injective(shape, placed(a, offset, mirror), placed(b, offset, mirror));
        assert forall|d: int| 0 <= d < offset.len() implies local_of(a)[d] == local_of(b)[d] by {
            assert(placed(a, offset, mirror)[d] == placed(b, offset, mirror)[d]);
        }
        assert(local_of(a) =~= local_of(b));
    }
}

impl FragmentLayout {
    /// Appends a field whose bits are already resolved, one per canonical
    /// bit of its pattern.
    pub fn push_field(&mut self, field: FieldLayout)
        requires
            old(self).wf(),
            field.pattern < old(self).patterns@.len(),
            field.wf(old(self).dims as nat, old(self).patterns@[field.pattern as int]),
        ensures
            final(self).wf(),
            final(self).dims == old(self).dims,
            final(self).patterns@ == old(self).patterns@,
            final(self).fields@ == old(self).fields@.push(field),
    {
        self.fields.push(field);
        assert forall|k: int| 0 <= k < self.fields@.len() implies #[trigger] self.fields@[k].pattern
            < self.patterns@.len() && self.fields@[k].wf(self.dims as nat, self.pattern_of(k)) by {
            if k < old(self).fields@.len() {
                assert(old(self).fields@[k].pattern < old(self).patterns@.len());
            }
        }
    }
}

impl FragmentLayout {
    /// Encoding leaves a cell as it was when no stored bit of any field
    /// lands on it; fixed bits are never written.
    pub proof fn lemma_encode_frame(
        &self,
        shape: Seq<usize>,
        cells: Seq<bool>,
        values: Seq<usize>,
        offset: Seq<usize>,
        mirror: Seq<bool>,
        i: int,
    )
        requires
            0 <= i < cells.len(),
            forall|k: int, p: int|
                0 <= k < self.fields@.len() && 0 <= p < self.fields@[k].bits@.len() && is_local(
                    #[trigger] self.fields@[k].bits@[p],
                ) ==> linear(shape, placed(self.fields@[k].bits@[p], offset, mirror)) != i,
        ensures
            self.encode_spec(shape, cells, values, offset, mirror)[i] == cells[i],
    {
        self.lemma_write_fields_frame(shape, cells, values, offset, mirror, self.fields@.len() as int, i);
    }

    proof fn lemma_write_fields_frame(
        &self,
        shape: Seq<usize>,
        cells: Seq<bool>,
        values: Seq<usize>,
        offset: Seq<usize>,
        mirror: Seq<bool>,
        n: int,
        i: int,
    )
        requires
            0 <= i < cells.len(),
            0 <= n <= self.fields@.len(),
            forall|k: int, p: int|
                0 <= k < self.fields@.len() && 0 <= p < self.fields@[k].bits@.len() && is_local(
                    #[trigger] self.fields@[k].bits@[p],
                ) ==> linear(shape, placed(self.fields@[k].bits@[p], offset, mirror)) != i,
        ensures
            self.write_fields(shape, cells, values, offset, mirror, n)[i] == cells[i],
        decreases n,
    {
        if n > 0 {
            self.lemma_write_fields_frame(shape, cells, values, offset, mirror, n - 1, i);
            self.lemma_write_fields_len(shape, cells, values, offset, mirror, n - 1);
            let f = self.fields@[n - 1];
            assert forall|q: int|
                0 <= q < f.bits@.len() && is_local(#[trigger] f.bits@[q]) implies linear(
                shape,
                placed(f.bits@[q], offset, mirror),
            ) != i by {
                assert(is_local(self.fields@[n - 1].bits@[q]));
            }
            f.lemma_write_frame(
                shape,
                self.write_fields(shape, cells, values, offset, mirror, n - 1),
                encode_bits(self.pattern_of(n - 1).bits_of(values[n - 1] as int)),
                offset,
                mirror,
                f.bits@.len() as int,
                i,
            );
        }
    }
}

impl FieldLayout {
    /// A field recovers a variant that no earlier variant of its pattern
    /// shadows when each bit it does not store reads as that variant's
    /// encoding.
    pub proof fn lemma_recovers(&self, pat: PatternSchema, v: int)
        requires
            pat.wf(),
            self.bits@.len() == pat.bits_count(),
            0 <= v < pat.variant_count(),
            !pat.shadowed(v),
            forall|p: int|
                0 <= p < self.bits@.len() && !is_local(#[trigger] self.bits@[p]) ==> (fixed_of(
                    self.bits@[p],
                ) != self.bits@[p].invert) == encode_bits(pat.bits_of(v))[p],
        ensures
            self.recovers(pat, v),
    {
        assert(pat.bits_of(v).len() == pat.bits_count());
        assert(self.recovered(pat, v) =~= encode_bits(pat.bits_of(v)));
        pat.lemma_round_trip(v);
    }
}

/// Moving the offset moves every placed coordinate by the same amount,
/// whatever the mirroring.
pub proof fn lemma_placed_translate(b: BitPlacement, o1: Seq<usize>, o2: Seq<usize>, mirror: Seq<bool>)
    requires
        o1.len() == local_of(b).len(),
        o2.len() == local_of(b).len(),
        mirror.len() == local_of(b).len(),
    ensures
        forall|d: int|
            0 <= d < local_of(b).len() ==> #[trigger] placed(b, o2, mirror)[d] == placed(b, o1, mirror)[d]
                + (o2[d] - o1[d]),
{
}

/// Flipping the mirroring of a dimension reflects the placed coordinate
/// about the offset; the other dimensions stay.
pub proof fn lemma_placed_mirror(b: BitPlacement, offset: Seq<usize>, m1: Seq<bool>, m2: Seq<bool>)
    requires
        offset.len() == local_of(b).len(),
        m1.len() == local_of(b).len(),
        m2.len() == local_of(b).len(),
    ensures
        forall|d: int|
            0 <= d < local_of(b).len() ==> #[trigger] placed(b, offset, m2)[d] == if m1[d] != m2[d] {
                2 * offset[d] - placed(b, offset, m1)[d]
            } else {
                placed(b, offset, m1)[d]
            },
{
}

impl FragmentLayout {
    /// After encoding, the cell that a stored bit lands on holds that bit of
    /// its field's encoding through the inversion, provided that no two
    /// stored bits share a position and every one lands inside the grid.
    pub proof fn lemma_encoded_cell(
        &self,
        shape: Seq<usize>,
        cells: Seq<bool>,
        values: Seq<usize>,
        offset: Seq<usize>,
        mirror: Seq<bool>,
        k: int,
        p: int,
    )
        requires
            self.wf(),
            self.disjoint(),
            self.values_ok(values),
            cells.len() == cell_count(shape),
            offset.len() == self.dims,
            mirror.len() == self.dims,
            self.coords_ok(shape, offset, mirror),
            0 <= k < self.fields@.len(),
            0 <= p < self.fields@[k].bits@.len(),
            is_local(self.fields@[k].bits@[p]),
        ensures
            self.encode_spec(shape, cells, values, offset, mirror)[linear(
                shape,
                placed(self.fields@[k].bits@[p], offset, mirror),
            )] == (encode_bits(self.pattern_of(k).bits_of(values[k] as int))[p]
                != self.fields@[k].bits@[p].invert),
    {
        self.lemma_cell_after(shape, cells, values, offset, mirror, self.fields@.len() as int, k, p);
    }

    /// Decoding looks only at the cells that stored bits land on: two grids
    /// and placements under which every stored bit is inside both grids or
    /// outside both, and reads the same cell value where inside, decode
    /// alike, field by field. With `lemma_placed_translate` and
    /// `lemma_placed_mirror` this gives decoding of a translated or
    /// reflected grid.
    pub proof fn lemma_decode_congruent(
        &self,
        shape1: Seq<usize>,
        cells1: Seq<bool>,
        o1: Seq<usize>,
        m1: Seq<bool>,
        shape2: Seq<usize>,
        cells2: Seq<bool>,
        o2: Seq<usize>,
        m2: Seq<bool>,
    )
        requires
            forall|k: int, p: int|
                0 <= k < self.fields@.len() && 0 <= p < self.fields@[k].bits@.len() && is_local(
                    #[trigger] self.fields@[k].bits@[p],
                ) ==> (in_bounds(shape1, placed(self.fields@[k].bits@[p], o1, m1)) == in_bounds(
                    shape2,
                    placed(self.fields@[k].bits@[p], o2, m2),
                ) && (in_bounds(shape1, placed(self.fields@[k].bits@[p], o1, m1)) ==> cells1[linear(
                    shape1,
                    placed(self.fields@[k].bits@[p], o1, m1),
                )] == cells2[linear(shape2, placed(self.fields@[k].bits@[p], o2, m2))])),
        ensures
            forall|k: int|
                0 <= k < self.fields@.len() ==> #[trigger] self.field_result(shape1, cells1, o1, m1, k)
                    == self.field_result(shape2, cells2, o2, m2, k),
    {
        assert forall|k: int| 0 <= k < self.fields@.len() implies #[trigger] self.field_result(
            shape1,
            cells1,
            o1,
            m1,
            k,
        ) == self.field_result(shape2, cells2, o2, m2, k) by {
            let f = self.fields@[k];
            assert forall|p: int| 0 <= p < f.bits@.len() && is_local(#[trigger] f.bits@[p]) implies in_bounds(
                shape1,
                placed(f.bits@[p], o1, m1),
            ) == in_bounds(shape2, placed(f.bits@[p], o2, m2)) by {
                assert(is_local(self.fields@[k].bits@[p]));
            }
            assert(f.coords_ok(shape1, o1, m1) == f.coords_ok(shape2, o2, m2));
            if f.coords_ok(shape1, o1, m1) {
                assert forall|p: int| 0 <= p < f.bits@.len() implies #[trigger] f.read_buffer(
                    shape1,
                    cells1,
                    o1,
                    m1,
                )[p] == f.read_buffer(shape2, cells2, o2, m2)[p] by {
                    if is_local(f.bits@[p]) {
                        assert(is_local(self.fields@[k].bits@[p]));
                    }
                }
                assert(f.read_buffer(shape1, cells1, o1, m1) =~= f.read_buffer(shape2, cells2, o2, m2));
            }
        }
    }
}

} // verus!
