//! Building layouts: resolving bits declared by name, placing arrays of
//! patterns and nested layouts by composing their offsets.

use vstd::prelude::*;
use crate::coord::abs_dim;
use crate::error::SchemaError;
use crate::fragment::{
    fixed_of, is_local, local_of, placed, BitPlacement, BitPos, FieldKind, FieldLayout,
    FragmentLayout,
};
use crate::pattern::PatternSchema;

verus! {

/// A bit placement declared under the bit's name.
pub struct NamedBit {
    pub name: String,
    pub placement: BitPlacement,
}

/// Two placements say the same thing.
pub open spec fn same_placement(a: BitPlacement, b: BitPlacement) -> bool {
    &&& a.invert == b.invert
    &&& is_local(a) == is_local(b)
    &&& local_of(a) == local_of(b)
    &&& fixed_of(a) == fixed_of(b)
}

/// Every stored position among `entries` has `dims` components.
pub open spec fn entries_dims_ok(entries: Seq<NamedBit>, dims: nat) -> bool {
    forall|i: int|
        0 <= i < entries.len() && is_local(#[trigger] entries[i].placement) ==> local_of(
            entries[i].placement,
        ).len() == dims
}

/// Every entry names a bit of the pattern.
pub open spec fn entries_known(pat: PatternSchema, entries: Seq<NamedBit>) -> bool {
    forall|i: int| 0 <= i < entries.len() ==> (#[trigger] pat.pos_of_name(entries[i].name@)) is Some
}

/// No name is declared twice.
pub open spec fn entries_distinct(entries: Seq<NamedBit>) -> bool {
    forall|i: int, j: int|
        0 <= i < entries.len() && 0 <= j < entries.len() && i != j ==> #[trigger] entries[i].name@
            != #[trigger] entries[j].name@
}

/// Some entry is declared under name `n`.
pub open spec fn declares(entries: Seq<NamedBit>, n: Seq<char>) -> bool {
    exists|i: int| 0 <= i < entries.len() && #[trigger] entries[i].name@ == n
}

/// Every bit of the pattern is declared.
pub open spec fn entries_cover(pat: PatternSchema, entries: Seq<NamedBit>) -> bool {
    forall|p: int| 0 <= p < pat.bits_count() ==> declares(entries, #[trigger] pat.name_at(p))
}

/// The declarations are complete and consistent.
pub open spec fn entries_ok(pat: PatternSchema, entries: Seq<NamedBit>, dims: nat) -> bool {
    &&& entries_dims_ok(entries, dims)
    &&& entries_known(pat, entries)
    &&& entries_distinct(entries)
    &&& entries_cover(pat, entries)
}

/// `e` is an error that the declarations deserve.
pub open spec fn entries_error(pat: PatternSchema, entries: Seq<NamedBit>, dims: nat, e: SchemaError) -> bool {
    ||| e == SchemaError::DimensionMismatch && !entries_dims_ok(entries, dims)
    ||| e == SchemaError::UnknownBitName && !entries_known(pat, entries)
    ||| e == SchemaError::DuplicateBitName && !entries_distinct(entries)
    ||| e == SchemaError::MissingBitName && !entries_cover(pat, entries)
}

/// `bits` holds, at the position of each declared name, that declaration.
pub open spec fn resolved_as(pat: PatternSchema, entries: Seq<NamedBit>, bits: Seq<BitPlacement>) -> bool {
    &&& bits.len() == pat.bits_count()
    &&& forall|i: int|
        0 <= i < entries.len() ==> (#[trigger] pat.pos_of_name(entries[i].name@) matches Some(p)
            && same_placement(bits[p], entries[i].placement))
}

/// Local position `loc` moved to base `base`, mirrored where `flip` says.
pub open spec fn moved(base: Seq<isize>, flip: Seq<bool>, loc: Seq<isize>) -> Seq<int> {
    Seq::new(loc.len(), |d: int| abs_dim(base[d] as int, flip[d], loc[d] as int))
}

/// `r` is `b` moved to base `base`, mirrored where `flip` says.
pub open spec fn placed_as(r: BitPlacement, b: BitPlacement, base: Seq<isize>, flip: Seq<bool>) -> bool {
    &&& r.invert == b.invert
    &&& is_local(r) == is_local(b)
    &&& fixed_of(r) == fixed_of(b)
    &&& local_of(r).len() == local_of(b).len()
    &&& forall|d: int|
        0 <= d < local_of(b).len() ==> #[trigger] local_of(r)[d] as int == moved(
            base,
            flip,
            local_of(b),
        )[d]
}

/// Some component of a moved position does not fit in `isize`.
pub open spec fn overflows(base: Seq<isize>, flip: Seq<bool>, loc: Seq<isize>) -> bool {
    exists|d: int|
        0 <= d < loc.len() && !(isize::MIN <= #[trigger] moved(base, flip, loc)[d] <= isize::MAX)
}

/// `slot` holds a placement that says what `b` says.
pub open spec fn slot_copied(slot: Option<BitPlacement>, b: BitPlacement) -> bool {
    match slot {
        Some(x) => same_placement(b, x),
        None => false,
    }
}

/// A copy of a coordinate vector.
fn copy_coord(v: &Vec<isize>) -> (r: Vec<isize>)
    ensures
        r@ == v@,
{
    let mut out: Vec<isize> = Vec::new();
    let mut i: usize = 0;
    while i < v.len()
        invariant
            i <= v@.len(),
            out@ =~= v@.subrange(0, i as int),
        decreases v@.len() - i,
    {
        out.push(v[i]);
        i = i + 1;
    }
    assert(out@ =~= v@);
    out
}

/// A copy of a placement.
fn copy_placement(b: &BitPlacement) -> (r: BitPlacement)
    ensures
        same_placement(r, *b),
{
    match &b.pos {
        BitPos::Fixed(v) => BitPlacement { pos: BitPos::Fixed(*v), invert: b.invert },
        BitPos::Local(loc) => BitPlacement { pos: BitPos::Local(copy_coord(loc)), invert: b.invert },
    }
}

/// Placement `b` moved to base `base`, mirrored where `flip` says;
/// `CoordinateOverflow` where a component does not fit in `isize`.
pub fn place_bit(b: &BitPlacement, base: &[isize], flip: &[bool]) -> (r: Result<
    BitPlacement,
    SchemaError,
>)
    requires
        base@.len() == flip@.len(),
        is_local(*b) ==> local_of(*b).len() == base@.len(),
    ensures
        match r {
            Ok(x) => placed_as(x, *b, base@, flip@),
            Err(e) => e == SchemaError::CoordinateOverflow && is_local(*b) && overflows(
                base@,
                flip@,
                local_of(*b),
            ),
        },
{
    match &b.pos {
        BitPos::Fixed(v) => Ok(BitPlacement { pos: BitPos::Fixed(*v), invert: b.invert }),
        BitPos::Local(loc) => {
            let mut out: Vec<isize> = Vec::new();
            let mut d: usize = 0;
            while d < loc.len()
                invariant
                    base@.len() == flip@.len(),
                    loc@.len() == base@.len(),
                    loc@ == local_of(*b),
                    d <= loc@.len(),
                    out@.len() == d,
                    forall|e: int|
                        0 <= e < d ==> #[trigger] out@[e] as int == moved(base@, flip@, loc@)[e],
                decreases loc@.len() - d,
            {
                let o: i128 = base[d] as i128;
                let l: i128 = loc[d] as i128;
                let v: i128 = if flip[d] {
                    o - l
                } else {
                    o + l
                };
                if v < isize::MIN as i128 || v > isize::MAX as i128 {
                    assert(!(isize::MIN <= moved(base@, flip@, loc@)[d as int] <= isize::MAX));
                    return Err(SchemaError::CoordinateOverflow);
                }
                out.push(v as isize);
                d = d + 1;
            }
            Ok(BitPlacement { pos: BitPos::Local(out), invert: b.invert })
        },
    }
}

/// Placements `bits` moved to base `base`, mirrored where `flip` says.
pub fn place_bits(bits: &Vec<BitPlacement>, base: &[isize], flip: &[bool]) -> (r: Result<
    Vec<BitPlacement>,
    SchemaError,
>)
    requires
        base@.len() == flip@.len(),
        forall|p: int|
            0 <= p < bits@.len() && is_local(#[trigger] bits@[p]) ==> local_of(bits@[p]).len()
                == base@.len(),
    ensures
        match r {
            Ok(x) => x@.len() == bits@.len() && forall|p: int|
                0 <= p < bits@.len() ==> #[trigger] placed_as(x@[p], bits@[p], base@, flip@),
            Err(e) => e == SchemaError::CoordinateOverflow && exists|p: int|
                0 <= p < bits@.len() && is_local(bits@[p]) && #[trigger] overflows(
                    base@,
                    flip@,
                    local_of(bits@[p]),
                ),
        },
{
    let mut out: Vec<BitPlacement> = Vec::new();
    let mut p: usize = 0;
    while p < bits.len()
        invariant
            base@.len() == flip@.len(),
            forall|q: int|
                0 <= q < bits@.len() && is_local(#[trigger] bits@[q]) ==> local_of(bits@[q]).len()
                    == base@.len(),
            p <= bits@.len(),
            out@.len() == p,
            forall|q: int| 0 <= q < p ==> #[trigger] placed_as(out@[q], bits@[q], base@, flip@),
        decreases bits@.len() - p,
    {
        match place_bit(&bits[p], base, flip) {
            Ok(x) => out.push(x),
            Err(e) => {
                return Err(e);
            },
        }
        p = p + 1;
    }
    Ok(out)
}

/// A bit moved by a placement lands, under offset `offset` and mirroring
/// `mirror`, where the unmoved bit lands under the composed origin
/// `offset + (mirror ? -1 : 1) * base` and mirroring `mirror != flip`: a
/// flattened nested layout stores each bit where the nested codec would.
pub proof fn lemma_placed_composes(
    r: BitPlacement,
    b: BitPlacement,
    base: Seq<isize>,
    flip: Seq<bool>,
    offset: Seq<usize>,
    mirror: Seq<bool>,
)
    requires
        placed_as(r, b, base, flip),
        is_local(b),
    ensures
        forall|d: int|
            0 <= d < local_of(b).len() ==> #[trigger] placed(r, offset, mirror)[d] == abs_dim(
                abs_dim(offset[d] as int, mirror[d], base[d] as int),
                mirror[d] != flip[d],
                local_of(b)[d] as int,
            ),
{
    assert forall|d: int| 0 <= d < local_of(b).len() implies #[trigger] placed(r, offset, mirror)[d]
        == abs_dim(
        abs_dim(offset[d] as int, mirror[d], base[d] as int),
        mirror[d] != flip[d],
        local_of(b)[d] as int,
    ) by {
        assert(local_of(r)[d] as int == moved(base, flip, local_of(b))[d]);
        crate::coord::lemma_compose(
            offset[d] as int,
            mirror[d],
            base[d] as int,
            flip[d],
            local_of(b)[d] as int,
        );
    }
}

/// Resolves placements declared by name into one placement per canonical
/// bit of `pat`, in position order. Rejects a stored position without
/// `dims` components (checked first), a name the pattern does not have, a
/// name declared twice, and a bit of the pattern left undeclared.
pub fn resolve_bits(pat: &PatternSchema, entries: &Vec<NamedBit>, dims: usize) -> (r: Result<
    Vec<BitPlacement>,
    SchemaError,
>)
    requires
        pat.wf(),
    ensures
        r is Ok <==> entries_ok(*pat, entries@, dims as nat),
        match r {
            Ok(bits) => resolved_as(*pat, entries@, bits@),
            Err(e) => entries_error(*pat, entries@, dims as nat, e),
        },
{
    proof {
        pat.lemma_canonical_order();
    }
    let mut i: usize = 0;
    while i < entries.len()
        invariant
            i <= entries@.len(),
            forall|j: int|
                0 <= j < i && is_local(#[trigger] entries@[j].placement) ==> local_of(
                    entries@[j].placement,
                ).len() == dims,
        decreases entries@.len() - i,
    {
        if let BitPos::Local(loc) = &entries[i].placement.pos {
            if loc.len() != dims {
                assert(is_local(entries@[i as int].placement));
                return Err(SchemaError::DimensionMismatch);
            }
        }
        i = i + 1;
    }
    let n = pat.bits_len();
    let mut slots: Vec<Option<BitPlacement>> = Vec::new();
    let mut p: usize = 0;
    while p < n
        invariant
            entries_dims_ok(entries@, dims as nat),
            p <= n,
            slots@.len() == p,
            forall|q: int| 0 <= q < p ==> (#[trigger] slots@[q]) is None,
        decreases n - p,
    {
        slots.push(None);
        p = p + 1;
    }
    let mut i: usize = 0;
    while i < entries.len()
        invariant
            pat.wf(),
            entries_dims_ok(entries@, dims as nat),
            n == pat.bits_count(),
            slots@.len() == n,
            i <= entries@.len(),
            forall|q: int|
                0 <= q < pat.bits_count() ==> #[trigger] pat.pos_of_name(pat.name_at(q)) == Some(q),
            forall|m: Seq<char>|
                #[trigger] pat.pos_of_name(m) matches Some(q) ==> 0 <= q < pat.bits_count()
                    && pat.name_at(q) == m,
            forall|j: int|
                0 <= j < i ==> (#[trigger] pat.pos_of_name(entries@[j].name@) matches Some(q) && slots@[q] matches Some(
                    x,
                ) && same_placement(x, entries@[j].placement)),
            forall|q: int|
                0 <= q < n && (#[trigger] slots@[q]) is Some ==> exists|j: int|
                    0 <= j < i && pat.pos_of_name(#[trigger] entries@[j].name@) == Some(q),
            forall|j: int, k: int|
                0 <= j < i && 0 <= k < i && j != k ==> #[trigger] entries@[j].name@
                    != #[trigger] entries@[k].name@,
        decreases entries@.len() - i,
    {
        let e = &entries[i];
        match pat.find_name(e.name.as_str()) {
            None => {
                assert(!((pat.pos_of_name(entries@[i as int].name@)) is Some));
                return Err(SchemaError::UnknownBitName);
            },
            Some(q) => {
                if slots[q].is_some() {
                    let ghost j = choose|j: int|
                        0 <= j < i && pat.pos_of_name(#[trigger] entries@[j].name@) == Some(q as int);
                    assert(entries@[j].name@ == entries@[i as int].name@);
                    return Err(SchemaError::DuplicateBitName);
                }
                let ghost old_slots = slots@;
                slots.set(q, Some(copy_placement(&e.placement)));
                assert forall|j: int, k: int|
                    0 <= j < i + 1 && 0 <= k < i + 1 && j != k implies #[trigger] entries@[j].name@
                        != #[trigger] entries@[k].name@ by {
                    if j == i && k < i {
                        assert(pat.pos_of_name(entries@[k].name@) matches Some(qq) && old_slots[qq] is Some);
                    } else if k == i && j < i {
                        assert(pat.pos_of_name(entries@[j].name@) matches Some(qq) && old_slots[qq] is Some);
                    }
                }
                assert forall|qq: int|
                    0 <= qq < n && (#[trigger] slots@[qq]) is Some implies exists|j: int|
                        0 <= j < i + 1 && pat.pos_of_name(#[trigger] entries@[j].name@) == Some(qq) by {
                    if qq == q {
                        assert(pat.pos_of_name(entries@[i as int].name@) == Some(qq));
                    } else {
                        assert(old_slots[qq] is Some);
                    }
                }
            },
        }
        i = i + 1;
    }
    let mut out: Vec<BitPlacement> = Vec::new();
    let mut p: usize = 0;
    while p < n
        invariant
            pat.wf(),
            entries_dims_ok(entries@, dims as nat),
            entries_known(*pat, entries@),
            entries_distinct(entries@),
            n == pat.bits_count(),
            slots@.len() == n,
            p <= n,
            out@.len() == p,
            forall|q: int|
                0 <= q < pat.bits_count() ==> #[trigger] pat.pos_of_name(pat.name_at(q)) == Some(q),
            forall|q: int|
                0 <= q < p ==> slot_copied(slots@[q], #[trigger] out@[q]),
            forall|q: int|
                0 <= q < n && (#[trigger] slots@[q]) is Some ==> exists|j: int|
                    0 <= j < entries@.len() && pat.pos_of_name(#[trigger] entries@[j].name@) == Some(q),
            forall|j: int|
                0 <= j < entries@.len() ==> (#[trigger] pat.pos_of_name(entries@[j].name@) matches Some(q) && slots@[q] matches Some(
                    x,
                ) && same_placement(x, entries@[j].placement)),
        decreases n - p,
    {
        match &slots[p] {
            Some(x) => {
                let c = copy_placement(x);
                out.push(c);
                assert(out@[p as int] == c);
            },
            None => {
                assert forall|j: int| 0 <= j < entries@.len() implies entries@[j].name@ != pat.name_at(
                    p as int,
                ) by {
                    if entries@[j].name@ == pat.name_at(p as int) {
                        assert(pat.pos_of_name(entries@[j].name@) == Some(p as int));
                    }
                }
                assert(!declares(entries@, pat.name_at(p as int)));
                return Err(SchemaError::MissingBitName);
            },
        }
        p = p + 1;
    }
    proof {
        pat.lemma_canonical_order();
    }
    assert forall|q: int| 0 <= q < pat.bits_count() implies declares(entries@, #[trigger] pat.name_at(q)) by {
        assert(slot_copied(slots@[q], out@[q]));
        assert((slots@[q]) is Some);
        let j = choose|j: int|
            0 <= j < entries@.len() && pat.pos_of_name(#[trigger] entries@[j].name@) == Some(q);
        assert(entries@[j].name@ == pat.name_at(q));
    }
    assert(entries_cover(*pat, entries@));
    assert(entries_known(*pat, entries@));
    assert(entries_distinct(entries@));
    assert(entries_dims_ok(entries@, dims as nat));
    Ok(out)
}

/// No mirroring along any of `n` dimensions.
pub open spec fn unflipped(n: nat) -> Seq<bool> {
    Seq::new(n, |_d: int| false)
}

/// The origin of `n` dimensions.
pub open spec fn origin(n: nat) -> Seq<isize> {
    Seq::new(n, |_d: int| 0isize)
}

/// `n` copies of `false`.
fn no_flip(n: usize) -> (r: Vec<bool>)
    ensures
        r@ == unflipped(n as nat),
{
    let mut out: Vec<bool> = Vec::new();
    let mut i: usize = 0;
    while i < n
        invariant
            i <= n,
            out@ =~= Seq::new(i as nat, |_d: int| false),
        decreases n - i,
    {
        out.push(false);
        i = i + 1;
    }
    out
}

/// `f` is a field named `name`, described by `desc`, of kind `kind`, over
/// pattern `pattern`, whose bits are the declarations moved to `base`.
pub open spec fn field_placed(
    f: FieldLayout,
    name: String,
    desc: String,
    kind: FieldKind,
    pattern: int,
    pat: PatternSchema,
    entries: Seq<NamedBit>,
    base: Seq<isize>,
    flip: Seq<bool>,
) -> bool {
    &&& f.name == name
    &&& f.desc == desc
    &&& f.kind == kind
    &&& f.pattern == pattern
    &&& f.bits@.len() == pat.bits_count()
    &&& forall|i: int|
        0 <= i < entries.len() ==> (#[trigger] pat.pos_of_name(entries[i].name@) matches Some(p)
            && placed_as(f.bits@[p], entries[i].placement, base, flip))
}

/// No declared stored position overflows when moved to any of `bases`.
pub open spec fn bases_fit(entries: Seq<NamedBit>, bases: Seq<Vec<isize>>, flip: Seq<bool>) -> bool {
    forall|i: int, j: int|
        0 <= i < bases.len() && 0 <= j < entries.len() && is_local(#[trigger] entries[j].placement)
            ==> !overflows(#[trigger] bases[i]@, flip, local_of(entries[j].placement))
}

/// Every base has `dims` components.
pub open spec fn bases_dims_ok(bases: Seq<Vec<isize>>, dims: nat) -> bool {
    forall|i: int| 0 <= i < bases.len() ==> (#[trigger] bases[i])@.len() == dims
}

impl FragmentLayout {
    /// An empty layout over `dims` dimensions.
    pub fn new(dims: usize) -> (r: FragmentLayout)
        ensures
            r.wf(),
            r.dims == dims,
            r.patterns@.len() == 0,
            r.fields@.len() == 0,
    {
        FragmentLayout { dims, patterns: Vec::new(), fields: Vec::new() }
    }

    /// Adds a pattern to the table; returns its index.
    pub fn add_pattern(&mut self, pat: PatternSchema) -> (r: usize)
        requires
            old(self).wf(),
            pat.wf(),
        ensures
            final(self).wf(),
            final(self).dims == old(self).dims,
            final(self).patterns@ == old(self).patterns@.push(pat),
            final(self).fields@ == old(self).fields@,
            r == old(self).patterns@.len(),
    {
        let r = self.patterns.len();
        self.patterns.push(pat);
        assert forall|k: int| 0 <= k < self.fields@.len() implies #[trigger] self.fields@[k].pattern
            < self.patterns@.len() && self.fields@[k].wf(self.dims as nat, self.pattern_of(k)) by {
            assert(old(self).fields@[k].pattern < old(self).patterns@.len());
            assert(self.pattern_of(k) == old(self).pattern_of(k));
        }
        r
    }

    /// Adds a pattern-valued field whose bits are declared by name.
    pub fn add_field(
        &mut self,
        name: String,
        desc: String,
        pattern: usize,
        entries: &Vec<NamedBit>,
    ) -> (r: Result<(), SchemaError>)
        requires
            old(self).wf(),
            pattern < old(self).patterns@.len(),
        ensures
            final(self).wf(),
            final(self).dims == old(self).dims,
            final(self).patterns@ == old(self).patterns@,
            r is Ok <==> entries_ok(old(self).patterns@[pattern as int], entries@, old(self).dims as nat),
            match r {
                Ok(_) => final(self).fields@.len() == old(self).fields@.len() + 1
                    && final(self).fields@.subrange(0, old(self).fields@.len() as int)
                    == old(self).fields@ && field_placed(
                    final(self).fields@.last(),
                    name,
                    desc,
                    FieldKind::Pattern,
                    pattern as int,
                    old(self).patterns@[pattern as int],
                    entries@,
                    origin(old(self).dims as nat),
                    unflipped(old(self).dims as nat),
                ),
                Err(e) => final(self).fields@ == old(self).fields@ && entries_error(
                    old(self).patterns@[pattern as int],
                    entries@,
                    old(self).dims as nat,
                    e,
                ),
            },
    {
        let pat = &self.patterns[pattern];
        let bits = match resolve_bits(pat, entries, self.dims) {
            Ok(b) => b,
            Err(e) => {
                return Err(e);
            },
        };
        let ghost zero = origin(self.dims as nat);
        let ghost flat = unflipped(self.dims as nat);
        assert forall|i: int| 0 <= i < entries@.len() implies (#[trigger] pat.pos_of_name(
            entries@[i].name@,
        ) matches Some(p) && placed_as(bits@[p], entries@[i].placement, zero, flat)) by {
            assert(pat.pos_of_name(entries@[i].name@) matches Some(p) && same_placement(
                bits@[p],
                entries@[i].placement,
            ));
        }
        proof {
            pat.lemma_canonical_order();
        }
        assert forall|p: int|
            0 <= p < bits@.len() && is_local(#[trigger] bits@[p]) implies local_of(bits@[p]).len()
            == self.dims by {
            assert(declares(entries@, pat.name_at(p)));
            let i = choose|i: int| 0 <= i < entries@.len() && #[trigger] entries@[i].name@ == pat.name_at(p);
            assert(pat.pos_of_name(entries@[i].name@) matches Some(q) && same_placement(
                bits@[q],
                entries@[i].placement,
            ));
            assert(is_local(entries@[i].placement));
        }
        let f = FieldLayout { name, desc, kind: FieldKind::Pattern, pattern, bits };
        self.fields.push(f);
        assert(self.fields@.subrange(0, old(self).fields@.len() as int) =~= old(self).fields@);
        assert forall|k: int| 0 <= k < self.fields@.len() implies #[trigger] self.fields@[k].pattern
            < self.patterns@.len() && self.fields@[k].wf(self.dims as nat, self.pattern_of(k)) by {
            if k < old(self).fields@.len() {
                assert(old(self).fields@[k].pattern < old(self).patterns@.len());
            }
        }
        Ok(())
    }
}

/// `placed_as` depends on a placement only through what it says.
proof fn lemma_placed_as_same(x: BitPlacement, a: BitPlacement, b: BitPlacement, base: Seq<isize>, flip: Seq<bool>)
    requires
        placed_as(x, a, base, flip),
        same_placement(a, b),
    ensures
        placed_as(x, b, base, flip),
{
}

/// A placement that was moved without overflow did not overflow.
proof fn lemma_placed_fits(x: BitPlacement, b: BitPlacement, base: Seq<isize>, flip: Seq<bool>)
    requires
        placed_as(x, b, base, flip),
    ensures
        !overflows(base, flip, local_of(b)),
{
    if overflows(base, flip, local_of(b)) {
        let d = choose|d: int|
            0 <= d < local_of(b).len() && !(isize::MIN <= #[trigger] moved(base, flip, local_of(b))[d]
                <= isize::MAX);
        assert(local_of(x)[d] as int == moved(base, flip, local_of(b))[d]);
    }
}

impl FragmentLayout {
    /// Adds an array of a pattern-valued field whose bits are declared by
    /// name: element `i` is the field moved to `elem_offsets[i]`, without
    /// mirroring. Elements are added in index order.
    pub fn add_pattern_array(
        &mut self,
        name: String,
        desc: String,
        pattern: usize,
        entries: &Vec<NamedBit>,
        elem_offsets: &Vec<Vec<isize>>,
    ) -> (r: Result<(), SchemaError>)
        requires
            old(self).wf(),
            pattern < old(self).patterns@.len(),
        ensures
            final(self).wf(),
            final(self).dims == old(self).dims,
            final(self).patterns@ == old(self).patterns@,
            r is Ok <==> entries_ok(old(self).patterns@[pattern as int], entries@, old(self).dims as nat)
                && bases_dims_ok(elem_offsets@, old(self).dims as nat) && bases_fit(
                entries@,
                elem_offsets@,
                unflipped(old(self).dims as nat),
            ),
            match r {
                Ok(_) => final(self).fields@.len() == old(self).fields@.len() + elem_offsets@.len()
                    && final(self).fields@.subrange(0, old(self).fields@.len() as int)
                    == old(self).fields@ && forall|i: int|
                    0 <= i < elem_offsets@.len() ==> #[trigger] field_placed(
                        final(self).fields@[old(self).fields@.len() + i],
                        name,
                        desc,
                        FieldKind::PatternArray,
                        pattern as int,
                        old(self).patterns@[pattern as int],
                        entries@,
                        elem_offsets@[i]@,
                        unflipped(old(self).dims as nat),
                    ),
                Err(e) => final(self).fields@ == old(self).fields@ && (entries_error(
                    old(self).patterns@[pattern as int],
                    entries@,
                    old(self).dims as nat,
                    e,
                ) || e == SchemaError::DimensionMismatch && !bases_dims_ok(
                    elem_offsets@,
                    old(self).dims as nat,
                ) || e == SchemaError::CoordinateOverflow && !bases_fit(
                    entries@,
                    elem_offsets@,
                    unflipped(old(self).dims as nat),
                )),
            },
    {
        let pat = &self.patterns[pattern];
        let bits = match resolve_bits(pat, entries, self.dims) {
            Ok(b) => b,
            Err(e) => {
                return Err(e);
            },
        };
        proof {
            pat.lemma_canonical_order();
        }
        let flat = no_flip(self.dims);
        let dims = self.dims;
        let ghost flat_s = unflipped(dims as nat);
        assert forall|p: int|
            0 <= p < bits@.len() && is_local(#[trigger] bits@[p]) implies local_of(bits@[p]).len()
            == dims by {
            assert(declares(entries@, pat.name_at(p)));
            let i = choose|i: int| 0 <= i < entries@.len() && #[trigger] entries@[i].name@ == pat.name_at(p);
            assert(pat.pos_of_name(entries@[i].name@) matches Some(q) && same_placement(
                bits@[q],
                entries@[i].placement,
            ));
        }
        let mut new_fields: Vec<FieldLayout> = Vec::new();
        let mut i: usize = 0;
        while i < elem_offsets.len()
            invariant
                *self == *old(self),
                self.wf(),
                pattern < self.patterns@.len(),
                *pat == self.patterns@[pattern as int],
                pat.wf(),
                dims == self.dims,
                flat@ == flat_s,
                flat_s == unflipped(dims as nat),
                resolved_as(*pat, entries@, bits@),
                entries_ok(*pat, entries@, dims as nat),
                forall|q: int|
                    0 <= q < pat.bits_count() ==> #[trigger] pat.pos_of_name(pat.name_at(q)) == Some(q),
                forall|m: Seq<char>|
                    #[trigger] pat.pos_of_name(m) matches Some(q) ==> 0 <= q < pat.bits_count()
                        && pat.name_at(q) == m,
                forall|p: int|
                    0 <= p < bits@.len() && is_local(#[trigger] bits@[p]) ==> local_of(bits@[p]).len()
                        == dims,
                i <= elem_offsets@.len(),
                new_fields@.len() == i,
                forall|a: int| 0 <= a < i ==> (#[trigger] elem_offsets@[a])@.len() == dims,
                forall|a: int, j: int|
                    0 <= a < i && 0 <= j < entries@.len() && is_local(#[trigger] entries@[j].placement)
                        ==> !overflows(#[trigger] elem_offsets@[a]@, flat_s, local_of(entries@[j].placement)),
                forall|j: int|
                    0 <= j < i ==> #[trigger] field_placed(
                        new_fields@[j],
                        name,
                        desc,
                        FieldKind::PatternArray,
                        pattern as int,
                        *pat,
                        entries@,
                        elem_offsets@[j]@,
                        flat_s,
                    ),
                forall|j: int|
                    0 <= j < i ==> (#[trigger] new_fields@[j]).wf(dims as nat, *pat) && new_fields@[j].pattern
                        == pattern,
            decreases elem_offsets@.len() - i,
        {
            let base = &elem_offsets[i];
            if base.len() != dims {
                assert(!bases_dims_ok(elem_offsets@, dims as nat)) by {
                    assert(elem_offsets@[i as int]@.len() != dims);
                }
                return Err(SchemaError::DimensionMismatch);
            }
            match place_bits(&bits, base.as_slice(), flat.as_slice()) {
                Ok(x) => {
                    assert forall|e: int| 0 <= e < entries@.len() implies (#[trigger] pat.pos_of_name(
                        entries@[e].name@,
                    ) matches Some(p) && placed_as(x@[p], entries@[e].placement, base@, flat_s)) by {
                        let p = pat.pos_of_name(entries@[e].name@)->Some_0;
                        assert(same_placement(bits@[p], entries@[e].placement));
                        assert(placed_as(x@[p], bits@[p], base@, flat_s));
                        lemma_placed_as_same(x@[p], bits@[p], entries@[e].placement, base@, flat_s);
                    }
                    assert forall|j: int|
                        0 <= j < entries@.len() && is_local(
                            #[trigger] entries@[j].placement,
                        ) implies !overflows(base@, flat_s, local_of(entries@[j].placement)) by {
                        let p = pat.pos_of_name(entries@[j].name@)->Some_0;
                        assert(placed_as(x@[p], entries@[j].placement, base@, flat_s));
                        lemma_placed_fits(x@[p], entries@[j].placement, base@, flat_s);
                    }
                    assert forall|p: int|
                        0 <= p < x@.len() && is_local(#[trigger] x@[p]) implies local_of(x@[p]).len()
                        == dims by {
                        assert(placed_as(x@[p], bits@[p], base@, flat_s));
                    }
                    let f = FieldLayout {
                        name: name.clone(),
                        desc: desc.clone(),
                        kind: FieldKind::PatternArray,
                        pattern,
                        bits: x,
                    };
                    new_fields.push(f);
                },
                Err(e) => {
                    assert(!bases_fit(entries@, elem_offsets@, flat_s)) by {
                        let p = choose|p: int|
                            0 <= p < bits@.len() && is_local(bits@[p]) && #[trigger] overflows(
                                base@,
                                flat_s,
                                local_of(bits@[p]),
                            );
                        assert(declares(entries@, pat.name_at(p)));
                        let j = choose|j: int|
                            0 <= j < entries@.len() && #[trigger] entries@[j].name@ == pat.name_at(p);
                        assert(pat.pos_of_name(entries@[j].name@) == Some(p));
                        assert(same_placement(bits@[p], entries@[j].placement));
                        assert(is_local(entries@[j].placement));
                        assert(overflows(elem_offsets@[i as int]@, flat_s, local_of(entries@[j].placement)));
                    }
                    return Err(e);
                },
            }
            i = i + 1;
        }
        let ghost old_fields = self.fields@;
        let ghost added = new_fields@;
        self.fields.append(&mut new_fields);
        assert(self.fields@ == old_fields + added);
        assert(self.fields@.subrange(0, old_fields.len() as int) =~= old_fields);
        assert forall|k: int| 0 <= k < self.fields@.len() implies #[trigger] self.fields@[k].pattern
            < self.patterns@.len() && self.fields@[k].wf(self.dims as nat, self.pattern_of(k)) by {
            if k < old_fields.len() {
                assert(old(self).fields@[k].pattern < old(self).patterns@.len());
            } else {
                assert(self.fields@[k] == added[k - old_fields.len()]);
            }
        }
        assert forall|j: int| 0 <= j < elem_offsets@.len() implies #[trigger] field_placed(
            self.fields@[old_fields.len() + j],
            name,
            desc,
            FieldKind::PatternArray,
            pattern as int,
            *pat,
            entries@,
            elem_offsets@[j]@,
            flat_s,
        ) by {
            assert(self.fields@[old_fields.len() + j] == added[j]);
        }
        Ok(())
    }
}

/// `f` is field `g` of a nested layout, moved to `base`, mirrored where
/// `flip` says, with its pattern index shifted by `shift`.
pub open spec fn nested_placed(
    f: FieldLayout,
    g: FieldLayout,
    shift: int,
    base: Seq<isize>,
    flip: Seq<bool>,
    kind: FieldKind,
) -> bool {
    &&& f.name == g.name
    &&& f.desc == g.desc
    &&& f.kind == kind
    &&& f.pattern == g.pattern + shift
    &&& f.bits@.len() == g.bits@.len()
    &&& forall|p: int| 0 <= p < g.bits@.len() ==> #[trigger] placed_as(f.bits@[p], g.bits@[p], base, flip)
}

/// Index of field `k` of copy `i` among the copies of a nested layout of
/// `n` fields.
pub open spec fn slot(n: int, i: int, k: int) -> int {
    i * n + k
}

/// No stored position of the nested layout overflows when moved to any of
/// `bases`.
pub open spec fn inner_fits(inner: FragmentLayout, bases: Seq<Vec<isize>>, flip: Seq<bool>) -> bool {
    forall|i: int, k: int, p: int|
        0 <= i < bases.len() && 0 <= k < inner.fields@.len() && 0 <= p < inner.fields@[k].bits@.len()
            && is_local(#[trigger] inner.fields@[k].bits@[p]) ==> !overflows(
            #[trigger] bases[i]@,
            flip,
            local_of(inner.fields@[k].bits@[p]),
        )
}

proof fn lemma_slot_below(n: int, i: int, k: int, i2: int, k2: int)
    requires
        0 <= i2,
        0 <= k2 < n,
        0 <= k,
        i2 < i || (i2 == i && k2 < k),
    ensures
        0 <= slot(n, i2, k2) < slot(n, i, k),
{
    if i2 < i {
        assert(i2 * n + k2 < i * n + k) by (nonlinear_arith)
            requires
                0 <= i2 < i,
                0 <= k2 < n,
                0 <= k,
        ;
    }
    assert(0 <= i2 * n) by (nonlinear_arith)
        requires
            0 <= i2,
            0 <= n,
    ;
}

impl FragmentLayout {
    /// Adds a nested layout placed at `base`, mirrored where `flip` says:
    /// its patterns join the table and each of its fields is added, moved.
    pub fn add_fragment(&mut self, inner: FragmentLayout, base: &Vec<isize>, flip: &Vec<bool>) -> (r:
        Result<(), SchemaError>)
        requires
            old(self).wf(),
            inner.wf(),
            inner.dims == old(self).dims,
            old(self).patterns@.len() + inner.patterns@.len() <= usize::MAX,
        ensures
            final(self).wf(),
            final(self).dims == old(self).dims,
            r is Ok <==> flip@.len() == old(self).dims && base@.len() == old(self).dims && inner_fits(
                inner,
                seq![*base],
                flip@,
            ),
            match r {
                Ok(_) => final(self).patterns@ == old(self).patterns@ + inner.patterns@
                    && final(self).fields@.len() == old(self).fields@.len() + inner.fields@.len()
                    && final(self).fields@.subrange(0, old(self).fields@.len() as int)
                    == old(self).fields@ && forall|k: int|
                    0 <= k < inner.fields@.len() ==> #[trigger] nested_placed(
                        final(self).fields@[old(self).fields@.len() + k],
                        inner.fields@[k],
                        old(self).patterns@.len() as int,
                        base@,
                        flip@,
                        FieldKind::Fragment,
                    ),
                Err(e) => *final(self) == *old(self) && (e == SchemaError::DimensionMismatch && (flip@.len()
                    != old(self).dims || base@.len() != old(self).dims) || e
                    == SchemaError::CoordinateOverflow && !inner_fits(inner, seq![*base], flip@)),
            },
    {
        let ghost n = inner.fields@.len() as int;
        let mut bases: Vec<Vec<isize>> = Vec::new();
        bases.push(copy_coord(base));
        assert(bases@[0]@ == base@);
        let ghost inner_v = inner;
        let r = self.add_placed_fragments(inner, &bases, flip, FieldKind::Fragment);
        proof {
            assert(inner_fits(inner_v, bases@, flip@) == inner_fits(inner_v, seq![*base], flip@)) by {
                if inner_fits(inner_v, bases@, flip@) {
                    assert forall|i: int, k: int, p: int|
                        0 <= i < 1 && 0 <= k < inner_v.fields@.len() && 0 <= p
                            < inner_v.fields@[k].bits@.len() && is_local(
                            #[trigger] inner_v.fields@[k].bits@[p],
                        ) implies !overflows(
                        #[trigger] seq![*base][i]@,
                        flip@,
                        local_of(inner_v.fields@[k].bits@[p]),
                    ) by {
                        assert(bases@[i]@ == seq![*base][i]@);
                    }
                }
                if inner_fits(inner_v, seq![*base], flip@) {
                    assert forall|i: int, k: int, p: int|
                        0 <= i < bases@.len() && 0 <= k < inner_v.fields@.len() && 0 <= p
                            < inner_v.fields@[k].bits@.len() && is_local(
                            #[trigger] inner_v.fields@[k].bits@[p],
                        ) implies !overflows(
                        #[trigger] bases@[i]@,
                        flip@,
                        local_of(inner_v.fields@[k].bits@[p]),
                    ) by {
                        assert(bases@[i]@ == seq![*base][i]@);
                    }
                }
            }
            if r is Ok {
                assert forall|k: int| 0 <= k < n implies #[trigger] nested_placed(
                    self.fields@[old(self).fields@.len() + k],
                    inner_v.fields@[k],
                    old(self).patterns@.len() as int,
                    base@,
                    flip@,
                    FieldKind::Fragment,
                ) by {
                    assert(slot(n, 0, k) == k);
                    assert(nested_placed(
                        self.fields@[old(self).fields@.len() + slot(n, 0, k)],
                        inner_v.fields@[k],
                        old(self).patterns@.len() as int,
                        bases@[0]@,
                        flip@,
                        FieldKind::Fragment,
                    ));
                }
            }
            if r is Err {
                if !(bases_dims_ok(bases@, old(self).dims as nat)) {
                    assert(bases@[0]@.len() != old(self).dims);
                }
            }
        }
        r
    }

    /// Adds an array of a nested layout: copy `i` is placed at `bases[i]`,
    /// mirrored where `flip` says. The nested patterns join the table once;
    /// copies are added in index order, each with the nested fields in order.
    pub fn add_fragment_array(
        &mut self,
        inner: FragmentLayout,
        bases: &Vec<Vec<isize>>,
        flip: &Vec<bool>,
    ) -> (r: Result<(), SchemaError>)
        requires
            old(self).wf(),
            inner.wf(),
            inner.dims == old(self).dims,
            old(self).patterns@.len() + inner.patterns@.len() <= usize::MAX,
        ensures
            final(self).wf(),
            final(self).dims == old(self).dims,
            r is Ok <==> flip@.len() == old(self).dims && bases_dims_ok(bases@, old(self).dims as nat)
                && inner_fits(inner, bases@, flip@),
            match r {
                Ok(_) => final(self).patterns@ == old(self).patterns@ + inner.patterns@
                    && final(self).fields@.len() == old(self).fields@.len() + bases@.len()
                    * inner.fields@.len() && final(self).fields@.subrange(
                    0,
                    old(self).fields@.len() as int,
                ) == old(self).fields@ && forall|i: int, k: int|
                    0 <= i < bases@.len() && 0 <= k < inner.fields@.len() ==> #[trigger] nested_placed(
                        final(self).fields@[old(self).fields@.len() + slot(
                            inner.fields@.len() as int,
                            i,
                            k,
                        )],
                        inner.fields@[k],
                        old(self).patterns@.len() as int,
                        bases@[i]@,
                        flip@,
                        FieldKind::FragmentArray,
                    ),
                Err(e) => *final(self) == *old(self) && (e == SchemaError::DimensionMismatch && (flip@.len()
                    != old(self).dims || !bases_dims_ok(bases@, old(self).dims as nat)) || e
                    == SchemaError::CoordinateOverflow && !inner_fits(inner, bases@, flip@)),
            },
    {
        self.add_placed_fragments(inner, bases, flip, FieldKind::FragmentArray)
    }

    fn add_placed_fragments(
        &mut self,
        inner: FragmentLayout,
        bases: &Vec<Vec<isize>>,
        flip: &Vec<bool>,
        kind: FieldKind,
    ) -> (r: Result<(), SchemaError>)
        requires
            old(self).wf(),
            inner.wf(),
            inner.dims == old(self).dims,
            old(self).patterns@.len() + inner.patterns@.len() <= usize::MAX,
        ensures
            final(self).wf(),
            final(self).dims == old(self).dims,
            r is Ok <==> flip@.len() == old(self).dims && bases_dims_ok(bases@, old(self).dims as nat)
                && inner_fits(inner, bases@, flip@),
            match r {
                Ok(_) => final(self).patterns@ == old(self).patterns@ + inner.patterns@
                    && final(self).fields@.len() == old(self).fields@.len() + bases@.len()
                    * inner.fields@.len() && final(self).fields@.subrange(
                    0,
                    old(self).fields@.len() as int,
                ) == old(self).fields@ && forall|i: int, k: int|
                    0 <= i < bases@.len() && 0 <= k < inner.fields@.len() ==> #[trigger] nested_placed(
                        final(self).fields@[old(self).fields@.len() + slot(
                            inner.fields@.len() as int,
                            i,
                            k,
                        )],
                        inner.fields@[k],
                        old(self).patterns@.len() as int,
                        bases@[i]@,
                        flip@,
                        kind,
                    ),
                Err(e) => *final(self) == *old(self) && (e == SchemaError::DimensionMismatch && (flip@.len()
                    != old(self).dims || !bases_dims_ok(bases@, old(self).dims as nat)) || e
                    == SchemaError::CoordinateOverflow && !inner_fits(inner, bases@, flip@)),
            },
    {
        let dims = self.dims;
        if flip.len() != dims {
            return Err(SchemaError::DimensionMismatch);
        }
        let mut i: usize = 0;
        while i < bases.len()
            invariant
                *self == *old(self),
                self.wf(),
                dims == self.dims,
                i <= bases@.len(),
                forall|a: int| 0 <= a < i ==> (#[trigger] bases@[a])@.len() == dims,
            decreases bases@.len() - i,
        {
            if bases[i].len() != dims {
                assert(!bases_dims_ok(bases@, dims as nat)) by {
                    assert(bases@[i as int]@.len() != dims);
                }
                return Err(SchemaError::DimensionMismatch);
            }
            i = i + 1;
        }
        let shift = self.patterns.len();
        let n = inner.fields.len();
        let ghost m = bases@.len();
        let mut new_fields: Vec<FieldLayout> = Vec::new();
        let mut i: usize = 0;
        while i < bases.len()
            invariant
                *self == *old(self),
                self.wf(),
                inner.wf(),
                inner.dims == dims,
                dims == self.dims,
                flip@.len() == dims,
                shift == self.patterns@.len(),
                shift + inner.patterns@.len() <= usize::MAX,
                n == inner.fields@.len(),
                m == bases@.len(),
                forall|a: int| 0 <= a < m ==> (#[trigger] bases@[a])@.len() == dims,
                i <= m,
                new_fields@.len() == slot(n as int, i as int, 0),
                forall|a: int, k: int|
                    0 <= a < i && 0 <= k < n ==> #[trigger] nested_placed(
                        new_fields@[slot(n as int, a, k)],
                        inner.fields@[k],
                        shift as int,
                        bases@[a]@,
                        flip@,
                        kind,
                    ),
                forall|a: int, k: int, p: int|
                    0 <= a < i && 0 <= k < inner.fields@.len() && 0 <= p < inner.fields@[k].bits@.len()
                        && is_local(#[trigger] inner.fields@[k].bits@[p]) ==> !overflows(
                        #[trigger] bases@[a]@,
                        flip@,
                        local_of(inner.fields@[k].bits@[p]),
                    ),
                forall|j: int|
                    0 <= j < new_fields@.len() ==> shift <= (#[trigger] new_fields@[j]).pattern < shift
                        + inner.patterns@.len() && new_fields@[j].wf(
                        dims as nat,
                        inner.patterns@[new_fields@[j].pattern - shift],
                    ),
            decreases m - i,
        {
            let base = &bases[i];
            let mut k: usize = 0;
            while k < n
                invariant
                    *self == *old(self),
                    self.wf(),
                    inner.wf(),
                    inner.dims == dims,
                    dims == self.dims,
                    flip@.len() == dims,
                    shift == self.patterns@.len(),
                    shift + inner.patterns@.len() <= usize::MAX,
                    n == inner.fields@.len(),
                    m == bases@.len(),
                    forall|a: int| 0 <= a < m ==> (#[trigger] bases@[a])@.len() == dims,
                    i < m,
                    base@ == bases@[i as int]@,
                    k <= n,
                    new_fields@.len() == slot(n as int, i as int, k as int),
                    forall|a: int, kk: int|
                        0 <= a < i && 0 <= kk < n ==> #[trigger] nested_placed(
                            new_fields@[slot(n as int, a, kk)],
                            inner.fields@[kk],
                            shift as int,
                            bases@[a]@,
                            flip@,
                            kind,
                        ),
                    forall|kk: int|
                        0 <= kk < k ==> #[trigger] nested_placed(
                            new_fields@[slot(n as int, i as int, kk)],
                            inner.fields@[kk],
                            shift as int,
                            base@,
                            flip@,
                            kind,
                        ),
                    forall|a: int, kk: int, p: int|
                        0 <= a < i && 0 <= kk < inner.fields@.len() && 0 <= p
                            < inner.fields@[kk].bits@.len() && is_local(
                            #[trigger] inner.fields@[kk].bits@[p],
                        ) ==> !overflows(
                            #[trigger] bases@[a]@,
                            flip@,
                            local_of(inner.fields@[kk].bits@[p]),
                        ),
                    forall|kk: int, p: int|
                        0 <= kk < k && 0 <= p < inner.fields@[kk].bits@.len() && is_local(
                            #[trigger] inner.fields@[kk].bits@[p],
                        ) ==> !overflows(base@, flip@, local_of(inner.fields@[kk].bits@[p])),
                    forall|j: int|
                        0 <= j < new_fields@.len() ==> shift <= (#[trigger] new_fields@[j]).pattern
                            < shift + inner.patterns@.len() && new_fields@[j].wf(
                            dims as nat,
                            inner.patterns@[new_fields@[j].pattern - shift],
                        ),
                decreases n - k,
            {
                let g = &inner.fields[k];
                assert(g.wf(dims as nat, inner.pattern_of(k as int)));
                match place_bits(&g.bits, base.as_slice(), flip.as_slice()) {
                    Ok(x) => {
                        assert forall|p: int|
                            0 <= p < g.bits@.len() && is_local(#[trigger] g.bits@[p]) implies !overflows(
                            base@,
                            flip@,
                            local_of(g.bits@[p]),
                        ) by {
                            lemma_placed_fits(x@[p], g.bits@[p], base@, flip@);
                        }
                        assert forall|p: int|
                            0 <= p < x@.len() && is_local(#[trigger] x@[p]) implies local_of(x@[p]).len()
                            == dims by {
                            assert(placed_as(x@[p], g.bits@[p], base@, flip@));
                        }
                        let f = FieldLayout {
                            name: g.name.clone(),
                            desc: g.desc.clone(),
                            kind,
                            pattern: g.pattern + shift,
                            bits: x,
                        };
                        assert(f.wf(dims as nat, inner.patterns@[f.pattern - shift]));
                        let ghost before = new_fields@;
                        new_fields.push(f);
                        proof {
                            assert forall|a: int, kk: int|
                                0 <= a < i && 0 <= kk < n implies #[trigger] nested_placed(
                                new_fields@[slot(n as int, a, kk)],
                                inner.fields@[kk],
                                shift as int,
                                bases@[a]@,
                                flip@,
                                kind,
                            ) by {
                                lemma_slot_below(n as int, i as int, k as int, a, kk);
                                assert(new_fields@[slot(n as int, a, kk)] == before[slot(n as int, a, kk)]);
                            }
                            assert forall|kk: int| 0 <= kk < k + 1 implies #[trigger] nested_placed(
                                new_fields@[slot(n as int, i as int, kk)],
                                inner.fields@[kk],
                                shift as int,
                                base@,
                                flip@,
                                kind,
                            ) by {
                                if kk < k {
                                    lemma_slot_below(n as int, i as int, k as int, i as int, kk);
                                    assert(new_fields@[slot(n as int, i as int, kk)] == before[slot(
                                        n as int,
                                        i as int,
                                        kk,
                                    )]);
                                }
                            }
                            assert(new_fields@.len() == slot(n as int, i as int, k as int + 1));
                        }
                    },
                    Err(e) => {
                        assert(!inner_fits(inner, bases@, flip@)) by {
                            let p = choose|p: int|
                                0 <= p < g.bits@.len() && is_local(g.bits@[p]) && #[trigger] overflows(
                                    base@,
                                    flip@,
                                    local_of(g.bits@[p]),
                                );
                            assert(is_local(inner.fields@[k as int].bits@[p]));
                            assert(overflows(
                                bases@[i as int]@,
                                flip@,
                                local_of(inner.fields@[k as int].bits@[p]),
                            ));
                        }
                        return Err(e);
                    },
                }
                k = k + 1;
            }
            proof {
                assert(slot(n as int, i as int, n as int) == slot(n as int, i as int + 1, 0))
                    by (nonlinear_arith);
                assert forall|a: int, kk: int|
                    0 <= a < i + 1 && 0 <= kk < n implies #[trigger] nested_placed(
                    new_fields@[slot(n as int, a, kk)],
                    inner.fields@[kk],
                    shift as int,
                    bases@[a]@,
                    flip@,
                    kind,
                ) by {
                    if a == i {
                        assert(bases@[a]@ == base@);
                    }
                }
            }
            i = i + 1;
        }
        let ghost old_fields = self.fields@;
        let ghost added = new_fields@;
        let ghost inner_pats = inner.patterns@;
        let ghost inner_v = inner;
        let mut inner = inner;
        self.patterns.append(&mut inner.patterns);
        self.fields.append(&mut new_fields);
        proof {
            assert(self.fields@ == old_fields + added);
            assert(self.fields@.subrange(0, old_fields.len() as int) =~= old_fields);
            assert(added.len() == m * n) by (nonlinear_arith)
                requires
                    added.len() == slot(n as int, m as int, 0),
            ;
            assert forall|q: int| 0 <= q < self.patterns@.len() implies (#[trigger] self.patterns@[q]).wf() by {
                if q >= shift {
                    assert(self.patterns@[q] == inner_pats[q - shift]);
                    assert(inner_v.patterns@[q - shift].wf());
                } else {
                    assert(old(self).patterns@[q].wf());
                }
            }
            assert forall|k: int| 0 <= k < self.fields@.len() implies #[trigger] self.fields@[k].pattern
                < self.patterns@.len() && self.fields@[k].wf(self.dims as nat, self.pattern_of(k)) by {
                if k < old_fields.len() {
                    assert(old(self).fields@[k].pattern < old(self).patterns@.len());
                    assert(old(self).fields@[k].wf(self.dims as nat, old(self).pattern_of(k)));
                } else {
                    let j = k - old_fields.len();
                    assert(self.fields@[k] == added[j]);
                    assert(shift <= added[j].pattern < shift + inner_pats.len());
                    assert(self.patterns@[added[j].pattern as int] == inner_pats[added[j].pattern - shift]);
                }
            }
            assert forall|a: int, kk: int| 0 <= a < m && 0 <= kk < n implies #[trigger] nested_placed(
                self.fields@[old_fields.len() + slot(n as int, a, kk)],
                inner_v.fields@[kk],
                shift as int,
                bases@[a]@,
                flip@,
                kind,
            ) by {
                lemma_slot_below(n as int, m as int, 0, a, kk);
                assert(self.fields@[old_fields.len() + slot(n as int, a, kk)] == added[slot(n as int, a, kk)]);
            }
        }
        Ok(())
    }
}

} // verus!
