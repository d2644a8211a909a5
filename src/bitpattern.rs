//! Types whose values are the variants of a pattern codec.

use vstd::prelude::*;
use vstd::string::*;
use crate::docs::docs_table;
use crate::error::CodecError;
use crate::pattern::{encode_bits, pattern_matches, PatBit, PatternSchema, PatternVariant};

verus! {

/// A value type with a closed set of variants, each stored as a fixed-width
/// bit string. Implementations describe their table through the spec
/// functions and build it with `schema`; encoding, decoding and the
/// documentation table then follow from the table.
pub trait BitPattern: Sized {
    /// Extra data an encode call takes; unused by table-driven codecs.
    type EncodeExtraType;

    /// Extra data a decode call takes; unused by table-driven codecs.
    type DecodeExtraType;

    /// Number of canonical bits.
    spec fn bits_count() -> nat;

    /// Number of variants.
    spec fn variant_count() -> nat;

    /// Bit string of variant `v`.
    spec fn variant_bits(v: int) -> Seq<PatBit>;

    /// Name of canonical position `p`.
    spec fn bit_name(p: int) -> Seq<char>;

    /// Display name of variant `v`.
    spec fn variant_name(v: int) -> Seq<char>;

    /// Description of variant `v`.
    spec fn variant_desc(v: int) -> Seq<char>;

    /// Index, in declaration order, of the variant this value is.
    spec fn variant_of(&self) -> int;

    /// The table of this pattern.
    fn schema() -> (r: PatternSchema)
        ensures
            r.wf(),
            r.bits_count() == Self::bits_count(),
            r.variant_count() == Self::variant_count(),
            forall|p: int| 0 <= p < r.bits_count() ==> #[trigger] r.name_at(p) == Self::bit_name(p),
            forall|v: int|
                0 <= v < r.variant_count() ==> #[trigger] r.bits_of(v) == Self::variant_bits(v)
                    && r.variants@[v].name@ == Self::variant_name(v) && r.variants@[v].desc@
                    == Self::variant_desc(v),
    ;

    /// Index of this value's variant.
    fn variant_index(&self) -> (r: usize)
        ensures
            r == self.variant_of(),
            r < Self::variant_count(),
    ;

    /// The value of variant `v`.
    fn from_variant_index(v: usize) -> (r: Self)
        requires
            v < Self::variant_count(),
        ensures
            r.variant_of() == v,
    ;

    /// Values of the same variant are equal.
    proof fn lemma_variant_of_injective(a: Self, b: Self)
        requires
            a.variant_of() == b.variant_of(),
        ensures
            a == b,
    ;

    /// Canonical bit vector of this value; wildcards are written as `false`.
    fn encode(&self, extra_data: Self::EncodeExtraType) -> (r: Vec<bool>)
        ensures
            r@ == encode_bits(Self::variant_bits(self.variant_of())),
    {
        let s = Self::schema();
        s.encode(self.variant_index())
    }

    /// Decodes `bits`, at least one per canonical bit: the first variant in
    /// declaration order whose bit string matches; bits past the canonical
    /// ones are not looked at. `NoMatchingVariant` where none matches.
    fn decode(bits: &[bool], extra_data: Self::DecodeExtraType) -> (r: Result<Self, CodecError>)
        requires
            bits@.len() >= Self::bits_count(),
        ensures
            match r {
                Ok(x) => {
                    &&& 0 <= x.variant_of() < Self::variant_count()
                    &&& pattern_matches(Self::variant_bits(x.variant_of()), bits@)
                    &&& forall|j: int|
                        0 <= j < x.variant_of() ==> !pattern_matches(#[trigger] Self::variant_bits(j), bits@)
                },
                Err(e) => e == CodecError::NoMatchingVariant && forall|v: int|
                    0 <= v < Self::variant_count() ==> !pattern_matches(
                        #[trigger] Self::variant_bits(v),
                        bits@,
                    ),
            },
    {
        let s = Self::schema();
        match s.decode(bits) {
            Ok(v) => {
                proof {
                    s.lemma_first_match_exists(bits@, v as int);
                    assert forall|j: int| 0 <= j < v implies !pattern_matches(
                        #[trigger] Self::variant_bits(j),
                        bits@,
                    ) by {
                        assert(s.bits_of(j) == Self::variant_bits(j));
                    }
                    assert(s.bits_of(v as int) == Self::variant_bits(v as int));
                }
                Ok(Self::from_variant_index(v))
            },
            Err(e) => {
                proof {
                    assert forall|v: int| 0 <= v < Self::variant_count() implies !pattern_matches(
                        #[trigger] Self::variant_bits(v),
                        bits@,
                    ) by {
                        assert(s.bits_of(v) == Self::variant_bits(v));
                        if pattern_matches(s.bits_of(v), bits@) {
                            s.lemma_first_match_exists(bits@, v);
                        }
                    }
                }
                Err(e)
            },
        }
    }

    /// The documentation table of this pattern.
    fn docs_as_ascii_table() -> (r: String)
        ensures
            forall|s: PatternSchema|
                {
                    &&& s.bits_count() == Self::bits_count()
                    &&& s.variant_count() == Self::variant_count()
                    &&& forall|p: int| 0 <= p < s.bits_count() ==> #[trigger] s.name_at(p) == Self::bit_name(p)
                    &&& forall|v: int|
                        0 <= v < s.variant_count() ==> #[trigger] s.bits_of(v) == Self::variant_bits(v)
                            && s.variants@[v].name@ == Self::variant_name(v) && s.variants@[v].desc@
                            == Self::variant_desc(v)
                } ==> r@ == #[trigger] docs_table(s),
    {
        let s0 = Self::schema();
        let r = s0.docs_as_ascii_table();
        proof {
            assert forall|s: PatternSchema|
                {
                    &&& s.bits_count() == Self::bits_count()
                    &&& s.variant_count() == Self::variant_count()
                    &&& forall|p: int| 0 <= p < s.bits_count() ==> #[trigger] s.name_at(p) == Self::bit_name(p)
                    &&& forall|v: int|
                        0 <= v < s.variant_count() ==> #[trigger] s.bits_of(v) == Self::variant_bits(v)
                            && s.variants@[v].name@ == Self::variant_name(v) && s.variants@[v].desc@
                            == Self::variant_desc(v)
                } implies r@ == #[trigger] docs_table(s) by {
                crate::docs::lemma_docs_table_congruent(s0, s);
            }
        }
        r
    }
}

/// `s` is a well-formed table of the pattern `T` describes.
pub open spec fn describes<T: BitPattern>(s: PatternSchema) -> bool {
    &&& s.wf()
    &&& s.bits_count() == T::bits_count()
    &&& s.variant_count() == T::variant_count()
    &&& forall|p: int| 0 <= p < s.bits_count() ==> #[trigger] s.name_at(p) == T::bit_name(p)
    &&& forall|v: int|
        0 <= v < s.variant_count() ==> #[trigger] s.bits_of(v) == T::variant_bits(v)
            && s.variants@[v].name@ == T::variant_name(v) && s.variants@[v].desc@ == T::variant_desc(v)
}

/// Variant `v` of `T` matches `bits` and no earlier one does.
pub open spec fn is_first_variant<T: BitPattern>(bits: Seq<bool>, v: int) -> bool {
    &&& 0 <= v < T::variant_count()
    &&& pattern_matches(T::variant_bits(v), bits)
    &&& forall|j: int| 0 <= j < v ==> !pattern_matches(#[trigger] T::variant_bits(j), bits)
}

/// The variant of `T` that decoding `bits` yields.
pub open spec fn pattern_decode<T: BitPattern>(bits: Seq<bool>) -> Option<int> {
    if exists|v: int| is_first_variant::<T>(bits, v) {
        Some(choose|v: int| is_first_variant::<T>(bits, v))
    } else {
        None
    }
}

/// A table that describes `T` decodes as `T` does.
pub proof fn lemma_decode_agrees<T: BitPattern>(s: PatternSchema, bits: Seq<bool>)
    requires
        describes::<T>(s),
    ensures
        s.decode_spec(bits) == pattern_decode::<T>(bits),
{
    assert forall|v: int| s.is_first_match(bits, v) == is_first_variant::<T>(bits, v) by {
        if 0 <= v < s.variant_count() {
            assert(s.bits_of(v) == T::variant_bits(v));
            if s.is_first_match(bits, v) {
                assert forall|j: int| 0 <= j < v implies !pattern_matches(#[trigger] T::variant_bits(j), bits) by {
                    assert(s.bits_of(j) == T::variant_bits(j));
                }
            }
            if is_first_variant::<T>(bits, v) {
                assert forall|j: int| 0 <= j < v implies !pattern_matches(#[trigger] s.bits_of(j), bits) by {
                    assert(s.bits_of(j) == T::variant_bits(j));
                }
            }
        }
    }
    if exists|v: int| is_first_variant::<T>(bits, v) {
        let v = choose|v: int| is_first_variant::<T>(bits, v);
        s.lemma_first_match_unique(bits, v);
        let w = choose|w: int| is_first_variant::<T>(bits, w);
        s.lemma_first_match_unique(bits, w);
    }
}

/// Some variant of `T` declared before `v` matches the encoding of `v`.
pub open spec fn shadowed<T: BitPattern>(v: int) -> bool {
    exists|j: int| 0 <= j < v && pattern_matches(#[trigger] T::variant_bits(j), encode_bits(T::variant_bits(v)))
}

/// Decoding the encoding of a value gives back a value of the same
/// variant, hence that value, unless an earlier variant shadows it.
pub proof fn lemma_round_trip<T: BitPattern>(x: T, y: T)
    requires
        !shadowed::<T>(x.variant_of()),
        0 <= x.variant_of() < T::variant_count(),
        T::variant_bits(x.variant_of()).len() == T::bits_count(),
        pattern_decode::<T>(encode_bits(T::variant_bits(x.variant_of()))) == Some(y.variant_of()),
    ensures
        y == x,
{
    let v = x.variant_of();
    let bits = encode_bits(T::variant_bits(v));
    assert(pattern_matches(T::variant_bits(v), bits));
    assert forall|j: int| 0 <= j < v implies !pattern_matches(#[trigger] T::variant_bits(j), bits) by {
        if pattern_matches(T::variant_bits(j), bits) {
            assert(shadowed::<T>(v));
        }
    }
    assert(is_first_variant::<T>(bits, v));
    let w = choose|w: int| is_first_variant::<T>(bits, w);
    if w < v {
        assert(!pattern_matches(T::variant_bits(w), bits));
    } else if v < w {
        assert(!pattern_matches(T::variant_bits(v), bits));
    }
    T::lemma_variant_of_injective(x, y);
}

/// A table that describes `T` shadows exactly the variants `T` shadows.
pub proof fn lemma_describes_shadowed<T: BitPattern>(s: PatternSchema, v: int)
    requires
        describes::<T>(s),
        0 <= v < s.variant_count(),
    ensures
        s.shadowed(v) == shadowed::<T>(v),
{
    assert(s.bits_of(v) == T::variant_bits(v));
    if s.shadowed(v) {
        let j = choose|j: int| 0 <= j < v && pattern_matches(#[trigger] s.bits_of(j), encode_bits(s.bits_of(v)));
        assert(s.bits_of(j) == T::variant_bits(j));
    }
    if shadowed::<T>(v) {
        let j = choose|j: int|
            0 <= j < v && pattern_matches(#[trigger] T::variant_bits(j), encode_bits(T::variant_bits(v)));
        assert(s.bits_of(j) == T::variant_bits(j));
    }
}

/// Neither boolean variant is shadowed by the other.
pub proof fn lemma_bool_unshadowed()
    ensures
        forall|v: int| 0 <= v < 2 ==> !#[trigger] shadowed::<bool>(v),
{
    assert(!pattern_matches(
        <bool as BitPattern>::variant_bits(0),
        encode_bits(<bool as BitPattern>::variant_bits(1)),
    )) by {
        assert(<bool as BitPattern>::variant_bits(0)[0] == PatBit::Zero);
        assert(<bool as BitPattern>::variant_bits(1)[0] == PatBit::One);
    }
    assert forall|v: int| 0 <= v < 2 implies !#[trigger] shadowed::<bool>(v) by {
        assert(v == 0 || v == 1);
    }
}

/// Booleans as a one-bit pattern: `false` is `0`, `true` is `1`.
impl BitPattern for bool {
    type EncodeExtraType = ();

    type DecodeExtraType = ();

    open spec fn bits_count() -> nat {
        1
    }

    open spec fn variant_count() -> nat {
        2
    }

    open spec fn variant_bits(v: int) -> Seq<PatBit> {
        if v == 0 {
            seq![PatBit::Zero]
        } else {
            seq![PatBit::One]
        }
    }

    open spec fn bit_name(p: int) -> Seq<char> {
        seq!['0']
    }

    open spec fn variant_name(v: int) -> Seq<char> {
        if v == 0 {
            seq!['f', 'a', 'l', 's', 'e']
        } else {
            seq!['t', 'r', 'u', 'e']
        }
    }

    open spec fn variant_desc(v: int) -> Seq<char> {
        Self::variant_name(v)
    }

    open spec fn variant_of(&self) -> int {
        if *self {
            1
        } else {
            0
        }
    }

    fn schema() -> (r: PatternSchema) {
        proof {
            reveal_strlit("0");
            reveal_strlit("false");
            reveal_strlit("true");
        }
        let mut names: Vec<String> = Vec::new();
        names.push(String::from_str("0"));
        let mut zero: Vec<PatBit> = Vec::new();
        zero.push(PatBit::Zero);
        let mut one: Vec<PatBit> = Vec::new();
        one.push(PatBit::One);
        let mut variants: Vec<PatternVariant> = Vec::new();
        variants.push(
            PatternVariant {
                name: String::from_str("false"),
                desc: String::from_str("false"),
                bits: zero,
            },
        );
        variants.push(
            PatternVariant { name: String::from_str("true"), desc: String::from_str("true"), bits: one },
        );
        let r = PatternSchema { bit_names: names, variants };
        assert(<bool as BitPattern>::bits_count() == 1);
        assert(<bool as BitPattern>::variant_count() == 2);
        assert(<bool as BitPattern>::bit_name(0) == seq!['0']);
        assert(r.bits_of(0) =~= seq![PatBit::Zero]);
        assert(r.bits_of(1) =~= seq![PatBit::One]);
        assert(<bool as BitPattern>::variant_bits(0) == seq![PatBit::Zero]);
        assert(<bool as BitPattern>::variant_bits(1) == seq![PatBit::One]);
        assert(<bool as BitPattern>::variant_name(0) == seq!['f', 'a', 'l', 's', 'e']);
        assert(<bool as BitPattern>::variant_name(1) == seq!['t', 'r', 'u', 'e']);
        assert(<bool as BitPattern>::variant_desc(0) == seq!['f', 'a', 'l', 's', 'e']);
        assert(<bool as BitPattern>::variant_desc(1) == seq!['t', 'r', 'u', 'e']);
        r
    }

    fn variant_index(&self) -> (r: usize) {
        assert(<bool as BitPattern>::variant_count() == 2);
        if *self {
            1
        } else {
            0
        }
    }

    fn from_variant_index(v: usize) -> (r: Self) {
        v == 1
    }

    proof fn lemma_variant_of_injective(a: Self, b: Self) {
    }
}

} // verus!
