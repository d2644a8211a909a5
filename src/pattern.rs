//! Pattern codecs: closed sets of variants with fixed-width bit strings.

use vstd::prelude::*;
use vstd::string::*;
use crate::error::{CodecError, SchemaError};

verus! {

/// One character of a variant's bit string.
#[derive(Clone, Copy, Debug, PartialEq, Eq, Structural)]
pub enum PatBit {
    /// The bit is `false`.
    Zero,
    /// The bit is `true`.
    One,
    /// Either value matches on decode; encodes as `false`.
    Any,
}

/// One variant of a pattern: display name, description and bit string.
pub struct PatternVariant {
    pub name: String,
    pub desc: String,
    pub bits: Vec<PatBit>,
}

/// A pattern codec as a table: the canonical bit names, in position order,
/// and the variants, in declaration order.
pub struct PatternSchema {
    pub bit_names: Vec<String>,
    pub variants: Vec<PatternVariant>,
}

/// A stored bit is consistent with one character of a bit string.
pub open spec fn bit_matches(p: PatBit, b: bool) -> bool {
    match p {
        PatBit::Zero => !b,
        PatBit::One => b,
        PatBit::Any => true,
    }
}

/// Every character of `pat` is consistent with the bit at its position;
/// bits past the end of `pat` are not looked at, and an input shorter than
/// `pat` matches nothing.
pub open spec fn pattern_matches(pat: Seq<PatBit>, bits: Seq<bool>) -> bool {
    pat.len() <= bits.len() && forall|i: int| 0 <= i < pat.len() ==> bit_matches(pat[i], bits[i])
}

/// The concrete bit written for one character; a wildcard is written as `false`.
pub open spec fn bit_value(p: PatBit) -> bool {
    p == PatBit::One
}

/// The canonical bit vector of a bit string.
pub open spec fn encode_bits(pat: Seq<PatBit>) -> Seq<bool> {
    Seq::new(pat.len(), |i: int| bit_value(pat[i]))
}

impl PatternVariant {
    /// A variant with the given name, description and bit string.
    pub fn new(name: &str, desc: &str, bits: Vec<PatBit>) -> (r: PatternVariant)
        ensures
            r.name@ == name@,
            r.desc@ == desc@,
            r.bits@ == bits@,
    {
        PatternVariant { name: String::from_str(name), desc: String::from_str(desc), bits }
    }
}

impl PatternSchema {
    /// Number of canonical bits.
    pub open spec fn bits_count(&self) -> nat {
        self.bit_names@.len()
    }

    /// Number of variants.
    pub open spec fn variant_count(&self) -> nat {
        self.variants@.len()
    }

    /// Bit string of variant `v`.
    pub open spec fn bits_of(&self, v: int) -> Seq<PatBit> {
        self.variants@[v].bits@
    }

    /// Name of canonical position `p`.
    pub open spec fn name_at(&self, p: int) -> Seq<char> {
        self.bit_names@[p]@
    }

    /// Every variant has one character per bit name.
    pub open spec fn lengths_agree(&self) -> bool {
        forall|v: int| 0 <= v < self.variant_count() ==> #[trigger] self.bits_of(v).len() == self.bits_count()
    }

    /// No bit name occurs twice.
    pub open spec fn names_distinct(&self) -> bool {
        forall|p: int, q: int|
            0 <= p < self.bits_count() && 0 <= q < self.bits_count() && p != q ==> #[trigger] self.name_at(p)
                != #[trigger] self.name_at(q)
    }

    /// Well-formed schema.
    pub open spec fn wf(&self) -> bool {
        self.lengths_agree() && self.names_distinct()
    }

    /// Variant `v` matches `bits` and no earlier variant does.
    pub open spec fn is_first_match(&self, bits: Seq<bool>, v: int) -> bool {
        &&& 0 <= v < self.variant_count()
        &&& pattern_matches(self.bits_of(v), bits)
        &&& forall|j: int| 0 <= j < v ==> !pattern_matches(#[trigger] self.bits_of(j), bits)
    }

    /// The variant that decoding `bits` yields: the first one in declaration
    /// order whose bit string matches.
    pub open spec fn decode_spec(&self, bits: Seq<bool>) -> Option<int> {
        if exists|v: int| self.is_first_match(bits, v) {
            Some(choose|v: int| self.is_first_match(bits, v))
        } else {
            None
        }
    }

    /// Canonical position of the bit named `n`, if there is one.
    pub open spec fn pos_of_name(&self, n: Seq<char>) -> Option<int> {
        if exists|p: int| 0 <= p < self.bits_count() && self.name_at(p) == n {
            Some(choose|p: int| 0 <= p < self.bits_count() && self.name_at(p) == n)
        } else {
            None
        }
    }

    /// Some variant declared before `v` matches the encoding of `v`, so the
    /// encoding of `v` decodes to that earlier variant.
    pub open spec fn shadowed(&self, v: int) -> bool {
        exists|j: int| 0 <= j < v && pattern_matches(#[trigger] self.bits_of(j), encode_bits(self.bits_of(v)))
    }

    /// Number of canonical bits.
    pub fn bits_len(&self) -> (r: usize)
        ensures
            r == self.bits_count(),
    {
        self.bit_names.len()
    }

    /// Number of variants.
    pub fn variants_len(&self) -> (r: usize)
        ensures
            r == self.variant_count(),
    {
        self.variants.len()
    }

    /// Canonical bit vector of variant `var`; wildcards are written as `false`.
    pub fn encode(&self, var: usize) -> (r: Vec<bool>)
        requires
            var < self.variant_count(),
        ensures
            r@ == encode_bits(self.bits_of(var as int)),
    {
        let bits = &self.variants[var].bits;
        let mut out: Vec<bool> = Vec::new();
        let mut i: usize = 0;
        while i < bits.len()
            invariant
                bits@ == self.bits_of(var as int),
                i <= bits@.len(),
                out@ =~= encode_bits(bits@).subrange(0, i as int),
            decreases bits@.len() - i,
        {
            out.push(bits[i] == PatBit::One);
            i = i + 1;
        }
        assert(out@ =~= encode_bits(bits@));
        out
    }

    /// The bit string of variant `var` matches `bits`.
    pub fn variant_matches(&self, var: usize, bits: &[bool]) -> (r: bool)
        requires
            var < self.variant_count(),
        ensures
            r == pattern_matches(self.bits_of(var as int), bits@),
    {
        let pat = &self.variants[var].bits;
        if pat.len() > bits.len() {
            return false;
        }
        let mut i: usize = 0;
        while i < pat.len()
            invariant
                pat@ == self.bits_of(var as int),
                pat@.len() <= bits@.len(),
                i <= pat@.len(),
                forall|j: int| 0 <= j < i ==> bit_matches(pat@[j], bits@[j]),
            decreases pat@.len() - i,
        {
            let ok = match pat[i] {
                PatBit::Zero => !bits[i],
                PatBit::One => bits[i],
                PatBit::Any => true,
            };
            if !ok {
                return false;
            }
            i = i + 1;
        }
        true
    }

    /// Decodes `bits`: the first variant, in declaration order, whose bit
    /// string matches; `NoMatchingVariant` where none does.
    pub fn decode(&self, bits: &[bool]) -> (r: Result<usize, CodecError>)
        ensures
            match r {
                Ok(v) => self.decode_spec(bits@) == Some(v as int),
                Err(e) => e == CodecError::NoMatchingVariant && self.decode_spec(bits@) is None,
            },
    {
        let mut v: usize = 0;
        while v < self.variants.len()
            invariant
                v <= self.variant_count(),
                forall|j: int| 0 <= j < v ==> !pattern_matches(#[trigger] self.bits_of(j), bits@),
            decreases self.variant_count() - v,
        {
            if self.variant_matches(v, bits) {
                assert(self.is_first_match(bits@, v as int));
                proof {
                    self.lemma_first_match_unique(bits@, v as int);
                }
                return Ok(v);
            }
            v = v + 1;
        }
        assert(!exists|w: int| self.is_first_match(bits@, w));
        Err(CodecError::NoMatchingVariant)
    }

    /// A decoded variant is one of the declared variants.
    pub proof fn lemma_decode_in_range(&self, bits: Seq<bool>)
        ensures
            self.decode_spec(bits) matches Some(v) ==> self.is_first_match(bits, v) && 0 <= v
                < self.variant_count(),
    {
    }

    /// At most one variant is the first match.
    pub proof fn lemma_first_match_unique(&self, bits: Seq<bool>, v: int)
        requires
            self.is_first_match(bits, v),
        ensures
            self.decode_spec(bits) == Some(v),
    {
        let w = choose|w: int| self.is_first_match(bits, w);
        if w < v {
            assert(!pattern_matches(self.bits_of(w), bits));
        } else if v < w {
            assert(!pattern_matches(self.bits_of(v), bits));
        }
    }

    /// Canonical position of the declared bit named `name`.
    pub fn name_to_pos(&self, name: &str) -> (r: usize)
        requires
            self.wf(),
            self.pos_of_name(name@) is Some,
        ensures
            self.pos_of_name(name@) == Some(r as int),
            r < self.bits_count(),
            self.name_at(r as int) == name@,
    {
        match self.find_name(name) {
            Some(p) => p,
            None => {
                assert(false);
                0
            },
        }
    }

    /// Canonical position of the bit named `name`, or `None` where the
    /// pattern has no such bit.
    pub fn find_name(&self, name: &str) -> (r: Option<usize>)
        requires
            self.wf(),
        ensures
            r == match self.pos_of_name(name@) {
                Some(p) => Some(p as usize),
                None => None::<usize>,
            },
            r matches Some(p) ==> p < self.bits_count() && self.name_at(p as int) == name@,
    {
        let target = name.to_owned();
        let mut p: usize = 0;
        while p < self.bit_names.len()
            invariant
                self.wf(),
                target@ == name@,
                p <= self.bits_count(),
                forall|q: int| 0 <= q < p ==> #[trigger] self.name_at(q) != name@,
            decreases self.bits_count() - p,
        {
            if self.bit_names[p] == target {
                proof {
                    self.lemma_pos_of_name(p as int);
                }
                return Some(p);
            }
            p = p + 1;
        }
        None
    }

    /// Name of canonical position `pos`.
    pub fn pos_to_name(&self, pos: usize) -> (r: &str)
        requires
            pos < self.bits_count(),
        ensures
            r@ == self.name_at(pos as int),
    {
        self.bit_names[pos].as_str()
    }

    /// Display name of variant `var`.
    pub fn variant_name(&self, var: usize) -> (r: &str)
        requires
            var < self.variant_count(),
        ensures
            r@ == self.variants@[var as int].name@,
    {
        self.variants[var].name.as_str()
    }

    /// Description of variant `var`.
    pub fn variant_desc(&self, var: usize) -> (r: &str)
        requires
            var < self.variant_count(),
        ensures
            r@ == self.variants@[var as int].desc@,
    {
        self.variants[var].desc.as_str()
    }

    /// The name at position `p` has position `p`.
    pub proof fn lemma_pos_of_name(&self, p: int)
        requires
            self.wf(),
            0 <= p < self.bits_count(),
        ensures
            self.pos_of_name(self.name_at(p)) == Some(p),
    {
        let n = self.name_at(p);
        assert(0 <= p < self.bits_count() && self.name_at(p) == n);
        let q = choose|q: int| 0 <= q < self.bits_count() && self.name_at(q) == n;
        if q != p {
            assert(self.name_at(p) != self.name_at(q));
        }
    }

    /// Canonical order is a bijection: the name at each position maps back
    /// to that position, and every name that maps to a position is the name
    /// at that position, which lies in `0..bits_count`.
    pub proof fn lemma_canonical_order(&self)
        requires
            self.wf(),
        ensures
            forall|p: int| 0 <= p < self.bits_count() ==> #[trigger] self.pos_of_name(self.name_at(p)) == Some(p),
            forall|n: Seq<char>| #[trigger] self.pos_of_name(n) matches Some(p) ==> 0 <= p < self.bits_count() && self.name_at(p) == n,
    {
        assert forall|p: int| 0 <= p < self.bits_count() implies #[trigger] self.pos_of_name(self.name_at(p)) == Some(p) by {
            self.lemma_pos_of_name(p);
        }
    }

    /// Decoding the canonical encoding of a variant yields that variant,
    /// unless an earlier variant also matches that encoding.
    pub proof fn lemma_round_trip(&self, v: int)
        requires
            self.wf(),
            0 <= v < self.variant_count(),
            !self.shadowed(v),
        ensures
            self.decode_spec(encode_bits(self.bits_of(v))) == Some(v),
    {
        let bits = encode_bits(self.bits_of(v));
        assert(pattern_matches(self.bits_of(v), bits));
        assert forall|j: int| 0 <= j < v implies !pattern_matches(#[trigger] self.bits_of(j), bits) by {
            if pattern_matches(self.bits_of(j), bits) {
                assert(self.shadowed(v));
            }
        }
        self.lemma_first_match_unique(bits, v);
    }

    /// Where several variants match, decoding picks the one declared first.
    pub proof fn lemma_tie_break(&self, bits: Seq<bool>, i: int, j: int)
        requires
            0 <= i < j < self.variant_count(),
            pattern_matches(self.bits_of(i), bits),
            pattern_matches(self.bits_of(j), bits),
        ensures
            self.decode_spec(bits) matches Some(k) && k <= i && pattern_matches(self.bits_of(k), bits),
            self.decode_spec(bits) != Some(j),
    {
        self.lemma_first_match_exists(bits, i);
    }

    /// Where some variant matches, the first match exists and is no later.
    pub proof fn lemma_first_match_exists(&self, bits: Seq<bool>, i: int)
        requires
            0 <= i < self.variant_count(),
            pattern_matches(self.bits_of(i), bits),
        ensures
            self.decode_spec(bits) matches Some(k) && k <= i && self.is_first_match(bits, k),
        decreases i,
    {
        if exists|j: int| 0 <= j < i && pattern_matches(#[trigger] self.bits_of(j), bits) {
            let j = choose|j: int| 0 <= j < i && pattern_matches(#[trigger] self.bits_of(j), bits);
            self.lemma_first_match_exists(bits, j);
        } else {
            self.lemma_first_match_unique(bits, i);
        }
    }

    /// Builds a schema, checking that every variant has one character per
    /// bit name (checked first) and that no bit name repeats.
    pub fn new(bit_names: Vec<String>, variants: Vec<PatternVariant>) -> (r: Result<
        PatternSchema,
        SchemaError,
    >)
        ensures
            match r {
                Ok(s) => s.wf() && s.bit_names == bit_names && s.variants == variants,
                Err(e) => {
                    let s = PatternSchema { bit_names, variants };
                    ||| e == SchemaError::BitCountMismatch && !s.lengths_agree()
                    ||| e == SchemaError::DuplicateBitName && s.lengths_agree() && !s.names_distinct()
                },
            },
    {
        let ghost s = PatternSchema { bit_names, variants };
        let mut v: usize = 0;
        while v < variants.len()
            invariant
                s == (PatternSchema { bit_names, variants }),
                v <= variants@.len(),
                forall|w: int| 0 <= w < v ==> #[trigger] s.bits_of(w).len() == s.bits_count(),
            decreases variants@.len() - v,
        {
            if variants[v].bits.len() != bit_names.len() {
                assert(s.bits_of(v as int).len() != s.bits_count());
                return Err(SchemaError::BitCountMismatch);
            }
            v = v + 1;
        }
        let mut p: usize = 0;
        while p < bit_names.len()
            invariant
                s == (PatternSchema { bit_names, variants }),
                s.lengths_agree(),
                p <= bit_names@.len(),
                forall|a: int, b: int|
                    0 <= a < p && 0 <= b < s.bits_count() && a != b ==> #[trigger] s.name_at(a)
                        != #[trigger] s.name_at(b),
            decreases bit_names@.len() - p,
        {
            let mut q: usize = 0;
            while q < bit_names.len()
                invariant
                    s == (PatternSchema { bit_names, variants }),
                    s.lengths_agree(),
                    p < bit_names@.len(),
                    q <= bit_names@.len(),
                    forall|a: int, b: int|
                        0 <= a < p && 0 <= b < s.bits_count() && a != b ==> #[trigger] s.name_at(a)
                            != #[trigger] s.name_at(b),
                    forall|b: int| 0 <= b < q && b != p ==> s.name_at(p as int) != #[trigger] s.name_at(b),
                decreases bit_names@.len() - q,
            {
                if q != p && bit_names[p] == bit_names[q] {
                    assert(s.name_at(p as int) == s.name_at(q as int));
                    return Err(SchemaError::DuplicateBitName);
                }
                q = q + 1;
            }
            p = p + 1;
        }
        Ok(PatternSchema { bit_names, variants })
    }
}

} // verus!
